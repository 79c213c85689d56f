//! An editable text buffer with limits on its characters and wrapped lines.
use vstd::prelude::*;

use crate::chars::string_views;
use crate::keysyms::{KEY_z, KEY_Z};
use crate::text::edit::{
    accepted_prefix, answered, answers, char_len, clamped, clip, cut_range, grapheme_starts_of,
    inserted, insertion, key_effect, lemma_key_effect_widens, lemma_prev_start_below, printable,
    selection, with_inserted, with_undo, EditView, OutcomeView, TextEdit, TextEditOutcome,
    UNDO_LIMIT,
};
use crate::text::font::BitmapFont;
use crate::text::input::{KeyInput, KeyView};
use crate::text_wrap::{lines_fit, wrapped_lines};

verus! {

/// How a text is laid out: in which font, and how wide a line may be.
pub struct TextLayout<'a> {
    pub font: &'a BitmapFont,
    pub width: usize,
}

impl<'a> TextLayout<'a> {
    /// The lines that a text wraps to.
    pub open spec fn lines_of(&self, text: Seq<char>) -> Seq<Seq<char>> {
        wrapped_lines(self.font.run_of(text), self.width as nat)
    }

    /// Whether the machine can wrap every text of a length: it can measure the
    /// text, or the width leaves room for two characters.
    pub open spec fn wraps(&self, chars: nat) -> bool {
        self.width + 510 <= usize::MAX || 255 * chars <= usize::MAX
    }

    pub fn wrap(&self, text: &str) -> (r: Vec<String>)
        requires
            self.font.wf(),
            lines_fit(self.font.run_of(text@), self.width as nat),
        ensures
            string_views(r@) == self.lines_of(text@),
    {
        self.font.wrap_lines(text, self.width)
    }
}

pub struct TextField {
    pub text: String,
    pub edit: TextEdit,
    pub max_chars: usize,
    pub max_lines: usize,
}

/// What a field holds: its text and editing state, and its limits.
pub struct FieldView {
    pub text: Seq<char>,
    pub edit: EditView,
    pub max_chars: nat,
    pub max_lines: nat,
}

impl View for TextField {
    type V = FieldView;

    open spec fn view(&self) -> FieldView {
        FieldView {
            text: self.text@,
            edit: self.edit@,
            max_chars: self.max_chars as nat,
            max_lines: self.max_lines as nat,
        }
    }
}

impl FieldView {
    /// Whether a candidate keeps to the field's limits.
    pub open spec fn allows(self, layout: TextLayout<'_>, candidate: Seq<char>) -> bool {
        candidate.len() <= self.max_chars && layout.lines_of(candidate).len() <= self.max_lines
    }
}

/// A state with the cursor at a place, nothing selected and no drag.
pub open spec fn cursor_at(edit: EditView, cursor: nat, len: nat) -> EditView {
    EditView { cursor: clip(cursor, len), anchor: None, drag: None, ..edit }
}

impl TextField {
    /// A field as it starts.
    pub open spec fn starts(max_chars: usize, max_lines: usize, r: Self) -> bool {
        r@ == (FieldView {
            text: Seq::empty(),
            edit: EditView { cursor: 0, anchor: None, undo: Seq::empty(), drag: None },
            max_chars: max_chars as nat,
            max_lines: max_lines as nat,
        })
    }

    pub fn new(max_chars: usize, max_lines: usize) -> (r: Self)
        ensures
            Self::starts(max_chars, max_lines, r),
    {
        let r = TextField { text: String::new(), edit: TextEdit::default(), max_chars, max_lines };
        assert(r@.text =~= Seq::empty());
        r
    }

    pub fn text(&self) -> (r: &str)
        ensures
            r@ == self@.text,
    {
        self.text.as_str()
    }

    /// What another text leads to.
    pub open spec fn text_leads_to(&self, text: &str, after: &Self) -> bool {
        after@ == (FieldView {
            text: text@,
            edit: EditView {
                undo: Seq::empty(),
                ..cursor_at(self@.edit, self@.edit.cursor, text@.len())
            },
            ..self@
        })
    }

    /// Replaces the text, keeping the cursor as far as it reaches and dropping
    /// the selection, a drag and the undo history.
    pub fn set_text(&mut self, text: &str)
        ensures
            old(self).text_leads_to(text, final(self)),
    {
        self.text = text.to_owned();
        let cursor: usize = self.edit.cursor();
        let len: usize = char_len(self.text.as_str());
        let clipped: usize = if cursor < len {
            cursor
        } else {
            len
        };
        self.edit.set_cursor(clipped, self.text.as_str());
        self.edit.clear_undo();
    }

    pub fn clear(&mut self)
        ensures
            final(self)@ == (FieldView {
                text: Seq::empty(),
                edit: EditView { undo: Seq::empty(), ..cursor_at(old(self)@.edit, 0, 0) },
                ..old(self)@
            }),
    {
        self.text = String::new();
        assert(self.text@ =~= Seq::empty());
        self.edit.set_cursor(0, self.text.as_str());
        self.edit.clear_undo();
    }

    pub fn set_cursor(&mut self, cursor: usize)
        ensures
            final(self)@ == (FieldView {
                edit: cursor_at(old(self)@.edit, cursor as nat, old(self)@.text.len()),
                ..old(self)@
            }),
    {
        self.edit.set_cursor(cursor, self.text.as_str());
    }

    pub fn set_cursor_end(&mut self)
        ensures
            final(self)@ == (FieldView {
                edit: cursor_at(
                    old(self)@.edit,
                    old(self)@.text.len(),
                    old(self)@.text.len(),
                ),
                ..old(self)@
            }),
    {
        let len: usize = char_len(self.text.as_str());
        self.edit.set_cursor(len, self.text.as_str());
    }

    pub fn cursor(&self) -> (r: usize)
        ensures
            r == self@.edit.cursor,
    {
        self.edit.cursor()
    }

    pub fn selection_range(&self) -> (r: Option<(usize, usize)>)
        ensures
            match r {
                Some((start, end)) => selection(self@.edit) == Some((start as nat, end as nat)),
                None => selection(self@.edit) is None,
            },
    {
        self.edit.selection_range()
    }

    /// Applies a key press; a change that breaks a limit is cut to the part
    /// that keeps it.
    pub fn handle_key(
        &mut self,
        input: &KeyInput,
        clipboard_text: Option<&str>,
        layout: &TextLayout<'_>,
    ) -> (r: TextEditOutcome)
        requires
            layout.font.wf(),
            old(self)@.text.len() + 1 <= usize::MAX,
            clipboard_text matches Some(paste) ==> old(self)@.text.len() + paste@.len()
                <= usize::MAX,
            layout.wraps(clip(old(self)@.max_chars, old(self)@.text.len() + 1)),
            clipboard_text matches Some(paste) ==> layout.wraps(
                clip(old(self)@.max_chars, old(self)@.text.len() + paste@.len()),
            ),
        ensures
            key_effect(
                |c: Seq<char>, a: bool| a == old(self)@.allows(*layout, c),
                input@,
                match clipboard_text {
                    Some(paste) => Some(paste@),
                    None => None,
                },
                old(self)@.edit,
                old(self)@.text,
                final(self)@.edit,
                final(self)@.text,
                r@,
            ),
            final(self)@.max_chars == old(self)@.max_chars,
            final(self)@.max_lines == old(self)@.max_lines,
    {
        let max_chars: usize = self.max_chars;
        let max_lines: usize = self.max_lines;
        let ghost before = self@;
        let ghost paste_len = match clipboard_text {
            Some(paste) => paste@.len(),
            None => 0,
        };
        let allowed = |candidate: &str| -> (ok: bool)
            requires
                layout.font.wf(),
                layout.wraps(clip(max_chars as nat, candidate@.len())),
            ensures
                ok == (candidate@.len() <= max_chars && layout.lines_of(candidate@).len()
                    <= max_lines),
            {
                if char_len(candidate) <= max_chars {
                    proof {
                        layout.font.lemma_lines_fit(candidate@, layout.width as nat);
                    }
                    let lines = layout.wrap(candidate);
                    assert(string_views(lines@).len() == lines@.len());
                    lines.len() <= max_lines
                } else {
                    false
                }
            };
        proof {
            assert forall|s: &str| s@.len() <= before.text.len() + 1 || (clipboard_text matches Some(
                paste,
            ) && s@.len() <= before.text.len() + paste@.len()) implies #[trigger] allowed.requires(
                (s,),
            ) by {}
        }
        let r = self.edit.handle_key(input, &mut self.text, clipboard_text, allowed);
        proof {
            let wide = |c: Seq<char>, a: bool| a == before.allows(*layout, c);
            assert forall|c: Seq<char>, a: bool| #[trigger] answers(allowed)(c, a) implies wide(
                c,
                a,
            ) by {
                assert(answered(allowed, c, a));
                let s = choose|s: &str| s@ == c && #[trigger] allowed.ensures((s,), a);
                assert(allowed.ensures((s,), a));
            }
            lemma_key_effect_widens(
                answers(allowed),
                wide,
                input@,
                match clipboard_text {
                    Some(paste) => Some(paste@),
                    None => None,
                },
                before.edit,
                before.text,
                self@.edit,
                self@.text,
                r@,
            );
        }
        r
    }

    /// How selecting with the mouse begins.
    pub open spec fn drag_begins(&self, index: usize, after: &Self) -> bool {
        after@ == (FieldView {
            edit: EditView {
                cursor: clip(index as nat, self@.text.len()),
                anchor: None,
                drag: Some(clip(index as nat, self@.text.len())),
                ..self@.edit
            },
            ..self@
        })
    }

    pub fn begin_drag(&mut self, index: usize)
        ensures
            old(self).drag_begins(index, final(self)),
    {
        self.edit.begin_drag(index, self.text.as_str());
    }

    /// How selecting with the mouse goes on.
    pub open spec fn drag_goes_on(&self, index: usize, after: &Self, r: bool) -> bool {
        match self@.edit.drag {
            None => !r && after@ == self@,
            Some(start) => {
                let at = clip(index as nat, self@.text.len());
                &&& after@ == (FieldView {
                    edit: EditView {
                        cursor: at,
                        anchor: if start != at {
                            Some(start)
                        } else {
                            None
                        },
                        ..self@.edit
                    },
                    ..self@
                })
                &&& r == (self@.edit.cursor != after@.edit.cursor
                    || self@.edit.anchor != after@.edit.anchor)
            },
        }
    }

    /// Extends a mouse selection; answers whether anything changed.
    pub fn drag_to(&mut self, index: usize) -> (r: bool)
        ensures
            old(self).drag_goes_on(index, final(self), r),
    {
        self.edit.drag_to(index, self.text.as_str())
    }

    pub fn end_drag(&mut self)
        ensures
            final(self)@ == (FieldView {
                edit: EditView { drag: None, ..old(self)@.edit },
                ..old(self)@
            }),
    {
        self.edit.end_drag();
    }

    pub fn is_dragging(&self) -> (r: bool)
        ensures
            r == (self@.edit.drag is Some),
    {
        self.edit.is_dragging()
    }
}

/// No key but undo makes a field's text longer than it was unless the longer
/// text keeps to the field's limits.
pub proof fn lemma_typing_keeps_limits(
    field: FieldView,
    layout: TextLayout<'_>,
    key: KeyView,
    clipboard: Option<Seq<char>>,
    after: EditView,
    text_after: Seq<char>,
    outcome: OutcomeView,
)
    requires
        key_effect(
            |c: Seq<char>, a: bool| a == field.allows(layout, c),
            key,
            clipboard,
            field.edit,
            field.text,
            after,
            text_after,
            outcome,
        ),
        !(key.ctrl && (key.sym == KEY_z || key.sym == KEY_Z)),
    ensures
        text_after.len() <= field.text.len() || field.allows(layout, text_after),
{
    let answers = |c: Seq<char>, a: bool| a == field.allows(layout, c);
    let text = field.text;
    let e = clamped(field.edit, text.len());
    assert forall|insert: Seq<char>, changed: bool| #[trigger]
        insertion(answers, e, text, insert, after, text_after, changed) implies text_after.len()
        <= text.len() || field.allows(layout, text_after) by {
        let typed = printable(insert);
        if typed.len() > 0 {
            let n = choose|n: nat| #[trigger]
                accepted_prefix(answers, e, text, typed, n) && if n == 0 {
                    after == e && text_after == text && !changed
                } else {
                    (after, text_after) == inserted(e, text, typed.take(n as int)) && changed
                };
            if n > 0 {
                assert(answers(with_inserted(e, text, typed.take(n as int)), true));
                assert(inserted(e, text, typed.take(n as int)).1 == with_inserted(
                    e,
                    text,
                    typed.take(n as int),
                ));
            }
        }
    }
    if let Some((start, end)) = selection(e) {
        assert(cut_range(text, start, end).len() <= text.len());
    }
    lemma_prev_start_below(text, grapheme_starts_of(text), e.cursor);
}

/// Whether a text, and every text that undo brings back, has at most `n`
/// characters.
pub open spec fn within(e: EditView, text: Seq<char>, n: nat) -> bool {
    &&& text.len() <= n
    &&& forall|i: int| 0 <= i < e.undo.len() ==> (#[trigger] e.undo[i]).0.len() <= n
}

proof fn lemma_insertion_stays_within(
    field: FieldView,
    layout: TextLayout<'_>,
    insert: Seq<char>,
    after: EditView,
    text_after: Seq<char>,
    changed: bool,
)
    requires
        insertion(
            |c: Seq<char>, a: bool| a == field.allows(layout, c),
            clamped(field.edit, field.text.len()),
            field.text,
            insert,
            after,
            text_after,
            changed,
        ),
        within(field.edit, field.text, field.max_chars),
    ensures
        within(after, text_after, field.max_chars),
{
    let answers = |c: Seq<char>, a: bool| a == field.allows(layout, c);
    let e = clamped(field.edit, field.text.len());
    let typed = printable(insert);
    if typed.len() > 0 {
        let n = choose|n: nat| #[trigger]
            accepted_prefix(answers, e, field.text, typed, n) && if n == 0 {
                after == e && text_after == field.text && !changed
            } else {
                (after, text_after) == inserted(e, field.text, typed.take(n as int)) && changed
            };
        if n > 0 {
            assert(answers(with_inserted(e, field.text, typed.take(n as int)), true));
            lemma_undo_stays_within(e, field.text, field.max_chars);
        }
    }
}

proof fn lemma_undo_stays_within(e: EditView, text: Seq<char>, n: nat)
    requires
        within(e, text, n),
    ensures
        within(with_undo(e, text), text, n),
{
    let kept = with_undo(e, text);
    assert forall|i: int| 0 <= i < kept.undo.len() implies (#[trigger] kept.undo[i]).0.len()
        <= n by {
        if i < kept.undo.len() - 1 {
            if e.undo.len() == UNDO_LIMIT {
                assert(kept.undo[i] == e.undo[i + 1]);
            } else {
                assert(kept.undo[i] == e.undo[i]);
            }
        }
    }
}

/// A field never comes to hold more characters than its limit: whatever key is
/// pressed, its text stays within it, and so does every text that undo brings
/// back.
pub proof fn lemma_keys_keep_within_limit(
    field: FieldView,
    layout: TextLayout<'_>,
    key: KeyView,
    clipboard: Option<Seq<char>>,
    after: EditView,
    text_after: Seq<char>,
    outcome: OutcomeView,
)
    requires
        key_effect(
            |c: Seq<char>, a: bool| a == field.allows(layout, c),
            key,
            clipboard,
            field.edit,
            field.text,
            after,
            text_after,
            outcome,
        ),
        within(field.edit, field.text, field.max_chars),
    ensures
        within(after, text_after, field.max_chars),
{
    let answers = |c: Seq<char>, a: bool| a == field.allows(layout, c);
    let text = field.text;
    let e = clamped(field.edit, text.len());
    lemma_undo_stays_within(e, text, field.max_chars);
    lemma_prev_start_below(text, grapheme_starts_of(text), e.cursor);
    if let Some((start, end)) = selection(e) {
        assert(cut_range(text, start, end).len() <= text.len());
    }
    if e.undo.len() > 0 {
        assert(e.undo.last().0.len() <= field.max_chars);
    }
    assert forall|insert: Seq<char>, changed: bool| #[trigger]
        insertion(answers, e, text, insert, after, text_after, changed) implies within(
        after,
        text_after,
        field.max_chars,
    ) by {
        lemma_insertion_stays_within(field, layout, insert, after, text_after, changed);
    }
}

/// A field takes a text that has no more characters and no more lines than it may
/// have.
pub proof fn lemma_field_limits(field: FieldView, layout: TextLayout<'_>, candidate: Seq<char>)
    ensures
        field.allows(layout, candidate) ==> candidate.len() <= field.max_chars,
        field.allows(layout, candidate) ==> wrapped_lines(
            layout.font.run_of(candidate),
            layout.width as nat,
        ).len() <= field.max_lines,
        candidate.len() > field.max_chars ==> !field.allows(layout, candidate),
        candidate.len() <= field.max_chars && wrapped_lines(
            layout.font.run_of(candidate),
            layout.width as nat,
        ).len() <= field.max_lines ==> field.allows(layout, candidate),
{
}

/// A cursor that is set lies in the text, and nothing is selected or dragged then.
pub proof fn lemma_cursor_set(edit: EditView, cursor: nat, len: nat)
    ensures
        cursor <= len ==> cursor_at(edit, cursor, len).cursor == cursor,
        cursor > len ==> cursor_at(edit, cursor, len).cursor == len,
        cursor_at(edit, cursor, len).anchor is None,
        cursor_at(edit, cursor, len).drag is None,
        cursor_at(edit, cursor, len).undo == edit.undo,
{
}

/// Selecting with the mouse begins at the character that is pressed, or at the text's
/// end, with nothing selected; it changes no text.
pub proof fn lemma_field_drag_begins(before: &TextField, index: usize, after: &TextField)
    requires
        before.drag_begins(index, after),
    ensures
        after@.text == before@.text,
        after@.max_chars == before@.max_chars,
        after@.max_lines == before@.max_lines,
        after@.edit.undo == before@.edit.undo,
        after@.edit.anchor is None,
        after@.edit.drag == Some(after@.edit.cursor),
        index <= before@.text.len() ==> after@.edit.cursor == index,
        index > before@.text.len() ==> after@.edit.cursor == before@.text.len(),
{
}

/// A selection goes on from where it began to the character under the mouse; back at
/// its start nothing is selected. It changes no text, and says whether it changed.
pub proof fn lemma_field_drag_goes_on(before: &TextField, index: usize, after: &TextField, r: bool)
    requires
        before.drag_goes_on(index, after, r),
    ensures
        after@.text == before@.text,
        after@.edit.undo == before@.edit.undo,
        after@.edit.drag == before@.edit.drag,
        before@.edit.drag is None ==> after@ == before@ && !r,
        r <==> after@.edit.cursor != before@.edit.cursor || after@.edit.anchor
            != before@.edit.anchor,
        before@.edit.drag matches Some(start) ==> {
            &&& index <= before@.text.len() ==> after@.edit.cursor == index
            &&& index > before@.text.len() ==> after@.edit.cursor == before@.text.len()
            &&& after@.edit.cursor == start ==> after@.edit.anchor is None
            &&& after@.edit.cursor != start ==> after@.edit.anchor == Some(start)
        },
{
}

/// A field starts empty, with its limits. Another text takes the place of the old one
/// and its history; the cursor stays where it is, or at the new text's end, and nothing
/// is selected.
pub proof fn lemma_fields_hold(
    max_chars: usize,
    max_lines: usize,
    new: TextField,
    before: &TextField,
    text: &str,
    after: &TextField,
)
    ensures
        TextField::starts(max_chars, max_lines, new) ==> new@.text.len() == 0 && new@.edit.cursor
            == 0 && new@.edit.anchor is None && new@.edit.undo.len() == 0 && new@.edit.drag is None
            && new@.max_chars == max_chars && new@.max_lines == max_lines,
        before.text_leads_to(text, after) ==> {
            &&& after@.text == text@
            &&& after@.edit.undo.len() == 0
            &&& after@.edit.anchor is None
            &&& after@.max_chars == before@.max_chars
            &&& after@.max_lines == before@.max_lines
            &&& before@.edit.cursor <= text@.len() ==> after@.edit.cursor == before@.edit.cursor
            &&& before@.edit.cursor > text@.len() ==> after@.edit.cursor == text@.len()
        },
{
}

} // verus!
