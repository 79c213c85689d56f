//! The editing of one line of text: cursor, selection, undo and dragging.
use std::collections::VecDeque;
use unicode_segmentation::UnicodeSegmentation;
use vstd::prelude::*;
use vstd::string::StrSliceExecFns;
use vstd::utf8::encode_utf8;

use crate::chars::{
    append_chars, byte_offset, chars_within, control, copy_chars, from_chars, is_control,
    lemma_byte_offset_mono, lemma_byte_offset_step, lemma_chars_within, to_chars, utf8_width,
};
use crate::keysyms::{
    KEY_A, KEY_C, KEY_End, KEY_Home, KEY_KP_End, KEY_KP_Home, KEY_KP_Left, KEY_KP_Right, KEY_Left,
    KEY_Right, KEY_V, KEY_X, KEY_Z, KEY_a, KEY_c, KEY_v, KEY_x, KEY_z,
};
use crate::text::input::{edit_key, edit_key_of, EditKey, KeyInput, KeyView};

verus! {

/// Oldest undo states are dropped past this depth.
pub const UNDO_LIMIT: usize = 100;

/// The state of an edited line, apart from its text. Positions count
/// characters.
pub struct TextEdit {
    cursor: usize,
    anchor: Option<usize>,
    undo: VecDeque<(String, usize)>,
    drag_anchor: Option<usize>,
}

/// What an edited line's state holds: `undo` lists texts with their cursors,
/// oldest first.
#[verifier::ext_equal]
pub struct EditView {
    pub cursor: nat,
    pub anchor: Option<nat>,
    pub undo: Seq<(Seq<char>, nat)>,
    pub drag: Option<nat>,
}

pub open spec fn position(p: Option<usize>) -> Option<nat> {
    match p {
        Some(n) => Some(n as nat),
        None => None,
    }
}

impl View for TextEdit {
    type V = EditView;

    closed spec fn view(&self) -> EditView {
        EditView {
            cursor: self.cursor as nat,
            anchor: position(self.anchor),
            undo: Seq::new(
                self.undo@.len(),
                |i: int| (self.undo@[i].0@, self.undo@[i].1 as nat),
            ),
            drag: position(self.drag_anchor),
        }
    }
}

/// What a key press did.
pub enum TextEditOutcome {
    Handled { changed: bool, copy: Option<String> },
    Unhandled,
}

pub enum OutcomeView {
    Handled { changed: bool, copy: Option<Seq<char>> },
    Unhandled,
}

impl View for TextEditOutcome {
    type V = OutcomeView;

    open spec fn view(&self) -> OutcomeView {
        match self {
            TextEditOutcome::Handled { changed, copy } => OutcomeView::Handled {
                changed: *changed,
                copy: match copy {
                    Some(s) => Some(s@),
                    None => None,
                },
            },
            TextEditOutcome::Unhandled => OutcomeView::Unhandled,
        }
    }
}

pub open spec fn handled_view(changed: bool) -> OutcomeView {
    OutcomeView::Handled { changed, copy: None }
}

fn handled(changed: bool) -> (r: TextEditOutcome)
    ensures
        r@ == handled_view(changed),
{
    TextEditOutcome::Handled { changed, copy: None }
}

pub open spec fn clip(n: nat, len: nat) -> nat {
    if n <= len {
        n
    } else {
        len
    }
}

/// The selected range, lower end first, when anything is selected.
pub open spec fn selection(e: EditView) -> Option<(nat, nat)> {
    match e.anchor {
        Some(a) => if a < e.cursor {
            Some((a, e.cursor))
        } else if e.cursor < a {
            Some((e.cursor, a))
        } else {
            None
        },
        None => None,
    }
}

/// Cursor and anchor brought back into a text of `len` characters.
pub open spec fn clamped(e: EditView, len: nat) -> EditView {
    EditView {
        cursor: clip(e.cursor, len),
        anchor: match e.anchor {
            Some(a) => Some(clip(a, len)),
            None => None,
        },
        undo: e.undo,
        drag: e.drag,
    }
}

/// The state with `text` and the cursor put on top of the undo history.
pub open spec fn with_undo(e: EditView, text: Seq<char>) -> EditView {
    let kept = if e.undo.len() == UNDO_LIMIT {
        e.undo.subrange(1, e.undo.len() as int)
    } else {
        e.undo
    };
    EditView {
        cursor: e.cursor,
        anchor: e.anchor,
        undo: kept.push((text, e.cursor)),
        drag: e.drag,
    }
}

/// The text without the characters from `start` up to `end`.
pub open spec fn cut_range(text: Seq<char>, start: nat, end: nat) -> Seq<char> {
    text.take(clip(start, text.len()) as int) + text.skip(clip(end, text.len()) as int)
}

pub open spec fn char_range(text: Seq<char>, start: nat, end: nat) -> Seq<char> {
    text.subrange(clip(start, text.len()) as int, clip(end, text.len()) as int)
}

/// State and text once the selection, if any, is deleted.
pub open spec fn without_selection(e: EditView, text: Seq<char>) -> (EditView, Seq<char>) {
    match selection(e) {
        Some((start, end)) => (
            EditView { cursor: start, anchor: None, undo: e.undo, drag: None },
            cut_range(text, start, end),
        ),
        None => (e, text),
    }
}

/// The characters of a text that may be typed into a line.
pub open spec fn printable(s: Seq<char>) -> Seq<char>
    decreases s.len(),
{
    if s.len() == 0 {
        s
    } else if control(s.last()) {
        printable(s.drop_last())
    } else {
        printable(s.drop_last()).push(s.last())
    }
}

/// The text with the selection replaced by `added`, or with `added` put in at
/// the cursor.
pub open spec fn with_inserted(e: EditView, text: Seq<char>, added: Seq<char>) -> Seq<char> {
    let (at, base) = match selection(e) {
        Some((start, end)) => (start, cut_range(text, start, end)),
        None => (e.cursor, text),
    };
    base.take(clip(at, base.len()) as int) + added + base.skip(clip(at, base.len()) as int)
}

/// State and text once `added` is typed.
pub open spec fn inserted(e: EditView, text: Seq<char>, added: Seq<char>) -> (
    EditView,
    Seq<char>,
) {
    let bare = without_selection(with_undo(e, text), text).0;
    (
        EditView {
            cursor: bare.cursor + added.len(),
            anchor: None,
            undo: bare.undo,
            drag: bare.drag,
        },
        with_inserted(e, text, added),
    )
}

/// State once the cursor is sent to `cursor` in a text of `len` characters.
/// With `selecting` the anchor stays behind. Otherwise a selection is dropped,
/// and with `to_edge` the cursor stops at the selection's near edge.
pub open spec fn moved(
    e: EditView,
    len: nat,
    cursor: nat,
    selecting: bool,
    to_edge: bool,
) -> EditView {
    let target = clip(cursor, len);
    if selecting {
        let anchor = match e.anchor {
            Some(a) => a,
            None => e.cursor,
        };
        EditView {
            cursor: target,
            anchor: if anchor == target {
                None
            } else {
                Some(anchor)
            },
            undo: e.undo,
            drag: e.drag,
        }
    } else {
        match selection(e) {
            Some((start, end)) => EditView {
                cursor: if to_edge {
                    if target < e.cursor {
                        start
                    } else {
                        end
                    }
                } else {
                    target
                },
                anchor: None,
                undo: e.undo,
                drag: None,
            },
            None => EditView { cursor: target, anchor: None, undo: e.undo, drag: e.drag },
        }
    }
}

/// State and text once the newest undo entry is taken back.
pub open spec fn undone(e: EditView, text: Seq<char>) -> (EditView, Seq<char>) {
    if e.undo.len() == 0 {
        (e, text)
    } else {
        let (previous, cursor) = e.undo.last();
        (
            EditView {
                cursor: clip(cursor, previous.len()),
                anchor: None,
                undo: e.undo.drop_last(),
                drag: None,
            },
            previous,
        )
    }
}

/// State and text after a backspace, where `start` is where the grapheme
/// before the cursor begins.
pub open spec fn backspaced(e: EditView, text: Seq<char>, start: nat) -> (EditView, Seq<char>) {
    if selection(e) is Some {
        without_selection(with_undo(e, text), text)
    } else if e.cursor == 0 {
        (e, text)
    } else {
        (
            EditView { cursor: start, ..with_undo(e, text) },
            cut_range(text, start, e.cursor),
        )
    }
}

/// The byte offsets at which the extended grapheme clusters of a text begin.
pub uninterp spec fn grapheme_starts_of(text: Seq<char>) -> Seq<usize>;

/// A text's cluster starts: none for an empty text, otherwise increasing from
/// zero, each the byte offset of some character.
pub open spec fn cluster_starts(text: Seq<char>, starts: Seq<usize>) -> bool {
    &&& text.len() == 0 <==> starts.len() == 0
    &&& starts.len() > 0 ==> starts[0] == 0
    &&& forall|i: int, j: int| 0 <= i < j < starts.len() ==> starts[i] < starts[j]
    &&& forall|i: int|
        0 <= i < starts.len() ==> exists|k: int|
            0 <= k < text.len() && #[trigger] starts[i] == #[trigger] byte_offset(text, k)
}

/// `unicode_segmentation`'s `UnicodeSegmentation::grapheme_indices`, asked for
/// extended clusters: the byte offset of each cluster. Clusters are slices of
/// the text that follow one another without gaps from its start, so the offsets
/// increase from zero and fall between characters. Where the clusters lie is
/// Unicode's rule, which the result is named after and not spelled out.
#[verifier::external_body]
fn grapheme_starts(text: &str) -> (r: Vec<usize>)
    ensures
        r@ == grapheme_starts_of(text@),
        cluster_starts(text@, r@),
{
    text.grapheme_indices(true).map(|(start, _)| start).collect()
}

/// How many of the first `starts` lie below `byte`, with none left out.
pub open spec fn starts_below(starts: Seq<usize>, byte: nat) -> nat
    decreases starts.len(),
{
    if starts.len() == 0 {
        0
    } else {
        let before = starts_below(starts.drop_last(), byte);
        if before == starts.len() - 1 && starts.last() < byte {
            starts.len()
        } else {
            before
        }
    }
}

/// The character at which the cluster strictly before the cursor begins, or
/// the one around it when it stands inside one; 0 at the start of the text.
pub open spec fn prev_start(text: Seq<char>, starts: Seq<usize>, cursor: nat) -> nat {
    let n = starts_below(starts, byte_offset(text, clip(cursor, text.len()) as int));
    if n == 0 {
        0
    } else {
        chars_within(text, starts[n - 1] as nat)
    }
}

/// The byte just past the cluster at index `i`.
pub open spec fn cluster_end(text: Seq<char>, starts: Seq<usize>, i: int) -> nat {
    if i + 1 < starts.len() {
        starts[i + 1] as nat
    } else {
        encode_utf8(text).len()
    }
}

/// Whether `i` is the first cluster that ends past `byte`.
pub open spec fn first_ending_past(
    text: Seq<char>,
    starts: Seq<usize>,
    byte: nat,
    i: int,
) -> bool {
    &&& 0 <= i < starts.len()
    &&& cluster_end(text, starts, i) > byte
    &&& forall|j: int| 0 <= j < i ==> #[trigger] cluster_end(text, starts, j) <= byte
}

/// The character just past the cluster that the cursor stands at or in; the
/// length of the text when there is none.
pub open spec fn next_end(text: Seq<char>, starts: Seq<usize>, cursor: nat, r: nat) -> bool {
    let byte = byte_offset(text, clip(cursor, text.len()) as int);
    if exists|i: int| first_ending_past(text, starts, byte, i) {
        exists|i: int| #[trigger]
            first_ending_past(text, starts, byte, i) && r == chars_within(
                text,
                cluster_end(text, starts, i),
            )
    } else {
        r == text.len()
    }
}

pub fn char_len(text: &str) -> (r: usize)
    ensures
        r == text@.len(),
{
    text.unicode_len()
}

/// The byte offset of a character, or the length in bytes past the last one.
pub fn char_to_byte(text: &str, char_index: usize) -> (r: usize)
    ensures
        r == byte_offset(text@, clip(char_index as nat, text@.len()) as int),
{
    let chars = to_chars(text);
    let bytes = text.as_bytes();
    let total: usize = bytes.len();
    let mut offset: usize = 0;
    let mut i: usize = 0;
    assert(text@.take(0) =~= Seq::<char>::empty());
    while i < chars.len() && i < char_index
        invariant
            i <= chars@.len(),
            i <= char_index,
            chars@ == text@,
            total == encode_utf8(text@).len(),
            offset == byte_offset(text@, i as int),
        decreases chars@.len() - i,
    {
        proof {
            lemma_byte_offset_step(text@, i as int);
            lemma_byte_offset_mono(text@, i as int, i + 1);
        }
        offset = offset + utf8_width(chars[i]);
        i += 1;
    }
    offset
}

/// The characters from `start` up to `end`.
pub fn slice_chars(text: &str, start: usize, end: usize) -> (r: &str)
    requires
        clip(start as nat, text@.len()) <= clip(end as nat, text@.len()),
    ensures
        r@ == char_range(text@, start as nat, end as nat),
{
    let len: usize = char_len(text);
    let from: usize = if start < len {
        start
    } else {
        len
    };
    let to: usize = if end < len {
        end
    } else {
        len
    };
    text.substring_char(from, to)
}

/// How many whole characters of `text` lie within its first `byte` bytes.
pub fn chars_before(text: &str, byte: usize) -> (r: usize)
    ensures
        r == chars_within(text@, byte as nat),
        r <= text@.len(),
{
    let chars = to_chars(text);
    let bytes = text.as_bytes();
    let total: usize = bytes.len();
    let mut offset: usize = 0;
    let mut i: usize = 0;
    assert(text@.take(0) =~= Seq::<char>::empty());
    while i < chars.len()
        invariant
            i <= chars@.len(),
            chars@ == text@,
            total == encode_utf8(text@).len(),
            offset == byte_offset(text@, i as int),
            offset <= byte,
        decreases chars@.len() - i,
    {
        proof {
            lemma_byte_offset_step(text@, i as int);
            lemma_byte_offset_mono(text@, i as int, i + 1);
        }
        let next: usize = offset + utf8_width(chars[i]);
        if next > byte {
            proof {
                lemma_chars_within(text@, byte as nat, i as int);
            }
            return i;
        }
        offset = next;
        i += 1;
    }
    proof {
        lemma_chars_within(text@, byte as nat, i as int);
    }
    i
}

/// The start of the cluster before the cursor, for clusters that begin at the
/// given byte offsets.
pub fn start_before(text: &str, starts: &Vec<usize>, cursor: usize) -> (r: usize)
    ensures
        r == prev_start(text@, starts@, cursor as nat),
        r <= text@.len(),
{
    let byte: usize = char_to_byte(text, cursor);
    let mut n: usize = 0;
    assert(starts@.take(0) =~= Seq::<usize>::empty());
    while n < starts.len() && starts[n] < byte
        invariant
            n <= starts@.len(),
            starts_below(starts@.take(n as int), byte as nat) == n,
        decreases starts@.len() - n,
    {
        assert(starts@.take(n + 1).drop_last() =~= starts@.take(n as int));
        n += 1;
    }
    proof {
        lemma_starts_below(starts@, byte as nat, n as int);
    }
    if n == 0 {
        0
    } else {
        chars_before(text, starts[n - 1])
    }
}

proof fn lemma_starts_below(starts: Seq<usize>, byte: nat, n: int)
    requires
        0 <= n <= starts.len(),
        starts_below(starts.take(n), byte) == n,
        n == starts.len() || starts[n] >= byte,
    ensures
        starts_below(starts, byte) == n,
    decreases starts.len(),
{
    if n == starts.len() {
        assert(starts.take(n) =~= starts);
    } else if n == starts.len() - 1 {
        assert(starts.drop_last() =~= starts.take(n));
    } else {
        let front = starts.drop_last();
        assert(front.take(n) =~= starts.take(n));
        lemma_starts_below(front, byte, n);
    }
}

/// The end of the cluster at the cursor, for clusters that begin at the given
/// byte offsets.
pub fn end_after(text: &str, starts: &Vec<usize>, cursor: usize) -> (r: usize)
    ensures
        next_end(text@, starts@, cursor as nat, r as nat),
        r <= text@.len(),
{
    let byte: usize = char_to_byte(text, cursor);
    let bytes = text.as_bytes();
    let total: usize = bytes.len();
    let mut i: usize = 0;
    while i < starts.len()
        invariant
            i <= starts@.len(),
            total == encode_utf8(text@).len(),
            byte == byte_offset(text@, clip(cursor as nat, text@.len()) as int),
            forall|j: int|
                0 <= j < i ==> #[trigger] cluster_end(text@, starts@, j) <= byte,
        decreases starts@.len() - i,
    {
        let end: usize = if i + 1 < starts.len() {
            starts[i + 1]
        } else {
            total
        };
        if end > byte {
            assert(first_ending_past(text@, starts@, byte as nat, i as int));
            return chars_before(text, end);
        }
        i += 1;
    }
    assert forall|k: int| !first_ending_past(text@, starts@, byte as nat, k) by {
        if 0 <= k < starts@.len() {
            assert(cluster_end(text@, starts@, k) <= byte);
        }
    }
    char_len(text)
}

/// The character at which the grapheme cluster before the cursor begins.
pub fn prev_grapheme_start(text: &str, cursor: usize) -> (r: usize)
    ensures
        r == prev_start(text@, grapheme_starts_of(text@), cursor as nat),
        r <= text@.len(),
        cursor > 0 ==> r < cursor,
        cursor == 0 ==> r == 0,
{
    let starts = grapheme_starts(text);
    let r = start_before(text, &starts, cursor);
    proof {
        lemma_prev_start_below(text@, starts@, cursor as nat);
    }
    r
}

/// The character just past the grapheme cluster at the cursor.
pub fn next_grapheme_end(text: &str, cursor: usize) -> (r: usize)
    ensures
        next_end(text@, grapheme_starts_of(text@), cursor as nat, r as nat),
        r <= text@.len(),
        cursor < text@.len() ==> cursor < r,
{
    let starts = grapheme_starts(text);
    let r = end_after(text, &starts, cursor);
    proof {
        lemma_next_end_above(text@, starts@, cursor as nat, r as nat);
    }
    r
}

/// Stepping back over a cluster moves the cursor, unless it is at the start.
pub proof fn lemma_prev_start_below(text: Seq<char>, starts: Seq<usize>, cursor: nat)
    ensures
        cursor > 0 ==> prev_start(text, starts, cursor) < cursor,
        cursor == 0 ==> prev_start(text, starts, cursor) == 0,
{
    let at = clip(cursor, text.len());
    let byte = byte_offset(text, at as int);
    let n = starts_below(starts, byte);
    lemma_starts_below_last(starts, byte);
    assert(text.take(0) =~= Seq::<char>::empty());
    if n > 0 {
        lemma_within_below(text, starts[n - 1] as nat, at);
    }
}

proof fn lemma_starts_below_last(starts: Seq<usize>, byte: nat)
    ensures
        starts_below(starts, byte) <= starts.len(),
        starts_below(starts, byte) > 0 ==> starts[starts_below(starts, byte) - 1] < byte,
    decreases starts.len(),
{
    if starts.len() > 0 {
        lemma_starts_below_last(starts.drop_last(), byte);
    }
}

proof fn lemma_within_below(text: Seq<char>, bytes: nat, at: nat)
    requires
        at <= text.len(),
        bytes < byte_offset(text, at as int),
    ensures
        chars_within(text, bytes) < at,
    decreases text.len(),
{
    assert(text.take(0) =~= Seq::<char>::empty());
    lemma_byte_offset_mono(text, at as int, text.len() as int);
    assert(text.take(text.len() as int) =~= text);
    if at < text.len() {
        assert(text.drop_last().take(at as int) =~= text.take(at as int));
        lemma_within_below(text.drop_last(), bytes, at);
    } else {
        lemma_within_at_most(text.drop_last(), bytes);
    }
}

proof fn lemma_within_at_most(text: Seq<char>, bytes: nat)
    ensures
        chars_within(text, bytes) <= text.len(),
    decreases text.len(),
{
    if text.len() > 0 {
        lemma_within_at_most(text.drop_last(), bytes);
    }
}

/// Stepping over a cluster moves the cursor on, unless it is at the end.
pub proof fn lemma_next_end_above(text: Seq<char>, starts: Seq<usize>, cursor: nat, r: nat)
    requires
        cluster_starts(text, starts),
        next_end(text, starts, cursor, r),
    ensures
        cursor < text.len() ==> cursor < r <= text.len(),
{
    if cursor < text.len() {
        let byte = byte_offset(text, cursor as int);
        lemma_byte_offset_mono(text, cursor as int, text.len() as int);
        assert(text.take(text.len() as int) =~= text);
        if exists|i: int| first_ending_past(text, starts, byte, i) {
            let i = choose|i: int| #[trigger]
                first_ending_past(text, starts, byte, i) && r == chars_within(
                    text,
                    cluster_end(text, starts, i),
                );
            let end = cluster_end(text, starts, i);
            let k = if i + 1 < starts.len() {
                choose|k: int|
                    0 <= k < text.len() && starts[i + 1] == #[trigger] byte_offset(text, k)
            } else {
                text.len() as int
            };
            if i + 1 < starts.len() {
                assert(starts[i + 1] == byte_offset(text, k) && 0 <= k < text.len());
            }
            assert(byte_offset(text, k) == end);
            if k < text.len() {
                lemma_byte_offset_mono(text, k, k + 1);
            }
            lemma_chars_within(text, end, k);
            if k <= cursor {
                lemma_byte_offset_mono(text, k, cursor as int);
            }
        }
    }
}

impl Default for TextEdit {
    fn default() -> (r: Self)
        ensures
            r@ == (EditView { cursor: 0, anchor: None, undo: Seq::empty(), drag: None }),
    {
        let r = TextEdit { cursor: 0, anchor: None, undo: VecDeque::new(), drag_anchor: None };
        assert(r@.undo =~= Seq::empty());
        r
    }
}

/// Whether a check of a candidate text answered `answer`.
pub open spec fn answered<F: Fn(&str) -> bool>(
    can_replace: F,
    candidate: Seq<char>,
    answer: bool,
) -> bool {
    exists|s: &str| s@ == candidate && #[trigger] can_replace.ensures((s,), answer)
}

/// Which answers a check may give on which texts.
pub open spec fn answers<F: Fn(&str) -> bool>(can_replace: F) -> spec_fn(Seq<char>, bool) -> bool {
    |candidate: Seq<char>, answer: bool| answered(can_replace, candidate, answer)
}

/// Whether the first `n` typed characters were accepted and one more was not.
pub open spec fn accepted_prefix(
    answers: spec_fn(Seq<char>, bool) -> bool,
    e: EditView,
    text: Seq<char>,
    typed: Seq<char>,
    n: nat,
) -> bool {
    &&& n <= typed.len()
    &&& n > 0 ==> answers(with_inserted(e, text, typed.take(n as int)), true)
    &&& n < typed.len() ==> answers(
        with_inserted(e, text, typed.take(n as int + 1)),
        false,
    )
}

/// What typing `insert` does: control characters are dropped, and of the rest
/// the prefix that the check accepts replaces the selection.
pub open spec fn insertion(
    answers: spec_fn(Seq<char>, bool) -> bool,
    e: EditView,
    text: Seq<char>,
    insert: Seq<char>,
    after: EditView,
    text_after: Seq<char>,
    changed: bool,
) -> bool {
    let typed = printable(insert);
    if typed.len() == 0 {
        after == e && text_after == text && !changed
    } else {
        exists|n: nat| #[trigger]
            accepted_prefix(answers, e, text, typed, n) && if n == 0 {
                after == e && text_after == text && !changed
            } else {
                (after, text_after) == inserted(e, text, typed.take(n as int)) && changed
            }
    }
}

pub open spec fn selected(e: EditView, text: Seq<char>) -> Option<Seq<char>> {
    match selection(e) {
        Some((start, end)) => Some(char_range(text, start, end)),
        None => None,
    }
}

/// What a key press does to a line's state and text, and what it answers.
pub open spec fn key_effect(
    answers: spec_fn(Seq<char>, bool) -> bool,
    key: KeyView,
    clipboard: Option<Seq<char>>,
    before: EditView,
    text: Seq<char>,
    after: EditView,
    text_after: Seq<char>,
    outcome: OutcomeView,
) -> bool {
    let e = clamped(before, text.len());
    let starts = grapheme_starts_of(text);
    if key.ctrl && (key.sym == KEY_a || key.sym == KEY_A) {
        &&& after == EditView { cursor: text.len(), anchor: Some(0), undo: e.undo, drag: None }
        &&& text_after == text
        &&& outcome == handled_view(false)
    } else if key.ctrl && (key.sym == KEY_c || key.sym == KEY_C) {
        &&& after == e
        &&& text_after == text
        &&& outcome == OutcomeView::Handled { changed: false, copy: selected(e, text) }
    } else if key.ctrl && (key.sym == KEY_x || key.sym == KEY_X) {
        if selected(e, text) is None {
            after == e && text_after == text && outcome == handled_view(false)
        } else {
            &&& (after, text_after) == without_selection(with_undo(e, text), text)
            &&& outcome == OutcomeView::Handled { changed: true, copy: selected(e, text) }
        }
    } else if key.ctrl && (key.sym == KEY_v || key.sym == KEY_V) {
        match clipboard {
            Some(paste) => exists|changed: bool|
                insertion(answers, e, text, paste, after, text_after, changed) && outcome
                    == #[trigger] handled_view(changed),
            None => after == e && text_after == text && outcome == handled_view(false),
        }
    } else if key.ctrl && (key.sym == KEY_z || key.sym == KEY_Z) {
        &&& (after, text_after) == undone(e, text)
        &&& outcome == handled_view(e.undo.len() > 0)
    } else if key.sym == KEY_Left || key.sym == KEY_KP_Left {
        &&& after == moved(e, text.len(), prev_start(text, starts, e.cursor), key.shift, true)
        &&& text_after == text
        &&& outcome == handled_view(false)
    } else if key.sym == KEY_Right || key.sym == KEY_KP_Right {
        &&& exists|target: nat| #[trigger]
            next_end(text, starts, e.cursor, target) && after == moved(
                e,
                text.len(),
                target,
                key.shift,
                true,
            )
        &&& text_after == text
        &&& outcome == handled_view(false)
    } else if key.sym == KEY_Home || key.sym == KEY_KP_Home {
        &&& after == moved(e, text.len(), 0, key.shift, false)
        &&& text_after == text
        &&& outcome == handled_view(false)
    } else if key.sym == KEY_End || key.sym == KEY_KP_End {
        &&& after == moved(e, text.len(), text.len(), key.shift, false)
        &&& text_after == text
        &&& outcome == handled_view(false)
    } else {
        match edit_key_of(key) {
            EditKey::Insert(ch) => exists|changed: bool|
                insertion(answers, e, text, seq![ch], after, text_after, changed) && outcome
                    == #[trigger] handled_view(changed),
            EditKey::Backspace => {
                &&& (after, text_after) == backspaced(e, text, prev_start(text, starts, e.cursor))
                &&& outcome == handled_view(selection(e) is Some || e.cursor > 0)
            },
            _ => after == e && text_after == text && outcome == OutcomeView::Unhandled,
        }
    }
}

/// The typed characters that may enter a line.
fn keep_printable(insert: &str) -> (r: Vec<char>)
    ensures
        r@ == printable(insert@),
{
    let chars = to_chars(insert);
    let mut out: Vec<char> = Vec::new();
    let mut i: usize = 0;
    while i < chars.len()
        invariant
            i <= chars@.len(),
            chars@ == insert@,
            out@ == printable(insert@.take(i as int)),
        decreases chars@.len() - i,
    {
        assert(insert@.take(i + 1).drop_last() =~= insert@.take(i as int));
        if !is_control(chars[i]) {
            out.push(chars[i]);
        }
        i += 1;
    }
    assert(insert@.take(insert@.len() as int) =~= insert@);
    out
}

/// The text without the characters from `start` up to `end`.
fn cut_chars(text: &str, start: usize, end: usize) -> (r: Vec<char>)
    ensures
        r@ == cut_range(text@, start as nat, end as nat),
{
    let chars = to_chars(text);
    let len: usize = chars.len();
    let from: usize = if start < len {
        start
    } else {
        len
    };
    let to: usize = if end < len {
        end
    } else {
        len
    };
    let mut out = copy_chars(vstd::slice::slice_subrange(chars.as_slice(), 0, from));
    append_chars(&mut out, vstd::slice::slice_subrange(chars.as_slice(), to, len));
    assert(out@ =~= cut_range(text@, start as nat, end as nat));
    out
}

/// The characters of `base` with the first `count` of `added` put in at `at`.
fn spliced(base: &Vec<char>, at: usize, added: &Vec<char>, count: usize) -> (r: String)
    requires
        count <= added@.len(),
    ensures
        r@ == base@.take(clip(at as nat, base@.len()) as int) + added@.take(count as int)
            + base@.skip(clip(at as nat, base@.len()) as int),
{
    let len: usize = base.len();
    let cut: usize = if at < len {
        at
    } else {
        len
    };
    let mut out = copy_chars(vstd::slice::slice_subrange(base.as_slice(), 0, cut));
    append_chars(&mut out, vstd::slice::slice_subrange(added.as_slice(), 0, count));
    append_chars(&mut out, vstd::slice::slice_subrange(base.as_slice(), cut, len));
    assert(out@ =~= base@.take(clip(at as nat, base@.len()) as int) + added@.take(count as int)
        + base@.skip(clip(at as nat, base@.len()) as int));
    from_chars(out.as_slice())
}

impl TextEdit {
    pub fn cursor(&self) -> (r: usize)
        ensures
            r == self@.cursor,
    {
        self.cursor
    }

    /// What another place of the cursor leads to.
    pub open spec fn cursor_leads_to(&self, cursor: usize, text: &str, after: &Self) -> bool {
        after@ == (EditView {
            cursor: clip(cursor as nat, text@.len()),
            anchor: None,
            undo: self@.undo,
            drag: None,
        })
    }

    /// Puts the cursor down, dropping any selection or drag.
    pub fn set_cursor(&mut self, cursor: usize, text: &str)
        ensures
            old(self).cursor_leads_to(cursor, text, final(self)),
    {
        let len: usize = char_len(text);
        self.cursor = if cursor < len {
            cursor
        } else {
            len
        };
        self.anchor = None;
        self.drag_anchor = None;
    }

    /// How a mouse selection begins.
    pub open spec fn drag_begins(&self, cursor: usize, text: &str, after: &Self) -> bool {
        after@ == (EditView {
            cursor: clip(cursor as nat, text@.len()),
            anchor: None,
            undo: self@.undo,
            drag: Some(clip(cursor as nat, text@.len())),
        })
    }

    /// Starts a mouse selection at a character.
    pub fn begin_drag(&mut self, cursor: usize, text: &str)
        ensures
            old(self).drag_begins(cursor, text, final(self)),
    {
        let len: usize = char_len(text);
        let at: usize = if cursor < len {
            cursor
        } else {
            len
        };
        self.cursor = at;
        self.anchor = None;
        self.drag_anchor = Some(at);
    }

    /// How a mouse selection goes on.
    pub open spec fn drag_goes_on(&self, cursor: usize, text: &str, after: &Self, r: bool) -> bool {
        match self@.drag {
            None => !r && after@ == self@,
            Some(start) => {
                let at = clip(cursor as nat, text@.len());
                &&& after@ == (EditView {
                    cursor: at,
                    anchor: if start != at {
                        Some(start)
                    } else {
                        None
                    },
                    undo: self@.undo,
                    drag: self@.drag,
                })
                &&& r == (self@.cursor != after@.cursor || self@.anchor
                    != after@.anchor)
            },
        }
    }

    /// Extends a mouse selection; answers whether anything changed.
    pub fn drag_to(&mut self, cursor: usize, text: &str) -> (r: bool)
        ensures
            old(self).drag_goes_on(cursor, text, final(self), r),
    {
        match self.drag_anchor {
            None => false,
            Some(anchor) => {
                let len: usize = char_len(text);
                let at: usize = if cursor < len {
                    cursor
                } else {
                    len
                };
                let old_cursor: usize = self.cursor;
                let old_anchor = self.anchor;
                self.cursor = at;
                self.anchor = if anchor != at {
                    Some(anchor)
                } else {
                    None
                };
                let same_anchor = match (old_anchor, self.anchor) {
                    (Some(a), Some(b)) => a == b,
                    (None, None) => true,
                    _ => false,
                };
                old_cursor != self.cursor || !same_anchor
            },
        }
    }

    pub fn end_drag(&mut self)
        ensures
            final(self)@ == (EditView { drag: None, ..old(self)@ }),
    {
        self.drag_anchor = None;
    }

    pub fn is_dragging(&self) -> (r: bool)
        ensures
            r == (self@.drag is Some),
    {
        self.drag_anchor.is_some()
    }

    /// What selecting everything leads to.
    pub open spec fn all_selected(&self, text: &str, after: &Self) -> bool {
        after@ == (EditView {
            cursor: text@.len(),
            anchor: Some(0),
            undo: self@.undo,
            drag: None,
        })
    }

    pub fn select_all(&mut self, text: &str)
        ensures
            old(self).all_selected(text, final(self)),
    {
        self.anchor = Some(0);
        self.cursor = char_len(text);
        self.drag_anchor = None;
    }

    pub fn selection_range(&self) -> (r: Option<(usize, usize)>)
        ensures
            match r {
                Some((start, end)) => selection(self@) == Some((start as nat, end as nat)) && start
                    < end,
                None => selection(self@) is None,
            },
    {
        match self.anchor {
            Some(anchor) => if anchor < self.cursor {
                Some((anchor, self.cursor))
            } else if self.cursor < anchor {
                Some((self.cursor, anchor))
            } else {
                None
            },
            None => None,
        }
    }

    pub fn selected_text(&self, text: &str) -> (r: Option<String>)
        ensures
            match r {
                Some(s) => selected(self@, text@) == Some(s@),
                None => selected(self@, text@) is None,
            },
    {
        match self.selection_range() {
            Some((start, end)) => Some(slice_chars(text, start, end).to_owned()),
            None => None,
        }
    }

    fn clamp(&mut self, text: &str)
        ensures
            final(self)@ == clamped(old(self)@, text@.len()),
    {
        let len: usize = char_len(text);
        if self.cursor > len {
            self.cursor = len;
        }
        if let Some(anchor) = self.anchor {
            if anchor > len {
                self.anchor = Some(len);
            }
        }
    }

    fn save_undo(&mut self, text: &str)
        ensures
            final(self)@ == with_undo(old(self)@, text@),
    {
        if self.undo.len() == UNDO_LIMIT {
            let _ = self.undo.pop_front();
        }
        self.undo.push_back((text.to_owned(), self.cursor));
        assert(self@.undo =~= with_undo(old(self)@, text@).undo);
    }

    /// Forgets the undo history, as when the text is swapped for another.
    pub fn clear_undo(&mut self)
        ensures
            final(self)@ == (EditView { undo: Seq::empty(), ..old(self)@ }),
    {
        self.undo.clear();
        assert(self@.undo =~= Seq::empty());
    }

    /// Where a step to the left or to the right leads.
    pub open spec fn steps(&self, text: &str, delta: isize, selecting: bool, after: &Self) -> bool {
        &&& delta < 0 ==> after@ == moved(
            self@,
            text@.len(),
            prev_start(text@, grapheme_starts_of(text@), self@.cursor),
            selecting,
            true,
        )
        &&& delta >= 0 ==> exists|target: nat| #[trigger]
            next_end(text@, grapheme_starts_of(text@), self@.cursor, target)
                && after@ == moved(
                self@,
                text@.len(),
                target,
                selecting,
                true,
            )
    }

    /// Steps one grapheme cluster to the left or to the right.
    pub fn move_cursor(&mut self, text: &str, delta: isize, selecting: bool)
        ensures
            old(self).steps(text, delta, selecting, final(self)),
    {
        let cursor: usize = if delta < 0 {
            prev_grapheme_start(text, self.cursor)
        } else {
            next_grapheme_end(text, self.cursor)
        };
        self.move_impl(text, cursor, selecting, true);
    }

    pub fn move_to(&mut self, text: &str, cursor: usize, selecting: bool)
        ensures
            final(self)@ == moved(old(self)@, text@.len(), cursor as nat, selecting, false),
    {
        self.move_impl(text, cursor, selecting, false);
    }

    pub fn move_impl(&mut self, text: &str, cursor: usize, selecting: bool, collapse_to_edge: bool)
        ensures
            final(self)@ == moved(
                old(self)@,
                text@.len(),
                cursor as nat,
                selecting,
                collapse_to_edge,
            ),
    {
        let len: usize = char_len(text);
        let target: usize = if cursor < len {
            cursor
        } else {
            len
        };
        if selecting {
            if self.anchor.is_none() {
                self.anchor = Some(self.cursor);
            }
        } else if let Some((start, end)) = self.selection_range() {
            self.anchor = None;
            self.drag_anchor = None;
            if collapse_to_edge {
                self.cursor = if target < self.cursor {
                    start
                } else {
                    end
                };
                return;
            }
        } else {
            self.anchor = None;
        }
        self.cursor = target;
        if let Some(anchor) = self.anchor {
            if anchor == target {
                self.anchor = None;
            }
        }
    }

    fn insert_char<F>(&mut self, text: &mut String, ch: char, can_replace: &F) -> (r: bool) where
        F: Fn(&str) -> bool,

        requires
            old(self)@.cursor + 1 <= usize::MAX,
            forall|s: &str|
                s@.len() <= old(text)@.len() + 1 ==> #[trigger] can_replace.requires((s,)),
        ensures
            insertion(
                answers(*can_replace),
                old(self)@,
                old(text)@,
                seq![ch],
                final(self)@,
                final(text)@,
                r,
            ),
    {
        let mut insert = String::new();
        insert.push(ch);
        assert(insert@ =~= seq![ch]);
        self.insert_text(text, insert.as_str(), can_replace)
    }

    /// Types `insert`; answers whether the text changed.
    #[verifier::spinoff_prover]
    #[verifier::rlimit(60)]
    pub fn insert_text<F>(&mut self, text: &mut String, insert: &str, can_replace: &F) -> (r:
        bool) where F: Fn(&str) -> bool,
        requires
            old(self)@.cursor + insert@.len() <= usize::MAX,
            forall|s: &str|
                s@.len() <= old(text)@.len() + insert@.len()
                    ==> #[trigger] can_replace.requires((s,)),
        ensures
            insertion(
                answers(*can_replace),
                old(self)@,
                old(text)@,
                insert@,
                final(self)@,
                final(text)@,
                r,
            ),
    {
        let typed = keep_printable(insert);
        let total: usize = typed.len();
        proof {
            lemma_printable_len(insert@);
        }
        if total == 0 {
            return false;
        }
        let ghost e = self@;
        let ghost text0 = text@;
        let ghost shown = |n: int| with_inserted(e, text0, typed@.take(n));
        let (base, at) = match self.selection_range() {
            Some((start, end)) => (cut_chars(text.as_str(), start, end), start),
            None => (to_chars(text.as_str()), self.cursor),
        };
        let whole = spliced(&base, at, &typed, total);
        assert(whole@ == shown(total as int));
        let accepted: usize = if can_replace(whole.as_str()) {
            assert(typed@.take(total as int) =~= typed@);
            assert(answered(*can_replace, shown(total as int), true));
            total
        } else {
            assert(answered(*can_replace, shown(total as int), false));
            let mut low: usize = 0;
            let mut high: usize = total;
            while low < high
                invariant
                    low <= high <= total,
                    total == typed@.len(),
                    total <= insert@.len(),
                    text@ == text0,
                    base@.len() <= text0.len(),
                    shown == (|n: int| with_inserted(e, text0, typed@.take(n))),
                    forall|s: &str|
                        s@.len() <= text0.len() + insert@.len()
                            ==> #[trigger] can_replace.requires((s,)),
                    forall|n: int|
                        0 <= n <= total ==> #[trigger] shown(n) == base@.take(
                            clip(at as nat, base@.len()) as int,
                        ) + typed@.take(n) + base@.skip(clip(at as nat, base@.len()) as int),
                    low > 0 ==> answered(*can_replace, shown(low as int), true),
                    high == total ==> answered(*can_replace, shown(total as int), false),
                    high < total ==> answered(*can_replace, shown(high + 1), false),
                decreases high - low,
            {
                let mid: usize = low + ((high - low) - (high - low) / 2);
                let candidate = spliced(&base, at, &typed, mid);
                assert(candidate@ == shown(mid as int));
                if can_replace(candidate.as_str()) {
                    assert(answered(*can_replace, shown(mid as int), true));
                    low = mid;
                } else {
                    assert(answered(*can_replace, shown(mid as int), false));
                    high = mid - 1;
                }
            }
            low
        };
        assert(accepted_prefix(answers(*can_replace), e, text0, typed@, accepted as nat)) by {
            if accepted < total {
                assert(shown(accepted + 1) == with_inserted(
                    e,
                    text0,
                    typed@.take(accepted as int + 1),
                ));
            }
            assert(shown(accepted as int) == with_inserted(e, text0, typed@.take(accepted as int)));
        }
        if accepted == 0 {
            return false;
        }
        self.save_undo(text.as_str());
        if let Some((start, _)) = self.selection_range() {
            self.cursor = start;
            self.anchor = None;
            self.drag_anchor = None;
        }
        *text = spliced(&base, at, &typed, accepted);
        self.cursor = self.cursor + accepted;
        self.anchor = None;
        proof {
            assert(self@ =~= inserted(e, text0, typed@.take(accepted as int)).0);
        }
        true
    }

    /// Deletes the selection, or else the grapheme before the cursor; answers
    /// whether the text changed.
    pub fn backspace(&mut self, text: &mut String) -> (r: bool)
        ensures
            (final(self)@, final(text)@) == backspaced(
                old(self)@,
                old(text)@,
                prev_start(old(text)@, grapheme_starts_of(old(text)@), old(self)@.cursor),
            ),
            r == (selection(old(self)@) is Some || old(self)@.cursor > 0),
    {
        if self.selection_range().is_some() {
            self.save_undo(text.as_str());
            self.delete_selection(text);
            return true;
        }
        if self.cursor == 0 {
            return false;
        }
        self.save_undo(text.as_str());
        let start: usize = prev_grapheme_start(text.as_str(), self.cursor);
        let rest = cut_chars(text.as_str(), start, self.cursor);
        *text = from_chars(rest.as_slice());
        self.cursor = start;
        true
    }

    fn delete_selection(&mut self, text: &mut String)
        ensures
            (final(self)@, final(text)@) == without_selection(old(self)@, old(text)@),
    {
        if let Some((start, end)) = self.selection_range() {
            let rest = cut_chars(text.as_str(), start, end);
            *text = from_chars(rest.as_slice());
            self.cursor = start;
            self.anchor = None;
            self.drag_anchor = None;
        }
    }

    /// Applies a key press to the line. `can_replace` decides whether the text
    /// may become a candidate; it must accept every text that is shorter by
    /// some of the typed characters than one it accepts.
    pub fn handle_key<F>(
        &mut self,
        input: &KeyInput,
        text: &mut String,
        clipboard_text: Option<&str>,
        can_replace: F,
    ) -> (r: TextEditOutcome) where F: Fn(&str) -> bool,
        requires
            old(text)@.len() + 1 <= usize::MAX,
            clipboard_text matches Some(paste) ==> old(text)@.len() + paste@.len() <= usize::MAX,
            forall|s: &str|
                s@.len() <= old(text)@.len() + 1 || (clipboard_text matches Some(paste) && s@.len()
                    <= old(text)@.len() + paste@.len()) ==> #[trigger] can_replace.requires((s,)),
        ensures
            key_effect(
                answers(can_replace),
                input@,
                match clipboard_text {
                    Some(paste) => Some(paste@),
                    None => None,
                },
                old(self)@,
                old(text)@,
                final(self)@,
                final(text)@,
                r@,
            ),
    {
        self.clamp(text.as_str());
        let sym: u32 = input.sym_raw();
        if input.ctrl() {
            if sym == KEY_a || sym == KEY_A {
                self.select_all(text.as_str());
                return handled(false);
            }
            if sym == KEY_c || sym == KEY_C {
                return TextEditOutcome::Handled {
                    changed: false,
                    copy: self.selected_text(text.as_str()),
                };
            }
            if sym == KEY_x || sym == KEY_X {
                match self.selected_text(text.as_str()) {
                    None => {
                        return handled(false);
                    },
                    Some(copy) => {
                        self.save_undo(text.as_str());
                        self.delete_selection(text);
                        return TextEditOutcome::Handled { changed: true, copy: Some(copy) };
                    },
                }
            }
            if sym == KEY_v || sym == KEY_V {
                match clipboard_text {
                    None => {
                        return handled(false);
                    },
                    Some(paste) => {
                        let changed = self.insert_text(text, paste, &can_replace);
                        return handled(changed);
                    },
                }
            }
            if sym == KEY_z || sym == KEY_Z {
                let ghost before = self@;
                match self.undo.pop_back() {
                    None => {
                        assert(self@.undo =~= before.undo);
                        return handled(false);
                    },
                    Some((previous, cursor)) => {
                        *text = previous;
                        let len: usize = char_len(text.as_str());
                        self.cursor = if cursor < len {
                            cursor
                        } else {
                            len
                        };
                        self.anchor = None;
                        self.drag_anchor = None;
                        assert(self@.undo =~= before.undo.drop_last());
                        return handled(true);
                    },
                }
            }
        }
        if sym == KEY_Left || sym == KEY_KP_Left {
            self.move_cursor(text.as_str(), -1, input.shift());
            handled(false)
        } else if sym == KEY_Right || sym == KEY_KP_Right {
            self.move_cursor(text.as_str(), 1, input.shift());
            handled(false)
        } else if sym == KEY_Home || sym == KEY_KP_Home {
            self.move_to(text.as_str(), 0, input.shift());
            handled(false)
        } else if sym == KEY_End || sym == KEY_KP_End {
            let len: usize = char_len(text.as_str());
            self.move_to(text.as_str(), len, input.shift());
            handled(false)
        } else {
            match edit_key(input) {
                EditKey::Insert(ch) => {
                    let changed = self.insert_char(text, ch, &can_replace);
                    handled(changed)
                },
                EditKey::Backspace => {
                    let changed = self.backspace(text);
                    handled(changed)
                },
                _ => TextEditOutcome::Unhandled,
            }
        }
    }
}

proof fn lemma_printable_len(s: Seq<char>)
    ensures
        printable(s).len() <= s.len(),
    decreases s.len(),
{
    if s.len() > 0 {
        lemma_printable_len(s.drop_last());
    }
}

/// A line and its state that fit together: cursor and anchor lie in the text,
/// and no more undo entries are kept than the limit.
pub open spec fn fits_text(e: EditView, text: Seq<char>) -> bool {
    &&& e.cursor <= text.len()
    &&& e.anchor matches Some(a) ==> a <= text.len()
    &&& e.undo.len() <= UNDO_LIMIT
}

proof fn lemma_insertion_fits(
    answers: spec_fn(Seq<char>, bool) -> bool,
    e: EditView,
    text: Seq<char>,
    insert: Seq<char>,
    after: EditView,
    text_after: Seq<char>,
    changed: bool,
)
    requires
        insertion(answers, e, text, insert, after, text_after, changed),
        fits_text(e, text),
    ensures
        fits_text(after, text_after),
{
    let typed = printable(insert);
    if typed.len() > 0 {
        let n = choose|n: nat| #[trigger]
            accepted_prefix(answers, e, text, typed, n) && if n == 0 {
                after == e && text_after == text && !changed
            } else {
                (after, text_after) == inserted(e, text, typed.take(n as int)) && changed
            };
        if n > 0 {
            assert((after, text_after) == inserted(e, text, typed.take(n as int)));
            assert(with_undo(e, text).undo.len() <= UNDO_LIMIT);
            if let Some((start, end)) = selection(e) {
                assert(cut_range(text, start, end).len() == text.len() - (end - start));
            }
        }
    }
}

/// Whatever key is pressed, the cursor ends up within the text and the undo
/// history within its limit. So does the anchor, unless it stood at the cursor
/// when the key came, selecting nothing.
pub proof fn lemma_key_keeps_cursor_in_text(
    answers: spec_fn(Seq<char>, bool) -> bool,
    key: KeyView,
    clipboard: Option<Seq<char>>,
    before: EditView,
    text: Seq<char>,
    after: EditView,
    text_after: Seq<char>,
    outcome: OutcomeView,
)
    requires
        key_effect(answers, key, clipboard, before, text, after, text_after, outcome),
        before.undo.len() <= UNDO_LIMIT,
    ensures
        after.cursor <= text_after.len(),
        after.undo.len() <= UNDO_LIMIT,
        clamped(before, text.len()).anchor != Some(clamped(before, text.len()).cursor)
            ==> fits_text(after, text_after),
{
    let e = clamped(before, text.len());
    lemma_prev_start_below(text, grapheme_starts_of(text), e.cursor);
    assert(with_undo(e, text).undo.len() <= UNDO_LIMIT);
    if let Some((start, end)) = selection(e) {
        assert(cut_range(text, start, end).len() == text.len() - (end - start));
    }
    let pasting = key.ctrl && (key.sym == KEY_v || key.sym == KEY_V);
    if pasting && clipboard is Some {
        let changed = choose|changed: bool|
            insertion(answers, e, text, clipboard->0, after, text_after, changed) && outcome
                == #[trigger] handled_view(changed);
        lemma_insertion_fits(answers, e, text, clipboard->0, after, text_after, changed);
    } else if let EditKey::Insert(ch) = edit_key_of(key) {
        if exists|changed: bool|
            insertion(answers, e, text, seq![ch], after, text_after, changed) && outcome
                == #[trigger] handled_view(changed) {
            let changed = choose|changed: bool|
                insertion(answers, e, text, seq![ch], after, text_after, changed) && outcome
                    == #[trigger] handled_view(changed);
            lemma_insertion_fits(answers, e, text, seq![ch], after, text_after, changed);
        }
    }
}

/// What a key does under a check that may give fewer answers, it may do under
/// one that may give more.
pub proof fn lemma_key_effect_widens(
    narrow: spec_fn(Seq<char>, bool) -> bool,
    wide: spec_fn(Seq<char>, bool) -> bool,
    key: KeyView,
    clipboard: Option<Seq<char>>,
    before: EditView,
    text: Seq<char>,
    after: EditView,
    text_after: Seq<char>,
    outcome: OutcomeView,
)
    requires
        key_effect(narrow, key, clipboard, before, text, after, text_after, outcome),
        forall|c: Seq<char>, a: bool| #[trigger] narrow(c, a) ==> wide(c, a),
    ensures
        key_effect(wide, key, clipboard, before, text, after, text_after, outcome),
{
    let e = clamped(before, text.len());
    assert forall|insert: Seq<char>, changed: bool| #[trigger]
        insertion(narrow, e, text, insert, after, text_after, changed) implies insertion(
        wide,
        e,
        text,
        insert,
        after,
        text_after,
        changed,
    ) by {
        let typed = printable(insert);
        if typed.len() > 0 {
            let n = choose|n: nat| #[trigger]
                accepted_prefix(narrow, e, text, typed, n) && if n == 0 {
                    after == e && text_after == text && !changed
                } else {
                    (after, text_after) == inserted(e, text, typed.take(n as int)) && changed
                };
            assert(accepted_prefix(wide, e, text, typed, n));
        }
    }
}

/// Taking back an edit restores the text and the cursor it started from, and
/// leaves the older history as it was while the limit is not reached.
pub proof fn lemma_undo_restores(e: EditView, text: Seq<char>, added: Seq<char>, start: nat)
    requires
        fits_text(e, text),
    ensures
        ({
            let (after, text_after) = inserted(e, text, added);
            &&& undone(after, text_after).1 == text
            &&& undone(after, text_after).0.cursor == e.cursor
            &&& e.undo.len() < UNDO_LIMIT ==> undone(after, text_after).0.undo == e.undo
        }),
        selection(e) is Some || e.cursor > 0 ==> ({
            let (after, text_after) = backspaced(e, text, start);
            &&& undone(after, text_after).1 == text
            &&& undone(after, text_after).0.cursor == e.cursor
            &&& e.undo.len() < UNDO_LIMIT ==> undone(after, text_after).0.undo == e.undo
        }),
        selection(e) is Some ==> ({
            let (after, text_after) = without_selection(with_undo(e, text), text);
            &&& undone(after, text_after).1 == text
            &&& undone(after, text_after).0.cursor == e.cursor
            &&& e.undo.len() < UNDO_LIMIT ==> undone(after, text_after).0.undo == e.undo
        }),
{
    assert(with_undo(e, text).undo.drop_last() =~= if e.undo.len() == UNDO_LIMIT {
        e.undo.subrange(1, e.undo.len() as int)
    } else {
        e.undo
    });
}

/// What is cut is what was selected: putting it back where it was cut gives
/// the text again.
pub proof fn lemma_cut_and_paste(e: EditView, text: Seq<char>)
    requires
        fits_text(e, text),
        selection(e) is Some,
    ensures
        ({
            let (after, rest) = without_selection(e, text);
            with_inserted(after, rest, selected(e, text)->0) == text
        }),
{
    let (after, rest) = without_selection(e, text);
    assert(with_inserted(after, rest, selected(e, text)->0) =~= text);
}

/// Home goes to the start of the line and End to its end. Without Shift nothing
/// is selected then; with it, what lies between that end and where the selection
/// began, or the cursor was.
pub proof fn lemma_home_and_end(
    answers: spec_fn(Seq<char>, bool) -> bool,
    key: KeyView,
    clipboard: Option<Seq<char>>,
    before: EditView,
    text: Seq<char>,
    after: EditView,
    text_after: Seq<char>,
    outcome: OutcomeView,
)
    requires
        key_effect(answers, key, clipboard, before, text, after, text_after, outcome),
        key.sym == 0xff50 || key.sym == 0xff95 || key.sym == 0xff57 || key.sym == 0xff9c,
    ensures
        text_after == text,
        after.undo == before.undo,
        outcome == (OutcomeView::Handled { changed: false, copy: None }),
        key.sym == 0xff50 || key.sym == 0xff95 ==> after.cursor == 0,
        key.sym == 0xff57 || key.sym == 0xff9c ==> after.cursor == text.len(),
        !key.shift ==> after.anchor is None,
        key.shift ==> ({
            let held = match before.anchor {
                Some(a) => a,
                None => before.cursor,
            };
            let from = if held < text.len() {
                held
            } else {
                text.len()
            };
            if from == after.cursor {
                after.anchor is None
            } else {
                after.anchor == Some(from)
            }
        }),
{
}

/// The arrows step over one cluster, or with a selection and without Shift go to
/// its edge and drop it; with Shift the selection keeps its other end. The text
/// stays as it is.
pub proof fn lemma_arrows(
    answers: spec_fn(Seq<char>, bool) -> bool,
    key: KeyView,
    clipboard: Option<Seq<char>>,
    before: EditView,
    text: Seq<char>,
    after: EditView,
    text_after: Seq<char>,
    outcome: OutcomeView,
)
    requires
        key_effect(answers, key, clipboard, before, text, after, text_after, outcome),
        key.sym == 0xff51 || key.sym == 0xff96 || key.sym == 0xff53 || key.sym == 0xff98,
        before.cursor <= text.len(),
        before.anchor matches Some(a) ==> a <= text.len(),
        cluster_starts(text, grapheme_starts_of(text)),
    ensures
        text_after == text,
        after.undo == before.undo,
        outcome == (OutcomeView::Handled { changed: false, copy: None }),
        ({
            let left = key.sym == 0xff51 || key.sym == 0xff96;
            let chosen = before.anchor matches Some(a) && a != before.cursor;
            if chosen && !key.shift {
                let a = before.anchor->0;
                let (low, high) = if a < before.cursor {
                    (a, before.cursor)
                } else {
                    (before.cursor, a)
                };
                after.anchor is None && after.cursor == (if left && before.cursor > 0 {
                    low
                } else {
                    high
                })
            } else {
                &&& left && before.cursor > 0 ==> after.cursor < before.cursor
                &&& left && before.cursor == 0 ==> after.cursor == 0
                &&& !left && before.cursor < text.len() ==> before.cursor < after.cursor
                    <= text.len()
                &&& !left && before.cursor == text.len() ==> after.cursor == text.len()
                &&& !key.shift ==> after.anchor is None
                &&& key.shift && after.cursor != before.cursor ==> ({
                    let from = match before.anchor {
                        Some(a) => a,
                        None => before.cursor,
                    };
                    after.anchor == (if from == after.cursor {
                        None
                    } else {
                        Some(from)
                    })
                })
                &&& left && before.cursor > 0 ==> one_cluster(text, after.cursor, before.cursor)
                &&& !left && before.cursor < text.len() ==> one_cluster(
                    text,
                    before.cursor,
                    after.cursor,
                )
            }
        }),
{
    let starts = grapheme_starts_of(text);
    lemma_prev_start_below(text, starts, before.cursor);
    let e = clamped(before, text.len());
    if key.sym == 0xff53 || key.sym == 0xff98 {
        let target = choose|target: nat| #[trigger]
            next_end(text, starts, e.cursor, target) && after == moved(
                e,
                text.len(),
                target,
                key.shift,
                true,
            );
        lemma_next_end_above(text, starts, e.cursor, target);
        lemma_next_end_is(text, starts, e.cursor, target);
        if e.cursor == text.len() {
            let byte = byte_offset(text, text.len() as int);
            assert(text.take(text.len() as int) =~= text);
            assert forall|i: int| !first_ending_past(text, starts, byte, i) by {
                if first_ending_past(text, starts, byte, i) && i + 1 < starts.len() {
                    let k = choose|k: int|
                        0 <= k < text.len() && starts[i + 1] == #[trigger] byte_offset(text, k);
                    assert(starts[i + 1] == byte_offset(text, k) && 0 <= k < text.len());
                    lemma_byte_offset_mono(text, k, text.len() as int);
                }
            }
        }
    } else if before.cursor > 0 {
        lemma_prev_start_is(text, starts, before.cursor);
    }
}

/// Whether no cluster begins between two places.
pub open spec fn one_cluster(text: Seq<char>, from: nat, to: nat) -> bool {
    forall|i: int|
        0 <= i < grapheme_starts_of(text).len() ==> !(byte_offset(text, from as int) < (
        #[trigger] grapheme_starts_of(text)[i]) && grapheme_starts_of(text)[i] < byte_offset(
            text,
            to as int,
        ))
}

/// The cluster before the cursor begins at a cluster start, and none begins
/// between that and the cursor.
proof fn lemma_prev_start_is(text: Seq<char>, starts: Seq<usize>, cursor: nat)
    requires
        cluster_starts(text, starts),
        0 < cursor <= text.len(),
    ensures
        forall|i: int|
            0 <= i < starts.len() ==> !(byte_offset(
                text,
                prev_start(text, starts, cursor) as int,
            ) < (#[trigger] starts[i]) && starts[i] < byte_offset(text, cursor as int)),
{
    let byte = byte_offset(text, cursor as int);
    let n = starts_below(starts, byte);
    lemma_starts_below_last(starts, byte);
    lemma_starts_below_next(starts, byte);
    assert(text.take(0) =~= Seq::<char>::empty());
    lemma_byte_offset_mono(text, 0, cursor as int);
    assert(byte_offset(text, 0) == 0);
    if n > 0 {
        let k = choose|k: int|
            0 <= k < text.len() && starts[n - 1] == #[trigger] byte_offset(text, k);
        assert(starts[n - 1] == starts[n - 1]);
        assert(exists|k: int|
            0 <= k < text.len() && #[trigger] starts[n - 1] == #[trigger] byte_offset(text, k));
        lemma_byte_offset_mono(text, k, k + 1);
        lemma_chars_within(text, starts[n - 1] as nat, k);
        assert(byte_offset(text, prev_start(text, starts, cursor) as int) == starts[n - 1]);
        assert forall|i: int| 0 <= i < starts.len() implies !(starts[n - 1] < (
        #[trigger] starts[i]) && starts[i] < byte) by {
            if i >= n && n < starts.len() {
                assert(starts[n as int] >= byte);
                if i > n {
                    assert(starts[n as int] < starts[i]);
                }
            }
        }
    } else {
        assert(starts.len() > 0);
        assert(starts[0] == 0);
    }
}

proof fn lemma_starts_below_next(starts: Seq<usize>, byte: nat)
    ensures
        starts_below(starts, byte) < starts.len() ==> starts[starts_below(starts, byte) as int]
            >= byte,
    decreases starts.len(),
{
    if starts.len() > 0 {
        lemma_starts_below_next(starts.drop_last(), byte);
        lemma_starts_below_last(starts.drop_last(), byte);
    }
}

/// The cluster at the cursor ends before the next one begins.
proof fn lemma_next_end_is(text: Seq<char>, starts: Seq<usize>, cursor: nat, r: nat)
    requires
        cluster_starts(text, starts),
        cursor <= text.len(),
        next_end(text, starts, cursor, r),
    ensures
        cursor < text.len() ==> forall|i: int|
            0 <= i < starts.len() ==> !(byte_offset(text, cursor as int) < (#[trigger] starts[i])
                && starts[i] < byte_offset(text, r as int)),
{
    if cursor < text.len() {
        let byte = byte_offset(text, cursor as int);
        lemma_byte_offset_mono(text, cursor as int, text.len() as int);
        assert(text.take(text.len() as int) =~= text);
        if exists|i: int| first_ending_past(text, starts, byte, i) {
            let i = choose|i: int| #[trigger]
                first_ending_past(text, starts, byte, i) && r == chars_within(
                    text,
                    cluster_end(text, starts, i),
                );
            let end = cluster_end(text, starts, i);
            let k = if i + 1 < starts.len() {
                choose|k: int|
                    0 <= k < text.len() && starts[i + 1] == #[trigger] byte_offset(text, k)
            } else {
                text.len() as int
            };
            if i + 1 < starts.len() {
                assert(starts[i + 1] == byte_offset(text, k) && 0 <= k < text.len());
            }
            assert(byte_offset(text, k) == end);
            if k < text.len() {
                lemma_byte_offset_mono(text, k, k + 1);
            }
            lemma_chars_within(text, end, k);
            assert forall|j: int| 0 <= j < starts.len() implies !(byte < (#[trigger] starts[j])
                && starts[j] < end) by {
                if j <= i {
                    if i > 0 {
                        assert(cluster_end(text, starts, i - 1) <= byte);
                        if j < i {
                            assert(starts[j] < starts[i]);
                        }
                    }
                } else if j > i + 1 {
                    assert(starts[i + 1] < starts[j]);
                }
            }
        } else {
            let last = starts.len() - 1;
            assert(starts.len() > 0);
            lemma_first_past_exists(text, starts, byte, last);
            assert(false);
        }
    }
}

proof fn lemma_first_past_exists(text: Seq<char>, starts: Seq<usize>, byte: nat, i: int)
    requires
        0 <= i < starts.len(),
        cluster_end(text, starts, i) > byte,
    ensures
        exists|k: int| first_ending_past(text, starts, byte, k),
    decreases i,
{
    if exists|j: int| 0 <= j < i && cluster_end(text, starts, j) > byte {
        let j = choose|j: int| 0 <= j < i && cluster_end(text, starts, j) > byte;
        lemma_first_past_exists(text, starts, byte, j);
    } else {
        assert(first_ending_past(text, starts, byte, i));
    }
}

/// What may be typed is what is no control character, all of it and in order.
pub proof fn lemma_printable_is(s: Seq<char>)
    ensures
        printable(s) == s.filter(|c: char| !(c as u32 <= 0x1F || 0x7F <= c as u32 <= 0x9F)),
    decreases s.len(),
{
    reveal(Seq::filter);
    let keeps = |c: char| !(c as u32 <= 0x1F || 0x7F <= c as u32 <= 0x9F);
    if s.len() > 0 {
        lemma_printable_is(s.drop_last());
        assert(keeps(s.last()) == !control(s.last()));
    } else {
        assert(s =~= s.filter(keeps));
    }
}

/// The shortcuts with Ctrl. A selects the whole line. C copies the selected
/// characters and changes nothing. X copies them too and takes them out. Z brings
/// back the text and the cursor of the newest change and drops it from the
/// history.
pub proof fn lemma_shortcuts(
    answers: spec_fn(Seq<char>, bool) -> bool,
    key: KeyView,
    clipboard: Option<Seq<char>>,
    before: EditView,
    text: Seq<char>,
    after: EditView,
    text_after: Seq<char>,
    outcome: OutcomeView,
)
    requires
        key_effect(answers, key, clipboard, before, text, after, text_after, outcome),
        key.ctrl,
        before.cursor <= text.len(),
        before.anchor matches Some(a) ==> a <= text.len(),
    ensures
        key.sym == 0x61 || key.sym == 0x41 ==> text_after == text && after.cursor == text.len()
            && after.anchor == Some(0nat) && after.undo == before.undo,
        key.sym == 0x63 || key.sym == 0x43 ==> text_after == text && after == before,
        ({
            let a = match before.anchor {
                Some(a) => a,
                None => before.cursor,
            };
            let (low, high) = if a < before.cursor {
                (a, before.cursor)
            } else {
                (before.cursor, a)
            };
            let part = text.subrange(low as int, high as int);
            &&& key.sym == 0x63 || key.sym == 0x43 ==> outcome == (OutcomeView::Handled {
                changed: false,
                copy: if low < high {
                    Some(part)
                } else {
                    None
                },
            })
            &&& (key.sym == 0x78 || key.sym == 0x58) && low < high ==> {
                &&& text_after == text.take(low as int) + text.skip(high as int)
                &&& after.cursor == low
                &&& after.anchor is None
                &&& after.undo.last() == (text, before.cursor)
                &&& outcome == (OutcomeView::Handled { changed: true, copy: Some(part) })
            }
            &&& (key.sym == 0x78 || key.sym == 0x58) && low == high ==> text_after == text && after
                == before && outcome == (OutcomeView::Handled { changed: false, copy: None })
        }),
        (key.sym == 0x7a || key.sym == 0x5a) && before.undo.len() > 0 ==> {
            let (old_text, old_cursor) = before.undo[before.undo.len() - 1];
            &&& text_after == old_text
            &&& after.cursor == (if old_cursor < old_text.len() {
                old_cursor
            } else {
                old_text.len()
            })
            &&& after.anchor is None
            &&& after.undo == before.undo.take(before.undo.len() - 1)
            &&& outcome == (OutcomeView::Handled { changed: true, copy: None })
        },
        (key.sym == 0x7a || key.sym == 0x5a) && before.undo.len() == 0 ==> text_after == text
            && after == before && outcome == (OutcomeView::Handled { changed: false, copy: None }),
{
    assert(clamped(before, text.len()) == before);
    assert(before.undo.len() > 0 ==> before.undo.drop_last() =~= before.undo.take(
        before.undo.len() - 1,
    ));
}

/// Typing and pasting put the characters in at the cursor, or in place of the
/// selection: as many of the first that are no control characters as are
/// accepted, with the cursor behind them. The text before is in the history then.
/// When none is accepted nothing happens.
pub proof fn lemma_typing(
    answers: spec_fn(Seq<char>, bool) -> bool,
    key: KeyView,
    clipboard: Option<Seq<char>>,
    before: EditView,
    text: Seq<char>,
    after: EditView,
    text_after: Seq<char>,
    outcome: OutcomeView,
    insert: Seq<char>,
)
    requires
        key_effect(answers, key, clipboard, before, text, after, text_after, outcome),
        before.cursor <= text.len(),
        before.anchor matches Some(a) ==> a <= text.len(),
        (key.ctrl && (key.sym == 0x76 || key.sym == 0x56) && clipboard == Some(insert)) || (
        !key.ctrl && 0x20 <= key.sym < 0xff00 && key.text == insert && insert.len() == 1),
    ensures
        ({
            let a = match before.anchor {
                Some(a) => a,
                None => before.cursor,
            };
            let (low, high) = if a < before.cursor {
                (a, before.cursor)
            } else {
                (before.cursor, a)
            };
            let typed = insert.filter(|c: char| !(c as u32 <= 0x1F || 0x7F <= c as u32 <= 0x9F));
            exists|n: int|
                #![trigger typed.take(n)]
                {
                    &&& 0 <= n <= typed.len()
                    &&& n == 0 ==> text_after == text && after == before && outcome == (
                    OutcomeView::Handled { changed: false, copy: None })
                    &&& n > 0 ==> {
                        &&& text_after == text.take(low as int) + typed.take(n) + text.skip(
                            high as int,
                        )
                        &&& answers(text_after, true)
                        &&& after.cursor == low + n
                        &&& after.anchor is None
                        &&& after.undo.last() == (text, before.cursor)
                        &&& outcome == (OutcomeView::Handled { changed: true, copy: None })
                    }
                    &&& n < typed.len() ==> answers(
                        text.take(low as int) + typed.take(n + 1) + text.skip(high as int),
                        false,
                    )
                }
        }),
{
    let e = before;
    assert(clamped(before, text.len()) == before);
    lemma_printable_is(insert);
    let typed = printable(insert);
    if !key.ctrl {
        assert(insert =~= seq![key.text[0]]);
    }
    let changed = choose|changed: bool|
        insertion(answers, e, text, insert, after, text_after, changed) && outcome
            == #[trigger] handled_view(changed);
    let a = match before.anchor {
        Some(a) => a,
        None => before.cursor,
    };
    let (low, high) = if a < before.cursor {
        (a, before.cursor)
    } else {
        (before.cursor, a)
    };
    assert forall|added: Seq<char>| #[trigger] with_inserted(e, text, added) == text.take(
        low as int,
    ) + added + text.skip(high as int) by {
        assert(with_inserted(e, text, added) =~= text.take(low as int) + added + text.skip(
            high as int,
        ));
    }
    if typed.len() == 0 {
        assert(typed.take(0) =~= typed);
    } else {
        let n = choose|n: nat| #[trigger]
            accepted_prefix(answers, e, text, typed, n) && if n == 0 {
                after == e && text_after == text && !changed
            } else {
                (after, text_after) == inserted(e, text, typed.take(n as int)) && changed
            };
        assert(typed.take(n as int).len() == n);
    }
}

/// Backspace takes out the selection, or else the cluster before the cursor, and
/// leaves the cursor there; at the start of the line it does nothing. The text
/// before is in the history then.
pub proof fn lemma_backspace(
    answers: spec_fn(Seq<char>, bool) -> bool,
    key: KeyView,
    clipboard: Option<Seq<char>>,
    before: EditView,
    text: Seq<char>,
    after: EditView,
    text_after: Seq<char>,
    outcome: OutcomeView,
)
    requires
        key_effect(answers, key, clipboard, before, text, after, text_after, outcome),
        key.sym == 0xff08,
        before.cursor <= text.len(),
        before.anchor matches Some(a) ==> a <= text.len(),
        cluster_starts(text, grapheme_starts_of(text)),
    ensures
        ({
            let a = match before.anchor {
                Some(a) => a,
                None => before.cursor,
            };
            let (low, high) = if a < before.cursor {
                (a, before.cursor)
            } else {
                (before.cursor, a)
            };
            if low < high {
                &&& text_after == text.take(low as int) + text.skip(high as int)
                &&& after.cursor == low
                &&& after.anchor is None
                &&& after.undo.last() == (text, before.cursor)
                &&& outcome == (OutcomeView::Handled { changed: true, copy: None })
            } else if before.cursor == 0 {
                text_after == text && after == before && outcome == (OutcomeView::Handled {
                    changed: false,
                    copy: None,
                })
            } else {
                &&& after.cursor < before.cursor
                &&& one_cluster(text, after.cursor, before.cursor)
                &&& text_after == text.take(after.cursor as int) + text.skip(before.cursor as int)
                &&& after.undo.last() == (text, before.cursor)
                &&& outcome == (OutcomeView::Handled { changed: true, copy: None })
            }
        }),
{
    assert(clamped(before, text.len()) == before);
    lemma_prev_start_below(text, grapheme_starts_of(text), before.cursor);
    if before.cursor > 0 {
        lemma_prev_start_is(text, grapheme_starts_of(text), before.cursor);
    }
}

/// Escape, Tab and Enter are left to others, and change nothing.
pub proof fn lemma_unhandled_keys(
    answers: spec_fn(Seq<char>, bool) -> bool,
    key: KeyView,
    clipboard: Option<Seq<char>>,
    before: EditView,
    text: Seq<char>,
    after: EditView,
    text_after: Seq<char>,
    outcome: OutcomeView,
)
    requires
        key_effect(answers, key, clipboard, before, text, after, text_after, outcome),
        key.sym == 0xff1b || key.sym == 0xff09 || key.sym == 0xff89 || key.sym == 0xff0d || key.sym
            == 0xff8d,
        before.cursor <= text.len(),
        before.anchor matches Some(a) ==> a <= text.len(),
    ensures
        outcome is Unhandled,
        text_after == text,
        after == before,
{
    assert(clamped(before, text.len()) == before);
}

/// The history keeps the last hundred changes.
pub proof fn lemma_history_limit(e: EditView, text: Seq<char>)
    requires
        e.undo.len() <= 100,
    ensures
        with_undo(e, text).undo == (if e.undo.len() < 100 {
            e.undo
        } else {
            e.undo.skip(1)
        }).push((text, e.cursor)),
        with_undo(e, text).cursor == e.cursor,
        with_undo(e, text).anchor == e.anchor,
{
    assert(e.undo.len() > 0 ==> e.undo.subrange(1, e.undo.len() as int) =~= e.undo.skip(1));
}

/// A mouse selection begins where the mouse is pressed, with nothing selected, and
/// reaches from there to where it is moved; back at its start nothing is selected.
/// Without one a movement does nothing.
pub proof fn lemma_mouse_selects(
    edit: &TextEdit,
    cursor: usize,
    text: &str,
    after: &TextEdit,
    r: bool,
)
    ensures
        edit.drag_begins(cursor, text, after) && cursor <= text@.len() ==> after@.cursor == cursor
            && after@.drag == Some(cursor as nat) && after@.anchor is None && after@.undo
            == edit@.undo,
        edit.drag_begins(cursor, text, after) && cursor > text@.len() ==> after@.cursor
            == text@.len() && after@.drag == Some(text@.len()),
        edit.drag_goes_on(cursor, text, after, r) && edit@.drag is None ==> !r && after@ == edit@,
        edit.drag_goes_on(cursor, text, after, r) && cursor <= text@.len() ==> (
        edit@.drag matches Some(start) ==> after@.cursor == cursor && after@.drag == Some(start) && (
        start == cursor ==> after@.anchor is None) && (start != cursor ==> after@.anchor == Some(
            start,
        )) && (r <==> after@.cursor != edit@.cursor || after@.anchor != edit@.anchor)),
{
}

/// A check answers for a text what it may return for a string of these characters.
pub proof fn lemma_answers_are<F: Fn(&str) -> bool>(can_replace: F, s: &str, answer: bool)
    requires
        can_replace.ensures((s,), answer),
    ensures
        answered(can_replace, s@, answer),
        answers(can_replace)(s@, answer),
{
}

/// A step changes no text and no history. Selecting, it begins a selection where there
/// is none; a step to the left leads to a place before the cursor and one to the right
/// to a place behind it, where there is one.
pub proof fn lemma_steps_lead(
    before: &TextEdit,
    text: &str,
    delta: isize,
    selecting: bool,
    after: &TextEdit,
)
    requires
        before.steps(text, delta, selecting, after),
        before@.cursor <= text@.len(),
        before@.anchor is None,
        cluster_starts(text@, grapheme_starts_of(text@)),
    ensures
        after@.undo == before@.undo,
        delta < 0 && before@.cursor > 0 ==> after@.cursor < before@.cursor,
        delta < 0 && before@.cursor == 0 ==> after@.cursor == 0,
        delta >= 0 && before@.cursor < text@.len() ==> before@.cursor < after@.cursor
            <= text@.len(),
        delta >= 0 && before@.cursor == text@.len() ==> after@.cursor == text@.len(),
        !selecting ==> after@.anchor is None,
{
    let starts = grapheme_starts_of(text@);
    lemma_prev_start_below(text@, starts, before@.cursor);
    if delta >= 0 {
        let target = choose|target: nat| #[trigger]
            next_end(text@, starts, before@.cursor, target) && after@ == moved(
                before@,
                text@.len(),
                target,
                selecting,
                true,
            );
        lemma_next_end_above(text@, starts, before@.cursor, target);
        if before@.cursor == text@.len() {
            let byte = byte_offset(text@, text@.len() as int);
            assert(text@.take(text@.len() as int) =~= text@);
            assert forall|i: int| !first_ending_past(text@, starts, byte, i) by {
                if first_ending_past(text@, starts, byte, i) && i + 1 < starts.len() {
                    let k = choose|k: int|
                        0 <= k < text@.len() && starts[i + 1] == #[trigger] byte_offset(text@, k);
                    assert(starts[i + 1] == byte_offset(text@, k) && 0 <= k < text@.len());
                    lemma_byte_offset_mono(text@, k, text@.len() as int);
                }
            }
        }
    }
}

/// Selecting everything selects from the text's start to its end, where the cursor then
/// is. A cursor that is set stands where it is set, or at the text's end, and nothing is
/// selected. Neither changes the history.
pub proof fn lemma_cursor_is_set(before: &TextEdit, cursor: usize, text: &str, after: &TextEdit)
    ensures
        before.all_selected(text, after) ==> after@.cursor == text@.len() && after@.anchor == Some(
            0nat,
        ) && after@.undo == before@.undo && after@.drag is None,
        before.cursor_leads_to(cursor, text, after) ==> {
            &&& after@.undo == before@.undo
            &&& after@.anchor is None
            &&& after@.drag is None
            &&& cursor <= text@.len() ==> after@.cursor == cursor
            &&& cursor > text@.len() ==> after@.cursor == text@.len()
        },
{
}

} // verus!
