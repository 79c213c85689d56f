//! The fwends: a chat with models, drawn as bubbles and sticky notes.
use vstd::prelude::*;

use crate::chars::{
    append_str, from_chars, replaced_all, string_views, to_chars, trim, trim_chars,
};
use crate::chat::{
    fwend_system_prompt, group_chat_note, history, intro_message, intro_view, message_views,
    normal, request_history, strip_self_prefix, unlabelled, Message,
    MessageKind, MessageView, Model, Role, MODEL_COUNT,
};
use crate::cursor::CursorKind;
use crate::graphics::{lemma_place, span, Sprite, TRANSPARENT};
use crate::json::text_view;
use crate::paths::str_view;
use crate::text::edit::{clip, key_effect, EditView, OutcomeView, TextEditOutcome};
use crate::text::field::{
    cursor_at, lemma_keys_keep_within_limit, within, FieldView, TextField, TextLayout,
};
use crate::text::font::BitmapFont;
use crate::text::input::{edit_key, edit_key_of, EditKey, KeyInput, KeyView};
use crate::text_wrap::lemma_wrap_sizes;

verus! {

pub const CONTENT_W: usize = 348;

/// The widget's width: the content and the part of the eraser beside it.
pub const W: usize = 363;

/// The least height.
pub const H: usize = 318;

pub const PAD: usize = 8;

pub const CHAT_Y: usize = 8;

pub const INPUT_BOTTOM_PAD: usize = 126;

pub const BUBBLE_GAP: usize = 5;

pub const BUBBLE_MAX_W: usize = 142;

pub const SCROLL_STEP: usize = 24;

pub const LINE_H: usize = 16;

pub const MAX_INPUT_CHARS: usize = 96;

pub const INPUT_MAX_LINES: usize = 5;

pub const SMOL_ICON_SIZE: usize = 11;

/// How a message is drawn: the room around its text, and the edges of its
/// picture that are not stretched.
#[derive(Clone, Copy, Debug, PartialEq, Eq, Structural)]
pub struct MessageStyle {
    pub sticky: bool,
    pub pad_left: usize,
    pub pad_right: usize,
    pub pad_top: usize,
    pub pad_bottom: usize,
    pub left_cap: usize,
    pub right_cap: usize,
    pub top_cap: usize,
    pub bottom_cap: usize,
    pub min_w: usize,
}

/// The user's messages are sticky notes on the right, the others bubbles.
pub open spec fn style(role: Role) -> MessageStyle {
    match role {
        Role::User => MessageStyle {
            sticky: true,
            pad_left: 10,
            pad_right: 20,
            pad_top: 24,
            pad_bottom: 20,
            left_cap: 10,
            right_cap: 20,
            top_cap: 20,
            bottom_cap: 20,
            min_w: 141,
        },
        Role::Assistant => MessageStyle {
            sticky: false,
            pad_left: 14,
            pad_right: 14,
            pad_top: 8,
            pad_bottom: 11,
            left_cap: 21,
            right_cap: 21,
            top_cap: 17,
            bottom_cap: 17,
            min_w: 38,
        },
    }
}

pub fn message_style(role: Role) -> (r: MessageStyle)
    ensures
        r == style(role),
{
    match role {
        Role::User => MessageStyle {
            sticky: true,
            pad_left: 10,
            pad_right: 20,
            pad_top: 24,
            pad_bottom: 20,
            left_cap: 10,
            right_cap: 20,
            top_cap: 20,
            bottom_cap: 20,
            min_w: 141,
        },
        Role::Assistant => MessageStyle {
            sticky: false,
            pad_left: 14,
            pad_right: 14,
            pad_top: 8,
            pad_bottom: 11,
            left_cap: 21,
            right_cap: 21,
            top_cap: 17,
            bottom_cap: 17,
            min_w: 38,
        },
    }
}

/// A message laid out: its lines, who said it, and its box in the chat.
pub struct MessageLayout {
    pub style: MessageStyle,
    pub lines: Vec<String>,
    pub author: Option<String>,
    pub x: usize,
    pub y: usize,
    pub w: usize,
    pub h: usize,
}

#[verifier::ext_equal]
pub struct LayoutView {
    pub style: MessageStyle,
    pub lines: Seq<Seq<char>>,
    pub author: Option<Seq<char>>,
    pub x: int,
    pub y: int,
    pub w: int,
    pub h: int,
}

impl View for MessageLayout {
    type V = LayoutView;

    open spec fn view(&self) -> LayoutView {
        LayoutView {
            style: self.style,
            lines: string_views(self.lines@),
            author: text_view(self.author),
            x: self.x as int,
            y: self.y as int,
            w: self.w as int,
            h: self.h as int,
        }
    }
}

pub open spec fn layout_views(layouts: Seq<MessageLayout>) -> Seq<LayoutView> {
    Seq::new(layouts.len(), |i: int| layouts[i]@)
}

/// The width of the widest line.
pub open spec fn widest(font: &BitmapFont, lines: Seq<Seq<char>>) -> int
    decreases lines.len(),
{
    if lines.len() == 0 {
        0
    } else {
        let before = widest(font, lines.drop_last());
        if font.width_of(lines.last()) > before {
            font.width_of(lines.last())
        } else {
            before
        }
    }
}

pub open spec fn box_width(text_w: int, style: MessageStyle) -> int {
    let wanted = text_w + style.pad_left + style.pad_right;
    if wanted < style.min_w {
        style.min_w as int
    } else if wanted > BUBBLE_MAX_W {
        BUBBLE_MAX_W as int
    } else {
        wanted
    }
}

pub open spec fn box_height(lines: int, style: MessageStyle) -> int {
    let wanted = lines * 16 + style.pad_top + style.pad_bottom;
    let least = style.top_cap + style.bottom_cap + 1;
    if wanted < least {
        least
    } else {
        wanted
    }
}

/// A message laid out at a height; those of the fwends start at `left`.
pub open spec fn laid_out(font: &BitmapFont, left: int, message: MessageView, y: int) -> LayoutView {
    let style = style(message.role());
    let layout = TextLayout {
        font,
        width: (BUBBLE_MAX_W - style.pad_left - style.pad_right) as usize,
    };
    let lines = layout.lines_of(message.text());
    let w = box_width(widest(font, lines), style);
    LayoutView {
        style,
        lines,
        author: message.author(),
        x: if message.role() is User {
            CONTENT_W - PAD - w
        } else {
            left
        },
        y,
        w,
        h: box_height(lines.len() as int, style),
    }
}

/// More than the height that messages can take.
pub open spec fn bulk(messages: Seq<MessageView>) -> int
    decreases messages.len(),
{
    if messages.len() == 0 {
        0
    } else {
        bulk(messages.drop_last()) + 16 * messages.last().text().len() + 80
    }
}

/// The bulk up to which the machine can place a conversation: its heights, and
/// the widths of its texts, stay far enough within a signed number.
pub open spec fn room() -> int {
    isize::MAX / 16 - 0xFFFF
}

/// The height at which the next message goes.
pub open spec fn next_y(layouts: Seq<LayoutView>) -> int {
    if layouts.len() == 0 {
        0
    } else {
        layouts.last().y + layouts.last().h + BUBBLE_GAP
    }
}

/// Messages laid out one below the other.
pub open spec fn stacked(font: &BitmapFont, left: int, messages: Seq<MessageView>) -> Seq<
    LayoutView,
>
    decreases messages.len(),
{
    if messages.len() == 0 {
        Seq::empty()
    } else {
        let before = stacked(font, left, messages.drop_last());
        before.push(laid_out(font, left, messages.last(), next_y(before)))
    }
}

pub proof fn lemma_stacked_height(font: &BitmapFont, left: int, messages: Seq<MessageView>)
    ensures
        0 <= next_y(stacked(font, left, messages)) <= bulk(messages),
        stacked(font, left, messages).len() == messages.len(),
        forall|i: int|
            0 <= i < messages.len() ==> {
                let layout = #[trigger] stacked(font, left, messages)[i];
                &&& 0 <= layout.y
                &&& 0 < layout.h
                &&& layout.y + layout.h < next_y(stacked(font, left, messages))
                &&& 38 <= layout.w <= BUBBLE_MAX_W
                &&& layout.x == left || layout.x == CONTENT_W - PAD - layout.w
            },
    decreases messages.len(),
{
    if messages.len() > 0 {
        let front = messages.drop_last();
        lemma_stacked_height(font, left, front);
        let message = messages.last();
        let style = style(message.role());
        let layout = TextLayout {
            font,
            width: (BUBBLE_MAX_W - style.pad_left - style.pad_right) as usize,
        };
        lemma_wrap_sizes(font.run_of(message.text()), layout.width as nat);
        assert(layout.lines_of(message.text()).len() <= message.text().len() + 1);
        let all = stacked(font, left, messages);
        assert forall|i: int| 0 <= i < messages.len() implies {
            let layout = #[trigger] all[i];
            &&& 0 <= layout.y
            &&& 0 < layout.h
            &&& layout.y + layout.h < next_y(all)
            &&& 38 <= layout.w <= BUBBLE_MAX_W
            &&& layout.x == left || layout.x == CONTENT_W - PAD - layout.w
        } by {
            if i < front.len() {
                assert(all[i] == stacked(font, left, front)[i]);
            }
        }
    }
}

/// No line of a message is longer than the message, nor are its lines higher
/// than its box.
pub proof fn lemma_lines_fit(font: &BitmapFont, left: int, messages: Seq<MessageView>, i: int)
    requires
        0 <= i < messages.len(),
    ensures
        ({
            let layout = stacked(font, left, messages)[i];
            &&& layout.style.pad_left <= 14
            &&& layout.style.pad_top + 16 * layout.lines.len() <= layout.h
            &&& forall|j: int|
                0 <= j < layout.lines.len() ==> 16 * (#[trigger] layout.lines[j]).len() <= bulk(
                    messages,
                )
        }),
    decreases messages.len(),
{
    let front = messages.drop_last();
    lemma_bulk_nonnegative(front);
    if i < front.len() {
        lemma_lines_fit(font, left, front, i);
        lemma_stacked_height(font, left, front);
        assert(stacked(font, left, messages)[i] == stacked(font, left, front)[i]);
    } else {
        lemma_stacked_height(font, left, front);
        let message = messages.last();
        let style = style(message.role());
        let layout = TextLayout {
            font,
            width: (BUBBLE_MAX_W - style.pad_left - style.pad_right) as usize,
        };
        lemma_wrap_sizes(font.run_of(message.text()), layout.width as nat);
        assert(font.run_of(message.text()).len() == message.text().len());
    }
}

/// Messages never overlap: each starts below those before it.
pub proof fn lemma_messages_do_not_overlap(
    font: &BitmapFont,
    left: int,
    messages: Seq<MessageView>,
    i: int,
    j: int,
)
    requires
        0 <= i < j < messages.len(),
    ensures
        stacked(font, left, messages)[i].y + stacked(font, left, messages)[i].h + BUBBLE_GAP
            <= stacked(font, left, messages)[j].y,
    decreases messages.len(),
{
    let front = messages.drop_last();
    lemma_stacked_height(font, left, front);
    let before = stacked(font, left, front);
    assert(stacked(font, left, messages)[i] == before[i]);
    if j < front.len() {
        assert(stacked(font, left, messages)[j] == before[j]);
        lemma_messages_do_not_overlap(font, left, front, i, j);
    } else if i < front.len() - 1 {
        lemma_messages_do_not_overlap(font, left, front, i, front.len() - 1);
    }
}

fn widest_line(font: &BitmapFont, lines: &Vec<String>) -> (r: usize)
    requires
        font.wf(),
        forall|i: int|
            0 <= i < lines@.len() ==> 255 * (#[trigger] lines@[i])@.len() <= isize::MAX,
    ensures
        r == widest(font, string_views(lines@)),
        r <= isize::MAX,
{
    let ghost all = string_views(lines@);
    let mut best: usize = 0;
    let mut i: usize = 0;
    assert(all.take(0) =~= Seq::empty());
    while i < lines.len()
        invariant
            i <= lines@.len(),
            font.wf(),
            all == string_views(lines@),
            forall|j: int|
                0 <= j < lines@.len() ==> 255 * (#[trigger] lines@[j])@.len() <= isize::MAX,
            best == widest(font, all.take(i as int)),
            best <= isize::MAX,
        decreases lines@.len() - i,
    {
        assert(255 * lines@[i as int]@.len() <= isize::MAX);
        let width: usize = font.text_width(lines[i].as_str());
        proof {
            font.lemma_width(lines@[i as int]@);
            assert(all.take(i + 1).drop_last() =~= all.take(i as int));
            assert(all.take(i + 1).last() == lines@[i as int]@);
        }
        if width > best {
            best = width;
        }
        i += 1;
    }
    assert(all.take(all.len() as int) =~= all);
    best
}

/// Lays a message out.
pub fn compute_message_layout(font: &BitmapFont, left: usize, message: &Message, y: usize) -> (r:
    MessageLayout)
    requires
        font.wf(),
        message@.text().len() <= isize::MAX / 256,
    ensures
        r@ == laid_out(font, left as int, message@, y as int),
{
    let role = message.role();
    let style = message_style(role);
    let layout = TextLayout { font, width: BUBBLE_MAX_W - style.pad_left - style.pad_right };
    proof {
        font.lemma_lines_fit(message@.text(), layout.width as nat);
    }
    let lines = layout.wrap(message.text());
    let ghost all = string_views(lines@);
    proof {
        lemma_wrap_sizes(font.run_of(message@.text()), layout.width as nat);
        assert(all.len() == lines@.len());
        assert forall|i: int| 0 <= i < lines@.len() implies 255 * (#[trigger] lines@[i])@.len()
            <= isize::MAX by {
            assert(all[i] == lines@[i]@);
        }
    }
    let text_w: usize = widest_line(font, &lines);
    let wanted: usize = text_w + style.pad_left + style.pad_right;
    let w: usize = if wanted < style.min_w {
        style.min_w
    } else if wanted > BUBBLE_MAX_W {
        BUBBLE_MAX_W
    } else {
        wanted
    };
    let tall: usize = lines.len() * LINE_H + style.pad_top + style.pad_bottom;
    let least: usize = style.top_cap + style.bottom_cap + 1;
    let h: usize = if tall < least {
        least
    } else {
        tall
    };
    let x: usize = match role {
        Role::User => CONTENT_W - PAD - w,
        Role::Assistant => left,
    };
    let author = match message.author() {
        Some(name) => Some(name.to_owned()),
        None => None,
    };
    let r = MessageLayout { style, lines, author, x, y, w, h };
    assert(r@ =~= laid_out(font, left as int, message@, y as int));
    r
}

fn stack_messages(font: &BitmapFont, left: usize, messages: &Vec<Message>) -> (r: Vec<
    MessageLayout,
>)
    requires
        font.wf(),
        bulk(message_views(messages@)) <= room() + 0x1_0000,
    ensures
        layout_views(r@) == stacked(font, left as int, message_views(messages@)),
{
    let ghost all = message_views(messages@);
    let mut out: Vec<MessageLayout> = Vec::new();
    let mut y: usize = 0;
    let mut i: usize = 0;
    assert(layout_views(out@) =~= stacked(font, left as int, all.take(0)));
    while i < messages.len()
        invariant
            i <= messages@.len(),
            font.wf(),
            all == message_views(messages@),
            bulk(all) <= room() + 0x1_0000,
            layout_views(out@) =~= stacked(font, left as int, all.take(i as int)),
            y == next_y(stacked(font, left as int, all.take(i as int))),
        decreases messages@.len() - i,
    {
        proof {
            lemma_bulk_prefix(all, i + 1);
            lemma_stacked_height(font, left as int, all.take(i as int));
            lemma_stacked_height(font, left as int, all.take(i + 1));
            assert(all.take(i + 1).drop_last() =~= all.take(i as int));
            assert(all.take(i + 1).last() == messages@[i as int]@);
            lemma_bulk_nonnegative(all.take(i as int));
        }
        let layout = compute_message_layout(font, left, &messages[i], y);
        let ghost before = out@;
        proof {
            let grown = stacked(font, left as int, all.take(i + 1));
            assert(grown.last() == layout@);
            assert(next_y(grown) == layout@.y + layout@.h + BUBBLE_GAP);
        }
        y = y + layout.h + BUBBLE_GAP;
        out.push(layout);
        assert(layout_views(out@) =~= layout_views(before).push(layout@));
        i += 1;
    }
    assert(all.take(all.len() as int) =~= all);
    out
}

proof fn lemma_bulk_nonnegative(messages: Seq<MessageView>)
    ensures
        bulk(messages) >= 0,
    decreases messages.len(),
{
    if messages.len() > 0 {
        lemma_bulk_nonnegative(messages.drop_last());
    }
}

proof fn lemma_bulk_prefix(messages: Seq<MessageView>, n: int)
    requires
        0 <= n <= messages.len(),
    ensures
        0 <= bulk(messages.take(n)) <= bulk(messages),
    decreases messages.len(),
{
    lemma_bulk_nonnegative(messages.take(n));
    if n < messages.len() {
        lemma_bulk_prefix(messages.drop_last(), n);
        assert(messages.drop_last().take(n) =~= messages.take(n));
    } else {
        assert(messages.take(n) =~= messages);
    }
}

/// The pictures that decide where the pointer is, and the sizes of the others.
pub struct FwendsArt {
    pub eraser: Sprite,
    pub lamp_on: Sprite,
    pub lamp_off: Sprite,
    /// The room of a fwend's picture.
    pub slot_w: usize,
    pub slot_h: usize,
    /// The sticky note that is written on.
    pub sticky_w: usize,
    pub sticky_h: usize,
}

pub open spec fn handy(sprite: Sprite) -> bool {
    sprite.wf() && sprite.width <= span() && sprite.height <= span()
}

impl FwendsArt {
    pub open spec fn wf(&self) -> bool {
        &&& handy(self.eraser)
        &&& handy(self.lamp_on)
        &&& handy(self.lamp_off)
        &&& self.slot_w <= span()
        &&& self.slot_h <= span()
        &&& self.sticky_w <= span()
        &&& self.sticky_h <= span()
    }

    /// Where the fwends' bubbles and the sticky note start.
    pub open spec fn left(&self) -> int {
        108 + self.slot_w
    }
}

pub open spec fn less(a: int, b: int) -> int {
    if a < b {
        0
    } else {
        a - b
    }
}

fn minus(a: usize, b: usize) -> (r: usize)
    ensures
        r == less(a as int, b as int),
{
    if a < b {
        0
    } else {
        a - b
    }
}

/// Where the input starts, in a widget of a height.
pub open spec fn input_top(height: int) -> int {
    less(height, INPUT_BOTTOM_PAD as int)
}

/// The height of the chat above the input.
pub open spec fn chat_room(height: int) -> int {
    less(input_top(height), 14)
}

/// The height of laid out messages.
pub open spec fn content(layouts: Seq<LayoutView>) -> int {
    if layouts.len() == 0 {
        0
    } else {
        layouts.last().y + layouts.last().h
    }
}

/// How far the chat can be scrolled.
pub open spec fn scroll_limit(layouts: Seq<LayoutView>, height: int) -> int {
    less(content(layouts), chat_room(height))
}

/// Every message ends where the content does, or before.
pub proof fn lemma_content_is_last(font: &BitmapFont, left: int, messages: Seq<MessageView>, i: int)
    requires
        0 <= i < messages.len(),
    ensures
        stacked(font, left, messages)[i].y + stacked(font, left, messages)[i].h <= content(
            stacked(font, left, messages),
        ),
{
    lemma_stacked_height(font, left, messages);
    if i < messages.len() - 1 {
        lemma_messages_do_not_overlap(font, left, messages, i, messages.len() - 1);
    }
}

/// Whether there are as many fwends as there is room for, each with an icon.
pub open spec fn known(models: Seq<Model>) -> bool {
    &&& models.len() == MODEL_COUNT
    &&& forall|i: int| 0 <= i < models.len() ==> (#[trigger] models[i]).icon_index <= span()
}

/// The chat with the fwends.
pub struct Fwends {
    pub art: FwendsArt,
    pub font: BitmapFont,
    pub messages: Vec<Message>,
    pub input: TextField,
    pub selected_model: usize,
    pub lamp_on: bool,
    pub focused: bool,
    pub height: usize,
    pub scroll_y: usize,
    /// The fwend that is thinking of a reply.
    pub awaiting: Option<String>,
    pub layouts: Vec<MessageLayout>,
    /// What every fwend is told first.
    pub system_prompt: String,
    pub user_name: String,
    pub models: Vec<Model>,
}

/// What a fwend shows while it is thinking.
pub open spec fn thinking_view(author: Seq<char>) -> MessageView {
    MessageView::Assistant { text: "..."@, kind: MessageKind::Normal, author: Some(author) }
}

/// The messages, and the dots of a fwend that is thinking.
pub open spec fn shown_messages(messages: Seq<MessageView>, awaiting: Option<Seq<char>>) -> Seq<
    MessageView,
> {
    match awaiting {
        Some(author) => messages.push(thinking_view(author)),
        None => messages,
    }
}

/// What is asked of a model.
pub struct ChatRequest {
    pub model_id: String,
    pub author: String,
    pub thinking: bool,
    pub system_prompt: String,
    pub history: Vec<Message>,
    pub latest_text: String,
}

/// What the machine has to do after an event.
pub enum FwendsAction {
    Nothing,
    /// Ask a model.
    Ask(ChatRequest),
    /// Give up on a reply.
    Cancel,
    /// Put a text on the clipboard.
    Copy(String),
}

impl Fwends {
    pub open spec fn said(&self) -> Seq<MessageView> {
        message_views(self.messages@)
    }

    pub open spec fn shown(&self) -> Seq<MessageView> {
        shown_messages(self.said(), text_view(self.awaiting))
    }

    /// The messages as they are laid out.
    pub open spec fn placed(&self) -> Seq<LayoutView> {
        stacked(&self.font, self.art.left(), self.shown())
    }

    /// All but the layouts and the place they are scrolled to.
    pub open spec fn base_wf(&self) -> bool {
        &&& self.art.wf()
        &&& self.font.wf()
        &&& known(self.models@)
        &&& self.selected_model < MODEL_COUNT
        &&& H <= self.height <= isize::MAX / 128
        &&& bulk(self.said()) <= room()
        &&& self.input@.max_chars == MAX_INPUT_CHARS
        &&& within(self.input@.edit, self.input@.text, MAX_INPUT_CHARS as nat)
    }

    /// The layouts are those of the messages, and the chat is scrolled no
    /// farther than they reach.
    pub open spec fn wf(&self) -> bool {
        &&& self.base_wf()
        &&& layout_views(self.layouts@) == self.placed()
        &&& self.scroll_y <= self.max_scrolled()
    }

    pub open spec fn max_scrolled(&self) -> int {
        scroll_limit(self.placed(), self.height as int)
    }

    /// What never changes.
    pub open spec fn same_setting(&self, other: &Fwends) -> bool {
        &&& self.art == other.art
        &&& self.font == other.font
        &&& self.system_prompt == other.system_prompt
        &&& self.user_name == other.user_name
        &&& self.models == other.models
    }

    /// Everything but the conversation and its layout.
    pub open spec fn same_but_chat(&self, other: &Fwends) -> bool {
        &&& self.same_setting(other)
        &&& self.input == other.input
        &&& self.selected_model == other.selected_model
        &&& self.lamp_on == other.lamp_on
        &&& self.focused == other.focused
        &&& self.height == other.height
    }

    /// Everything but where the chat is scrolled to.
    pub open spec fn same_but_scroll(&self, other: &Fwends) -> bool {
        &&& self.same_but_chat(other)
        &&& self.messages == other.messages
        &&& self.awaiting == other.awaiting
        &&& self.layouts == other.layouts
    }

    pub proof fn lemma_bounds(&self)
        requires
            self.base_wf(),
        ensures
            self.art.left() <= 2 * span() + 1,
            bulk(self.shown()) <= room() + 0x1000,
            0 <= content(self.placed()) <= room() + 0x1000,
            self.max_scrolled() <= room() + 0x1000,
    {
        lemma_stacked_height(&self.font, self.art.left(), self.shown());
        reveal_strlit("...");
        if self.awaiting is Some {
            assert(self.shown().drop_last() =~= self.said());
        }
    }

    /// Where the fwends' bubbles and the note that is written on start.
    pub fn bubble_left(&self) -> (r: usize)
        requires
            self.base_wf(),
        ensures
            r == self.art.left(),
    {
        108 + self.art.slot_w
    }

    pub fn input_y(&self) -> (r: usize)
        ensures
            r == input_top(self.height as int),
    {
        minus(self.height, INPUT_BOTTOM_PAD)
    }

    pub fn chat_h(&self) -> (r: usize)
        ensures
            r == chat_room(self.height as int),
    {
        minus(self.input_y(), 14)
    }

    /// The height of all messages.
    pub fn content_height(&self) -> (r: usize)
        requires
            content(layout_views(self.layouts@)) <= usize::MAX,
        ensures
            r == content(layout_views(self.layouts@)),
    {
        assert(layout_views(self.layouts@).len() == self.layouts@.len());
        let n: usize = self.layouts.len();
        if n == 0 {
            0
        } else {
            assert(layout_views(self.layouts@).last() == self.layouts@[n - 1]@);
            self.layouts[n - 1].y + self.layouts[n - 1].h
        }
    }

    fn max_scroll(&self) -> (r: usize)
        requires
            self.base_wf(),
            content(layout_views(self.layouts@)) <= usize::MAX,
        ensures
            r == scroll_limit(layout_views(self.layouts@), self.height as int),
    {
        minus(self.content_height(), self.chat_h())
    }

    /// The messages laid out, with the dots of a fwend that is thinking.
    pub fn message_layouts(&self) -> (r: Vec<MessageLayout>)
        requires
            self.base_wf(),
        ensures
            layout_views(r@) == self.placed(),
    {
        proof {
            self.lemma_bounds();
        }
        let left: usize = self.bubble_left();
        let mut out = stack_messages(&self.font, left, &self.messages);
        if let Some(author) = &self.awaiting {
            let ghost before = layout_views(out@);
            assert(before.len() == out@.len());
            let n: usize = out.len();
            proof {
                lemma_stacked_height(&self.font, left as int, self.said());
                reveal_strlit("...");
                if n > 0 {
                    assert(before.last() == out@[n - 1]@);
                }
            }
            let y: usize = if n == 0 {
                0
            } else {
                out[n - 1].y + out[n - 1].h + BUBBLE_GAP
            };
            let dots = Message::assistant_with_author("...".to_owned(), author.as_str());
            let layout = compute_message_layout(&self.font, left, &dots, y);
            out.push(layout);
            assert(layout_views(out@) =~= before.push(layout@));
            assert(self.shown().drop_last() =~= self.said());
            assert(self.shown().last() == dots@);
        }
        out
    }

    /// Where the chat is scrolled to after its content changed: to the bottom
    /// if it was there, else as far as it was, as long as there is so much.
    pub open spec fn followed(was_at_bottom: bool, scroll_y: int, limit: int) -> int {
        if was_at_bottom || scroll_y > limit {
            limit
        } else {
            scroll_y
        }
    }

    /// A reader at the bottom stays at the bottom; one who reads further up keeps
    /// their place wherever the new content still has it.
    pub proof fn lemma_reader_keeps_place(scroll_y: int, before: int, after: int)
        ensures
            scroll_y >= before ==> Self::followed(scroll_y >= before, scroll_y, after) == after,
            scroll_y < before && scroll_y <= after ==> Self::followed(
                scroll_y >= before,
                scroll_y,
                after,
            ) == scroll_y,
            Self::followed(scroll_y >= before, scroll_y, after) <= after,
    {
    }

    /// Lays the messages out again. Follows them only where the chat showed its
    /// end before; a reader further up keeps their place.
    pub fn messages_changed(&mut self)
        requires
            old(self).base_wf(),
            content(layout_views(old(self).layouts@)) <= usize::MAX,
        ensures
            final(self).wf(),
            final(self).same_but_chat(old(self)),
            final(self).messages == old(self).messages,
            final(self).awaiting == old(self).awaiting,
            final(self).scroll_y == Self::followed(
                old(self).scroll_y >= scroll_limit(
                    layout_views(old(self).layouts@),
                    old(self).height as int,
                ),
                old(self).scroll_y as int,
                final(self).max_scrolled(),
            ),
    {
        let was_at_bottom = self.scroll_y >= self.max_scroll();
        self.layouts = self.message_layouts();
        proof {
            self.lemma_bounds();
        }
        let limit: usize = self.max_scroll();
        if was_at_bottom || self.scroll_y > limit {
            self.scroll_y = limit;
        }
    }

    /// The chat as it starts.
    pub open spec fn starts(
        art: FwendsArt,
        font: BitmapFont,
        system_prompt: String,
        user_name: String,
        models: Vec<Model>,
        r: Self,
    ) -> bool {
        &&& r.art == art
        &&& r.font == font
        &&& r.system_prompt == system_prompt
        &&& r.user_name == user_name
        &&& r.models == models
        &&& r.said() == seq![intro_view()]
        &&& r.input@.text.len() == 0
        &&& r.input@.edit == (EditView {
            cursor: 0,
            anchor: None,
            undo: Seq::empty(),
            drag: None,
        })
        &&& r.input@.max_chars == MAX_INPUT_CHARS
        &&& r.input@.max_lines == INPUT_MAX_LINES
        &&& r.selected_model == 0
        &&& !r.lamp_on
        &&& !r.focused
        &&& r.height == H
        &&& r.awaiting is None
        &&& r.scroll_y == r.max_scrolled()
    }

    /// The chat as it starts: with an invitation, and nobody thinking.
    pub fn load(
        art: FwendsArt,
        font: BitmapFont,
        system_prompt: String,
        user_name: String,
        models: Vec<Model>,
    ) -> (r: Self)
        requires
            known(models@),
            art.wf(),
            font.wf(),
        ensures
            r.wf(),
            Self::starts(art, font, system_prompt, user_name, models, r),
    {
        let mut messages: Vec<Message> = Vec::new();
        messages.push(intro_message());
        let mut r = Fwends {
            art,
            font,
            messages,
            input: TextField::new(MAX_INPUT_CHARS, INPUT_MAX_LINES),
            selected_model: 0,
            lamp_on: false,
            focused: false,
            height: H,
            scroll_y: 0,
            awaiting: None,
            layouts: Vec::new(),
            system_prompt,
            user_name,
            models,
        };
        proof {
            reveal_strlit("pick a fwend and say hi");
            assert(r.said() =~= seq![intro_view()]);
            assert(r.said().drop_last() =~= Seq::empty());
            reveal_with_fuel(bulk, 2);
        }
        r.messages_changed();
        r
    }

    /// What another height leads to.
    pub open spec fn height_leads_to(&self, height: usize, after: &Self, r: bool) -> bool {
        let wanted = if height < H {
            H
        } else {
            height
        };
        &&& r == (self.height != wanted)
        &&& after.height == wanted
        &&& after.same_setting(self)
        &&& after.input == self.input
        &&& after.selected_model == self.selected_model
        &&& after.lamp_on == self.lamp_on
        &&& after.focused == self.focused
        &&& after.messages == self.messages
        &&& after.awaiting == self.awaiting
        &&& after.scroll_y == (if r {
            Self::followed(
                self.scroll_y >= self.max_scrolled(),
                self.scroll_y as int,
                after.max_scrolled(),
            )
        } else {
            self.scroll_y as int
        })
    }

    /// Fits the chat to a height; says whether that changed anything. Who
    /// reads farther up stays there.
    pub fn set_height(&mut self, height: usize) -> (r: bool)
        requires
            old(self).wf(),
            height <= isize::MAX / 128,
        ensures
            final(self).wf(),
            old(self).height_leads_to(height, final(self), r),
    {
        let wanted: usize = if height < H {
            H
        } else {
            height
        };
        if self.height == wanted {
            return false;
        }
        proof {
            self.lemma_bounds();
        }
        let was_at_bottom = self.scroll_y >= self.max_scroll();
        self.height = wanted;
        let limit: usize = self.max_scroll();
        if was_at_bottom || self.scroll_y > limit {
            self.scroll_y = limit;
        }
        true
    }

    pub open spec fn in_chat(&self, x: int, y: int) -> bool {
        PAD <= x < CONTENT_W - PAD && CHAT_Y <= y < CHAT_Y + chat_room(self.height as int)
    }

    pub fn chat_contains(&self, x: isize, y: isize) -> (r: bool)
        requires
            self.height <= isize::MAX / 128,
        ensures
            r == self.in_chat(x as int, y as int),
    {
        let bottom: isize = (CHAT_Y + self.chat_h()) as isize;
        x >= PAD as isize && x < (CONTENT_W - PAD) as isize && y >= CHAT_Y as isize && y < bottom
    }

    /// What a turn of the wheel over the chat leads to.
    pub open spec fn scroll_leads_to(
        &self,
        x: isize,
        y: isize,
        up: bool,
        after: &Self,
        r: bool,
    ) -> bool {
        &&& after.same_but_scroll(self)
        &&& after.scroll_y == (if !self.in_chat(x as int, y as int) {
            self.scroll_y as int
        } else if up {
            less(self.scroll_y as int, SCROLL_STEP as int)
        } else {
            Self::followed(
                false,
                self.scroll_y + SCROLL_STEP,
                self.max_scrolled(),
            )
        })
        &&& r == (after.scroll_y != self.scroll_y)
    }

    /// Scrolls the chat, if the pointer is over it; says whether it moved.
    pub fn scroll(&mut self, x: isize, y: isize, up: bool) -> (r: bool)
        requires
            old(self).wf(),
        ensures
            final(self).wf(),
            old(self).scroll_leads_to(x, y, up, final(self), r),
    {
        if !self.chat_contains(x, y) {
            return false;
        }
        proof {
            self.lemma_bounds();
        }
        let limit: usize = self.max_scroll();
        let new_scroll_y: usize = if up {
            minus(self.scroll_y, SCROLL_STEP)
        } else if self.scroll_y + SCROLL_STEP > limit {
            limit
        } else {
            self.scroll_y + SCROLL_STEP
        };
        let changed = new_scroll_y != self.scroll_y;
        self.scroll_y = new_scroll_y;
        changed
    }

    /// What a reply that has come leads to.
    pub open spec fn reply_leads_to(
        &self,
        reply: Result<String, String>,
        after: &Self,
        r: bool,
    ) -> bool {
        &&& after.same_but_chat(self)
        &&& match self.awaiting {
            None => *after == *self && !r,
            Some(author) => {
                &&& r
                &&& after.awaiting is None
                &&& after.said() == self.said().push(
                    MessageView::Assistant {
                        text: reply_text(reply, author@),
                        kind: MessageKind::Normal,
                        author: Some(author@),
                    },
                )
                &&& after.scroll_y == Self::followed(
                    self.scroll_y >= self.max_scrolled(),
                    self.scroll_y as int,
                    after.max_scrolled(),
                )
            },
        }
    }

    /// Takes in a reply: its text without the fwend's own name, or what went
    /// wrong. Nothing when no reply is awaited.
    pub fn drain_reply(&mut self, reply: Result<String, String>) -> (r: bool)
        requires
            old(self).wf(),
            match reply {
                Ok(text) => bulk(old(self).said()) + 16 * text@.len() + 80 <= room(),
                Err(text) => bulk(old(self).said()) + 16 * (text@.len() + 6) + 80 <= room(),
            },
        ensures
            final(self).wf(),
            old(self).reply_leads_to(reply, final(self), r),
    {
        if self.awaiting.is_none() {
            return false;
        }
        proof {
            self.lemma_bounds();
        }
        let ghost said = self.said();
        if let Some(author) = self.awaiting.take() {
            let text = match &reply {
                Ok(text) => strip_self_prefix(text.as_str(), author.as_str()),
                Err(error) => {
                    let mut out: Vec<char> = Vec::new();
                    append_str(&mut out, "oops: ");
                    append_str(&mut out, error.as_str());
                    assert(out@ =~= "oops: "@ + error@);
                    from_chars(&out)
                },
            };
            proof {
                reveal_strlit("oops: ");
                if let Ok(given) = reply {
                    lemma_unlabelled_shrinks(given@, author@);
                }
            }
            let message = Message::assistant_with_author(text, author.as_str());
            self.messages.push(message);
            assert(self.said() =~= said.push(message@));
            assert(self.said().drop_last() =~= said);
        }
        self.messages_changed();
        true
    }

    /// Forgets the conversation; says whether a reply is to be given up on.
    fn erase_chat_history(&mut self) -> (r: bool)
        requires
            old(self).wf(),
        ensures
            final(self).wf(),
            final(self).same_but_chat(old(self)),
            final(self).said() == seq![intro_view()],
            final(self).awaiting is None,
            final(self).scroll_y == Self::followed(
                old(self).scroll_y >= scroll_limit(
                    stacked(&old(self).font, old(self).art.left(), old(self).shown()),
                    old(self).height as int,
                ),
                old(self).scroll_y as int,
                final(self).max_scrolled(),
            ),
            r == old(self).awaiting is Some,
    {
        proof {
            self.lemma_bounds();
        }
        let awaited = self.awaiting.is_some();
        self.awaiting = None;
        let mut messages: Vec<Message> = Vec::new();
        messages.push(intro_message());
        self.messages = messages;
        proof {
            reveal_strlit("pick a fwend and say hi");
            assert(self.said() =~= seq![intro_view()]);
            assert(self.said().drop_last() =~= Seq::empty());
            reveal_with_fuel(bulk, 2);
        }
        self.messages_changed();
        awaited
    }
}

/// The text that a reply is shown with.
pub open spec fn reply_text(reply: Result<String, String>, author: Seq<char>) -> Seq<char> {
    match reply {
        Ok(text) => unlabelled(text@, author),
        Err(error) => "oops: "@ + error@,
    }
}

proof fn lemma_trim_start_shrinks(s: Seq<char>)
    ensures
        crate::chars::trim_start(s).len() <= s.len(),
    decreases s.len(),
{
    if s.len() > 0 {
        lemma_trim_start_shrinks(s.drop_first());
        assert(s.drop_first() =~= s.skip(1));
        assert(s.subrange(1, s.len() as int) =~= s.skip(1));
    }
}

proof fn lemma_unlabelled_shrinks(text: Seq<char>, name: Seq<char>)
    ensures
        unlabelled(text, name).len() <= text.len(),
{
    let trimmed = crate::chars::trim_start(text);
    lemma_trim_start_shrinks(text);
    if crate::chars::starts_with(trimmed, name) {
        let tail = trimmed.skip(name.len() as int);
        lemma_trim_start_shrinks(tail);
        let rest = crate::chars::trim_start(tail);
        if rest.len() > 0 {
            lemma_trim_start_shrinks(rest.skip(1));
        }
    }
}

/// Whether a point is on a visible pixel of a picture at a place.
pub open spec fn on_picture(sprite: Sprite, left: int, top: int, x: int, y: int) -> bool {
    &&& left <= x < left + sprite.width
    &&& top <= y < top + sprite.height
    &&& sprite.index_at(x - left, y - top) != TRANSPARENT
}

fn picture_contains(sprite: &Sprite, left: usize, top: usize, x: isize, y: isize) -> (r: bool)
    requires
        handy(*sprite),
        left <= isize::MAX / 128,
        top <= isize::MAX / 128,
    ensures
        r == on_picture(*sprite, left as int, top as int, x as int, y as int),
{
    let (left, top): (isize, isize) = (left as isize, top as isize);
    if x < left || y < top || x >= left + sprite.width as isize || y >= top
        + sprite.height as isize {
        return false;
    }
    proof {
        lemma_place(
            sprite.width as int,
            sprite.height as int,
            (x - left) as int,
            (y - top) as int,
        );
    }
    sprite.is_opaque((x - left) as usize, (y - top) as usize)
}

/// The rest of a conversation once the invitation is dropped, never bulkier.
proof fn lemma_normal_bulk(messages: Seq<MessageView>)
    ensures
        0 <= bulk(normal(messages)) <= bulk(messages),
    decreases messages.len(),
{
    if messages.len() > 0 {
        lemma_normal_bulk(messages.drop_last());
        let before = normal(messages.drop_last());
        assert(before.push(messages.last()).drop_last() =~= before);
    }
}

fn normal_messages(messages: &Vec<Message>) -> (r: Vec<Message>)
    ensures
        message_views(r@) == normal(message_views(messages@)),
{
    let ghost all = message_views(messages@);
    let mut out: Vec<Message> = Vec::new();
    let mut i: usize = 0;
    assert(message_views(out@) =~= normal(all.take(0)));
    while i < messages.len()
        invariant
            i <= messages@.len(),
            all == message_views(messages@),
            message_views(out@) =~= normal(all.take(i as int)),
        decreases messages@.len() - i,
    {
        let ghost before = out@;
        proof {
            assert(all.take(i + 1).drop_last() =~= all.take(i as int));
            assert(all.take(i + 1).last() == messages@[i as int]@);
        }
        match messages[i].kind() {
            MessageKind::Normal => {
                out.push(messages[i].copy());
                assert(message_views(out@) =~= message_views(before).push(messages@[i as int]@));
            },
            MessageKind::Intro => {},
        }
        i += 1;
    }
    assert(all.take(all.len() as int) =~= all);
    out
}

/// What is asked of a model, as far as it can be told from outside.
#[verifier::ext_equal]
pub struct RequestView {
    pub model_id: Seq<char>,
    pub author: Seq<char>,
    pub thinking: bool,
    pub system_prompt: Seq<char>,
    pub history: Seq<MessageView>,
    pub latest_text: Seq<char>,
}

impl View for ChatRequest {
    type V = RequestView;

    open spec fn view(&self) -> RequestView {
        RequestView {
            model_id: self.model_id@,
            author: self.author@,
            thinking: self.thinking,
            system_prompt: self.system_prompt@,
            history: message_views(self.history@),
            latest_text: self.latest_text@,
        }
    }
}

pub enum ActionView {
    Nothing,
    Ask(RequestView),
    Cancel,
    Copy(Seq<char>),
}

impl View for FwendsAction {
    type V = ActionView;

    open spec fn view(&self) -> ActionView {
        match *self {
            FwendsAction::Nothing => ActionView::Nothing,
            FwendsAction::Ask(request) => ActionView::Ask(request@),
            FwendsAction::Cancel => ActionView::Cancel,
            FwendsAction::Copy(text) => ActionView::Copy(text@),
        }
    }
}

pub open spec fn next_model(selected: int) -> int {
    if selected + 1 < MODEL_COUNT {
        selected + 1
    } else {
        0
    }
}

pub open spec fn prev_model(selected: int) -> int {
    if selected > 0 {
        selected - 1
    } else {
        MODEL_COUNT - 1
    }
}

/// A field without text, undo or selection.
pub open spec fn emptied(field: FieldView) -> FieldView {
    FieldView {
        text: Seq::empty(),
        edit: EditView { undo: Seq::empty(), ..cursor_at(field.edit, 0, 0) },
        ..field
    }
}

impl Fwends {
    pub open spec fn lamp_image(&self) -> Sprite {
        if self.lamp_on {
            self.art.lamp_on
        } else {
            self.art.lamp_off
        }
    }

    pub open spec fn lamp_place(&self) -> (int, int) {
        (
            less(CONTENT_W as int, self.lamp_image().width + 140),
            less(self.height as int, self.lamp_image().height + 60),
        )
    }

    pub open spec fn eraser_place(&self) -> (int, int) {
        (
            less(W as int, self.art.eraser.width as int),
            less(self.height as int, self.art.eraser.height as int),
        )
    }

    pub open spec fn on_eraser(&self, x: int, y: int) -> bool {
        on_picture(self.art.eraser, self.eraser_place().0, self.eraser_place().1, x, y)
    }

    /// The lamp stands behind the input.
    pub open spec fn on_lamp(&self, x: int, y: int) -> bool {
        y < input_top(self.height as int) && on_picture(
            self.lamp_image(),
            self.lamp_place().0,
            self.lamp_place().1,
            x,
            y,
        )
    }

    pub open spec fn on_fwend(&self, x: int, y: int) -> bool {
        &&& 104 <= x < 104 + self.art.slot_w
        &&& input_top(self.height as int) + 10 <= y < input_top(self.height as int) + 10
            + self.art.slot_h
    }

    /// The input can be written on while nobody is thinking.
    pub open spec fn on_input(&self, x: int, y: int) -> bool {
        &&& self.awaiting is None
        &&& self.art.left() <= x < self.art.left() + self.art.sticky_w + 40
        &&& input_top(self.height as int) <= y < input_top(self.height as int) + self.art.sticky_h
            + 4
    }

    pub fn eraser_position(&self) -> (r: (usize, usize))
        requires
            self.base_wf(),
        ensures
            (r.0 as int, r.1 as int) == self.eraser_place(),
    {
        (minus(W, self.art.eraser.width), minus(self.height, self.art.eraser.height))
    }

    fn eraser_contains(&self, x: isize, y: isize) -> (r: bool)
        requires
            self.base_wf(),
        ensures
            r == self.on_eraser(x as int, y as int),
    {
        let (left, top) = self.eraser_position();
        picture_contains(&self.art.eraser, left, top, x, y)
    }

    pub fn shown_lamp(&self) -> (r: &Sprite)
        ensures
            *r == self.lamp_image(),
    {
        if self.lamp_on {
            &self.art.lamp_on
        } else {
            &self.art.lamp_off
        }
    }

    pub fn lamp_position(&self) -> (r: (usize, usize))
        requires
            self.base_wf(),
        ensures
            (r.0 as int, r.1 as int) == self.lamp_place(),
    {
        let image = self.shown_lamp();
        (minus(CONTENT_W, image.width + 140), minus(self.height, image.height + 60))
    }

    fn lamp_contains(&self, x: isize, y: isize) -> (r: bool)
        requires
            self.base_wf(),
        ensures
            r == self.on_lamp(x as int, y as int),
    {
        let (left, top) = self.lamp_position();
        y < self.input_y() as isize && picture_contains(self.shown_lamp(), left, top, x, y)
    }

    fn fwend_contains(&self, x: isize, y: isize) -> (r: bool)
        requires
            self.base_wf(),
        ensures
            r == self.on_fwend(x as int, y as int),
    {
        let top: isize = self.input_y() as isize + 10;
        x >= 104 && x < 104 + self.art.slot_w as isize && y >= top && y < top
            + self.art.slot_h as isize
    }

    fn input_contains(&self, x: isize, y: isize) -> (r: bool)
        requires
            self.base_wf(),
        ensures
            r == self.on_input(x as int, y as int),
    {
        let left: isize = self.bubble_left() as isize;
        let top: isize = self.input_y() as isize;
        self.awaiting.is_none() && x >= left && x < left + (self.art.sticky_w + 40) as isize && y
            >= top && y < top + (self.art.sticky_h + 4) as isize
    }

    /// The width of a line of the input.
    pub open spec fn text_width(&self) -> int {
        self.art.sticky_w + 40 - 25
    }

    /// Where the text of the input starts, and how wide it may be: within the
    /// edges of the sticky note.
    pub fn input_text_area(&self) -> (r: (usize, usize, usize))
        requires
            self.base_wf(),
        ensures
            r.0 == self.art.left() + 7,
            r.1 == input_top(self.height as int) + 11,
            r.2 == self.text_width(),
    {
        (self.bubble_left() + 7, self.input_y() + 11, self.art.sticky_w + 15)
    }

    /// The shape of the pointer over the chat.
    pub open spec fn points_at(&self, x: isize, y: isize, r: Option<CursorKind>) -> bool {
        r == (if x < 0 || y < 0 {
            None
        } else if self.on_eraser(x as int, y as int) || self.on_lamp(x as int, y as int)
            || self.on_fwend(x as int, y as int) {
            Some(CursorKind::Hand)
        } else if self.on_input(x as int, y as int) {
            Some(CursorKind::Text)
        } else {
            None::<CursorKind>
        })
    }

    /// What the pointer shows at a place.
    pub fn hit_test(&self, x: isize, y: isize) -> (r: Option<CursorKind>)
        requires
            self.base_wf(),
        ensures
            self.points_at(x, y, r),
    {
        if x < 0 || y < 0 {
            return None;
        }
        if self.eraser_contains(x, y) || self.lamp_contains(x, y) || self.fwend_contains(x, y) {
            return Some(CursorKind::Hand);
        }
        if self.input_contains(x, y) {
            return Some(CursorKind::Text);
        }
        None
    }

    /// The field once a press has ended a drag.
    pub open spec fn released(field: FieldView) -> FieldView {
        FieldView { edit: EditView { drag: None, ..field.edit }, ..field }
    }

    /// The conversation is as it was.
    pub open spec fn same_chat(&self, other: &Fwends) -> bool {
        &&& self.same_setting(other)
        &&& self.height == other.height
        &&& self.messages == other.messages
        &&& self.awaiting == other.awaiting
        &&& self.layouts == other.layouts
        &&& self.scroll_y == other.scroll_y
    }

    /// What a press at a place of the chat leads to.
    pub open spec fn click_leads_to(
        &self,
        x: isize,
        y: isize,
        index: usize,
        after: &Self,
        r: FwendsAction,
    ) -> bool {
        &&& after.same_setting(self)
        &&& after.height == self.height
        &&& ({
            let free = x >= 0 && y >= 0;
            let (px, py) = (x as int, y as int);
            let erases = free && self.on_eraser(px, py);
            let switches = free && !erases && self.on_lamp(px, py);
            let turns = free && !erases && !switches && self.on_fwend(px, py);
            let writes = free && !erases && !switches && !turns && self.on_input(px, py);
            &&& after.lamp_on == (self.lamp_on != switches)
            &&& after.selected_model == (if turns {
                next_model(self.selected_model as int)
            } else {
                self.selected_model as int
            })
            &&& after.focused == writes
            &&& after.input@ == (if writes {
                let at = clip(index as nat, self.input@.text.len());
                FieldView {
                    edit: EditView {
                        cursor: at,
                        anchor: None,
                        drag: Some(at),
                        ..self.input@.edit
                    },
                    ..self.input@
                }
            } else {
                Self::released(self.input@)
            })
            &&& r@ == (if erases && self.awaiting is Some {
                ActionView::Cancel
            } else {
                ActionView::Nothing
            })
            &&& if erases {
                &&& after.said() == seq![intro_view()]
                &&& after.awaiting is None
                &&& after.scroll_y == Self::followed(
                    self.scroll_y >= self.max_scrolled(),
                    self.scroll_y as int,
                    after.max_scrolled(),
                )
            } else {
                after.same_chat(self)
            }
        })
    }

    /// A press: it erases the conversation, switches the lamp, turns to the
    /// next fwend, or starts to write at `index`, the character under the
    /// pointer.
    pub fn click(&mut self, x: isize, y: isize, index: usize) -> (r: FwendsAction)
        requires
            old(self).wf(),
        ensures
            final(self).wf(),
            old(self).click_leads_to(x, y, index, final(self), r),
    {
        self.focused = false;
        self.input.end_drag();
        if x < 0 || y < 0 {
            return FwendsAction::Nothing;
        }
        if self.eraser_contains(x, y) {
            let awaited = self.erase_chat_history();
            return if awaited {
                FwendsAction::Cancel
            } else {
                FwendsAction::Nothing
            };
        }
        if self.lamp_contains(x, y) {
            self.lamp_on = !self.lamp_on;
            return FwendsAction::Nothing;
        }
        if self.fwend_contains(x, y) {
            self.select_next_model();
            return FwendsAction::Nothing;
        }
        if self.input_contains(x, y) {
            self.focused = true;
            self.input.begin_drag(index);
        }
        FwendsAction::Nothing
    }

    /// What losing the keyboard leads to.
    pub open spec fn blur_leads_to(&self, after: &Self) -> bool {
        &&& after.same_chat(self)
        &&& after.lamp_on == self.lamp_on
        &&& after.selected_model == self.selected_model
        &&& !after.focused
        &&& after.input@ == Self::released(self.input@)
    }

    /// Takes the keyboard away.
    pub fn blur(&mut self)
        requires
            old(self).wf(),
        ensures
            final(self).wf(),
            old(self).blur_leads_to(final(self)),
    {
        self.focused = false;
        self.input.end_drag();
    }

    pub fn text_dragging(&self) -> (r: bool)
        ensures
            r == (self.input@.edit.drag is Some),
    {
        self.input.is_dragging()
    }

    /// How selecting in the note goes on.
    pub open spec fn drag_goes_on(&self, index: usize, after: &Self, r: bool) -> bool {
        &&& after.same_chat(self)
        &&& after.lamp_on == self.lamp_on
        &&& after.selected_model == self.selected_model
        &&& after.focused == self.focused
        &&& match self.input@.edit.drag {
            None => !r && after.input@ == self.input@,
            Some(start) => {
                let at = clip(index as nat, self.input@.text.len());
                &&& after.input@ == (FieldView {
                    edit: EditView {
                        cursor: at,
                        anchor: if start != at {
                            Some(start)
                        } else {
                            None
                        },
                        ..self.input@.edit
                    },
                    ..self.input@
                })
                &&& r == (self.input@.edit.cursor != after.input@.edit.cursor
                    || self.input@.edit.anchor != after.input@.edit.anchor)
            },
        }
    }

    /// Extends a mouse selection to the character under the pointer; says
    /// whether anything changed.
    pub fn drag_text(&mut self, index: usize) -> (r: bool)
        requires
            old(self).wf(),
        ensures
            final(self).wf(),
            old(self).drag_goes_on(index, final(self), r),
    {
        self.input.drag_to(index)
    }

    pub fn end_text_drag(&mut self)
        requires
            old(self).wf(),
        ensures
            final(self).wf(),
            final(self).same_chat(old(self)),
            final(self).lamp_on == old(self).lamp_on,
            final(self).selected_model == old(self).selected_model,
            final(self).focused == old(self).focused,
            final(self).input@ == Self::released(old(self).input@),
    {
        self.input.end_drag();
    }

    /// What the end of the program leads to.
    pub open spec fn shutdown_leads_to(&self, after: &Self, r: FwendsAction) -> bool {
        &&& after.base_wf()
        &&& after.awaiting is None
        &&& after.same_but_chat(self)
        &&& after.messages == self.messages
        &&& after.layouts == self.layouts
        &&& after.scroll_y == self.scroll_y
        &&& r@ == (if self.awaiting is Some {
            ActionView::Cancel
        } else {
            ActionView::Nothing
        })
    }

    /// Gives up on a reply when the program ends.
    pub fn shutdown(&mut self) -> (r: FwendsAction)
        requires
            old(self).wf(),
        ensures
            old(self).shutdown_leads_to(final(self), r),
    {
        let awaited = self.awaiting.is_some();
        self.awaiting = None;
        if awaited {
            FwendsAction::Cancel
        } else {
            FwendsAction::Nothing
        }
    }

    fn select_next_model(&mut self)
        requires
            old(self).selected_model < MODEL_COUNT,
        ensures
            final(self).selected_model == next_model(old(self).selected_model as int),
            *final(self) == (Fwends { selected_model: final(self).selected_model, ..*old(self) }),
    {
        self.selected_model = if self.selected_model + 1 < MODEL_COUNT {
            self.selected_model + 1
        } else {
            0
        };
    }

    fn select_prev_model(&mut self)
        requires
            old(self).selected_model < MODEL_COUNT,
        ensures
            final(self).selected_model == prev_model(old(self).selected_model as int),
            *final(self) == (Fwends { selected_model: final(self).selected_model, ..*old(self) }),
    {
        self.selected_model = if self.selected_model > 0 {
            self.selected_model - 1
        } else {
            MODEL_COUNT - 1
        };
    }

    /// What a fwend is asked with the text that was written.
    pub open spec fn question(&self, text: Seq<char>) -> RequestView {
        let fwend = self.models@[self.selected_model as int]@;
        let name = fwend.name;
        RequestView {
            model_id: if self.lamp_on {
                fwend.thinking_id
            } else {
                fwend.id
            },
            author: name,
            thinking: self.lamp_on,
            system_prompt: replaced_all(self.system_prompt@, "[[FREND_NAME]]"@, name)
                + group_chat_note(name, self.user_name@),
            history: history(normal(self.said()), name, self.user_name@),
            latest_text: self.user_name@ + seq![':', ' '] + text,
        }
    }

    /// What sending does: the text that was written, if there is any and
    /// nobody is thinking, joins the conversation, and the fwend is asked.
    pub open spec fn sends(&self, after: &Fwends, action: ActionView) -> bool {
        let text = trim(self.input@.text);
        if self.awaiting is Some || text.len() == 0 {
            *after == *self && action == ActionView::Nothing
        } else {
            &&& after.same_setting(self)
            &&& after.height == self.height
            &&& after.lamp_on == self.lamp_on
            &&& after.selected_model == self.selected_model
            &&& after.focused == self.focused
            &&& after.input@ == emptied(self.input@)
            &&& after.said() == normal(self.said()).push(MessageView::User { text })
            &&& text_view(after.awaiting) == Some(
                self.models@[self.selected_model as int].name@,
            )
            &&& after.scroll_y == after.max_scrolled()
            &&& action == ActionView::Ask(self.question(text))
        }
    }

    fn send(&mut self) -> (r: FwendsAction)
        requires
            old(self).wf(),
            bulk(old(self).said()) <= room() - 0x1_0000,
        ensures
            final(self).wf(),
            old(self).sends(final(self), r@),
    {
        if self.awaiting.is_some() {
            return FwendsAction::Nothing;
        }
        proof {
            self.lemma_bounds();
        }
        let chars = to_chars(self.input.text());
        let trimmed = trim_chars(&chars);
        if trimmed.len() == 0 {
            return FwendsAction::Nothing;
        }
        let ghost before = *self;
        let ghost said = self.said();
        let text = from_chars(trimmed);
        proof {
            lemma_trim_shrinks(self.input@.text);
            lemma_normal_bulk(said);
        }
        self.input.clear();
        let mut messages = normal_messages(&self.messages);
        let fwend = &self.models[self.selected_model];
        let name = fwend.name.as_str().to_owned();
        let model_id = if self.lamp_on {
            fwend.thinking_id.as_str().to_owned()
        } else {
            fwend.id.as_str().to_owned()
        };
        let system_prompt = fwend_system_prompt(
            self.system_prompt.as_str(),
            name.as_str(),
            self.user_name.as_str(),
        );
        let history = request_history(&messages, name.as_str(), self.user_name.as_str());
        let mut out: Vec<char> = Vec::new();
        append_str(&mut out, self.user_name.as_str());
        out.push(':');
        out.push(' ');
        append_str(&mut out, text.as_str());
        assert(out@ =~= self.user_name@ + seq![':', ' '] + text@);
        let latest_text = from_chars(&out);
        let ghost kept = message_views(messages@);
        let message = Message::user(text);
        messages.push(message);
        assert(message_views(messages@) =~= kept.push(message@));
        assert(kept.push(message@).drop_last() =~= kept);
        self.messages = messages;
        self.awaiting = Some(name.as_str().to_owned());
        self.messages_changed();
        proof {
            self.lemma_bounds();
        }
        self.scroll_y = self.max_scroll();
        let request = ChatRequest {
            model_id,
            author: name,
            thinking: self.lamp_on,
            system_prompt,
            history,
            latest_text,
        };
        assert(request@ =~= before.question(trim(before.input@.text)));
        FwendsAction::Ask(request)
    }

    /// What a key press leads to.
    pub open spec fn key_leads_to(
        &self,
        key: KeyView,
        clipboard: Option<Seq<char>>,
        after: &Fwends,
        action: ActionView,
    ) -> bool {
        let pressed = edit_key_of(key);
        let editable = self.focused && self.awaiting is None;
        let layout = TextLayout { font: &self.font, width: self.text_width() as usize };
        if pressed is Tab || pressed is Right && !key.shift && !editable {
            *after == (Fwends { selected_model: after.selected_model, ..*self })
                && after.selected_model == next_model(self.selected_model as int) && action
                == ActionView::Nothing
        } else if pressed is Left && !key.shift && !editable {
            *after == (Fwends { selected_model: after.selected_model, ..*self })
                && after.selected_model == prev_model(self.selected_model as int) && action
                == ActionView::Nothing
        } else if editable {
            exists|input: TextField, outcome: OutcomeView|
                {
                    &&& #[trigger] self.edits(layout, key, clipboard, input, outcome)
                    &&& match outcome {
                        OutcomeView::Handled { changed: _, copy } => {
                            &&& *after == (Fwends { input, ..*self })
                            &&& action == (match copy {
                                Some(text) => ActionView::Copy(text),
                                None => ActionView::Nothing,
                            })
                        },
                        OutcomeView::Unhandled => (Fwends { input, ..*self }).acts(
                            pressed,
                            after,
                            action,
                        ),
                    }
                }
        } else {
            self.acts(pressed, after, action)
        }
    }

    /// What the input makes of a key.
    pub open spec fn edits(
        &self,
        layout: TextLayout<'_>,
        key: KeyView,
        clipboard: Option<Seq<char>>,
        input: TextField,
        outcome: OutcomeView,
    ) -> bool {
        &&& key_effect(
            |c: Seq<char>, a: bool| a == self.input@.allows(layout, c),
            key,
            clipboard,
            self.input@.edit,
            self.input@.text,
            input@.edit,
            input@.text,
            outcome,
        )
        &&& input@.max_chars == self.input@.max_chars
        &&& input@.max_lines == self.input@.max_lines
    }

    /// What a key does that the input has no use for.
    pub open spec fn acts(&self, pressed: EditKey, after: &Fwends, action: ActionView) -> bool {
        if pressed is Enter && self.focused {
            self.sends(after, action)
        } else if pressed is Escape {
            *after == (Fwends { focused: false, ..*self }) && action == ActionView::Nothing
        } else {
            *after == *self && action == ActionView::Nothing
        }
    }

    pub fn handle_key_press(&mut self, input: &KeyInput, clipboard_text: Option<&str>) -> (r:
        FwendsAction)
        requires
            old(self).wf(),
            bulk(old(self).said()) <= room() - 0x1_0000,
            clipboard_text matches Some(paste) ==> MAX_INPUT_CHARS + paste@.len() <= usize::MAX,
        ensures
            final(self).wf(),
            old(self).key_leads_to(input@, str_view(clipboard_text), final(self), r@),
    {
        let key = edit_key(input);
        let editable = self.focused && self.awaiting.is_none();
        let (next, prev) = match key {
            EditKey::Tab => (true, false),
            EditKey::Right => (!input.shift() && !editable, false),
            EditKey::Left => (false, !input.shift() && !editable),
            _ => (false, false),
        };
        if next {
            self.select_next_model();
            return FwendsAction::Nothing;
        }
        if prev {
            self.select_prev_model();
            return FwendsAction::Nothing;
        }
        if editable {
            let ghost before = *self;
            let (_, _, width) = self.input_text_area();
            let layout = TextLayout { font: &self.font, width };
            let outcome = self.input.handle_key(input, clipboard_text, &layout);
            proof {
                lemma_keys_keep_within_limit(
                    before.input@,
                    layout,
                    input@,
                    str_view(clipboard_text),
                    self.input@.edit,
                    self.input@.text,
                    outcome@,
                );
                assert(before.edits(
                    TextLayout { font: &before.font, width: before.text_width() as usize },
                    input@,
                    str_view(clipboard_text),
                    self.input,
                    outcome@,
                ));
                assert(*self == Fwends { input: self.input, ..before });
            }
            match outcome {
                TextEditOutcome::Handled { changed: _, copy } => {
                    return match copy {
                        Some(text) => FwendsAction::Copy(text),
                        None => FwendsAction::Nothing,
                    };
                },
                TextEditOutcome::Unhandled => {},
            }
        }
        match key {
            EditKey::Enter => {
                if self.focused {
                    self.send()
                } else {
                    FwendsAction::Nothing
                }
            },
            EditKey::Escape => {
                self.focused = false;
                FwendsAction::Nothing
            },
            _ => FwendsAction::Nothing,
        }
    }
}

proof fn lemma_trim_shrinks(s: Seq<char>)
    ensures
        trim(s).len() <= s.len(),
{
    lemma_trim_start_shrinks(s);
    lemma_trim_end_shrinks(crate::chars::trim_start(s));
}

proof fn lemma_trim_end_shrinks(s: Seq<char>)
    ensures
        crate::chars::trim_end(s).len() <= s.len(),
    decreases s.len(),
{
    if s.len() > 0 {
        lemma_trim_end_shrinks(s.drop_last());
        assert(s.drop_last() =~= s.take(s.len() - 1));
    }
}

/// How messages are set: the user's on a note, the others in bubbles, each with its
/// own margins, caps and least width.
pub proof fn lemma_styles_are()
    ensures
        style(Role::User) == (MessageStyle {
            sticky: true,
            pad_left: 10,
            pad_right: 20,
            pad_top: 24,
            pad_bottom: 20,
            left_cap: 10,
            right_cap: 20,
            top_cap: 20,
            bottom_cap: 20,
            min_w: 141,
        }),
        style(Role::Assistant) == (MessageStyle {
            sticky: false,
            pad_left: 14,
            pad_right: 14,
            pad_top: 8,
            pad_bottom: 11,
            left_cap: 21,
            right_cap: 21,
            top_cap: 17,
            bottom_cap: 17,
            min_w: 38,
        }),
{
}

/// The widest line of a message is as wide as one of them, and none is wider.
pub proof fn lemma_widest_is(font: &BitmapFont, lines: Seq<Seq<char>>)
    ensures
        widest(font, lines) >= 0,
        forall|i: int|
            0 <= i < lines.len() ==> font.width_of(#[trigger] lines[i]) <= widest(font, lines),
        widest(font, lines) == 0 || exists|i: int|
            0 <= i < lines.len() && font.width_of(#[trigger] lines[i]) == widest(font, lines),
    decreases lines.len(),
{
    if lines.len() > 0 {
        let short = lines.drop_last();
        lemma_widest_is(font, short);
        assert forall|i: int| 0 <= i < lines.len() implies font.width_of(#[trigger] lines[i])
            <= widest(font, lines) by {
            if i < short.len() {
                assert(short[i] == lines[i]);
            }
        }
        if widest(font, lines) == widest(font, short) && widest(font, short) != 0 {
            let i = choose|i: int|
                0 <= i < short.len() && font.width_of(#[trigger] short[i]) == widest(font, short);
            assert(lines[i] == short[i]);
        } else if widest(font, lines) != 0 {
            assert(lines[lines.len() - 1] == lines.last());
        }
    }
}

/// A message's box is as wide as its text and margins, between its least width and
/// a hundred and forty-two, and as high as its lines of sixteen rows and its
/// margins, or its caps and one row between them.
pub proof fn lemma_boxes_are(text_w: int, lines: int, role: Role)
    ensures
        ({
            let s = style(role);
            let w = text_w + s.pad_left + s.pad_right;
            &&& s.min_w <= w <= 142 ==> box_width(text_w, s) == w
            &&& w < s.min_w ==> box_width(text_w, s) == s.min_w
            &&& w > 142 ==> box_width(text_w, s) == 142
            &&& box_height(lines, s) >= 16 * lines + s.pad_top + s.pad_bottom
            &&& box_height(lines, s) >= s.top_cap + s.bottom_cap + 1
            &&& box_height(lines, s) == 16 * lines + s.pad_top + s.pad_bottom || box_height(
                lines,
                s,
            ) == s.top_cap + s.bottom_cap + 1
        }),
{
}

/// The user's messages end at the right margin, the others begin at the left one.
/// Each holds its own text, wrapped to the widest box less the margins.
pub proof fn lemma_messages_stand(
    font: &BitmapFont,
    left: int,
    text: Seq<char>,
    kind: MessageKind,
    author: Option<Seq<char>>,
    y: int,
)
    ensures
        ({
            let m = laid_out(font, left, MessageView::User { text }, y);
            &&& m.x + m.w == 340
            &&& m.y == y
            &&& m.author is None
            &&& m.lines == crate::text_wrap::wrapped_lines(font.run_of(text), 112)
        }),
        ({
            let m = laid_out(font, left, MessageView::Assistant { text, kind, author }, y);
            &&& m.x == left
            &&& m.y == y
            &&& m.author == author
            &&& m.lines == crate::text_wrap::wrapped_lines(font.run_of(text), 114)
        }),
{
}

/// A message stands five rows below the one before it, the first at the top.
pub proof fn lemma_messages_follow(
    font: &BitmapFont,
    left: int,
    messages: Seq<MessageView>,
    message: MessageView,
)
    ensures
        stacked(font, left, Seq::empty()).len() == 0,
        ({
            let before = stacked(font, left, messages);
            let after = stacked(font, left, messages.push(message));
            let y = if before.len() == 0 {
                0
            } else {
                before[before.len() - 1].y + before[before.len() - 1].h + 5
            };
            after == before.push(laid_out(font, left, message, y))
        }),
{
    assert(messages.push(message).drop_last() =~= messages);
}

/// The input begins a hundred and twenty-six rows above the bottom, and the chat
/// ends fourteen above that. It can be scrolled by what does not fit.
pub proof fn lemma_chat_room_is(layouts: Seq<LayoutView>, height: int)
    requires
        height >= 140,
    ensures
        input_top(height) == height - 126,
        chat_room(height) == height - 140,
        layouts.len() == 0 ==> scroll_limit(layouts, height) == 0,
        layouts.len() > 0 ==> ({
            let last = layouts[layouts.len() - 1];
            &&& last.y + last.h <= height - 140 ==> scroll_limit(layouts, height) == 0
            &&& last.y + last.h > height - 140 ==> scroll_limit(layouts, height) == last.y + last.h
                - (height - 140)
        }),
{
}

/// While an answer is awaited dots stand for it behind the messages, in its
/// author's name.
pub proof fn lemma_shown_messages_are(messages: Seq<MessageView>, author: Seq<char>)
    ensures
        shown_messages(messages, None) == messages,
        ({
            let shown = shown_messages(messages, Some(author));
            &&& shown.len() == messages.len() + 1
            &&& shown.take(messages.len() as int) == messages
            &&& shown[messages.len() as int] == (MessageView::Assistant {
                text: "..."@,
                kind: MessageKind::Normal,
                author: Some(author),
            })
        }),
{
    let shown = shown_messages(messages, Some(author));
    assert(shown.take(messages.len() as int) =~= messages);
}

/// A reply is shown without its author's own label, and a failure as one.
pub proof fn lemma_replies_are(text: String, error: String, author: Seq<char>)
    ensures
        reply_text(Ok(text), author) == unlabelled(text@, author),
        reply_text(Err(error), author) == "oops: "@ + error@,
{
}

/// The fwends are gone through in a ring of four, and back.
pub proof fn lemma_fwends_ring(selected: int)
    requires
        0 <= selected < 4,
    ensures
        next_model(selected) == (selected + 1) % 4,
        prev_model(next_model(selected)) == selected,
        next_model(prev_model(selected)) == selected,
{
}

/// Where the parts of the chat lie: the eraser in the lower right corner, the lamp
/// above the input, the fwend and the note beside each other below it.
pub proof fn lemma_chat_parts(chat: &Fwends, x: int, y: int)
    requires
        chat.height >= 318,
    ensures
        chat.art.eraser.width <= 363 ==> chat.eraser_place().0 + chat.art.eraser.width == 363,
        chat.art.eraser.height <= chat.height ==> chat.eraser_place().1 + chat.art.eraser.height
            == chat.height,
        chat.lamp_image().width <= 208 ==> chat.lamp_place().0 + chat.lamp_image().width == 208,
        chat.lamp_image().height + 60 <= chat.height ==> chat.lamp_place().1
            + chat.lamp_image().height == chat.height - 60,
        chat.lamp_on ==> chat.lamp_image() == chat.art.lamp_on,
        !chat.lamp_on ==> chat.lamp_image() == chat.art.lamp_off,
        chat.on_fwend(x, y) <==> 0 <= x - 104 < chat.art.slot_w && 0 <= y - (chat.height - 116)
            < chat.art.slot_h,
        chat.on_input(x, y) <==> chat.awaiting is None && 0 <= x - (108 + chat.art.slot_w)
            < chat.art.sticky_w + 40 && 0 <= y - (chat.height - 126) < chat.art.sticky_h + 4,
        chat.in_chat(x, y) <==> 8 <= x < 340 && 8 <= y < chat.height - 132,
        chat.on_lamp(x, y) ==> y < chat.height - 126,
{
}

/// A picture is hit where it has a color.
pub proof fn lemma_pictures_are_hit(sprite: Sprite, left: int, top: int, dx: int, dy: int)
    ensures
        on_picture(sprite, left, top, left + dx, top + dy) <==> 0 <= dx < sprite.width && 0 <= dy
            < sprite.height && sprite.index_at(dx, dy) != 255,
{
}

/// What is asked: the chosen fwend, the one that thinks where the lamp is lit, with
/// the prompt in its name, what was said so far as it reads it, and the new text
/// behind the user's name.
pub proof fn lemma_questions_are(chat: &Fwends, text: Seq<char>)
    ensures
        ({
            let fwend = chat.models@[chat.selected_model as int];
            let q = chat.question(text);
            &&& chat.lamp_on ==> q.model_id == fwend.thinking_id@ && q.thinking
            &&& !chat.lamp_on ==> q.model_id == fwend.id@ && !q.thinking
            &&& q.author == fwend.name@
            &&& q.latest_text == chat.user_name@ + seq![':', ' '] + text
            &&& q.history == history(normal(chat.said()), fwend.name@, chat.user_name@)
            &&& q.system_prompt.take(
                replaced_all(chat.system_prompt@, "[[FREND_NAME]]"@, fwend.name@).len() as int,
            ) == replaced_all(chat.system_prompt@, "[[FREND_NAME]]"@, fwend.name@)
        }),
{
    let name = chat.models@[chat.selected_model as int].name@;
    let head = replaced_all(chat.system_prompt@, "[[FREND_NAME]]"@, name);
    assert(chat.question(text).system_prompt.take(head.len() as int) =~= head);
}

/// A text is sent when it is not blank and no answer is awaited: it stands last in
/// the chat then, without the blanks round it, the input is empty, and the chosen
/// fwend's answer is awaited. Else nothing happens.
pub proof fn lemma_sending_is(chat: &Fwends, after: &Fwends, action: ActionView)
    requires
        chat.sends(after, action),
    ensures
        chat.awaiting is Some || trim(chat.input@.text).len() == 0 ==> *after == *chat && action
            == ActionView::Nothing,
        chat.awaiting is None && trim(chat.input@.text).len() > 0 ==> {
            let text = trim(chat.input@.text);
            &&& action == ActionView::Ask(chat.question(text))
            &&& after.said().len() == normal(chat.said()).len() + 1
            &&& after.said()[after.said().len() - 1] == (MessageView::User { text })
            &&& after.said().take(after.said().len() - 1) == normal(chat.said())
            &&& after.input@.text.len() == 0
            &&& after.input@.edit.cursor == 0
            &&& after.input@.edit.undo.len() == 0
            &&& text_view(after.awaiting) == Some(chat.models@[chat.selected_model as int].name@)
        },
{
    if chat.awaiting is None && trim(chat.input@.text).len() > 0 {
        assert(after.said().take(after.said().len() - 1) =~= normal(chat.said()));
    }
}

/// Tab goes on to the next fwend, and so do the arrows to either side where nothing
/// can be edited. Enter sends in a chat with the focus, Escape takes that away.
pub proof fn lemma_chat_keys(
    chat: &Fwends,
    key: KeyView,
    clipboard: Option<Seq<char>>,
    after: &Fwends,
    action: ActionView,
)
    requires
        chat.key_leads_to(key, clipboard, after, action),
        chat.selected_model < 4,
    ensures
        key.sym == 0xff09 || key.sym == 0xff89 ==> after.selected_model == (chat.selected_model
            + 1) % 4 && after.input == chat.input && after.messages == chat.messages && action
            == ActionView::Nothing,
        (key.sym == 0xff53 || key.sym == 0xff98) && !key.shift && (!chat.focused || chat.awaiting
            is Some) ==> after.selected_model == (chat.selected_model + 1) % 4 && after.input
            == chat.input,
        (key.sym == 0xff51 || key.sym == 0xff96) && !key.shift && (!chat.focused || chat.awaiting
            is Some) ==> after.selected_model == (chat.selected_model + 3) % 4 && after.input
            == chat.input,
        key.sym == 0xff1b && (!chat.focused || chat.awaiting is Some) ==> !after.focused
            && after.messages == chat.messages && action == ActionView::Nothing,
        (key.sym == 0xff0d || key.sym == 0xff8d) && !chat.focused ==> *after == *chat && action
            == ActionView::Nothing,
        (key.sym == 0xff0d || key.sym == 0xff8d) && chat.focused && chat.awaiting is Some
            ==> *after == *chat && action == ActionView::Nothing,
{
}

/// What a press does. On the eraser it clears the chat down to its greeting, and
/// cancels what is awaited; on the lamp it switches that; on the fwend it goes on to
/// the next; on the note it begins to write there, at the place pressed. Each does
/// only its own, and everywhere else the focus is lost.
pub proof fn lemma_chat_presses(
    chat: &Fwends,
    x: isize,
    y: isize,
    index: usize,
    after: &Fwends,
    r: FwendsAction,
)
    requires
        chat.click_leads_to(x, y, index, after, r),
        chat.selected_model < 4,
    ensures
        x < 0 || y < 0 ==> !after.focused && after.lamp_on == chat.lamp_on && after.selected_model
            == chat.selected_model && after.messages == chat.messages && r@ == ActionView::Nothing,
        x >= 0 && y >= 0 && chat.on_eraser(x as int, y as int) ==> {
            &&& after.said() == seq![intro_view()]
            &&& after.awaiting is None
            &&& chat.awaiting is Some <==> r@ == ActionView::Cancel
            &&& after.lamp_on == chat.lamp_on
            &&& after.selected_model == chat.selected_model
            &&& !after.focused
        },
        x >= 0 && y >= 0 && !chat.on_eraser(x as int, y as int) ==> {
            &&& after.messages == chat.messages
            &&& after.awaiting == chat.awaiting
            &&& after.scroll_y == chat.scroll_y
            &&& r@ == ActionView::Nothing
            &&& chat.on_lamp(x as int, y as int) ==> after.lamp_on == !chat.lamp_on
                && after.selected_model == chat.selected_model && !after.focused
            &&& !chat.on_lamp(x as int, y as int) ==> after.lamp_on == chat.lamp_on
            &&& !chat.on_lamp(x as int, y as int) && chat.on_fwend(x as int, y as int)
                ==> after.selected_model == (chat.selected_model + 1) % 4 && !after.focused
            &&& !chat.on_lamp(x as int, y as int) && !chat.on_fwend(x as int, y as int)
                ==> after.selected_model == chat.selected_model && after.focused == chat.on_input(
                x as int,
                y as int,
            )
            &&& after.focused && index <= chat.input@.text.len() ==> after.input@.edit.cursor
                == index && after.input@.edit.drag == Some(index as nat)
            &&& after.input@.text == chat.input@.text
        },
{
}

/// The wheel moves the chat by twenty-four rows, not above its first and not below
/// its last, and only when it is over the chat.
pub proof fn lemma_chat_wheel(chat: &Fwends, x: isize, y: isize, up: bool, after: &Fwends, r: bool)
    requires
        chat.scroll_leads_to(x, y, up, after, r),
        chat.scroll_y <= chat.max_scrolled(),
    ensures
        after.messages == chat.messages,
        after.input == chat.input,
        !chat.in_chat(x as int, y as int) ==> after.scroll_y == chat.scroll_y && !r,
        chat.in_chat(x as int, y as int) && up ==> after.scroll_y <= chat.scroll_y && (
        chat.scroll_y >= 24 ==> after.scroll_y == chat.scroll_y - 24) && (chat.scroll_y < 24
            ==> after.scroll_y == 0),
        chat.in_chat(x as int, y as int) && !up ==> after.scroll_y >= chat.scroll_y && (
        chat.scroll_y + 24 <= chat.max_scrolled() ==> after.scroll_y == chat.scroll_y + 24) && (
        chat.scroll_y + 24 > chat.max_scrolled() ==> after.scroll_y == chat.max_scrolled()),
        r <==> after.scroll_y != chat.scroll_y,
{
}

/// A reply that is awaited stands last in the chat, by the one who was asked, and
/// none is awaited then. One that is not awaited changes nothing.
pub proof fn lemma_replies_arrive(
    chat: &Fwends,
    reply: Result<String, String>,
    after: &Fwends,
    r: bool,
)
    requires
        chat.reply_leads_to(reply, after, r),
    ensures
        chat.awaiting is None ==> *after == *chat && !r,
        chat.awaiting matches Some(author) ==> {
            &&& r
            &&& after.awaiting is None
            &&& after.said().len() == chat.said().len() + 1
            &&& after.said().take(chat.said().len() as int) == chat.said()
            &&& after.said()[chat.said().len() as int] == (MessageView::Assistant {
                text: reply_text(reply, author@),
                kind: MessageKind::Normal,
                author: Some(author@),
            })
        },
        after.selected_model == chat.selected_model,
        after.input == chat.input,
{
    if chat.awaiting is Some {
        assert(after.said().take(chat.said().len() as int) =~= chat.said());
    }
}

/// The chat is never lower than three hundred and eighteen rows. Another height
/// changes what is shown and nothing that was said.
pub proof fn lemma_heights_are(chat: &Fwends, height: usize, after: &Fwends, r: bool)
    requires
        chat.height_leads_to(height, after, r),
    ensures
        height >= 318 ==> after.height == height,
        height < 318 ==> after.height == 318,
        r <==> after.height != chat.height,
        after.messages == chat.messages,
        after.input == chat.input,
        after.awaiting == chat.awaiting,
{
}

/// The pointer is a hand over what can be pressed and a beam over the note.
pub proof fn lemma_chat_pointer(chat: &Fwends, x: isize, y: isize, r: Option<CursorKind>)
    requires
        chat.points_at(x, y, r),
    ensures
        r == Some(CursorKind::Hand) <==> x >= 0 && y >= 0 && (chat.on_eraser(x as int, y as int)
            || chat.on_lamp(x as int, y as int) || chat.on_fwend(x as int, y as int)),
        r == Some(CursorKind::Text) <==> x >= 0 && y >= 0 && chat.on_input(x as int, y as int)
            && !chat.on_eraser(x as int, y as int) && !chat.on_lamp(x as int, y as int)
            && !chat.on_fwend(x as int, y as int),
        r matches Some(kind) ==> kind == CursorKind::Hand || kind == CursorKind::Text,
{
}

/// Selecting in the note goes on as in any text, where it has begun there.
pub proof fn lemma_note_selects(chat: &Fwends, index: usize, after: &Fwends, r: bool)
    requires
        chat.drag_goes_on(index, after, r),
    ensures
        after.messages == chat.messages,
        after.input@.text == chat.input@.text,
        chat.input@.edit.drag is None ==> !r && after.input@ == chat.input@,
        index <= chat.input@.text.len() ==> (chat.input@.edit.drag matches Some(start)
            ==> after.input@.edit.cursor == index && (start == index ==> after.input@.edit.anchor
            is None) && (start != index ==> after.input@.edit.anchor == Some(start))),
{
}

/// What leaves the chat as it is leaves its messages, its fwends, what is awaited and
/// where it is scrolled to.
pub proof fn lemma_same_chat_is(a: &Fwends, b: &Fwends)
    requires
        a.same_chat(b),
    ensures
        a.said() == b.said(),
        a.messages == b.messages,
        a.models == b.models,
        a.awaiting == b.awaiting,
        a.scroll_y == b.scroll_y,
        a.height == b.height,
        a.layouts == b.layouts,
        a.font == b.font,
        a.art == b.art,
        a.user_name == b.user_name,
        a.system_prompt == b.system_prompt,
{
}

/// What changes the chat alone leaves what is typed, the chosen fwend, the lamp and the
/// focus; what scrolls alone leaves those and the messages.
pub proof fn lemma_same_but_is(a: &Fwends, b: &Fwends)
    ensures
        a.same_but_chat(b) ==> a.input == b.input && a.selected_model == b.selected_model
            && a.lamp_on == b.lamp_on && a.focused == b.focused && a.height == b.height && a.models
            == b.models && a.font == b.font && a.art == b.art && a.user_name == b.user_name
            && a.system_prompt == b.system_prompt,
        a.same_but_scroll(b) ==> a.input == b.input && a.selected_model == b.selected_model
            && a.lamp_on == b.lamp_on && a.focused == b.focused && a.height == b.height
            && a.messages == b.messages && a.awaiting == b.awaiting,
{
}

/// A chat starts with one greeting, seen from its end, the first fwend chosen, nothing
/// typed and nothing awaited, the lamp off and without the keyboard. A text that is
/// typed may have as many characters and lines as is set.
pub proof fn lemma_chat_starts(
    art: FwendsArt,
    font: BitmapFont,
    system_prompt: String,
    user_name: String,
    models: Vec<Model>,
    r: Fwends,
)
    requires
        Fwends::starts(art, font, system_prompt, user_name, models, r),
    ensures
        r.said().len() == 1,
        r.said()[0] == (MessageView::Assistant {
            text: "pick a fwend and say hi"@,
            kind: crate::chat::MessageKind::Intro,
            author: None,
        }),
        r.models == models && r.user_name == user_name && r.system_prompt == system_prompt,
        r.art == art && r.font == font,
        r.selected_model == 0,
        r.awaiting is None,
        !r.lamp_on && !r.focused,
        r.input@.text.len() == 0 && r.input@.edit.cursor == 0 && r.input@.edit.anchor is None
            && r.input@.edit.undo.len() == 0 && r.input@.edit.drag is None,
        r.scroll_y == r.max_scrolled(),
{
}

/// At the end of the program an answer that is awaited is called off, and nothing else
/// is; the chat stays as it is.
pub proof fn lemma_shutdown_leads(before: &Fwends, after: &Fwends, r: FwendsAction)
    requires
        before.shutdown_leads_to(after, r),
    ensures
        after.awaiting is None,
        before.awaiting is Some ==> r@ is Cancel,
        before.awaiting is None ==> r@ is Nothing,
        after.messages == before.messages,
        after.input == before.input,
        after.selected_model == before.selected_model,
        after.lamp_on == before.lamp_on,
        after.scroll_y == before.scroll_y,
{
}

/// Without the keyboard the chat is what it was, with what is typed and the chosen
/// fwend; a selection with the mouse ends.
pub proof fn lemma_blur_leads(before: &Fwends, after: &Fwends)
    requires
        before.blur_leads_to(after),
    ensures
        !after.focused,
        after.messages == before.messages,
        after.awaiting == before.awaiting,
        after.lamp_on == before.lamp_on,
        after.selected_model == before.selected_model,
        after.scroll_y == before.scroll_y,
        after.input@.text == before.input@.text,
        after.input@.edit.cursor == before.input@.edit.cursor,
        after.input@.edit.undo == before.input@.edit.undo,
        after.input@.edit.drag is None,
{
}

} // verus!
