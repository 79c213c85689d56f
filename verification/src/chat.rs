//! The conversation with the fwends: messages, what is sent of them, and what
//! is shown of a reply.
use vstd::prelude::*;
use vstd::slice::slice_subrange;

use crate::chars::{
    append_chars, append_str, chars_start_with, from_chars, is_control, replace_chars, replaced_all,
    same_text, starts_with, to_chars, trim, trim_chars, trim_start, trim_start_chars, views,
};
use crate::emojimap::{emoticon, lemma_plain_text_unchanged, replace_emoji, replaced};
use crate::json::{
    array, array_text, item_count, json_items, json_pick, json_quoted, member, member_text, object,
    object_text, pair_object, pair_text, pick, quote, string_at, string_at_pointer, text_member,
    text_view,
};
use crate::openrouter::{content_text, fallback, fallback_model, plain_text};
use crate::paths::str_view;
use crate::transliterate::{deunicoded, to_ascii, to_upper, uppercased};

verus! {

/// The messages of the conversation that go along with a new one.
pub const HISTORY_LIMIT: usize = 8;

/// The characters of an error that are shown.
pub const ERROR_CHARS: usize = 120;

/// A fwend: the models that speak for it, its name, and its icon.
pub struct Model {
    pub id: String,
    pub thinking_id: String,
    pub name: String,
    pub icon_index: usize,
}

#[verifier::ext_equal]
pub struct ModelView {
    pub id: Seq<char>,
    pub thinking_id: Seq<char>,
    pub name: Seq<char>,
    pub icon: int,
}

impl View for Model {
    type V = ModelView;

    open spec fn view(&self) -> ModelView {
        ModelView {
            id: self.id@,
            thinking_id: self.thinking_id@,
            name: self.name@,
            icon: self.icon_index as int,
        }
    }
}

pub open spec fn model_views(models: Seq<Model>) -> Seq<ModelView> {
    Seq::new(models.len(), |i: int| models[i]@)
}

pub const MODEL_COUNT: usize = 4;

/// The fwends, after the first one.
pub open spec fn catalogue(first: ModelView) -> Seq<ModelView> {
    seq![
        first,
        ModelView {
            id: "deepseek/deepseek-v4-flash"@,
            thinking_id: "deepseek/deepseek-v4-pro"@,
            name: "Deepseek"@,
            icon: 1,
        },
        ModelView {
            id: "qwen/qwen3.6-35b-a3b"@,
            thinking_id: "qwen/qwen3.7-max"@,
            name: "Qwen"@,
            icon: 0,
        },
        ModelView {
            id: "moonshotai/kimi-k3"@,
            thinking_id: "moonshotai/kimi-k3"@,
            name: "Kimi"@,
            icon: 3,
        },
    ]
}

fn new_model(name: &str, id: &str, thinking_id: &str, icon_index: usize) -> (r: Model)
    ensures
        r@ == (ModelView {
            id: id@,
            thinking_id: thinking_id@,
            name: name@,
            icon: icon_index as int,
        }),
{
    Model {
        id: id.to_owned(),
        thinking_id: thinking_id.to_owned(),
        name: name.to_owned(),
        icon_index,
    }
}

/// All fwends. The first one is whoever the user has set up.
pub fn models(name: &str, id: &str, thinking_id: &str) -> (r: Vec<Model>)
    ensures
        model_views(r@) == catalogue(
            ModelView { id: id@, thinking_id: thinking_id@, name: name@, icon: 2 },
        ),
        r@.len() == MODEL_COUNT,
{
    let mut out: Vec<Model> = Vec::new();
    out.push(new_model(name, id, thinking_id, 2));
    out.push(
        new_model("Deepseek", "deepseek/deepseek-v4-flash", "deepseek/deepseek-v4-pro", 1),
    );
    out.push(new_model("Qwen", "qwen/qwen3.6-35b-a3b", "qwen/qwen3.7-max", 0));
    out.push(new_model("Kimi", "moonshotai/kimi-k3", "moonshotai/kimi-k3", 3));
    assert(model_views(out@) =~= catalogue(
        ModelView { id: id@, thinking_id: thinking_id@, name: name@, icon: 2 },
    ));
    out
}

#[derive(Clone, Copy, Debug, PartialEq, Eq, Structural)]
pub enum Role {
    User,
    Assistant,
}

#[derive(Clone, Copy, Debug, PartialEq, Eq, Structural)]
pub enum MessageKind {
    Normal,
    Intro,
}

/// A chat message. Only those of the fwends have a kind and an author.
pub enum Message {
    User { text: String },
    Assistant { text: String, kind: MessageKind, author: Option<String> },
}

#[verifier::ext_equal]
pub enum MessageView {
    User { text: Seq<char> },
    Assistant { text: Seq<char>, kind: MessageKind, author: Option<Seq<char>> },
}

impl View for Message {
    type V = MessageView;

    open spec fn view(&self) -> MessageView {
        match *self {
            Message::User { text } => MessageView::User { text: text@ },
            Message::Assistant { text, kind, author } => MessageView::Assistant {
                text: text@,
                kind,
                author: text_view(author),
            },
        }
    }
}

impl MessageView {
    pub open spec fn role(self) -> Role {
        match self {
            MessageView::User { .. } => Role::User,
            MessageView::Assistant { .. } => Role::Assistant,
        }
    }

    pub open spec fn text(self) -> Seq<char> {
        match self {
            MessageView::User { text } => text,
            MessageView::Assistant { text, .. } => text,
        }
    }

    pub open spec fn kind(self) -> MessageKind {
        match self {
            MessageView::User { .. } => MessageKind::Normal,
            MessageView::Assistant { kind, .. } => kind,
        }
    }

    pub open spec fn author(self) -> Option<Seq<char>> {
        match self {
            MessageView::User { .. } => None,
            MessageView::Assistant { author, .. } => author,
        }
    }
}

pub open spec fn message_views(messages: Seq<Message>) -> Seq<MessageView> {
    Seq::new(messages.len(), |i: int| messages[i]@)
}

impl Message {
    pub fn user(text: String) -> (r: Self)
        ensures
            r@ == (MessageView::User { text: text@ }),
    {
        Message::User { text }
    }

    pub fn assistant(text: String) -> (r: Self)
        ensures
            r@ == (MessageView::Assistant { text: text@, kind: MessageKind::Normal, author: None }),
    {
        Message::Assistant { text, kind: MessageKind::Normal, author: None }
    }

    /// A reply with the name of the fwend that it came from.
    pub fn assistant_with_author(text: String, author: &str) -> (r: Self)
        ensures
            r@ == (MessageView::Assistant {
                text: text@,
                kind: MessageKind::Normal,
                author: Some(author@),
            }),
    {
        Message::Assistant { text, kind: MessageKind::Normal, author: Some(author.to_owned()) }
    }

    pub fn role(&self) -> (r: Role)
        ensures
            r == self@.role(),
    {
        match self {
            Message::User { .. } => Role::User,
            Message::Assistant { .. } => Role::Assistant,
        }
    }

    pub fn text(&self) -> (r: &str)
        ensures
            r@ == self@.text(),
    {
        match self {
            Message::User { text } => text.as_str(),
            Message::Assistant { text, .. } => text.as_str(),
        }
    }

    pub fn kind(&self) -> (r: MessageKind)
        ensures
            r == self@.kind(),
    {
        match self {
            Message::User { .. } => MessageKind::Normal,
            Message::Assistant { kind, .. } => *kind,
        }
    }

    pub fn author(&self) -> (r: Option<&str>)
        ensures
            str_view(r) == self@.author(),
    {
        match self {
            Message::User { .. } => None,
            Message::Assistant { author, .. } => match author {
                Some(name) => Some(name.as_str()),
                None => None,
            },
        }
    }

    /// The same message once more.
    pub fn copy(&self) -> (r: Self)
        ensures
            r@ == self@,
    {
        match self {
            Message::User { text } => Message::User { text: text.as_str().to_owned() },
            Message::Assistant { text, kind, author } => Message::Assistant {
                text: text.as_str().to_owned(),
                kind: *kind,
                author: match author {
                    Some(name) => Some(name.as_str().to_owned()),
                    None => None,
                },
            },
        }
    }
}

pub open spec fn intro_view() -> MessageView {
    MessageView::Assistant {
        text: "pick a fwend and say hi"@,
        kind: MessageKind::Intro,
        author: None,
    }
}

pub fn intro_message() -> (r: Message)
    ensures
        r@ == intro_view(),
{
    Message::Assistant {
        text: "pick a fwend and say hi".to_owned(),
        kind: MessageKind::Intro,
        author: None,
    }
}

/// What is said to the fwends first when no file says anything else.
pub fn default_system_prompt() -> (r: String)
    ensures
        r@
            == "You are a warm, concise chat companion. Answer directly and never reveal hidden reasoning."@,
{
    "You are a warm, concise chat companion. Answer directly and never reveal hidden reasoning.".to_owned()
}

/// The first letter in upper case.
pub open spec fn capitalized(name: Seq<char>, first: Seq<char>) -> Seq<char> {
    first + name.skip(1)
}

/// A name with its first character replaced by what that is in upper case.
pub fn with_first(name: &str, first: &str) -> (r: String)
    requires
        name@.len() > 0,
    ensures
        r@ == capitalized(name@, first@),
{
    let chars = to_chars(name);
    let n: usize = chars.len();
    let rest = slice_subrange(chars.as_slice(), 1, n);
    assert(rest@ =~= name@.skip(1));
    let mut out: Vec<char> = Vec::new();
    append_str(&mut out, first);
    append_chars(&mut out, rest);
    assert(out@ =~= capitalized(name@, first@));
    from_chars(&out)
}

pub open spec fn login_name(name: Seq<char>) -> Seq<char> {
    if name.len() == 0 {
        name
    } else {
        capitalized(name, uppercased(name[0]))
    }
}

pub fn capitalize_first(name: &str) -> (r: String)
    ensures
        r@ == login_name(name@),
{
    let chars = to_chars(name);
    if chars.len() == 0 {
        return name.to_owned();
    }
    let first = to_upper(chars[0]);
    with_first(name, first.as_str())
}

/// The user's name: the one that is set for this, else the login name with a
/// capital; a blank one counts as none.
pub open spec fn shown_name(set: Option<Seq<char>>, login: Option<Seq<char>>) -> Seq<char> {
    let name = match set {
        Some(name) => name,
        None => match login {
            Some(login) => login_name(login),
            None => Seq::empty(),
        },
    };
    if trim(name).len() > 0 {
        name
    } else {
        "Fwend"@
    }
}

pub fn user_name(set: Option<&str>, login: Option<&str>) -> (r: String)
    ensures
        r@ == shown_name(str_view(set), str_view(login)),
{
    let name = match set {
        Some(name) => name.to_owned(),
        None => match login {
            Some(login) => capitalize_first(login),
            None => String::new(),
        },
    };
    let chars = to_chars(name.as_str());
    assert(set is None && login is None ==> chars@ =~= Seq::empty());
    if trim_chars(&chars).len() > 0 {
        name
    } else {
        "Fwend".to_owned()
    }
}

pub open spec fn labelled(name: Seq<char>, text: Seq<char>) -> MessageView {
    MessageView::User { text: name + seq![':', ' '] + text }
}

/// A message as one fwend is to read it: its own as they are, all others as
/// the user's, with the name of who said it.
pub open spec fn as_read(message: MessageView, current: Seq<char>, user: Seq<char>) -> MessageView {
    match message {
        MessageView::User { text } => labelled(user, text),
        MessageView::Assistant { text, kind, author } => match author {
            Some(name) => if name != current {
                labelled(name, text)
            } else {
                message
            },
            None => message,
        },
    }
}

/// The messages that somebody said.
pub open spec fn normal(messages: Seq<MessageView>) -> Seq<MessageView>
    decreases messages.len(),
{
    if messages.len() == 0 {
        Seq::empty()
    } else if messages.last().kind() is Normal {
        normal(messages.drop_last()).push(messages.last())
    } else {
        normal(messages.drop_last())
    }
}

pub open spec fn latest<T>(s: Seq<T>, n: int) -> Seq<T> {
    if s.len() > n {
        s.skip(s.len() - n)
    } else {
        s
    }
}

/// What a fwend is told of the conversation.
pub open spec fn history(
    messages: Seq<MessageView>,
    current: Seq<char>,
    user: Seq<char>,
) -> Seq<MessageView> {
    let said = latest(normal(messages), HISTORY_LIMIT as int);
    Seq::new(said.len(), |i: int| as_read(said[i], current, user))
}

fn with_label(name: &str, text: &str) -> (r: Message)
    ensures
        r@ == labelled(name@, text@),
{
    let mut out: Vec<char> = Vec::new();
    append_str(&mut out, name);
    out.push(':');
    out.push(' ');
    append_str(&mut out, text);
    assert(out@ =~= name@ + seq![':', ' '] + text@);
    Message::user(from_chars(&out))
}

fn read_message(message: &Message, current: &str, user: &str) -> (r: Message)
    ensures
        r@ == as_read(message@, current@, user@),
{
    match message {
        Message::User { text } => with_label(user, text.as_str()),
        Message::Assistant { text, kind, author } => match author {
            Some(name) => if !same_text(name.as_str(), current) {
                with_label(name.as_str(), text.as_str())
            } else {
                message.copy()
            },
            None => message.copy(),
        },
    }
}

pub fn request_history(messages: &Vec<Message>, current_name: &str, user_name: &str) -> (r: Vec<
    Message,
>)
    ensures
        message_views(r@) == history(message_views(messages@), current_name@, user_name@),
{
    let ghost all = message_views(messages@);
    let mut said: Vec<usize> = Vec::new();
    let mut i: usize = 0;
    assert(all.take(0) =~= Seq::empty());
    while i < messages.len()
        invariant
            i <= messages@.len(),
            all == message_views(messages@),
            said@.len() == normal(all.take(i as int)).len(),
            forall|j: int|
                0 <= j < said@.len() ==> (#[trigger] said@[j]) < i && all[said@[j] as int]
                    == normal(all.take(i as int))[j],
        decreases messages@.len() - i,
    {
        assert(all.take(i + 1).drop_last() =~= all.take(i as int));
        assert(all.take(i + 1).last() == messages@[i as int]@);
        match messages[i].kind() {
            MessageKind::Normal => {
                said.push(i);
            },
            MessageKind::Intro => {},
        }
        i += 1;
    }
    assert(all.take(all.len() as int) =~= all);
    let first: usize = if said.len() > HISTORY_LIMIT {
        said.len() - HISTORY_LIMIT
    } else {
        0
    };
    let mut out: Vec<Message> = Vec::new();
    let mut k: usize = first;
    while k < said.len()
        invariant
            first <= k <= said@.len(),
            all == message_views(messages@),
            said@.len() == normal(all).len(),
            out@.len() == k - first,
            forall|j: int|
                0 <= j < said@.len() ==> (#[trigger] said@[j]) < messages@.len()
                    && all[said@[j] as int] == normal(all)[j],
            forall|j: int|
                0 <= j < out@.len() ==> (#[trigger] out@[j])@ == as_read(
                    normal(all)[first + j],
                    current_name@,
                    user_name@,
                ),
        decreases said@.len() - k,
    {
        let at: usize = said[k];
        assert(all[at as int] == messages@[at as int]@);
        out.push(read_message(&messages[at], current_name, user_name));
        k += 1;
    }
    assert(message_views(out@) =~= history(all, current_name@, user_name@));
    out
}

/// A reply without the fwend's own name in front.
pub open spec fn unlabelled(text: Seq<char>, name: Seq<char>) -> Seq<char> {
    let trimmed = trim_start(text);
    let rest = trim_start(trimmed.skip(name.len() as int));
    if starts_with(trimmed, name) && rest.len() > 0 && rest[0] == ':' {
        trim_start(rest.skip(1))
    } else {
        trimmed
    }
}

pub fn strip_self_prefix(text: &str, name: &str) -> (r: String)
    ensures
        r@ == unlabelled(text@, name@),
{
    let chars = to_chars(text);
    let trimmed = trim_start_chars(&chars);
    let prefix = to_chars(name);
    if chars_start_with(trimmed, &prefix) {
        let n: usize = trimmed.len();
        let tail = slice_subrange(trimmed, prefix.len(), n);
        assert(tail@ =~= trimmed@.skip(name@.len() as int));
        let rest = trim_start_chars(tail);
        let m: usize = rest.len();
        if m > 0 && rest[0] == ':' {
            let said = slice_subrange(rest, 1, m);
            assert(said@ =~= rest@.skip(1));
            return from_chars(trim_start_chars(said));
        }
    }
    from_chars(trimmed)
}

pub open spec fn group_chat_note(name: Seq<char>, user: Seq<char>) -> Seq<char> {
    "\n\nThis is a group chat: messages from "@ + user
        + " and from other fwends arrive labeled like \""@ + user
        + ": ...\" or \"Qwen: ...\". Your own earlier replies are unlabeled. Never start your reply with \""@
        + name + ":\" — just speak."@
}

/// What a fwend is told first: the template with its name, and how the group
/// chat works.
pub fn fwend_system_prompt(template: &str, name: &str, user_name: &str) -> (r: String)
    ensures
        r@ == replaced_all(template@, "[[FREND_NAME]]"@, name@) + group_chat_note(
            name@,
            user_name@,
        ),
{
    let chars = to_chars(template);
    let mark = to_chars("[[FREND_NAME]]");
    proof {
        reveal_strlit("[[FREND_NAME]]");
    }
    let with = to_chars(name);
    let mut out = replace_chars(&chars, &mark, &with);
    let ghost start = out@;
    append_str(&mut out, "\n\nThis is a group chat: messages from ");
    append_str(&mut out, user_name);
    append_str(&mut out, " and from other fwends arrive labeled like \"");
    append_str(&mut out, user_name);
    append_str(
        &mut out,
        ": ...\" or \"Qwen: ...\". Your own earlier replies are unlabeled. Never start your reply with \"",
    );
    append_str(&mut out, name);
    append_str(&mut out, ":\" — just speak.");
    assert(out@ =~= start + group_chat_note(name@, user_name@));
    from_chars(&out)
}

/// A message of a request.
pub open spec fn request_message(role: Seq<char>, content: Seq<char>) -> Seq<char> {
    pair_text("content"@, "role"@, (content, role))
}

/// A message as JSON, from which its role and its text can be read again.
pub fn message_json(role: &str, content: &str) -> (r: Vec<char>)
    ensures
        r@ == request_message(role@, content@),
        string_at(r@, "/role"@) == Some(role@),
        string_at(r@, "/content"@) == Some(content@),
{
    proof {
        reveal_strlit("content");
        reveal_strlit("role");
        reveal_strlit("/content");
        reveal_strlit("/role");
        assert("/content"@ =~= seq!['/'] + "content"@);
        assert("/role"@ =~= seq!['/'] + "role"@);
    }
    let text = pair_object("content", "role", content, role);
    to_chars(text.as_str())
}

pub open spec fn role_name(role: Role) -> Seq<char> {
    match role {
        Role::User => "user"@,
        Role::Assistant => "assistant"@,
    }
}

/// The messages of a request: the prompt, the history, and what was just said.
pub open spec fn request_messages(
    system_prompt: Seq<char>,
    history: Seq<MessageView>,
    latest_text: Seq<char>,
) -> Seq<Seq<char>> {
    seq![request_message("system"@, trim(system_prompt))] + Seq::new(
        history.len(),
        |i: int| request_message(role_name(history[i].role()), history[i].text()),
    ) + seq![request_message("user"@, latest_text)]
}

pub open spec fn reasoning_options(thinking: bool) -> Seq<char> {
    if thinking {
        object_text(
            seq![
                member_text("effort"@, json_quoted("high"@)),
                member_text("exclude"@, "true"@),
            ],
        )
    } else {
        object_text(seq![member_text("exclude"@, "true"@)])
    }
}

/// The body of a request, its members by name. The requested model leads the
/// routing list, with the fallback behind it.
pub open spec fn request_body(
    model: Seq<char>,
    messages: Seq<Seq<char>>,
    thinking: bool,
) -> Seq<char> {
    object_text(
        seq![
            member_text("include_reasoning"@, "false"@),
            member_text("messages"@, array_text(messages)),
            member_text("model"@, json_quoted(model)),
            member_text(
                "models"@,
                array_text(seq![json_quoted(model), json_quoted(fallback_model())]),
            ),
            member_text("reasoning"@, reasoning_options(thinking)),
        ],
    )
}

fn quoted(text: &str) -> (r: Vec<char>)
    ensures
        r@ == json_quoted(text@),
{
    let json = quote(text);
    to_chars(json.as_str())
}

fn reasoning_json(thinking: bool) -> (r: Vec<char>)
    ensures
        r@ == reasoning_options(thinking),
{
    let mut members: Vec<Vec<char>> = Vec::new();
    if thinking {
        members.push(text_member("effort", "high"));
    }
    let yes = to_chars("true");
    members.push(member("exclude", &yes));
    let out = object(&members);
    proof {
        if thinking {
            assert(views(members@) =~= seq![
                member_text("effort"@, json_quoted("high"@)),
                member_text("exclude"@, "true"@),
            ]);
        } else {
            assert(views(members@) =~= seq![member_text("exclude"@, "true"@)]);
        }
    }
    out
}

/// The models that may answer, the requested one first.
pub fn routing_list(model: &str) -> (r: Vec<char>)
    ensures
        r@ == array_text(seq![json_quoted(model@), json_quoted(fallback_model())]),
{
    let mut models: Vec<Vec<char>> = Vec::new();
    models.push(quoted(model));
    let other = fallback();
    models.push(quoted(other.as_str()));
    assert(views(models@) =~= seq![json_quoted(model@), json_quoted(fallback_model())]);
    array(&models)
}

/// What a chat's request asks.
pub open spec fn body_asks(
    model: &str,
    system_prompt: &str,
    history: &Vec<Message>,
    latest_text: &str,
    thinking: bool,
    r: String,
) -> bool {
    r@ == request_body(
        model@,
        request_messages(system_prompt@, message_views(history@), latest_text@),
        thinking,
    )
}

pub fn chat_body(
    model: &str,
    system_prompt: &str,
    history: &Vec<Message>,
    latest_text: &str,
    thinking: bool,
) -> (r: String)
    ensures
        body_asks(model, system_prompt, history, latest_text, thinking, r),
{
    let ghost past = message_views(history@);
    let prompt = to_chars(system_prompt);
    let prompt = from_chars(trim_chars(&prompt));
    let mut messages: Vec<Vec<char>> = Vec::new();
    messages.push(message_json("system", prompt.as_str()));
    let mut i: usize = 0;
    while i < history.len()
        invariant
            i <= history@.len(),
            past == message_views(history@),
            messages@.len() == i + 1,
            messages@[0]@ == request_message("system"@, trim(system_prompt@)),
            forall|j: int|
                1 <= j < messages@.len() ==> (#[trigger] messages@[j])@ == request_message(
                    role_name(past[j - 1].role()),
                    past[j - 1].text(),
                ),
        decreases history@.len() - i,
    {
        let message = &history[i];
        assert(message@ == past[i as int]);
        let role = match message.role() {
            Role::User => "user",
            Role::Assistant => "assistant",
        };
        messages.push(message_json(role, message.text()));
        i += 1;
    }
    messages.push(message_json("user", latest_text));
    assert(views(messages@) =~= request_messages(system_prompt@, past, latest_text@));
    let list = array(&messages);
    let model_json = quoted(model);
    let models = routing_list(model);
    let reasoning = reasoning_json(thinking);
    let no = to_chars("false");
    let mut members: Vec<Vec<char>> = Vec::new();
    members.push(member("include_reasoning", &no));
    members.push(member("messages", &list));
    members.push(member("model", &model_json));
    members.push(member("models", &models));
    members.push(member("reasoning", &reasoning));
    assert(views(members@) =~= seq![
        member_text("include_reasoning"@, "false"@),
        member_text("messages"@, list@),
        member_text("model"@, model_json@),
        member_text("models"@, models@),
        member_text("reasoning"@, reasoning@),
    ]);
    from_chars(&object(&members))
}

/// A character that the fonts can show.
pub open spec fn printable(c: char) -> bool {
    0x20 <= c as u32 && c as u32 <= 0x7E
}

/// What is shown of an ASCII character: line breaks and tabs as spaces, other
/// control characters not at all.
pub open spec fn shown_char(c: char) -> Seq<char> {
    if c == '\n' || c == '\r' || c == '\t' {
        seq![' ']
    } else if printable(c) {
        seq![c]
    } else {
        Seq::empty()
    }
}

pub open spec fn shown_text(s: Seq<char>) -> Seq<char>
    decreases s.len(),
{
    if s.len() == 0 {
        Seq::empty()
    } else {
        shown_text(s.drop_last()) + shown_char(s.last())
    }
}

/// A text in characters that can be shown.
pub fn show_text(text: &str) -> (r: String)
    ensures
        r@ == shown_text(text@),
{
    let chars = to_chars(text);
    let mut out: Vec<char> = Vec::new();
    let mut i: usize = 0;
    assert(text@.take(0) =~= Seq::empty());
    while i < chars.len()
        invariant
            i <= chars@.len(),
            chars@ == text@,
            out@ == shown_text(text@.take(i as int)),
        decreases chars@.len() - i,
    {
        let c = chars[i];
        let ghost before = out@;
        if c == '\n' || c == '\r' {
            out.push(' ');
        } else if (c as u32) < 128 && !is_control(c) {
            out.push(c);
        } else if c == '\t' {
            out.push(' ');
        }
        assert(text@.take(i + 1).drop_last() =~= text@.take(i as int));
        assert(out@ =~= before + shown_char(c));
        i += 1;
    }
    assert(text@.take(text@.len() as int) =~= text@);
    from_chars(&out)
}

/// Everything that is shown can be shown.
pub proof fn lemma_shown_is_printable(s: Seq<char>)
    ensures
        forall|i: int| 0 <= i < shown_text(s).len() ==> printable(#[trigger] shown_text(s)[i]),
        (forall|i: int| 0 <= i < s.len() ==> printable(#[trigger] s[i])) ==> shown_text(s) == s,
    decreases s.len(),
{
    if s.len() > 0 {
        let front = s.drop_last();
        lemma_shown_is_printable(front);
        let n = shown_text(front).len() as int;
        assert forall|i: int| 0 <= i < shown_text(s).len() implies printable(
            #[trigger] shown_text(s)[i],
        ) by {
            if i < n {
                assert(shown_text(s)[i] == shown_text(front)[i]);
            } else {
                assert(shown_text(s)[i] == shown_char(s.last())[i - n]);
                assert(' ' as u32 == 0x20);
            }
        }
        if forall|i: int| 0 <= i < s.len() ==> printable(#[trigger] s[i]) {
            assert forall|i: int| 0 <= i < front.len() implies printable(#[trigger] front[i]) by {
                assert(printable(s[i]));
            }
            assert(printable(s[s.len() - 1]));
            assert(shown_text(s) =~= s);
        }
    }
}

/// A text as the fonts can show it: emoji as emoticons, and everything else in
/// plain ASCII. What the fonts can show stays as it is.
pub fn normalize_display_text(text: &str) -> (r: String)
    ensures
        r@ == shown_text(deunicoded(replaced(text@))),
        (forall|i: int| 0 <= i < text@.len() ==> printable(#[trigger] text@[i])) ==> r@ == text@,
{
    let plain = replace_emoji(text);
    let ascii = to_ascii(plain.as_str());
    proof {
        if forall|i: int| 0 <= i < text@.len() ==> printable(#[trigger] text@[i]) {
            assert forall|i: int| 0 <= i < text@.len() implies emoticon(
                #[trigger] text@[i],
            ) is None by {
                assert(printable(text@[i]));
            }
            lemma_plain_text_unchanged(text@);
            lemma_shown_is_printable(text@);
        }
    }
    show_text(ascii.as_str())
}

/// Why a response is no reply.
#[derive(Clone, Copy, Debug, PartialEq, Eq, Structural)]
pub enum ContentError {
    Missing,
    Empty,
}

impl ContentError {
    pub open spec fn words(self) -> Seq<char> {
        match self {
            ContentError::Missing => "OpenRouter response did not include assistant content"@,
            ContentError::Empty => "OpenRouter assistant content was empty"@,
        }
    }

    pub fn message(self) -> (r: String)
        ensures
            r@ == self.words(),
    {
        match self {
            ContentError::Missing => "OpenRouter response did not include assistant content".to_owned(),
            ContentError::Empty => "OpenRouter assistant content was empty".to_owned(),
        }
    }
}

/// The first of a response's choices.
pub open spec fn has_choice(response: Seq<char>) -> bool {
    match json_pick(response, "/choices"@) {
        Some(choices) => match json_items(choices) {
            Some(n) => n > 0,
            None => false,
        },
        None => false,
    }
}

pub fn any_choice(response: &str) -> (r: bool)
    ensures
        r == has_choice(response@),
{
    match pick(response, "/choices") {
        Some(choices) => match item_count(choices.as_str()) {
            Some(n) => n > 0,
            None => false,
        },
        None => false,
    }
}

/// The plain text of the reply in a response.
pub open spec fn reply_in(response: Seq<char>) -> Option<Seq<char>> {
    if has_choice(response) {
        match json_pick(response, "/choices/0/message/content"@) {
            Some(content) => Some(plain_text(content)),
            None => None,
        }
    } else {
        None
    }
}

pub fn reply_content(response: &str) -> (r: Option<String>)
    ensures
        text_view(r) == reply_in(response@),
{
    if !any_choice(response) {
        return None;
    }
    match pick(response, "/choices/0/message/content") {
        Some(content) => Some(content_text(content.as_str())),
        None => None,
    }
}

/// What is read of a reply's content.
pub open spec fn reply_reads(content: Option<String>, r: Result<String, ContentError>) -> bool {
    match text_view(content) {
        None => r == Err::<String, ContentError>(ContentError::Missing),
        Some(text) => if trim(text).len() == 0 {
            r == Err::<String, ContentError>(ContentError::Empty)
        } else {
            r is Ok && r->Ok_0@ == shown_text(deunicoded(replaced(text)))
        },
    }
}

/// The reply that a response's plain text makes.
pub fn reply_from(content: Option<String>) -> (r: Result<String, ContentError>)
    ensures
        reply_reads(content, r),
{
    match content {
        None => Err(ContentError::Missing),
        Some(text) => {
            let chars = to_chars(text.as_str());
            if trim_chars(&chars).len() == 0 {
                Err(ContentError::Empty)
            } else {
                Ok(normalize_display_text(text.as_str()))
            }
        },
    }
}

/// What is read of a response's content.
pub open spec fn content_reads(response: &str, r: Result<String, ContentError>) -> bool {
    match reply_in(response@) {
        None => r == Err::<String, ContentError>(ContentError::Missing),
        Some(text) => if trim(text).len() == 0 {
            r == Err::<String, ContentError>(ContentError::Empty)
        } else {
            r is Ok && r->Ok_0@ == shown_text(deunicoded(replaced(text)))
        },
    }
}

pub fn extract_content(response: &str) -> (r: Result<String, ContentError>)
    ensures
        content_reads(response, r),
{
    reply_from(reply_content(response))
}

/// The first characters of a text.
pub open spec fn first_chars(s: Seq<char>, n: int) -> Seq<char> {
    if s.len() > n {
        s.take(n)
    } else {
        s
    }
}

fn take_chars(s: &[char], n: usize) -> (r: String)
    ensures
        r@ == first_chars(s@, n as int),
{
    if s.len() > n {
        let head = slice_subrange(s, 0, n);
        assert(head@ =~= s@.take(n as int));
        from_chars(head)
    } else {
        from_chars(s)
    }
}

/// An error in few words: the service's own, else the start of what it
/// answered.
pub open spec fn in_short(message: Option<Seq<char>>, response: Seq<char>) -> Seq<char> {
    match message {
        Some(message) => first_chars(message, ERROR_CHARS as int),
        None => {
            let text = first_chars(
                replaced_all(response, seq!['\n'], seq![' ']),
                ERROR_CHARS as int,
            );
            if text.len() == 0 {
                "empty OpenRouter response"@
            } else {
                text
            }
        },
    }
}

pub fn shorten_error(message: Option<String>, response: &str) -> (r: String)
    ensures
        r@ == in_short(text_view(message), response@),
{
    match message {
        Some(message) => {
            let chars = to_chars(message.as_str());
            take_chars(&chars, ERROR_CHARS)
        },
        None => {
            let chars = to_chars(response);
            let mut newline: Vec<char> = Vec::new();
            newline.push('\n');
            assert(newline@ =~= seq!['\n']);
            let mut space: Vec<char> = Vec::new();
            space.push(' ');
            assert(space@ =~= seq![' ']);
            let flat = replace_chars(&chars, &newline, &space);
            let text = take_chars(&flat, ERROR_CHARS);
            let shown = to_chars(text.as_str());
            if shown.len() == 0 {
                "empty OpenRouter response".to_owned()
            } else {
                text
            }
        },
    }
}

pub open spec fn document_text(response: Seq<char>) -> Seq<char> {
    match json_pick(response, seq![]) {
        Some(text) => text,
        None => Seq::empty(),
    }
}

pub fn compact_error(response: &str) -> (r: String)
    ensures
        r@ == in_short(string_at(response@, "/error/message"@), document_text(response@)),
{
    let message = string_at_pointer(response, "/error/message");
    proof {
        reveal_strlit("");
        assert(""@ =~= seq![]);
    }
    match pick(response, "") {
        Some(text) => shorten_error(message, text.as_str()),
        None => {
            assert(document_text(response@) =~= ""@);
            shorten_error(message, "")
        },
    }
}

pub open spec fn refused(error: ContentError, short: Seq<char>) -> Seq<char> {
    error.words() + seq![':', ' '] + short
}

/// What is read of a response.
pub open spec fn response_reads(response: &str, r: Result<String, String>) -> bool {
    match reply_in(response@) {
        Some(text) => if trim(text).len() == 0 {
            r is Err && r->Err_0@ == refused(
                ContentError::Empty,
                in_short(string_at(response@, "/error/message"@), document_text(response@)),
            )
        } else {
            r is Ok && r->Ok_0@ == shown_text(deunicoded(replaced(text)))
        },
        None => r is Err && r->Err_0@ == refused(
            ContentError::Missing,
            in_short(string_at(response@, "/error/message"@), document_text(response@)),
        ),
    }
}

/// The reply in a response, or why there is none.
pub fn read_response(response: &str) -> (r: Result<String, String>)
    ensures
        response_reads(response, r),
{
    match extract_content(response) {
        Ok(text) => Ok(text),
        Err(error) => {
            let words = error.message();
            let short = compact_error(response);
            let mut out: Vec<char> = Vec::new();
            append_str(&mut out, words.as_str());
            out.push(':');
            out.push(' ');
            append_str(&mut out, short.as_str());
            assert(out@ =~= refused(
                error,
                in_short(string_at(response@, "/error/message"@), document_text(response@)),
            ));
            Err(from_chars(&out))
        },
    }
}

/// A message of a request tells the text under `content` and who speaks under
/// `role`.
pub proof fn lemma_request_message_is(role: Seq<char>, content: Seq<char>)
    ensures
        request_message(role, content) == "{\"content\":"@ + json_quoted(content) + ",\"role\":"@
            + json_quoted(role) + "}"@,
{
    crate::json::lemma_pair_text("content"@, "role"@, (content, role));
    reveal_strlit("content");
    reveal_strlit("role");
    reveal_strlit("{\"content\":");
    reveal_strlit(",\"role\":");
    reveal_strlit("}");
    assert(request_message(role, content) =~= "{\"content\":"@ + json_quoted(content)
        + ",\"role\":"@ + json_quoted(role) + "}"@);
}

/// The messages of a request: the system prompt without the blanks round it, each
/// message of the history, said by `user` where a user wrote it and by
/// `assistant` where the model did, and the newest text, said by `user`.
pub proof fn lemma_request_messages_are(
    system_prompt: Seq<char>,
    history: Seq<MessageView>,
    latest_text: Seq<char>,
)
    ensures
        ({
            let sent = request_messages(system_prompt, history, latest_text);
            &&& sent.len() == history.len() + 2
            &&& sent[0] == request_message("system"@, trim(system_prompt))
            &&& sent[sent.len() - 1] == request_message("user"@, latest_text)
            &&& forall|i: int|
                0 <= i < history.len() ==> match #[trigger] history[i] {
                    MessageView::User { text } => sent[i + 1] == request_message("user"@, text),
                    MessageView::Assistant { text, .. } => sent[i + 1] == request_message(
                        "assistant"@,
                        text,
                    ),
                }
        }),
{
    let sent = request_messages(system_prompt, history, latest_text);
    assert forall|i: int| 0 <= i < history.len() implies match #[trigger] history[i] {
        MessageView::User { text } => sent[i + 1] == request_message("user"@, text),
        MessageView::Assistant { text, .. } => sent[i + 1] == request_message("assistant"@, text),
    } by {
        assert(sent[i + 1] == request_message(role_name(history[i].role()), history[i].text()));
    }
}

/// The messages that count are what the user wrote and the ordinary replies, in
/// their order.
pub proof fn lemma_normal_is(messages: Seq<MessageView>)
    ensures
        normal(messages) == messages.filter(
            |m: MessageView|
                match m {
                    MessageView::User { .. } => true,
                    MessageView::Assistant { kind, .. } => kind == MessageKind::Normal,
                },
        ),
    decreases messages.len(),
{
    reveal(Seq::filter);
    let counts = |m: MessageView|
        match m {
            MessageView::User { .. } => true,
            MessageView::Assistant { kind, .. } => kind == MessageKind::Normal,
        };
    if messages.len() > 0 {
        lemma_normal_is(messages.drop_last());
        assert(counts(messages.last()) == (messages.last().kind() is Normal));
    } else {
        assert(messages.filter(counts) =~= normal(messages));
    }
}

/// The history holds the newest eight messages that count, oldest first, as the
/// model called `current` reads them: its own replies as they are, what the user
/// wrote behind the user's name, what another model said behind that one's name
/// and as a user's.
pub proof fn lemma_history_is(messages: Seq<MessageView>, current: Seq<char>, user: Seq<char>)
    ensures
        ({
            let told = history(messages, current, user);
            let all = normal(messages);
            let old = if all.len() > 8 {
                all.len() - 8
            } else {
                0
            };
            &&& told.len() == all.len() - old
            &&& forall|i: int|
                #![trigger told[i]]
                0 <= i < told.len() ==> match all[old + i] {
                    MessageView::User { text } => told[i] == (MessageView::User {
                        text: user + seq![':', ' '] + text,
                    }),
                    MessageView::Assistant { text, author: Some(name), .. } if name != current =>
                        told[i] == (MessageView::User { text: name + seq![':', ' '] + text }),
                    _ => told[i] == all[old + i],
                }
        }),
{
}

/// A reply that begins with its author's name and a colon is read without them
/// and without the blanks round them.
pub proof fn lemma_own_label_goes(
    before: Seq<char>,
    name: Seq<char>,
    gap: Seq<char>,
    rest: Seq<char>,
)
    requires
        forall|i: int| 0 <= i < before.len() ==> crate::chars::white_space(#[trigger] before[i]),
        forall|i: int| 0 <= i < gap.len() ==> crate::chars::white_space(#[trigger] gap[i]),
        name.len() > 0,
        !crate::chars::white_space(name[0]),
    ensures
        unlabelled(before + name + gap + seq![':'] + rest, name) == trim_start(rest),
{
    let tail = name + gap + seq![':'] + rest;
    let text = before + name + gap + seq![':'] + rest;
    assert(text =~= before + tail);
    lemma_trim_start_skips(before, tail);
    assert(tail.take(name.len() as int) =~= name);
    assert(tail.skip(name.len() as int) =~= gap + (seq![':'] + rest));
    lemma_trim_start_skips(gap, seq![':'] + rest);
    assert((seq![':'] + rest).skip(1) =~= rest);
}

/// A reply that does not begin with the name is only freed of the blanks before
/// it.
pub proof fn lemma_no_label_stays(text: Seq<char>, name: Seq<char>)
    requires
        trim_start(text).len() < name.len() || trim_start(text).take(name.len() as int) != name,
    ensures
        unlabelled(text, name) == trim_start(text),
{
}

proof fn lemma_trim_start_skips(blanks: Seq<char>, rest: Seq<char>)
    requires
        forall|i: int| 0 <= i < blanks.len() ==> crate::chars::white_space(#[trigger] blanks[i]),
        rest.len() > 0,
        !crate::chars::white_space(rest[0]),
    ensures
        trim_start(blanks + rest) == rest,
    decreases blanks.len(),
{
    let all = blanks + rest;
    if blanks.len() > 0 {
        assert(all[0] == blanks[0]);
        assert(all.subrange(1, all.len() as int) =~= blanks.skip(1) + rest);
        lemma_trim_start_skips(blanks.skip(1), rest);
    } else {
        assert(all =~= rest);
    }
}

/// A name that is set is used, else the login name with its first letter raised;
/// a blank one is replaced.
pub proof fn lemma_shown_name_is(set: Option<Seq<char>>, login: Option<Seq<char>>)
    ensures
        set matches Some(name) ==> trim(name).len() > 0 ==> shown_name(set, login) == name,
        set matches Some(name) ==> trim(name).len() == 0 ==> shown_name(set, login) == "Fwend"@,
        set is None && login is None ==> shown_name(set, login) == "Fwend"@,
        set is None ==> (login matches Some(name) ==> name.len() > 0 && trim(
            uppercased(name[0]) + name.skip(1),
        ).len() > 0 ==> shown_name(set, login) == uppercased(name[0]) + name.skip(1)),
{
    assert(trim(Seq::<char>::empty()) =~= Seq::<char>::empty());
}

/// A text is shown one character at a time: line breaks and tabs as spaces,
/// printable ASCII as it is, anything else not at all.
pub proof fn lemma_shown_text_is(a: Seq<char>, b: Seq<char>, c: char)
    ensures
        shown_text(a + b) == shown_text(a) + shown_text(b),
        c == '\n' || c == '\r' || c == '\t' ==> shown_text(seq![c]) == seq![' '],
        32 <= c as u32 <= 126 ==> shown_text(seq![c]) == seq![c],
        c as u32 > 126 || ((c as u32) < 32 && c != '\n' && c != '\r' && c != '\t') ==> shown_text(
            seq![c],
        ).len() == 0,
        shown_text(Seq::empty()).len() == 0,
    decreases b.len(),
{
    assert(seq![c].drop_last() =~= Seq::<char>::empty());
    assert(shown_text(Seq::<char>::empty()) =~= Seq::<char>::empty());
    assert(shown_text(seq![c]) =~= shown_char(c));
    if b.len() == 0 {
        assert(a + b =~= a);
        assert(shown_text(b) =~= Seq::<char>::empty());
        assert(shown_text(a) + shown_text(b) =~= shown_text(a));
    } else {
        lemma_shown_text_is(a, b.drop_last(), c);
        assert((a + b).drop_last() =~= a + b.drop_last());
        assert((a + b).last() == b.last());
        assert(shown_text(a) + shown_text(b.drop_last()) + shown_char(b.last()) =~= shown_text(a)
            + shown_text(b));
    }
}

/// An error is told in at most its first hundred and twenty characters.
pub proof fn lemma_in_short_is(message: Seq<char>, response: Seq<char>)
    ensures
        in_short(Some(message), response) == message.take(
            if message.len() < 120 {
                message.len() as int
            } else {
                120
            },
        ),
        ({
            let flat = replaced_all(response, seq!['\n'], seq![' ']);
            let short = in_short(None, response);
            &&& flat.len() == 0 ==> short == "empty OpenRouter response"@
            &&& 0 < flat.len() <= 120 ==> short == flat
            &&& flat.len() > 120 ==> short == flat.take(120)
        }),
{
    if message.len() <= 120 {
        assert(message.take(message.len() as int) =~= message);
    }
}

/// A request is told which model answers and which one stands in for it, in that
/// order. Only a thinking one asks for effort.
pub proof fn lemma_request_body_is(model: Seq<char>, messages: Seq<Seq<char>>, thinking: bool)
    ensures
        request_body(model, messages, thinking) == "{\"include_reasoning\":false,\"messages\":"@
            + array_text(messages) + ",\"model\":"@ + json_quoted(model) + ",\"models\":["@
            + json_quoted(model) + ","@ + json_quoted("@preset/free"@) + "],\"reasoning\":"@ + (
        if thinking {
            "{\"effort\":"@ + json_quoted("high"@) + ",\"exclude\":true}"@
        } else {
            "{\"exclude\":true}"@
        }) + "}"@,
{
    let own = json_quoted(model);
    let other = json_quoted("@preset/free"@);
    let m1 = member_text("include_reasoning"@, "false"@);
    let m2 = member_text("messages"@, array_text(messages));
    let m3 = member_text("model"@, own);
    let m4 = member_text("models"@, array_text(seq![own, other]));
    let how = reasoning_options(thinking);
    let m5 = member_text("reasoning"@, how);
    lemma_five_joined(m1, m2, m3, m4, m5);
    lemma_first_members(array_text(messages), own);
    lemma_last_members(own, other, how);
    lemma_reasoning_options_are(thinking);
    lemma_parts_join(m1, m2, m3, m4, m5);
    let a = "{\"include_reasoning\":false,\"messages\":"@ + array_text(messages) + ",\"model\":"@
        + own;
    assert(request_body(model, messages, thinking) == a + (",\"models\":["@ + own + ","@ + other
        + "],\"reasoning\":"@ + how + "}"@));
    lemma_parts_follow(
        a,
        ",\"models\":["@,
        own,
        ","@,
        other,
        "],\"reasoning\":"@,
        how,
        "}"@,
    );
}

proof fn lemma_parts_follow(
    a: Seq<char>,
    b: Seq<char>,
    c: Seq<char>,
    d: Seq<char>,
    e: Seq<char>,
    f: Seq<char>,
    g: Seq<char>,
    h: Seq<char>,
)
    ensures
        a + (b + c + d + e + f + g + h) == a + b + c + d + e + f + g + h,
{
    assert(a + (b + c + d + e + f + g + h) =~= a + b + c + d + e + f + g + h);
}

proof fn lemma_parts_join(a: Seq<char>, b: Seq<char>, c: Seq<char>, d: Seq<char>, e: Seq<char>)
    ensures
        seq!['{'] + (a + seq![','] + b + seq![','] + c + seq![','] + d + seq![','] + e) + seq!['}']
            == (seq!['{'] + a + seq![','] + b + seq![','] + c) + (seq![','] + d + seq![','] + e
            + seq!['}']),
{
    assert(seq!['{'] + (a + seq![','] + b + seq![','] + c + seq![','] + d + seq![','] + e)
        + seq!['}'] =~= (seq!['{'] + a + seq![','] + b + seq![','] + c) + (seq![','] + d + seq![
        ',',
    ] + e + seq!['}']));
}

proof fn lemma_first_members(texts: Seq<char>, own: Seq<char>)
    ensures
        seq!['{'] + member_text("include_reasoning"@, "false"@) + seq![','] + member_text(
            "messages"@,
            texts,
        ) + seq![','] + member_text("model"@, own)
            == "{\"include_reasoning\":false,\"messages\":"@ + texts + ",\"model\":"@ + own,
{
    reveal_strlit("include_reasoning");
    reveal_strlit("false");
    reveal_strlit("messages");
    reveal_strlit("model");
    reveal_strlit("{\"include_reasoning\":false,\"messages\":");
    reveal_strlit(",\"model\":");
    let head = seq!['{'] + member_text("include_reasoning"@, "false"@) + seq![',', '"']
        + "messages"@ + seq!['"', ':'];
    assert(head =~= "{\"include_reasoning\":false,\"messages\":"@);
    assert(seq![',', '"'] + "model"@ + seq!['"', ':'] =~= ",\"model\":"@);
    assert(seq!['{'] + member_text("include_reasoning"@, "false"@) + seq![','] + member_text(
        "messages"@,
        texts,
    ) + seq![','] + member_text("model"@, own) =~= head + texts + (seq![',', '"'] + "model"@
        + seq!['"', ':']) + own);
}

proof fn lemma_last_members(own: Seq<char>, other: Seq<char>, how: Seq<char>)
    ensures
        seq![','] + member_text("models"@, array_text(seq![own, other])) + seq![','] + member_text(
            "reasoning"@,
            how,
        ) + seq!['}'] == ",\"models\":["@ + own + ","@ + other + "],\"reasoning\":"@ + how + "}"@,
{
    reveal_strlit("models");
    reveal_strlit("reasoning");
    reveal_strlit(",\"models\":[");
    reveal_strlit(",");
    reveal_strlit("],\"reasoning\":");
    reveal_strlit("}");
    lemma_two_joined(own, other);
    assert(seq![',', '"'] + "models"@ + seq!['"', ':', '['] =~= ",\"models\":["@);
    assert(seq![']', ',', '"'] + "reasoning"@ + seq!['"', ':'] =~= "],\"reasoning\":"@);
    assert(seq![','] =~= ","@);
    assert(seq!['}'] =~= "}"@);
    assert(seq![','] + member_text("models"@, array_text(seq![own, other])) + seq![',']
        + member_text("reasoning"@, how) + seq!['}'] =~= (seq![',', '"'] + "models"@ + seq![
        '"',
        ':',
        '[',
    ]) + own + seq![','] + other + (seq![']', ',', '"'] + "reasoning"@ + seq!['"', ':']) + how
        + seq!['}']);
}

proof fn lemma_reasoning_options_are(thinking: bool)
    ensures
        reasoning_options(thinking) == if thinking {
            "{\"effort\":"@ + json_quoted("high"@) + ",\"exclude\":true}"@
        } else {
            "{\"exclude\":true}"@
        },
{
    reveal_with_fuel(crate::chars::join_with, 2);
    reveal_strlit("effort");
    reveal_strlit("exclude");
    reveal_strlit("true");
    reveal_strlit("{\"effort\":");
    reveal_strlit(",\"exclude\":true}");
    reveal_strlit("{\"exclude\":true}");
    let e1 = member_text("effort"@, json_quoted("high"@));
    let e2 = member_text("exclude"@, "true"@);
    lemma_two_joined(e1, e2);
    assert(seq!['{', '"'] + "effort"@ + seq!['"', ':'] =~= "{\"effort\":"@);
    assert(seq![','] + e2 + seq!['}'] =~= ",\"exclude\":true}"@);
    assert(seq!['{'] + e2 + seq!['}'] =~= "{\"exclude\":true}"@);
    if thinking {
        assert(reasoning_options(thinking) =~= (seq!['{', '"'] + "effort"@ + seq!['"', ':'])
            + json_quoted("high"@) + (seq![','] + e2 + seq!['}']));
    } else {
        assert(reasoning_options(thinking) =~= seq!['{'] + e2 + seq!['}']);
    }
}

proof fn lemma_two_joined(a: Seq<char>, b: Seq<char>)
    ensures
        crate::chars::join_with(seq![a, b], seq![',']) == a + seq![','] + b,
{
    reveal_with_fuel(crate::chars::join_with, 3);
    assert(seq![a, b].drop_last() =~= seq![a]);
}

proof fn lemma_five_joined(a: Seq<char>, b: Seq<char>, c: Seq<char>, d: Seq<char>, e: Seq<char>)
    ensures
        crate::chars::join_with(seq![a, b, c, d, e], seq![',']) == a + seq![','] + b + seq![','] + c
            + seq![','] + d + seq![','] + e,
{
    reveal_with_fuel(crate::chars::join_with, 6);
    assert(seq![a, b, c, d, e].drop_last() =~= seq![a, b, c, d]);
    assert(seq![a, b, c, d].drop_last() =~= seq![a, b, c]);
    assert(seq![a, b, c].drop_last() =~= seq![a, b]);
    assert(seq![a, b].drop_last() =~= seq![a]);
}

/// A reply is read as what can be shown of it; one without a content is missing, and
/// a blank one empty, and both are told with the response's own error.
pub proof fn lemma_responses_are_read(
    content: Option<String>,
    reply: Result<String, ContentError>,
    response: &str,
    found: Result<String, ContentError>,
    told: Result<String, String>,
)
    ensures
        reply_reads(content, reply) ==> (content is None <==> reply == Err::<String, ContentError>(
            ContentError::Missing,
        )) && (content matches Some(text) ==> (trim(text@).len() == 0 ==> reply == Err::<
            String,
            ContentError,
        >(ContentError::Empty)) && (trim(text@).len() > 0 ==> reply is Ok && reply->Ok_0@
            == shown_text(deunicoded(replaced(text@))))),
        content_reads(response, found) ==> (reply_in(response@) is None <==> found == Err::<
            String,
            ContentError,
        >(ContentError::Missing)) && (reply_in(response@) matches Some(text) ==> (trim(text).len()
            == 0 ==> found == Err::<String, ContentError>(ContentError::Empty)) && (trim(text).len()
            > 0 ==> found is Ok && found->Ok_0@ == shown_text(deunicoded(replaced(text))))),
        response_reads(response, told) ==> (told is Ok <==> (reply_in(response@) matches Some(text)
            && trim(text).len() > 0)) && (told is Ok ==> told->Ok_0@ == shown_text(
            deunicoded(replaced(reply_in(response@)->0)),
        )) && (reply_in(response@) is None ==> told->Err_0@
            == "OpenRouter response did not include assistant content"@ + seq![':', ' '] + in_short(
            string_at(response@, "/error/message"@),
            document_text(response@),
        )),
{
}

/// A chat's request asks the model that is given, with the prompt, the history and
/// the newest text as its messages, to think where that is wanted.
pub proof fn lemma_bodies_ask(
    model: &str,
    system_prompt: &str,
    history: &Vec<Message>,
    latest_text: &str,
    thinking: bool,
    r: String,
)
    requires
        body_asks(model, system_prompt, history, latest_text, thinking, r),
    ensures
        ({
            let messages = request_messages(
                system_prompt@,
                message_views(history@),
                latest_text@,
            );
            &&& r@ == "{\"include_reasoning\":false,\"messages\":"@ + array_text(messages)
                + ",\"model\":"@ + json_quoted(model@) + ",\"models\":["@ + json_quoted(model@)
                + ","@ + json_quoted("@preset/free"@) + "],\"reasoning\":"@ + (if thinking {
                "{\"effort\":"@ + json_quoted("high"@) + ",\"exclude\":true}"@
            } else {
                "{\"exclude\":true}"@
            }) + "}"@
            &&& messages.len() == history@.len() + 2
            &&& messages[0] == request_message("system"@, trim(system_prompt@))
            &&& messages[messages.len() - 1] == request_message("user"@, latest_text@)
            &&& forall|i: int|
                0 <= i < history@.len() ==> match #[trigger] history@[i] {
                    Message::User { text } => messages[i + 1] == request_message("user"@, text@),
                    Message::Assistant { text, .. } => messages[i + 1] == request_message(
                        "assistant"@,
                        text@,
                    ),
                }
        }),
{
    let views = message_views(history@);
    let messages = request_messages(system_prompt@, views, latest_text@);
    lemma_request_body_is(model@, messages, thinking);
    lemma_request_messages_are(system_prompt@, views, latest_text@);
    assert forall|i: int| 0 <= i < history@.len() implies match #[trigger] history@[i] {
        Message::User { text } => messages[i + 1] == request_message("user"@, text@),
        Message::Assistant { text, .. } => messages[i + 1] == request_message(
            "assistant"@,
            text@,
        ),
    } by {
        assert(views[i] == history@[i]@);
    }
}

/// A reply is the content of the first choice's message; without a choice, or
/// without a content, there is none.
pub proof fn lemma_reply_in_is(response: Seq<char>, choices: Seq<char>, n: nat)
    ensures
        json_pick(response, "/choices"@) is None ==> reply_in(response) is None && !has_choice(
            response,
        ),
        json_pick(response, "/choices"@) == Some(choices) && json_items(choices) is None
            ==> reply_in(response) is None && !has_choice(response),
        json_pick(response, "/choices"@) == Some(choices) && json_items(choices) == Some(0nat)
            ==> reply_in(response) is None && !has_choice(response),
        json_pick(response, "/choices"@) == Some(choices) && json_items(choices) == Some(n) && n > 0
            ==> has_choice(response) && (json_pick(
            response,
            "/choices/0/message/content"@,
        ) matches Some(content) ==> reply_in(response) == Some(plain_text(content))) && (json_pick(
            response,
            "/choices/0/message/content"@,
        ) is None ==> reply_in(response) is None),
        json_pick(response, seq![]) matches Some(text) ==> document_text(response) == text,
{
}

/// The fwends that can be asked, after the first: each with its own service's models
/// and its own icon.
pub proof fn lemma_catalogue_is(first: ModelView)
    ensures
        catalogue(first).len() == 4,
        catalogue(first)[0] == first,
        catalogue(first)[1].name == "Deepseek"@ && catalogue(first)[1].icon == 1,
        catalogue(first)[1].id == "deepseek/deepseek-v4-flash"@,
        catalogue(first)[1].thinking_id == "deepseek/deepseek-v4-pro"@,
        catalogue(first)[2].name == "Qwen"@ && catalogue(first)[2].icon == 0,
        catalogue(first)[2].id == "qwen/qwen3.6-35b-a3b"@,
        catalogue(first)[2].thinking_id == "qwen/qwen3.7-max"@,
        catalogue(first)[3].name == "Kimi"@ && catalogue(first)[3].icon == 3,
        catalogue(first)[3].id == "moonshotai/kimi-k3"@,
        catalogue(first)[3].thinking_id == catalogue(first)[3].id,
{
}

/// The note on the group names the user as the one whose messages arrive labeled, and
/// the fwend as the one whose label is not to be written.
pub proof fn lemma_group_note_is(name: Seq<char>, user: Seq<char>)
    ensures
        ({
            let note = group_chat_note(name, user);
            let a = "\n\nThis is a group chat: messages from "@;
            let b = " and from other fwends arrive labeled like \""@;
            let c =
                ": ...\" or \"Qwen: ...\". Your own earlier replies are unlabeled. Never start your reply with \""@;
            let n = a.len() as int + user.len() as int;
            let m = n + b.len() as int;
            let k = m + user.len() as int + c.len() as int;
            &&& note.take(a.len() as int) == a
            &&& note.subrange(a.len() as int, n) == user
            &&& note.subrange(n, m) == b
            &&& note.subrange(m, m + user.len() as int) == user
            &&& note.subrange(m + user.len() as int, k) == c
            &&& note.subrange(k, k + name.len() as int) == name
            &&& note.skip(k + name.len() as int) == ":\" — just speak."@
        }),
{
    let note = group_chat_note(name, user);
    let a = "\n\nThis is a group chat: messages from "@;
    let b = " and from other fwends arrive labeled like \""@;
    let c =
        ": ...\" or \"Qwen: ...\". Your own earlier replies are unlabeled. Never start your reply with \""@;
    let n = a.len() as int + user.len() as int;
    let m = n + b.len() as int;
    let k = m + user.len() as int + c.len() as int;
    assert(note.take(a.len() as int) =~= a);
    assert(note.subrange(a.len() as int, n) =~= user);
    assert(note.subrange(n, m) =~= b);
    assert(note.subrange(m, m + user.len() as int) =~= user);
    assert(note.subrange(m + user.len() as int, k) =~= c);
    assert(note.subrange(k, k + name.len() as int) =~= name);
    assert(note.skip(k + name.len() as int) =~= ":\" — just speak."@);
}

/// An empty chat greets with one line of no fwend's.
pub proof fn lemma_greeting_is()
    ensures
        intro_view() == (MessageView::Assistant {
            text: "pick a fwend and say hi"@,
            kind: MessageKind::Intro,
            author: None,
        }),
{
}

} // verus!
