//! A wise model briefs a cheap one, the student, which then does the work: the
//! requests of a turn, what is made of the answers, and the conversation that
//! is kept between turns.
use vstd::prelude::*;

use crate::chars::{
    append_chars, append_str, chars_are, decimal, decimal_chars, digit, from_chars, is_digit,
    join_chars, join_with, lemma_decimal_is, lemma_join_is, parse_unsigned, same_text, starts_with, string_views, to_chars, trim,
    trim_chars, unsigned_value, views,
};
use crate::chat::{any_choice, has_choice, message_json, request_message, routing_list};
use crate::json::{
    array, array_items, array_text, is_string, items_of, json_pick, json_quoted, member,
    member_text, number_value, object, object_text, pick, raw_member, string_at, string_at_pointer,
    text_member, text_view,
};
use crate::now_playing::number_at;
use crate::openrouter::{content_text, fallback, fallback_model, plain_text};
use crate::paths::str_view;
use crate::prompts::{
    BOUNDARY_SYSTEM, CONTEXT_SYSTEM, CONTEXT_TOOLS, SENPAI_SYSTEM, STUDENT_SYSTEM, STUDENT_TOOLS,
    SUMMARIZER_SYSTEM,
};
use crate::readable::{brave_query, clipped, query, truncate};

verus! {

/// The messages that always stay as they are.
pub const RECENT_KEEP: usize = 6;

/// The messages beyond those that lead to some being put away.
pub const COMPACT_TRIGGER: usize = 10;

/// The bounds on how many messages are put away together.
pub const MIN_BLOCK: usize = 2;

pub const MAX_BLOCK: usize = 24;

/// How often the conversation may be looked back into for a note.
pub const CONTEXT_ROUNDS: u8 = 4;

/// How often the student may answer in a turn.
pub const STUDENT_STEPS: u8 = 20;

/// Which models play which role, and how the student is to speak.
pub struct SenpaiConfig {
    pub senpai_model: String,
    pub student_model: String,
    pub persona: Option<String>,
}

impl SenpaiConfig {
    /// The settings for a wise model: the fast preset is its student, and
    /// there is no persona.
    pub fn new(senpai_model: &str) -> (r: Self)
        ensures
            r.senpai_model@ == senpai_model@,
            r.student_model@ == "@preset/fast"@,
            r.persona is None,
    {
        SenpaiConfig {
            senpai_model: senpai_model.to_owned(),
            student_model: "@preset/fast".to_owned(),
            persona: None,
        }
    }
}

/// The options by which a model is told not to reason, or little.
pub open spec fn no_reasoning() -> Seq<char> {
    "{\"enabled\":false,\"exclude\":true}"@
}

pub open spec fn minimal_reasoning() -> Seq<char> {
    "{\"effort\":\"minimal\",\"exclude\":true}"@
}

/// The members of a request, by name; the fallback follows the requested model
/// unless that is the fallback itself.
pub open spec fn request_members(
    model: Seq<char>,
    max_tokens: nat,
    messages: Seq<Seq<char>>,
    reasoning: Seq<char>,
    tools: Option<Seq<char>>,
) -> Seq<Seq<char>> {
    let head = seq![
        member_text("max_tokens"@, decimal(max_tokens)),
        member_text("messages"@, array_text(messages)),
        member_text("model"@, json_quoted(model)),
    ];
    let routed = if model == fallback_model() {
        head
    } else {
        head.push(
            member_text(
                "models"@,
                array_text(seq![json_quoted(model), json_quoted(fallback_model())]),
            ),
        )
    };
    let reasoned = routed.push(member_text("reasoning"@, reasoning));
    match tools {
        Some(tools) => reasoned.push(member_text("tools"@, tools)),
        None => reasoned,
    }
}

pub open spec fn request_text(
    model: Seq<char>,
    max_tokens: nat,
    messages: Seq<Seq<char>>,
    reasoning: Seq<char>,
    tools: Option<Seq<char>>,
) -> Seq<char> {
    object_text(request_members(model, max_tokens, messages, reasoning, tools))
}

fn chars_of(messages: &Vec<String>) -> (r: Vec<Vec<char>>)
    ensures
        views(r@) == string_views(messages@),
{
    let mut out: Vec<Vec<char>> = Vec::new();
    let mut i: usize = 0;
    while i < messages.len()
        invariant
            i <= messages@.len(),
            out@.len() == i,
            forall|j: int| 0 <= j < i ==> (#[trigger] out@[j])@ == messages@[j]@,
        decreases messages@.len() - i,
    {
        out.push(to_chars(messages[i].as_str()));
        i += 1;
    }
    assert(views(out@) =~= string_views(messages@));
    out
}

fn request(
    model: &str,
    max_tokens: u64,
    messages: &Vec<String>,
    reasoning: &str,
    tools: Option<&str>,
) -> (r: String)
    ensures
        r@ == request_text(
            model@,
            max_tokens as nat,
            string_views(messages@),
            reasoning@,
            str_view(tools),
        ),
{
    let pieces = chars_of(messages);
    let list = array(&pieces);
    let tokens = decimal_chars(max_tokens);
    let mut members: Vec<Vec<char>> = Vec::new();
    members.push(member("max_tokens", &tokens));
    members.push(member("messages", &list));
    members.push(text_member("model", model));
    let other = fallback();
    if !same_text(model, other.as_str()) {
        let models = routing_list(model);
        members.push(member("models", &models));
    }
    members.push(raw_member("reasoning", reasoning));
    if let Some(tools) = tools {
        members.push(raw_member("tools", tools));
    }
    assert(views(members@) =~= request_members(
        model@,
        max_tokens as nat,
        string_views(messages@),
        reasoning@,
        str_view(tools),
    ));
    from_chars(&object(&members))
}

/// A note that another model than the requested one answered. A preset stands
/// for any model, so it never gives rise to one.
pub open spec fn served_by_other(requested: Seq<char>, served: Option<Seq<char>>) -> Option<
    Seq<char>,
> {
    match served {
        Some(served) => if served.len() > 0 && served != requested && !starts_with(
            requested,
            seq!['@'],
        ) {
            Some(
                seq!['['] + requested + " unavailable; @preset/free served "@ + served + seq![']'],
            )
        } else {
            None
        },
        None => None,
    }
}

/// The note on who answered, given the name in the answer.
pub fn fallback_note(requested: &str, served: Option<String>) -> (r: Option<String>)
    ensures
        text_view(r) == served_by_other(requested@, text_view(served)),
{
    match served {
        Some(served) => {
            let name = to_chars(requested);
            let other = to_chars(served.as_str());
            let preset = name.len() > 0 && name[0] == '@';
            proof {
                if preset {
                    assert(name@.take(1) =~= seq!['@']);
                } else if starts_with(requested@, seq!['@']) {
                    assert(name@.take(1)[0] == '@');
                }
            }
            if other.len() > 0 && !chars_are(&other, requested) && !preset {
                let mut out: Vec<char> = Vec::new();
                out.push('[');
                append_str(&mut out, requested);
                append_str(&mut out, " unavailable; @preset/free served ");
                append_chars(&mut out, &other);
                out.push(']');
                assert(out@ =~= seq!['['] + requested@ + " unavailable; @preset/free served "@
                    + served@ + seq![']']);
                Some(from_chars(&out))
            } else {
                None
            }
        },
        None => None,
    }
}

/// The note on who gave an answer.
pub fn served_note(requested: &str, response: &str) -> (r: Option<String>)
    ensures
        text_view(r) == served_by_other(requested@, string_at(response@, "/model"@)),
{
    fallback_note(requested, string_at_pointer(response, "/model"))
}

/// A message, with a mark that all up to it may be kept by the provider.
pub open spec fn marked_message(role: Seq<char>, text: Seq<char>) -> Seq<char> {
    object_text(
        seq![
            member_text(
                "content"@,
                array_text(
                    seq![
                        object_text(
                            seq![
                                member_text("cache_control"@, "{\"type\":\"ephemeral\"}"@),
                                member_text("text"@, json_quoted(text)),
                                member_text("type"@, json_quoted("text"@)),
                            ],
                        ),
                    ],
                ),
            ),
            member_text("role"@, json_quoted(role)),
        ],
    )
}

pub open spec fn spoken(role: Seq<char>, text: Seq<char>, cached: bool) -> Seq<char> {
    if cached {
        marked_message(role, text)
    } else {
        request_message(role, text)
    }
}

pub fn text_message(role: &str, text: &str, cached: bool) -> (r: String)
    ensures
        r@ == spoken(role@, text@, cached),
        !cached ==> transcript_line(r@) == said_by(role@, text@),
{
    if !cached {
        return from_chars(&message_json(role, text));
    }
    let mut part: Vec<Vec<char>> = Vec::new();
    part.push(raw_member("cache_control", "{\"type\":\"ephemeral\"}"));
    part.push(text_member("text", text));
    part.push(text_member("type", "text"));
    assert(views(part@) =~= seq![
        member_text("cache_control"@, "{\"type\":\"ephemeral\"}"@),
        member_text("text"@, json_quoted(text@)),
        member_text("type"@, json_quoted("text"@)),
    ]);
    let mut parts: Vec<Vec<char>> = Vec::new();
    parts.push(object(&part));
    assert(views(parts@) =~= seq![object_text(views(part@))]);
    let content = array(&parts);
    let mut members: Vec<Vec<char>> = Vec::new();
    members.push(member("content", &content));
    members.push(text_member("role", role));
    assert(views(members@) =~= seq![
        member_text("content"@, content@),
        member_text("role"@, json_quoted(role@)),
    ]);
    from_chars(&object(&members))
}

/// A string in a message, or what stands for one that is not there.
pub open spec fn string_or(doc: Seq<char>, pointer: Seq<char>, default: Seq<char>) -> Seq<char> {
    match string_at(doc, pointer) {
        Some(text) => text,
        None => default,
    }
}

fn string_or_default(doc: &str, pointer: &str, default: &str) -> (r: String)
    ensures
        r@ == string_or(doc@, pointer@, default@),
{
    match string_at_pointer(doc, pointer) {
        Some(text) => text,
        None => default.to_owned(),
    }
}

/// A speaker and what they said, on a line.
pub open spec fn said_by(role: Seq<char>, text: Seq<char>) -> Seq<char> {
    role + seq![':', ' '] + text
}

/// A message as a line of a transcript.
pub open spec fn transcript_line(message: Seq<char>) -> Seq<char> {
    said_by(string_or(message, "/role"@, "?"@), string_or(message, "/content"@, ""@))
}

fn line_of(message: &str) -> (r: Vec<char>)
    ensures
        r@ == transcript_line(message@),
{
    let role = string_or_default(message, "/role", "?");
    let content = string_or_default(message, "/content", "");
    let mut out: Vec<char> = Vec::new();
    append_str(&mut out, role.as_str());
    out.push(':');
    out.push(' ');
    append_str(&mut out, content.as_str());
    assert(out@ =~= transcript_line(message@));
    out
}

pub open spec fn transcript(messages: Seq<Seq<char>>) -> Seq<char> {
    join_with(Seq::new(messages.len(), |i: int| transcript_line(messages[i])), seq!['\n'])
}

pub fn block_transcript(messages: &Vec<String>) -> (r: String)
    ensures
        r@ == transcript(string_views(messages@)),
{
    let ghost all = string_views(messages@);
    let mut lines: Vec<Vec<char>> = Vec::new();
    let mut i: usize = 0;
    while i < messages.len()
        invariant
            i <= messages@.len(),
            all == string_views(messages@),
            lines@.len() == i,
            forall|j: int| 0 <= j < i ==> (#[trigger] lines@[j])@ == transcript_line(all[j]),
        decreases messages@.len() - i,
    {
        lines.push(line_of(messages[i].as_str()));
        i += 1;
    }
    assert(views(lines@) =~= Seq::new(all.len(), |k: int| transcript_line(all[k])));
    let mut newline: Vec<char> = Vec::new();
    newline.push('\n');
    assert(newline@ =~= seq!['\n']);
    from_chars(&join_chars(&lines, &newline))
}

/// Messages that were put away, and what they were about.
pub struct Block {
    pub summary: String,
    pub messages: Vec<String>,
}

#[verifier::ext_equal]
pub struct BlockView {
    pub summary: Seq<char>,
    pub messages: Seq<Seq<char>>,
}

impl View for Block {
    type V = BlockView;

    open spec fn view(&self) -> BlockView {
        BlockView { summary: self.summary@, messages: string_views(self.messages@) }
    }
}

pub open spec fn block_views(blocks: Seq<Block>) -> Seq<BlockView> {
    Seq::new(blocks.len(), |i: int| blocks[i]@)
}

/// The conversation: blocks that were put away, and the recent messages, each
/// as JSON.
pub struct Chat {
    pub archive: Vec<Block>,
    pub recent: Vec<String>,
}

#[verifier::ext_equal]
pub struct ChatView {
    pub archive: Seq<BlockView>,
    pub recent: Seq<Seq<char>>,
}

impl View for Chat {
    type V = ChatView;

    open spec fn view(&self) -> ChatView {
        ChatView { archive: block_views(self.archive@), recent: string_views(self.recent@) }
    }
}

impl Default for Chat {
    fn default() -> (r: Self)
        ensures
            r@ == (ChatView { archive: Seq::empty(), recent: Seq::empty() }),
    {
        let r = Chat { archive: Vec::new(), recent: Vec::new() };
        assert(r@.archive =~= Seq::empty() && r@.recent =~= Seq::empty());
        r
    }
}

/// Every message of some blocks, in order.
pub open spec fn all_put_away(blocks: Seq<BlockView>) -> Seq<Seq<char>>
    decreases blocks.len(),
{
    if blocks.len() == 0 {
        Seq::empty()
    } else {
        all_put_away(blocks.drop_last()) + blocks.last().messages
    }
}

impl ChatView {
    /// Every message of the conversation, in order.
    pub open spec fn everything(self) -> Seq<Seq<char>> {
        all_put_away(self.archive) + self.recent
    }

    /// Whether messages are to be put away.
    pub open spec fn overflows(self) -> bool {
        self.recent.len() >= RECENT_KEEP + COMPACT_TRIGGER
    }

    /// The conversation once the first `cut` recent messages are put away.
    pub open spec fn put_away(self, cut: int, summary: Seq<char>) -> ChatView {
        ChatView {
            archive: self.archive.push(BlockView { summary, messages: self.recent.take(cut) }),
            recent: self.recent.skip(cut),
        }
    }

    /// The summaries of the blocks.
    pub open spec fn summaries(self) -> Seq<char> {
        "(older conversation, summarized into blocks)\n"@ + join_with(
            Seq::new(self.archive.len(), |i: int| summary_line(i as nat, self.archive[i].summary)),
            seq!['\n'],
        )
    }

    /// The conversation as a model is told it, between a first and a last
    /// message.
    pub open spec fn told(self, first: Seq<char>, last: Seq<char>) -> Seq<Seq<char>> {
        (if self.archive.len() == 0 {
            seq![first]
        } else {
            seq![first, spoken("user"@, self.summaries(), true)]
        }) + self.recent.push(last)
    }
}

pub open spec fn summary_line(id: nat, summary: Seq<char>) -> Seq<char> {
    "[block "@ + decimal(id) + "] "@ + summary
}

/// Where a topic ends, held to the bounds of a block.
pub open spec fn block_size(boundary: int, region: int) -> int {
    let most = if region < MAX_BLOCK {
        region
    } else {
        MAX_BLOCK as int
    };
    if boundary < MIN_BLOCK {
        MIN_BLOCK as int
    } else if boundary > most {
        most
    } else {
        boundary
    }
}

/// Putting messages away loses none and keeps their order; it leaves the
/// recent ones that always stay, and makes blocks of a size within bounds.
pub proof fn lemma_nothing_is_lost(chat: ChatView, boundary: int, summary: Seq<char>)
    requires
        chat.overflows(),
    ensures
        ({
            let cut = block_size(boundary, chat.recent.len() - RECENT_KEEP);
            let after = chat.put_away(cut, summary);
            &&& after.everything() == chat.everything()
            &&& after.recent.len() >= RECENT_KEEP
            &&& after.recent.len() < chat.recent.len()
            &&& MIN_BLOCK <= after.archive.last().messages.len() <= MAX_BLOCK
            &&& after.archive.drop_last() == chat.archive
        }),
{
    let cut = block_size(boundary, chat.recent.len() - RECENT_KEEP);
    let after = chat.put_away(cut, summary);
    assert(after.archive.drop_last() =~= chat.archive);
    assert(after.everything() =~= chat.everything());
}

/// The digits of a text.
pub open spec fn digits_of(text: Seq<char>) -> Seq<char>
    decreases text.len(),
{
    if text.len() == 0 {
        Seq::empty()
    } else if digit(text.last()) {
        digits_of(text.drop_last()).push(text.last())
    } else {
        digits_of(text.drop_last())
    }
}

/// The number that a model answered for where a topic ends; eight when it
/// answered none.
pub open spec fn boundary_in(answer: Option<Seq<char>>) -> nat {
    match answer {
        Some(text) => match unsigned_value(digits_of(text), usize::MAX as nat) {
            Some(n) => n,
            None => 8,
        },
        None => 8,
    }
}

pub fn boundary_from(answer: Option<&str>) -> (r: usize)
    ensures
        r == boundary_in(str_view(answer)),
{
    match answer {
        Some(text) => {
            let chars = to_chars(text);
            let mut digits: Vec<char> = Vec::new();
            let mut i: usize = 0;
            assert(text@.take(0) =~= Seq::empty());
            while i < chars.len()
                invariant
                    i <= chars@.len(),
                    chars@ == text@,
                    digits@ == digits_of(text@.take(i as int)),
                decreases chars@.len() - i,
            {
                assert(text@.take(i + 1).drop_last() =~= text@.take(i as int));
                if is_digit(chars[i]) {
                    digits.push(chars[i]);
                }
                i += 1;
            }
            assert(text@.take(text@.len() as int) =~= text@);
            match parse_unsigned(&digits, usize::MAX as u64) {
                Some(n) => n as usize,
                None => 8,
            }
        },
        None => 8,
    }
}

/// A numbered line of a transcript.
pub open spec fn numbered_line(i: nat, message: Seq<char>) -> Seq<char> {
    decimal(i) + seq![' '] + transcript_line(message) + seq!['\n']
}

pub open spec fn numbered(messages: Seq<Seq<char>>) -> Seq<char>
    decreases messages.len(),
{
    if messages.len() == 0 {
        Seq::empty()
    } else {
        numbered(messages.drop_last()) + numbered_line(
            (messages.len() - 1) as nat,
            messages.last(),
        )
    }
}

fn two_messages(system: &str, user: &str) -> (r: Vec<String>)
    ensures
        string_views(r@) == seq![
            request_message("system"@, system@),
            request_message("user"@, user@),
        ],
{
    let mut out: Vec<String> = Vec::new();
    out.push(text_message("system", system, false));
    out.push(text_message("user", user, false));
    assert(string_views(out@) =~= seq![
        request_message("system"@, system@),
        request_message("user"@, user@),
    ]);
    out
}

/// The first of an answer's choices, as JSON.
pub open spec fn choice_of(response: Seq<char>) -> Seq<char> {
    if has_choice(response) {
        match json_pick(response, "/choices/0"@) {
            Some(choice) => choice,
            None => "null"@,
        }
    } else {
        "null"@
    }
}

pub fn choice(response: &str) -> (r: String)
    ensures
        r@ == choice_of(response@),
{
    if any_choice(response) {
        match pick(response, "/choices/0") {
            Some(choice) => choice,
            None => "null".to_owned(),
        }
    } else {
        "null".to_owned()
    }
}

/// The note on an answer without a choice, which tells of an error.
pub open spec fn noted_error(response: Seq<char>) -> Option<Seq<char>> {
    if choice_of(response) == "null"@ {
        Some("[api error: "@ + string_or(response, "/error/message"@, "unknown"@) + "]"@)
    } else {
        None
    }
}

pub fn error_note(response: &str) -> (r: Option<String>)
    ensures
        text_view(r) == noted_error(response@),
{
    if !same_text(choice(response).as_str(), "null") {
        return None;
    }
    let message = string_or_default(response, "/error/message", "unknown");
    let mut out: Vec<char> = Vec::new();
    append_str(&mut out, "[api error: ");
    append_str(&mut out, message.as_str());
    append_str(&mut out, "]");
    assert(out@ =~= noted_error(response@)->0);
    Some(from_chars(&out))
}

/// The string that an answer's message is, if it is one.
pub open spec fn answered(response: Option<Seq<char>>) -> Option<Seq<char>> {
    match response {
        Some(response) => string_at(choice_of(response), "/message/content"@),
        None => None,
    }
}

fn answer_string(response: Option<&str>) -> (r: Option<String>)
    ensures
        text_view(r) == answered(str_view(response)),
{
    match response {
        Some(response) => {
            let choice = choice(response);
            string_at_pointer(choice.as_str(), "/message/content")
        },
        None => None,
    }
}

/// A summary, or what stands for one that did not come.
pub open spec fn summary_in(answer: Option<Seq<char>>) -> Seq<char> {
    match answer {
        Some(text) => if trim(text).len() > 0 {
            trim(text)
        } else {
            "(summary unavailable)"@
        },
        None => "(summary unavailable)"@,
    }
}

pub fn summary_from(answer: Option<&str>) -> (r: String)
    ensures
        r@ == summary_in(str_view(answer)),
{
    if let Some(text) = answer {
        let chars = to_chars(text);
        let line = trim_chars(&chars);
        if line.len() > 0 {
            return from_chars(line);
        }
    }
    "(summary unavailable)".to_owned()
}

/// What asks for a summary.
pub open spec fn asks_for_summary(student_model: &str, messages: &Vec<String>, r: String) -> bool {
    r@ == request_text(
        student_model@,
        80,
        seq![
            request_message("system"@, SUMMARIZER_SYSTEM@),
            request_message("user"@, transcript(string_views(messages@))),
        ],
        no_reasoning(),
        None,
    )
}

/// The request for a summary of messages.
pub fn summary_request(student_model: &str, messages: &Vec<String>) -> (r: String)
    ensures
        asks_for_summary(student_model, messages, r),
{
    let text = block_transcript(messages);
    let pair = two_messages(SUMMARIZER_SYSTEM, text.as_str());
    request(student_model, 80, &pair, "{\"enabled\":false,\"exclude\":true}", None)
}

impl Chat {
    pub fn overflows(&self) -> (r: bool)
        ensures
            r == self@.overflows(),
    {
        assert(string_views(self.recent@).len() == self.recent@.len());
        self.recent.len() >= RECENT_KEEP + COMPACT_TRIGGER
    }

    /// What asks where the first topic ends.
    pub open spec fn asks_for_boundary(&self, student_model: &str, r: String) -> bool {
        r@ == request_text(
            student_model@,
            600,
            seq![
                request_message("system"@, BOUNDARY_SYSTEM@),
                request_message(
                    "user"@,
                    numbered(self@.recent.take(self@.recent.len() - RECENT_KEEP)),
                ),
            ],
            minimal_reasoning(),
            None,
        )
    }

    /// The request for where the first topic of the older messages ends.
    pub fn boundary_request(&self, student_model: &str) -> (r: String)
        requires
            self@.overflows(),
        ensures
            self.asks_for_boundary(student_model, r),
    {
        let ghost all = string_views(self.recent@);
        assert(all.len() == self.recent@.len());
        let region: usize = self.recent.len() - RECENT_KEEP;
        let mut out: Vec<char> = Vec::new();
        let mut i: usize = 0;
        assert(all.take(0) =~= Seq::empty());
        while i < region
            invariant
                i <= region,
                region <= self.recent@.len(),
                all == string_views(self.recent@),
                out@ == numbered(all.take(i as int)),
            decreases region - i,
        {
            let ghost before = out@;
            let number = decimal_chars(i as u64);
            append_chars(&mut out, &number);
            out.push(' ');
            let line = line_of(self.recent[i].as_str());
            append_chars(&mut out, &line);
            out.push('\n');
            assert(all.take(i + 1).drop_last() =~= all.take(i as int));
            assert(all.take(i + 1).last() == all[i as int]);
            assert(out@ =~= before + numbered_line(i as nat, all[i as int]));
            i += 1;
        }
        let text = from_chars(&out);
        let pair = two_messages(BOUNDARY_SYSTEM, text.as_str());
        request(student_model, 600, &pair, "{\"effort\":\"minimal\",\"exclude\":true}", None)
    }

    /// What taking a block out leads to.
    pub open spec fn block_taken(
        &self,
        response: Option<&str>,
        after: &Self,
        r: Vec<String>,
    ) -> bool {
        let cut = block_size(
            boundary_in(answered(str_view(response))) as int,
            self@.recent.len() - RECENT_KEEP,
        );
        &&& string_views(r@) == self@.recent.take(cut)
        &&& after@.recent == self@.recent.skip(cut)
        &&& after@.archive == self@.archive
    }

    /// Takes the messages of the first topic out of the recent ones, given
    /// the answer on where it ends. Their summary is still to come.
    pub fn take_block(&mut self, response: Option<&str>) -> (r: Vec<String>)
        requires
            old(self)@.overflows(),
        ensures
            old(self).block_taken(response, final(self), r),
    {
        let answer = answer_string(response);
        let boundary: usize = match &answer {
            Some(text) => boundary_from(Some(text.as_str())),
            None => boundary_from(None),
        };
        self.cut_block(boundary)
    }

    /// What cutting a block off leads to.
    pub open spec fn cut_leads_to(&self, boundary: usize, after: &Self, r: Vec<String>) -> bool {
        let cut = block_size(boundary as int, self@.recent.len() - RECENT_KEEP);
        &&& string_views(r@) == self@.recent.take(cut)
        &&& after@.recent == self@.recent.skip(cut)
        &&& after@.archive == self@.archive
    }

    /// Takes the first messages out of the recent ones, as many as a topic
    /// has within the bounds of a block.
    pub fn cut_block(&mut self, boundary: usize) -> (r: Vec<String>)
        requires
            old(self)@.overflows(),
        ensures
            old(self).cut_leads_to(boundary, final(self), r),
    {
        let ghost all = self.recent@;
        assert(string_views(all).len() == all.len());
        let region: usize = self.recent.len() - RECENT_KEEP;
        let most: usize = if region < MAX_BLOCK {
            region
        } else {
            MAX_BLOCK
        };
        let cut: usize = if boundary < MIN_BLOCK {
            MIN_BLOCK
        } else if boundary > most {
            most
        } else {
            boundary
        };
        let rest = self.recent.split_off(cut);
        let mut taken = rest;
        std::mem::swap(&mut taken, &mut self.recent);
        assert(string_views(taken@) =~= string_views(all).take(cut as int));
        assert(string_views(self.recent@) =~= string_views(all).skip(cut as int));
        taken
    }

    /// What putting a block away leads to.
    pub open spec fn block_put_away(
        &self,
        messages: Vec<String>,
        response: Option<&str>,
        after: &Self,
    ) -> bool {
        &&& after@.recent == self@.recent
        &&& after@.archive == self@.archive.push(
            BlockView {
                summary: summary_in(answered(str_view(response))),
                messages: string_views(messages@),
            },
        )
    }

    /// Puts messages away under the summary that was answered for them.
    pub fn archive_block(&mut self, messages: Vec<String>, response: Option<&str>)
        ensures
            old(self).block_put_away(messages, response, final(self)),
    {
        let answer = answer_string(response);
        let summary = match &answer {
            Some(text) => summary_from(Some(text.as_str())),
            None => summary_from(None),
        };
        let ghost before = self.archive@;
        self.archive.push(Block { summary, messages });
        assert(block_views(self.archive@) =~= block_views(before).push(self.archive@.last()@));
    }

    /// The text of a block, or that there is none.
    pub open spec fn block_text(&self, id: nat) -> Seq<char> {
        if id < self@.archive.len() {
            transcript(self@.archive[id as int].messages)
        } else {
            "no such block: "@ + decimal(id)
        }
    }

    pub fn read_block(&self, id: u64) -> (r: String)
        ensures
            r@ == self.block_text(id as nat),
    {
        assert(block_views(self.archive@).len() == self.archive@.len());
        if id < self.archive.len() as u64 {
            assert(self@.archive[id as int] == self.archive@[id as int]@);
            block_transcript(&self.archive[id as usize].messages)
        } else {
            let digits = decimal_chars(id);
            let mut out: Vec<char> = Vec::new();
            append_str(&mut out, "no such block: ");
            append_chars(&mut out, &digits);
            assert(out@ =~= "no such block: "@ + decimal(id as nat));
            from_chars(&out)
        }
    }

    /// The message that lists the summaries, if there are any.
    pub fn summaries_message(&self) -> (r: Option<String>)
        ensures
            text_view(r) == (if self@.archive.len() == 0 {
                None
            } else {
                Some(spoken("user"@, self@.summaries(), true))
            }),
    {
        let ghost blocks = self@.archive;
        assert(blocks.len() == self.archive@.len());
        if self.archive.len() == 0 {
            return None;
        }
        let mut lines: Vec<Vec<char>> = Vec::new();
        let mut i: usize = 0;
        while i < self.archive.len()
            invariant
                i <= self.archive@.len(),
                blocks == self@.archive,
                lines@.len() == i,
                forall|j: int|
                    0 <= j < i ==> (#[trigger] lines@[j])@ == summary_line(
                        j as nat,
                        blocks[j].summary,
                    ),
            decreases self.archive@.len() - i,
        {
            let digits = decimal_chars(i as u64);
            let mut line: Vec<char> = Vec::new();
            append_str(&mut line, "[block ");
            append_chars(&mut line, &digits);
            append_str(&mut line, "] ");
            append_str(&mut line, self.archive[i].summary.as_str());
            assert(line@ =~= summary_line(i as nat, blocks[i as int].summary));
            lines.push(line);
            i += 1;
        }
        let mut newline: Vec<char> = Vec::new();
        newline.push('\n');
        assert(newline@ =~= seq!['\n']);
        assert(views(lines@) =~= Seq::new(
            blocks.len(),
            |k: int| summary_line(k as nat, blocks[k].summary),
        ));
        let list = join_chars(&lines, &newline);
        let mut out: Vec<char> = Vec::new();
        append_str(&mut out, "(older conversation, summarized into blocks)\n");
        append_chars(&mut out, &list);
        assert(out@ =~= self@.summaries());
        let text = from_chars(&out);
        Some(text_message("user", text.as_str(), true))
    }

    fn tell(&self, first: String, last: String) -> (r: Vec<String>)
        ensures
            string_views(r@) == self@.told(first@, last@),
    {
        let mut out: Vec<String> = Vec::new();
        out.push(first);
        if let Some(summaries) = self.summaries_message() {
            out.push(summaries);
        }
        let ghost head = string_views(out@);
        let ghost recent = string_views(self.recent@);
        let mut i: usize = 0;
        assert(recent.take(0) =~= Seq::empty());
        while i < self.recent.len()
            invariant
                i <= self.recent@.len(),
                recent == string_views(self.recent@),
                string_views(out@) =~= head + recent.take(i as int),
            decreases self.recent@.len() - i,
        {
            let ghost before = out@;
            out.push(self.recent[i].as_str().to_owned());
            assert(string_views(out@) =~= string_views(before).push(recent[i as int]));
            i += 1;
        }
        let ghost before = out@;
        out.push(last);
        assert(string_views(out@) =~= string_views(before).push(last@));
        assert(string_views(out@) =~= self@.told(first@, last@));
        out
    }

    /// What an exchange leads to.
    pub open spec fn exchange_leads_to(
        &self,
        user_message: &str,
        reply: &str,
        after: &Self,
    ) -> bool {
        &&& after@.archive == self@.archive
        &&& after@.recent == self@.recent.push(
            request_message("user"@, user_message@),
        ).push(request_message("assistant"@, reply@))
        &&& transcript_line(request_message("user"@, user_message@)) == said_by(
            "user"@,
            user_message@,
        )
        &&& transcript_line(request_message("assistant"@, reply@)) == said_by(
            "assistant"@,
            reply@,
        )
    }

    /// Adds an exchange to the conversation. A transcript shows it word for
    /// word.
    pub fn add_exchange(&mut self, user_message: &str, reply: &str)
        ensures
            old(self).exchange_leads_to(user_message, reply, final(self)),
    {
        let ghost before = self.recent@;
        self.recent.push(text_message("user", user_message, false));
        self.recent.push(text_message("assistant", reply, false));
        assert(string_views(self.recent@) =~= string_views(before).push(
            request_message("user"@, user_message@),
        ).push(request_message("assistant"@, reply@)));
    }
}

/// What the wise model is told: the message, and a note if there is one.
pub open spec fn briefed(user_message: Seq<char>, context: Option<Seq<char>>) -> Seq<char> {
    match context {
        Some(context) => user_message + "\n\nRELEVANT CONTEXT (from earlier conversation):\n"@
            + context,
        None => user_message,
    }
}

/// The request for the briefing.
pub fn briefing_request(config: &SenpaiConfig, user_message: &str, context: Option<&str>) -> (r:
    String)
    ensures
        r@ == request_text(
            config.senpai_model@,
            150,
            seq![
                request_message("system"@, SENPAI_SYSTEM@),
                request_message("user"@, briefed(user_message@, str_view(context))),
            ],
            no_reasoning(),
            None,
        ),
{
    let mut out: Vec<char> = Vec::new();
    append_str(&mut out, user_message);
    if let Some(context) = context {
        append_str(&mut out, "\n\nRELEVANT CONTEXT (from earlier conversation):\n");
        append_str(&mut out, context);
    }
    assert(out@ =~= briefed(user_message@, str_view(context)));
    let text = from_chars(&out);
    let pair = two_messages(SENPAI_SYSTEM, text.as_str());
    request(
        config.senpai_model.as_str(),
        150,
        &pair,
        "{\"enabled\":false,\"exclude\":true}",
        None,
    )
}

/// The plain text of an answer's message.
pub open spec fn message_text(message: Seq<char>) -> Seq<char> {
    match json_pick(message, "/content"@) {
        Some(content) => plain_text(content),
        None => plain_text("null"@),
    }
}

fn text_of_message(message: &str) -> (r: String)
    ensures
        r@ == message_text(message@),
{
    match pick(message, "/content") {
        Some(content) => content_text(content.as_str()),
        None => content_text("null"),
    }
}

/// The message of an answer's choice.
pub open spec fn message_of(choice: Seq<char>) -> Seq<char> {
    match json_pick(choice, "/message"@) {
        Some(message) => message,
        None => "null"@,
    }
}

fn message_in_choice(choice: &str) -> (r: String)
    ensures
        r@ == message_of(choice@),
{
    match pick(choice, "/message") {
        Some(message) => message,
        None => "null".to_owned(),
    }
}

/// A briefing's text, or what stands for one that did not come.
pub open spec fn briefing_in(text: Option<Seq<char>>) -> Seq<char> {
    match text {
        Some(text) => if trim(text).len() > 0 {
            trim(text)
        } else {
            "(senpai unavailable; proceed with your own judgement)"@
        },
        None => "(senpai unavailable; proceed with your own judgement)"@,
    }
}

pub fn briefing_from(text: Option<&str>) -> (r: String)
    ensures
        r@ == briefing_in(str_view(text)),
{
    if let Some(text) = text {
        let chars = to_chars(text);
        let line = trim_chars(&chars);
        if line.len() > 0 {
            return from_chars(line);
        }
    }
    "(senpai unavailable; proceed with your own judgement)".to_owned()
}

pub open spec fn response_text(response: Option<Seq<char>>) -> Option<Seq<char>> {
    match response {
        Some(response) => Some(message_text(message_of(choice_of(response)))),
        None => None,
    }
}

/// The briefing in an answer, if one came.
pub fn read_briefing(response: Option<&str>) -> (r: String)
    ensures
        r@ == briefing_in(response_text(str_view(response))),
{
    match response {
        Some(response) => {
            let choice = choice(response);
            let message = message_in_choice(choice.as_str());
            let text = text_of_message(message.as_str());
            briefing_from(Some(text.as_str()))
        },
        None => briefing_from(None),
    }
}

/// What a model wants done.
pub enum Tool {
    Python(String),
    Wolfram(String),
    WebQa(String),
    Fetch(String),
    ReadBlock(u64),
    Unknown,
}

#[verifier::ext_equal]
pub enum ToolView {
    Python(Seq<char>),
    Wolfram(Seq<char>),
    WebQa(Seq<char>),
    Fetch(Seq<char>),
    ReadBlock(u64),
    Unknown,
}

impl View for Tool {
    type V = ToolView;

    open spec fn view(&self) -> ToolView {
        match *self {
            Tool::Python(code) => ToolView::Python(code@),
            Tool::Wolfram(code) => ToolView::Wolfram(code@),
            Tool::WebQa(question) => ToolView::WebQa(question@),
            Tool::Fetch(url) => ToolView::Fetch(url@),
            Tool::ReadBlock(id) => ToolView::ReadBlock(id),
            Tool::Unknown => ToolView::Unknown,
        }
    }
}

/// The tool that a name and arguments ask for.
pub open spec fn tool_named(name: Seq<char>, arguments: Seq<char>) -> ToolView {
    if name == "run_python"@ {
        ToolView::Python(string_or(arguments, "/code"@, ""@))
    } else if name == "wolframscript"@ {
        ToolView::Wolfram(string_or(arguments, "/code"@, ""@))
    } else if name == "web_qa"@ {
        ToolView::WebQa(string_or(arguments, "/question"@, ""@))
    } else if name == "fetch_url"@ {
        ToolView::Fetch(string_or(arguments, "/url"@, ""@))
    } else if name == "read_block"@ {
        ToolView::ReadBlock(block_id(arguments))
    } else {
        ToolView::Unknown
    }
}

/// The block that arguments ask for; one that there is not when they ask for
/// none.
pub open spec fn block_id(arguments: Seq<char>) -> u64 {
    match number_at(arguments, "/id"@) {
        Some(id) => id,
        None => u64::MAX,
    }
}

pub open spec fn arguments_of(call: Seq<char>) -> Seq<char> {
    string_or(call, "/function/arguments"@, "{}"@)
}

pub open spec fn call_name(call: Seq<char>) -> Seq<char> {
    string_or(call, "/function/name"@, ""@)
}

pub open spec fn call_id(call: Seq<char>) -> Seq<char> {
    match json_pick(call, "/id"@) {
        Some(id) => id,
        None => "null"@,
    }
}

fn block_id_in(arguments: &str) -> (r: u64)
    ensures
        r == block_id(arguments@),
{
    match pick(arguments, "/id") {
        Some(id) => match number_value(id.as_str()) {
            Some(n) => n,
            None => u64::MAX,
        },
        None => u64::MAX,
    }
}

fn id_in_call(call: &str) -> (r: String)
    ensures
        r@ == call_id(call@),
{
    match pick(call, "/id") {
        Some(id) => id,
        None => "null".to_owned(),
    }
}

/// The tool for a name and arguments in JSON.
pub fn tool_for(name: &str, arguments: &str) -> (r: Tool)
    ensures
        r@ == tool_named(name@, arguments@),
{
    if same_text(name, "run_python") {
        Tool::Python(string_or_default(arguments, "/code", ""))
    } else if same_text(name, "wolframscript") {
        Tool::Wolfram(string_or_default(arguments, "/code", ""))
    } else if same_text(name, "web_qa") {
        Tool::WebQa(string_or_default(arguments, "/question", ""))
    } else if same_text(name, "fetch_url") {
        Tool::Fetch(string_or_default(arguments, "/url", ""))
    } else if same_text(name, "read_block") {
        Tool::ReadBlock(block_id_in(arguments))
    } else {
        Tool::Unknown
    }
}

/// A call of a tool: the call's id as JSON, and the tool.
pub struct ToolCall {
    pub id: String,
    pub tool: Tool,
}

pub open spec fn call_views(calls: Seq<ToolCall>) -> Seq<(Seq<char>, ToolView)> {
    Seq::new(calls.len(), |i: int| (calls[i].id@, calls[i].tool@))
}

/// The calls in a message, as JSON.
pub open spec fn calls_in(message: Seq<char>) -> Seq<Seq<char>> {
    match json_pick(message, "/tool_calls"@) {
        Some(calls) => items_of(calls),
        None => Seq::empty(),
    }
}

fn calls_of(message: &str) -> (r: Vec<String>)
    ensures
        string_views(r@) == calls_in(message@),
{
    match pick(message, "/tool_calls") {
        Some(calls) => array_items(calls.as_str()),
        None => {
            let none: Vec<String> = Vec::new();
            assert(string_views(none@) =~= Seq::empty());
            none
        },
    }
}

pub open spec fn wanted(calls: Seq<Seq<char>>) -> Seq<(Seq<char>, ToolView)> {
    Seq::new(
        calls.len(),
        |i: int| (call_id(calls[i]), tool_named(call_name(calls[i]), arguments_of(calls[i]))),
    )
}

/// What a tool brought, as a message.
pub open spec fn tool_message(id: Seq<char>, result: Seq<char>) -> Seq<char> {
    object_text(
        seq![
            member_text("content"@, json_quoted(result)),
            member_text("role"@, json_quoted("tool"@)),
            member_text("tool_call_id"@, id),
        ],
    )
}

fn tool_answer(id: &str, result: &str) -> (r: String)
    ensures
        r@ == tool_message(id@, result@),
{
    let mut members: Vec<Vec<char>> = Vec::new();
    members.push(text_member("content", result));
    members.push(text_member("role", "tool"));
    members.push(raw_member("tool_call_id", id));
    assert(views(members@) =~= seq![
        member_text("content"@, json_quoted(result@)),
        member_text("role"@, json_quoted("tool"@)),
        member_text("tool_call_id"@, id@),
    ]);
    from_chars(&object(&members))
}

/// Whether a choice asks for tools.
pub open spec fn asks_for_tools(choice: Seq<char>) -> bool {
    string_at(choice, "/finish_reason"@) == Some("tool_calls"@)
}

/// A note on the conversation, unless there is nothing to note.
pub open spec fn note_in(text: Seq<char>) -> Option<Seq<char>> {
    if trim(text).len() == 0 || trim(text) == "NONE"@ {
        None
    } else {
        Some(trim(text))
    }
}

pub fn note_from(text: &str) -> (r: Option<String>)
    ensures
        text_view(r) == note_in(text@),
{
    let chars = to_chars(text);
    let note = trim_chars(&chars);
    if note.len() == 0 || chars_are(note, "NONE") {
        None
    } else {
        Some(from_chars(note))
    }
}

/// The look back into the conversation for what matters now.
pub struct ContextPass {
    pub messages: Vec<String>,
    pub rounds: u8,
}

/// How the look back goes on.
pub enum ContextStep {
    Again,
    Done(Option<String>),
}

/// What the calls for blocks bring, as messages.
pub open spec fn blocks_read(chat: &Chat, calls: Seq<Seq<char>>) -> Seq<Seq<char>> {
    Seq::new(
        calls.len(),
        |i: int|
            tool_message(
                call_id(calls[i]),
                chat.block_text(block_id(arguments_of(calls[i])) as nat),
            ),
    )
}

impl ContextPass {
    /// How looking back begins.
    pub open spec fn begins(chat: &Chat, user_message: &str, r: Option<Self>) -> bool {
        match r {
            Some(pass) => {
                &&& chat@.archive.len() > 0 || chat@.recent.len() > 0
                &&& string_views(pass.messages@) == chat@.told(
                    spoken("system"@, CONTEXT_SYSTEM@, true),
                    spoken("user"@, user_message@, true),
                )
                &&& pass.rounds == 0
            },
            None => chat@.archive.len() == 0 && chat@.recent.len() == 0,
        }
    }

    /// Begins to look back; not when there is nothing to look back on.
    pub fn start(chat: &Chat, user_message: &str) -> (r: Option<Self>)
        ensures
            Self::begins(chat, user_message, r),
    {
        assert(chat@.archive.len() == chat.archive@.len());
        assert(chat@.recent.len() == chat.recent@.len());
        if chat.archive.len() == 0 && chat.recent.len() == 0 {
            return None;
        }
        let first = text_message("system", CONTEXT_SYSTEM, true);
        let last = text_message("user", user_message, true);
        Some(ContextPass { messages: chat.tell(first, last), rounds: 0 })
    }

    /// What a round of looking back asks.
    pub open spec fn asks(&self, config: &SenpaiConfig, chat: &Chat, r: String) -> bool {
        r@ == request_text(
            config.student_model@,
            100,
            string_views(self.messages@),
            no_reasoning(),
            if chat@.archive.len() == 0 {
                None
            } else {
                Some(CONTEXT_TOOLS@)
            },
        )
    }

    /// The request of a round. Without blocks there is no tool to read them.
    pub fn request(&self, config: &SenpaiConfig, chat: &Chat) -> (r: String)
        ensures
            self.asks(config, chat, r),
    {
        assert(chat@.archive.len() == chat.archive@.len());
        let tools: Option<&str> = if chat.archive.len() == 0 {
            None
        } else {
            Some(CONTEXT_TOOLS)
        };
        request(
            config.student_model.as_str(),
            100,
            &self.messages,
            "{\"enabled\":false,\"exclude\":true}",
            tools,
        )
    }

    /// How looking back goes on.
    pub open spec fn goes_on(
        &self,
        chat: &Chat,
        response: Option<&str>,
        after: &Self,
        r: ContextStep,
    ) -> bool {
        match response {
            None => (r matches ContextStep::Done(note) && note is None) && *after
                == *self,
            Some(response) => {
                let choice = choice_of(response@);
                let message = message_of(choice);
                if asks_for_tools(choice) {
                    &&& string_views(after.messages@) == string_views(
                        self.messages@,
                    ).push(message) + blocks_read(chat, calls_in(message))
                    &&& after.rounds == self.rounds + 1
                    &&& if after.rounds < CONTEXT_ROUNDS {
                        r is Again
                    } else {
                        r matches ContextStep::Done(note) && note is None
                    }
                } else {
                    &&& *after == *self
                    &&& r matches ContextStep::Done(note)
                    &&& text_view(note) == note_in(message_text(message))
                }
            },
        }
    }

    /// Goes on after an answer, or after none came.
    pub fn advance(&mut self, chat: &Chat, response: Option<&str>) -> (r: ContextStep)
        requires
            old(self).rounds < CONTEXT_ROUNDS,
        ensures
            old(self).goes_on(chat, response, final(self), r),
    {
        match response {
            None => ContextStep::Done(None),
            Some(response) => {
                let choice = choice(response);
                let message = message_in_choice(choice.as_str());
                if is_string(choice.as_str(), "/finish_reason", "tool_calls") {
                    let calls = calls_of(message.as_str());
                    let ghost asked = string_views(calls@);
                    let ghost start = self.messages@;
                    let ghost said = message@;
                    self.messages.push(message);
                    assert(string_views(self.messages@) =~= string_views(start).push(said));
                    let ghost head = string_views(self.messages@);
                    let mut i: usize = 0;
                    assert(head + blocks_read(chat, asked).take(0) =~= head);
                    while i < calls.len()
                        invariant
                            i <= calls@.len(),
                            asked == string_views(calls@),
                            self.rounds == old(self).rounds,
                            string_views(self.messages@) =~= head + blocks_read(chat, asked).take(
                                i as int,
                            ),
                        decreases calls@.len() - i,
                    {
                        let call = calls[i].as_str();
                        let arguments = string_or_default(call, "/function/arguments", "{}");
                        let id = id_in_call(call);
                        let text = chat.read_block(block_id_in(arguments.as_str()));
                        let answer = tool_answer(id.as_str(), text.as_str());
                        assert(answer@ == blocks_read(chat, asked)[i as int]);
                        let ghost before = self.messages@;
                        self.messages.push(answer);
                        assert(string_views(self.messages@) =~= string_views(before).push(
                            answer@,
                        ));
                        i += 1;
                    }
                    assert(blocks_read(chat, asked).take(asked.len() as int) =~= blocks_read(
                        chat,
                        asked,
                    ));
                    self.rounds = self.rounds + 1;
                    if self.rounds < CONTEXT_ROUNDS {
                        ContextStep::Again
                    } else {
                        ContextStep::Done(None)
                    }
                } else {
                    let text = text_of_message(message.as_str());
                    ContextStep::Done(note_from(text.as_str()))
                }
            },
        }
    }
}

/// The day for the student, or that it is not known.
pub open spec fn day_in(output: Option<Seq<char>>) -> Seq<char> {
    match output {
        Some(text) => if trim(text).len() > 0 {
            trim(text)
        } else {
            "unknown"@
        },
        None => "unknown"@,
    }
}

pub fn today_from(output: Option<&str>) -> (r: String)
    ensures
        r@ == day_in(str_view(output)),
{
    if let Some(text) = output {
        let chars = to_chars(text);
        let day = trim_chars(&chars);
        if day.len() > 0 {
            return from_chars(day);
        }
    }
    "unknown".to_owned()
}

/// What the student is told first.
pub open spec fn student_prompt(today: Seq<char>, persona: Option<Seq<char>>) -> Seq<char> {
    let prompt = STUDENT_SYSTEM@ + "\nToday's date is "@ + today + "."@;
    match persona {
        Some(persona) => prompt + "\n\nPERSONA (speak as this):\n"@ + persona,
        None => prompt,
    }
}

pub fn student_system(config: &SenpaiConfig, today: &str) -> (r: String)
    ensures
        r@ == student_prompt(today@, text_view(config.persona)),
{
    let mut out: Vec<char> = Vec::new();
    append_str(&mut out, STUDENT_SYSTEM);
    append_str(&mut out, "\nToday's date is ");
    append_str(&mut out, today);
    append_str(&mut out, ".");
    if let Some(persona) = &config.persona {
        append_str(&mut out, "\n\nPERSONA (speak as this):\n");
        append_str(&mut out, persona.as_str());
    }
    assert(out@ =~= student_prompt(today@, text_view(config.persona)));
    from_chars(&out)
}

/// The message with its private briefing.
pub open spec fn with_briefing(user_message: Seq<char>, briefing: Seq<char>) -> Seq<char> {
    "USER MESSAGE: "@ + user_message + "\n\nSENPAI BRIEFING (private):\n"@ + briefing
}

/// The student's work on one message.
pub struct Turn {
    pub messages: Vec<String>,
    pub steps: u8,
}

/// How a turn goes on.
pub enum TurnStep {
    /// Tools are to be used first.
    UseTools(Vec<ToolCall>),
    Reply(String),
    Failed(String),
}

impl Turn {
    /// How a turn begins.
    pub open spec fn begins(
        config: &SenpaiConfig,
        chat: &Chat,
        user_message: &str,
        briefing: &str,
        today: &str,
        r: Self,
    ) -> bool {
        &&& r.steps == 0
        &&& string_views(r.messages@) == chat@.told(
            spoken(
                "system"@,
                student_prompt(today@, text_view(config.persona)),
                chat@.archive.len() > 0 || chat@.recent.len() > 0,
            ),
            request_message("user"@, with_briefing(user_message@, briefing@)),
        )
    }

    pub fn start(
        config: &SenpaiConfig,
        chat: &Chat,
        user_message: &str,
        briefing: &str,
        today: &str,
    ) -> (r: Self)
        ensures
            Self::begins(config, chat, user_message, briefing, today, r),
    {
        assert(chat@.archive.len() == chat.archive@.len());
        assert(chat@.recent.len() == chat.recent@.len());
        let cached = chat.archive.len() > 0 || chat.recent.len() > 0;
        let system = student_system(config, today);
        let first = text_message("system", system.as_str(), cached);
        let mut out: Vec<char> = Vec::new();
        append_str(&mut out, "USER MESSAGE: ");
        append_str(&mut out, user_message);
        append_str(&mut out, "\n\nSENPAI BRIEFING (private):\n");
        append_str(&mut out, briefing);
        assert(out@ =~= with_briefing(user_message@, briefing@));
        let text = from_chars(&out);
        let last = text_message("user", text.as_str(), false);
        Turn { messages: chat.tell(first, last), steps: 0 }
    }

    /// What a turn asks.
    pub open spec fn asks(&self, config: &SenpaiConfig, r: String) -> bool {
        r@ == request_text(
            config.student_model@,
            1500,
            string_views(self.messages@),
            no_reasoning(),
            Some(STUDENT_TOOLS@),
        )
    }

    pub fn request(&self, config: &SenpaiConfig) -> (r: String)
        ensures
            self.asks(config, r),
    {
        request(
            config.student_model.as_str(),
            1500,
            &self.messages,
            "{\"enabled\":false,\"exclude\":true}",
            Some(STUDENT_TOOLS),
        )
    }

    /// How a turn goes on.
    pub open spec fn goes_on(&self, response: &str, after: &Self, r: TurnStep) -> bool {
        &&& after.steps == self.steps
        &&& ({
            let choice = choice_of(response@);
            let message = message_of(choice);
            let text = message_text(message);
            if asks_for_tools(choice) {
                &&& string_views(after.messages@) == string_views(
                    self.messages@,
                ).push(message)
                &&& r matches TurnStep::UseTools(calls)
                &&& call_views(calls@) == wanted(calls_in(message))
            } else {
                &&& after.messages == self.messages
                &&& if trim(text).len() == 0 {
                    r matches TurnStep::Failed(error) && error@
                        == "empty reply (finish_reason: "@ + string_or(
                        choice,
                        "/finish_reason"@,
                        "none"@,
                    ) + ")"@
                } else {
                    r matches TurnStep::Reply(reply) && reply@ == text
                }
            }
        })
    }

    /// Goes on after an answer: with the tools that it asks for, or with its
    /// text as the reply, which must not be blank.
    pub fn advance(&mut self, response: &str) -> (r: TurnStep)
        ensures
            old(self).goes_on(response, final(self), r),
    {
        let choice = choice(response);
        let message = message_in_choice(choice.as_str());
        if is_string(choice.as_str(), "/finish_reason", "tool_calls") {
            let docs = calls_of(message.as_str());
            let ghost asked = string_views(docs@);
            let ghost start = self.messages@;
            let ghost said = message@;
            self.messages.push(message);
            assert(string_views(self.messages@) =~= string_views(start).push(said));
            let mut calls: Vec<ToolCall> = Vec::new();
            let mut i: usize = 0;
            while i < docs.len()
                invariant
                    i <= docs@.len(),
                    asked == string_views(docs@),
                    calls@.len() == i,
                    forall|j: int|
                        0 <= j < i ==> (#[trigger] calls@[j]).id@ == call_id(asked[j])
                            && calls@[j].tool@ == tool_named(
                            call_name(asked[j]),
                            arguments_of(asked[j]),
                        ),
                decreases docs@.len() - i,
            {
                let call = docs[i].as_str();
                let name = string_or_default(call, "/function/name", "");
                let arguments = string_or_default(call, "/function/arguments", "{}");
                calls.push(
                    ToolCall {
                        id: id_in_call(call),
                        tool: tool_for(name.as_str(), arguments.as_str()),
                    },
                );
                i += 1;
            }
            assert(call_views(calls@) =~= wanted(asked));
            return TurnStep::UseTools(calls);
        }
        let text = text_of_message(message.as_str());
        let chars = to_chars(text.as_str());
        if trim_chars(&chars).len() == 0 {
            let reason = string_or_default(choice.as_str(), "/finish_reason", "none");
            let mut out: Vec<char> = Vec::new();
            append_str(&mut out, "empty reply (finish_reason: ");
            append_str(&mut out, reason.as_str());
            append_str(&mut out, ")");
            assert(out@ =~= "empty reply (finish_reason: "@ + reason@ + ")"@);
            return TurnStep::Failed(from_chars(&out));
        }
        TurnStep::Reply(text)
    }

    /// What the results of tools lead to.
    pub open spec fn takes_results(
        &self,
        calls: &Vec<ToolCall>,
        results: &Vec<String>,
        after: &Self,
        r: Result<(), String>,
    ) -> bool {
        &&& after.steps == self.steps + 1
        &&& string_views(after.messages@) == string_views(self.messages@) + Seq::new(
            calls@.len(),
            |i: int| tool_message(calls@[i].id@, results@[i]@),
        )
        &&& if after.steps < STUDENT_STEPS {
            r is Ok
        } else {
            r is Err && r->Err_0@ == "step limit reached"@
        }
    }

    /// Adds what the tools brought; says whether the student may answer again,
    /// or an error when it has answered too often.
    pub fn add_results(&mut self, calls: &Vec<ToolCall>, results: &Vec<String>) -> (r: Result<
        (),
        String,
    >)
        requires
            old(self).steps < STUDENT_STEPS,
            calls@.len() == results@.len(),
        ensures
            old(self).takes_results(calls, results, final(self), r),
    {
        let ghost head = string_views(self.messages@);
        let ghost all = Seq::new(calls@.len(), |i: int| tool_message(calls@[i].id@, results@[i]@));
        let mut i: usize = 0;
        assert(head + all.take(0) =~= head);
        while i < calls.len()
            invariant
                i <= calls@.len(),
                calls@.len() == results@.len(),
                self.steps == old(self).steps,
                all == Seq::new(
                    calls@.len(),
                    |i: int| tool_message(calls@[i].id@, results@[i]@),
                ),
                string_views(self.messages@) =~= head + all.take(i as int),
            decreases calls@.len() - i,
        {
            let answer = tool_answer(calls[i].id.as_str(), results[i].as_str());
            let ghost before = self.messages@;
            self.messages.push(answer);
            assert(string_views(self.messages@) =~= string_views(before).push(answer@));
            i += 1;
        }
        assert(all.take(all.len() as int) =~= all);
        self.steps = self.steps + 1;
        if self.steps < STUDENT_STEPS {
            Ok(())
        } else {
            Err("step limit reached".to_owned())
        }
    }
}

/// What the search service is asked: the question, and how to answer it.
pub open spec fn search_prompt(question: Seq<char>) -> Seq<char> {
    query(question)
        + "\n\n(Answer from current Brave web results only. Format exactly:\nA: <answer, <=2 lines>\nEPISTEMIC: <confident|likely|uncertain> - <1-line source basis>\nIf the results don't contain the answer, output exactly:\nA: NOT FOUND\nEPISTEMIC: searched, no reliable source\nNo preamble.)"@
}

pub open spec fn search_body(question: Seq<char>) -> Seq<char> {
    object_text(
        seq![
            member_text("max_completion_tokens"@, decimal(140)),
            member_text(
                "messages"@,
                array_text(seq![request_message("user"@, search_prompt(question))]),
            ),
            member_text("model"@, json_quoted("brave"@)),
            member_text("stream"@, "false"@),
            member_text(
                "web_search_options"@,
                "{\"country\":\"CA\",\"enable_citations\":true,\"enable_entities\":false,\"enable_research\":false,\"language\":\"en\",\"safesearch\":\"moderate\"}"@,
            ),
        ],
    )
}

/// The request to the search service.
pub fn brave_answer_body(question: &str) -> (r: String)
    ensures
        r@ == search_body(question@),
{
    let short = brave_query(question);
    let mut prompt: Vec<char> = Vec::new();
    append_str(&mut prompt, short.as_str());
    append_str(
        &mut prompt,
        "\n\n(Answer from current Brave web results only. Format exactly:\nA: <answer, <=2 lines>\nEPISTEMIC: <confident|likely|uncertain> - <1-line source basis>\nIf the results don't contain the answer, output exactly:\nA: NOT FOUND\nEPISTEMIC: searched, no reliable source\nNo preamble.)",
    );
    assert(prompt@ =~= search_prompt(question@));
    let text = from_chars(&prompt);
    let mut messages: Vec<Vec<char>> = Vec::new();
    messages.push(message_json("user", text.as_str()));
    assert(views(messages@) =~= seq![request_message("user"@, search_prompt(question@))]);
    let list = array(&messages);
    let tokens = decimal_chars(140);
    let mut members: Vec<Vec<char>> = Vec::new();
    members.push(member("max_completion_tokens", &tokens));
    members.push(member("messages", &list));
    members.push(text_member("model", "brave"));
    members.push(raw_member("stream", "false"));
    members.push(
        raw_member(
            "web_search_options",
            "{\"country\":\"CA\",\"enable_citations\":true,\"enable_entities\":false,\"enable_research\":false,\"language\":\"en\",\"safesearch\":\"moderate\"}",
        ),
    );
    assert(views(members@) =~= seq![
        member_text("max_completion_tokens"@, decimal(140)),
        member_text("messages"@, list@),
        member_text("model"@, json_quoted("brave"@)),
        member_text("stream"@, "false"@),
        member_text(
            "web_search_options"@,
            "{\"country\":\"CA\",\"enable_citations\":true,\"enable_entities\":false,\"enable_research\":false,\"language\":\"en\",\"safesearch\":\"moderate\"}"@,
        ),
    ]);
    from_chars(&object(&members))
}

/// The error that an answer tells of.
pub open spec fn told_error(response: Seq<char>) -> Seq<char> {
    match string_at(response, "/error/message"@) {
        Some(text) => text,
        None => match string_at(response, "/error/detail"@) {
            Some(text) => text,
            None => string_or(response, "/error"@, "unknown API error"@),
        },
    }
}

pub fn api_error_message(response: &str) -> (r: String)
    ensures
        r@ == told_error(response@),
{
    if let Some(text) = string_at_pointer(response, "/error/message") {
        return text;
    }
    if let Some(text) = string_at_pointer(response, "/error/detail") {
        return text;
    }
    string_or_default(response, "/error", "unknown API error")
}

/// A search's answer, from its text and why it ended.
pub open spec fn found(text: Seq<char>, reason: Option<Seq<char>>) -> Result<Seq<char>, Seq<char>> {
    if trim(text).len() == 0 {
        Err(
            "empty Brave Answers response (finish_reason: "@ + (match reason {
                Some(reason) => reason,
                None => "none"@,
            }) + ")"@,
        )
    } else if reason == Some("length"@) {
        Ok(clipped(text + "\n(answer truncated)"@, 1200))
    } else {
        Ok(clipped(text, 1200))
    }
}

pub open spec fn result_view(result: Result<String, String>) -> Result<Seq<char>, Seq<char>> {
    match result {
        Ok(text) => Ok(text@),
        Err(text) => Err(text@),
    }
}

pub fn search_result(text: &str, reason: Option<String>) -> (r: Result<String, String>)
    ensures
        result_view(r) == found(text@, text_view(reason)),
{
    let chars = to_chars(text);
    if trim_chars(&chars).len() == 0 {
        let mut out: Vec<char> = Vec::new();
        append_str(&mut out, "empty Brave Answers response (finish_reason: ");
        match &reason {
            Some(reason) => append_str(&mut out, reason.as_str()),
            None => append_str(&mut out, "none"),
        }
        append_str(&mut out, ")");
        assert(out@ =~= found(text@, text_view(reason))->Err_0);
        return Err(from_chars(&out));
    }
    let cut = match &reason {
        Some(reason) => same_text(reason.as_str(), "length"),
        None => false,
    };
    if cut {
        let mut out: Vec<char> = Vec::new();
        append_str(&mut out, text);
        append_str(&mut out, "\n(answer truncated)");
        assert(out@ =~= text@ + "\n(answer truncated)"@);
        let long = from_chars(&out);
        Ok(truncate(long.as_str(), 1200))
    } else {
        Ok(truncate(text, 1200))
    }
}

/// What is read of a search.
pub open spec fn search_reads(response: &str, r: Result<String, String>) -> bool {
    result_view(r) == (if choice_of(response@) == "null"@ {
        Err(told_error(response@))
    } else {
        found(
            message_text(message_of(choice_of(response@))),
            string_at(choice_of(response@), "/finish_reason"@),
        )
    })
}

/// The search service's answer.
pub fn read_search(response: &str) -> (r: Result<String, String>)
    ensures
        search_reads(response, r),
{
    let choice = choice(response);
    if same_text(choice.as_str(), "null") {
        return Err(api_error_message(response));
    }
    let message = message_in_choice(choice.as_str());
    let text = text_of_message(message.as_str());
    let reason = string_at_pointer(choice.as_str(), "/finish_reason");
    search_result(text.as_str(), reason)
}

/// What answers a question to the web.
pub open spec fn question_answered(result: Result<String, String>, r: String) -> bool {
    r@ == (match result_view(result) {
        Ok(text) => text,
        Err(error) => "A: NOT FOUND\nEPISTEMIC: web call failed ("@ + error + ")"@,
    })
}

/// What the student is told of a search.
pub fn web_qa(result: Result<String, String>) -> (r: String)
    ensures
        question_answered(result, r),
{
    match result {
        Ok(text) => text,
        Err(error) => {
            let mut out: Vec<char> = Vec::new();
            append_str(&mut out, "A: NOT FOUND\nEPISTEMIC: web call failed (");
            append_str(&mut out, error.as_str());
            append_str(&mut out, ")");
            assert(out@ =~= "A: NOT FOUND\nEPISTEMIC: web call failed ("@ + error@ + ")"@);
            from_chars(&out)
        },
    }
}

/// What a model is told of the conversation: the first message, the summaries of
/// what was put away as one user's message where there are any, then every recent
/// message, in order and as it is, and the last one.
pub proof fn lemma_told_is(chat: ChatView, first: Seq<char>, last: Seq<char>)
    ensures
        ({
            let told = chat.told(first, last);
            let n = chat.recent.len();
            &&& told.len() == n + if chat.archive.len() > 0 {
                3int
            } else {
                2int
            }
            &&& told[0] == first
            &&& told[told.len() - 1] == last
            &&& chat.archive.len() > 0 ==> told[1] == spoken("user"@, chat.summaries(), true)
            &&& forall|i: int|
                #![trigger chat.recent[i]]
                0 <= i < n ==> told[told.len() - 1 - n + i] == chat.recent[i]
        }),
{
}

/// The summaries stand one to a line behind their heading, each behind the number
/// of its block, from zero.
pub proof fn lemma_summaries_are(chat: ChatView, block: BlockView)
    ensures
        ({
            let more = ChatView { archive: chat.archive.push(block), recent: chat.recent };
            more.summaries() == chat.summaries() + (if chat.archive.len() > 0 {
                seq!['\n']
            } else {
                Seq::empty()
            }) + "[block "@ + decimal(chat.archive.len()) + "] "@ + block.summary
        }),
        chat.archive.len() == 0 ==> chat.summaries()
            == "(older conversation, summarized into blocks)\n"@,
{
    let more = ChatView { archive: chat.archive.push(block), recent: chat.recent };
    let line = |c: ChatView|
        Seq::new(c.archive.len(), |i: int| summary_line(i as nat, c.archive[i].summary));
    let before = line(chat);
    let last = summary_line(chat.archive.len(), block.summary);
    assert(line(more) =~= before + seq![last]);
    lemma_join_is(before, seq![last], seq!['\n']);
    lemma_join_is(seq![last], before, seq!['\n']);
    if chat.archive.len() == 0 {
        assert(before =~= Seq::<Seq<char>>::empty());
        assert(before + seq![last] =~= seq![last]);
        assert(chat.summaries() =~= "(older conversation, summarized into blocks)\n"@);
    }
    assert(more.summaries() =~= chat.summaries() + (if chat.archive.len() > 0 {
        seq!['\n']
    } else {
        Seq::empty()
    }) + "[block "@ + decimal(chat.archive.len()) + "] "@ + block.summary);
}

/// A conversation is cut when it holds sixteen recent messages or more. The block
/// that is put away is the one asked for, but never fewer than two messages, more
/// than twenty-four, or any of the newest six. It is the oldest part, and what
/// stays follows it.
pub proof fn lemma_block_is(chat: ChatView, boundary: int, summary: Seq<char>)
    ensures
        chat.overflows() <==> chat.recent.len() >= 16,
        chat.overflows() ==> ({
            let cut = block_size(boundary, chat.recent.len() - 6);
            let after = chat.put_away(cut, summary);
            let block = after.archive[after.archive.len() - 1];
            &&& 2 <= cut <= 24
            &&& cut <= chat.recent.len() - 6
            &&& 2 <= boundary <= 24 && boundary <= chat.recent.len() - 6 ==> cut == boundary
            &&& boundary < 2 ==> cut == 2
            &&& boundary > 24 || boundary > chat.recent.len() - 6 ==> cut == 24 || cut
                == chat.recent.len() - 6
            &&& after.archive.len() == chat.archive.len() + 1
            &&& after.archive.take(chat.archive.len() as int) == chat.archive
            &&& block.summary == summary
            &&& block.messages + after.recent == chat.recent
            &&& block.messages.len() == cut
        }),
{
    if chat.overflows() {
        let cut = block_size(boundary, chat.recent.len() - 6);
        let after = chat.put_away(cut, summary);
        assert(after.archive.take(chat.archive.len() as int) =~= chat.archive);
        assert(chat.recent.take(cut) + chat.recent.skip(cut) =~= chat.recent);
    }
}

/// All that was ever said is the messages of the blocks, oldest first, and then
/// the recent ones.
pub proof fn lemma_everything_is(chat: ChatView, block: BlockView, message: Seq<char>)
    ensures
        (ChatView { archive: Seq::empty(), recent: chat.recent }).everything() == chat.recent,
        (ChatView { archive: chat.archive, recent: chat.recent.push(message) }).everything()
            == chat.everything().push(message),
        (ChatView { archive: chat.archive.push(block), recent: Seq::empty() }).everything()
            == (ChatView { archive: chat.archive, recent: Seq::empty() }).everything()
            + block.messages,
{
    assert(all_put_away(Seq::<BlockView>::empty()) =~= Seq::<Seq<char>>::empty());
    assert(Seq::<Seq<char>>::empty() + chat.recent =~= chat.recent);
    assert(chat.archive.push(block).drop_last() =~= chat.archive);
    assert(all_put_away(chat.archive) + chat.recent.push(message) =~= (all_put_away(chat.archive)
        + chat.recent).push(message));
    assert(all_put_away(chat.archive) + block.messages + Seq::<Seq<char>>::empty() =~= all_put_away(
        chat.archive,
    ) + Seq::<Seq<char>>::empty() + block.messages);
}

/// The digits of an answer are all its digits, in order.
pub proof fn lemma_digits_of_are(text: Seq<char>)
    ensures
        digits_of(text) == text.filter(|c: char| '0' <= c && c <= '9'),
    decreases text.len(),
{
    reveal(Seq::filter);
    let kept = |c: char| '0' <= c && c <= '9';
    if text.len() > 0 {
        lemma_digits_of_are(text.drop_last());
        assert(kept(text.last()) == digit(text.last()));
    } else {
        assert(text.filter(kept) =~= digits_of(text));
    }
}

/// A boundary is read from the digits of the answer; without a number that can be
/// held it is eight.
pub proof fn lemma_boundary_is(before: Seq<char>, n: nat, after: Seq<char>)
    requires
        forall|i: int| 0 <= i < before.len() ==> !('0' <= #[trigger] before[i] && before[i] <= '9'),
        forall|i: int| 0 <= i < after.len() ==> !('0' <= #[trigger] after[i] && after[i] <= '9'),
    ensures
        n <= usize::MAX ==> boundary_in(Some(before + decimal(n) + after)) == n,
        n > usize::MAX ==> boundary_in(Some(before + decimal(n) + after)) == 8,
        boundary_in(Some(before)) == 8,
        boundary_in(None) == 8,
{
    lemma_decimal_is(n);
    lemma_digits_between(before, decimal(n), after);
    lemma_digits_between(before, Seq::empty(), Seq::empty());
    assert(before + Seq::<char>::empty() + Seq::<char>::empty() =~= before);
    assert(digit(decimal(n)[0]));
}

proof fn lemma_digits_between(before: Seq<char>, middle: Seq<char>, after: Seq<char>)
    requires
        forall|i: int| 0 <= i < before.len() ==> !digit(#[trigger] before[i]),
        forall|i: int| 0 <= i < middle.len() ==> digit(#[trigger] middle[i]),
        forall|i: int| 0 <= i < after.len() ==> !digit(#[trigger] after[i]),
    ensures
        digits_of(before + middle + after) == middle,
    decreases before.len() + middle.len() + after.len(),
{
    let all = before + middle + after;
    if after.len() > 0 {
        assert(all.drop_last() =~= before + middle + after.drop_last());
        assert(all.last() == after.last());
        lemma_digits_between(before, middle, after.drop_last());
    } else if middle.len() > 0 {
        assert(all.drop_last() =~= before + middle.drop_last() + after);
        assert(all.last() == middle.last());
        lemma_digits_between(before, middle.drop_last(), after);
        assert(middle.drop_last().push(middle.last()) =~= middle);
    } else if before.len() > 0 {
        assert(all.drop_last() =~= before.drop_last() + middle + after);
        assert(all.last() == before.last());
        lemma_digits_between(before.drop_last(), middle, after);
    } else {
        assert(all =~= middle);
    }
}

/// Messages that are asked about are numbered from zero, one to a line, each with
/// who said it.
pub proof fn lemma_numbered_is(messages: Seq<Seq<char>>, message: Seq<char>)
    ensures
        numbered(Seq::empty()).len() == 0,
        numbered(messages.push(message)) == numbered(messages) + decimal(messages.len()) + seq![' ']
            + transcript_line(message) + seq!['\n'],
{
    assert(messages.push(message).drop_last() =~= messages);
    assert(numbered(messages.push(message)) =~= numbered(messages) + decimal(messages.len()) + seq![
        ' ',
    ] + transcript_line(message) + seq!['\n']);
}

/// A transcript has one line for each message: who said it, a colon, a space and
/// what was said, both read from the message.
pub proof fn lemma_transcript_is(
    messages: Seq<Seq<char>>,
    message: Seq<char>,
    role: Seq<char>,
    text: Seq<char>,
)
    requires
        string_at(message, "/role"@) == Some(role),
        string_at(message, "/content"@) == Some(text),
    ensures
        transcript(Seq::empty()).len() == 0,
        transcript(seq![message]) == role + seq![':', ' '] + text,
        messages.len() > 0 ==> transcript(messages.push(message)) == transcript(messages) + seq![
            '\n',
        ] + role + seq![':', ' '] + text,
{
    let lines = Seq::new(messages.len(), |i: int| transcript_line(messages[i]));
    let last = transcript_line(message);
    assert(Seq::new(messages.push(message).len(), |i: int| transcript_line(messages.push(message)[i]))
        =~= lines + seq![last]);
    assert(Seq::new(seq![message].len(), |i: int| transcript_line(seq![message][i])) =~= seq![last]);
    lemma_join_is(lines, seq![last], seq!['\n']);
    lemma_join_is(seq![last], lines, seq!['\n']);
    if messages.len() > 0 {
        assert(transcript(messages.push(message)) =~= transcript(messages) + seq!['\n'] + role
            + seq![':', ' '] + text);
    }
}

/// Another model is named only when a model other than the requested one served
/// the request, and the request named a model and no preset.
pub proof fn lemma_served_by_other_is(requested: Seq<char>, served: Seq<char>)
    ensures
        served_by_other(requested, None) is None,
        served_by_other(requested, Some(requested)) is None,
        served.len() == 0 ==> served_by_other(requested, Some(served)) is None,
        requested.len() > 0 && requested[0] == '@' ==> served_by_other(requested, Some(served))
            is None,
        served.len() > 0 && served != requested && (requested.len() == 0 || requested[0] != '@')
            ==> served_by_other(requested, Some(served)) == Some(
            "["@ + requested + " unavailable; @preset/free served "@ + served + "]"@,
        ),
{
    reveal_strlit("[");
    reveal_strlit("]");
    assert("["@ =~= seq!['[']);
    assert("]"@ =~= seq![']']);
    if requested.len() > 0 {
        assert(requested.take(1)[0] == requested[0]);
        assert(requested[0] == '@' ==> requested.take(1) =~= seq!['@']);
    }
}

/// Blanks round an answer do not count, and a blank answer counts as none.
pub proof fn lemma_answers_are_trimmed(text: Seq<char>)
    ensures
        trim(text).len() > 0 ==> summary_in(Some(text)) == trim(text) && briefing_in(Some(text))
            == trim(text) && day_in(Some(text)) == trim(text),
        trim(text).len() == 0 ==> summary_in(Some(text)) == summary_in(None) && briefing_in(
            Some(text),
        ) == briefing_in(None) && day_in(Some(text)) == day_in(None) && note_in(text) is None,
        summary_in(None) == "(summary unavailable)"@,
        briefing_in(None) == "(senpai unavailable; proceed with your own judgement)"@,
        day_in(None) == "unknown"@,
        trim(text) == "NONE"@ ==> note_in(text) is None,
        trim(text).len() > 0 && trim(text) != "NONE"@ ==> note_in(text) == Some(trim(text)),
{
}

/// Each tool has its own name and its own argument; any other name is no tool.
pub proof fn lemma_tool_names(name: Seq<char>, arguments: Seq<char>)
    ensures
        match tool_named(name, arguments) {
            ToolView::Python(code) => name == "run_python"@ && (string_at(arguments, "/code"@)
                == Some(code) || string_at(arguments, "/code"@) is None && code == ""@),
            ToolView::Wolfram(code) => name == "wolframscript"@ && (string_at(arguments, "/code"@)
                == Some(code) || string_at(arguments, "/code"@) is None && code == ""@),
            ToolView::WebQa(text) => name == "web_qa"@ && (string_at(arguments, "/question"@)
                == Some(text) || string_at(arguments, "/question"@) is None && text == ""@),
            ToolView::Fetch(url) => name == "fetch_url"@ && (string_at(arguments, "/url"@) == Some(
                url,
            ) || string_at(arguments, "/url"@) is None && url == ""@),
            ToolView::ReadBlock(id) => name == "read_block"@ && (number_at(arguments, "/id"@)
                == Some(id) || number_at(arguments, "/id"@) is None && id == u64::MAX),
            ToolView::Unknown => name != "run_python"@ && name != "wolframscript"@ && name
                != "web_qa"@ && name != "fetch_url"@ && name != "read_block"@,
        },
{
}

/// Every call is answered, in order: the tools wanted stand with the calls' own
/// ids, and the blocks read come back under them.
pub proof fn lemma_calls_are_answered(chat: &Chat, calls: Seq<Seq<char>>, i: int)
    requires
        0 <= i < calls.len(),
    ensures
        wanted(calls).len() == calls.len(),
        blocks_read(chat, calls).len() == calls.len(),
        json_pick(calls[i], "/id"@) matches Some(id) ==> wanted(calls)[i].0 == id && ({
            let block = match string_at(calls[i], "/function/arguments"@) {
                Some(arguments) => number_at(arguments, "/id"@),
                None => number_at("{}"@, "/id"@),
            };
            block matches Some(n) ==> (n < chat@.archive.len() ==> blocks_read(chat, calls)[i]
                == tool_message(id, transcript(chat@.archive[n as int].messages))) && (n
                >= chat@.archive.len() ==> blocks_read(chat, calls)[i] == tool_message(
                id,
                "no such block: "@ + decimal(n as nat),
            ))
        }),
        string_at(calls[i], "/function/name"@) matches Some(name) ==> (string_at(
            calls[i],
            "/function/arguments"@,
        ) matches Some(arguments) ==> wanted(calls)[i].1 == tool_named(name, arguments)),
{
}

/// The students' last message holds the user's, then the briefing behind its
/// heading; the context found stands behind the user's message in the same way.
pub proof fn lemma_briefings_are(user_message: Seq<char>, briefing: Seq<char>)
    ensures
        with_briefing(user_message, briefing) == ("USER MESSAGE: "@ + user_message) + (
        "\n\nSENPAI BRIEFING (private):\n"@ + briefing),
        briefed(user_message, None) == user_message,
        briefed(user_message, Some(briefing)) == user_message + (
        "\n\nRELEVANT CONTEXT (from earlier conversation):\n"@ + briefing),
{
    assert(with_briefing(user_message, briefing) =~= ("USER MESSAGE: "@ + user_message) + (
    "\n\nSENPAI BRIEFING (private):\n"@ + briefing));
    assert(briefed(user_message, Some(briefing)) =~= user_message + (
    "\n\nRELEVANT CONTEXT (from earlier conversation):\n"@ + briefing));
}

/// A request always tells how much may be answered, the messages, the model and
/// how to think, in that order. The list of models stands in it unless the model
/// is the one that stands in for others, and the tools where there are any.
pub proof fn lemma_request_members_are(
    model: Seq<char>,
    max_tokens: nat,
    messages: Seq<Seq<char>>,
    reasoning: Seq<char>,
    tools: Option<Seq<char>>,
)
    ensures
        ({
            let members = request_members(model, max_tokens, messages, reasoning, tools);
            let routed = model != "@preset/free"@;
            let at = if routed {
                4int
            } else {
                3int
            };
            &&& members.len() == at + 1 + if tools is Some {
                1int
            } else {
                0int
            }
            &&& members[0] == member_text("max_tokens"@, decimal(max_tokens))
            &&& members[1] == member_text("messages"@, array_text(messages))
            &&& members[2] == member_text("model"@, json_quoted(model))
            &&& routed ==> members[3] == member_text(
                "models"@,
                array_text(seq![json_quoted(model), json_quoted("@preset/free"@)]),
            )
            &&& members[at] == member_text("reasoning"@, reasoning)
            &&& tools matches Some(t) ==> members[at + 1] == member_text("tools"@, t)
        }),
{
}

/// A message is written with its role and its text; a cached one marks the text
/// for keeping.
pub proof fn lemma_spoken_is(role: Seq<char>, text: Seq<char>)
    ensures
        spoken(role, text, false) == request_message(role, text),
        spoken(role, text, true)
            == "{\"content\":[{\"cache_control\":{\"type\":\"ephemeral\"},\"text\":"@ + json_quoted(
            text,
        ) + ",\"type\":"@ + json_quoted("text"@) + "}],\"role\":"@ + json_quoted(role) + "}"@,
{
    reveal_strlit("content");
    reveal_strlit("role");
    reveal_strlit("cache_control");
    reveal_strlit("text");
    reveal_strlit("type");
    reveal_strlit("{\"type\":\"ephemeral\"}");
    reveal_strlit("{\"content\":[{\"cache_control\":{\"type\":\"ephemeral\"},\"text\":");
    reveal_strlit(",\"type\":");
    reveal_strlit("}],\"role\":");
    reveal_strlit("}");
    reveal_with_fuel(join_with, 4);
    let m1 = member_text("cache_control"@, "{\"type\":\"ephemeral\"}"@);
    let m2 = member_text("text"@, json_quoted(text));
    let m3 = member_text("type"@, json_quoted("text"@));
    assert(seq![m1, m2, m3].drop_last() =~= seq![m1, m2]);
    assert(seq![m1, m2].drop_last() =~= seq![m1]);
    let part = object_text(seq![m1, m2, m3]);
    assert(part =~= seq!['{'] + m1 + seq![','] + m2 + seq![','] + m3 + seq!['}']);
    let n1 = member_text("content"@, array_text(seq![part]));
    let n2 = member_text("role"@, json_quoted(role));
    assert(seq![n1, n2].drop_last() =~= seq![n1]);
    let head = seq!['{', '"'] + "content"@ + seq!['"', ':', '[', '{'] + m1 + seq![',', '"']
        + "text"@ + seq!['"', ':'];
    assert(head =~= "{\"content\":[{\"cache_control\":{\"type\":\"ephemeral\"},\"text\":"@);
    let middle = seq![',', '"'] + "type"@ + seq!['"', ':'];
    assert(middle =~= ",\"type\":"@);
    let next = seq!['}', ']', ',', '"'] + "role"@ + seq!['"', ':'];
    assert(next =~= "}],\"role\":"@);
    assert(seq!['}'] =~= "}"@);
    assert(marked_message(role, text) =~= head + json_quoted(text) + middle + json_quoted("text"@)
        + next + json_quoted(role) + seq!['}']);
}

/// A search that came back without a text is an error that tells why; an answer
/// that broke off says so at its end, before it is cut to length.
pub proof fn lemma_found_is(text: Seq<char>, reason: Seq<char>)
    ensures
        trim(text).len() == 0 ==> found(text, Some(reason)) == Err::<Seq<char>, Seq<char>>(
            "empty Brave Answers response (finish_reason: "@ + reason + ")"@,
        ),
        trim(text).len() == 0 ==> found(text, None) == Err::<Seq<char>, Seq<char>>(
            "empty Brave Answers response (finish_reason: "@ + "none"@ + ")"@,
        ),
        trim(text).len() > 0 && reason == "length"@ ==> found(text, Some(reason)) == Ok::<
            Seq<char>,
            Seq<char>,
        >(clipped(text + "\n(answer truncated)"@, 1200)),
        trim(text).len() > 0 && reason != "length"@ ==> found(text, Some(reason)) == Ok::<
            Seq<char>,
            Seq<char>,
        >(clipped(text, 1200)),
        trim(text).len() > 0 ==> found(text, None) == Ok::<Seq<char>, Seq<char>>(
            clipped(text, 1200),
        ),
{
}

/// A turn begins with the student's prompt, the conversation, and the user's message
/// with the briefing, in this order; every recent message is told. The prompt is
/// kept for later where there is a conversation.
pub proof fn lemma_turn_begins(
    config: &SenpaiConfig,
    chat: &Chat,
    user_message: &str,
    briefing: &str,
    today: &str,
    r: Turn,
)
    requires
        Turn::begins(config, chat, user_message, briefing, today, r),
    ensures
        ({
            let told = string_views(r.messages@);
            let n = chat@.recent.len();
            &&& r.steps == 0
            &&& told.len() == n + if chat@.archive.len() > 0 {
                3int
            } else {
                2int
            }
            &&& told[0] == spoken(
                "system"@,
                student_prompt(today@, text_view(config.persona)),
                chat@.archive.len() > 0 || n > 0,
            )
            &&& chat@.archive.len() > 0 ==> told[1] == spoken("user"@, chat@.summaries(), true)
            &&& forall|i: int|
                #![trigger chat@.recent[i]]
                0 <= i < n ==> told[told.len() - 1 - n + i] == chat@.recent[i]
            &&& told[told.len() - 1] == request_message(
                "user"@,
                "USER MESSAGE: "@ + user_message@ + "\n\nSENPAI BRIEFING (private):\n"@ + briefing@,
            )
        }),
{
    lemma_told_is(
        chat@,
        spoken(
            "system"@,
            student_prompt(today@, text_view(config.persona)),
            chat@.archive.len() > 0 || chat@.recent.len() > 0,
        ),
        request_message("user"@, with_briefing(user_message@, briefing@)),
    );
}

/// Looking back begins where there is a conversation, with every recent message
/// between the prompt for it and the user's message.
pub proof fn lemma_looking_back_begins(chat: &Chat, user_message: &str, r: Option<ContextPass>)
    requires
        ContextPass::begins(chat, user_message, r),
    ensures
        r is None <==> chat@.archive.len() == 0 && chat@.recent.len() == 0,
        r matches Some(pass) ==> ({
            let told = string_views(pass.messages@);
            let n = chat@.recent.len();
            &&& pass.rounds == 0
            &&& told.len() == n + if chat@.archive.len() > 0 {
                3int
            } else {
                2int
            }
            &&& told[0] == spoken("system"@, CONTEXT_SYSTEM@, true)
            &&& forall|i: int|
                #![trigger chat@.recent[i]]
                0 <= i < n ==> told[told.len() - 1 - n + i] == chat@.recent[i]
            &&& told[told.len() - 1] == spoken("user"@, user_message@, true)
        }),
{
    lemma_told_is(
        chat@,
        spoken("system"@, CONTEXT_SYSTEM@, true),
        spoken("user"@, user_message@, true),
    );
}

/// A turn goes on with the tools that an answer asks for, of which it takes down the
/// message; an answer that asks for none is the reply, word for word, and an error
/// where it is blank. Nothing that was said is lost.
pub proof fn lemma_turn_goes_on(turn: &Turn, response: &str, after: &Turn, r: TurnStep)
    requires
        turn.goes_on(response, after, r),
    ensures
        after.steps == turn.steps,
        ({
            let choice = choice_of(response@);
            let tools = string_at(choice, "/finish_reason"@) == Some("tool_calls"@);
            let said = string_views(turn.messages@);
            let message = message_of(choice);
            &&& !tools ==> after.messages == turn.messages && !(r is UseTools)
            &&& tools ==> string_views(after.messages@).len() == said.len() + 1 && string_views(
                after.messages@,
            )[said.len() as int] == message && string_views(after.messages@).take(
                said.len() as int,
            ) == said
            &&& tools ==> (r matches TurnStep::UseTools(calls) && calls@.len() == calls_in(
                message,
            ).len())
            &&& !tools && trim(message_text(message)).len() > 0 ==> (r matches TurnStep::Reply(reply)
                && reply@ == message_text(message))
            &&& !tools && trim(message_text(message)).len() == 0 ==> r is Failed
        }),
{
    let choice = choice_of(response@);
    let said = string_views(turn.messages@);
    if asks_for_tools(choice) {
        assert(string_views(after.messages@).take(said.len() as int) =~= said);
        if let TurnStep::UseTools(calls) = r {
            assert(call_views(calls@).len() == calls@.len());
        }
    }
}

/// The results of tools are told in the order of the calls, each under its call's
/// id; the twentieth time is the last.
pub proof fn lemma_results_are_told(
    turn: &Turn,
    calls: &Vec<ToolCall>,
    results: &Vec<String>,
    after: &Turn,
    r: Result<(), String>,
    i: int,
)
    requires
        turn.takes_results(calls, results, after, r),
        0 <= i < calls@.len(),
    ensures
        after.steps == turn.steps + 1,
        r is Ok <==> after.steps < 20,
        after.messages@.len() == turn.messages@.len() + calls@.len(),
        after.messages@[turn.messages@.len() + i]@ == tool_message(calls@[i].id@, results@[i]@),
        forall|j: int|
            0 <= j < turn.messages@.len() ==> (#[trigger] after.messages@[j])@
                == turn.messages@[j]@,
{
    let before = string_views(turn.messages@);
    let all = string_views(after.messages@);
    assert(all.len() == after.messages@.len());
    assert(all[before.len() + i] == after.messages@[before.len() + i]@);
    assert forall|j: int| 0 <= j < before.len() implies (#[trigger] after.messages@[j])@
        == turn.messages@[j]@ by {
        assert(all[j] == before[j]);
    }
}

/// Looking back reads the blocks that an answer asks for, four rounds at most, and
/// tells them behind the messages before; it ends with the note of an answer that
/// asks for none, and without one where no answer came.
pub proof fn lemma_looking_back_goes_on(
    pass: &ContextPass,
    chat: &Chat,
    response: Option<&str>,
    after: &ContextPass,
    r: ContextStep,
)
    requires
        pass.goes_on(chat, response, after, r),
    ensures
        response is None ==> *after == *pass && (r matches ContextStep::Done(note) && note is None),
        response matches Some(text) ==> ({
            let choice = choice_of(text@);
            let message = message_of(choice);
            let tools = string_at(choice, "/finish_reason"@) == Some("tool_calls"@);
            let said = string_views(pass.messages@);
            &&& !tools ==> *after == *pass && (r matches ContextStep::Done(note) && text_view(note)
                == note_in(message_text(message)))
            &&& tools ==> {
                let told = string_views(after.messages@);
                &&& after.rounds == pass.rounds + 1
                &&& r is Again <==> after.rounds < 4
                &&& told.len() == said.len() + 1 + calls_in(message).len()
                &&& told.take(said.len() as int) == said
                &&& told[said.len() as int] == message
                &&& told.skip(said.len() as int + 1) == blocks_read(chat, calls_in(message))
            }
        }),
{
    if let Some(text) = response {
        let choice = choice_of(text@);
        let message = message_of(choice);
        let said = string_views(pass.messages@);
        if asks_for_tools(choice) {
            let told = string_views(after.messages@);
            assert(told.take(said.len() as int) =~= said);
            assert(told.skip(said.len() as int + 1) =~= blocks_read(chat, calls_in(message)));
        }
    }
}

/// What is asked of the student: with its tools, and fifteen hundred words at most;
/// to look back a hundred, and the tool for it only where there are blocks.
pub proof fn lemma_student_is_asked(
    turn: &Turn,
    pass: &ContextPass,
    config: &SenpaiConfig,
    chat: &Chat,
    r: String,
)
    ensures
        turn.asks(config, r) ==> r@ == request_text(
            config.student_model@,
            1500,
            string_views(turn.messages@),
            "{\"enabled\":false,\"exclude\":true}"@,
            Some(STUDENT_TOOLS@),
        ),
        pass.asks(config, chat, r) && chat@.archive.len() > 0 ==> r@ == request_text(
            config.student_model@,
            100,
            string_views(pass.messages@),
            "{\"enabled\":false,\"exclude\":true}"@,
            Some(CONTEXT_TOOLS@),
        ),
        pass.asks(config, chat, r) && chat@.archive.len() == 0 ==> r@ == request_text(
            config.student_model@,
            100,
            string_views(pass.messages@),
            "{\"enabled\":false,\"exclude\":true}"@,
            None,
        ),
{
}

/// A block is taken from the oldest messages, at the boundary that was answered, and
/// none of the newest six; nothing gets lost, and what was put away stays.
pub proof fn lemma_blocks_are_taken(
    chat: &Chat,
    response: Option<&str>,
    after: &Chat,
    r: Vec<String>,
)
    requires
        chat.block_taken(response, after, r),
        chat@.recent.len() >= 16,
    ensures
        string_views(r@) + after@.recent == chat@.recent,
        2 <= r@.len() <= 24,
        after@.recent.len() >= 6,
        after@.archive == chat@.archive,
        ({
            let n = boundary_in(answered(str_view(response)));
            2 <= n <= 24 && n <= chat@.recent.len() - 6 ==> r@.len() == n
        }),
{
    let cut = block_size(
        boundary_in(answered(str_view(response))) as int,
        chat@.recent.len() - 6,
    );
    lemma_block_is(chat@, boundary_in(answered(str_view(response))) as int, Seq::empty());
    assert(string_views(r@).len() == r@.len());
    assert(chat@.recent.take(cut) + chat@.recent.skip(cut) =~= chat@.recent);
}

/// A block that is put away is the last of them, with its messages and its summary;
/// the recent messages stay.
pub proof fn lemma_blocks_are_put_away(
    chat: &Chat,
    messages: Vec<String>,
    response: Option<&str>,
    after: &Chat,
)
    requires
        chat.block_put_away(messages, response, after),
    ensures
        after@.recent == chat@.recent,
        after@.archive.len() == chat@.archive.len() + 1,
        after@.archive.take(chat@.archive.len() as int) == chat@.archive,
        after@.archive[chat@.archive.len() as int].messages == string_views(messages@),
        after@.archive[chat@.archive.len() as int].summary == summary_in(
            answered(str_view(response)),
        ),
{
    assert(after@.archive.take(chat@.archive.len() as int) =~= chat@.archive);
}

/// An exchange adds what the user said and then the reply, each by its own role,
/// behind the recent messages.
pub proof fn lemma_exchanges_are_added(
    chat: &Chat,
    user_message: &str,
    reply: &str,
    after: &Chat,
)
    requires
        chat.exchange_leads_to(user_message, reply, after),
    ensures
        ({
            let n = chat@.recent.len() as int;
            &&& after@.archive == chat@.archive
            &&& after@.recent.len() == n + 2
            &&& after@.recent.take(n) == chat@.recent
            &&& after@.recent[n] == request_message("user"@, user_message@)
            &&& after@.recent[n + 1] == request_message("assistant"@, reply@)
        }),
{
    assert(after@.recent.take(chat@.recent.len() as int) =~= chat@.recent);
}

/// What is asked to put messages away: where the first topic of all but the newest
/// six ends, and a summary of what was said.
pub proof fn lemma_putting_away_asks(
    chat: &Chat,
    student_model: &str,
    messages: &Vec<String>,
    r: String,
)
    ensures
        chat.asks_for_boundary(student_model, r) ==> r@ == request_text(
            student_model@,
            600,
            seq![
                request_message("system"@, BOUNDARY_SYSTEM@),
                request_message("user"@, numbered(chat@.recent.take(chat@.recent.len() - 6))),
            ],
            "{\"effort\":\"minimal\",\"exclude\":true}"@,
            None,
        ),
        asks_for_summary(student_model, messages, r) ==> r@ == request_text(
            student_model@,
            80,
            seq![
                request_message("system"@, SUMMARIZER_SYSTEM@),
                request_message("user"@, transcript(string_views(messages@))),
            ],
            "{\"enabled\":false,\"exclude\":true}"@,
            None,
        ),
{
}

/// A search without a choice is an error, with the service's own words; else it is
/// read by its text and why it ended. A question to the web is always answered, and
/// says so when it could not be.
pub proof fn lemma_searches_are_read(
    response: &str,
    found_text: Result<String, String>,
    result: Result<String, String>,
    r: String,
)
    ensures
        search_reads(response, found_text) && choice_of(response@) == "null"@ ==> found_text is Err
            && found_text->Err_0@ == told_error(response@),
        search_reads(response, found_text) && choice_of(response@) != "null"@ ==> result_view(
            found_text,
        ) == found(
            message_text(message_of(choice_of(response@))),
            string_at(choice_of(response@), "/finish_reason"@),
        ),
        question_answered(result, r) ==> (result matches Ok(text) ==> r@ == text@) && (
        result matches Err(error) ==> r@ == "A: NOT FOUND\nEPISTEMIC: web call failed ("@ + error@
            + ")"@),
{
}

/// The parts of an answer that are read: its first choice, the message of that, and
/// the message's text. Where one is missing there is nothing to read.
pub proof fn lemma_answers_are_read(
    response: Seq<char>,
    choice: Seq<char>,
    message: Seq<char>,
    content: Seq<char>,
)
    ensures
        !has_choice(response) ==> choice_of(response) == "null"@,
        has_choice(response) && json_pick(response, "/choices/0"@) == Some(choice) ==> choice_of(
            response,
        ) == choice,
        json_pick(choice, "/message"@) == Some(message) ==> message_of(choice) == message,
        json_pick(choice, "/message"@) is None ==> message_of(choice) == "null"@,
        json_pick(message, "/content"@) == Some(content) ==> message_text(message) == plain_text(
            content,
        ),
        response_text(None) is None,
        response_text(Some(response)) == Some(message_text(message_of(choice_of(response)))),
        answered(None) is None,
        answered(Some(response)) == string_at(choice_of(response), "/message/content"@),
{
}

/// The errors that an answer tells of: the service's message, else its detail, else
/// the error itself. A chat notes one only where there is no choice.
pub proof fn lemma_errors_are_told(response: Seq<char>, text: Seq<char>)
    ensures
        string_at(response, "/error/message"@) == Some(text) ==> told_error(response) == text,
        string_at(response, "/error/message"@) is None && string_at(response, "/error/detail"@)
            == Some(text) ==> told_error(response) == text,
        string_at(response, "/error/message"@) is None && string_at(response, "/error/detail"@)
            is None && string_at(response, "/error"@) == Some(text) ==> told_error(response) == text,
        string_at(response, "/error/message"@) is None && string_at(response, "/error/detail"@)
            is None && string_at(response, "/error"@) is None ==> told_error(response)
            == "unknown API error"@,
        choice_of(response) != "null"@ ==> noted_error(response) is None,
        choice_of(response) == "null"@ && string_at(response, "/error/message"@) == Some(text)
            ==> noted_error(response) == Some("[api error: "@ + text + "]"@),
        choice_of(response) == "null"@ && string_at(response, "/error/message"@) is None
            ==> noted_error(response) == Some("[api error: "@ + "unknown"@ + "]"@),
{
}

/// The student is told its task, the day, and the persona where there is one, in this
/// order.
pub proof fn lemma_student_prompt_is(today: Seq<char>, persona: Seq<char>)
    ensures
        student_prompt(today, None) == STUDENT_SYSTEM@ + ("\nToday's date is "@ + today + "."@),
        student_prompt(today, Some(persona)) == student_prompt(today, None) + (
        "\n\nPERSONA (speak as this):\n"@ + persona),
{
    assert(student_prompt(today, None) =~= STUDENT_SYSTEM@ + ("\nToday's date is "@ + today
        + "."@));
    assert(student_prompt(today, Some(persona)) =~= student_prompt(today, None) + (
    "\n\nPERSONA (speak as this):\n"@ + persona));
}

/// A search asks one question, in the user's name, of the search's own model, for a
/// short answer in one piece.
pub proof fn lemma_search_asks(question: Seq<char>)
    ensures
        search_prompt(question).take(query(question).len() as int) == query(question),
        ({
            let message = request_message("user"@, search_prompt(question));
            let body = search_body(question);
            let head = "{\"max_completion_tokens\":"@ + decimal(140) + ",\"messages\":["@ + message
                + "],\"model\":"@ + json_quoted("brave"@) + ",\"stream\":false,"@;
            body.take(head.len() as int) == head
        }),
{
    assert(search_prompt(question).take(query(question).len() as int) =~= query(question));
    reveal_strlit("max_completion_tokens");
    reveal_strlit("messages");
    reveal_strlit("model");
    reveal_strlit("stream");
    reveal_strlit("false");
    reveal_strlit("{\"max_completion_tokens\":");
    reveal_strlit(",\"messages\":[");
    reveal_strlit("],\"model\":");
    reveal_strlit(",\"stream\":false,");
    let message = request_message("user"@, search_prompt(question));
    let m1 = member_text("max_completion_tokens"@, decimal(140));
    let m2 = member_text("messages"@, array_text(seq![message]));
    let m3 = member_text("model"@, json_quoted("brave"@));
    let m4 = member_text("stream"@, "false"@);
    let m5 = member_text(
        "web_search_options"@,
        "{\"country\":\"CA\",\"enable_citations\":true,\"enable_entities\":false,\"enable_research\":false,\"language\":\"en\",\"safesearch\":\"moderate\"}"@,
    );
    lemma_five_members(m1, m2, m3, m4, m5);
    lemma_join_is(seq![message], seq![message], seq![',']);
    let n = decimal(140);
    let brave = json_quoted("brave"@);
    assert(seq!['{'] + m1 =~= "{\"max_completion_tokens\":"@ + n);
    assert(seq![','] + m2 + seq![','] + m3 =~= ",\"messages\":["@ + message + "],\"model\":"@
        + brave);
    assert(seq![','] + m4 + seq![','] =~= ",\"stream\":false,"@);
    let head = "{\"max_completion_tokens\":"@ + n + ",\"messages\":["@ + message + "],\"model\":"@
        + brave + ",\"stream\":false,"@;
    let front = (seq!['{'] + m1) + (seq![','] + m2 + seq![','] + m3) + (seq![','] + m4 + seq![',']);
    assert(front =~= head);
    assert(search_body(question) =~= front + (m5 + seq!['}']));
    assert(search_body(question).take(head.len() as int) =~= head);
}

proof fn lemma_five_members(a: Seq<char>, b: Seq<char>, c: Seq<char>, d: Seq<char>, e: Seq<char>)
    ensures
        join_with(seq![a, b, c, d, e], seq![',']) == a + seq![','] + b + seq![','] + c + seq![',']
            + d + seq![','] + e,
{
    reveal_with_fuel(join_with, 6);
    assert(seq![a, b, c, d, e].drop_last() =~= seq![a, b, c, d]);
    assert(seq![a, b, c, d].drop_last() =~= seq![a, b, c]);
    assert(seq![a, b, c].drop_last() =~= seq![a, b]);
    assert(seq![a, b].drop_last() =~= seq![a]);
}

/// A block that is cut off and what stays recent are together what was recent, in its
/// order; at least six messages stay, and the archive is not touched.
pub proof fn lemma_cuts_lead(before: &Chat, boundary: usize, after: &Chat, r: Vec<String>)
    requires
        before.cut_leads_to(boundary, after, r),
        before@.overflows(),
    ensures
        string_views(r@) + after@.recent == before@.recent,
        after@.archive == before@.archive,
        after@.recent.len() >= 6,
        r@.len() > 0,
        boundary < r@.len() ==> r@.len() == block_size(0, before@.recent.len() - 6),
{
    assert(string_views(r@) + after@.recent =~= before@.recent);
    assert(string_views(r@).len() == r@.len());
}

} // verus!
