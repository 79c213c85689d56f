//! Requests to the model service: what is handed to the transfer program, and
//! what its answer means.
use vstd::prelude::*;

use crate::chars::{
    append_str, control, from_chars, is_control, join_chars, join_with, string_views, to_chars,
    trim, trim_chars, views,
};
use crate::json::{
    array_items, document, items_of, json_document, json_items, json_quoted, json_string, lossy,
    lossy_text, nested_object, nested_text, string_at, string_at_pointer, string_value, text_view,
    item_count,
};

verus! {

pub const REQUEST_TIMEOUT_SECS: u64 = 30;

/// The preset that answers when the requested model does not.
pub open spec fn fallback_model() -> Seq<char> {
    "@preset/free"@
}

pub fn fallback() -> (r: String)
    ensures
        r@ == fallback_model(),
{
    "@preset/free".to_owned()
}

/// A character as it stands in a quoted value of the transfer program's
/// configuration; control characters are left out, so that none can end a
/// line.
pub open spec fn escaped_char(c: char) -> Seq<char> {
    if c == '\\' || c == '"' {
        seq!['\\', c]
    } else if control(c) {
        Seq::empty()
    } else {
        seq![c]
    }
}

pub open spec fn escaped(text: Seq<char>) -> Seq<char>
    decreases text.len(),
{
    if text.len() == 0 {
        Seq::empty()
    } else {
        escaped(text.drop_last()) + escaped_char(text.last())
    }
}

pub fn curl_config_escape(text: &str) -> (r: String)
    ensures
        r@ == escaped(text@),
{
    let chars = to_chars(text);
    let mut out: Vec<char> = Vec::new();
    let mut i: usize = 0;
    assert(text@.take(0) =~= Seq::empty());
    while i < chars.len()
        invariant
            i <= chars@.len(),
            chars@ == text@,
            out@ == escaped(text@.take(i as int)),
        decreases chars@.len() - i,
    {
        let c = chars[i];
        let ghost before = out@;
        if c == '\\' || c == '"' {
            out.push('\\');
            out.push(c);
        } else if !is_control(c) {
            out.push(c);
        }
        assert(text@.take(i + 1).drop_last() =~= text@.take(i as int));
        assert(out@ =~= before + escaped_char(c));
        i += 1;
    }
    assert(text@.take(text@.len() as int) =~= text@);
    from_chars(&out)
}

/// What a quoted value is read as, where a backslash keeps the character after
/// it; nothing where a quote would end the value early, or a backslash has
/// nothing to keep.
pub open spec fn quoted_value(s: Seq<char>) -> Option<Seq<char>>
    decreases s.len(),
{
    if s.len() == 0 {
        Some(s)
    } else if s[0] == '"' {
        None
    } else if s[0] == '\\' {
        if s.len() == 1 {
            None
        } else {
            match quoted_value(s.skip(2)) {
                Some(rest) => Some(seq![s[1]] + rest),
                None => None,
            }
        }
    } else {
        match quoted_value(s.skip(1)) {
            Some(rest) => Some(seq![s[0]] + rest),
            None => None,
        }
    }
}

pub open spec fn without_controls(text: Seq<char>) -> Seq<char>
    decreases text.len(),
{
    if text.len() == 0 {
        Seq::empty()
    } else if control(text.last()) {
        without_controls(text.drop_last())
    } else {
        without_controls(text.drop_last()).push(text.last())
    }
}

proof fn lemma_quoted_more(s: Seq<char>, c: char)
    requires
        quoted_value(s) is Some,
    ensures
        quoted_value(s + escaped_char(c)) == Some(
            if control(c) && c != '\\' && c != '"' {
                quoted_value(s)->0
            } else {
                quoted_value(s)->0.push(c)
            },
        ),
    decreases s.len(),
{
    let more = escaped_char(c);
    if s.len() == 0 {
        assert(s + more =~= more);
        reveal_with_fuel(quoted_value, 3);
        if more.len() == 2 {
            assert(more.skip(2) =~= Seq::empty());
            assert(quoted_value(more) == Some(seq![c] + Seq::empty()));
            assert(seq![c] + Seq::<char>::empty() =~= s.push(c));
        } else if more.len() == 1 {
            assert(more.skip(1) =~= Seq::empty());
            assert(seq![c] + Seq::<char>::empty() =~= s.push(c));
        }
    } else if s[0] == '\\' {
        lemma_quoted_more(s.skip(2), c);
        assert((s + more).skip(2) =~= s.skip(2) + more);
        let rest = quoted_value(s.skip(2))->0;
        assert(seq![s[1]] + rest.push(c) =~= (seq![s[1]] + rest).push(c));
    } else {
        lemma_quoted_more(s.skip(1), c);
        assert((s + more).skip(1) =~= s.skip(1) + more);
        let rest = quoted_value(s.skip(1))->0;
        assert(seq![s[0]] + rest.push(c) =~= (seq![s[0]] + rest).push(c));
    }
}

/// An escaped value is read as the text without its control characters, and
/// holds none: it cannot end its line, nor its quotes.
pub proof fn lemma_escaped_value_is_contained(text: Seq<char>)
    ensures
        quoted_value(escaped(text)) == Some(without_controls(text)),
        forall|i: int| 0 <= i < escaped(text).len() ==> !control(#[trigger] escaped(text)[i]),
    decreases text.len(),
{
    if text.len() > 0 {
        lemma_escaped_value_is_contained(text.drop_last());
        lemma_quoted_more(escaped(text.drop_last()), text.last());
    }
}

pub open spec fn config_text(api_key: Seq<char>, body_path: Seq<char>) -> Seq<char> {
    "url = \"https://openrouter.ai/api/v1/chat/completions\"\nheader = \"Authorization: Bearer "@
        + escaped(api_key)
        + "\"\nheader = \"Content-Type: application/json\"\ndata-binary = \"@"@ + escaped(
        body_path,
    ) + "\"\n"@
}

/// The transfer program's configuration for a request whose body lies in a
/// file.
pub fn curl_config(api_key: &str, body_path: &str) -> (r: String)
    ensures
        r@ == config_text(api_key@, body_path@),
{
    let key = curl_config_escape(api_key);
    let path = curl_config_escape(body_path);
    let mut out: Vec<char> = Vec::new();
    append_str(
        &mut out,
        "url = \"https://openrouter.ai/api/v1/chat/completions\"\nheader = \"Authorization: Bearer ",
    );
    append_str(&mut out, key.as_str());
    append_str(
        &mut out,
        "\"\nheader = \"Content-Type: application/json\"\ndata-binary = \"@",
    );
    append_str(&mut out, path.as_str());
    append_str(&mut out, "\"\n");
    assert(out@ =~= config_text(api_key@, body_path@));
    from_chars(&out)
}

/// A document that says no more than an error's message.
pub open spec fn error_document(message: Seq<char>) -> Seq<char> {
    nested_text("error"@, "message"@, message)
}

/// Wraps a message so that it is found where an error's message stands.
pub fn error_shaped(message: &str) -> (r: String)
    ensures
        r@ == error_document(message@),
        string_at(r@, "/error/message"@) == Some(message@),
{
    proof {
        reveal_strlit("error");
        reveal_strlit("message");
        reveal_strlit("/error/message");
        assert("/error/message"@ =~= seq!['/'] + "error"@ + seq!['/'] + "message"@);
    }
    nested_object("error", "message", message)
}

/// The document that an answer's bytes are; what is no JSON counts as an
/// error's message.
pub open spec fn answer(raw: Seq<u8>) -> Seq<char> {
    match json_document(raw) {
        Some(doc) => doc,
        None => error_document(lossy_text(raw)),
    }
}

pub fn parse_json_body(raw: &[u8]) -> (r: String)
    ensures
        r@ == answer(raw@),
        json_document(raw@) is None ==> string_at(r@, "/error/message"@) == Some(
            lossy_text(raw@),
        ),
{
    match document(raw) {
        Some(doc) => doc,
        None => {
            let text = lossy(raw);
            error_shaped(text.as_str())
        },
    }
}

/// Why a transfer failed: the service's own message, else what the transfer
/// program complained of, else its status.
pub open spec fn failure(message: Option<Seq<char>>, stderr: Seq<char>, status: Seq<char>) -> Seq<
    char,
> {
    match message {
        Some(message) => message,
        None => if trim(stderr).len() > 0 {
            trim(stderr)
        } else {
            "OpenRouter request failed with status "@ + status
        },
    }
}

pub fn failure_text(message: Option<String>, stderr: &str, status: &str) -> (r: String)
    ensures
        r@ == failure(text_view(message), stderr@, status@),
{
    if let Some(message) = message {
        return message;
    }
    let chars = to_chars(stderr);
    let complaint = trim_chars(&chars);
    if complaint.len() > 0 {
        from_chars(complaint)
    } else {
        let mut out: Vec<char> = Vec::new();
        append_str(&mut out, "OpenRouter request failed with status ");
        append_str(&mut out, status);
        assert(out@ =~= "OpenRouter request failed with status "@ + status@);
        from_chars(&out)
    }
}

pub open spec fn message_in(doc: Option<Seq<char>>) -> Option<Seq<char>> {
    match doc {
        Some(doc) => string_at(doc, "/error/message"@),
        None => None,
    }
}

/// Why a transfer failed, from what the program printed and its status.
pub fn request_failure(stdout: &[u8], stderr: &[u8], status: &str) -> (r: String)
    ensures
        r@ == failure(message_in(json_document(stdout@)), lossy_text(stderr@), status@),
{
    let message = match document(stdout) {
        Some(doc) => string_at_pointer(doc.as_str(), "/error/message"),
        None => None,
    };
    let complaint = lossy(stderr);
    failure_text(message, complaint.as_str(), status)
}

/// The text of a part of a message.
pub open spec fn part_text(part: Seq<char>) -> Option<Seq<char>> {
    match string_at(part, "/text"@) {
        Some(text) => Some(text),
        None => string_at(part, "/content"@),
    }
}

/// The texts of those parts that have one.
pub open spec fn part_texts(parts: Seq<Seq<char>>) -> Seq<Seq<char>>
    decreases parts.len(),
{
    if parts.len() == 0 {
        Seq::empty()
    } else {
        let before = part_texts(parts.drop_last());
        match part_text(parts.last()) {
            Some(text) => before.push(text),
            None => before,
        }
    }
}

/// A message's content as plain text: a string, or the texts of its parts.
pub open spec fn plain_text(content: Seq<char>) -> Seq<char> {
    match json_string(content) {
        Some(text) => text,
        None => match json_items(content) {
            Some(_) => join_with(part_texts(items_of(content)), seq![' ']),
            None => Seq::empty(),
        },
    }
}

pub fn content_text(content: &str) -> (r: String)
    ensures
        r@ == plain_text(content@),
{
    if let Some(text) = string_value(content) {
        return text;
    }
    if item_count(content).is_none() {
        return String::new();
    }
    let parts = array_items(content);
    let ghost all = string_views(parts@);
    let mut texts: Vec<Vec<char>> = Vec::new();
    let mut i: usize = 0;
    assert(views(texts@) =~= part_texts(all.take(0)));
    while i < parts.len()
        invariant
            i <= parts@.len(),
            all == string_views(parts@),
            views(texts@) =~= part_texts(all.take(i as int)),
        decreases parts@.len() - i,
    {
        let part = parts[i].as_str();
        let text = match string_at_pointer(part, "/text") {
            Some(text) => Some(text),
            None => string_at_pointer(part, "/content"),
        };
        assert(all.take(i + 1).drop_last() =~= all.take(i as int));
        if let Some(text) = text {
            let ghost before = texts@;
            texts.push(to_chars(text.as_str()));
            assert(views(texts@) =~= views(before).push(text@));
        }
        i += 1;
    }
    assert(all.take(all.len() as int) =~= all);
    let mut space: Vec<char> = Vec::new();
    space.push(' ');
    assert(space@ =~= seq![' ']);
    from_chars(&join_chars(&texts, &space))
}

/// A text is escaped one character at a time: a backslash before a quote or a
/// backslash, no control characters, and the rest as it is.
pub proof fn lemma_escaped_is(a: Seq<char>, b: Seq<char>, c: char)
    ensures
        escaped(a + b) == escaped(a) + escaped(b),
        escaped(Seq::empty()).len() == 0,
        c == '"' || c == '\\' ==> escaped(seq![c]) == seq!['\\', c],
        (c as u32) < 32 || 127 <= c as u32 <= 159 ==> escaped(seq![c]).len() == 0,
        c != '"' && c != '\\' && (32 <= c as u32 <= 126 || c as u32 > 159) ==> escaped(seq![c])
            == seq![c],
    decreases b.len(),
{
    assert(seq![c].drop_last() =~= Seq::<char>::empty());
    assert(escaped(Seq::<char>::empty()) =~= Seq::<char>::empty());
    assert(escaped(seq![c]) =~= escaped_char(c));
    if b.len() == 0 {
        assert(a + b =~= a);
        assert(escaped(a) + escaped(b) =~= escaped(a));
    } else {
        lemma_escaped_is(a, b.drop_last(), c);
        assert((a + b).drop_last() =~= a + b.drop_last());
        assert((a + b).last() == b.last());
        assert(escaped(a) + escaped(b.drop_last()) + escaped_char(b.last()) =~= escaped(a)
            + escaped(b));
    }
}

/// What is left of a text without its control characters is all the others, in
/// order.
pub proof fn lemma_without_controls_is(text: Seq<char>)
    ensures
        without_controls(text) == text.filter(
            |c: char| 32 <= c as u32 <= 126 || c as u32 > 159,
        ),
    decreases text.len(),
{
    reveal(Seq::filter);
    let kept = |c: char| 32 <= c as u32 <= 126 || c as u32 > 159;
    if text.len() > 0 {
        lemma_without_controls_is(text.drop_last());
        assert(kept(text.last()) == !control(text.last()));
    } else {
        assert(text.filter(kept) =~= without_controls(text));
    }
}

/// The request's settings: where it goes, the key in the header, and the file that
/// holds the body, each on a line of its own and in quotes.
pub proof fn lemma_config_text_is(api_key: Seq<char>, body_path: Seq<char>)
    ensures
        config_text(api_key, body_path) == (
        "url = \"https://openrouter.ai/api/v1/chat/completions\"\nheader = \"Authorization: Bearer "@
            + escaped(api_key)) + (
        "\"\nheader = \"Content-Type: application/json\"\ndata-binary = \"@"@ + escaped(body_path)
            + "\"\n"@),
{
    assert(config_text(api_key, body_path) =~= (
    "url = \"https://openrouter.ai/api/v1/chat/completions\"\nheader = \"Authorization: Bearer "@
        + escaped(api_key)) + (
    "\"\nheader = \"Content-Type: application/json\"\ndata-binary = \"@"@ + escaped(body_path)
        + "\"\n"@));
}

/// Why a request failed: what the service said, else what the command said,
/// without the blanks round it, else the command's status.
pub proof fn lemma_failure_is(message: Seq<char>, stderr: Seq<char>, status: Seq<char>)
    ensures
        failure(Some(message), stderr, status) == message,
        trim(stderr).len() > 0 ==> failure(None, stderr, status) == trim(stderr),
        trim(stderr).len() == 0 ==> failure(None, stderr, status)
            == "OpenRouter request failed with status "@ + status,
{
}

/// The text of a reply is the content where that is a string, and else the texts of
/// its parts with spaces between them, each from `text` or else from `content`.
pub proof fn lemma_plain_text_is(content: Seq<char>)
    ensures
        json_string(content) matches Some(text) ==> plain_text(content) == text,
        json_string(content) is None && json_items(content) is None ==> plain_text(content).len()
            == 0,
        json_string(content) is None && json_items(content) is Some ==> plain_text(content)
            == join_with(
            items_of(content).filter_map(
                |part: Seq<char>|
                    if string_at(part, "/text"@) is Some {
                        string_at(part, "/text"@)
                    } else {
                        string_at(part, "/content"@)
                    },
            ),
            seq![' '],
        ),
{
    lemma_part_texts_are(items_of(content));
}

proof fn lemma_part_texts_are(parts: Seq<Seq<char>>)
    ensures
        part_texts(parts) == parts.filter_map(
            |part: Seq<char>|
                if string_at(part, "/text"@) is Some {
                    string_at(part, "/text"@)
                } else {
                    string_at(part, "/content"@)
                },
        ),
    decreases parts.len(),
{
    let f = |part: Seq<char>|
        if string_at(part, "/text"@) is Some {
            string_at(part, "/text"@)
        } else {
            string_at(part, "/content"@)
        };
    if parts.len() > 0 {
        lemma_part_texts_are(parts.drop_last());
        assert(f(parts.last()) == part_text(parts.last()));
        assert(part_texts(parts) =~= parts.filter_map(f));
    } else {
        assert(part_texts(parts) =~= parts.filter_map(f));
    }
}

/// What came back is the document where it is one, and else an error that shows
/// it.
pub proof fn lemma_answer_is(raw: Seq<u8>)
    ensures
        json_document(raw) matches Some(doc) ==> answer(raw) == doc,
        json_document(raw) is None ==> answer(raw) == "{\"error\":{\"message\":"@ + json_quoted(
            lossy_text(raw),
        ) + "}}"@,
{
    reveal_strlit("error");
    reveal_strlit("message");
    reveal_strlit("{\"error\":{\"message\":");
    reveal_strlit("}}");
    reveal_with_fuel(join_with, 2);
    let q = json_quoted(lossy_text(raw));
    assert(crate::json::nested_text("error"@, "message"@, lossy_text(raw))
        =~= "{\"error\":{\"message\":"@ + q + "}}"@);
}

/// A message of an error is read from the document, where there is one.
pub proof fn lemma_message_in_is(doc: Seq<char>)
    ensures
        message_in(None) is None,
        message_in(Some(doc)) == string_at(doc, "/error/message"@),
        fallback_model() == "@preset/free"@,
{
}

} // verus!
