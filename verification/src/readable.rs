//! Texts made short and readable: pages without their markup, and texts cut
//! to a number of bytes.
use vstd::prelude::*;
use vstd::slice::slice_subrange;
use vstd::utf8::encode_utf8;

use crate::chars::{
    append_str, ascii_lower, chars_within, from_chars, join_chars, join_with,
    lemma_nothing_to_replace, lemma_replaced_is, replace_chars, replaced_all, split_words,
    starts_with, to_ascii_lower, to_chars, trim_end, trim_end_chars, views, words_of,
};
use crate::text::edit::chars_before;

verus! {

/// A text with another behind what is left of it when it is cut to so many
/// bytes; a text that fits stays as it is.
pub open spec fn clipped(s: Seq<char>, bytes: nat) -> Seq<char> {
    if chars_within(s, bytes) == s.len() {
        s
    } else {
        s.take(chars_within(s, bytes) as int) + "…[truncated]"@
    }
}

pub fn truncate(s: &str, n: usize) -> (r: String)
    ensures
        r@ == clipped(s@, n as nat),
{
    let chars = to_chars(s);
    let kept: usize = chars_before(s, n);
    if kept == chars.len() {
        return s.to_owned();
    }
    let head = slice_subrange(chars.as_slice(), 0, kept);
    assert(head@ =~= s@.take(kept as int));
    let mut out = crate::chars::copy_chars(head);
    append_str(&mut out, "…[truncated]");
    from_chars(&out)
}

/// What a cut keeps of a text takes no more bytes than it may, and the next
/// character would take more.
pub proof fn lemma_cut_fits(s: Seq<char>, bytes: nat)
    ensures
        chars_within(s, bytes) <= s.len(),
        encode_utf8(s.take(chars_within(s, bytes) as int)).len() <= bytes || s.len() == 0,
        chars_within(s, bytes) < s.len() ==> encode_utf8(
            s.take(chars_within(s, bytes) as int + 1),
        ).len() > bytes,
    decreases s.len(),
{
    assert(s.take(s.len() as int) =~= s);
    if s.len() > 0 && encode_utf8(s).len() > bytes {
        let front = s.drop_last();
        lemma_cut_fits(front, bytes);
        let k = chars_within(front, bytes) as int;
        assert(front.take(k) =~= s.take(k));
        if k < front.len() {
            assert(front.take(k + 1) =~= s.take(k + 1));
        } else {
            assert(s.take(k + 1) =~= s);
        }
        if front.len() == 0 {
            assert(s.take(0) =~= Seq::<char>::empty());
            assert(encode_utf8(Seq::<char>::empty()) =~= Seq::<u8>::empty());
        }
    }
}

/// Whether a text starts with a pattern, in whatever case.
pub open spec fn starts_like(s: Seq<char>, pattern: Seq<char>) -> bool {
    s.len() >= pattern.len() && forall|i: int|
        0 <= i < pattern.len() ==> ascii_lower(#[trigger] s[i]) == ascii_lower(pattern[i])
}

fn starts_like_at(s: &[char], at: usize, pattern: &str) -> (r: bool)
    requires
        at <= s@.len(),
    ensures
        r == starts_like(s@.skip(at as int), pattern@),
{
    let p = to_chars(pattern);
    let ghost rest = s@.skip(at as int);
    let n: usize = s.len();
    if n - at < p.len() {
        return false;
    }
    let mut i: usize = 0;
    while i < p.len()
        invariant
            i <= p@.len(),
            at <= s@.len(),
            n == s@.len(),
            p@ == pattern@,
            rest == s@.skip(at as int),
            rest.len() >= p@.len(),
            forall|j: int|
                0 <= j < i ==> ascii_lower(#[trigger] rest[j]) == ascii_lower(pattern@[j]),
        decreases p@.len() - i,
    {
        assert(rest[i as int] == s@[at + i]);
        if to_ascii_lower(s[at + i]) != to_ascii_lower(p[i]) {
            return false;
        }
        i += 1;
    }
    true
}

/// What follows the end of a tag.
pub open spec fn after_tag(s: Seq<char>) -> Seq<char>
    decreases s.len(),
{
    if s.len() == 0 {
        s
    } else if s[0] == '>' {
        s.skip(1)
    } else {
        after_tag(s.skip(1))
    }
}

/// What follows a tag is no longer than the tag and what follows it.
pub proof fn lemma_after_tag_shrinks(s: Seq<char>)
    ensures
        after_tag(s).len() <= s.len(),
    decreases s.len(),
{
    if s.len() > 0 && s[0] != '>' {
        lemma_after_tag_shrinks(s.skip(1));
    }
}

/// What part of a page is read.
#[derive(Clone, Copy, Debug, PartialEq, Eq, Structural)]
pub enum Part {
    Shown,
    Script,
    Style,
}

/// The part that a tag begins.
pub open spec fn begun(s: Seq<char>) -> Part {
    if starts_like(s, "<script"@) {
        Part::Script
    } else if starts_like(s, "<style"@) {
        Part::Style
    } else {
        Part::Shown
    }
}

pub open spec fn end_tag(part: Part) -> Seq<char> {
    match part {
        Part::Script => "</script>"@,
        _ => "</style>"@,
    }
}

/// A page's text: without what scripts and styles hold, and with a space for
/// every tag.
pub open spec fn tags_dropped(s: Seq<char>, part: Part) -> Seq<char>
    decreases s.len(),
{
    if s.len() == 0 {
        s
    } else {
        let after = after_tag(s.skip(1));
        proof {
            lemma_after_tag_shrinks(s.skip(1));
        }
        match part {
            Part::Shown => if s[0] == '<' {
                seq![' '] + tags_dropped(after, begun(s))
            } else {
                seq![s[0]] + tags_dropped(s.skip(1), Part::Shown)
            },
            _ => if starts_like(s, end_tag(part)) {
                seq![' '] + tags_dropped(after, Part::Shown)
            } else {
                tags_dropped(s.skip(1), part)
            },
        }
    }
}

/// No tag is left of a page.
pub proof fn lemma_no_tags_left(s: Seq<char>, part: Part)
    ensures
        forall|i: int|
            0 <= i < tags_dropped(s, part).len() ==> #[trigger] tags_dropped(s, part)[i] != '<',
    decreases s.len(),
{
    if s.len() > 0 {
        let after = after_tag(s.skip(1));
        lemma_after_tag_shrinks(s.skip(1));
        lemma_no_tags_left(s.skip(1), part);
        lemma_no_tags_left(after, Part::Shown);
        lemma_no_tags_left(after, Part::Script);
        lemma_no_tags_left(after, Part::Style);
        let text = tags_dropped(s, part);
        assert forall|i: int| 0 <= i < text.len() implies #[trigger] text[i] != '<' by {
            match part {
                Part::Shown => if s[0] == '<' {
                    let rest = tags_dropped(after, begun(s));
                    assert(text == seq![' '] + rest);
                    assert(i > 0 ==> text[i] == rest[i - 1]);
                } else {
                    let rest = tags_dropped(s.skip(1), Part::Shown);
                    assert(text == seq![s[0]] + rest);
                    assert(i > 0 ==> text[i] == rest[i - 1]);
                },
                _ => if starts_like(s, end_tag(part)) {
                    let rest = tags_dropped(after, Part::Shown);
                    assert(text == seq![' '] + rest);
                    assert(i > 0 ==> text[i] == rest[i - 1]);
                } else {
                    assert(text == tags_dropped(s.skip(1), part));
                },
            }
        }
    }
}

/// The place behind the end of a tag that starts before `from`.
fn tag_end(s: &[char], from: usize) -> (r: usize)
    requires
        from <= s@.len(),
    ensures
        from <= r <= s@.len(),
        s@.skip(r as int) == after_tag(s@.skip(from as int)),
{
    let mut i: usize = from;
    while i < s.len()
        invariant
            from <= i <= s@.len(),
            after_tag(s@.skip(i as int)) == after_tag(s@.skip(from as int)),
        decreases s@.len() - i,
    {
        assert(s@.skip(i as int).skip(1) =~= s@.skip(i + 1));
        if s[i] == '>' {
            return i + 1;
        }
        i += 1;
    }
    assert(s@.skip(i as int) =~= Seq::empty());
    i
}

fn drop_tags(s: &[char]) -> (r: Vec<char>)
    ensures
        r@ == tags_dropped(s@, Part::Shown),
{
    let mut out: Vec<char> = Vec::new();
    let mut part = Part::Shown;
    let mut i: usize = 0;
    assert(s@.skip(0) =~= s@);
    assert(out@ + tags_dropped(s@, Part::Shown) =~= tags_dropped(s@, Part::Shown));
    while i < s.len()
        invariant
            i <= s@.len(),
            out@ + tags_dropped(s@.skip(i as int), part) == tags_dropped(s@, Part::Shown),
        decreases s@.len() - i,
    {
        let ghost before = out@;
        let ghost rest = s@.skip(i as int);
        assert(rest.skip(1) =~= s@.skip(i + 1));
        let shown = match part {
            Part::Shown => true,
            _ => false,
        };
        if shown {
            if s[i] == '<' {
                part = if starts_like_at(s, i, "<script") {
                    Part::Script
                } else if starts_like_at(s, i, "<style") {
                    Part::Style
                } else {
                    Part::Shown
                };
                i = tag_end(s, i + 1);
                out.push(' ');
                assert(out@ + tags_dropped(s@.skip(i as int), part) =~= before + (seq![' ']
                    + tags_dropped(s@.skip(i as int), part)));
            } else {
                out.push(s[i]);
                i += 1;
                assert(out@ + tags_dropped(s@.skip(i as int), part) =~= before + (seq![rest[0]]
                    + tags_dropped(s@.skip(i as int), part)));
            }
        } else {
            let ended = match part {
                Part::Script => starts_like_at(s, i, "</script>"),
                _ => starts_like_at(s, i, "</style>"),
            };
            if ended {
                part = Part::Shown;
                i = tag_end(s, i + 1);
                out.push(' ');
                assert(out@ + tags_dropped(s@.skip(i as int), part) =~= before + (seq![' ']
                    + tags_dropped(s@.skip(i as int), part)));
            } else {
                i += 1;
            }
        }
    }
    assert(s@.skip(i as int) =~= Seq::empty());
    assert(out@ + Seq::<char>::empty() =~= out@);
    out
}

/// The common entities as the characters they stand for.
pub open spec fn entities_decoded(s: Seq<char>) -> Seq<char> {
    replaced_all(
        replaced_all(
            replaced_all(
                replaced_all(
                    replaced_all(replaced_all(s, "&amp;"@, "&"@), "&lt;"@, "<"@),
                    "&gt;"@,
                    ">"@,
                ),
                "&quot;"@,
                "\""@,
            ),
            "&#39;"@,
            "'"@,
        ),
        "&nbsp;"@,
        " "@,
    )
}

fn replace_text(s: &[char], needle: &str, with: &str) -> (r: Vec<char>)
    requires
        needle@.len() > 0,
    ensures
        r@ == replaced_all(s@, needle@, with@),
{
    let n = to_chars(needle);
    let w = to_chars(with);
    replace_chars(s, &n, &w)
}

/// A page as plain words, one space apart.
pub open spec fn page_text(html: Seq<char>) -> Seq<char> {
    join_with(words_of(entities_decoded(tags_dropped(html, Part::Shown))), seq![' '])
}

pub fn html_to_text(html: &str) -> (r: String)
    ensures
        r@ == page_text(html@),
{
    let chars = to_chars(html);
    let text = drop_tags(&chars);
    proof {
        reveal_strlit("&amp;");
        reveal_strlit("&lt;");
        reveal_strlit("&gt;");
        reveal_strlit("&quot;");
        reveal_strlit("&#39;");
        reveal_strlit("&nbsp;");
    }
    let text = replace_text(&text, "&amp;", "&");
    let text = replace_text(&text, "&lt;", "<");
    let text = replace_text(&text, "&gt;", ">");
    let text = replace_text(&text, "&quot;", "\"");
    let text = replace_text(&text, "&#39;", "'");
    let text = replace_text(&text, "&nbsp;", " ");
    let words = split_words(&text);
    let mut space: Vec<char> = Vec::new();
    space.push(' ');
    assert(space@ =~= seq![' ']);
    from_chars(&join_chars(&words, &space))
}

/// A page's words, cut to a number of bytes with three dots behind.
pub open spec fn compacted(text: Seq<char>, bytes: nat) -> Seq<char> {
    let plain = page_text(text);
    if chars_within(plain, bytes) == plain.len() {
        plain
    } else {
        trim_end(plain.take(chars_within(plain, bytes) as int)) + "..."@
    }
}

pub fn compact_text(text: &str, max_bytes: usize) -> (r: String)
    ensures
        r@ == compacted(text@, max_bytes as nat),
{
    let plain = html_to_text(text);
    let chars = to_chars(plain.as_str());
    let kept: usize = chars_before(plain.as_str(), max_bytes);
    if kept == chars.len() {
        return plain;
    }
    let head = slice_subrange(chars.as_slice(), 0, kept);
    assert(head@ =~= chars@.take(kept as int));
    let mut out = crate::chars::copy_chars(trim_end_chars(head));
    append_str(&mut out, "...");
    from_chars(&out)
}

pub open spec fn first_words(words: Seq<Seq<char>>, n: int) -> Seq<Seq<char>> {
    if words.len() > n {
        words.take(n)
    } else {
        words
    }
}

/// A question short enough to be searched for.
pub open spec fn query(question: Seq<char>) -> Seq<char> {
    compacted(join_with(first_words(words_of(question), 50), seq![' ']), 400)
}

pub fn brave_query(question: &str) -> (r: String)
    ensures
        r@ == query(question@),
{
    let chars = to_chars(question);
    let mut words = split_words(&chars);
    let ghost all = views(words@);
    if words.len() > 50 {
        words.truncate(50);
    }
    assert(views(words@) =~= first_words(all, 50));
    let mut space: Vec<char> = Vec::new();
    space.push(' ');
    assert(space@ =~= seq![' ']);
    let line = from_chars(&join_chars(&words, &space));
    compact_text(line.as_str(), 400)
}

/// A text that is short enough stays. A longer one is cut to as many whole
/// characters as fit, and says so.
pub proof fn lemma_clipped_is(s: Seq<char>, bytes: nat)
    ensures
        encode_utf8(s).len() <= bytes ==> clipped(s, bytes) == s,
        encode_utf8(s).len() > bytes && s.len() > 0 ==> exists|n: int|
            #![trigger s.take(n)]
            0 <= n < s.len() && clipped(s, bytes) == s.take(n) + "…[truncated]"@ && encode_utf8(
                s.take(n),
            ).len() <= bytes && encode_utf8(s.take(n + 1)).len() > bytes,
{
    lemma_cut_fits(s, bytes);
    let n = chars_within(s, bytes) as int;
    assert(s.take(s.len() as int) =~= s);
    if encode_utf8(s).len() > bytes && s.len() > 0 {
        assert(n < s.len());
        assert(clipped(s, bytes) == s.take(n) + "…[truncated]"@);
    }
}

/// A tag ends at the first closing bracket.
pub proof fn lemma_after_tag_is(inner: Seq<char>, rest: Seq<char>)
    requires
        forall|i: int| 0 <= i < inner.len() ==> #[trigger] inner[i] != '>',
    ensures
        after_tag(inner + seq!['>'] + rest) == rest,
        after_tag(inner).len() == 0,
    decreases inner.len(),
{
    let s = inner + seq!['>'] + rest;
    if inner.len() > 0 {
        assert(s[0] == inner[0]);
        assert(s.skip(1) =~= inner.skip(1) + seq!['>'] + rest);
        lemma_after_tag_is(inner.skip(1), rest);
    } else {
        assert(s.skip(1) =~= rest);
    }
}

/// Text outside tags is kept, a tag becomes a space, and what follows it goes on in
/// the same way. Of a script or a style nothing is kept up to its end.
pub proof fn lemma_tags_become_spaces(
    text: Seq<char>,
    inner: Seq<char>,
    rest: Seq<char>,
    hidden: Seq<char>,
)
    requires
        forall|i: int| 0 <= i < text.len() ==> #[trigger] text[i] != '<',
        forall|i: int| 0 <= i < inner.len() ==> #[trigger] inner[i] != '>',
    ensures
        tags_dropped(text, Part::Shown) == text,
        ({
            let html = seq!['<'] + inner + seq!['>'] + rest;
            &&& !starts_like(html, "<script"@) && !starts_like(html, "<style"@) ==> tags_dropped(
                text + html,
                Part::Shown,
            ) == text + seq![' '] + tags_dropped(rest, Part::Shown)
            &&& starts_like(html, "<script"@) ==> tags_dropped(text + html, Part::Shown) == text
                + seq![' '] + tags_dropped(rest, Part::Script)
            &&& starts_like(html, "<style"@) && !starts_like(html, "<script"@) ==> tags_dropped(
                text + html,
                Part::Shown,
            ) == text + seq![' '] + tags_dropped(rest, Part::Style)
        }),
        (forall|i: int| 0 <= i < hidden.len() ==> #[trigger] hidden[i] != '<') ==> tags_dropped(
            hidden + "</script>"@ + rest,
            Part::Script,
        ) == seq![' '] + tags_dropped(rest, Part::Shown) && tags_dropped(
            hidden + "</style>"@ + rest,
            Part::Style,
        ) == seq![' '] + tags_dropped(rest, Part::Shown) && tags_dropped(hidden, Part::Script).len()
            == 0 && tags_dropped(hidden, Part::Style).len() == 0,
{
    let html = seq!['<'] + inner + seq!['>'] + rest;
    assert(html.skip(1) =~= inner + seq!['>'] + rest);
    lemma_after_tag_is(inner, rest);
    lemma_shown_kept(text, html);
    lemma_shown_kept(text, Seq::empty());
    assert(text + Seq::<char>::empty() =~= text);
    assert(text + tags_dropped(Seq::<char>::empty(), Part::Shown) =~= text);
    assert(text + (seq![' '] + tags_dropped(rest, begun(html))) =~= text + seq![' '] + tags_dropped(
        rest,
        begun(html),
    ));
    if forall|i: int| 0 <= i < hidden.len() ==> #[trigger] hidden[i] != '<' {
        lemma_hidden_dropped(hidden, rest);
    }
}

proof fn lemma_shown_kept(text: Seq<char>, rest: Seq<char>)
    requires
        forall|i: int| 0 <= i < text.len() ==> #[trigger] text[i] != '<',
    ensures
        tags_dropped(text + rest, Part::Shown) == text + tags_dropped(rest, Part::Shown),
    decreases text.len(),
{
    let all = text + rest;
    if text.len() > 0 {
        assert(all[0] == text[0]);
        assert(all.skip(1) =~= text.skip(1) + rest);
        lemma_shown_kept(text.skip(1), rest);
        assert(seq![text[0]] + (text.skip(1) + tags_dropped(rest, Part::Shown)) =~= text
            + tags_dropped(rest, Part::Shown));
    } else {
        assert(all =~= rest);
        assert(text + tags_dropped(rest, Part::Shown) =~= tags_dropped(rest, Part::Shown));
    }
}

proof fn lemma_hidden_dropped(hidden: Seq<char>, rest: Seq<char>)
    requires
        forall|i: int| 0 <= i < hidden.len() ==> #[trigger] hidden[i] != '<',
    ensures
        tags_dropped(hidden + "</script>"@ + rest, Part::Script) == seq![' '] + tags_dropped(
            rest,
            Part::Shown,
        ),
        tags_dropped(hidden + "</style>"@ + rest, Part::Style) == seq![' '] + tags_dropped(
            rest,
            Part::Shown,
        ),
        tags_dropped(hidden, Part::Script).len() == 0,
        tags_dropped(hidden, Part::Style).len() == 0,
    decreases hidden.len(),
{
    reveal_strlit("</script>");
    reveal_strlit("</style>");
    let a = hidden + "</script>"@ + rest;
    let b = hidden + "</style>"@ + rest;
    if hidden.len() > 0 {
        assert(a[0] == hidden[0] && b[0] == hidden[0]);
        assert(ascii_lower(hidden[0]) != '<');
        assert(!starts_like(a, "</script>"@)) by {
            assert(ascii_lower("</script>"@[0]) == '<');
            if starts_like(a, "</script>"@) {
                assert(ascii_lower(a[0]) == ascii_lower("</script>"@[0]));
            }
        }
        assert(!starts_like(b, "</style>"@)) by {
            assert(ascii_lower("</style>"@[0]) == '<');
            if starts_like(b, "</style>"@) {
                assert(ascii_lower(b[0]) == ascii_lower("</style>"@[0]));
            }
        }
        assert(!starts_like(hidden, "</script>"@)) by {
            if starts_like(hidden, "</script>"@) {
                assert(ascii_lower(hidden[0]) == ascii_lower("</script>"@[0]));
            }
        }
        assert(!starts_like(hidden, "</style>"@)) by {
            if starts_like(hidden, "</style>"@) {
                assert(ascii_lower(hidden[0]) == ascii_lower("</style>"@[0]));
            }
        }
        assert(a.skip(1) =~= hidden.skip(1) + "</script>"@ + rest);
        assert(b.skip(1) =~= hidden.skip(1) + "</style>"@ + rest);
        lemma_hidden_dropped(hidden.skip(1), rest);
    } else {
        assert forall|i: int| 0 <= i < 9 implies #[trigger] a[i] == "</script>"@[i] by {}
        assert forall|i: int| 0 <= i < 8 implies #[trigger] b[i] == "</style>"@[i] by {}
        let x = seq!['/', 's', 'c', 'r', 'i', 'p', 't'];
        let y = seq!['/', 's', 't', 'y', 'l', 'e'];
        assert(a.skip(1) =~= x + seq!['>'] + rest);
        assert(b.skip(1) =~= y + seq!['>'] + rest);
        lemma_after_tag_is(x, rest);
        lemma_after_tag_is(y, rest);
    }
}

/// A pattern is met in either case of its letters, at the front.
pub proof fn lemma_patterns_are_met(s: Seq<char>, c: char, pattern: Seq<char>)
    ensures
        starts_like(pattern + s, pattern),
        s.len() < pattern.len() ==> !starts_like(s, pattern),
        pattern.len() > 0 && 'a' <= pattern[0] && pattern[0] <= 'z' && starts_like(
            seq![c] + s,
            pattern,
        ) ==> c == pattern[0] || c as u32 == pattern[0] as u32 - 32,
{
    let all = pattern + s;
    assert forall|i: int| 0 <= i < pattern.len() implies ascii_lower(#[trigger] all[i])
        == ascii_lower(pattern[i]) by {}
    if pattern.len() > 0 && starts_like(seq![c] + s, pattern) {
        assert(ascii_lower((seq![c] + s)[0]) == ascii_lower(pattern[0]));
    }
}

/// The text of a page without tags and entities is its words with one space
/// between them.
pub proof fn lemma_plain_page(html: Seq<char>)
    requires
        forall|i: int| 0 <= i < html.len() ==> #[trigger] html[i] != '<' && html[i] != '&',
    ensures
        page_text(html) == join_with(words_of(html), seq![' ']),
{
    lemma_tags_become_spaces(html, Seq::empty(), Seq::empty(), Seq::empty());
    lemma_no_entities(html);
}

proof fn lemma_no_entities(s: Seq<char>)
    requires
        forall|i: int| 0 <= i < s.len() ==> #[trigger] s[i] != '&',
    ensures
        entities_decoded(s) == s,
{
    reveal_strlit("&amp;");
    reveal_strlit("&lt;");
    reveal_strlit("&gt;");
    reveal_strlit("&quot;");
    reveal_strlit("&#39;");
    reveal_strlit("&nbsp;");
    lemma_no_needle(s, "&amp;"@, "&"@);
    lemma_no_needle(s, "&lt;"@, "<"@);
    lemma_no_needle(s, "&gt;"@, ">"@);
    lemma_no_needle(s, "&quot;"@, "\""@);
    lemma_no_needle(s, "&#39;"@, "'"@);
    lemma_no_needle(s, "&nbsp;"@, " "@);
}

proof fn lemma_no_needle(s: Seq<char>, needle: Seq<char>, with: Seq<char>)
    requires
        needle.len() > 0,
        needle[0] == '&',
        forall|i: int| 0 <= i < s.len() ==> #[trigger] s[i] != '&',
    ensures
        replaced_all(s, needle, with) == s,
{
    assert forall|i: int| 0 <= i < s.len() implies !starts_with(#[trigger] s.skip(i), needle) by {
        if starts_with(s.skip(i), needle) {
            assert(s.skip(i).take(needle.len() as int)[0] == s[i]);
        }
    }
    lemma_nothing_to_replace(s, needle, with);
}

proof fn lemma_one_needle(a: Seq<char>, needle: Seq<char>, b: Seq<char>, with: Seq<char>)
    requires
        needle.len() > 0,
        needle[0] == '&',
        forall|i: int| 0 <= i < a.len() ==> #[trigger] a[i] != '&',
        forall|i: int| 0 <= i < b.len() ==> #[trigger] b[i] != '&',
    ensures
        replaced_all(a + needle + b, needle, with) == a + with + b,
{
    let s = a + needle + b;
    assert forall|i: int| 0 <= i < a.len() implies !starts_with(#[trigger] s.skip(i), needle) by {
        if starts_with(s.skip(i), needle) {
            assert(s.skip(i).take(needle.len() as int)[0] == s[i]);
            assert(s[i] == a[i]);
        }
    }
    lemma_replaced_is(a, needle, b, with);
    lemma_no_needle(b, needle, with);
}

proof fn lemma_other_needle(
    a: Seq<char>,
    entity: Seq<char>,
    b: Seq<char>,
    needle: Seq<char>,
    with: Seq<char>,
)
    requires
        entity.len() > 1,
        needle.len() > 1,
        entity[0] == '&',
        needle[0] == '&',
        entity[1] != needle[1],
        forall|i: int| 1 <= i < entity.len() ==> #[trigger] entity[i] != '&',
        forall|i: int| 0 <= i < a.len() ==> #[trigger] a[i] != '&',
        forall|i: int| 0 <= i < b.len() ==> #[trigger] b[i] != '&',
    ensures
        replaced_all(a + entity + b, needle, with) == a + entity + b,
{
    let s = a + entity + b;
    assert forall|i: int| 0 <= i < s.len() implies !starts_with(#[trigger] s.skip(i), needle) by {
        if starts_with(s.skip(i), needle) {
            let t = s.skip(i).take(needle.len() as int);
            assert(t[0] == s[i] && t[1] == s[i + 1]);
            if i < a.len() {
                assert(s[i] == a[i]);
            } else if i < a.len() + entity.len() {
                assert(s[i] == entity[i - a.len()]);
                assert(s[i + 1] == entity[1]);
            } else {
                assert(s[i] == b[i - a.len() - entity.len()]);
            }
        }
    }
    lemma_nothing_to_replace(s, needle, with);
}

/// Each of the known entities stands for its own sign.
pub proof fn lemma_entities_are(a: Seq<char>, b: Seq<char>)
    requires
        forall|i: int| 0 <= i < a.len() ==> #[trigger] a[i] != '&',
        forall|i: int| 0 <= i < b.len() ==> #[trigger] b[i] != '&',
    ensures
        entities_decoded(a + "&lt;"@ + b) == a + seq!['<'] + b,
        entities_decoded(a + "&gt;"@ + b) == a + seq!['>'] + b,
        entities_decoded(a + "&quot;"@ + b) == a + seq!['"'] + b,
        entities_decoded(a + "&#39;"@ + b) == a + seq!['\''] + b,
        entities_decoded(a + "&nbsp;"@ + b) == a + seq![' '] + b,
{
    reveal_strlit("&amp;");
    reveal_strlit("&lt;");
    reveal_strlit("&gt;");
    reveal_strlit("&quot;");
    reveal_strlit("&#39;");
    reveal_strlit("&nbsp;");
    reveal_strlit("<");
    reveal_strlit(">");
    reveal_strlit("\"");
    reveal_strlit("'");
    reveal_strlit(" ");
    assert("<"@ =~= seq!['<'] && ">"@ =~= seq!['>'] && "\""@ =~= seq!['"'] && "'"@ =~= seq!['\'']
        && " "@ =~= seq![' ']);
    // The entities that come before each are left alone, and none is made.
    lemma_other_needle(a, "&lt;"@, b, "&amp;"@, "&"@);
    lemma_one_needle(a, "&lt;"@, b, "<"@);
    lemma_plain_rest(a + "<"@ + b);
    lemma_other_needle(a, "&gt;"@, b, "&amp;"@, "&"@);
    lemma_other_needle(a, "&gt;"@, b, "&lt;"@, "<"@);
    lemma_one_needle(a, "&gt;"@, b, ">"@);
    lemma_plain_rest(a + ">"@ + b);
    lemma_other_needle(a, "&quot;"@, b, "&amp;"@, "&"@);
    lemma_other_needle(a, "&quot;"@, b, "&lt;"@, "<"@);
    lemma_other_needle(a, "&quot;"@, b, "&gt;"@, ">"@);
    lemma_one_needle(a, "&quot;"@, b, "\""@);
    lemma_plain_rest(a + "\""@ + b);
    lemma_other_needle(a, "&#39;"@, b, "&amp;"@, "&"@);
    lemma_other_needle(a, "&#39;"@, b, "&lt;"@, "<"@);
    lemma_other_needle(a, "&#39;"@, b, "&gt;"@, ">"@);
    lemma_other_needle(a, "&#39;"@, b, "&quot;"@, "\""@);
    lemma_one_needle(a, "&#39;"@, b, "'"@);
    lemma_plain_rest(a + "'"@ + b);
    lemma_other_needle(a, "&nbsp;"@, b, "&amp;"@, "&"@);
    lemma_other_needle(a, "&nbsp;"@, b, "&lt;"@, "<"@);
    lemma_other_needle(a, "&nbsp;"@, b, "&gt;"@, ">"@);
    lemma_other_needle(a, "&nbsp;"@, b, "&quot;"@, "\""@);
    lemma_other_needle(a, "&nbsp;"@, b, "&#39;"@, "'"@);
    lemma_one_needle(a, "&nbsp;"@, b, " "@);
}

proof fn lemma_plain_rest(s: Seq<char>)
    requires
        forall|i: int| 0 <= i < s.len() ==> #[trigger] s[i] != '&',
    ensures
        replaced_all(s, "&gt;"@, ">"@) == s,
        replaced_all(s, "&quot;"@, "\""@) == s,
        replaced_all(s, "&#39;"@, "'"@) == s,
        replaced_all(s, "&nbsp;"@, " "@) == s,
{
    reveal_strlit("&gt;");
    reveal_strlit("&quot;");
    reveal_strlit("&#39;");
    reveal_strlit("&nbsp;");
    lemma_no_needle(s, "&gt;"@, ">"@);
    lemma_no_needle(s, "&quot;"@, "\""@);
    lemma_no_needle(s, "&#39;"@, "'"@);
    lemma_no_needle(s, "&nbsp;"@, " "@);
}

/// A question is cut to its first fifty words, and these to four hundred bytes at
/// most, with dots where something was cut off.
pub proof fn lemma_query_is(question: Seq<char>)
    ensures
        ({
            let words = words_of(question);
            let asked = join_with(
                if words.len() > 50 {
                    words.take(50)
                } else {
                    words
                },
                seq![' '],
            );
            query(question) == compacted(asked, 400)
        }),
        ({
            let plain = page_text(question);
            &&& encode_utf8(plain).len() <= 400 ==> compacted(question, 400) == plain
            &&& encode_utf8(plain).len() > 400 && plain.len() > 0 ==> exists|n: int|
                #![trigger plain.take(n)]
                0 <= n < plain.len() && compacted(question, 400) == trim_end(plain.take(n))
                    + "..."@ && encode_utf8(plain.take(n)).len() <= 400 && encode_utf8(
                    plain.take(n + 1),
                ).len() > 400
        }),
{
    let plain = page_text(question);
    lemma_cut_fits(plain, 400);
    let n = chars_within(plain, 400) as int;
    assert(plain.take(plain.len() as int) =~= plain);
    if encode_utf8(plain).len() > 400 && plain.len() > 0 {
        assert(n < plain.len());
        assert(compacted(question, 400) == trim_end(plain.take(n)) + "..."@);
    }
}

} // verus!
