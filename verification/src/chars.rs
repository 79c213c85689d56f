//! Text as sequences of characters: conversion, trimming, splitting, decimal
//! numbers and the character classes that the rest of the library needs.
use vstd::prelude::*;
use vstd::slice::slice_subrange;
use vstd::utf8::{encode_scalar, encode_utf8};

verus! {

/// `String::push` appends the given character to the end of the string.
pub assume_specification[ String::push ](s: &mut String, ch: char)
    ensures
        final(s)@ == old(s)@.push(ch),
;

/// Unicode's `White_Space` property.
pub open spec fn white_space(c: char) -> bool {
    let n = c as u32;
    ||| 0x9 <= n <= 0xD
    ||| n == 0x20
    ||| n == 0x85
    ||| n == 0xA0
    ||| n == 0x1680
    ||| 0x2000 <= n <= 0x200A
    ||| n == 0x2028
    ||| n == 0x2029
    ||| n == 0x202F
    ||| n == 0x205F
    ||| n == 0x3000
}

/// Unicode's general category `Cc`.
pub open spec fn control(c: char) -> bool {
    let n = c as u32;
    n <= 0x1F || 0x7F <= n <= 0x9F
}

pub open spec fn digit(c: char) -> bool {
    '0' <= c <= '9'
}

/// Lower-cases an ASCII letter and leaves every other character alone.
pub open spec fn ascii_lower(c: char) -> char {
    if 'A' <= c <= 'Z' {
        (c as u32 + 32) as char
    } else {
        c
    }
}

/// Equality of two texts up to the case of ASCII letters.
pub open spec fn same_ignoring_ascii_case(a: Seq<char>, b: Seq<char>) -> bool {
    a.len() == b.len() && forall|i: int|
        0 <= i < a.len() ==> ascii_lower(#[trigger] a[i]) == ascii_lower(b[i])
}

pub fn is_white_space(c: char) -> (r: bool)
    ensures
        r == white_space(c),
{
    let n: u32 = c as u32;
    (0x9 <= n && n <= 0xD) || n == 0x20 || n == 0x85 || n == 0xA0 || n == 0x1680 || (0x2000 <= n
        && n <= 0x200A) || n == 0x2028 || n == 0x2029 || n == 0x202F || n == 0x205F || n == 0x3000
}

pub fn is_control(c: char) -> (r: bool)
    ensures
        r == control(c),
{
    let n: u32 = c as u32;
    n <= 0x1F || (0x7F <= n && n <= 0x9F)
}

pub fn is_digit(c: char) -> (r: bool)
    ensures
        r == digit(c),
{
    '0' <= c && c <= '9'
}

pub fn to_ascii_lower(c: char) -> (r: char)
    ensures
        r == ascii_lower(c),
{
    if 'A' <= c && c <= 'Z' {
        let n: u8 = c as u8;
        (n + 32) as char
    } else {
        c
    }
}

pub fn to_chars(text: &str) -> (r: Vec<char>)
    ensures
        r@ == text@,
{
    let mut out: Vec<char> = Vec::new();
    for c in it: text.chars()
        invariant
            it.seq() == text@,
            out@ == text@.take(it.index() as int),
    {
        out.push(c);
        assert(text@.take(it.index() + 1) =~= text@.take(it.index() as int).push(c));
    }
    assert(text@.take(text@.len() as int) =~= text@);
    out
}

pub fn from_chars(chars: &[char]) -> (r: String)
    ensures
        r@ == chars@,
{
    let mut out: String = String::new();
    let mut i: usize = 0;
    while i < chars.len()
        invariant
            i <= chars@.len(),
            out@ == chars@.take(i as int),
        decreases chars@.len() - i,
    {
        out.push(chars[i]);
        assert(chars@.take(i + 1) =~= chars@.take(i as int).push(chars@[i as int]));
        i += 1;
    }
    assert(chars@.take(chars@.len() as int) =~= chars@);
    out
}

pub fn copy_chars(chars: &[char]) -> (r: Vec<char>)
    ensures
        r@ == chars@,
{
    let mut out: Vec<char> = Vec::new();
    append_chars(&mut out, chars);
    assert(Seq::<char>::empty() + chars@ =~= chars@);
    out
}

pub fn append_chars(out: &mut Vec<char>, chars: &[char])
    ensures
        final(out)@ == old(out)@ + chars@,
{
    let mut i: usize = 0;
    while i < chars.len()
        invariant
            i <= chars@.len(),
            out@ == old(out)@ + chars@.take(i as int),
        decreases chars@.len() - i,
    {
        out.push(chars[i]);
        assert(chars@.take(i + 1) =~= chars@.take(i as int).push(chars@[i as int]));
        i += 1;
        assert(out@ =~= old(out)@ + chars@.take(i as int));
    }
    assert(chars@.take(chars@.len() as int) =~= chars@);
}

pub fn append_str(out: &mut Vec<char>, text: &str)
    ensures
        final(out)@ == old(out)@ + text@,
{
    let chars = to_chars(text);
    append_chars(out, chars.as_slice());
}

pub fn same_chars(a: &[char], b: &[char]) -> (r: bool)
    ensures
        r == (a@ == b@),
{
    if a.len() != b.len() {
        return false;
    }
    let mut i: usize = 0;
    while i < a.len()
        invariant
            i <= a@.len(),
            a@.len() == b@.len(),
            a@.take(i as int) == b@.take(i as int),
        decreases a@.len() - i,
    {
        if a[i] != b[i] {
            assert(a@[i as int] != b@[i as int]);
            return false;
        }
        assert(a@.take(i + 1) =~= a@.take(i as int).push(a@[i as int]));
        assert(b@.take(i + 1) =~= b@.take(i as int).push(b@[i as int]));
        i += 1;
    }
    assert(a@.take(a@.len() as int) =~= a@);
    assert(b@.take(b@.len() as int) =~= b@);
    true
}

pub fn chars_are(a: &[char], text: &str) -> (r: bool)
    ensures
        r == (a@ == text@),
{
    let b = to_chars(text);
    same_chars(a, b.as_slice())
}

pub fn same_text(a: &str, b: &str) -> (r: bool)
    ensures
        r == (a@ == b@),
{
    let x = to_chars(a);
    chars_are(x.as_slice(), b)
}

pub fn chars_match_ignoring_case(a: &[char], text: &str) -> (r: bool)
    ensures
        r == same_ignoring_ascii_case(a@, text@),
{
    let b = to_chars(text);
    if a.len() != b.len() {
        return false;
    }
    let mut i: usize = 0;
    while i < a.len()
        invariant
            i <= a@.len(),
            a@.len() == b@.len(),
            b@ == text@,
            forall|j: int| 0 <= j < i ==> ascii_lower(#[trigger] a@[j]) == ascii_lower(b@[j]),
        decreases a@.len() - i,
    {
        if to_ascii_lower(a[i]) != to_ascii_lower(b[i]) {
            assert(ascii_lower(a@[i as int]) != ascii_lower(b@[i as int]));
            return false;
        }
        i += 1;
    }
    true
}

pub open spec fn starts_with(s: Seq<char>, prefix: Seq<char>) -> bool {
    prefix.len() <= s.len() && s.take(prefix.len() as int) == prefix
}

pub fn chars_start_with(s: &[char], prefix: &[char]) -> (r: bool)
    ensures
        r == starts_with(s@, prefix@),
{
    if s.len() < prefix.len() {
        return false;
    }
    let head = slice_subrange(s, 0, prefix.len());
    assert(head@ =~= s@.take(prefix@.len() as int));
    same_chars(head, prefix)
}

/// The text without its leading white space.
pub open spec fn trim_start(s: Seq<char>) -> Seq<char>
    decreases s.len(),
{
    if s.len() > 0 && white_space(s[0]) {
        trim_start(s.subrange(1, s.len() as int))
    } else {
        s
    }
}

/// The text without its trailing white space.
pub open spec fn trim_end(s: Seq<char>) -> Seq<char>
    decreases s.len(),
{
    if s.len() > 0 && white_space(s.last()) {
        trim_end(s.drop_last())
    } else {
        s
    }
}

/// The text without white space at either end.
pub open spec fn trim(s: Seq<char>) -> Seq<char> {
    trim_end(trim_start(s))
}

pub fn trim_start_chars(s: &[char]) -> (r: &[char])
    ensures
        r@ == trim_start(s@),
{
    let mut i: usize = 0;
    assert(s@.subrange(0, s@.len() as int) =~= s@);
    while i < s.len() && is_white_space(s[i])
        invariant
            i <= s@.len(),
            trim_start(s@) == trim_start(s@.subrange(i as int, s@.len() as int)),
        decreases s@.len() - i,
    {
        let ghost rest = s@.subrange(i as int, s@.len() as int);
        assert(rest.subrange(1, rest.len() as int) =~= s@.subrange(i + 1, s@.len() as int));
        i += 1;
    }
    slice_subrange(s, i, s.len())
}

pub fn trim_end_chars(s: &[char]) -> (r: &[char])
    ensures
        r@ == trim_end(s@),
{
    let mut n: usize = s.len();
    assert(s@.take(n as int) =~= s@);
    while n > 0 && is_white_space(s[n - 1])
        invariant
            n <= s@.len(),
            trim_end(s@) == trim_end(s@.take(n as int)),
        decreases n,
    {
        assert(s@.take(n as int).drop_last() =~= s@.take(n - 1));
        n -= 1;
    }
    assert(s@.take(n as int) =~= s@.subrange(0, n as int));
    slice_subrange(s, 0, n)
}

pub fn trim_chars(s: &[char]) -> (r: &[char])
    ensures
        r@ == trim(s@),
{
    trim_end_chars(trim_start_chars(s))
}

/// The pieces of `s` between separators; `n` separators give `n + 1` pieces.
pub open spec fn split_on(s: Seq<char>, sep: char) -> Seq<Seq<char>>
    decreases s.len(),
{
    if s.len() == 0 {
        seq![Seq::<char>::empty()]
    } else {
        let before = split_on(s.drop_last(), sep);
        if s.last() == sep {
            before.push(Seq::<char>::empty())
        } else {
            before.drop_last().push(before.last().push(s.last()))
        }
    }
}

pub proof fn lemma_split_on_nonempty(s: Seq<char>, sep: char)
    ensures
        split_on(s, sep).len() >= 1,
    decreases s.len(),
{
    if s.len() > 0 {
        lemma_split_on_nonempty(s.drop_last(), sep);
    }
}

/// A tail without the separator only lengthens the last piece.
pub proof fn lemma_split_push(s: Seq<char>, sep: char, tail: Seq<char>)
    requires
        forall|i: int| 0 <= i < tail.len() ==> #[trigger] tail[i] != sep,
    ensures
        split_on(s + tail, sep) == split_on(s, sep).drop_last().push(
            split_on(s, sep).last() + tail,
        ),
    decreases tail.len(),
{
    lemma_split_on_nonempty(s, sep);
    let pieces = split_on(s, sep);
    if tail.len() == 0 {
        assert(s + tail =~= s);
        assert(pieces.last() + tail =~= pieces.last());
        assert(pieces.drop_last().push(pieces.last()) =~= pieces);
    } else {
        let front = tail.drop_last();
        lemma_split_push(s, sep, front);
        assert((s + tail).drop_last() =~= s + front);
        assert((s + tail).last() == tail.last());
        let before = split_on(s + front, sep);
        assert(before.drop_last() =~= pieces.drop_last());
        assert(before.last().push(tail.last()) =~= pieces.last() + tail);
    }
}

/// The pieces on both sides of a separator are those of the two texts.
pub proof fn lemma_split_both(s: Seq<char>, sep: char, tail: Seq<char>)
    ensures
        split_on(s + seq![sep] + tail, sep) == split_on(s, sep) + split_on(tail, sep),
    decreases tail.len(),
{
    let whole = s + seq![sep] + tail;
    lemma_split_on_nonempty(tail, sep);
    if tail.len() == 0 {
        assert(whole.drop_last() =~= s);
        assert(split_on(s, sep) + split_on(tail, sep) =~= split_on(s, sep).push(Seq::empty()));
    } else {
        let front = tail.drop_last();
        lemma_split_both(s, sep, front);
        lemma_split_on_nonempty(front, sep);
        assert(whole.drop_last() =~= s + seq![sep] + front);
        let before = split_on(s, sep) + split_on(front, sep);
        assert(before.last() == split_on(front, sep).last());
        assert(before.drop_last() =~= split_on(s, sep) + split_on(front, sep).drop_last());
        assert(split_on(whole, sep) =~= split_on(s, sep) + split_on(tail, sep));
    }
}

pub open spec fn views(pieces: Seq<Vec<char>>) -> Seq<Seq<char>> {
    Seq::new(pieces.len(), |i: int| pieces[i]@)
}

/// The views of a sequence of strings.
pub open spec fn string_views(lines: Seq<String>) -> Seq<Seq<char>> {
    Seq::new(lines.len(), |i: int| lines[i]@)
}

pub fn split_chars(s: &[char], sep: char) -> (r: Vec<Vec<char>>)
    ensures
        views(r@) == split_on(s@, sep),
        r@.len() >= 1,
{
    let mut done: Vec<Vec<char>> = Vec::new();
    let mut piece: Vec<char> = Vec::new();
    let mut i: usize = 0;
    assert(views(done@).push(piece@) =~= split_on(s@.take(0), sep));
    while i < s.len()
        invariant
            i <= s@.len(),
            views(done@).push(piece@) == split_on(s@.take(i as int), sep),
        decreases s@.len() - i,
    {
        let c = s[i];
        let ghost so_far = views(done@);
        let ghost old_piece = piece@;
        assert(s@.take(i + 1).drop_last() =~= s@.take(i as int));
        assert(so_far.push(old_piece).drop_last() =~= so_far);
        if c == sep {
            done.push(piece);
            piece = Vec::new();
            assert(views(done@) =~= so_far.push(old_piece));
        } else {
            piece.push(c);
        }
        i += 1;
    }
    let ghost so_far = views(done@);
    let ghost last = piece@;
    done.push(piece);
    assert(views(done@) =~= so_far.push(last));
    assert(s@.take(s@.len() as int) =~= s@);
    done
}

/// A line with the carriage return that ends it taken off.
pub open spec fn without_cr(s: Seq<char>) -> Seq<char> {
    if s.len() > 0 && s.last() == '\r' {
        s.drop_last()
    } else {
        s
    }
}

/// The lines of a text: pieces ended by `\n` or `\r\n`, the last end optional.
pub open spec fn lines_of(s: Seq<char>) -> Seq<Seq<char>> {
    let pieces = split_on(s, '\n');
    let ended = Seq::new((pieces.len() - 1) as nat, |i: int| without_cr(pieces[i]));
    if pieces.last().len() == 0 {
        ended
    } else {
        ended.push(pieces.last())
    }
}

pub fn lines_chars(s: &[char]) -> (r: Vec<Vec<char>>)
    ensures
        views(r@) == lines_of(s@),
{
    let mut pieces = split_chars(s, '\n');
    let ghost all = views(pieces@);
    let last = pieces.pop();
    let mut out: Vec<Vec<char>> = Vec::new();
    let mut i: usize = 0;
    while i < pieces.len()
        invariant
            i <= pieces@.len(),
            all.len() == pieces@.len() + 1,
            forall|j: int| 0 <= j < pieces@.len() ==> all[j] == #[trigger] pieces@[j]@,
            views(out@) =~= Seq::new(i as nat, |j: int| without_cr(all[j])),
        decreases pieces@.len() - i,
    {
        let piece = pieces[i].as_slice();
        let n: usize = piece.len();
        let line = if n > 0 && piece[n - 1] == '\r' {
            slice_subrange(piece, 0, n - 1)
        } else {
            piece
        };
        assert(line@ =~= without_cr(all[i as int]));
        let ghost before = views(out@);
        let copy = copy_chars(line);
        out.push(copy);
        assert(views(out@) =~= before.push(copy@));
        i += 1;
    }
    if let Some(piece) = last {
        if piece.len() > 0 {
            let ghost before = views(out@);
            out.push(piece);
            assert(views(out@) =~= before.push(piece@));
        }
    }
    assert(views(out@) =~= lines_of(s@));
    out
}

/// The runs of characters between white space.
pub open spec fn words_of(s: Seq<char>) -> Seq<Seq<char>>
    decreases s.len(),
{
    if s.len() == 0 {
        Seq::empty()
    } else {
        let before = words_of(s.drop_last());
        if white_space(s.last()) {
            before
        } else if s.len() > 1 && !white_space(s[s.len() - 2]) && before.len() > 0 {
            before.drop_last().push(before.last().push(s.last()))
        } else {
            before.push(seq![s.last()])
        }
    }
}

/// Splits at white space, dropping empty pieces.
pub fn split_words(s: &[char]) -> (r: Vec<Vec<char>>)
    ensures
        views(r@) == words_of(s@),
{
    let mut words: Vec<Vec<char>> = Vec::new();
    let mut word: Vec<char> = Vec::new();
    let mut i: usize = 0;
    while i < s.len()
        invariant
            i <= s@.len(),
            word@.len() > 0 <==> (i > 0 && !white_space(s@[i - 1])),
            words_of(s@.take(i as int)) =~= (if word@.len() > 0 {
                views(words@).push(word@)
            } else {
                views(words@)
            }),
        decreases s@.len() - i,
    {
        let c = s[i];
        let ghost now = s@.take(i + 1);
        assert(now.drop_last() =~= s@.take(i as int));
        if is_white_space(c) {
            if word.len() > 0 {
                let ghost done = word@;
                let ghost before = words@;
                words.push(word);
                word = Vec::new();
                assert(views(words@) =~= views(before).push(done));
            }
        } else {
            let ghost before = word@;
            word.push(c);
            proof {
                if before.len() > 0 {
                    let grown = words_of(s@.take(i as int));
                    assert(grown.drop_last() =~= views(words@));
                    assert(grown.last() == before);
                } else {
                    assert(word@ =~= seq![c]);
                }
            }
        }
        i += 1;
    }
    assert(s@.take(s@.len() as int) =~= s@);
    if word.len() > 0 {
        let ghost before = words@;
        let ghost done = word@;
        words.push(word);
        assert(views(words@) =~= views(before).push(done));
    }
    words
}

/// The first line for which something holds.
pub open spec fn first_matching(
    lines: Seq<Seq<char>>,
    holds: spec_fn(Seq<char>) -> bool,
) -> Option<int>
    decreases lines.len(),
{
    if lines.len() == 0 {
        None
    } else {
        match first_matching(lines.drop_last(), holds) {
            Some(i) => Some(i),
            None => if holds(lines.last()) {
                Some(lines.len() - 1)
            } else {
                None
            },
        }
    }
}

/// The first matching line is the one before which none matches.
pub proof fn lemma_first_matching(
    lines: Seq<Seq<char>>,
    holds: spec_fn(Seq<char>) -> bool,
    n: int,
)
    requires
        0 <= n <= lines.len(),
        forall|j: int| 0 <= j < n ==> !holds(#[trigger] lines[j]),
    ensures
        n == lines.len() ==> first_matching(lines, holds) is None,
        n < lines.len() && holds(lines[n]) ==> first_matching(lines, holds) == Some(n),
    decreases lines.len(),
{
    if lines.len() > 0 {
        let front = lines.drop_last();
        lemma_first_matching(
            front,
            holds,
            if n < lines.len() {
                n
            } else {
                n - 1
            },
        );
    }
}

/// The pieces joined with `sep` between neighbours.
pub open spec fn join_with(pieces: Seq<Seq<char>>, sep: Seq<char>) -> Seq<char>
    decreases pieces.len(),
{
    if pieces.len() == 0 {
        Seq::empty()
    } else if pieces.len() == 1 {
        pieces[0]
    } else {
        join_with(pieces.drop_last(), sep) + sep + pieces.last()
    }
}

pub fn join_chars(pieces: &Vec<Vec<char>>, sep: &[char]) -> (r: Vec<char>)
    ensures
        r@ == join_with(views(pieces@), sep@),
{
    let mut out: Vec<char> = Vec::new();
    let mut i: usize = 0;
    while i < pieces.len()
        invariant
            i <= pieces@.len(),
            out@ == join_with(views(pieces@).take(i as int), sep@),
        decreases pieces@.len() - i,
    {
        let ghost before = views(pieces@).take(i as int);
        let ghost now = views(pieces@).take(i + 1);
        assert(now.drop_last() =~= before);
        if i > 0 {
            append_chars(&mut out, sep);
        }
        append_chars(&mut out, pieces[i].as_slice());
        assert(now.last() == pieces@[i as int]@);
        assert(out@ =~= join_with(now, sep@));
        i += 1;
    }
    assert(views(pieces@).take(pieces@.len() as int) =~= views(pieces@));
    out
}

/// The number of bytes that the first `count` characters of a text take.
pub open spec fn byte_offset(text: Seq<char>, count: int) -> nat {
    encode_utf8(text.take(count)).len()
}

/// How many whole characters at the start of a text fit into `bytes` bytes.
pub open spec fn chars_within(text: Seq<char>, bytes: nat) -> nat
    decreases text.len(),
{
    if text.len() == 0 || encode_utf8(text).len() <= bytes {
        text.len()
    } else {
        chars_within(text.drop_last(), bytes)
    }
}

pub proof fn lemma_encode_push(s: Seq<char>, c: char)
    ensures
        encode_utf8(s.push(c)) == encode_utf8(s) + encode_scalar(c as u32),
    decreases s.len(),
{
    if s.len() == 0 {
        assert(s.push(c).drop_first() =~= Seq::<char>::empty());
        assert(encode_utf8(Seq::<char>::empty()) =~= Seq::<u8>::empty());
        assert(encode_utf8(s.push(c)) =~= encode_scalar(c as u32) + encode_utf8(
            s.push(c).drop_first(),
        ));
        assert(encode_utf8(s) + encode_scalar(c as u32) =~= encode_scalar(c as u32));
    } else {
        lemma_encode_push(s.drop_first(), c);
        assert(s.push(c).drop_first() =~= s.drop_first().push(c));
        assert(encode_utf8(s.push(c)) =~= encode_utf8(s) + encode_scalar(c as u32));
    }
}

pub proof fn lemma_byte_offset_step(text: Seq<char>, count: int)
    requires
        0 <= count < text.len(),
    ensures
        byte_offset(text, count + 1) == byte_offset(text, count) + encode_scalar(
            text[count] as u32,
        ).len(),
{
    lemma_encode_push(text.take(count), text[count]);
    assert(text.take(count + 1) =~= text.take(count).push(text[count]));
}

pub proof fn lemma_byte_offset_mono(text: Seq<char>, a: int, b: int)
    requires
        0 <= a <= b <= text.len(),
    ensures
        byte_offset(text, a) <= byte_offset(text, b),
        a < b ==> byte_offset(text, a) < byte_offset(text, b),
        byte_offset(text, b) <= encode_utf8(text).len(),
    decreases text.len() - a,
{
    if a < text.len() {
        lemma_byte_offset_step(text, a);
        lemma_byte_offset_mono(
            text,
            a + 1,
            if a < b {
                b
            } else {
                a + 1
            },
        );
    } else {
        assert(text.take(a) =~= text);
    }
}

pub proof fn lemma_chars_within(text: Seq<char>, bytes: nat, count: int)
    requires
        0 <= count <= text.len(),
        byte_offset(text, count) <= bytes,
        count == text.len() || byte_offset(text, count + 1) > bytes,
    ensures
        chars_within(text, bytes) == count,
    decreases text.len(),
{
    if count == text.len() {
        assert(text.take(count) =~= text);
    } else {
        lemma_byte_offset_mono(text, count + 1, text.len() as int);
        let front = text.drop_last();
        assert(front.take(count) =~= text.take(count));
        if count < front.len() {
            assert(front.take(count + 1) =~= text.take(count + 1));
        }
        lemma_chars_within(front, bytes, count);
    }
}

pub fn utf8_width(c: char) -> (r: usize)
    ensures
        r == encode_scalar(c as u32).len(),
        1 <= r <= 4,
{
    let n: u32 = c as u32;
    if n <= 0x7F {
        1
    } else if n <= 0x7FF {
        2
    } else if n <= 0xFFFF {
        3
    } else {
        4
    }
}

/// The character of a decimal digit.
pub open spec fn digit_char(d: int) -> char {
    (48 + d) as char
}

/// A natural number in decimal, without leading zeros.
pub open spec fn decimal(n: nat) -> Seq<char>
    decreases n,
{
    if n < 10 {
        seq![digit_char(n as int)]
    } else {
        decimal(n / 10).push(digit_char((n % 10) as int))
    }
}

/// An integer in decimal, with a minus sign when it is negative.
pub open spec fn decimal_int(n: int) -> Seq<char> {
    if n < 0 {
        seq!['-'] + decimal((-n) as nat)
    } else {
        decimal(n as nat)
    }
}

pub fn decimal_chars(n: u64) -> (r: Vec<char>)
    ensures
        r@ == decimal(n as nat),
    decreases n,
{
    let d: u8 = (n % 10) as u8;
    let c: char = (48u8 + d) as char;
    if n < 10 {
        let mut out: Vec<char> = Vec::new();
        out.push(c);
        assert(out@ =~= decimal(n as nat));
        out
    } else {
        let mut out = decimal_chars(n / 10);
        out.push(c);
        out
    }
}

pub fn decimal_int_chars(n: i64) -> (r: Vec<char>)
    requires
        n > i64::MIN,
    ensures
        r@ == decimal_int(n as int),
{
    if n < 0 {
        let mut out: Vec<char> = Vec::new();
        out.push('-');
        let digits = decimal_chars((-n) as u64);
        append_chars(&mut out, digits.as_slice());
        assert(out@ =~= decimal_int(n as int));
        out
    } else {
        decimal_chars(n as u64)
    }
}

pub open spec fn all_digits(s: Seq<char>) -> bool {
    forall|i: int| 0 <= i < s.len() ==> digit(#[trigger] s[i])
}

/// The number that a run of digits writes.
pub open spec fn digits_value(s: Seq<char>) -> nat
    decreases s.len(),
{
    if s.len() == 0 {
        0
    } else {
        digits_value(s.drop_last()) * 10 + (s.last() as nat - 48) as nat
    }
}

/// What an unsigned number's text stands for: an optional plus sign and then
/// digits, at least one, whose value is at most `max`.
pub open spec fn unsigned_value(s: Seq<char>, max: nat) -> Option<nat> {
    let body = if s.len() > 0 && s[0] == '+' {
        s.subrange(1, s.len() as int)
    } else {
        s
    };
    if body.len() > 0 && all_digits(body) && digits_value(body) <= max {
        Some(digits_value(body))
    } else {
        None
    }
}

/// What a signed number's text stands for: an optional sign and then digits, at
/// least one, whose value with that sign lies in `min..=max`.
pub open spec fn signed_value(s: Seq<char>, min: int, max: int) -> Option<int> {
    let negative = s.len() > 0 && s[0] == '-';
    let signed = negative || s.len() > 0 && s[0] == '+';
    let body = if signed {
        s.subrange(1, s.len() as int)
    } else {
        s
    };
    let value = if negative {
        -(digits_value(body) as int)
    } else {
        digits_value(body) as int
    };
    if body.len() > 0 && all_digits(body) && min <= value <= max {
        Some(value)
    } else {
        None
    }
}

pub proof fn lemma_digits_value_mono(s: Seq<char>, n: int)
    requires
        0 <= n <= s.len(),
    ensures
        digits_value(s.take(n)) <= digits_value(s),
    decreases s.len() - n,
{
    if n < s.len() {
        lemma_digits_value_mono(s, n + 1);
        assert(s.take(n + 1).drop_last() =~= s.take(n));
    } else {
        assert(s.take(n) =~= s);
    }
}

/// The value of a run of digits, when every character is a digit and the value
/// is at most `max`.
fn digits_up_to(s: &[char], max: u64) -> (r: Option<u64>)
    ensures
        r == (if all_digits(s@) && digits_value(s@) <= max {
            Some(digits_value(s@) as u64)
        } else {
            None::<u64>
        }),
{
    let mut value: u64 = 0;
    let mut i: usize = 0;
    while i < s.len()
        invariant
            i <= s@.len(),
            value <= max,
            value == digits_value(s@.take(i as int)),
            forall|j: int| 0 <= j < i ==> digit(#[trigger] s@[j]),
        decreases s@.len() - i,
    {
        let c = s[i];
        if !is_digit(c) {
            assert(!digit(s@[i as int]));
            return None;
        }
        let d: u64 = (c as u32 - 48) as u64;
        assert(s@.take(i + 1).drop_last() =~= s@.take(i as int));
        assert(digits_value(s@.take(i + 1)) == value * 10 + d);
        if d > max || value > (max - d) / 10 {
            proof {
                lemma_digits_value_mono(s@, i + 1);
            }
            return None;
        }
        value = value * 10 + d;
        i += 1;
    }
    assert(s@.take(s@.len() as int) =~= s@);
    Some(value)
}

pub fn parse_unsigned(s: &[char], max: u64) -> (r: Option<u64>)
    ensures
        match r {
            Some(n) => unsigned_value(s@, max as nat) == Some(n as nat),
            None => unsigned_value(s@, max as nat) is None,
        },
{
    let body = if s.len() > 0 && s[0] == '+' {
        slice_subrange(s, 1, s.len())
    } else {
        s
    };
    if body.len() == 0 {
        None
    } else {
        digits_up_to(body, max)
    }
}

pub fn parse_i32(s: &[char]) -> (r: Option<i32>)
    ensures
        match r {
            Some(n) => signed_value(s@, i32::MIN as int, i32::MAX as int) == Some(n as int),
            None => signed_value(s@, i32::MIN as int, i32::MAX as int) is None,
        },
{
    let negative = s.len() > 0 && s[0] == '-';
    let signed = negative || (s.len() > 0 && s[0] == '+');
    let body = if signed {
        slice_subrange(s, 1, s.len())
    } else {
        s
    };
    if body.len() == 0 {
        return None;
    }
    if negative {
        match digits_up_to(body, 2147483648) {
            Some(n) => Some((-(n as i64)) as i32),
            None => None,
        }
    } else {
        match digits_up_to(body, 2147483647) {
            Some(n) => Some(n as i32),
            None => None,
        }
    }
}

/// Whether a text occurs in another.
pub open spec fn occurs(s: Seq<char>, needle: Seq<char>) -> bool {
    exists|i: int| 0 <= i <= s.len() && starts_with(#[trigger] s.skip(i), needle)
}

pub fn contains_chars(s: &[char], needle: &[char]) -> (r: bool)
    ensures
        r == occurs(s@, needle@),
{
    let mut i: usize = 0;
    while i < s.len()
        invariant
            i <= s@.len(),
            forall|j: int| 0 <= j < i ==> !starts_with(#[trigger] s@.skip(j), needle@),
        decreases s@.len() - i,
    {
        let rest = slice_subrange(s, i, s.len());
        assert(rest@ =~= s@.skip(i as int));
        if chars_start_with(rest, needle) {
            return true;
        }
        i += 1;
    }
    let rest = slice_subrange(s, i, s.len());
    assert(rest@ =~= s@.skip(i as int));
    chars_start_with(rest, needle)
}

/// A text with each occurrence of a needle, from left to right and without
/// overlaps, replaced.
pub open spec fn replaced_all(s: Seq<char>, needle: Seq<char>, with: Seq<char>) -> Seq<char>
    decreases s.len(),
{
    if s.len() == 0 {
        Seq::empty()
    } else if needle.len() > 0 && starts_with(s, needle) {
        with + replaced_all(s.skip(needle.len() as int), needle, with)
    } else {
        seq![s[0]] + replaced_all(s.skip(1), needle, with)
    }
}

pub fn replace_chars(s: &[char], needle: &[char], with: &[char]) -> (r: Vec<char>)
    requires
        needle@.len() > 0,
    ensures
        r@ == replaced_all(s@, needle@, with@),
{
    let mut out: Vec<char> = Vec::new();
    let mut i: usize = 0;
    assert(s@.skip(0) =~= s@);
    assert(out@ + replaced_all(s@, needle@, with@) =~= replaced_all(s@, needle@, with@));
    while i < s.len()
        invariant
            i <= s@.len(),
            needle@.len() > 0,
            out@ + replaced_all(s@.skip(i as int), needle@, with@) =~= replaced_all(
                s@,
                needle@,
                with@,
            ),
        decreases s@.len() - i,
    {
        let ghost rest_seq = s@.skip(i as int);
        let ghost before = out@;
        let rest = slice_subrange(s, i, s.len());
        assert(rest@ =~= rest_seq);
        if chars_start_with(rest, needle) {
            append_chars(&mut out, with);
            i = i + needle.len();
            assert(rest_seq.skip(needle@.len() as int) =~= s@.skip(i as int));
            assert(out@ + replaced_all(s@.skip(i as int), needle@, with@) =~= before
                + replaced_all(rest_seq, needle@, with@));
        } else {
            out.push(s[i]);
            i += 1;
            assert(rest_seq.skip(1) =~= s@.skip(i as int));
            assert(out@ + replaced_all(s@.skip(i as int), needle@, with@) =~= before
                + replaced_all(rest_seq, needle@, with@));
        }
    }
    assert(s@.skip(i as int) =~= Seq::empty());
    assert(out@ =~= replaced_all(s@, needle@, with@));
    out
}

/// The first place of a character.
pub open spec fn first_place(s: Seq<char>, c: char) -> Option<int>
    decreases s.len(),
{
    if s.len() == 0 {
        None
    } else {
        match first_place(s.drop_last(), c) {
            Some(i) => Some(i),
            None => if s.last() == c {
                Some(s.len() - 1)
            } else {
                None
            },
        }
    }
}

/// The first place is the one before which the character is not.
pub proof fn lemma_first_place(s: Seq<char>, c: char, n: int)
    requires
        0 <= n <= s.len(),
        forall|j: int| 0 <= j < n ==> #[trigger] s[j] != c,
    ensures
        n == s.len() ==> first_place(s, c) is None,
        n < s.len() && s[n] == c ==> first_place(s, c) == Some(n),
    decreases s.len(),
{
    if s.len() > 0 {
        lemma_first_place(
            s.drop_last(),
            c,
            if n < s.len() {
                n
            } else {
                n - 1
            },
        );
    }
}

pub fn find_char(s: &[char], c: char) -> (r: Option<usize>)
    ensures
        match r {
            Some(i) => first_place(s@, c) == Some(i as int) && i < s@.len(),
            None => first_place(s@, c) is None,
        },
{
    let mut i: usize = 0;
    while i < s.len()
        invariant
            i <= s@.len(),
            forall|j: int| 0 <= j < i ==> #[trigger] s@[j] != c,
        decreases s@.len() - i,
    {
        if s[i] == c {
            proof {
                lemma_first_place(s@, c, i as int);
            }
            return Some(i);
        }
        i += 1;
    }
    proof {
        lemma_first_place(s@, c, i as int);
    }
    None
}

pub fn only_digits(s: &[char]) -> (r: bool)
    ensures
        r == all_digits(s@),
{
    let mut i: usize = 0;
    while i < s.len()
        invariant
            i <= s@.len(),
            forall|j: int| 0 <= j < i ==> digit(#[trigger] s@[j]),
        decreases s@.len() - i,
    {
        if !is_digit(s[i]) {
            return false;
        }
        i += 1;
    }
    true
}

/// Among ASCII characters white space is the space and what moves the carriage
/// or the paper, control characters lie below the space or are the delete, and
/// digits are the ten of them; letters differ in case by thirty-two.
pub proof fn lemma_ascii_classes(c: char)
    requires
        c as u32 <= 0x7F,
    ensures
        white_space(c) <==> c == ' ' || c == '\t' || c == '\n' || c == '\r' || c as u32 == 11
            || c as u32 == 12,
        control(c) <==> (c as u32) < 32 || c as u32 == 127,
        digit(c) <==> 48 <= c as u32 <= 57,
        ascii_lower(c) as u32 == (if 65 <= c as u32 <= 90 {
            c as u32 + 32
        } else {
            c as int
        }),
{
}

/// A text begins with any first part of it, and with nothing else of that
/// length.
pub proof fn lemma_starts_with(head: Seq<char>, tail: Seq<char>, other: Seq<char>)
    ensures
        starts_with(head + tail, head),
        other.len() == head.len() && starts_with(head + tail, other) ==> other == head,
        other.len() > head.len() + tail.len() ==> !starts_with(head + tail, other),
{
    assert((head + tail).take(head.len() as int) =~= head);
}

/// Trimming leaves what stands between white space: the part that neither
/// begins nor ends with any, with nothing but white space around it.
pub proof fn lemma_trim_is(s: Seq<char>, a: int, b: int)
    requires
        0 <= a <= b <= s.len(),
        forall|i: int| 0 <= i < a ==> white_space(#[trigger] s[i]),
        forall|i: int| b <= i < s.len() ==> white_space(#[trigger] s[i]),
        a < b ==> !white_space(s[a]) && !white_space(s[b - 1]),
    ensures
        trim(s) == s.subrange(a, b),
        a < b ==> trim_start(s) == s.skip(a),
    decreases s.len(),
{
    if a == b {
        assert(forall|i: int| 0 <= i < s.len() ==> white_space(#[trigger] s[i]));
        lemma_trim_blank(s);
        assert(s.subrange(a, b) =~= Seq::empty());
    } else if a > 0 {
        let rest = s.subrange(1, s.len() as int);
        assert forall|i: int| 0 <= i < a - 1 implies white_space(#[trigger] rest[i]) by {
            assert(rest[i] == s[i + 1]);
        }
        assert forall|i: int| b - 1 <= i < rest.len() implies white_space(#[trigger] rest[i]) by {
            assert(rest[i] == s[i + 1]);
        }
        lemma_trim_is(rest, a - 1, b - 1);
        assert(rest.subrange(a - 1, b - 1) =~= s.subrange(a, b));
        assert(rest.skip(a - 1) =~= s.skip(a));
    } else {
        lemma_trim_end_is(s, b);
        assert(s.skip(0) =~= s);
        assert(s.subrange(0, b) =~= s.take(b));
    }
}

proof fn lemma_trim_blank(s: Seq<char>)
    requires
        forall|i: int| 0 <= i < s.len() ==> white_space(#[trigger] s[i]),
    ensures
        trim_start(s) == Seq::<char>::empty(),
        trim(s) == Seq::<char>::empty(),
    decreases s.len(),
{
    if s.len() > 0 {
        let rest = s.subrange(1, s.len() as int);
        assert forall|i: int| 0 <= i < rest.len() implies white_space(#[trigger] rest[i]) by {
            assert(rest[i] == s[i + 1]);
        }
        assert(white_space(s[0]));
        lemma_trim_blank(rest);
    } else {
        assert(s =~= Seq::empty());
    }
}

proof fn lemma_trim_end_is(s: Seq<char>, b: int)
    requires
        0 < b <= s.len(),
        forall|i: int| b <= i < s.len() ==> white_space(#[trigger] s[i]),
        !white_space(s[b - 1]),
    ensures
        trim_end(s) == s.take(b),
    decreases s.len(),
{
    if b == s.len() {
        assert(s.take(b) =~= s);
    } else {
        assert(white_space(s[s.len() - 1]));
        lemma_trim_end_is(s.drop_last(), b);
        assert(s.drop_last().take(b) =~= s.take(b));
    }
}

/// Splitting and joining undo each other: the pieces hold no separator, and
/// joined with it they are the text again.
pub proof fn lemma_split_is(s: Seq<char>, sep: char)
    ensures
        split_on(s, sep).len() >= 1,
        forall|i: int, j: int|
            0 <= i < split_on(s, sep).len() && 0 <= j < split_on(s, sep)[i].len() ==> (
            #[trigger] split_on(s, sep)[i][j]) != sep,
        join_with(split_on(s, sep), seq![sep]) == s,
    decreases s.len(),
{
    let pieces = split_on(s, sep);
    if s.len() == 0 {
        assert(join_with(pieces, seq![sep]) =~= s);
    } else {
        let front = s.drop_last();
        let before = split_on(front, sep);
        lemma_split_is(front, sep);
        if s.last() == sep {
            assert(pieces.drop_last() =~= before);
            assert(join_with(pieces, seq![sep]) =~= s);
        } else {
            let last = before.last().push(s.last());
            assert(pieces.drop_last() =~= before.drop_last());
            assert forall|i: int, j: int|
                0 <= i < pieces.len() && 0 <= j < pieces[i].len() implies (
            #[trigger] pieces[i][j]) != sep by {
                if i < before.len() - 1 {
                    assert(before[i][j] != sep);
                } else if j < before.last().len() {
                    assert(before[before.len() - 1][j] != sep);
                }
            }
            if before.len() == 1 {
                assert(before[0] == front);
                assert(join_with(pieces, seq![sep]) =~= s);
            } else {
                assert(join_with(pieces, seq![sep]) =~= join_with(before, seq![sep]).push(
                    s.last(),
                ));
            }
            assert(s =~= front.push(s.last()));
        }
    }
}

/// A joined text is one piece as it stands, and two joined texts with the
/// separator between them.
pub proof fn lemma_join_is(a: Seq<Seq<char>>, b: Seq<Seq<char>>, sep: Seq<char>)
    ensures
        a.len() == 1 ==> join_with(a, sep) == a[0],
        a.len() == 0 ==> join_with(a, sep).len() == 0,
        a.len() > 0 && b.len() > 0 ==> join_with(a + b, sep) == join_with(a, sep) + sep + join_with(
            b,
            sep,
        ),
    decreases b.len(),
{
    if a.len() > 0 && b.len() > 0 {
        assert((a + b).drop_last() =~= a + b.drop_last());
        if b.len() == 1 {
            assert(a + b.drop_last() =~= a);
            assert(join_with(a + b, sep) =~= join_with(a, sep) + sep + join_with(b, sep));
        } else {
            lemma_join_is(a, b.drop_last(), sep);
            assert(join_with(a + b, sep) =~= join_with(a, sep) + sep + join_with(b, sep));
        }
    }
}

/// The lines of a text: what stands before the first newline, without a carriage
/// return at its end, and then the lines of the rest. A last line needs no
/// newline, and without one keeps its carriage return.
pub proof fn lemma_lines_are(line: Seq<char>, rest: Seq<char>)
    requires
        forall|i: int| 0 <= i < line.len() ==> #[trigger] line[i] != '\n',
    ensures
        lines_of(line + seq!['\n'] + rest) == seq![
            if line.len() > 0 && line[line.len() - 1] == '\r' {
                line.take(line.len() - 1)
            } else {
                line
            },
        ] + lines_of(rest),
        lines_of(line) == (if line.len() == 0 {
            Seq::empty()
        } else {
            seq![line]
        }),
{
    let empty = Seq::<char>::empty();
    lemma_split_push(empty, '\n', line);
    assert(empty + line =~= line);
    let base = split_on(empty, '\n');
    assert(base =~= seq![empty]);
    assert(base.drop_last().push(base.last() + line) =~= seq![line]);
    assert(split_on(line, '\n') =~= seq![line]);
    lemma_split_both(line, '\n', rest);
    lemma_split_on_nonempty(rest, '\n');
    let all = split_on(line + seq!['\n'] + rest, '\n');
    let own = split_on(rest, '\n');
    assert(all =~= seq![line] + own);
    assert(all.last() == own.last());
    assert(line.drop_last() =~= line.take(line.len() - 1) || line.len() == 0);
    assert(lines_of(line + seq!['\n'] + rest) =~= seq![without_cr(line)] + lines_of(rest));
    assert(lines_of(line) =~= (if line.len() == 0 {
        Seq::empty()
    } else {
        seq![line]
    }));
}

/// The words of a text: a run without white space is one, and white space parts
/// the words before it from those behind it.
pub proof fn lemma_words_are(a: Seq<char>, gap: char, b: Seq<char>)
    requires
        white_space(gap),
    ensures
        words_of(a + seq![gap] + b) == words_of(a) + words_of(b),
        (forall|i: int| 0 <= i < b.len() ==> !white_space(#[trigger] b[i])) ==> words_of(b) == (
        if b.len() == 0 {
            Seq::empty()
        } else {
            seq![b]
        }),
    decreases b.len(),
{
    let s = a + seq![gap] + b;
    if b.len() == 0 {
        assert(s.drop_last() =~= a);
        assert(words_of(s) =~= words_of(a) + words_of(b));
    } else {
        let front = b.drop_last();
        lemma_words_are(a, gap, front);
        assert(s.drop_last() =~= a + seq![gap] + front);
        assert(s.last() == b.last());
        if b.len() > 1 {
            assert(s[s.len() - 2] == b[b.len() - 2]);
            lemma_word_goes_on(front);
        } else {
            assert(s[s.len() - 2] == gap);
            assert(words_of(front) =~= Seq::empty());
        }
        assert(words_of(s) =~= words_of(a) + words_of(b));
        if forall|i: int| 0 <= i < b.len() ==> !white_space(#[trigger] b[i]) {
            assert forall|i: int| 0 <= i < front.len() implies !white_space(#[trigger] front[i]) by {
                assert(front[i] == b[i]);
            }
            assert(!white_space(b[b.len() - 1]));
            if b.len() > 1 {
                assert(!white_space(b[b.len() - 2]));
                assert(words_of(front) == seq![front]);
                assert(words_of(b) =~= seq![front.push(b.last())]);
            } else {
                assert(front =~= Seq::empty());
                assert(words_of(b) =~= seq![seq![b.last()]]);
                assert(seq![b.last()] =~= b);
            }
            assert(front.push(b.last()) =~= b);
            assert(words_of(b) =~= seq![b]);
        }
    }
}

proof fn lemma_word_goes_on(s: Seq<char>)
    requires
        s.len() > 0,
    ensures
        !white_space(s.last()) ==> words_of(s).len() > 0,
{
}

/// A number is written in digits that give it back, without a zero in front.
pub proof fn lemma_decimal_is(n: nat)
    ensures
        all_digits(decimal(n)),
        digits_value(decimal(n)) == n,
        decimal(n).len() >= 1,
        n > 0 ==> decimal(n)[0] != '0',
        n == 0 ==> decimal(n) == seq!['0'],
    decreases n,
{
    if n < 10 {
        reveal_with_fuel(digits_value, 2);
        assert(decimal(n).drop_last() =~= Seq::<char>::empty());
        assert(decimal(0) =~= seq!['0']);
    } else {
        lemma_decimal_is(n / 10);
        assert(decimal(n).drop_last() =~= decimal(n / 10));
        assert forall|i: int| 0 <= i < decimal(n).len() implies digit(#[trigger] decimal(n)[i]) by {
            if i < decimal(n / 10).len() {
                assert(digit(decimal(n / 10)[i]));
            }
        }
    }
}

/// Digits read from left to right: each is worth ten times less than the one
/// before it.
pub proof fn lemma_digits_are(s: Seq<char>, c: char)
    requires
        48 <= c as u32 <= 57,
    ensures
        digits_value(s.push(c)) == 10 * digits_value(s) + (c as u32 - 48),
        digits_value(Seq::empty()) == 0,
{
    assert(s.push(c).drop_last() =~= s);
}

/// Numbers read back as they are written, within their limits, with a sign or
/// without; what holds another character is no number.
pub proof fn lemma_numbers_read_back(n: nat, max: nat, min: int, s: Seq<char>)
    ensures
        n <= max ==> unsigned_value(decimal(n), max) == Some(n),
        n <= max ==> unsigned_value(seq!['+'] + decimal(n), max) == Some(n),
        n > max ==> unsigned_value(decimal(n), max) is None,
        min <= n <= max ==> signed_value(decimal_int(n as int), min, max as int) == Some(n as int),
        n > 0 && min <= -n && -n <= max ==> signed_value(decimal_int(-n), min, max as int) == Some(
            -n,
        ),
        (exists|i: int| 1 <= i < s.len() && !(48 <= (#[trigger] s[i]) as u32 <= 57))
            ==> unsigned_value(s, max) is None && signed_value(s, min, max as int) is None,
        s.len() == 0 ==> unsigned_value(s, max) is None && signed_value(s, min, max as int) is None,
{
    lemma_decimal_is(n);
    let d = decimal(n);
    let plus = seq!['+'] + d;
    let minus = seq!['-'] + d;
    assert(digit(d[0]));
    assert(plus.subrange(1, plus.len() as int) =~= d);
    assert(minus.subrange(1, minus.len() as int) =~= d);
    if exists|i: int| 1 <= i < s.len() && !(48 <= (#[trigger] s[i]) as u32 <= 57) {
        let i = choose|i: int| 1 <= i < s.len() && !(48 <= (#[trigger] s[i]) as u32 <= 57);
        let body = s.subrange(1, s.len() as int);
        assert(body[i - 1] == s[i]);
        assert(!digit(body[i - 1]));
        assert(!digit(s[i]));
    }
}

/// Replacing turns each place of the needle, from the left, into the other text
/// and leaves the rest as it is.
pub proof fn lemma_replaced_is(a: Seq<char>, needle: Seq<char>, b: Seq<char>, with: Seq<char>)
    requires
        needle.len() > 0,
        forall|i: int|
            0 <= i < a.len() ==> !starts_with(#[trigger] (a + needle + b).skip(i), needle),
    ensures
        replaced_all(a + needle + b, needle, with) == a + with + replaced_all(b, needle, with),
    decreases a.len(),
{
    let s = a + needle + b;
    if a.len() == 0 {
        assert(s.take(needle.len() as int) =~= needle);
        assert(s.skip(needle.len() as int) =~= b);
        assert(replaced_all(s, needle, with) =~= a + with + replaced_all(b, needle, with));
    } else {
        let rest = a.skip(1);
        assert(s.skip(0) =~= s);
        assert(!starts_with(s.skip(0), needle));
        assert(s.skip(1) =~= rest + needle + b);
        assert forall|i: int| 0 <= i < rest.len() implies !starts_with(
            #[trigger] (rest + needle + b).skip(i),
            needle,
        ) by {
            assert((rest + needle + b).skip(i) =~= s.skip(i + 1));
        }
        lemma_replaced_is(rest, needle, b, with);
        assert(replaced_all(s, needle, with) =~= a + with + replaced_all(b, needle, with));
    }
}

/// A text without the needle is left alone.
pub proof fn lemma_nothing_to_replace(s: Seq<char>, needle: Seq<char>, with: Seq<char>)
    requires
        forall|i: int| 0 <= i < s.len() ==> !starts_with(#[trigger] s.skip(i), needle),
    ensures
        replaced_all(s, needle, with) == s,
    decreases s.len(),
{
    if s.len() > 0 {
        assert(s.skip(0) =~= s);
        assert(!starts_with(s.skip(0), needle));
        let rest = s.skip(1);
        assert forall|i: int| 0 <= i < rest.len() implies !starts_with(
            #[trigger] rest.skip(i),
            needle,
        ) by {
            assert(rest.skip(i) =~= s.skip(i + 1));
        }
        lemma_nothing_to_replace(rest, needle, with);
        assert(seq![s[0]] + rest =~= s);
    }
}

/// A number is written in its digits, and one below zero with a minus before them.
pub proof fn lemma_signs_are_written(n: nat)
    ensures
        decimal_int(n as int) == decimal(n),
        n > 0 ==> decimal_int(-n).len() == decimal(n).len() + 1 && decimal_int(-n)[0] == '-'
            && decimal_int(-n).skip(1) == decimal(n),
{
    if n > 0 {
        assert(decimal_int(-n).skip(1) =~= decimal(n));
    }
}

} // verus!
