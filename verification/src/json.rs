//! JSON documents as text: picking values out of them, and writing them.
use vstd::prelude::*;

use crate::chars::{append_chars, append_str, from_chars, join_chars, join_with, lemma_join_is, string_views, to_chars, views};

verus! {

/// The value that a JSON Pointer picks out of a document, as compact JSON;
/// nothing when the text is no JSON or has no such value.
pub uninterp spec fn json_pick(text: Seq<char>, pointer: Seq<char>) -> Option<Seq<char>>;

/// The string that a document is, if it is one.
pub uninterp spec fn json_string(text: Seq<char>) -> Option<Seq<char>>;

/// The unsigned number that a document is, if it is one that fits.
pub uninterp spec fn json_number(text: Seq<char>) -> Option<u64>;

/// How many items a document has, if it is an array.
pub uninterp spec fn json_items(text: Seq<char>) -> Option<nat>;

/// The keys of a document, if it is an object, in the order in which it keeps
/// them.
pub uninterp spec fn json_keys(text: Seq<char>) -> Option<Seq<Seq<char>>>;

/// The JSON document that bytes hold, written compactly.
pub uninterp spec fn json_document(bytes: Seq<u8>) -> Option<Seq<char>>;

/// A text as a JSON string.
pub uninterp spec fn json_quoted(text: Seq<char>) -> Seq<char>;

/// The text that bytes hold, with replacement characters for what is not
/// UTF-8.
pub uninterp spec fn lossy_text(bytes: Seq<u8>) -> Seq<char>;

pub open spec fn text_view(text: Option<String>) -> Option<Seq<char>> {
    match text {
        Some(text) => Some(text@),
        None => None,
    }
}

/// `serde_json::Value::pointer` on a parsed document, rendered by its
/// `to_string`: the result is a function of the text and the pointer, which the
/// JSON and JSON Pointer formats say.
#[verifier::external_body]
pub(crate) fn pick(text: &str, pointer: &str) -> (r: Option<String>)
    ensures
        text_view(r) == json_pick(text@, pointer@),
{
    let value: serde_json::Value = serde_json::from_str(text).ok()?;
    value.pointer(pointer).map(|found| found.to_string())
}

/// `serde_json::Value::as_str` on a parsed document.
#[verifier::external_body]
pub(crate) fn string_value(text: &str) -> (r: Option<String>)
    ensures
        text_view(r) == json_string(text@),
{
    let value: serde_json::Value = serde_json::from_str(text).ok()?;
    value.as_str().map(|found| found.to_string())
}

/// `serde_json::Value::as_u64` on a parsed document.
#[verifier::external_body]
pub(crate) fn number_value(text: &str) -> (r: Option<u64>)
    ensures
        r == json_number(text@),
{
    let value: serde_json::Value = serde_json::from_str(text).ok()?;
    value.as_u64()
}

/// The length of `serde_json::Value::as_array` on a parsed document.
#[verifier::external_body]
pub(crate) fn item_count(text: &str) -> (r: Option<usize>)
    ensures
        match r {
            Some(n) => json_items(text@) == Some(n as nat),
            None => json_items(text@) is None,
        },
{
    let value: serde_json::Value = serde_json::from_str(text).ok()?;
    value.as_array().map(|items| items.len())
}

/// The keys of `serde_json::Value::as_object` on a parsed document.
#[verifier::external_body]
pub(crate) fn object_keys(text: &str) -> (r: Option<Vec<String>>)
    ensures
        match r {
            Some(keys) => json_keys(text@) == Some(string_views(keys@)),
            None => json_keys(text@) is None,
        },
{
    let value: serde_json::Value = serde_json::from_str(text).ok()?;
    value.as_object().map(|members| members.keys().cloned().collect())
}

/// `serde_json::from_slice` into a `Value`, rendered by its `to_string`;
/// nothing where it answers an error.
#[verifier::external_body]
pub(crate) fn document(bytes: &[u8]) -> (r: Option<String>)
    ensures
        text_view(r) == json_document(bytes@),
{
    let value: serde_json::Value = serde_json::from_slice(bytes).ok()?;
    Some(value.to_string())
}

/// `to_string` of a `serde_json::Value::String`: a JSON document that is the
/// given string.
#[verifier::external_body]
pub(crate) fn quote(text: &str) -> (r: String)
    ensures
        r@ == json_quoted(text@),
        json_string(r@) == Some(text@),
{
    serde_json::Value::String(text.to_string()).to_string()
}

/// `String::from_utf8_lossy`.
#[verifier::external_body]
pub(crate) fn lossy(bytes: &[u8]) -> (r: String)
    ensures
        r@ == lossy_text(bytes@),
{
    String::from_utf8_lossy(bytes).into_owned()
}

/// The string at a pointer.
pub open spec fn string_at(text: Seq<char>, pointer: Seq<char>) -> Option<Seq<char>> {
    match json_pick(text, pointer) {
        Some(value) => json_string(value),
        None => None,
    }
}

pub fn string_at_pointer(text: &str, pointer: &str) -> (r: Option<String>)
    ensures
        text_view(r) == string_at(text@, pointer@),
{
    match pick(text, pointer) {
        Some(value) => string_value(value.as_str()),
        None => None,
    }
}

/// The pointer to an item of an array.
pub open spec fn item_pointer(i: nat) -> Seq<char> {
    seq!['/'] + crate::chars::decimal(i)
}

pub fn pointer_to_item(i: usize) -> (r: String)
    ensures
        r@ == item_pointer(i as nat),
{
    let mut out: Vec<char> = Vec::new();
    out.push('/');
    let digits = crate::chars::decimal_chars(i as u64);
    append_chars(&mut out, &digits);
    assert(out@ =~= item_pointer(i as nat));
    from_chars(&out)
}

/// The items of an array, each as compact JSON; none of anything else.
pub open spec fn items_of(text: Seq<char>) -> Seq<Seq<char>> {
    match json_items(text) {
        Some(n) => Seq::new(
            n,
            |i: int|
                match json_pick(text, item_pointer(i as nat)) {
                    Some(item) => item,
                    None => Seq::empty(),
                },
        ),
        None => Seq::empty(),
    }
}

pub fn array_items(text: &str) -> (r: Vec<String>)
    ensures
        string_views(r@) == items_of(text@),
{
    let mut out: Vec<String> = Vec::new();
    if let Some(n) = item_count(text) {
        let mut i: usize = 0;
        while i < n
            invariant
                i <= n,
                json_items(text@) == Some(n as nat),
                string_views(out@) =~= items_of(text@).take(i as int),
            decreases n - i,
        {
            let pointer = pointer_to_item(i);
            let item = match pick(text, pointer.as_str()) {
                Some(item) => item,
                None => String::new(),
            };
            let ghost before = out@;
            assert(item@ =~= items_of(text@)[i as int]);
            out.push(item);
            assert(string_views(out@) =~= string_views(before).push(item@));
            i += 1;
        }
    }
    assert(string_views(out@) =~= items_of(text@));
    out
}

/// A member of an object: a key that needs no escapes, and a value.
pub open spec fn member_text(key: Seq<char>, value: Seq<char>) -> Seq<char> {
    seq!['"'] + key + seq!['"', ':'] + value
}

pub open spec fn object_text(members: Seq<Seq<char>>) -> Seq<char> {
    seq!['{'] + join_with(members, seq![',']) + seq!['}']
}

pub open spec fn array_text(items: Seq<Seq<char>>) -> Seq<char> {
    seq!['['] + join_with(items, seq![',']) + seq![']']
}

pub fn member(key: &str, value: &[char]) -> (r: Vec<char>)
    ensures
        r@ == member_text(key@, value@),
{
    let mut out: Vec<char> = Vec::new();
    out.push('"');
    append_str(&mut out, key);
    out.push('"');
    out.push(':');
    append_chars(&mut out, value);
    assert(out@ =~= member_text(key@, value@));
    out
}

/// A member whose value is a string.
pub fn text_member(key: &str, value: &str) -> (r: Vec<char>)
    ensures
        r@ == member_text(key@, json_quoted(value@)),
{
    let quoted = quote(value);
    let chars = to_chars(quoted.as_str());
    member(key, &chars)
}

/// A member whose value is already JSON.
pub fn raw_member(key: &str, value: &str) -> (r: Vec<char>)
    ensures
        r@ == member_text(key@, value@),
{
    let chars = to_chars(value);
    member(key, &chars)
}

fn bracketed(open: char, pieces: &Vec<Vec<char>>, close: char) -> (r: Vec<char>)
    ensures
        r@ == seq![open] + join_with(views(pieces@), seq![',']) + seq![close],
{
    let mut comma: Vec<char> = Vec::new();
    comma.push(',');
    assert(comma@ =~= seq![',']);
    let body = join_chars(pieces, &comma);
    let mut out: Vec<char> = Vec::new();
    out.push(open);
    append_chars(&mut out, &body);
    out.push(close);
    assert(out@ =~= seq![open] + join_with(views(pieces@), seq![',']) + seq![close]);
    out
}

pub fn object(members: &Vec<Vec<char>>) -> (r: Vec<char>)
    ensures
        r@ == object_text(views(members@)),
{
    bracketed('{', members, '}')
}

pub fn array(items: &Vec<Vec<char>>) -> (r: Vec<char>)
    ensures
        r@ == array_text(views(items@)),
{
    bracketed('[', items, ']')
}

/// A key of letters and underscores, which neither a document nor a pointer
/// escapes.
pub open spec fn plain_key(key: Seq<char>) -> bool {
    &&& key.len() > 0
    &&& forall|i: int|
        0 <= i < key.len() ==> ('a' <= #[trigger] key[i] && key[i] <= 'z') || key[i] == '_'
}

/// An object of two strings.
pub open spec fn pair_text(
    first: Seq<char>,
    second: Seq<char>,
    row: (Seq<char>, Seq<char>),
) -> Seq<char> {
    object_text(
        seq![
            member_text(first, json_quoted(row.0)),
            member_text(second, json_quoted(row.1)),
        ],
    )
}

pub open spec fn pair_views(rows: Seq<(String, String)>) -> Seq<(Seq<char>, Seq<char>)> {
    Seq::new(rows.len(), |i: int| (rows[i].0@, rows[i].1@))
}

/// `to_string` of a `serde_json::Value::Object` with two string members: the
/// compact text, and that each string is found again under its key. The first
/// key comes first by its letter, so that objects which sort their keys keep the
/// order too.
#[verifier::external_body]
pub(crate) fn pair_object(first: &str, second: &str, left: &str, right: &str) -> (r: String)
    requires
        plain_key(first@),
        plain_key(second@),
        first@[0] < second@[0],
    ensures
        r@ == pair_text(first@, second@, (left@, right@)),
        string_at(r@, seq!['/'] + first@) == Some(left@),
        string_at(r@, seq!['/'] + second@) == Some(right@),
{
    let mut record = serde_json::Map::new();
    record.insert(first.to_string(), serde_json::Value::from(left));
    record.insert(second.to_string(), serde_json::Value::from(right));
    serde_json::Value::Object(record).to_string()
}

/// An object that holds nothing but an object that holds nothing but a string.
pub open spec fn nested_text(outer: Seq<char>, inner: Seq<char>, text: Seq<char>) -> Seq<char> {
    object_text(
        seq![member_text(outer, object_text(seq![member_text(inner, json_quoted(text))]))],
    )
}

/// `to_string` of a `serde_json::Value::Object` whose only member is an object
/// with a string as its only member: the compact text, and that the string is
/// found again under the two keys.
#[verifier::external_body]
pub(crate) fn nested_object(outer: &str, inner: &str, text: &str) -> (r: String)
    requires
        plain_key(outer@),
        plain_key(inner@),
    ensures
        r@ == nested_text(outer@, inner@, text@),
        string_at(r@, seq!['/'] + outer@ + seq!['/'] + inner@) == Some(text@),
{
    let mut held = serde_json::Map::new();
    held.insert(inner.to_string(), serde_json::Value::from(text));
    let mut holder = serde_json::Map::new();
    holder.insert(outer.to_string(), serde_json::Value::Object(held));
    serde_json::Value::Object(holder).to_string()
}

/// `to_string` of a `serde_json::Value::Array` of objects that have two string
/// members each, as in `pair_object`: the compact text, and that it is an array
/// in which each string is found again at its place.
#[verifier::external_body]
pub(crate) fn pair_records(first: &str, second: &str, rows: &Vec<(String, String)>) -> (r: String)
    requires
        plain_key(first@),
        plain_key(second@),
        first@[0] < second@[0],
    ensures
        r@ == array_text(
            Seq::new(rows@.len(), |i: int| pair_text(first@, second@, pair_views(rows@)[i])),
        ),
        json_pick(r@, Seq::empty()) == Some(r@),
        json_items(r@) == Some(rows@.len()),
        forall|i: int|
            0 <= i < rows@.len() ==> string_at(#[trigger] items_of(r@)[i], seq!['/'] + first@)
                == Some(rows@[i].0@) && string_at(items_of(r@)[i], seq!['/'] + second@) == Some(
                rows@[i].1@,
            ),
{
    let records = rows.iter().map(|row| {
        let mut record = serde_json::Map::new();
        record.insert(first.to_string(), serde_json::Value::from(row.0.as_str()));
        record.insert(second.to_string(), serde_json::Value::from(row.1.as_str()));
        serde_json::Value::Object(record)
    });
    serde_json::Value::Array(records.collect()).to_string()
}

/// Whether a document picked out is the given string.
pub fn is_string(text: &str, pointer: &str, expected: &str) -> (r: bool)
    ensures
        r == (string_at(text@, pointer@) == Some(expected@)),
{
    match string_at_pointer(text, pointer) {
        Some(found) => crate::chars::same_text(found.as_str(), expected),
        None => false,
    }
}

/// What a JSON text is made of. An object stands in braces and an array in
/// brackets, with commas between what they hold; a member is its name in quotes, a
/// colon and its value.
pub proof fn lemma_json_text(a: Seq<Seq<char>>, b: Seq<Seq<char>>, key: Seq<char>, value: Seq<char>)
    requires
        a.len() > 0,
        b.len() > 0,
    ensures
        a.len() == 1 ==> object_text(a) == seq!['{'] + a[0] + seq!['}'],
        a.len() == 1 ==> array_text(a) == seq!['['] + a[0] + seq![']'],
        object_text(a + b) == object_text(a).drop_last() + seq![','] + object_text(b).skip(1),
        array_text(a + b) == array_text(a).drop_last() + seq![','] + array_text(b).skip(1),
        object_text(Seq::empty()) == seq!['{', '}'],
        array_text(Seq::empty()) == seq!['[', ']'],
        member_text(key, value).len() == key.len() + value.len() + 3,
        member_text(key, value)[0] == '"',
        member_text(key, value).subrange(1, key.len() as int + 1) == key,
        member_text(key, value)[key.len() as int + 1] == '"',
        member_text(key, value)[key.len() as int + 2] == ':',
        member_text(key, value).skip(key.len() as int + 3) == value,
{
    lemma_join_is(a, b, seq![',']);
    lemma_join_is(Seq::empty(), b, seq![',']);
    assert(object_text(a + b) =~= object_text(a).drop_last() + seq![','] + object_text(b).skip(1));
    assert(array_text(a + b) =~= array_text(a).drop_last() + seq![','] + array_text(b).skip(1));
}

/// The items of an array are what stands at its places, in order.
pub proof fn lemma_items_are(text: Seq<char>, n: nat, i: int)
    requires
        json_items(text) == Some(n),
        0 <= i < n,
    ensures
        items_of(text).len() == n,
        json_pick(text, seq!['/'] + crate::chars::decimal(i as nat)) is Some ==> Some(
            items_of(text)[i],
        ) == json_pick(text, seq!['/'] + crate::chars::decimal(i as nat)),
{
}

/// An object of two members, each with a text for its value.
pub proof fn lemma_pair_text(first: Seq<char>, second: Seq<char>, row: (Seq<char>, Seq<char>))
    ensures
        pair_text(first, second, row) == seq!['{', '"'] + first + seq!['"', ':'] + json_quoted(
            row.0,
        ) + seq![',', '"'] + second + seq!['"', ':'] + json_quoted(row.1) + seq!['}'],
{
    let m = member_text(first, json_quoted(row.0));
    let n = member_text(second, json_quoted(row.1));
    lemma_join_is(seq![m], seq![n], seq![',']);
    lemma_join_is(seq![n], seq![n], seq![',']);
    assert(seq![m] + seq![n] =~= seq![m, n]);
    assert(pair_text(first, second, row) =~= seq!['{', '"'] + first + seq!['"', ':'] + json_quoted(
        row.0,
    ) + seq![',', '"'] + second + seq!['"', ':'] + json_quoted(row.1) + seq!['}']);
}

} // verus!
