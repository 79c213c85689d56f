//! Amounts of money: their text as people write them, and as it is shown.
use vstd::prelude::*;
use vstd::slice::slice_subrange;

use crate::chars::{
    all_digits, append_chars, ascii_lower, chars_match_ignoring_case, decimal, decimal_chars, digit,
    find_char, first_place, from_chars, lemma_decimal_is, lemma_first_place, only_digits,
    same_ignoring_ascii_case,
};

verus! {

/// A text without a sign in front.
pub open spec fn unsigned(s: Seq<char>) -> Seq<char> {
    if s.len() > 0 && (s[0] == '+' || s[0] == '-') {
        s.skip(1)
    } else {
        s
    }
}

fn without_sign(s: &[char]) -> (r: &[char])
    ensures
        r@ == unsigned(s@),
{
    if s.len() > 0 && (s[0] == '+' || s[0] == '-') {
        let rest = slice_subrange(s, 1, s.len());
        assert(rest@ =~= s@.skip(1));
        rest
    } else {
        s
    }
}

/// Digits with at most one point, and a digit at least on one of its sides.
pub open spec fn is_mantissa(s: Seq<char>) -> bool {
    match first_place(s, '.') {
        None => s.len() > 0 && all_digits(s),
        Some(i) => s.len() > 1 && all_digits(s.take(i)) && all_digits(s.skip(i + 1)),
    }
}

fn mantissa(s: &[char]) -> (r: bool)
    ensures
        r == is_mantissa(s@),
{
    match find_char(s, '.') {
        None => s.len() > 0 && only_digits(s),
        Some(i) => {
            let n: usize = s.len();
            let whole = slice_subrange(s, 0, i);
            let fraction = slice_subrange(s, i + 1, n);
            assert(whole@ =~= s@.take(i as int));
            assert(fraction@ =~= s@.skip(i + 1));
            s.len() > 1 && only_digits(whole) && only_digits(fraction)
        },
    }
}

/// The text after an exponent mark.
pub open spec fn is_exponent(s: Seq<char>) -> bool {
    unsigned(s).len() > 0 && all_digits(unsigned(s))
}

pub open spec fn is_scaled(s: Seq<char>, i: int) -> bool {
    is_mantissa(s.take(i)) && is_exponent(s.skip(i + 1))
}

/// A decimal number without a sign, with or without an exponent.
pub open spec fn is_decimal(s: Seq<char>) -> bool {
    match first_place(s, 'e') {
        Some(i) => is_scaled(s, i),
        None => match first_place(s, 'E') {
            Some(i) => is_scaled(s, i),
            None => is_mantissa(s),
        },
    }
}

fn scaled(s: &[char], i: usize) -> (r: bool)
    requires
        i < s@.len(),
    ensures
        r == is_scaled(s@, i as int),
{
    let n: usize = s.len();
    let head = slice_subrange(s, 0, i);
    let tail = slice_subrange(s, i + 1, n);
    assert(head@ =~= s@.take(i as int));
    assert(tail@ =~= s@.skip(i + 1));
    let exponent = without_sign(tail);
    mantissa(head) && exponent.len() > 0 && only_digits(exponent)
}

/// A number as a floating point type reads one: a sign that may be left out,
/// and then a decimal number, `inf`, `infinity` or `nan` in whatever case.
pub open spec fn is_amount(s: Seq<char>) -> bool {
    let body = unsigned(s);
    ||| is_decimal(body)
    ||| same_ignoring_ascii_case(body, "inf"@)
    ||| same_ignoring_ascii_case(body, "infinity"@)
    ||| same_ignoring_ascii_case(body, "nan"@)
}

pub fn reads_as_amount(s: &[char]) -> (r: bool)
    ensures
        r == is_amount(s@),
{
    let body = without_sign(s);
    let decimal = match find_char(body, 'e') {
        Some(i) => scaled(body, i),
        None => match find_char(body, 'E') {
            Some(i) => scaled(body, i),
            None => mantissa(body),
        },
    };
    decimal || chars_match_ignoring_case(body, "inf") || chars_match_ignoring_case(
        body,
        "infinity",
    ) || chars_match_ignoring_case(body, "nan")
}

/// Digits with a comma before every third from the right, but not in front.
pub open spec fn grouped(digits: Seq<char>) -> Seq<char>
    decreases digits.len(),
{
    if digits.len() <= 3 {
        digits
    } else {
        grouped(digits.take(digits.len() - 3)) + seq![','] + digits.skip(digits.len() - 3)
    }
}

/// A number's decimal digits in groups of three.
pub fn group_digits(value: u64) -> (r: String)
    ensures
        r@ == grouped(decimal(value as nat)),
{
    let digits = decimal_chars(value);
    let out = group_chars(&digits);
    from_chars(&out)
}

/// The first `n` digits with the commas that belong between them when all the
/// digits are grouped.
pub open spec fn grouped_from(digits: Seq<char>, n: int) -> Seq<char>
    decreases n,
{
    if n <= 0 {
        Seq::empty()
    } else {
        let before = grouped_from(digits, n - 1);
        if n - 1 > 0 && (digits.len() - (n - 1)) % 3 == 0 {
            before.push(',').push(digits[n - 1])
        } else {
            before.push(digits[n - 1])
        }
    }
}

proof fn lemma_grouped_from_prefix(digits: Seq<char>, n: int)
    requires
        digits.len() > 3,
        0 <= n <= digits.len() - 3,
    ensures
        grouped_from(digits, n) == grouped_from(digits.take(digits.len() - 3), n),
    decreases n,
{
    if n > 0 {
        lemma_grouped_from_prefix(digits, n - 1);
        let short = digits.take(digits.len() - 3);
        assert((digits.len() - (n - 1)) % 3 == (short.len() - (n - 1)) % 3);
    }
}

/// The two ways to group are one.
proof fn lemma_grouped(digits: Seq<char>)
    ensures
        grouped_from(digits, digits.len() as int) == grouped(digits),
    decreases digits.len(),
{
    let n = digits.len() as int;
    reveal_with_fuel(grouped_from, 4);
    if n <= 3 {
        assert(grouped_from(digits, n) =~= digits);
    } else {
        let short = digits.take(n - 3);
        lemma_grouped(short);
        lemma_grouped_from_prefix(digits, n - 3);
        assert(grouped_from(digits, n) =~= grouped_from(digits, n - 3) + seq![','] + digits.skip(
            n - 3,
        ));
    }
}

fn group_chars(digits: &Vec<char>) -> (r: Vec<char>)
    ensures
        r@ == grouped(digits@),
{
    let mut out: Vec<char> = Vec::new();
    let mut i: usize = 0;
    while i < digits.len()
        invariant
            i <= digits@.len(),
            out@ == grouped_from(digits@, i as int),
        decreases digits@.len() - i,
    {
        if i > 0 && (digits.len() - i) % 3 == 0 {
            out.push(',');
        }
        out.push(digits[i]);
        i += 1;
    }
    proof {
        lemma_grouped(digits@);
    }
    out
}

/// A text without its commas.
pub open spec fn without_commas(s: Seq<char>) -> Seq<char>
    decreases s.len(),
{
    if s.len() == 0 {
        s
    } else if s.last() == ',' {
        without_commas(s.drop_last())
    } else {
        without_commas(s.drop_last()).push(s.last())
    }
}

proof fn lemma_without_commas_joined(a: Seq<char>, b: Seq<char>)
    ensures
        without_commas(a + b) == without_commas(a) + without_commas(b),
    decreases b.len(),
{
    if b.len() == 0 {
        assert(a + b =~= a);
        assert(without_commas(a) + without_commas(b) =~= without_commas(a));
    } else {
        assert((a + b).drop_last() =~= a + b.drop_last());
        lemma_without_commas_joined(a, b.drop_last());
        assert(without_commas(a + b) =~= without_commas(a) + without_commas(b));
    }
}

proof fn lemma_digits_have_no_commas(s: Seq<char>)
    requires
        all_digits(s),
    ensures
        without_commas(s) == s,
    decreases s.len(),
{
    if s.len() > 0 {
        assert forall|i: int| 0 <= i < s.drop_last().len() implies crate::chars::digit(
            #[trigger] s.drop_last()[i],
        ) by {
            assert(crate::chars::digit(s[i]));
        }
        lemma_digits_have_no_commas(s.drop_last());
        assert(crate::chars::digit(s[s.len() - 1]));
        assert(s.drop_last().push(s.last()) =~= s);
    }
}

/// Grouping only adds commas: without them the digits are what they were.
pub proof fn lemma_grouping_keeps_digits(digits: Seq<char>)
    requires
        all_digits(digits),
    ensures
        without_commas(grouped(digits)) == digits,
    decreases digits.len(),
{
    if digits.len() <= 3 {
        lemma_digits_have_no_commas(digits);
    } else {
        let n = digits.len() - 3;
        let head = digits.take(n);
        let tail = digits.skip(n);
        assert forall|i: int| 0 <= i < head.len() implies crate::chars::digit(
            #[trigger] head[i],
        ) by {
            assert(crate::chars::digit(digits[i]));
        }
        assert forall|i: int| 0 <= i < tail.len() implies crate::chars::digit(
            #[trigger] tail[i],
        ) by {
            assert(crate::chars::digit(digits[n + i]));
        }
        lemma_grouping_keeps_digits(head);
        lemma_digits_have_no_commas(tail);
        lemma_without_commas_joined(grouped(head) + seq![','], tail);
        lemma_without_commas_joined(grouped(head), seq![',']);
        let comma = seq![','];
        assert(comma.drop_last() =~= Seq::empty());
        assert(comma.last() == ',');
        assert(without_commas(comma) =~= Seq::<char>::empty()) by {
            reveal_with_fuel(without_commas, 2);
        }
        assert(head + Seq::<char>::empty() + tail =~= digits);
    }
}

/// A number in at least `width` digits.
pub open spec fn padded(n: nat, width: nat) -> Seq<char> {
    let digits = decimal(n);
    if digits.len() >= width {
        digits
    } else {
        Seq::new((width - digits.len()) as nat, |i: int| '0') + digits
    }
}

fn append_padded(out: &mut Vec<char>, n: u64, width: usize)
    ensures
        final(out)@ == old(out)@ + padded(n as nat, width as nat),
{
    let ghost start = out@;
    let digits = decimal_chars(n);
    let mut k: usize = digits.len();
    while k < width
        invariant
            digits@.len() <= k,
            digits@.len() < width ==> k <= width,
            digits@.len() >= width ==> k == digits@.len(),
            out@ == start + Seq::new((k - digits@.len()) as nat, |i: int| '0'),
        decreases width - k,
    {
        out.push('0');
        k += 1;
        assert(out@ =~= start + Seq::new((k - digits@.len()) as nat, |i: int| '0'));
    }
    let ghost zeros = out@;
    append_chars(out, &digits);
    proof {
        if digits@.len() >= width {
            assert(zeros =~= start);
        }
    }
    assert(out@ =~= start + padded(n as nat, width as nat));
}

pub open spec fn magnitude(scaled: int) -> nat {
    if scaled < 0 {
        (-scaled) as nat
    } else {
        scaled as nat
    }
}

/// Whole dollars with their sign, for an amount in parts of a dollar.
pub open spec fn dollars(scaled: int, parts: nat) -> Seq<char> {
    (if scaled < 0 {
        seq!['-', '$']
    } else {
        seq!['$']
    }) + grouped(decimal(magnitude(scaled) / parts))
}

fn append_dollars(out: &mut Vec<char>, scaled: i64, parts: u64) -> (r: u64)
    requires
        scaled > i64::MIN,
        parts > 0,
    ensures
        final(out)@ == old(out)@ + dollars(scaled as int, parts as nat),
        r == magnitude(scaled as int) % (parts as nat),
{
    let ghost start = out@;
    if scaled < 0 {
        out.push('-');
    }
    out.push('$');
    let size: u64 = if scaled < 0 {
        (-scaled) as u64
    } else {
        scaled as u64
    };
    let digits = decimal_chars(size / parts);
    let whole = group_chars(&digits);
    append_chars(out, &whole);
    assert(out@ =~= start + dollars(scaled as int, parts as nat));
    size % parts
}

/// An amount in ten-thousandths of a dollar as a big `-$1,234` and a small
/// `.5678`.
pub fn split_money(scaled: i64) -> (r: (String, String))
    requires
        scaled > i64::MIN,
    ensures
        r.0@ == dollars(scaled as int, 10000),
        r.1@ == seq!['.'] + padded(magnitude(scaled as int) % 10000, 4),
{
    let mut big: Vec<char> = Vec::new();
    let rest: u64 = append_dollars(&mut big, scaled, 10000);
    assert(big@ =~= dollars(scaled as int, 10000));
    let mut small: Vec<char> = Vec::new();
    small.push('.');
    append_padded(&mut small, rest, 4);
    assert(small@ =~= seq!['.'] + padded(magnitude(scaled as int) % 10000, 4));
    (from_chars(&big), from_chars(&small))
}

pub open spec fn money(cents: int) -> Seq<char> {
    dollars(cents, 100) + seq!['.'] + padded(magnitude(cents) % 100, 2)
}

/// An amount in cents as `-$1,234.56`.
pub fn fmt_money(cents: i64) -> (r: String)
    requires
        cents > i64::MIN,
    ensures
        r@ == money(cents as int),
{
    let mut out: Vec<char> = Vec::new();
    let rest: u64 = append_dollars(&mut out, cents, 100);
    out.push('.');
    append_padded(&mut out, rest, 2);
    assert(out@ =~= money(cents as int));
    from_chars(&out)
}

/// Commas stand before every three digits counted from the right, and nowhere
/// else.
pub proof fn lemma_commas_are(digits: Seq<char>)
    requires
        all_digits(digits),
    ensures
        digits.len() > 0 ==> grouped(digits).len() == digits.len() + (digits.len() - 1) / 3,
        digits.len() == 0 ==> grouped(digits).len() == 0,
        forall|j: int|
            0 <= j < grouped(digits).len() ==> (#[trigger] grouped(digits)[j] == ',' <==> (grouped(
                digits,
            ).len() - 1 - j) % 4 == 3),
    decreases digits.len(),
{
    let g = grouped(digits);
    if digits.len() <= 3 {
        assert forall|j: int| 0 <= j < g.len() implies (#[trigger] g[j] == ',' <==> (g.len() - 1
            - j) % 4 == 3) by {
            assert(digit(digits[j]));
        }
    } else {
        let head = digits.take(digits.len() - 3);
        lemma_commas_are(head);
        let h = grouped(head);
        assert forall|j: int| 0 <= j < g.len() implies (#[trigger] g[j] == ',' <==> (g.len() - 1
            - j) % 4 == 3) by {
            if j < h.len() {
                assert(g[j] == h[j]);
                assert((g.len() - 1 - j) == (h.len() - 1 - j) + 4);
            } else if j > h.len() {
                assert(digit(digits[digits.len() - 3 + (j - h.len() - 1)]));
            }
        }
    }
}

/// The digits of a grouped number are all its digits, in order.
pub proof fn lemma_without_commas_is(s: Seq<char>)
    ensures
        without_commas(s) == s.filter(|c: char| c != ','),
    decreases s.len(),
{
    reveal(Seq::filter);
    let kept = |c: char| c != ',';
    if s.len() > 0 {
        lemma_without_commas_is(s.drop_last());
        assert(kept(s.last()) == (s.last() != ','));
    } else {
        assert(s.filter(kept) =~= without_commas(s));
    }
}

/// A sum of money is its sign, the dollar sign, the whole dollars with commas, a
/// point and two digits of cents.
pub proof fn lemma_money_is(cents: nat)
    ensures
        ({
            let text = money(cents as int);
            let n = text.len() as int;
            &&& n >= 5
            &&& text[0] == '$'
            &&& text[n - 3] == '.'
            &&& text.subrange(1, n - 3) == grouped(decimal(cents / 100))
            &&& '0' <= text[n - 2] && text[n - 2] <= '9'
            &&& '0' <= text[n - 1] && text[n - 1] <= '9'
            &&& 10 * (text[n - 2] as int - 48) + (text[n - 1] as int - 48) == cents % 100
        }),
        cents > 0 ==> money(-(cents as int)) == seq!['-'] + money(cents as int),
{
    let text = money(cents as int);
    let n = text.len() as int;
    let rest = cents % 100;
    lemma_decimal_is(cents / 100);
    lemma_commas_are(decimal(cents / 100));
    reveal_with_fuel(decimal, 3);
    let p = padded(rest, 2);
    assert(p.len() == 2);
    assert(p[0] as int == 48 + rest / 10);
    assert(p[1] as int == 48 + rest % 10);
    assert(text.subrange(1, n - 3) =~= grouped(decimal(cents / 100)));
    if cents > 0 {
        assert(money(-(cents as int)) =~= seq!['-'] + money(cents as int));
    }
}

/// A part of a sum is cut off from the whole dollars, which have the sign; zeros
/// fill up the rest.
pub proof fn lemma_dollars_are(scaled: int, parts: nat)
    requires
        parts > 0,
    ensures
        scaled >= 0 ==> dollars(scaled, parts) == seq!['$'] + grouped(
            decimal((scaled / parts as int) as nat),
        ),
        scaled < 0 ==> dollars(scaled, parts) == seq!['-', '$'] + grouped(
            decimal((-scaled / parts as int) as nat),
        ),
        forall|n: nat, width: nat| #[trigger]
            padded(n, width).len() >= width && padded(n, width).len() >= decimal(n).len(),
        forall|n: nat, width: nat, i: int|
            0 <= i < padded(n, width).len() - decimal(n).len() ==> (#[trigger] padded(n, width)[i])
                == '0',
        forall|n: nat, width: nat|
            (#[trigger] padded(n, width)).skip(padded(n, width).len() - decimal(n).len())
                == decimal(n),
{
    assert forall|n: nat, width: nat|
        (#[trigger] padded(n, width)).skip(padded(n, width).len() - decimal(n).len()) == decimal(
            n,
        ) by {
        assert(padded(n, width).skip(padded(n, width).len() - decimal(n).len()) =~= decimal(n));
    }
}

/// What counts as an amount: a whole number, one with a point and digits on at
/// least one side of it, either with an exponent, and any of them with a sign.
/// Nothing counts that holds another letter, and neither does an empty text.
pub proof fn lemma_amounts_are(a: Seq<char>, b: Seq<char>, e: Seq<char>, sign: char)
    requires
        all_digits(a),
        all_digits(b),
        all_digits(e),
        a.len() + b.len() > 0,
        e.len() > 0,
        sign == '+' || sign == '-',
    ensures
        a.len() > 0 ==> is_amount(a) && is_amount(seq![sign] + a),
        is_amount(a + seq!['.'] + b),
        is_amount(seq![sign] + (a + seq!['.'] + b)),
        a.len() > 0 ==> is_amount(a + seq!['e'] + e) && is_amount(a + seq!['E'] + (seq![sign] + e)),
        !is_amount(Seq::empty()),
        !is_amount(seq![sign]),
        !is_amount(seq!['.']),
        !is_amount(a + seq!['$'] + b),
        !is_amount(a + seq!['.'] + b + seq!['.'] + e),
        a.len() > 0 ==> !is_amount(a + seq!['e']),
{
    lemma_words_need_letters(a, b, e, sign);
    if a.len() > 0 {
        lemma_plain_mantissa(a);
        assert(unsigned(a) =~= a) by {
            assert(digit(a[0]));
        }
        assert(unsigned(seq![sign] + a) =~= a);
    }
    let point = a + seq!['.'] + b;
    lemma_pointed(a, b);
    assert(unsigned(point) =~= point) by {
        if a.len() > 0 {
            assert(digit(point[0]));
        }
    }
    assert(unsigned(seq![sign] + point) =~= point);
    if a.len() > 0 {
        lemma_scaled(a, 'e', e);
        let signed = seq![sign] + e;
        assert(unsigned(signed) =~= e);
        assert(unsigned(e) =~= e) by {
            assert(digit(e[0]));
        }
        lemma_scaled(a, 'E', signed);
        lemma_scaled(a, 'e', Seq::empty());
        assert(a + seq!['e'] + Seq::<char>::empty() =~= a + seq!['e']);
    }
}

proof fn lemma_no_letters(a: Seq<char>)
    requires
        forall|i: int| 0 <= i < a.len() ==> digit(#[trigger] a[i]) || a[i] == '.' || a[i] == '$',
    ensures
        first_place(a, 'e') is None,
        first_place(a, 'E') is None,
{
    lemma_first_place(a, 'e', a.len() as int);
    lemma_first_place(a, 'E', a.len() as int);
}

proof fn lemma_plain_mantissa(a: Seq<char>)
    requires
        all_digits(a),
        a.len() > 0,
    ensures
        is_mantissa(a),
        is_decimal(a),
{
    lemma_no_letters(a);
    lemma_first_place(a, '.', a.len() as int);
}

proof fn lemma_pointed(a: Seq<char>, b: Seq<char>)
    requires
        all_digits(a),
        all_digits(b),
        a.len() + b.len() > 0,
    ensures
        is_decimal(a + seq!['.'] + b),
{
    let s = a + seq!['.'] + b;
    lemma_no_letters(s);
    lemma_first_place(s, '.', a.len() as int);
    assert(s.take(a.len() as int) =~= a);
    assert(s.skip(a.len() as int + 1) =~= b);
}

proof fn lemma_scaled(a: Seq<char>, mark: char, e: Seq<char>)
    requires
        all_digits(a),
        a.len() > 0,
        mark == 'e' || mark == 'E',
        forall|i: int| 0 <= i < e.len() ==> digit(#[trigger] e[i]) || e[i] == '+' || e[i] == '-',
    ensures
        is_decimal(a + seq![mark] + e) == is_exponent(e),
        unsigned(a + seq![mark] + e) == a + seq![mark] + e,
{
    let s = a + seq![mark] + e;
    let n = a.len() as int;
    lemma_plain_mantissa(a);
    assert(digit(s[0]));
    if mark == 'E' {
        lemma_first_place(s, 'e', s.len() as int);
    }
    lemma_first_place(s, mark, n);
    assert(s.take(n) =~= a);
    assert(s.skip(n + 1) =~= e);
}

proof fn lemma_words_need_letters(a: Seq<char>, b: Seq<char>, e: Seq<char>, sign: char)
    requires
        all_digits(a),
        all_digits(b),
        all_digits(e),
        a.len() + b.len() > 0,
        sign == '+' || sign == '-',
    ensures
        !is_amount(Seq::empty()),
        !is_amount(seq![sign]),
        !is_amount(seq!['.']),
        !is_amount(a + seq!['$'] + b),
        !is_amount(a + seq!['.'] + b + seq!['.'] + e),
        a.len() > 0 ==> !is_amount(a + seq!['e']),
{
    reveal_strlit("inf");
    reveal_strlit("infinity");
    reveal_strlit("nan");
    let none = Seq::<char>::empty();
    lemma_no_letters(none);
    lemma_first_place(none, '.', 0);
    assert(unsigned(seq![sign]) =~= none);
    let dot = seq!['.'];
    lemma_no_letters(dot);
    lemma_first_place(dot, '.', 0);
    let cash = a + seq!['$'] + b;
    lemma_no_letters(cash);
    lemma_first_place(cash, '.', cash.len() as int);
    assert(cash[a.len() as int] == '$');
    assert(unsigned(cash) =~= cash) by {
        if a.len() > 0 {
            assert(digit(cash[0]));
        }
    }
    let two = a + seq!['.'] + b + seq!['.'] + e;
    lemma_no_letters(two);
    lemma_first_place(two, '.', a.len() as int);
    let rest = two.skip(a.len() as int + 1);
    assert(rest[b.len() as int] == '.');
    assert(!all_digits(rest)) by {
        assert(!digit(rest[b.len() as int]));
    }
    assert(unsigned(two) =~= two) by {
        if a.len() > 0 {
            assert(digit(two[0]));
        }
    }
    assert(!digit(cash[a.len() as int]));
    assert(ascii_lower(cash[0]) != 'i' && ascii_lower(cash[0]) != 'n') by {
        if a.len() > 0 {
            assert(digit(cash[0]));
        }
    }
    assert(ascii_lower(two[0]) != 'i' && ascii_lower(two[0]) != 'n') by {
        if a.len() > 0 {
            assert(digit(two[0]));
        }
    }
    if a.len() > 0 {
        let bare = a + seq!['e'];
        lemma_scaled(a, 'e', none);
        assert(bare + none =~= bare);
        assert(digit(bare[0]));
        assert(ascii_lower(bare[0]) != 'i' && ascii_lower(bare[0]) != 'n');
        assert(unsigned(none) =~= none);
    }
}

} // verus!
