//! Emoji as emoticons of plain ASCII.
use vstd::prelude::*;

use crate::chars::{append_str, from_chars, to_chars};

verus! {

/// The emoticon for an emoji.
pub open spec fn emoticon(c: char) -> Option<Seq<char>> {
    if c == '😀' || c == '😃' || c == '😄' || c == '😁' || c == '🥳' {
        Some(":D"@)
    } else if c == '😆' || c == '🤣' || c == '😂' {
        Some("XD"@)
    } else if c == '😅' {
        Some("^^';"@)
    } else if c == '🙂' {
        Some(":)"@)
    } else if c == '🙃' {
        Some("(:"@)
    } else if c == '😉' {
        Some(";)"@)
    } else if c == '😊' || c == '😌' {
        Some("^^"@)
    } else if c == '😇' || c == '👼' {
        Some("O:)"@)
    } else if c == '🥰' {
        Some("^^<3"@)
    } else if c == '😍' {
        Some(":D<3"@)
    } else if c == '🤩' {
        Some("*o*"@)
    } else if c == '😘' || c == '😗' || c == '😚' || c == '😙' || c == '😽' || c == '💋' {
        Some(":*"@)
    } else if c == '🥲' || c == '😹' {
        Some(":')"@)
    } else if c == '😋' || c == '😛' || c == '💩' {
        Some(":P"@)
    } else if c == '😜' {
        Some(";P"@)
    } else if c == '🤪' || c == '😝' {
        Some("XP"@)
    } else if c == '🤑' {
        Some("$_$"@)
    } else if c == '🤗' || c == '🙌' || c == '🍻' || c == '🎉' || c == '🎊' {
        Some("\\o/"@)
    } else if c == '🤔' || c == '😕' {
        Some(":/"@)
    } else if c == '🤐' || c == '🤫' {
        Some(":X"@)
    } else if c == '🤨' {
        Some(">_>"@)
    } else if c == '😐' {
        Some(":|"@)
    } else if c == '😑' || c == '😒' {
        Some("-_-"@)
    } else if c == '😶' || c == '😷' {
        Some(":x"@)
    } else if c == '😏' {
        Some(":J"@)
    } else if c == '🙄' {
        Some("9_9"@)
    } else if c == '😬' {
        Some(":E"@)
    } else if c == '😔' {
        Some("3("@)
    } else if c == '😪' || c == '😴' {
        Some("-_-zzz"@)
    } else if c == '🤤' {
        Some(":P~"@)
    } else if c == '🤒' || c == '🤕' || c == '😟' || c == '🙁' || c == '☹' || c == '😞' {
        Some(":("@)
    } else if c == '🤢' {
        Some(":S"@)
    } else if c == '🤮' {
        Some(":P~~~"@)
    } else if c == '🤧' || c == '😢' || c == '😿' {
        Some(":'("@)
    } else if c == '🥵' || c == '🥶' || c == '😖' || c == '😣' {
        Some(">_<"@)
    } else if c == '🥴' {
        Some("%)"@)
    } else if c == '😵' || c == '💀' || c == '☠' {
        Some("x_x"@)
    } else if c == '🤯' || c == '😮' || c == '😯' {
        Some(":o"@)
    } else if c == '🥸' {
        Some("B|"@)
    } else if c == '😎' {
        Some("B)"@)
    } else if c == '😲' || c == '😱' {
        Some(":O"@)
    } else if c == '😦' || c == '😧' || c == '😨' || c == '🙀' {
        Some("D:"@)
    } else if c == '😰' {
        Some("D:,"@)
    } else if c == '😥' || c == '😓' {
        Some(",:("@)
    } else if c == '😭' {
        Some("D;"@)
    } else if c == '😩' || c == '😫' {
        Some("X("@)
    } else if c == '😤' || c == '😡' || c == '😠' || c == '🤬' || c == '👿' || c == '👹' || c == '👺' || c == '😾' {
        Some(">:("@)
    } else if c == '😈' {
        Some(">:)"@)
    } else if c == '🤡' {
        Some(":o)"@)
    } else if c == '👻' {
        Some("(boo)"@)
    } else if c == '🤖' {
        Some("[o_o]"@)
    } else if c == '😺' || c == '😸' {
        Some(":3"@)
    } else if c == '😻' || c == '❤' || c == '🧡' || c == '💛' || c == '💚' || c == '💙' || c == '💜' || c == '🖤' || c == '🤍' || c == '🤎' || c == '💓' || c == '💗' || c == '💖' || c == '💘' || c == '💝' || c == '💟' {
        Some("<3"@)
    } else if c == '😼' {
        Some(">:3"@)
    } else if c == '💔' {
        Some("</3"@)
    } else if c == '💕' || c == '💞' {
        Some("<3<3"@)
    } else if c == '👋' {
        Some("o/"@)
    } else if c == '👍' {
        Some("(y)"@)
    } else if c == '👎' {
        Some("(n)"@)
    } else if c == '🤘' {
        Some("\\m/"@)
    } else if c == '🫡' {
        Some("o7"@)
    } else if c == '🐟' || c == '🐠' || c == '🐡' {
        Some("<><"@)
    } else if c == '🐱' || c == '🐈' {
        Some("=^.^="@)
    } else if c == '🌹' {
        Some("@}--"@)
    } else if c == '⭐' || c == '🌟' {
        Some("*"@)
    } else if c == '🌞' {
        Some(":sun_with_face:"@)
    } else if c == '✨' {
        Some("*~*"@)
    } else if c == '💤' {
        Some("zzz"@)
    } else if c == '🎅' {
        Some("*<|:)"@)
    } else if c == '🍆' {
        Some("8==D"@)
    } else {
        None
    }
}

/// The emoticon for a character, if it is an emoji of the table.
pub fn char_to_ascii(c: char) -> (r: Option<&'static str>)
    ensures
        match r {
            Some(ascii) => emoticon(c) == Some(ascii@),
            None => emoticon(c) is None,
        },
{
    if c == '😀' || c == '😃' || c == '😄' || c == '😁' || c == '🥳' {
        Some(":D")
    } else if c == '😆' || c == '🤣' || c == '😂' {
        Some("XD")
    } else if c == '😅' {
        Some("^^';")
    } else if c == '🙂' {
        Some(":)")
    } else if c == '🙃' {
        Some("(:")
    } else if c == '😉' {
        Some(";)")
    } else if c == '😊' || c == '😌' {
        Some("^^")
    } else if c == '😇' || c == '👼' {
        Some("O:)")
    } else if c == '🥰' {
        Some("^^<3")
    } else if c == '😍' {
        Some(":D<3")
    } else if c == '🤩' {
        Some("*o*")
    } else if c == '😘' || c == '😗' || c == '😚' || c == '😙' || c == '😽' || c == '💋' {
        Some(":*")
    } else if c == '🥲' || c == '😹' {
        Some(":')")
    } else if c == '😋' || c == '😛' || c == '💩' {
        Some(":P")
    } else if c == '😜' {
        Some(";P")
    } else if c == '🤪' || c == '😝' {
        Some("XP")
    } else if c == '🤑' {
        Some("$_$")
    } else if c == '🤗' || c == '🙌' || c == '🍻' || c == '🎉' || c == '🎊' {
        Some("\\o/")
    } else if c == '🤔' || c == '😕' {
        Some(":/")
    } else if c == '🤐' || c == '🤫' {
        Some(":X")
    } else if c == '🤨' {
        Some(">_>")
    } else if c == '😐' {
        Some(":|")
    } else if c == '😑' || c == '😒' {
        Some("-_-")
    } else if c == '😶' || c == '😷' {
        Some(":x")
    } else if c == '😏' {
        Some(":J")
    } else if c == '🙄' {
        Some("9_9")
    } else if c == '😬' {
        Some(":E")
    } else if c == '😔' {
        Some("3(")
    } else if c == '😪' || c == '😴' {
        Some("-_-zzz")
    } else if c == '🤤' {
        Some(":P~")
    } else if c == '🤒' || c == '🤕' || c == '😟' || c == '🙁' || c == '☹' || c == '😞' {
        Some(":(")
    } else if c == '🤢' {
        Some(":S")
    } else if c == '🤮' {
        Some(":P~~~")
    } else if c == '🤧' || c == '😢' || c == '😿' {
        Some(":'(")
    } else if c == '🥵' || c == '🥶' || c == '😖' || c == '😣' {
        Some(">_<")
    } else if c == '🥴' {
        Some("%)")
    } else if c == '😵' || c == '💀' || c == '☠' {
        Some("x_x")
    } else if c == '🤯' || c == '😮' || c == '😯' {
        Some(":o")
    } else if c == '🥸' {
        Some("B|")
    } else if c == '😎' {
        Some("B)")
    } else if c == '😲' || c == '😱' {
        Some(":O")
    } else if c == '😦' || c == '😧' || c == '😨' || c == '🙀' {
        Some("D:")
    } else if c == '😰' {
        Some("D:,")
    } else if c == '😥' || c == '😓' {
        Some(",:(")
    } else if c == '😭' {
        Some("D;")
    } else if c == '😩' || c == '😫' {
        Some("X(")
    } else if c == '😤' || c == '😡' || c == '😠' || c == '🤬' || c == '👿' || c == '👹' || c == '👺' || c == '😾' {
        Some(">:(")
    } else if c == '😈' {
        Some(">:)")
    } else if c == '🤡' {
        Some(":o)")
    } else if c == '👻' {
        Some("(boo)")
    } else if c == '🤖' {
        Some("[o_o]")
    } else if c == '😺' || c == '😸' {
        Some(":3")
    } else if c == '😻' || c == '❤' || c == '🧡' || c == '💛' || c == '💚' || c == '💙' || c == '💜' || c == '🖤' || c == '🤍' || c == '🤎' || c == '💓' || c == '💗' || c == '💖' || c == '💘' || c == '💝' || c == '💟' {
        Some("<3")
    } else if c == '😼' {
        Some(">:3")
    } else if c == '💔' {
        Some("</3")
    } else if c == '💕' || c == '💞' {
        Some("<3<3")
    } else if c == '👋' {
        Some("o/")
    } else if c == '👍' {
        Some("(y)")
    } else if c == '👎' {
        Some("(n)")
    } else if c == '🤘' {
        Some("\\m/")
    } else if c == '🫡' {
        Some("o7")
    } else if c == '🐟' || c == '🐠' || c == '🐡' {
        Some("<><")
    } else if c == '🐱' || c == '🐈' {
        Some("=^.^=")
    } else if c == '🌹' {
        Some("@}--")
    } else if c == '⭐' || c == '🌟' {
        Some("*")
    } else if c == '🌞' {
        Some(":sun_with_face:")
    } else if c == '✨' {
        Some("*~*")
    } else if c == '💤' {
        Some("zzz")
    } else if c == '🎅' {
        Some("*<|:)")
    } else if c == '🍆' {
        Some("8==D")
    } else {
        None
    }
}

/// The emoticon for a text that is one emoji of the table.
pub fn emoji_to_ascii(emoji: &str) -> (r: Option<&'static str>)
    ensures
        match r {
            Some(ascii) => emoji@.len() == 1 && emoticon(emoji@[0]) == Some(ascii@),
            None => emoji@.len() != 1 || emoticon(emoji@[0]) is None,
        },
{
    let chars = to_chars(emoji);
    if chars.len() == 1 {
        char_to_ascii(chars[0])
    } else {
        None
    }
}

/// A hint on how the emoji before it is to be shown.
pub open spec fn variation_selector(c: char) -> bool {
    c == '\u{FE0E}' || c == '\u{FE0F}'
}

/// The text without the variation selectors it starts with.
pub open spec fn after_selectors(s: Seq<char>) -> Seq<char>
    decreases s.len(),
{
    if s.len() > 0 && variation_selector(s[0]) {
        after_selectors(s.skip(1))
    } else {
        s
    }
}

proof fn lemma_after_selectors(s: Seq<char>)
    ensures
        after_selectors(s).len() <= s.len(),
    decreases s.len(),
{
    if s.len() > 0 && variation_selector(s[0]) {
        lemma_after_selectors(s.skip(1));
    }
}

/// A text with every emoji of the table, and the variation selectors after it,
/// replaced by its emoticon.
pub open spec fn replaced(s: Seq<char>) -> Seq<char>
    decreases s.len(),
{
    if s.len() == 0 {
        Seq::empty()
    } else {
        match emoticon(s[0]) {
            Some(ascii) => {
                let rest = after_selectors(s.skip(1));
                if rest.len() < s.len() {
                    ascii + replaced(rest)
                } else {
                    ascii
                }
            },
            None => seq![s[0]] + replaced(s.skip(1)),
        }
    }
}

pub fn replace_emoji(s: &str) -> (r: String)
    ensures
        r@ == replaced(s@),
{
    let chars = to_chars(s);
    let ghost text = chars@;
    let n: usize = chars.len();
    let mut out: Vec<char> = Vec::new();
    let mut i: usize = 0;
    assert(text.skip(0) =~= text);
    assert(out@ + replaced(text) =~= replaced(text));
    while i < n
        invariant
            i <= n,
            n == text.len(),
            text == chars@,
            out@ + replaced(text.skip(i as int)) =~= replaced(text),
        decreases n - i,
    {
        let ghost rest = text.skip(i as int);
        let ghost before = out@;
        match char_to_ascii(chars[i]) {
            Some(ascii) => {
                append_str(&mut out, ascii);
                i += 1;
                assert(rest.skip(1) =~= text.skip(i as int));
                proof {
                    lemma_after_selectors(rest.skip(1));
                }
                while i < n && (chars[i] == '\u{FE0E}' || chars[i] == '\u{FE0F}')
                    invariant
                        i <= n,
                        n == text.len(),
                        text == chars@,
                        after_selectors(rest.skip(1)) == after_selectors(text.skip(i as int)),
                    decreases n - i,
                {
                    assert(text.skip(i as int).skip(1) =~= text.skip(i + 1));
                    i += 1;
                }
                assert(after_selectors(rest.skip(1)) =~= text.skip(i as int));
                assert(out@ + replaced(text.skip(i as int)) =~= before + replaced(rest));
            },
            None => {
                out.push(chars[i]);
                i += 1;
                assert(rest.skip(1) =~= text.skip(i as int));
                assert(out@ + replaced(text.skip(i as int)) =~= before + replaced(rest));
            },
        }
    }
    assert(text.skip(n as int) =~= Seq::empty());
    assert(out@ =~= replaced(text));
    from_chars(&out)
}

/// Every emoticon is plain ASCII.
pub proof fn lemma_emoticons_are_ascii(c: char)
    ensures
        emoticon(c) matches Some(ascii) ==> forall|i: int|
            0 <= i < ascii.len() ==> (#[trigger] ascii[i] as u32) < 128,
{
    reveal_strlit(":D");
    reveal_strlit("XD");
    reveal_strlit("^^';");
    reveal_strlit(":)");
    reveal_strlit("(:");
    reveal_strlit(";)");
    reveal_strlit("^^");
    reveal_strlit("O:)");
    reveal_strlit("^^<3");
    reveal_strlit(":D<3");
    reveal_strlit("*o*");
    reveal_strlit(":*");
    reveal_strlit(":')");
    reveal_strlit(":P");
    reveal_strlit(";P");
    reveal_strlit("XP");
    reveal_strlit("$_$");
    reveal_strlit("\\o/");
    reveal_strlit(":/");
    reveal_strlit(":X");
    reveal_strlit(">_>");
    reveal_strlit(":|");
    reveal_strlit("-_-");
    reveal_strlit(":x");
    reveal_strlit(":J");
    reveal_strlit("9_9");
    reveal_strlit(":E");
    reveal_strlit("3(");
    reveal_strlit("-_-zzz");
    reveal_strlit(":P~");
    reveal_strlit(":(");
    reveal_strlit(":S");
    reveal_strlit(":P~~~");
    reveal_strlit(":'(");
    reveal_strlit(">_<");
    reveal_strlit("%)");
    reveal_strlit("x_x");
    reveal_strlit(":o");
    reveal_strlit("B|");
    reveal_strlit("B)");
    reveal_strlit(":O");
    reveal_strlit("D:");
    reveal_strlit("D:,");
    reveal_strlit(",:(");
    reveal_strlit("D;");
    reveal_strlit("X(");
    reveal_strlit(">:(");
    reveal_strlit(">:)");
    reveal_strlit(":o)");
    reveal_strlit("(boo)");
    reveal_strlit("[o_o]");
    reveal_strlit(":3");
    reveal_strlit("<3");
    reveal_strlit(">:3");
    reveal_strlit("</3");
    reveal_strlit("<3<3");
    reveal_strlit("o/");
    reveal_strlit("(y)");
    reveal_strlit("(n)");
    reveal_strlit("\\m/");
    reveal_strlit("o7");
    reveal_strlit("<><");
    reveal_strlit("=^.^=");
    reveal_strlit("@}--");
    reveal_strlit("*");
    reveal_strlit(":sun_with_face:");
    reveal_strlit("*~*");
    reveal_strlit("zzz");
    reveal_strlit("*<|:)");
    reveal_strlit("8==D");
}

/// A text without an emoji of the table stays as it is.
pub proof fn lemma_plain_text_unchanged(s: Seq<char>)
    requires
        forall|i: int| 0 <= i < s.len() ==> emoticon(#[trigger] s[i]) is None,
    ensures
        replaced(s) == s,
    decreases s.len(),
{
    if s.len() > 0 {
        let rest = s.skip(1);
        assert forall|i: int| 0 <= i < rest.len() implies emoticon(#[trigger] rest[i]) is None by {
            assert(rest[i] == s[i + 1]);
        }
        lemma_plain_text_unchanged(rest);
        assert(emoticon(s[0]) is None);
        assert(seq![s[0]] + rest =~= s);
    }
}

/// What is left after replacing holds no emoji of the table.
pub proof fn lemma_no_emoji_left(s: Seq<char>)
    ensures
        forall|i: int| 0 <= i < replaced(s).len() ==> emoticon(#[trigger] replaced(s)[i]) is None,
    decreases s.len(),
{
    if s.len() > 0 {
        lemma_after_selectors(s.skip(1));
        match emoticon(s[0]) {
            Some(ascii) => {
                let rest = after_selectors(s.skip(1));
                lemma_emoticons_are_ascii(s[0]);
                lemma_no_emoji_left(rest);
                assert forall|i: int| 0 <= i < replaced(s).len() implies emoticon(
                    #[trigger] replaced(s)[i],
                ) is None by {
                    if i < ascii.len() {
                        assert((ascii[i] as u32) < 128);
                    } else {
                        assert(replaced(s)[i] == replaced(rest)[i - ascii.len()]);
                    }
                }
            },
            None => {
                let rest = s.skip(1);
                lemma_no_emoji_left(rest);
                assert forall|i: int| 0 <= i < replaced(s).len() implies emoticon(
                    #[trigger] replaced(s)[i],
                ) is None by {
                    if i > 0 {
                        assert(replaced(s)[i] == replaced(rest)[i - 1]);
                    }
                }
            },
        }
    }
}

/// Which sign stands for which emoji, by the emoji's code points. Any other
/// character stands for itself.
pub proof fn lemma_emoticons_are(c: char)
    ensures
        c as u32 == 0x1F600 || c as u32 == 0x1F603 || c as u32 == 0x1F604 || c as u32 == 0x1F601 || c as u32 == 0x1F973 ==> emoticon(c) == Some(":D"@),
        c as u32 == 0x1F606 || c as u32 == 0x1F923 || c as u32 == 0x1F602 ==> emoticon(c) == Some("XD"@),
        c as u32 == 0x1F605 ==> emoticon(c) == Some("^^';"@),
        c as u32 == 0x1F642 ==> emoticon(c) == Some(":)"@),
        c as u32 == 0x1F643 ==> emoticon(c) == Some("(:"@),
        c as u32 == 0x1F609 ==> emoticon(c) == Some(";)"@),
        c as u32 == 0x1F60A || c as u32 == 0x1F60C ==> emoticon(c) == Some("^^"@),
        c as u32 == 0x1F607 || c as u32 == 0x1F47C ==> emoticon(c) == Some("O:)"@),
        c as u32 == 0x1F970 ==> emoticon(c) == Some("^^<3"@),
        c as u32 == 0x1F60D ==> emoticon(c) == Some(":D<3"@),
        c as u32 == 0x1F929 ==> emoticon(c) == Some("*o*"@),
        c as u32 == 0x1F618 || c as u32 == 0x1F617 || c as u32 == 0x1F61A || c as u32 == 0x1F619 || c as u32 == 0x1F63D || c as u32 == 0x1F48B ==> emoticon(c) == Some(":*"@),
        c as u32 == 0x1F972 || c as u32 == 0x1F639 ==> emoticon(c) == Some(":')"@),
        c as u32 == 0x1F60B || c as u32 == 0x1F61B || c as u32 == 0x1F4A9 ==> emoticon(c) == Some(":P"@),
        c as u32 == 0x1F61C ==> emoticon(c) == Some(";P"@),
        c as u32 == 0x1F92A || c as u32 == 0x1F61D ==> emoticon(c) == Some("XP"@),
        c as u32 == 0x1F911 ==> emoticon(c) == Some("$_$"@),
        c as u32 == 0x1F917 || c as u32 == 0x1F64C || c as u32 == 0x1F37B || c as u32 == 0x1F389 || c as u32 == 0x1F38A ==> emoticon(c) == Some("\\o/"@),
        c as u32 == 0x1F914 || c as u32 == 0x1F615 ==> emoticon(c) == Some(":/"@),
        c as u32 == 0x1F910 || c as u32 == 0x1F92B ==> emoticon(c) == Some(":X"@),
        c as u32 == 0x1F928 ==> emoticon(c) == Some(">_>"@),
        c as u32 == 0x1F610 ==> emoticon(c) == Some(":|"@),
        c as u32 == 0x1F611 || c as u32 == 0x1F612 ==> emoticon(c) == Some("-_-"@),
        c as u32 == 0x1F636 || c as u32 == 0x1F637 ==> emoticon(c) == Some(":x"@),
        c as u32 == 0x1F60F ==> emoticon(c) == Some(":J"@),
        c as u32 == 0x1F644 ==> emoticon(c) == Some("9_9"@),
        c as u32 == 0x1F62C ==> emoticon(c) == Some(":E"@),
        c as u32 == 0x1F614 ==> emoticon(c) == Some("3("@),
        c as u32 == 0x1F62A || c as u32 == 0x1F634 ==> emoticon(c) == Some("-_-zzz"@),
        c as u32 == 0x1F924 ==> emoticon(c) == Some(":P~"@),
        c as u32 == 0x1F912 || c as u32 == 0x1F915 || c as u32 == 0x1F61F || c as u32 == 0x1F641 || c as u32 == 0x2639 || c as u32 == 0x1F61E ==> emoticon(c) == Some(":("@),
        c as u32 == 0x1F922 ==> emoticon(c) == Some(":S"@),
        c as u32 == 0x1F92E ==> emoticon(c) == Some(":P~~~"@),
        c as u32 == 0x1F927 || c as u32 == 0x1F622 || c as u32 == 0x1F63F ==> emoticon(c) == Some(":'("@),
        c as u32 == 0x1F975 || c as u32 == 0x1F976 || c as u32 == 0x1F616 || c as u32 == 0x1F623 ==> emoticon(c) == Some(">_<"@),
        c as u32 == 0x1F974 ==> emoticon(c) == Some("%)"@),
        c as u32 == 0x1F635 || c as u32 == 0x1F480 || c as u32 == 0x2620 ==> emoticon(c) == Some("x_x"@),
        c as u32 == 0x1F92F || c as u32 == 0x1F62E || c as u32 == 0x1F62F ==> emoticon(c) == Some(":o"@),
        c as u32 == 0x1F978 ==> emoticon(c) == Some("B|"@),
        c as u32 == 0x1F60E ==> emoticon(c) == Some("B)"@),
        c as u32 == 0x1F632 || c as u32 == 0x1F631 ==> emoticon(c) == Some(":O"@),
        c as u32 == 0x1F626 || c as u32 == 0x1F627 || c as u32 == 0x1F628 || c as u32 == 0x1F640 ==> emoticon(c) == Some("D:"@),
        c as u32 == 0x1F630 ==> emoticon(c) == Some("D:,"@),
        c as u32 == 0x1F625 || c as u32 == 0x1F613 ==> emoticon(c) == Some(",:("@),
        c as u32 == 0x1F62D ==> emoticon(c) == Some("D;"@),
        c as u32 == 0x1F629 || c as u32 == 0x1F62B ==> emoticon(c) == Some("X("@),
        c as u32 == 0x1F624 || c as u32 == 0x1F621 || c as u32 == 0x1F620 || c as u32 == 0x1F92C || c as u32 == 0x1F47F || c as u32 == 0x1F479 || c as u32 == 0x1F47A || c as u32 == 0x1F63E ==> emoticon(c) == Some(">:("@),
        c as u32 == 0x1F608 ==> emoticon(c) == Some(">:)"@),
        c as u32 == 0x1F921 ==> emoticon(c) == Some(":o)"@),
        c as u32 == 0x1F47B ==> emoticon(c) == Some("(boo)"@),
        c as u32 == 0x1F916 ==> emoticon(c) == Some("[o_o]"@),
        c as u32 == 0x1F63A || c as u32 == 0x1F638 ==> emoticon(c) == Some(":3"@),
        c as u32 == 0x1F63B || c as u32 == 0x2764 || c as u32 == 0x1F9E1 || c as u32 == 0x1F49B || c as u32 == 0x1F49A || c as u32 == 0x1F499 || c as u32 == 0x1F49C || c as u32 == 0x1F5A4 || c as u32 == 0x1F90D || c as u32 == 0x1F90E || c as u32 == 0x1F493 || c as u32 == 0x1F497 || c as u32 == 0x1F496 || c as u32 == 0x1F498 || c as u32 == 0x1F49D || c as u32 == 0x1F49F ==> emoticon(c) == Some("<3"@),
        c as u32 == 0x1F63C ==> emoticon(c) == Some(">:3"@),
        c as u32 == 0x1F494 ==> emoticon(c) == Some("</3"@),
        c as u32 == 0x1F495 || c as u32 == 0x1F49E ==> emoticon(c) == Some("<3<3"@),
        c as u32 == 0x1F44B ==> emoticon(c) == Some("o/"@),
        c as u32 == 0x1F44D ==> emoticon(c) == Some("(y)"@),
        c as u32 == 0x1F44E ==> emoticon(c) == Some("(n)"@),
        c as u32 == 0x1F918 ==> emoticon(c) == Some("\\m/"@),
        c as u32 == 0x1FAE1 ==> emoticon(c) == Some("o7"@),
        c as u32 == 0x1F41F || c as u32 == 0x1F420 || c as u32 == 0x1F421 ==> emoticon(c) == Some("<><"@),
        c as u32 == 0x1F431 || c as u32 == 0x1F408 ==> emoticon(c) == Some("=^.^="@),
        c as u32 == 0x1F339 ==> emoticon(c) == Some("@}--"@),
        c as u32 == 0x2B50 || c as u32 == 0x1F31F ==> emoticon(c) == Some("*"@),
        c as u32 == 0x1F31E ==> emoticon(c) == Some(":sun_with_face:"@),
        c as u32 == 0x2728 ==> emoticon(c) == Some("*~*"@),
        c as u32 == 0x1F4A4 ==> emoticon(c) == Some("zzz"@),
        c as u32 == 0x1F385 ==> emoticon(c) == Some("*<|:)"@),
        c as u32 == 0x1F346 ==> emoticon(c) == Some("8==D"@),
        emoticon(c) is Some ==> c as u32 >= 0x2600,
{
}

/// Emoji are replaced one by one, each together with the selectors that follow it;
/// other characters stay.
pub proof fn lemma_replaced_by_parts(c: char, rest: Seq<char>)
    ensures
        emoticon(c) is None ==> replaced(seq![c] + rest) == seq![c] + replaced(rest),
        emoticon(c) matches Some(ascii) ==> {
            &&& rest.len() == 0 || (rest[0] as u32 != 0xFE0E && rest[0] as u32 != 0xFE0F)
                ==> replaced(seq![c] + rest) == ascii + replaced(rest)
            &&& replaced(seq![c, '\u{FE0F}'] + rest) == replaced(seq![c] + rest)
            &&& replaced(seq![c, '\u{FE0E}'] + rest) == replaced(seq![c] + rest)
        },
        replaced(Seq::empty()).len() == 0,
{
    let one = seq![c] + rest;
    assert(one.skip(1) =~= rest);
    lemma_selectors_shrink(rest);
    let (a, b) = (seq![c, '\u{FE0F}'] + rest, seq![c, '\u{FE0E}'] + rest);
    assert(a.skip(1).skip(1) =~= rest);
    assert(b.skip(1).skip(1) =~= rest);
    assert(after_selectors(a.skip(1)) == after_selectors(rest));
    assert(after_selectors(b.skip(1)) == after_selectors(rest));
}

proof fn lemma_selectors_shrink(s: Seq<char>)
    ensures
        after_selectors(s).len() <= s.len(),
    decreases s.len(),
{
    if s.len() > 0 && variation_selector(s[0]) {
        lemma_selectors_shrink(s.skip(1));
    }
}

} // verus!
