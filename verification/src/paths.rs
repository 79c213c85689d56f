//! Where files lie: the home directory, the configuration directory, and the
//! path that a one-line configuration file names.
use vstd::prelude::*;
use vstd::slice::slice_subrange;

use crate::chars::{
    append_str, chars_start_with, first_matching, from_chars, lemma_first_matching, lines_chars,
    lines_of, starts_with, to_chars, trim, trim_chars, views,
};

verus! {

/// A path without the slashes at its end.
pub open spec fn without_slashes(path: Seq<char>) -> Seq<char>
    decreases path.len(),
{
    if path.len() > 0 && path.last() == '/' {
        without_slashes(path.drop_last())
    } else {
        path
    }
}

pub fn trim_slashes(path: &str) -> (r: String)
    ensures
        r@ == without_slashes(path@),
{
    let chars = to_chars(path);
    let mut n: usize = chars.len();
    assert(chars@.take(n as int) =~= chars@);
    while n > 0 && chars[n - 1] == '/'
        invariant
            n <= chars@.len(),
            chars@ == path@,
            without_slashes(path@) == without_slashes(chars@.take(n as int)),
        decreases n,
    {
        assert(chars@.take(n as int).drop_last() =~= chars@.take(n - 1));
        n -= 1;
    }
    let kept = slice_subrange(chars.as_slice(), 0, n);
    assert(kept@ =~= chars@.take(n as int));
    from_chars(kept)
}

/// Two parts of a path with a slash between.
pub open spec fn under(dir: Seq<char>, name: Seq<char>) -> Seq<char> {
    dir + seq!['/'] + name
}

pub fn join_path(dir: &str, name: &str) -> (r: String)
    ensures
        r@ == under(dir@, name@),
{
    let mut out = to_chars(dir);
    out.push('/');
    append_str(&mut out, name);
    assert(out@ =~= under(dir@, name@));
    from_chars(&out)
}

/// A path with a leading `~/` replaced by the home directory, if there is one.
pub open spec fn expanded(path: Seq<char>, home: Option<Seq<char>>) -> Seq<char> {
    match home {
        Some(home) => if starts_with(path, "~/"@) {
            under(without_slashes(home), path.skip(2))
        } else {
            path
        },
        None => path,
    }
}

pub open spec fn str_view(text: Option<&str>) -> Option<Seq<char>> {
    match text {
        Some(text) => Some(text@),
        None => None,
    }
}

pub fn expand_tilde(path: &str, home: Option<&str>) -> (r: String)
    ensures
        r@ == expanded(path@, str_view(home)),
{
    proof {
        reveal_strlit("~/");
    }
    if let Some(home) = home {
        let chars = to_chars(path);
        let tilde = to_chars("~/");
        if chars_start_with(&chars, &tilde) {
            let rest = slice_subrange(chars.as_slice(), 2, chars.len());
            assert(rest@ =~= path@.skip(2));
            let name = from_chars(rest);
            let base = trim_slashes(home);
            return join_path(base.as_str(), name.as_str());
        }
    }
    path.to_owned()
}

/// The configuration directory: under the given one when it is set, else under
/// the home directory.
pub open spec fn config_home(xdg: Option<Seq<char>>, home: Option<Seq<char>>) -> Seq<char> {
    let base = match xdg {
        Some(dir) => if dir.len() > 0 {
            dir
        } else {
            expanded("~/.config"@, home)
        },
        None => expanded("~/.config"@, home),
    };
    under(without_slashes(base), "cozyui"@)
}

pub fn config_dir(xdg: Option<&str>, home: Option<&str>) -> (r: String)
    ensures
        r@ == config_home(str_view(xdg), str_view(home)),
{
    let base = match xdg {
        Some(dir) => if dir.unicode_len() > 0 {
            dir.to_owned()
        } else {
            expand_tilde("~/.config", home)
        },
        None => expand_tilde("~/.config", home),
    };
    let trimmed = trim_slashes(base.as_str());
    join_path(trimmed.as_str(), "cozyui")
}

/// Where a configuration file is looked for, in order.
pub struct ConfigFile {
    pub path: String,
    pub dev_path: String,
}

/// The places of a configuration file: in the configuration directory, and
/// next to the sources.
pub fn config_places(dir: &str, dev_dir: &str, name: &str) -> (r: ConfigFile)
    ensures
        r.path@ == under(dir@, name@),
        r.dev_path@ == under(dev_dir@, name@),
{
    ConfigFile { path: join_path(dir, name), dev_path: join_path(dev_dir, name) }
}

/// The file to use, given which of the places exist, and whether the
/// configuration directory has to be made for it.
pub fn config_file(places: ConfigFile, exists: bool, dev_exists: bool) -> (r: (String, bool))
    ensures
        r.0 == (if !exists && dev_exists {
            places.dev_path
        } else {
            places.path
        }),
        r.1 == (!exists && !dev_exists),
{
    if exists {
        (places.path, false)
    } else if dev_exists {
        (places.dev_path, false)
    } else {
        (places.path, true)
    }
}

/// Whether a line says something: it is not blank and no comment.
pub open spec fn says_something(line: Seq<char>) -> bool {
    trim(line).len() > 0 && trim(line)[0] != '#'
}

/// The path that a configuration file names: its first line that says
/// something, or the default.
pub open spec fn first_config_line(text: Option<Seq<char>>, default: Seq<char>) -> Seq<char> {
    match text {
        Some(text) => match first_matching(
            lines_of(text),
            |line: Seq<char>| says_something(line),
        ) {
            Some(i) => trim(lines_of(text)[i]),
            None => default,
        },
        None => default,
    }
}

pub fn config_first_line(text: Option<&str>, default: &str, home: Option<&str>) -> (r: String)
    ensures
        r@ == expanded(first_config_line(str_view(text), default@), str_view(home)),
{
    if let Some(content) = text {
        let chars = to_chars(content);
        let lines = lines_chars(&chars);
        let ghost holds = |line: Seq<char>| says_something(line);
        let mut i: usize = 0;
        while i < lines.len()
            invariant
                i <= lines@.len(),
                text == Some(content),
                views(lines@) == lines_of(content@),
                holds == (|line: Seq<char>| says_something(line)),
                forall|j: int| 0 <= j < i ==> !holds(#[trigger] views(lines@)[j]),
            decreases lines@.len() - i,
        {
            let line = trim_chars(&lines[i]);
            if line.len() > 0 && line[0] != '#' {
                proof {
                    assert(holds(views(lines@)[i as int]));
                    lemma_first_matching(views(lines@), holds, i as int);
                }
                let found = from_chars(line);
                return expand_tilde(found.as_str(), home);
            }
            assert(!holds(views(lines@)[i as int]));
            i += 1;
        }
        proof {
            lemma_first_matching(views(lines@), holds, i as int);
        }
    }
    expand_tilde(default, home)
}

/// The slashes at the end of a path go, all of them and nothing else.
pub proof fn lemma_slashes_go(path: Seq<char>)
    ensures
        ({
            let short = without_slashes(path);
            &&& short.len() <= path.len()
            &&& short == path.take(short.len() as int)
            &&& forall|i: int| short.len() <= i < path.len() ==> #[trigger] path[i] == '/'
            &&& short.len() > 0 ==> path[short.len() - 1] != '/'
        }),
    decreases path.len(),
{
    if path.len() > 0 && path.last() == '/' {
        lemma_slashes_go(path.drop_last());
        let n = without_slashes(path).len() as int;
        assert(path.take(n) =~= path.drop_last().take(n));
        assert forall|i: int| n <= i < path.len() implies #[trigger] path[i] == '/' by {
            if i < path.len() - 1 {
                assert(path[i] == path.drop_last()[i]);
            }
        }
    } else {
        assert(path.take(path.len() as int) =~= path);
    }
}

/// A tilde at the front stands for the home directory. Any other path stays, and
/// so does every one without a home.
pub proof fn lemma_home_is_put_in(path: Seq<char>, home: Seq<char>)
    ensures
        expanded(seq!['~', '/'] + path, Some(home)) == without_slashes(home) + seq!['/'] + path,
        path.len() < 2 || path[0] != '~' || path[1] != '/' ==> expanded(path, Some(home)) == path,
        expanded(path, None) == path,
        under(home, path) == home + seq!['/'] + path,
{
    reveal_strlit("~/");
    let all = seq!['~', '/'] + path;
    assert(all.take(2) =~= "~/"@);
    assert(all.skip(2) =~= path);
    if path.len() >= 2 && path.take(2) == "~/"@ {
        assert(path.take(2)[0] == path[0] && path.take(2)[1] == path[1]);
    }
}

/// The configuration lies in its own directory below the one that is set for it,
/// or else below that of the home.
pub proof fn lemma_config_home_is(xdg: Seq<char>, home: Seq<char>)
    ensures
        xdg.len() > 0 ==> config_home(Some(xdg), Some(home)) == without_slashes(xdg) + "/cozyui"@,
        xdg.len() > 0 ==> config_home(Some(xdg), None) == without_slashes(xdg) + "/cozyui"@,
        xdg.len() == 0 ==> config_home(Some(xdg), Some(home)) == config_home(None, Some(home)),
        config_home(None, Some(home)) == without_slashes(home) + "/.config/cozyui"@,
{
    reveal_strlit("~/.config");
    reveal_strlit("cozyui");
    reveal_strlit("/cozyui");
    reveal_strlit("/.config/cozyui");
    lemma_home_is_put_in(".config"@, home);
    reveal_strlit(".config");
    assert("~/.config"@ =~= seq!['~', '/'] + ".config"@);
    let base = without_slashes(home) + seq!['/'] + ".config"@;
    assert(expanded("~/.config"@, Some(home)) == base);
    assert(base.last() == 'g');
    assert(without_slashes(base) == base);
    assert(without_slashes(xdg) + seq!['/'] + "cozyui"@ =~= without_slashes(xdg) + "/cozyui"@);
    assert(base + seq!['/'] + "cozyui"@ =~= without_slashes(home) + "/.config/cozyui"@);
}

/// The first line that is neither blank nor a comment counts, without the blanks
/// round it.
pub proof fn lemma_first_line_counts(text: Seq<char>, default: Seq<char>, i: int)
    requires
        0 <= i <= lines_of(text).len(),
        forall|j: int|
            0 <= j < i ==> trim(#[trigger] lines_of(text)[j]).len() == 0 || trim(
                lines_of(text)[j],
            )[0] == '#',
    ensures
        i < lines_of(text).len() && trim(lines_of(text)[i]).len() > 0 && trim(lines_of(text)[i])[0]
            != '#' ==> first_config_line(Some(text), default) == trim(lines_of(text)[i]),
        i == lines_of(text).len() ==> first_config_line(Some(text), default) == default,
        first_config_line(None, default) == default,
{
    let lines = lines_of(text);
    let holds = |line: Seq<char>| says_something(line);
    crate::chars::lemma_first_matching(lines, holds, i);
    if i < lines.len() {
        assert(holds(lines[i]) == says_something(lines[i]));
    }
}

} // verus!
