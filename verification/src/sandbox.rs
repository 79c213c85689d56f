//! The sandbox that a model's code runs in: what of the machine it sees, and
//! what is reported of the run.
use vstd::prelude::*;

use crate::chars::{append_str, from_chars, string_views};
use crate::json::{lossy, lossy_text};
use crate::paths::{join_path, under};
use crate::readable::{clipped, html_to_text, page_text, truncate};

verus! {

/// The folders at home that the mathematics kernel needs, if they are there.
pub open spec fn kernel_dirs() -> Seq<Seq<char>> {
    seq![".WolframEngine"@, ".Wolfram"@, ".config/Wolfram"@]
}

/// The arguments that every run has: the system read-only, and empty folders
/// for temporary files and for the home.
pub open spec fn base_args(home: Seq<char>) -> Seq<Seq<char>> {
    seq![
        "--ro-bind"@,
        "/usr"@,
        "/usr"@,
        "--ro-bind"@,
        "/opt"@,
        "/opt"@,
        "--ro-bind"@,
        "/etc"@,
        "/etc"@,
        "--symlink"@,
        "usr/lib"@,
        "/lib"@,
        "--symlink"@,
        "usr/lib"@,
        "/lib64"@,
        "--symlink"@,
        "usr/bin"@,
        "/bin"@,
        "--symlink"@,
        "usr/bin"@,
        "/sbin"@,
        "--proc"@,
        "/proc"@,
        "--dev"@,
        "/dev"@,
        "--tmpfs"@,
        "/tmp"@,
        "--tmpfs"@,
        home,
    ]
}

/// Makes a folder visible at its own place.
pub open spec fn bound(option: Seq<char>, path: Seq<char>) -> Seq<Seq<char>> {
    seq![option, path, path]
}

/// The folders at home that a run sees: those of the kernel that are there,
/// read-only, and the kernel's cache.
pub open spec fn home_args(home: Seq<char>, dirs: Seq<bool>, cache: bool) -> Seq<Seq<char>> {
    (if dirs[0] {
        bound("--ro-bind"@, under(home, kernel_dirs()[0]))
    } else {
        Seq::empty()
    }) + (if dirs[1] {
        bound("--ro-bind"@, under(home, kernel_dirs()[1]))
    } else {
        Seq::empty()
    }) + (if dirs[2] {
        bound("--ro-bind"@, under(home, kernel_dirs()[2]))
    } else {
        Seq::empty()
    }) + (if cache {
        bound("--bind"@, under(home, ".cache/Wolfram"@))
    } else {
        Seq::empty()
    })
}

/// All the sandbox's arguments: without a network or a view of other
/// processes, and dying with its parent.
pub open spec fn all_args(
    home: Seq<char>,
    dirs: Seq<bool>,
    cache: bool,
    program: Seq<char>,
    args: Seq<Seq<char>>,
) -> Seq<Seq<char>> {
    base_args(home) + home_args(home, dirs, cache) + seq![
        "--setenv"@,
        "HOME"@,
        home,
        "--unshare-all"@,
        "--die-with-parent"@,
        "--"@,
        program,
    ] + args
}

fn push_text(out: &mut Vec<String>, text: &str)
    ensures
        string_views(final(out)@) == string_views(old(out)@).push(text@),
{
    let ghost before = out@;
    out.push(text.to_owned());
    assert(string_views(out@) =~= string_views(before).push(text@));
}

fn push_bound(out: &mut Vec<String>, option: &str, path: &str)
    ensures
        string_views(final(out)@) == string_views(old(out)@) + bound(option@, path@),
{
    let ghost before = string_views(out@);
    push_text(out, option);
    push_text(out, path);
    push_text(out, path);
    assert(string_views(out@) =~= before + bound(option@, path@));
}

fn push_base(out: &mut Vec<String>, home: &str)
    ensures
        string_views(final(out)@) == string_views(old(out)@) + base_args(home@),
{
    let ghost before = string_views(out@);
    push_bound(out, "--ro-bind", "/usr");
    push_bound(out, "--ro-bind", "/opt");
    push_bound(out, "--ro-bind", "/etc");
    push_text(out, "--symlink");
    push_text(out, "usr/lib");
    push_text(out, "/lib");
    push_text(out, "--symlink");
    push_text(out, "usr/lib");
    push_text(out, "/lib64");
    push_text(out, "--symlink");
    push_text(out, "usr/bin");
    push_text(out, "/bin");
    push_text(out, "--symlink");
    push_text(out, "usr/bin");
    push_text(out, "/sbin");
    push_text(out, "--proc");
    push_text(out, "/proc");
    push_text(out, "--dev");
    push_text(out, "/dev");
    push_text(out, "--tmpfs");
    push_text(out, "/tmp");
    push_text(out, "--tmpfs");
    push_text(out, home);
    assert(string_views(out@) =~= before + base_args(home@));
}

/// The arguments of the sandbox for a program, given which of the kernel's
/// folders are there.
pub fn sandbox_args(
    home: &str,
    dirs: [bool; 3],
    cache: bool,
    program: &str,
    args: &Vec<String>,
) -> (r: Vec<String>)
    ensures
        string_views(r@) == all_args(home@, dirs@, cache, program@, string_views(args@)),
{
    let mut out: Vec<String> = Vec::new();
    assert(string_views(out@) =~= Seq::empty());
    push_base(&mut out, home);
    if dirs[0] {
        let path = join_path(home, ".WolframEngine");
        push_bound(&mut out, "--ro-bind", path.as_str());
    }
    if dirs[1] {
        let path = join_path(home, ".Wolfram");
        push_bound(&mut out, "--ro-bind", path.as_str());
    }
    if dirs[2] {
        let path = join_path(home, ".config/Wolfram");
        push_bound(&mut out, "--ro-bind", path.as_str());
    }
    if cache {
        let path = join_path(home, ".cache/Wolfram");
        push_bound(&mut out, "--bind", path.as_str());
    }
    push_text(&mut out, "--setenv");
    push_text(&mut out, "HOME");
    push_text(&mut out, home);
    push_text(&mut out, "--unshare-all");
    push_text(&mut out, "--die-with-parent");
    push_text(&mut out, "--");
    push_text(&mut out, program);
    let ghost head = string_views(out@);
    let ghost rest = string_views(args@);
    let mut i: usize = 0;
    assert(head + rest.take(0) =~= head);
    while i < args.len()
        invariant
            i <= args@.len(),
            rest == string_views(args@),
            string_views(out@) =~= head + rest.take(i as int),
        decreases args@.len() - i,
    {
        push_text(&mut out, args[i].as_str());
        i += 1;
    }
    assert(rest.take(rest.len() as int) =~= rest);
    assert(string_views(out@) =~= all_args(home@, dirs@, cache, program@, rest));
    out
}

/// What is reported of a run: what it printed and complained of, cut to a
/// number of bytes.
pub fn run_report(stdout: &[u8], stderr: &[u8], cap: usize) -> (r: String)
    ensures
        r@ == clipped(lossy_text(stdout@) + lossy_text(stderr@), cap as nat),
{
    let printed = lossy(stdout);
    let complained = lossy(stderr);
    report_texts(printed.as_str(), complained.as_str(), cap)
}

pub fn report_texts(printed: &str, complained: &str, cap: usize) -> (r: String)
    ensures
        r@ == clipped(printed@ + complained@, cap as nat),
{
    let mut out: Vec<char> = Vec::new();
    append_str(&mut out, printed);
    append_str(&mut out, complained);
    assert(out@ =~= printed@ + complained@);
    let text = from_chars(&out);
    truncate(text.as_str(), cap)
}

/// What is reported of a page that was fetched.
pub fn page_report(page: &str) -> (r: String)
    ensures
        r@ == clipped(page_text(page@), 6000),
{
    let text = html_to_text(page);
    truncate(text.as_str(), 6000)
}

/// What a sandboxed program may see: the system's directories, read only; an empty
/// home with those of the kernel's directories that there are, read only, and its
/// cache; no other part of the home, no network, and nothing that outlives its
/// parent. The program and its arguments come last.
pub proof fn lemma_sandbox_is(
    home: Seq<char>,
    dirs: Seq<bool>,
    cache: bool,
    program: Seq<char>,
    args: Seq<Seq<char>>,
)
    requires
        dirs.len() == 3,
    ensures
        ({
            let all = all_args(home, dirs, cache, program, args);
            let a = if dirs[0] {
                3int
            } else {
                0
            };
            let b = if dirs[1] {
                a + 3
            } else {
                a
            };
            let c = if dirs[2] {
                b + 3
            } else {
                b
            };
            let d = if cache {
                c + 3
            } else {
                c
            };
            &&& all.len() == 36 + d + args.len()
            &&& all[0] == "--ro-bind"@ && all[1] == "/usr"@ && all[2] == "/usr"@
            &&& all[3] == "--ro-bind"@ && all[4] == "/opt"@ && all[5] == "/opt"@
            &&& all[6] == "--ro-bind"@ && all[7] == "/etc"@ && all[8] == "/etc"@
            &&& all[9] == "--symlink"@ && all[10] == "usr/lib"@ && all[11] == "/lib"@
            &&& all[12] == "--symlink"@ && all[13] == "usr/lib"@ && all[14] == "/lib64"@
            &&& all[15] == "--symlink"@ && all[16] == "usr/bin"@ && all[17] == "/bin"@
            &&& all[18] == "--symlink"@ && all[19] == "usr/bin"@ && all[20] == "/sbin"@
            &&& all[21] == "--proc"@ && all[22] == "/proc"@
            &&& all[23] == "--dev"@ && all[24] == "/dev"@
            &&& all[25] == "--tmpfs"@ && all[26] == "/tmp"@
            &&& all[27] == "--tmpfs"@ && all[28] == home
            &&& dirs[0] ==> all[29] == "--ro-bind"@ && all[30] == home + "/.WolframEngine"@
                && all[31] == all[30]
            &&& dirs[1] ==> all[29 + a] == "--ro-bind"@ && all[30 + a] == home + "/.Wolfram"@
                && all[31 + a] == all[30 + a]
            &&& dirs[2] ==> all[29 + b] == "--ro-bind"@ && all[30 + b] == home + "/.config/Wolfram"@
                && all[31 + b] == all[30 + b]
            &&& cache ==> all[29 + c] == "--bind"@ && all[30 + c] == home + "/.cache/Wolfram"@
                && all[31 + c] == all[30 + c]
            &&& all[29 + d] == "--setenv"@ && all[30 + d] == "HOME"@ && all[31 + d] == home
            &&& all[32 + d] == "--unshare-all"@
            &&& all[33 + d] == "--die-with-parent"@
            &&& all[34 + d] == "--"@
            &&& all[35 + d] == program
            &&& all.skip(36 + d) == args
        }),
{
    reveal_strlit(".WolframEngine");
    reveal_strlit(".Wolfram");
    reveal_strlit(".config/Wolfram");
    reveal_strlit(".cache/Wolfram");
    reveal_strlit("/.WolframEngine");
    reveal_strlit("/.Wolfram");
    reveal_strlit("/.config/Wolfram");
    reveal_strlit("/.cache/Wolfram");
    assert(under(home, ".WolframEngine"@) =~= home + "/.WolframEngine"@);
    assert(under(home, ".Wolfram"@) =~= home + "/.Wolfram"@);
    assert(under(home, ".config/Wolfram"@) =~= home + "/.config/Wolfram"@);
    assert(under(home, ".cache/Wolfram"@) =~= home + "/.cache/Wolfram"@);
    let all = all_args(home, dirs, cache, program, args);
    assert(all.skip(all.len() - args.len()) =~= args);
}

} // verus!
