//! Word wrapping of measured text.
use vstd::prelude::*;

use crate::chars::{is_white_space, string_views, to_chars, white_space};

verus! {

/// A character together with the width it is drawn at.
pub type Measured = (char, usize);

/// The width of a run of measured characters.
pub open spec fn run_width(run: Seq<Measured>) -> nat
    decreases run.len(),
{
    if run.len() == 0 {
        0
    } else {
        run_width(run.drop_last()) + run.last().1 as nat
    }
}

/// The characters of a run.
pub open spec fn run_text(run: Seq<Measured>) -> Seq<char> {
    Seq::new(run.len(), |i: int| run[i].0)
}

/// The position just after the last white space of a run, if it has any.
pub open spec fn last_break(run: Seq<Measured>) -> Option<nat>
    decreases run.len(),
{
    if run.len() == 0 {
        None
    } else if white_space(run.last().0) {
        Some(run.len())
    } else {
        last_break(run.drop_last())
    }
}

/// Finished lines and the line still being filled.
pub struct Wrapped {
    pub lines: Seq<Seq<Measured>>,
    pub line: Seq<Measured>,
}

/// Ends the current line, unless it is empty.
pub open spec fn end_line(w: Wrapped) -> Seq<Seq<Measured>> {
    if w.line.len() == 0 {
        w.lines
    } else {
        w.lines.push(w.line)
    }
}

/// Adds one character. A newline ends the line. A line that grows past
/// `max_width` is broken after its last white space when text follows it,
/// otherwise before the new character; a lone character is never broken off.
pub open spec fn wrap_step(w: Wrapped, max_width: nat, item: Measured) -> Wrapped {
    if item.0 == '\n' {
        Wrapped { lines: end_line(w), line: Seq::empty() }
    } else {
        let line = w.line.push(item);
        if run_width(line) <= max_width {
            Wrapped { lines: w.lines, line }
        } else {
            match last_break(line) {
                Some(at) if at < line.len() => Wrapped {
                    lines: w.lines.push(line.take(at as int)),
                    line: line.skip(at as int),
                },
                _ => if line.len() > 1 {
                    Wrapped { lines: w.lines.push(w.line), line: seq![item] }
                } else {
                    Wrapped { lines: w.lines, line }
                },
            }
        }
    }
}

/// The wrapping state after a run of characters.
pub open spec fn wrap_run(run: Seq<Measured>, max_width: nat) -> Wrapped
    decreases run.len(),
{
    if run.len() == 0 {
        Wrapped { lines: Seq::empty(), line: Seq::empty() }
    } else {
        wrap_step(wrap_run(run.drop_last(), max_width), max_width, run.last())
    }
}

/// The lines that a run wraps to; text without any line gives one empty line.
pub open spec fn wrapped_lines(run: Seq<Measured>, max_width: nat) -> Seq<Seq<char>> {
    let lines = end_line(wrap_run(run, max_width));
    if lines.len() == 0 {
        seq![Seq::<char>::empty()]
    } else {
        Seq::new(lines.len(), |i: int| run_text(lines[i]))
    }
}

/// The characters of `text`, each with the width given for its position.
pub open spec fn measured(text: Seq<char>, widths: Seq<usize>) -> Seq<Measured> {
    Seq::new(text.len(), |i: int| (text[i], widths[i]))
}

proof fn lemma_width_concat(a: Seq<Measured>, b: Seq<Measured>)
    ensures
        run_width(a + b) == run_width(a) + run_width(b),
    decreases b.len(),
{
    if b.len() == 0 {
        assert(a + b =~= a);
    } else {
        lemma_width_concat(a, b.drop_last());
        assert((a + b).drop_last() =~= a + b.drop_last());
    }
}

proof fn lemma_break_bounds(run: Seq<Measured>)
    ensures
        last_break(run) matches Some(at) ==> 1 <= at <= run.len(),
    decreases run.len(),
{
    if run.len() > 0 {
        lemma_break_bounds(run.drop_last());
    }
}

/// What follows the last white space of a run holds no white space.
proof fn lemma_no_break_after(run: Seq<Measured>, at: int)
    requires
        last_break(run) == Some(at as nat),
        1 <= at <= run.len(),
    ensures
        last_break(run.skip(at)) is None,
    decreases run.len(),
{
    if at == run.len() {
        assert(run.skip(at) =~= Seq::empty());
    } else {
        lemma_no_break_after(run.drop_last(), at);
        assert(run.skip(at).drop_last() =~= run.drop_last().skip(at));
        assert(run.skip(at).last() == run.last());
    }
}

proof fn lemma_wrap_run_sizes(run: Seq<Measured>, max_width: nat)
    ensures
        wrap_run(run, max_width).lines.len() <= run.len(),
        wrap_run(run, max_width).line.len() <= run.len(),
        forall|i: int|
            0 <= i < wrap_run(run, max_width).lines.len() ==> (#[trigger] wrap_run(
                run,
                max_width,
            ).lines[i]).len() <= run.len(),
    decreases run.len(),
{
    if run.len() > 0 {
        lemma_wrap_run_sizes(run.drop_last(), max_width);
        let w = wrap_run(run.drop_last(), max_width);
        if run.last().0 != '\n' {
            lemma_break_bounds(w.line.push(run.last()));
        }
    }
}

/// A text wraps to at most one line more than it has characters, and no line
/// has more than the text.
pub proof fn lemma_wrap_sizes(run: Seq<Measured>, max_width: nat)
    ensures
        1 <= wrapped_lines(run, max_width).len() <= run.len() + 1,
        forall|i: int|
            0 <= i < wrapped_lines(run, max_width).len() ==> (#[trigger] wrapped_lines(
                run,
                max_width,
            )[i]).len() <= run.len(),
{
    lemma_wrap_run_sizes(run, max_width);
}

/// Every run of characters with the line ends removed.
pub open spec fn without_newlines(run: Seq<Measured>) -> Seq<Measured>
    decreases run.len(),
{
    if run.len() == 0 {
        run
    } else if run.last().0 == '\n' {
        without_newlines(run.drop_last())
    } else {
        without_newlines(run.drop_last()).push(run.last())
    }
}

proof fn lemma_wrap_run_keeps(run: Seq<Measured>, max_width: nat)
    ensures
        ({
            let w = wrap_run(run, max_width);
            w.lines.flatten() + w.line == without_newlines(run)
        }),
        forall|i: int|
            0 <= i < wrap_run(run, max_width).lines.len() ==> (#[trigger] wrap_run(
                run,
                max_width,
            ).lines[i]).len() > 0,
    decreases run.len(),
{
    let w = wrap_run(run, max_width);
    if run.len() == 0 {
        assert(w.lines.flatten() + w.line =~= without_newlines(run));
    } else {
        let before = wrap_run(run.drop_last(), max_width);
        lemma_wrap_run_keeps(run.drop_last(), max_width);
        let item = run.last();
        if item.0 == '\n' {
            before.lines.lemma_flatten_push(before.line);
            assert(w.lines.flatten() + w.line =~= without_newlines(run));
        } else {
            let line = before.line.push(item);
            lemma_break_bounds(line);
            before.lines.lemma_flatten_push(before.line);
            if let Some(at) = last_break(line) {
                before.lines.lemma_flatten_push(line.take(at as int));
            }
            assert(w.lines.flatten() + w.line =~= without_newlines(run));
        }
    }
}

/// Wrapping loses and reorders nothing: the lines, put end to end, are the text
/// without its newlines, and no line is empty.
pub proof fn lemma_wrap_keeps_text(run: Seq<Measured>, max_width: nat)
    ensures
        end_line(wrap_run(run, max_width)).flatten() == without_newlines(run),
        forall|i: int|
            0 <= i < end_line(wrap_run(run, max_width)).len() ==> (#[trigger] end_line(
                wrap_run(run, max_width),
            )[i]).len() > 0,
{
    let w = wrap_run(run, max_width);
    lemma_wrap_run_keeps(run, max_width);
    w.lines.lemma_flatten_push(w.line);
    assert(w.line.len() == 0 ==> w.lines.flatten() + w.line =~= w.lines.flatten());
}

/// Every character of a run but a newline is as wide as the others.
pub open spec fn monospaced(run: Seq<Measured>, width: nat) -> bool {
    forall|i: int| 0 <= i < run.len() && (#[trigger] run[i]).0 != '\n' ==> run[i].1 == width
}

/// Every item of a run has the width.
spec fn evenly(run: Seq<Measured>, width: nat) -> bool {
    forall|i: int| 0 <= i < run.len() ==> (#[trigger] run[i]).1 == width
}

proof fn lemma_even_width(run: Seq<Measured>, width: nat)
    requires
        evenly(run, width),
    ensures
        run_width(run) == run.len() * width,
    decreases run.len(),
{
    if run.len() > 0 {
        let front = run.drop_last();
        assert forall|i: int| 0 <= i < front.len() implies (#[trigger] front[i]).1 == width by {
            assert(front[i] == run[i]);
        }
        lemma_even_width(front, width);
        assert(run.last() == run[run.len() - 1]);
        assert(run.len() * width == front.len() * width + width) by (nonlinear_arith)
            requires
                run.len() == front.len() + 1,
        ;
    }
}

proof fn lemma_wrap_run_fits(run: Seq<Measured>, max_width: nat, width: nat)
    requires
        monospaced(run, width),
        width <= max_width,
    ensures
        ({
            let w = wrap_run(run, max_width);
            &&& run_width(w.line) <= max_width
            &&& evenly(w.line, width)
            &&& forall|i: int|
                0 <= i < w.lines.len() ==> run_width(#[trigger] w.lines[i]) <= max_width
        }),
    decreases run.len(),
{
    if run.len() > 0 {
        let front = run.drop_last();
        assert forall|i: int| 0 <= i < front.len() && (#[trigger] front[i]).0 != '\n' implies front[i].1
            == width by {
            assert(front[i] == run[i]);
        }
        lemma_wrap_run_fits(front, max_width, width);
        let before = wrap_run(front, max_width);
        let item = run.last();
        assert(item == run[run.len() - 1]);
        if item.0 != '\n' {
            let line = before.line.push(item);
            assert(line.drop_last() =~= before.line);
            lemma_break_bounds(line);
            if run_width(line) > max_width {
                match last_break(line) {
                    Some(at) if at < line.len() => {
                        let head = line.take(at as int);
                        let rest = line.skip(at as int);
                        assert(line =~= head + rest);
                        assert(head =~= before.line.take(at as int));
                        lemma_width_concat(head, rest);
                        lemma_width_concat(head, before.line.skip(at as int));
                        assert(before.line =~= head + before.line.skip(at as int));
                        lemma_even_width(head, width);
                        assert(head.len() * width >= width) by (nonlinear_arith)
                            requires
                                head.len() >= 1,
                        ;
                    },
                    _ => {
                        assert(seq![item].drop_last() =~= Seq::empty());
                        assert(run_width(seq![item]) == run_width(Seq::<Measured>::empty())
                            + width);
                    },
                }
            }
        }
    }
}

/// When all characters are equally wide, and no wider than the limit, every
/// line stays within it.
pub proof fn lemma_wrap_fits(run: Seq<Measured>, max_width: nat, width: nat)
    requires
        monospaced(run, width),
        width <= max_width,
    ensures
        forall|i: int|
            0 <= i < end_line(wrap_run(run, max_width)).len() ==> run_width(
                #[trigger] end_line(wrap_run(run, max_width))[i],
            ) <= max_width,
{
    lemma_wrap_run_fits(run, max_width, width);
}

proof fn lemma_width_of_one(item: Measured)
    ensures
        run_width(seq![item]) == item.1,
{
    assert(seq![item].drop_last() =~= Seq::<Measured>::empty());
    assert(run_width(Seq::<Measured>::empty()) == 0);
}

/// Whether the machine can measure each line of a run as it is filled.
pub open spec fn lines_fit(run: Seq<Measured>, max_width: nat) -> bool {
    forall|k: int|
        0 <= k < run.len() && (#[trigger] run[k]).0 != '\n' ==> run_width(
            wrap_run(run.take(k), max_width).line,
        ) + run[k].1 <= usize::MAX
}

/// The characters after the last newline of a run.
pub open spec fn last_paragraph(run: Seq<Measured>) -> Seq<Measured>
    decreases run.len(),
{
    if run.len() == 0 || run.last().0 == '\n' {
        Seq::empty()
    } else {
        last_paragraph(run.drop_last()).push(run.last())
    }
}

proof fn lemma_line_in_paragraph(run: Seq<Measured>, max_width: nat)
    ensures
        run_width(wrap_run(run, max_width).line) <= run_width(last_paragraph(run)),
        run_width(last_paragraph(run)) <= run_width(run),
    decreases run.len(),
{
    if run.len() > 0 {
        let front = run.drop_last();
        let before = wrap_run(front, max_width);
        let item = run.last();
        lemma_line_in_paragraph(front, max_width);
        if item.0 != '\n' {
            let line = before.line.push(item);
            assert(line.drop_last() =~= before.line);
            assert(last_paragraph(run).drop_last() =~= last_paragraph(front));
            assert(run_width(last_paragraph(run)) == run_width(last_paragraph(front)) + item.1);
            lemma_break_bounds(line);
            if let Some(at) = last_break(line) {
                assert(line =~= line.take(at as int) + line.skip(at as int));
                lemma_width_concat(line.take(at as int), line.skip(at as int));
            }
            lemma_width_of_one(item);
        }
    }
}

/// Lines fit wherever the paragraphs do.
pub proof fn lemma_paragraphs_fit(run: Seq<Measured>, max_width: nat)
    requires
        forall|k: int|
            0 <= k <= run.len() ==> run_width(last_paragraph(#[trigger] run.take(k)))
                <= usize::MAX,
    ensures
        lines_fit(run, max_width),
{
    assert forall|k: int| 0 <= k < run.len() && (#[trigger] run[k]).0 != '\n' implies run_width(
        wrap_run(run.take(k), max_width).line,
    ) + run[k].1 <= usize::MAX by {
        let now = run.take(k + 1);
        assert(now.drop_last() =~= run.take(k));
        assert(now.last() == run[k]);
        assert(run_width(last_paragraph(now)) <= usize::MAX);
        assert(last_paragraph(now).drop_last() =~= last_paragraph(run.take(k)));
        lemma_line_in_paragraph(run.take(k), max_width);
    }
}

/// Lines fit wherever the whole run does.
pub proof fn lemma_run_fits(run: Seq<Measured>, max_width: nat)
    requires
        run_width(run) <= usize::MAX,
    ensures
        lines_fit(run, max_width),
{
    assert forall|k: int| 0 <= k <= run.len() implies run_width(
        last_paragraph(#[trigger] run.take(k)),
    ) <= usize::MAX by {
        lemma_line_in_paragraph(run.take(k), max_width);
        lemma_width_of_prefix(run, k);
    }
    lemma_paragraphs_fit(run, max_width);
}

proof fn lemma_line_bounded(run: Seq<Measured>, max_width: nat, widest: nat)
    requires
        forall|i: int| 0 <= i < run.len() ==> (#[trigger] run[i]).1 <= widest,
    ensures
        ({
            let line = wrap_run(run, max_width).line;
            run_width(line) <= max_width || (run_width(line) <= max_width + widest && (
            last_break(line) is None || line.len() <= 1))
        }),
    decreases run.len(),
{
    if run.len() == 0 {
        assert(run_width(wrap_run(run, max_width).line) == 0);
    } else {
        let front = run.drop_last();
        assert forall|i: int| 0 <= i < front.len() implies (#[trigger] front[i]).1 <= widest by {
            assert(front[i] == run[i]);
        }
        lemma_line_bounded(front, max_width, widest);
        let before = wrap_run(front, max_width);
        let item = run.last();
        assert(item == run[run.len() - 1]);
        assert(run_width(Seq::<Measured>::empty()) == 0);
        if item.0 != '\n' {
            let line = before.line.push(item);
            assert(line.drop_last() =~= before.line);
            lemma_break_bounds(line);
            lemma_width_of_one(item);
            if run_width(line) > max_width {
                match last_break(line) {
                    Some(at) if at < line.len() => {
                        let head = line.take(at as int);
                        let rest = line.skip(at as int);
                        assert(line =~= head + rest);
                        lemma_width_concat(head, rest);
                        lemma_no_break_after(line, at as int);
                        if run_width(before.line) > max_width {
                            assert(last_break(before.line) == Some(at));
                            assert(rest =~= seq![item]);
                        }
                    },
                    _ => {
                        if line.len() == 1 {
                            assert(line =~= seq![item]);
                        }
                    },
                }
            }
        }
    }
}

/// Lines fit wherever there is room for two characters beyond the limit, however
/// long the text is.
pub proof fn lemma_narrow_lines_fit(run: Seq<Measured>, max_width: nat, widest: nat)
    requires
        forall|i: int| 0 <= i < run.len() ==> (#[trigger] run[i]).1 <= widest,
        max_width + 2 * widest <= usize::MAX,
    ensures
        lines_fit(run, max_width),
{
    assert forall|k: int| 0 <= k < run.len() && (#[trigger] run[k]).0 != '\n' implies run_width(
        wrap_run(run.take(k), max_width).line,
    ) + run[k].1 <= usize::MAX by {
        let front = run.take(k);
        assert forall|i: int| 0 <= i < front.len() implies (#[trigger] front[i]).1 <= widest by {
            assert(front[i] == run[i]);
        }
        lemma_line_bounded(front, max_width, widest);
    }
}

/// Paragraphs wrap on their own: the lines of two are the lines of the first and
/// then those of the second.
pub proof fn lemma_paragraphs_wrap_alone(
    first: Seq<Measured>,
    newline: Measured,
    second: Seq<Measured>,
    max_width: nat,
)
    requires
        newline.0 == '\n',
    ensures
        end_line(wrap_run(first.push(newline) + second, max_width)) == end_line(
            wrap_run(first, max_width),
        ) + end_line(wrap_run(second, max_width)),
{
    lemma_wrap_after_newline(first, newline, second, max_width);
    assert(end_line(wrap_run(first.push(newline) + second, max_width)) =~= end_line(
        wrap_run(first, max_width),
    ) + end_line(wrap_run(second, max_width)));
}

proof fn lemma_wrap_after_newline(
    first: Seq<Measured>,
    newline: Measured,
    second: Seq<Measured>,
    max_width: nat,
)
    requires
        newline.0 == '\n',
    ensures
        ({
            let both = wrap_run(first.push(newline) + second, max_width);
            let own = wrap_run(second, max_width);
            both.lines == end_line(wrap_run(first, max_width)) + own.lines && both.line == own.line
        }),
    decreases second.len(),
{
    let run = first.push(newline) + second;
    let both = wrap_run(run, max_width);
    let own = wrap_run(second, max_width);
    let done = end_line(wrap_run(first, max_width));
    if second.len() == 0 {
        assert(run =~= first.push(newline));
        assert(run.drop_last() =~= first);
        assert(both.lines =~= done + own.lines);
    } else {
        lemma_wrap_after_newline(first, newline, second.drop_last(), max_width);
        assert(run.drop_last() =~= first.push(newline) + second.drop_last());
        assert(run.last() == second.last());
        let before = wrap_run(second.drop_last(), max_width);
        assert(both.lines =~= done + own.lines);
    }
}

/// Whether a line with the first characters of the next one would be too wide,
/// and no white space stands before the last of them.
pub open spec fn too_wide(
    line: Seq<Measured>,
    next: Seq<Measured>,
    p: int,
    max_width: nat,
) -> bool {
    &&& 1 <= p <= next.len()
    &&& last_break(next.take(p - 1)) is None
    &&& run_width(line + next.take(p)) > max_width
}

/// Whether a line could not take in the beginning of the next one: all of its
/// first word, or as much of it as came before the break.
pub open spec fn did_not_fit(line: Seq<Measured>, next: Seq<Measured>, max_width: nat) -> bool {
    exists|p: int| #[trigger] too_wide(line, next, p, max_width)
}

/// The line being filled was begun by a break that was needed.
spec fn begun(last: Seq<Measured>, line: Seq<Measured>, p: int, max_width: nat) -> bool {
    too_wide(last, line, p, max_width) && (last_break(line) matches Some(at) ==> at >= p)
}

proof fn lemma_too_wide_extends(
    line: Seq<Measured>,
    next: Seq<Measured>,
    longer: Seq<Measured>,
    p: int,
    max_width: nat,
)
    requires
        too_wide(line, next, p, max_width),
        p <= longer.len(),
        longer.take(p) == next.take(p),
    ensures
        too_wide(line, longer, p, max_width),
{
    assert(longer.take(p - 1) =~= longer.take(p).drop_last());
    assert(next.take(p - 1) =~= next.take(p).drop_last());
}

/// One character more: what was begun by a needed break stays so, and what is
/// finished now did not fit on the line before.
#[verifier::spinoff_prover]
proof fn lemma_break_step(before: Wrapped, max_width: nat, item: Measured, p: int)
    requires
        item.0 != '\n',
        before.lines.len() > 0 ==> begun(before.lines.last(), before.line, p, max_width),
    ensures
        ({
            let w = wrap_step(before, max_width, item);
            ||| w.lines == before.lines && (w.lines.len() > 0 ==> begun(
                w.lines.last(),
                w.line,
                p,
                max_width,
            ))
            ||| {
                &&& w.lines.drop_last() == before.lines
                &&& w.lines.len() == before.lines.len() + 1
                &&& before.lines.len() > 0 ==> did_not_fit(
                    before.lines.last(),
                    w.lines.last(),
                    max_width,
                )
                &&& exists|q: int| #[trigger] begun(w.lines.last(), w.line, q, max_width)
            }
        }),
{
    let w = wrap_step(before, max_width, item);
    let line = before.line.push(item);
    assert(line.drop_last() =~= before.line);
    lemma_break_bounds(line);
    let some = before.lines.len() > 0;
    if some {
        assert(line.take(p) =~= before.line.take(p));
        lemma_too_wide_extends(before.lines.last(), before.line, line, p, max_width);
        assert(last_break(line) matches Some(at) ==> at >= p);
        assert(begun(before.lines.last(), line, p, max_width));
    }
    if run_width(line) > max_width {
        match last_break(line) {
            Some(at) if at < line.len() => {
                let head = line.take(at as int);
                let rest = line.skip(at as int);
                let q = rest.len() as int;
                lemma_no_break_after(line, at as int);
                assert(w.lines =~= before.lines.push(head));
                assert(w.line == rest);
                assert(rest.take(q) =~= rest);
                assert(rest.take(q - 1) =~= rest.drop_last());
                assert(last_break(rest.drop_last()) is None);
                assert(head + rest =~= line);
                assert(begun(w.lines.last(), w.line, q, max_width));
                assert(w.lines.drop_last() =~= before.lines);
                if some {
                    assert(head.take(p) =~= line.take(p));
                    lemma_too_wide_extends(before.lines.last(), line, head, p, max_width);
                }
            },
            _ => {
                if line.len() > 1 {
                    assert(w.lines =~= before.lines.push(before.line));
                    assert(w.line =~= seq![item]);
                    assert(w.line.take(1) =~= w.line);
                    assert(w.line.take(0) =~= Seq::<Measured>::empty());
                    assert(before.line + w.line =~= line);
                    lemma_break_bounds(w.line);
                    assert(begun(w.lines.last(), w.line, 1, max_width));
                    assert(w.lines.drop_last() =~= before.lines);
                }
            },
        }
    }
}

proof fn lemma_break_needed(run: Seq<Measured>, max_width: nat)
    requires
        forall|i: int| 0 <= i < run.len() ==> (#[trigger] run[i]).0 != '\n',
    ensures
        ({
            let w = wrap_run(run, max_width);
            &&& forall|i: int|
                0 <= i < w.lines.len() - 1 ==> did_not_fit(
                    #[trigger] w.lines[i],
                    w.lines[i + 1],
                    max_width,
                )
            &&& w.lines.len() > 0 ==> exists|p: int|
                #[trigger] begun(w.lines.last(), w.line, p, max_width)
        }),
    decreases run.len(),
{
    let w = wrap_run(run, max_width);
    if run.len() > 0 {
        let front = run.drop_last();
        assert forall|i: int| 0 <= i < front.len() implies (#[trigger] front[i]).0 != '\n' by {
            assert(front[i] == run[i]);
        }
        lemma_break_needed(front, max_width);
        let before = wrap_run(front, max_width);
        assert(run.last() == run[run.len() - 1]);
        let p = choose|p: int| #[trigger] begun(before.lines.last(), before.line, p, max_width);
        lemma_break_step(before, max_width, run.last(), p);
        assert forall|i: int| 0 <= i < w.lines.len() - 1 implies did_not_fit(
            #[trigger] w.lines[i],
            w.lines[i + 1],
            max_width,
        ) by {
            if w.lines != before.lines {
                assert(w.lines.drop_last()[i] == before.lines[i]);
                if i < before.lines.len() - 1 {
                    assert(w.lines.drop_last()[i + 1] == before.lines[i + 1]);
                }
            }
        }
    }
}

/// No line of a paragraph is broken needlessly: none could have taken in the
/// beginning of the one after it.
pub proof fn lemma_no_needless_break(run: Seq<Measured>, max_width: nat)
    requires
        forall|i: int| 0 <= i < run.len() ==> (#[trigger] run[i]).0 != '\n',
    ensures
        forall|i: int|
            0 <= i < end_line(wrap_run(run, max_width)).len() - 1 ==> did_not_fit(
                #[trigger] end_line(wrap_run(run, max_width))[i],
                end_line(wrap_run(run, max_width))[i + 1],
                max_width,
            ),
{
    let w = wrap_run(run, max_width);
    let lines = end_line(w);
    lemma_break_needed(run, max_width);
    assert forall|i: int| 0 <= i < lines.len() - 1 implies did_not_fit(
        #[trigger] lines[i],
        lines[i + 1],
        max_width,
    ) by {
        if i < w.lines.len() - 1 {
            assert(lines[i] == w.lines[i] && lines[i + 1] == w.lines[i + 1]);
        } else {
            let p = choose|p: int| #[trigger] begun(w.lines.last(), w.line, p, max_width);
            assert(too_wide(lines[i], lines[i + 1], p, max_width));
        }
    }
}

fn measured_string(run: &Vec<Measured>, from: usize, to: usize) -> (r: String)
    requires
        from <= to <= run@.len(),
    ensures
        r@ == run_text(run@.subrange(from as int, to as int)),
{
    let mut out: String = String::new();
    let mut i: usize = from;
    while i < to
        invariant
            from <= i <= to <= run@.len(),
            out@ =~= run_text(run@.subrange(from as int, i as int)),
        decreases to - i,
    {
        out.push(run[i].0);
        i += 1;
    }
    out
}

proof fn lemma_width_of_prefix(run: Seq<Measured>, n: int)
    requires
        0 <= n <= run.len(),
    ensures
        run_width(run.take(n)) <= run_width(run),
{
    lemma_width_concat(run.take(n), run.skip(n));
    assert(run =~= run.take(n) + run.skip(n));
}

/// Wraps characters that were measured one by one.
#[verifier::spinoff_prover]
#[verifier::rlimit(40)]
pub fn wrap_measured(run: &Vec<Measured>, max_width: usize) -> (r: Vec<String>)
    requires
        lines_fit(run@, max_width as nat),
    ensures
        string_views(r@) == wrapped_lines(run@, max_width as nat),
{
    let mut lines: Vec<String> = Vec::new();
    let mut line: Vec<Measured> = Vec::new();
    let mut line_width: usize = 0;
    let mut boundary: Option<(usize, usize)> = None;
    let ghost mut state = wrap_run(run@.take(0), max_width as nat);
    let mut i: usize = 0;
    while i < run.len()
        invariant
            i <= run@.len(),
            lines_fit(run@, max_width as nat),
            state == wrap_run(run@.take(i as int), max_width as nat),
            line@ == state.line,
            string_views(lines@) =~= Seq::new(
                state.lines.len(),
                |k: int| run_text(state.lines[k]),
            ),
            line_width == run_width(line@),
            match boundary {
                Some((at, width)) => last_break(line@) == Some(at as nat) && 1 <= at <= line@.len()
                    && width == run_width(line@.take(at as int)),
                None => last_break(line@) is None,
            },
        decreases run@.len() - i,
    {
        let item = run[i];
        let (ch, width) = item;
        let ghost now = run@.take(i + 1);
        let ghost before = state;
        let ghost before_lines = string_views(lines@);
        proof {
            assert(now.drop_last() =~= run@.take(i as int));
            assert(run@[i as int] == item);
            state = wrap_step(before, max_width as nat, item);
        }
        if ch == '\n' {
            if line.len() > 0 {
                let text = measured_string(&line, 0, line.len());
                assert(line@.subrange(0, line@.len() as int) =~= line@);
                lines.push(text);
                assert(string_views(lines@) =~= before_lines.push(run_text(before.line)));
            }
            line = Vec::new();
            line_width = 0;
            boundary = None;
        } else {
            line.push(item);
            let ghost full = line@;
            assert(full.drop_last() =~= before.line);
            assert(full == before.line.push(item));
            line_width = line_width + width;
            if is_white_space(ch) {
                boundary = Some((line.len(), line_width));
                assert(full.take(full.len() as int) =~= full);
            } else if let Some((at, _)) = boundary {
                assert(full.take(at as int) =~= before.line.take(at as int));
            }
            if line_width > max_width {
                let mut broken = false;
                if let Some((at, at_width)) = boundary {
                    if at < line.len() {
                        let text = measured_string(&line, 0, at);
                        assert(full.subrange(0, at as int) =~= full.take(at as int));
                        lines.push(text);
                        assert(string_views(lines@) =~= before_lines.push(
                            run_text(full.take(at as int)),
                        ));
                        let rest = line.split_off(at);
                        proof {
                            assert(rest@ =~= full.skip(at as int));
                            assert(full =~= full.take(at as int) + full.skip(at as int));
                            lemma_width_concat(full.take(at as int), full.skip(at as int));
                            lemma_no_break_after(full, at as int);
                        }
                        line = rest;
                        line_width = line_width - at_width;
                        boundary = None;
                        broken = true;
                    }
                }
                if !broken && line.len() > 1 {
                    let text = measured_string(&line, 0, line.len() - 1);
                    assert(full.subrange(0, full.len() - 1) =~= before.line);
                    lines.push(text);
                    assert(string_views(lines@) =~= before_lines.push(run_text(before.line)));
                    line = Vec::new();
                    line.push(item);
                    proof {
                        assert(line@ =~= seq![item]);
                        assert(line@.drop_last() =~= Seq::empty());
                        assert(run_width(Seq::<Measured>::empty()) == 0);
                        assert(run_width(line@) == width);
                        assert(last_break(Seq::<Measured>::empty()) is None);
                        assert(line@.take(1) =~= line@);
                    }
                    line_width = width;
                    boundary = if is_white_space(ch) {
                        Some((1, width))
                    } else {
                        None
                    };
                }
            }
        }
        i += 1;
    }
    assert(run@.take(run@.len() as int) =~= run@);
    if line.len() > 0 {
        let ghost before_lines = string_views(lines@);
        let text = measured_string(&line, 0, line.len());
        assert(line@.subrange(0, line@.len() as int) =~= line@);
        lines.push(text);
        assert(string_views(lines@) =~= before_lines.push(run_text(state.line)));
    }
    if lines.len() == 0 {
        lines.push(String::new());
        assert(string_views(lines@) =~= wrapped_lines(run@, max_width as nat));
    }
    assert(string_views(lines@) =~= wrapped_lines(run@, max_width as nat));
    lines
}

/// Wraps `text` so that no line grows wider than `max_width`, breaking after
/// white space where a line has some. `char_width` measures each character.
pub fn wrap_lines<F>(text: &str, max_width: usize, char_width: F) -> (r: Vec<String>) where
    F: Fn(char) -> usize,

    requires
        forall|i: int|
            0 <= i < text@.len() && #[trigger] text@[i] != '\n' ==> char_width.requires(
                (text@[i],),
            ),
        forall|widths: Seq<usize>|
            #![trigger measured(text@, widths)]
            measures(char_width, text@, widths) ==> lines_fit(
                measured(text@, widths),
                max_width as nat,
            ),
    ensures
        exists|widths: Seq<usize>|
            #![trigger measured(text@, widths)]
            measures(char_width, text@, widths) && string_views(r@) == wrapped_lines(
                measured(text@, widths),
                max_width as nat,
            ),
{
    let chars = to_chars(text);
    let mut run: Vec<Measured> = Vec::new();
    let ghost mut widths: Seq<usize> = Seq::empty();
    let mut i: usize = 0;
    while i < chars.len()
        invariant
            i <= chars@.len(),
            chars@ == text@,
            forall|i: int|
                0 <= i < text@.len() && #[trigger] text@[i] != '\n' ==> char_width.requires(
                    (text@[i],),
                ),
            widths.len() == i,
            measures(char_width, text@.take(i as int), widths),
            run@ =~= measured(text@.take(i as int), widths),
        decreases chars@.len() - i,
    {
        let ch = chars[i];
        let width: usize = if ch == '\n' {
            0
        } else {
            char_width(ch)
        };
        run.push((ch, width));
        proof {
            widths = widths.push(width);
        }
        i += 1;
    }
    proof {
        assert(text@.take(text@.len() as int) =~= text@);
        assert(run@ == measured(text@, widths));
    }
    wrap_measured(&run, max_width)
}

/// The widths that a measuring function gave for the characters of a text; a
/// newline takes no room.
pub open spec fn measures<F: Fn(char) -> usize>(
    char_width: F,
    text: Seq<char>,
    widths: Seq<usize>,
) -> bool {
    widths.len() == text.len() && forall|i: int|
        0 <= i < text.len() ==> if text[i] == '\n' {
            #[trigger] widths[i] == 0
        } else {
            char_width.ensures((text[i],), widths[i])
        }
}

/// The width of a run is that of its parts together.
pub proof fn lemma_widths_add_up(a: Seq<Measured>, b: Seq<Measured>, item: Measured)
    ensures
        run_width(Seq::empty()) == 0,
        run_width(seq![item]) == item.1,
        run_width(a + b) == run_width(a) + run_width(b),
    decreases b.len(),
{
    reveal_with_fuel(run_width, 2);
    assert(seq![item].drop_last() =~= Seq::<Measured>::empty());
    if b.len() == 0 {
        assert(a + b =~= a);
    } else {
        lemma_widths_add_up(a, b.drop_last(), item);
        assert((a + b).drop_last() =~= a + b.drop_last());
    }
}

/// A line can be broken last behind its last blank.
pub proof fn lemma_last_break_is(run: Seq<Measured>)
    ensures
        match last_break(run) {
            Some(at) => 0 < at <= run.len() && white_space(run[at - 1].0) && forall|i: int|
                at <= i < run.len() ==> !white_space((#[trigger] run[i]).0),
            None => forall|i: int| 0 <= i < run.len() ==> !white_space((#[trigger] run[i]).0),
        },
    decreases run.len(),
{
    if run.len() > 0 && !white_space(run.last().0) {
        lemma_last_break_is(run.drop_last());
        assert forall|i: int|
            (last_break(run) matches Some(at) ==> at <= i) && 0 <= i < run.len() implies !white_space(
        (#[trigger] run[i]).0) by {
            if i < run.len() - 1 {
                assert(run[i] == run.drop_last()[i]);
            }
        }
        if let Some(at) = last_break(run) {
            assert(run[at - 1] == run.drop_last()[at - 1]);
        }
    }
}

/// Only line feeds are left out of a wrapped text.
pub proof fn lemma_without_newlines_is(run: Seq<Measured>)
    ensures
        without_newlines(run) == run.filter(|m: Measured| m.0 != '\n'),
    decreases run.len(),
{
    reveal(Seq::filter);
    let kept = |m: Measured| m.0 != '\n';
    if run.len() > 0 {
        lemma_without_newlines_is(run.drop_last());
        assert(kept(run.last()) == (run.last().0 != '\n'));
    } else {
        assert(run.filter(kept) =~= without_newlines(run));
    }
}

/// Whether a break between two lines is at a blank, or in a line that has none.
pub open spec fn fair_break(line: Seq<Measured>, next: Seq<Measured>) -> bool {
    ||| white_space(line.last().0)
    ||| white_space(next[0].0)
    ||| forall|i: int| 0 <= i < line.len() ==> !white_space((#[trigger] line[i]).0)
}

spec fn breaks_are_fair(w: Wrapped) -> bool {
    &&& forall|i: int|
        0 <= i < w.lines.len() - 1 ==> fair_break(#[trigger] w.lines[i], w.lines[i + 1])
    &&& w.lines.len() > 0 ==> w.line.len() > 0 && fair_break(w.lines.last(), w.line)
    &&& forall|i: int| 0 <= i < w.lines.len() ==> (#[trigger] w.lines[i]).len() > 0
}

proof fn lemma_breaks_are_fair(run: Seq<Measured>, max_width: nat)
    requires
        forall|i: int| 0 <= i < run.len() ==> (#[trigger] run[i]).0 != '\n',
    ensures
        breaks_are_fair(wrap_run(run, max_width)),
        run.len() > 0 ==> wrap_run(run, max_width).line.len() > 0,
    decreases run.len(),
{
    if run.len() > 0 {
        let short = run.drop_last();
        let item = run.last();
        assert forall|i: int| 0 <= i < short.len() implies (#[trigger] short[i]).0 != '\n' by {
            assert(short[i] == run[i]);
        }
        assert(run[run.len() - 1].0 != '\n');
        lemma_breaks_are_fair(short, max_width);
        let w = wrap_run(short, max_width);
        let after = wrap_run(run, max_width);
        let line = w.line.push(item);
        lemma_last_break_is(line);
        assert(w.line.len() > 0 ==> line[0] == w.line[0]);
        if run_width(line) <= max_width {
            assert(after.lines == w.lines && after.line == line);
            assert(after.line[0] == line[0]);
        } else {
            match last_break(line) {
                Some(at) if at < line.len() => {
                    let head = line.take(at as int);
                    assert(head.last() == line[at - 1]);
                    assert(head[0] == line[0]);
                    assert(after.lines == w.lines.push(head));
                    assert(white_space(head.last().0));
                    assert forall|i: int| 0 <= i < after.lines.len() - 1 implies fair_break(
                        #[trigger] after.lines[i],
                        after.lines[i + 1],
                    ) by {
                        if i < w.lines.len() - 1 {
                            assert(after.lines[i] == w.lines[i]);
                            assert(after.lines[i + 1] == w.lines[i + 1]);
                        } else {
                            assert(after.lines[i] == w.lines.last());
                            assert(fair_break(w.lines.last(), w.line));
                        }
                    }
                },
                _ => {
                    if line.len() > 1 {
                        assert(after.lines == w.lines.push(w.line));
                        assert(after.line == seq![item]);
                        assert(fair_break(w.line, seq![item])) by {
                            if !white_space(item.0) {
                                assert(last_break(line) is None);
                                assert forall|i: int| 0 <= i < w.line.len() implies !white_space(
                                    (#[trigger] w.line[i]).0,
                                ) by {
                                    assert(line[i] == w.line[i]);
                                }
                            }
                        }
                        assert forall|i: int| 0 <= i < after.lines.len() - 1 implies fair_break(
                            #[trigger] after.lines[i],
                            after.lines[i + 1],
                        ) by {
                            if i < w.lines.len() - 1 {
                                assert(after.lines[i] == w.lines[i]);
                                assert(after.lines[i + 1] == w.lines[i + 1]);
                            } else {
                                assert(after.lines[i] == w.lines.last());
                            }
                        }
                    } else {
                        assert(after.lines == w.lines && after.line == line);
                    }
                },
            }
        }
    }
}

/// A line is broken at a blank, and inside a word only where it has none.
pub proof fn lemma_words_stay_whole(run: Seq<Measured>, max_width: nat)
    requires
        forall|i: int| 0 <= i < run.len() ==> (#[trigger] run[i]).0 != '\n',
    ensures
        forall|i: int|
            0 <= i < end_line(wrap_run(run, max_width)).len() - 1 ==> fair_break(
                #[trigger] end_line(wrap_run(run, max_width))[i],
                end_line(wrap_run(run, max_width))[i + 1],
            ),
{
    lemma_breaks_are_fair(run, max_width);
    let w = wrap_run(run, max_width);
    let lines = end_line(w);
    assert forall|i: int| 0 <= i < lines.len() - 1 implies fair_break(
        #[trigger] lines[i],
        lines[i + 1],
    ) by {
        if i < w.lines.len() - 1 {
            assert(lines[i] == w.lines[i]);
            assert(lines[i + 1] == w.lines[i + 1]);
        } else {
            assert(lines[i] == w.lines.last());
            assert(lines[i + 1] == w.line);
        }
    }
}

/// A text that fits stays on one line, and an empty one is one empty line. The
/// lines are shown as their characters.
pub proof fn lemma_short_text_is_one_line(run: Seq<Measured>, max_width: nat)
    requires
        forall|i: int| 0 <= i < run.len() ==> (#[trigger] run[i]).0 != '\n',
        run_width(run) <= max_width,
    ensures
        wrapped_lines(run, max_width).len() == 1,
        wrapped_lines(run, max_width)[0].len() == run.len(),
        forall|i: int|
            0 <= i < run.len() ==> wrapped_lines(run, max_width)[0][i] == (#[trigger] run[i]).0,
{
    lemma_one_line(run, max_width);
    let lines = end_line(wrap_run(run, max_width));
    if run.len() > 0 {
        assert(lines =~= seq![run]);
        assert(wrapped_lines(run, max_width)[0] == run_text(run));
    } else {
        assert(lines =~= Seq::<Seq<Measured>>::empty());
    }
}

proof fn lemma_one_line(run: Seq<Measured>, max_width: nat)
    requires
        forall|i: int| 0 <= i < run.len() ==> (#[trigger] run[i]).0 != '\n',
        run_width(run) <= max_width,
    ensures
        wrap_run(run, max_width).lines.len() == 0,
        wrap_run(run, max_width).line == run,
    decreases run.len(),
{
    if run.len() > 0 {
        let short = run.drop_last();
        assert forall|i: int| 0 <= i < short.len() implies (#[trigger] short[i]).0 != '\n' by {
            assert(short[i] == run[i]);
        }
        assert(run[run.len() - 1].0 != '\n');
        lemma_one_line(short, max_width);
        assert(short.push(run.last()) =~= run);
    }
}

/// A character's width is what the font says, and a line break has none.
pub proof fn lemma_measures_are<F: Fn(char) -> usize>(
    char_width: F,
    text: Seq<char>,
    widths: Seq<usize>,
    i: int,
)
    requires
        measures(char_width, text, widths),
        0 <= i < text.len(),
    ensures
        widths.len() == text.len(),
        text[i] == '\n' ==> widths[i] == 0,
        text[i] != '\n' ==> char_width.ensures((text[i],), widths[i]),
{
}

/// An unfinished line is the last one; one that holds nothing is none. A text without a
/// character has one line, an empty one.
pub proof fn lemma_last_line_is(w: Wrapped, max_width: nat)
    ensures
        w.line.len() == 0 ==> end_line(w) == w.lines,
        w.line.len() > 0 ==> end_line(w).drop_last() == w.lines && end_line(w).last() == w.line,
        wrapped_lines(Seq::empty(), max_width).len() == 1,
        wrapped_lines(Seq::empty(), max_width)[0].len() == 0,
{
    if w.line.len() > 0 {
        assert(end_line(w).drop_last() =~= w.lines);
    }
}

} // verus!
