//! Annotation: blank-line squeezing and line numbering, with counters
//! carried across successive units of one run.

use vstd::prelude::*;
use crate::lines_view;
use crate::text::dec_chars;
use crate::text::num_digits;
use crate::text::pad_left;
use crate::text::pad_left_exec;
use crate::text::push_char;
use crate::text::usize_to_string;
use vstd::string::StringExecFns;

verus! {

/// The blank-run counter after one line: empty lines extend the run,
/// a non-empty line resets it.
pub open spec fn squeeze_step(run: nat, line: Seq<char>) -> nat {
    if line.len() == 0 {
        run + 1
    } else {
        0
    }
}

/// Squeezing with a carried blank-run counter: an empty line survives
/// only as the first of its maximal run of consecutive empty lines,
/// counting the run carried in from earlier units; non-empty lines
/// always survive. Yields the surviving lines and the final counter.
pub open spec fn squeeze_spec(lines: Seq<Seq<char>>, prev_run: nat) -> (Seq<Seq<char>>, nat)
    decreases lines.len(),
{
    if lines.len() == 0 {
        (Seq::<Seq<char>>::empty(), prev_run)
    } else {
        let new_run = squeeze_step(prev_run, lines[0]);
        let rest = squeeze_spec(lines.skip(1), new_run);
        if new_run < 2 {
            (seq![lines[0]] + rest.0, rest.1)
        } else {
            rest
        }
    }
}

/// No two consecutive lines are both empty.
pub open spec fn no_adjacent_empty(lines: Seq<Seq<char>>) -> bool {
    forall|i: int|
        1 <= i < lines.len() ==> !((#[trigger] lines[i]).len() == 0 && lines[i - 1].len() == 0)
}

pub proof fn lemma_squeeze_snoc(lines: Seq<Seq<char>>, x: Seq<char>, r: nat)
    ensures
        ({
            let out = squeeze_spec(lines, r);
            let new_run = squeeze_step(out.1, x);
            squeeze_spec(lines.push(x), r) == if new_run < 2 {
                (out.0.push(x), new_run)
            } else {
                (out.0, new_run)
            }
        }),
    decreases lines.len(),
{
    if lines.len() == 0 {
        let t = lines.push(x);
        assert(t[0] == x);
        assert(t.skip(1) =~= Seq::<Seq<char>>::empty());
        let new_run = squeeze_step(r, x);
        assert(squeeze_spec(t.skip(1), new_run) == (Seq::<Seq<char>>::empty(), new_run));
        if new_run < 2 {
            assert(seq![x] + Seq::<Seq<char>>::empty() =~= squeeze_spec(
                lines,
                r,
            ).0.push(x));
        }
    } else {
        let t = lines.push(x);
        assert(t[0] == lines[0]);
        assert(t.skip(1) =~= lines.skip(1).push(x));
        let first_run = squeeze_step(r, lines[0]);
        lemma_squeeze_snoc(lines.skip(1), x, first_run);
        let out = squeeze_spec(lines, r);
        let new_run = squeeze_step(out.1, x);
        if first_run < 2 && new_run < 2 {
            assert((seq![lines[0]] + squeeze_spec(lines.skip(1), first_run).0).push(x) =~= seq![
                lines[0],
            ] + squeeze_spec(lines.skip(1), first_run).0.push(x));
        }
    }
}

/// Processing two blocks in turn with the carried counter is the same as
/// processing their concatenation as one stream.
pub proof fn lemma_squeeze_append(a: Seq<Seq<char>>, b: Seq<Seq<char>>, r: nat)
    ensures
        squeeze_spec(a + b, r).0 == squeeze_spec(a, r).0 + squeeze_spec(
            b,
            squeeze_spec(a, r).1,
        ).0,
        squeeze_spec(a + b, r).1 == squeeze_spec(b, squeeze_spec(a, r).1).1,
    decreases a.len(),
{
    if a.len() == 0 {
        assert(a + b =~= b);
        assert(squeeze_spec(a, r).0 + squeeze_spec(b, r).0 =~= squeeze_spec(b, r).0);
    } else {
        let t = a + b;
        assert(t.len() > 0);
        assert(t[0] == a[0]);
        assert(t.skip(1) =~= a.skip(1) + b);
        let new_run = squeeze_step(r, a[0]);
        lemma_squeeze_append(a.skip(1), b, new_run);
        if new_run < 2 {
            assert(seq![a[0]] + (squeeze_spec(a.skip(1), new_run).0 + squeeze_spec(
                b,
                squeeze_spec(a.skip(1), new_run).1,
            ).0) =~= (seq![a[0]] + squeeze_spec(a.skip(1), new_run).0) + squeeze_spec(
                b,
                squeeze_spec(a.skip(1), new_run).1,
            ).0);
        }
    }
}

/// With a live blank run carried in, the first surviving line, if any,
/// is non-empty.
pub proof fn lemma_squeeze_first_nonempty(lines: Seq<Seq<char>>, r: nat)
    requires
        r >= 1,
    ensures
        squeeze_spec(lines, r).0.len() == 0 || squeeze_spec(lines, r).0[0].len() != 0,
    decreases lines.len(),
{
    if lines.len() != 0 {
        let new_run = squeeze_step(r, lines[0]);
        if lines[0].len() == 0 {
            lemma_squeeze_first_nonempty(lines.skip(1), new_run);
        }
    }
}

/// Squeezing never leaves two adjacent empty lines.
pub proof fn lemma_squeeze_no_adjacent(lines: Seq<Seq<char>>, r: nat)
    ensures
        no_adjacent_empty(squeeze_spec(lines, r).0),
    decreases lines.len(),
{
    if lines.len() != 0 {
        let new_run = squeeze_step(r, lines[0]);
        lemma_squeeze_no_adjacent(lines.skip(1), new_run);
        let rest = squeeze_spec(lines.skip(1), new_run);
        if new_run < 2 {
            let out = seq![lines[0]] + rest.0;
            assert forall|i: int| 1 <= i < out.len() implies !((#[trigger] out[i]).len() == 0
                && out[i - 1].len() == 0) by {
                if i == 1 {
                    if lines[0].len() == 0 {
                        lemma_squeeze_first_nonempty(lines.skip(1), new_run);
                    }
                } else {
                    assert(out[i] == rest.0[i - 1]);
                    assert(out[i - 1] == rest.0[i - 2]);
                }
            }
        }
    }
}

/// A sequence with no two adjacent empty lines passes through squeezing
/// unchanged, provided no live blank run is carried in ahead of an empty
/// first line.
pub proof fn lemma_squeeze_fixpoint(lines: Seq<Seq<char>>, r: nat)
    requires
        no_adjacent_empty(lines),
        r == 0 || lines.len() == 0 || lines[0].len() != 0,
    ensures
        squeeze_spec(lines, r).0 == lines,
    decreases lines.len(),
{
    if lines.len() != 0 {
        let new_run = squeeze_step(r, lines[0]);
        assert(new_run < 2);
        assert(no_adjacent_empty(lines.skip(1))) by {
            assert(forall|i: int|
                1 <= i < lines.skip(1).len() ==> (#[trigger] lines.skip(1)[i]) == lines[i + 1]
                    && lines.skip(1)[i - 1] == lines[i]);
        }
        if lines[0].len() == 0 && lines.len() > 1 {
            assert(lines[1].len() != 0);
            assert(lines.skip(1)[0] == lines[1]);
        }
        lemma_squeeze_fixpoint(lines.skip(1), new_run);
        assert(squeeze_spec(lines, r).0 =~= lines);
    } else {
        assert(squeeze_spec(lines, r).0 =~= lines);
    }
}

/// Re-running squeezing over its own output with a fresh counter removes
/// nothing further.
pub proof fn lemma_squeeze_idempotent(lines: Seq<Seq<char>>, r: nat)
    ensures
        squeeze_spec(squeeze_spec(lines, r).0, 0).0 == squeeze_spec(lines, r).0,
{
    lemma_squeeze_no_adjacent(lines, r);
    lemma_squeeze_fixpoint(squeeze_spec(lines, r).0, 0);
}

/// Even across a unit boundary, the lines surviving squeezing of two
/// units processed in turn, with the counter carried over, never hold
/// two adjacent empty lines.
pub proof fn lemma_squeeze_no_adjacent_across_units(
    u1: Seq<Seq<char>>,
    u2: Seq<Seq<char>>,
    r: nat,
)
    ensures
        no_adjacent_empty(
            squeeze_spec(u1, r).0 + squeeze_spec(u2, squeeze_spec(u1, r).1).0,
        ),
{
    lemma_squeeze_append(u1, u2, r);
    lemma_squeeze_no_adjacent(u1 + u2, r);
}

/// Squeezing never adds lines.
pub proof fn lemma_squeeze_len_le(lines: Seq<Seq<char>>, r: nat)
    ensures
        squeeze_spec(lines, r).0.len() <= lines.len(),
    decreases lines.len(),
{
    if lines.len() != 0 {
        lemma_squeeze_len_le(lines.skip(1), squeeze_step(r, lines[0]));
    }
}

/// Drops every empty line that extends a run of two or more consecutive
/// empty lines, counting a run carried in from earlier units, and
/// returns the surviving lines with the final run counter.
pub fn remove_consecutive_empty_lines(data: Vec<String>, prev_emptylines: usize) -> (r: (
    Vec<String>,
    usize,
))
    requires
        prev_emptylines + data@.len() <= usize::MAX,
    ensures
        lines_view(r.0@) == squeeze_spec(lines_view(data@), prev_emptylines as nat).0,
        r.1 as nat == squeeze_spec(lines_view(data@), prev_emptylines as nat).1,
{
    let ghost all = lines_view(data@);
    let mut out: Vec<String> = Vec::new();
    let mut run: usize = prev_emptylines;
    let mut i: usize = 0;
    proof {
        assert(all.take(0) =~= Seq::<Seq<char>>::empty());
        assert(lines_view(out@) =~= squeeze_spec(all.take(0), prev_emptylines as nat).0);
    }
    while i < data.len()
        invariant
            i <= data@.len(),
            all == lines_view(data@),
            prev_emptylines + data@.len() <= usize::MAX,
            run <= prev_emptylines + i,
            lines_view(out@) == squeeze_spec(all.take(i as int), prev_emptylines as nat).0,
            run as nat == squeeze_spec(all.take(i as int), prev_emptylines as nat).1,
        decreases data@.len() - i,
    {
        let ghost prefix = all.take(i as int);
        proof {
            assert(all.take(i + 1) =~= prefix.push(all[i as int]));
            lemma_squeeze_snoc(prefix, all[i as int], prev_emptylines as nat);
        }
        let line_is_empty = data[i].as_str().is_empty();
        if line_is_empty {
            run = run + 1;
        } else {
            run = 0;
        }
        if run < 2 {
            let line = data[i].clone();
            out.push(line);
            proof {
                assert(lines_view(out@) =~~= squeeze_spec(
                    all.take(i + 1),
                    prev_emptylines as nat,
                ).0);
            }
        }
        i += 1;
    }
    proof {
        assert(all.take(data@.len() as int) =~= all);
    }
    (out, run)
}

/// Whether a line receives a number: every line does, unless blank lines
/// are ignored and the line is empty.
pub open spec fn eligible(line: Seq<char>, ignore_blanks: bool) -> bool {
    !ignore_blanks || line.len() > 0
}

/// How many lines of the block receive a number.
pub open spec fn count_eligible(lines: Seq<Seq<char>>, ignore_blanks: bool) -> nat
    decreases lines.len(),
{
    if lines.len() == 0 {
        0
    } else {
        (if eligible(lines[0], ignore_blanks) {
            1nat
        } else {
            0nat
        }) + count_eligible(lines.skip(1), ignore_blanks)
    }
}

/// One numbered output line: the number right-aligned in the given
/// column width, one space, then the line text.
pub open spec fn numbered_line(line: Seq<char>, number: nat, width: nat) -> Seq<char> {
    pad_left(dec_chars(number), width) + seq![' '] + line
}

/// Numbering a block of lines: eligible lines receive the numbers
/// `start + 1, start + 2, ...` in order; a line not eligible is emitted
/// as an empty line, its numbering marker vanishing with the number.
pub open spec fn number_lines_spec(
    lines: Seq<Seq<char>>,
    ignore_blanks: bool,
    start: nat,
    width: nat,
) -> Seq<Seq<char>>
    decreases lines.len(),
{
    if lines.len() == 0 {
        Seq::<Seq<char>>::empty()
    } else if eligible(lines[0], ignore_blanks) {
        seq![numbered_line(lines[0], start + 1, width)] + number_lines_spec(
            lines.skip(1),
            ignore_blanks,
            start + 1,
            width,
        )
    } else {
        seq![Seq::<char>::empty()] + number_lines_spec(lines.skip(1), ignore_blanks, start, width)
    }
}

pub proof fn lemma_number_lines_len(lines: Seq<Seq<char>>, ignore_blanks: bool, start: nat, width: nat)
    ensures
        number_lines_spec(lines, ignore_blanks, start, width).len() == lines.len(),
    decreases lines.len(),
{
    if lines.len() != 0 {
        if eligible(lines[0], ignore_blanks) {
            lemma_number_lines_len(lines.skip(1), ignore_blanks, start + 1, width);
        } else {
            lemma_number_lines_len(lines.skip(1), ignore_blanks, start, width);
        }
    }
}

pub proof fn lemma_number_snoc(
    lines: Seq<Seq<char>>,
    x: Seq<char>,
    ignore_blanks: bool,
    start: nat,
    width: nat,
)
    ensures
        count_eligible(lines.push(x), ignore_blanks) == count_eligible(lines, ignore_blanks) + (
        if eligible(x, ignore_blanks) {
            1nat
        } else {
            0nat
        }),
        number_lines_spec(lines.push(x), ignore_blanks, start, width) == number_lines_spec(
            lines,
            ignore_blanks,
            start,
            width,
        ).push(
            if eligible(x, ignore_blanks) {
                numbered_line(x, start + count_eligible(lines, ignore_blanks) + 1, width)
            } else {
                Seq::<char>::empty()
            },
        ),
    decreases lines.len(),
{
    if lines.len() == 0 {
        let t = lines.push(x);
        assert(t.len() == 1);
        assert(t[0] == x);
        assert(t.skip(1) =~= Seq::<Seq<char>>::empty());
        assert(count_eligible(lines, ignore_blanks) == 0);
        assert(count_eligible(t.skip(1), ignore_blanks) == 0);
        assert(number_lines_spec(lines, ignore_blanks, start, width)
            == Seq::<Seq<char>>::empty());
        assert(number_lines_spec(t.skip(1), ignore_blanks, start + 1, width)
            == Seq::<Seq<char>>::empty());
        assert(number_lines_spec(t.skip(1), ignore_blanks, start, width)
            == Seq::<Seq<char>>::empty());
        if eligible(x, ignore_blanks) {
            assert(number_lines_spec(t, ignore_blanks, start, width) =~= number_lines_spec(
                lines,
                ignore_blanks,
                start,
                width,
            ).push(numbered_line(x, start + count_eligible(lines, ignore_blanks) + 1, width)));
        } else {
            assert(number_lines_spec(t, ignore_blanks, start, width) =~= number_lines_spec(
                lines,
                ignore_blanks,
                start,
                width,
            ).push(Seq::<char>::empty()));
        }
    } else {
        let t = lines.push(x);
        assert(t[0] == lines[0]);
        assert(t.skip(1) =~= lines.skip(1).push(x));
        if eligible(lines[0], ignore_blanks) {
            lemma_number_snoc(lines.skip(1), x, ignore_blanks, start + 1, width);
            assert(number_lines_spec(t, ignore_blanks, start, width) =~= number_lines_spec(
                lines,
                ignore_blanks,
                start,
                width,
            ).push(
                if eligible(x, ignore_blanks) {
                    numbered_line(x, start + count_eligible(lines, ignore_blanks) + 1, width)
                } else {
                    Seq::<char>::empty()
                },
            ));
        } else {
            lemma_number_snoc(lines.skip(1), x, ignore_blanks, start, width);
            assert(number_lines_spec(t, ignore_blanks, start, width) =~= number_lines_spec(
                lines,
                ignore_blanks,
                start,
                width,
            ).push(
                if eligible(x, ignore_blanks) {
                    numbered_line(x, start + count_eligible(lines, ignore_blanks) + 1, width)
                } else {
                    Seq::<char>::empty()
                },
            ));
        }
    }
}

/// Numbering two blocks in turn, the second starting where the first
/// left off, is the same as numbering their concatenation: the counter
/// carried between units makes them one logical stream.
pub proof fn lemma_number_append(
    a: Seq<Seq<char>>,
    b: Seq<Seq<char>>,
    ignore_blanks: bool,
    start: nat,
    width: nat,
)
    ensures
        count_eligible(a + b, ignore_blanks) == count_eligible(a, ignore_blanks) + count_eligible(
            b,
            ignore_blanks,
        ),
        number_lines_spec(a + b, ignore_blanks, start, width) == number_lines_spec(
            a,
            ignore_blanks,
            start,
            width,
        ) + number_lines_spec(b, ignore_blanks, start + count_eligible(a, ignore_blanks), width),
    decreases a.len(),
{
    if a.len() == 0 {
        assert(a + b =~= b);
        assert(number_lines_spec(a, ignore_blanks, start, width) + number_lines_spec(
            b,
            ignore_blanks,
            start,
            width,
        ) =~= number_lines_spec(b, ignore_blanks, start, width));
    } else {
        let t = a + b;
        assert(t.len() > 0);
        assert(t[0] == a[0]);
        assert(t.skip(1) =~= a.skip(1) + b);
        if eligible(a[0], ignore_blanks) {
            lemma_number_append(a.skip(1), b, ignore_blanks, start + 1, width);
            assert(number_lines_spec(t, ignore_blanks, start, width) =~= number_lines_spec(
                a,
                ignore_blanks,
                start,
                width,
            ) + number_lines_spec(
                b,
                ignore_blanks,
                start + count_eligible(a, ignore_blanks),
                width,
            ));
        } else {
            lemma_number_append(a.skip(1), b, ignore_blanks, start, width);
            assert(number_lines_spec(t, ignore_blanks, start, width) =~= number_lines_spec(
                a,
                ignore_blanks,
                start,
                width,
            ) + number_lines_spec(
                b,
                ignore_blanks,
                start + count_eligible(a, ignore_blanks),
                width,
            ));
        }
    }
}

/// Numbering is strictly increasing and continuous: the line at position
/// `i`, when eligible, receives one more than the count of eligible lines
/// before it, and that count never decreases along the block.
pub proof fn lemma_numbering_increasing(
    lines: Seq<Seq<char>>,
    ignore_blanks: bool,
    start: nat,
    width: nat,
)
    ensures
        number_lines_spec(lines, ignore_blanks, start, width).len() == lines.len(),
        forall|i: int|
            0 <= i < lines.len() && eligible(#[trigger] lines[i], ignore_blanks)
                ==> number_lines_spec(lines, ignore_blanks, start, width)[i] == numbered_line(
                lines[i],
                start + count_eligible(lines.take(i), ignore_blanks) + 1,
                width,
            ),
        forall|i: int, j: int|
            0 <= i <= j <= lines.len() ==> count_eligible(#[trigger] lines.take(i), ignore_blanks)
                <= count_eligible(#[trigger] lines.take(j), ignore_blanks),
{
    lemma_number_lines_len(lines, ignore_blanks, start, width);
    assert forall|i: int|
        0 <= i < lines.len() && eligible(#[trigger] lines[i], ignore_blanks) implies
        number_lines_spec(lines, ignore_blanks, start, width)[i] == numbered_line(
        lines[i],
        start + count_eligible(lines.take(i), ignore_blanks) + 1,
        width,
    ) by {
        assert(lines =~= lines.take(i) + lines.skip(i));
        lemma_number_append(lines.take(i), lines.skip(i), ignore_blanks, start, width);
        lemma_number_lines_len(lines.take(i), ignore_blanks, start, width);
        assert(lines.skip(i)[0] == lines[i]);
        let start2 = start + count_eligible(lines.take(i), ignore_blanks);
        assert(number_lines_spec(lines.skip(i), ignore_blanks, start2, width)[0] == numbered_line(
            lines[i],
            start2 + 1,
            width,
        ));
    }
    assert forall|i: int, j: int| 0 <= i <= j <= lines.len() implies count_eligible(
        #[trigger] lines.take(i),
        ignore_blanks,
    ) <= count_eligible(#[trigger] lines.take(j), ignore_blanks) by {
        assert(lines.take(j) =~= lines.take(i) + lines.take(j).skip(i));
        lemma_number_append(lines.take(i), lines.take(j).skip(i), ignore_blanks, start, width);
    }
}

/// Appends a right-aligned line number to every eligible line, the
/// column width taken from this block's line count; ineligible lines are
/// replaced by empty lines. Returns the new lines and the last number
/// used.
pub fn append_line_number(data: Vec<String>, ignore_blanks: bool, starting_number: usize) -> (r: (
    Vec<String>,
    usize,
))
    requires
        starting_number + data@.len() <= usize::MAX,
    ensures
        lines_view(r.0@) == number_lines_spec(
            lines_view(data@),
            ignore_blanks,
            starting_number as nat,
            dec_chars(data@.len() as nat).len(),
        ),
        r.0@.len() == data@.len(),
        r.1 as nat == starting_number + count_eligible(lines_view(data@), ignore_blanks),
{
    let ghost all = lines_view(data@);
    let ghost width = dec_chars(data@.len() as nat).len();
    let nc = num_digits(data.len());
    let mut out: Vec<String> = Vec::new();
    let mut line_number: usize = starting_number;
    let mut i: usize = 0;
    proof {
        assert(all.take(0) =~= Seq::<Seq<char>>::empty());
        assert(lines_view(out@) =~= number_lines_spec(
            all.take(0),
            ignore_blanks,
            starting_number as nat,
            width,
        ));
    }
    while i < data.len()
        invariant
            i <= data@.len(),
            all == lines_view(data@),
            width == dec_chars(data@.len() as nat).len(),
            nc == width,
            starting_number + data@.len() <= usize::MAX,
            line_number as nat == starting_number + count_eligible(
                all.take(i as int),
                ignore_blanks,
            ),
            line_number <= starting_number + i,
            lines_view(out@) == number_lines_spec(
                all.take(i as int),
                ignore_blanks,
                starting_number as nat,
                width,
            ),
        decreases data@.len() - i,
    {
        let ghost prefix = all.take(i as int);
        proof {
            assert(all.take(i + 1) =~= prefix.push(all[i as int]));
            lemma_number_snoc(prefix, all[i as int], ignore_blanks, starting_number as nat, width);
        }
        let line_is_empty = data[i].as_str().is_empty();
        if !ignore_blanks || !line_is_empty {
            line_number = line_number + 1;
            let digits = usize_to_string(line_number);
            let mut s = pad_left_exec(&digits, nc);
            push_char(&mut s, ' ');
            s.append(data[i].as_str());
            proof {
                assert(s@ =~= numbered_line(all[i as int], line_number as nat, width));
            }
            out.push(s);
        } else {
            out.push(String::new());
        }
        proof {
            assert(lines_view(out@) =~~= number_lines_spec(
                all.take(i + 1),
                ignore_blanks,
                starting_number as nat,
                width,
            ));
        }
        i += 1;
    }
    proof {
        assert(all.take(data@.len() as int) =~= all);
        lemma_number_lines_len(all, ignore_blanks, starting_number as nat, width);
    }
    (out, line_number)
}

/// Numbering two units in one run is continuous across the unit
/// boundary: numbering the second unit from the last number of the first
/// equals numbering the concatenated stream, and the first eligible line
/// of the second unit receives the first unit's last number plus one.
pub proof fn lemma_numbering_continuous(
    u1: Seq<Seq<char>>,
    u2: Seq<Seq<char>>,
    ignore_blanks: bool,
    start: nat,
    width: nat,
)
    ensures
        number_lines_spec(u1 + u2, ignore_blanks, start, width) == number_lines_spec(
            u1,
            ignore_blanks,
            start,
            width,
        ) + number_lines_spec(
            u2,
            ignore_blanks,
            start + count_eligible(u1, ignore_blanks),
            width,
        ),
        u2.len() > 0 && eligible(u2[0], ignore_blanks) ==> number_lines_spec(
            u2,
            ignore_blanks,
            start + count_eligible(u1, ignore_blanks),
            width,
        )[0] == numbered_line(u2[0], start + count_eligible(u1, ignore_blanks) + 1, width),
{
    lemma_number_append(u1, u2, ignore_blanks, start, width);
}

/// Which lines receive numbers, resolved once from the two flags
/// rather than consulted flag by flag at each call site.
#[derive(Clone, Copy, Debug, PartialEq, Eq, Structural)]
pub enum NumberMode {
    Off,
    AllLines,
    NonBlankOnly,
}

/// The mode the two numbering flags denote: numbering only non-blank
/// lines takes precedence when both are requested.
pub open spec fn spec_number_mode(number_noblank: bool, numbers: bool) -> NumberMode {
    if number_noblank {
        NumberMode::NonBlankOnly
    } else if numbers {
        NumberMode::AllLines
    } else {
        NumberMode::Off
    }
}

/// Resolves the two numbering flags into one mode, non-blank-only
/// overriding number-all when both are set.
pub fn resolve_number_mode(number_noblank: bool, numbers: bool) -> (m: NumberMode)
    ensures
        m == spec_number_mode(number_noblank, numbers),
{
    if number_noblank {
        NumberMode::NonBlankOnly
    } else if numbers {
        NumberMode::AllLines
    } else {
        NumberMode::Off
    }
}

/// The whole annotation pass over one unit: optional blank squeezing
/// with the carried run counter, then optional numbering (non-blank-only
/// taking precedence), the number column width taken from the squeezed
/// unit's line count. Yields the lines with the two advanced counters.
pub open spec fn generate_spec(
    lines: Seq<Seq<char>>,
    squeeze_blank: bool,
    number_noblank: bool,
    numbers: bool,
    empty_run: nat,
    last_number: nat,
) -> (Seq<Seq<char>>, nat, nat) {
    let sq = if squeeze_blank {
        squeeze_spec(lines, empty_run)
    } else {
        (lines, empty_run)
    };
    let width = dec_chars(sq.0.len()).len();
    match spec_number_mode(number_noblank, numbers) {
        NumberMode::NonBlankOnly => (
            number_lines_spec(sq.0, true, last_number, width),
            sq.1,
            last_number + count_eligible(sq.0, true),
        ),
        NumberMode::AllLines => (
            number_lines_spec(sq.0, false, last_number, width),
            sq.1,
            last_number + count_eligible(sq.0, false),
        ),
        NumberMode::Off => (sq.0, sq.1, last_number),
    }
}

/// Runs one unit through the annotation pipeline: squeezing first, so
/// that numbering counts only surviving lines, then numbering. Returns
/// the output lines, the blank-run counter and the last line number,
/// both to be carried into the next unit of the run.
pub fn generate_output(
    data: Vec<String>,
    squeeze_blank: bool,
    number_noblank: bool,
    numbers: bool,
    empty_line_counter: usize,
    last_line_number: usize,
) -> (r: (Vec<String>, usize, usize))
    requires
        squeeze_blank ==> empty_line_counter + data@.len() <= usize::MAX,
        (number_noblank || numbers) ==> last_line_number + data@.len() <= usize::MAX,
    ensures
        ({
            let g = generate_spec(
                lines_view(data@),
                squeeze_blank,
                number_noblank,
                numbers,
                empty_line_counter as nat,
                last_line_number as nat,
            );
            lines_view(r.0@) == g.0 && r.1 as nat == g.1 && r.2 as nat == g.2
        }),
{
    let ghost all = lines_view(data@);
    let mut output = data;
    let mut empty_line_counter = empty_line_counter;
    let mut last_line_number = last_line_number;
    if squeeze_blank {
        proof {
            lemma_squeeze_len_le(all, empty_line_counter as nat);
        }
        let squeezed = remove_consecutive_empty_lines(output, empty_line_counter);
        output = squeezed.0;
        empty_line_counter = squeezed.1;
    }
    match resolve_number_mode(number_noblank, numbers) {
        NumberMode::NonBlankOnly => {
            let numbered = append_line_number(output, true, last_line_number);
            output = numbered.0;
            last_line_number = numbered.1;
        },
        NumberMode::AllLines => {
            let numbered = append_line_number(output, false, last_line_number);
            output = numbered.0;
            last_line_number = numbered.1;
        },
        NumberMode::Off => {},
    }
    (output, empty_line_counter, last_line_number)
}

/// The run's accumulator, carried across the units of one invocation:
/// the last line number assigned so far, and the count of consecutive
/// empty lines at the tail of processing so far.
pub struct RunState {
    pub last_line_number: usize,
    pub trailing_blank_run: usize,
}

impl RunState {
    /// A fresh run: nothing numbered yet, no blank run carried.
    pub fn new() -> (s: RunState)
        ensures
            s.last_line_number == 0,
            s.trailing_blank_run == 0,
    {
        RunState { last_line_number: 0, trailing_blank_run: 0 }
    }

    /// Processes one unit, advancing both counters in place. The
    /// counters are only ever advanced, never rewound: the line number
    /// does not decrease across the call.
    pub fn process_unit(
        &mut self,
        data: Vec<String>,
        squeeze_blank: bool,
        number_noblank: bool,
        numbers: bool,
    ) -> (out: Vec<String>)
        requires
            squeeze_blank ==> old(self).trailing_blank_run + data@.len() <= usize::MAX,
            (number_noblank || numbers) ==> old(self).last_line_number + data@.len()
                <= usize::MAX,
        ensures
            ({
                let g = generate_spec(
                    lines_view(data@),
                    squeeze_blank,
                    number_noblank,
                    numbers,
                    old(self).trailing_blank_run as nat,
                    old(self).last_line_number as nat,
                );
                let after = *final(self);
                lines_view(out@) == g.0 && after.trailing_blank_run as nat == g.1
                    && after.last_line_number as nat == g.2
            }),
            final(self).last_line_number >= old(self).last_line_number,
    {
        let r = generate_output(
            data,
            squeeze_blank,
            number_noblank,
            numbers,
            self.trailing_blank_run,
            self.last_line_number,
        );
        self.trailing_blank_run = r.1;
        self.last_line_number = r.2;
        r.0
    }
}

} // verus!
