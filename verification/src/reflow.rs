//! Line reflow: splitting a text blob into its logical lines.

use vstd::prelude::*;
use vstd::string::StrSliceExecFns;
use vstd::string::StringExecFns;
use crate::lines_view;

verus! {

/// The logical lines of a text blob: split on `'\n'`. A blob with no
/// newline is one line; every newline starts a further line, so a blob
/// ending in a newline ends with an empty line.
pub open spec fn split_lines(s: Seq<char>) -> Seq<Seq<char>>
    decreases s.len(),
{
    if s.len() == 0 {
        seq![Seq::<char>::empty()]
    } else if s[0] == '\n' {
        seq![Seq::<char>::empty()] + split_lines(s.skip(1))
    } else {
        let rest = split_lines(s.skip(1));
        seq![seq![s[0]] + rest[0]] + rest.skip(1)
    }
}

/// Number of newline characters in a blob.
pub open spec fn count_newlines(s: Seq<char>) -> nat
    decreases s.len(),
{
    if s.len() == 0 {
        0
    } else {
        (if s[0] == '\n' { 1nat } else { 0nat }) + count_newlines(s.skip(1))
    }
}

/// Whether a blob contains a newline character.
pub open spec fn has_newline(s: Seq<char>) -> bool {
    exists|i: int| 0 <= i < s.len() && s[i] == '\n'
}

pub proof fn lemma_split_lines_nonempty(s: Seq<char>)
    ensures
        split_lines(s).len() >= 1,
    decreases s.len(),
{
    if s.len() != 0 {
        lemma_split_lines_nonempty(s.skip(1));
    }
}

/// A blob with exactly `k` newlines splits into exactly `k + 1` lines.
pub proof fn lemma_split_lines_count(s: Seq<char>)
    ensures
        split_lines(s).len() == count_newlines(s) + 1,
    decreases s.len(),
{
    if s.len() != 0 {
        lemma_split_lines_count(s.skip(1));
        lemma_split_lines_nonempty(s.skip(1));
    }
}

/// Splitting a blob that holds no newline yields that blob as its one line.
pub proof fn lemma_split_lines_no_newline(s: Seq<char>)
    requires
        !has_newline(s),
    ensures
        split_lines(s) == seq![s],
    decreases s.len(),
{
    if s.len() == 0 {
        assert(split_lines(s) =~~= seq![s]);
    } else {
        assert(s[0] != '\n');
        assert(!has_newline(s.skip(1))) by {
            assert(forall|i: int|
                0 <= i < s.skip(1).len() ==> s.skip(1)[i] == s[i + 1]);
        }
        lemma_split_lines_no_newline(s.skip(1));
        assert(split_lines(s) =~~= seq![s]);
    }
}

/// No line produced by splitting contains a newline character.
pub proof fn lemma_split_lines_have_no_newline(s: Seq<char>)
    ensures
        forall|i: int|
            0 <= i < split_lines(s).len() ==> !has_newline(#[trigger] split_lines(s)[i]),
    decreases s.len(),
{
    if s.len() == 0 {
    } else if s[0] == '\n' {
        lemma_split_lines_have_no_newline(s.skip(1));
        assert forall|i: int| 0 <= i < split_lines(s).len() implies !has_newline(
            #[trigger] split_lines(s)[i],
        ) by {
            if i > 0 {
                assert(split_lines(s)[i] == split_lines(s.skip(1))[i - 1]);
            }
        }
    } else {
        lemma_split_lines_have_no_newline(s.skip(1));
        lemma_split_lines_nonempty(s.skip(1));
        let rest = split_lines(s.skip(1));
        assert forall|i: int| 0 <= i < split_lines(s).len() implies !has_newline(
            #[trigger] split_lines(s)[i],
        ) by {
            if i == 0 {
                assert(!has_newline(rest[0]));
                let line = seq![s[0]] + rest[0];
                assert(line[0] == s[0]);
                assert(forall|j: int| 1 <= j < line.len() ==> line[j] == rest[0][j - 1]);
            } else {
                assert(split_lines(s)[i] == rest[i]);
            }
        }
    }
}

/// Reflow is idempotent: each line that splitting yields, having no
/// embedded newline, splits again into exactly itself, so reflowing an
/// already-split sequence preserves its length and order.
pub proof fn lemma_reflow_idempotent(s: Seq<char>)
    ensures
        forall|i: int|
            0 <= i < split_lines(s).len() ==> split_lines(#[trigger] split_lines(s)[i])
                == seq![split_lines(s)[i]],
{
    lemma_split_lines_have_no_newline(s);
    assert forall|i: int| 0 <= i < split_lines(s).len() implies split_lines(
        #[trigger] split_lines(s)[i],
    ) == seq![split_lines(s)[i]] by {
        lemma_split_lines_no_newline(split_lines(s)[i]);
    }
}

/// Appending one character extends the last line, or opens a fresh empty
/// line when the character is a newline.
pub proof fn lemma_split_lines_snoc(s: Seq<char>, c: char)
    ensures
        c == '\n' ==> split_lines(s.push(c)) == split_lines(s).push(Seq::<char>::empty()),
        c != '\n' ==> split_lines(s.push(c)) == split_lines(s).drop_last().push(
            split_lines(s).last().push(c),
        ),
    decreases s.len(),
{
    lemma_split_lines_nonempty(s);
    if s.len() == 0 {
        let t = s.push(c);
        assert(t.len() == 1);
        assert(t[0] == c);
        assert(t.skip(1) =~= Seq::<char>::empty());
        assert(split_lines(Seq::<char>::empty()) == seq![Seq::<char>::empty()]);
        assert(s =~= Seq::<char>::empty());
        assert(split_lines(s) == seq![Seq::<char>::empty()]);
        if c == '\n' {
            assert(split_lines(t) == seq![Seq::<char>::empty()] + split_lines(t.skip(1)));
            assert(split_lines(t) =~~= split_lines(s).push(Seq::<char>::empty()));
        } else {
            let rest = split_lines(t.skip(1));
            assert(rest == seq![Seq::<char>::empty()]);
            assert(split_lines(t) == seq![seq![t[0]] + rest[0]] + rest.skip(1));
            assert(seq![t[0]] + rest[0] =~= seq![c]);
            assert(rest.skip(1) =~= Seq::<Seq<char>>::empty());
            assert(split_lines(s).last().push(c) =~= seq![c]);
            assert(split_lines(t) =~~= split_lines(s).drop_last().push(
                split_lines(s).last().push(c),
            ));
        }
    } else {
        let t = s.push(c);
        assert(t[0] == s[0]);
        assert(t.skip(1) =~= s.skip(1).push(c));
        lemma_split_lines_snoc(s.skip(1), c);
        lemma_split_lines_nonempty(s.skip(1));
        let rest = split_lines(s.skip(1));
        let rest2 = split_lines(s.skip(1).push(c));
        if s[0] == '\n' {
            if c == '\n' {
                assert(split_lines(t) =~~= split_lines(s).push(Seq::<char>::empty()));
            } else {
                assert(rest2 == rest.drop_last().push(rest.last().push(c)));
                assert(split_lines(s).last() == rest.last());
                assert(split_lines(t) =~~= split_lines(s).drop_last().push(
                    split_lines(s).last().push(c),
                ));
            }
        } else {
            if c == '\n' {
                assert(rest2 == rest.push(Seq::<char>::empty()));
                assert(rest2[0] == rest[0]);
                assert(rest2.skip(1) =~= rest.skip(1).push(Seq::<char>::empty()));
                assert(split_lines(t) =~~= split_lines(s).push(Seq::<char>::empty()));
            } else {
                assert(rest2 == rest.drop_last().push(rest.last().push(c)));
                if rest.len() == 1 {
                    assert(rest2 =~= seq![rest[0].push(c)]);
                    assert(rest2[0] == rest[0].push(c));
                    assert(rest2.skip(1) =~= Seq::<Seq<char>>::empty());
                    assert(split_lines(s) =~= seq![seq![s[0]] + rest[0]]);
                    assert(seq![s[0]] + rest[0].push(c) =~= (seq![s[0]] + rest[0]).push(c));
                    assert(split_lines(t) =~~= split_lines(s).drop_last().push(
                        split_lines(s).last().push(c),
                    ));
                } else {
                    assert(rest2[0] == rest[0]);
                    assert(rest2.skip(1) =~= rest.skip(1).drop_last().push(rest.last().push(c)));
                    assert(split_lines(s).last() == rest.last());
                    assert(split_lines(s).drop_last() =~= seq![seq![s[0]] + rest[0]]
                        + rest.skip(1).drop_last());
                    assert(split_lines(t) =~~= split_lines(s).drop_last().push(
                        split_lines(s).last().push(c),
                    ));
                }
            }
        }
    }
}

/// Splits a blob that may hold one or more newline characters into a
/// vector of single lines, one entry per logical line.
pub fn unwrap_lines(data: String) -> (result: Vec<String>)
    ensures
        lines_view(result@) == split_lines(data@),
{
    let s = data.as_str();
    let n = s.unicode_len();
    let mut result: Vec<String> = Vec::new();
    let mut start: usize = 0;
    let mut i: usize = 0;
    proof {
        assert(s@.subrange(0, 0) =~= Seq::<char>::empty());
        assert(lines_view(result@).push(s@.subrange(0, 0)) =~~= split_lines(s@.subrange(0, 0)));
    }
    while i < n
        invariant
            start <= i <= n,
            n == s@.len(),
            lines_view(result@).push(s@.subrange(start as int, i as int)) == split_lines(
                s@.subrange(0, i as int),
            ),
        decreases n - i,
    {
        let ghost prefix = s@.subrange(0, i as int);
        let ghost cur = s@.subrange(start as int, i as int);
        let c = s.get_char(i);
        proof {
            assert(s@.subrange(0, i + 1) =~= prefix.push(s@[i as int]));
            lemma_split_lines_snoc(prefix, c);
        }
        if c == '\n' {
            let line = s.substring_char(start, i);
            result.push(String::from_str(line));
            proof {
                assert(split_lines(prefix).last() == cur);
                assert(split_lines(prefix).drop_last() =~~= lines_view(result@.drop_last()));
                assert(lines_view(result@) =~~= split_lines(prefix));
                assert(s@.subrange(i + 1, i + 1) =~= Seq::<char>::empty());
                assert(lines_view(result@).push(s@.subrange(i + 1, i + 1)) =~~= split_lines(
                    s@.subrange(0, i + 1),
                ));
            }
            start = i + 1;
        } else {
            proof {
                assert(cur.push(c) =~= s@.subrange(start as int, i + 1));
                assert(split_lines(prefix).drop_last() =~= lines_view(result@));
                assert(lines_view(result@).push(s@.subrange(start as int, i + 1)) =~~= split_lines(
                    s@.subrange(0, i + 1),
                ));
            }
        }
        i += 1;
    }
    let line = s.substring_char(start, n);
    result.push(String::from_str(line));
    proof {
        assert(s@.subrange(0, n as int) =~= s@);
        assert(lines_view(result@) =~~= split_lines(s@));
        assert(data@ == s@);
    }
    result
}

} // verus!
