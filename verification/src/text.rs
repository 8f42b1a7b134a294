//! Documents as character sequences: conversion between `String` and
//! `Vec<char>`, splitting a document into lines the way Rust's
//! `str::lines` does (a line ends at `'\n'` or `"\r\n"`, a final line
//! ending is optional), and joining lines back with `'\n'`.

use vstd::prelude::*;
use vstd::std_specs::iter::IteratorSpec;

verus! {

broadcast use vstd::string::group_string_axioms;

// ---------------------------------------------------------------------------
// Conversions
// ---------------------------------------------------------------------------

/// The characters of `s`, in order.
pub(crate) fn str_to_chars(s: &str) -> (r: Vec<char>)
    ensures
        r@ == s@,
{
    let mut it = s.chars();
    let mut r: Vec<char> = Vec::new();
    loop
        invariant
            r@ + it.remaining() == s@,
        ensures
            r@ == s@,
        decreases s@.len() - r@.len(),
    {
        match it.next() {
            Some(c) => {
                r.push(c);
            },
            None => {
                proof {
                    assert(r@ + it.remaining() =~= r@);
                }
                break ;
            },
        }
    }
    r
}

/// Relies on `core::iter::Iterator::collect` for `String`: it builds the
/// string holding exactly the characters of the iterator, in order.
#[verifier::external_body]
pub(crate) fn chars_to_string(v: &Vec<char>) -> (r: String)
    ensures
        r@ == v@,
{
    v.iter().collect()
}

// ---------------------------------------------------------------------------
// Lines
// ---------------------------------------------------------------------------

/// The index of the first `'\n'` at or after `i`, or the length of `s`.
pub open spec fn next_newline(s: Seq<char>, i: int) -> int
    decreases s.len() - i,
{
    if i < s.len() {
        if s[i] == '\n' {
            i
        } else {
            next_newline(s, i + 1)
        }
    } else {
        s.len() as int
    }
}

pub proof fn lemma_next_newline(s: Seq<char>, i: int)
    requires
        0 <= i <= s.len(),
    ensures
        i <= next_newline(s, i) <= s.len(),
        forall|q: int| i <= q < next_newline(s, i) ==> s[q] != '\n',
        next_newline(s, i) < s.len() ==> s[next_newline(s, i)] == '\n',
    decreases s.len() - i,
{
    if i < s.len() && s[i] != '\n' {
        lemma_next_newline(s, i + 1);
    }
}

/// A line with a final `'\r'` removed: what `str::lines` yields for a
/// `"\r\n"`-terminated line.
pub open spec fn strip_cr(l: Seq<char>) -> Seq<char> {
    if l.len() > 0 && l[l.len() - 1] == '\r' {
        l.drop_last()
    } else {
        l
    }
}

/// The lines of `s` from index `i` on, as `str::lines` reads them:
/// each `'\n'` ends a line, a `'\r'` just before the `'\n'` is dropped,
/// and a final line without a terminator is kept as it stands.
pub open spec fn lines_from(s: Seq<char>, i: int) -> Seq<Seq<char>>
    decreases s.len() - i,
{
    if i < 0 || i >= s.len() {
        Seq::empty()
    } else {
        proof {
            lemma_next_newline(s, i);
        }
        let e = next_newline(s, i);
        if e == s.len() {
            seq![s.subrange(i, e)]
        } else {
            seq![strip_cr(s.subrange(i, e))] + lines_from(s, e + 1)
        }
    }
}

/// The lines of the document `s`.
pub open spec fn lines_of(s: Seq<char>) -> Seq<Seq<char>> {
    lines_from(s, 0)
}

/// The given lines joined with single `'\n'` separators.
pub open spec fn join_lines(ls: Seq<Seq<char>>) -> Seq<char>
    decreases ls.len(),
{
    if ls.len() == 0 {
        Seq::empty()
    } else if ls.len() == 1 {
        ls[0]
    } else {
        ls[0] + seq!['\n'] + join_lines(ls.drop_first())
    }
}

/// Appending one line to a join appends one separator and the line.
pub proof fn lemma_join_push(ls: Seq<Seq<char>>, l: Seq<char>)
    ensures
        join_lines(ls.push(l)) == if ls.len() == 0 {
            l
        } else {
            join_lines(ls) + seq!['\n'] + l
        },
    decreases ls.len(),
{
    if ls.len() == 0 {
        assert(ls.push(l) =~= seq![l]);
        assert(seq![l][0] == l);
        assert(join_lines(seq![l]) == l);
    } else if ls.len() == 1 {
        assert(ls.push(l).drop_first() =~= seq![l]);
        assert(seq![l][0] == l);
        assert(join_lines(seq![l]) == l);
        assert(ls.push(l)[0] == ls[0]);
        assert(join_lines(ls.push(l)) == ls[0] + seq!['\n'] + join_lines(seq![l]));
        assert(join_lines(ls) == ls[0]);
    } else {
        lemma_join_push(ls.drop_first(), l);
        assert(ls.push(l).drop_first() =~= ls.drop_first().push(l));
        assert(ls.push(l)[0] == ls[0]);
        assert(join_lines(ls.push(l)) == ls[0] + seq!['\n'] + join_lines(ls.drop_first().push(l)));
        assert(ls[0] + seq!['\n'] + (join_lines(ls.drop_first()) + seq!['\n'] + l) =~= (ls[0]
            + seq!['\n'] + join_lines(ls.drop_first())) + seq!['\n'] + l);
    }
}

fn next_newline_x(v: &Vec<char>, i: usize) -> (e: usize)
    requires
        i <= v.len(),
    ensures
        e as int == next_newline(v@, i as int),
        i <= e <= v.len(),
{
    let mut e = i;
    while e < v.len() && v[e] != '\n'
        invariant
            i <= e <= v.len(),
            next_newline(v@, i as int) == next_newline(v@, e as int),
        decreases v.len() - e,
    {
        e = e + 1;
    }
    e
}

/// The views of a sequence of character vectors.
pub(crate) open spec fn line_views(lines: Seq<Vec<char>>) -> Seq<Seq<char>> {
    Seq::new(lines.len(), |j: int| lines[j]@)
}

/// Split a document into its lines, as `str::lines` would.
pub(crate) fn split_lines(v: &Vec<char>) -> (r: Vec<Vec<char>>)
    ensures
        line_views(r@) == lines_of(v@),
{
    let mut r: Vec<Vec<char>> = Vec::new();
    let mut i: usize = 0;
    while i < v.len()
        invariant
            i <= v.len(),
            lines_of(v@) == line_views(r@) + lines_from(v@, i as int),
        decreases v.len() - i,
    {
        let e = next_newline_x(v, i);
        proof {
            lemma_next_newline(v@, i as int);
        }
        let ce: usize = if e < v.len() && e > i && v[e - 1] == '\r' {
            e - 1
        } else {
            e
        };
        let mut line: Vec<char> = Vec::new();
        let mut k = i;
        while k < ce
            invariant
                i <= k <= ce <= v.len(),
                line@ == v@.subrange(i as int, k as int),
            decreases ce - k,
        {
            line.push(v[k]);
            proof {
                assert(line@ =~= v@.subrange(i as int, k as int + 1));
            }
            k = k + 1;
        }
        proof {
            let ghost iv = i as int;
            let ghost ev = e as int;
            if ev == v@.len() {
                assert(lines_from(v@, iv) =~= seq![v@.subrange(iv, ev)]);
                assert(line@ == v@.subrange(iv, ev));
            } else {
                if ev > iv && v@[ev - 1] == '\r' {
                    assert(v@.subrange(iv, ev).len() > 0);
                    assert(v@.subrange(iv, ev)[ev - iv - 1] == v@[ev - 1]);
                    assert(strip_cr(v@.subrange(iv, ev)) =~= v@.subrange(iv, ev - 1));
                    assert(line@ == v@.subrange(iv, ev - 1));
                } else {
                    assert(strip_cr(v@.subrange(iv, ev)) == v@.subrange(iv, ev));
                }
            }
        }
        let ghost old_r = r@;
        r.push(line);
        proof {
            assert(line_views(r@) =~= line_views(old_r).push(line@));
        }
        i = if e < v.len() {
            e + 1
        } else {
            e
        };
        proof {
            if e as int == v@.len() {
                assert(lines_from(v@, i as int) =~= Seq::<Seq<char>>::empty());
                assert(line_views(r@) + lines_from(v@, i as int) =~= line_views(old_r) + seq![
                    line@,
                ]);
            } else {
                assert(line_views(r@) + lines_from(v@, i as int) =~= line_views(old_r) + (seq![
                    line@,
                ] + lines_from(v@, i as int)));
            }
        }
    }
    proof {
        assert(lines_of(v@) =~= line_views(r@));
    }
    r
}

/// Join the first `k` of the given lines with `'\n'`.
pub(crate) fn join_first_lines(lines: &Vec<Vec<char>>, k: usize) -> (r: Vec<char>)
    requires
        k <= lines.len(),
    ensures
        r@ == join_lines(line_views(lines@).take(k as int)),
{
    let mut r: Vec<char> = Vec::new();
    let mut j: usize = 0;
    while j < k
        invariant
            j <= k <= lines.len(),
            r@ == join_lines(line_views(lines@).take(j as int)),
        decreases k - j,
    {
        proof {
            lemma_join_push(line_views(lines@).take(j as int), lines@[j as int]@);
            assert(line_views(lines@).take(j as int + 1) =~= line_views(lines@).take(
                j as int,
            ).push(lines@[j as int]@));
        }
        if j > 0 {
            r.push('\n');
        }
        let lj = &lines[j];
        let mut t: usize = 0;
        let ghost base = r@;
        while t < lj.len()
            invariant
                t <= lj.len(),
                r@ == base + lj@.take(t as int),
            decreases lj.len() - t,
        {
            r.push(lj[t]);
            proof {
                assert(base + lj@.take(t as int + 1) =~= (base + lj@.take(t as int)).push(
                    lj@[t as int],
                ));
            }
            t = t + 1;
        }
        proof {
            assert(lj@.take(lj@.len() as int) =~= lj@);
            if j == 0 {
                assert(base =~= Seq::<char>::empty());
                assert(r@ =~= lj@);
            } else {
                assert(r@ =~= join_lines(line_views(lines@).take(j as int)) + seq!['\n'] + lj@);
            }
        }
        j = j + 1;
    }
    r
}

} // verus!
