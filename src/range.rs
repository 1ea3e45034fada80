//! The kernel's CPU-list syntax: `0,4,6-12,18`.
use vstd::prelude::*;

use crate::text::{
    lemma_split_nonempty, parse_usize, split, split_at_char, trim, trimmed, usize_of, views_of,
};

verus! {

/// The list text could not be read as a CPU list.
#[derive(Debug, Clone, Copy, PartialEq, Eq, Structural)]
pub struct ParseError;

/// `lo, lo + 1, ..., hi`.
pub open spec fn interval(lo: usize, hi: usize) -> Seq<usize> {
    Seq::new((hi - lo + 1) as nat, |i: int| (lo + i) as usize)
}

/// What one comma-separated token stands for: a single id, or an inclusive
/// range `lo-hi` with `lo <= hi`. Each number may carry surrounding space.
pub open spec fn range_token(tok: Seq<char>) -> Option<Seq<usize>> {
    let parts = split(tok, '-');
    if parts.len() == 1 {
        match usize_of(trimmed(parts[0])) {
            Some(v) => Some(seq![v]),
            None => None,
        }
    } else if parts.len() == 2 {
        match (usize_of(trimmed(parts[0])), usize_of(trimmed(parts[1]))) {
            (Some(lo), Some(hi)) => if lo <= hi {
                Some(interval(lo, hi))
            } else {
                None
            },
            _ => None,
        }
    } else {
        None
    }
}

/// The expansions of `toks`, concatenated in order, if every token is valid.
pub open spec fn expand_tokens(toks: Seq<Seq<char>>) -> Option<Seq<usize>>
    decreases toks.len(),
{
    if toks.len() == 0 {
        Some(Seq::empty())
    } else {
        match (expand_tokens(toks.drop_last()), range_token(toks.last())) {
            (Some(a), Some(b)) => Some(a + b),
            _ => None,
        }
    }
}

/// The CPU ids that a list text names, in textual order, duplicates kept.
pub open spec fn cpu_list(s: Seq<char>) -> Option<Seq<usize>> {
    expand_tokens(split(s, ','))
}

/// Appends the expansion of one token to `out`.
fn expand_token(tok: &str, out: &mut Vec<usize>) -> (ok: bool)
    ensures
        ok == (range_token(tok@) is Some),
        ok ==> final(out)@ == old(out)@ + range_token(tok@)->0,
{
    let parts = split_at_char(tok, '-');
    proof {
        lemma_split_nonempty(tok@, '-');
    }
    assert(parts@.len() == split(tok@, '-').len());
    if parts.len() == 1 {
        assert(parts@[0]@ == split(tok@, '-')[0]);
        match parse_usize(trim(parts[0])) {
            Some(v) => {
                out.push(v);
                true
            },
            None => false,
        }
    } else if parts.len() == 2 {
        assert(parts@[0]@ == split(tok@, '-')[0]);
        assert(parts@[1]@ == split(tok@, '-')[1]);
        let lo = match parse_usize(trim(parts[0])) {
            Some(v) => v,
            None => {
                return false;
            },
        };
        let hi = match parse_usize(trim(parts[1])) {
            Some(v) => v,
            None => {
                return false;
            },
        };
        if lo > hi {
            return false;
        }
        let ghost base = out@;
        let mut k: usize = lo;
        while k < hi
            invariant
                lo <= k <= hi,
                out@ == base + interval(lo, hi).take(k - lo),
            decreases hi - k,
        {
            out.push(k);
            assert(interval(lo, hi).take(k + 1 - lo) =~= interval(lo, hi).take(k - lo).push(k));
            k = k + 1;
        }
        out.push(hi);
        assert(interval(lo, hi) =~= interval(lo, hi).take(hi - lo).push(hi));
        assert(out@ =~= base + interval(lo, hi));
        true
    } else {
        false
    }
}

/// Expands a CPU list: comma-separated tokens, each an id or an inclusive
/// range `lo-hi`, concatenated in textual order with duplicates kept.
pub fn parse_range(text: &str) -> (r: Result<Vec<usize>, ParseError>)
    ensures
        match cpu_list(text@) {
            Some(l) => r is Ok && r->Ok_0@ == l,
            None => r is Err,
        },
{
    let toks = split_at_char(text, ',');
    let ghost tv = split(text@, ',');
    let mut out: Vec<usize> = Vec::new();
    let mut i: usize = 0;
    assert(tv.take(0) =~= Seq::<Seq<char>>::empty());
    while i < toks.len()
        invariant
            tv == split(text@, ','),
            views_of(toks@) == tv,
            i <= toks@.len(),
            expand_tokens(tv.take(i as int)) == Some(out@),
        decreases toks@.len() - i,
    {
        assert(tv.take(i + 1).drop_last() =~= tv.take(i as int));
        assert(toks@[i as int]@ == tv[i as int]);
        if !expand_token(toks[i], &mut out) {
            proof {
                assert(tv.take(i + 1).last() == tv[i as int]);
                assert(expand_tokens(tv.take(i + 1)) is None);
                lemma_expand_stops(tv, i as int + 1);
            }
            return Err(ParseError);
        }
        i = i + 1;
    }
    assert(tv.take(i as int) =~= tv);
    Ok(out)
}

proof fn lemma_expand_stops(toks: Seq<Seq<char>>, i: int)
    requires
        0 <= i <= toks.len(),
        expand_tokens(toks.take(i)) is None,
    ensures
        expand_tokens(toks) is None,
    decreases toks.len() - i,
{
    if i < toks.len() {
        assert(toks.take(i + 1).drop_last() =~= toks.take(i));
        lemma_expand_stops(toks, i + 1);
    } else {
        assert(toks.take(i) =~= toks);
    }
}

} // verus!
