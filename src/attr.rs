//! Values of per-CPU attributes, and how they are read from trimmed text.
use vstd::prelude::*;

use crate::text::{is_space, is_space_char, number_of, parse_number};

verus! {

/// A type that an attribute's trimmed text can be read as.
pub trait Attribute: View + Sized {
    /// The value that `text` stands for, if it is valid.
    spec fn decoded(text: Seq<char>) -> Option<<Self as View>::V>;

    /// Reads `text` as a value.
    fn decode(text: &str) -> (r: Option<Self>)
        ensures
            match r {
                Some(v) => Self::decoded(text@) == Some(v@),
                None => Self::decoded(text@) is None,
            },
    ;
}

/// Identifiers such as a governor's name are taken as they are.
impl Attribute for String {
    open spec fn decoded(text: Seq<char>) -> Option<Seq<char>> {
        Some(text)
    }

    fn decode(text: &str) -> (r: Option<String>) {
        Some(String::from_str(text))
    }
}

/// Frequencies, in kHz, are decimal integers, optionally signed `+`.
impl Attribute for u64 {
    open spec fn decoded(text: Seq<char>) -> Option<u64> {
        number_of(text)
    }

    fn decode(text: &str) -> (r: Option<u64>) {
        parse_number(text)
    }
}

/// Reading `s` left to right: the words completed so far, and the word
/// in progress. Words are maximal runs of non-whitespace characters.
pub open spec fn scan_words(s: Seq<char>) -> (Seq<Seq<char>>, Seq<char>)
    decreases s.len(),
{
    if s.len() == 0 {
        (Seq::empty(), Seq::empty())
    } else {
        let (done, cur) = scan_words(s.drop_last());
        if is_space(s.last()) {
            if cur.len() > 0 {
                (done.push(cur), Seq::empty())
            } else {
                (done, Seq::empty())
            }
        } else {
            (done, cur.push(s.last()))
        }
    }
}

/// The whitespace-separated words of `s`, in order.
pub open spec fn words(s: Seq<char>) -> Seq<Seq<char>> {
    let (done, cur) = scan_words(s);
    if cur.len() > 0 {
        done.push(cur)
    } else {
        done
    }
}

/// Every word of `ws` is a `u64`.
pub open spec fn all_numbers(ws: Seq<Seq<char>>) -> bool {
    forall|i: int| 0 <= i < ws.len() ==> (#[trigger] number_of(ws[i])) is Some
}

/// The values of the words of `ws`, each a `u64`.
pub open spec fn numbers(ws: Seq<Seq<char>>) -> Seq<u64> {
    ws.map_values(|w: Seq<char>| number_of(w)->0)
}

/// Adding a word keeps the list valid exactly when the word is a number,
/// and then adds its value.
proof fn lemma_add_word(done: Seq<Seq<char>>, w: Seq<char>)
    ensures
        all_numbers(done.push(w)) == (all_numbers(done) && number_of(w) is Some),
        all_numbers(done.push(w)) ==> numbers(done.push(w)) == numbers(done).push(
            number_of(w)->0,
        ),
{
    let d = done.push(w);
    if all_numbers(d) {
        assert(number_of(d[d.len() - 1]) is Some);
        assert forall|k: int| 0 <= k < done.len() implies (#[trigger] number_of(done[k])) is Some by {
            assert(d[k] == done[k]);
        }
        assert(numbers(d) =~= numbers(done).push(number_of(w)->0));
    }
    if all_numbers(done) && number_of(w) is Some {
        assert forall|k: int| 0 <= k < d.len() implies (#[trigger] number_of(d[k])) is Some by {
            if k < done.len() {
                assert(d[k] == done[k]);
            }
        }
    }
}

/// A valid frequency list has at least one entry.
pub proof fn lemma_freq_list_nonempty(text: Seq<char>)
    ensures
        freq_list(text) is Some ==> freq_list(text)->0.len() > 0,
{
}

/// The frequencies that `text` lists, separated by whitespace, if there is
/// at least one and every one is a decimal integer, optionally signed `+`.
pub open spec fn freq_list(text: Seq<char>) -> Option<Seq<u64>> {
    let ws = words(text);
    if ws.len() > 0 && all_numbers(ws) {
        Some(numbers(ws))
    } else {
        None
    }
}

/// A frequency list is decimal integers, optionally signed `+`, separated
/// by whitespace.
impl Attribute for Vec<u64> {
    open spec fn decoded(text: Seq<char>) -> Option<Seq<u64>> {
        freq_list(text)
    }

    fn decode(text: &str) -> (r: Option<Vec<u64>>) {
        let n = text.unicode_len();
        let mut out: Vec<u64> = Vec::new();
        let mut ok = true;
        let mut start: usize = 0;
        let mut i: usize = 0;
        assert(text@.take(0) =~= Seq::<char>::empty());
        while i < n
            invariant
                n == text@.len(),
                start <= i <= n,
                scan_words(text@.take(i as int)).1 == text@.subrange(start as int, i as int),
                ok == all_numbers(scan_words(text@.take(i as int)).0),
                ok ==> out@ == numbers(scan_words(text@.take(i as int)).0),
            decreases n - i,
        {
            let c = text.get_char(i);
            let ghost prev = scan_words(text@.take(i as int));
            assert(text@.take(i + 1).drop_last() =~= text@.take(i as int));
            assert(text@.take(i + 1).last() == c);
            if is_space_char(c) {
                if i > start {
                    let piece = text.substring_char(start, i);
                    let ghost before = out@;
                    match parse_number(piece) {
                        Some(v) => {
                            if ok {
                                out.push(v);
                            }
                        },
                        None => {
                            ok = false;
                        },
                    }
                    proof {
                        lemma_add_word(prev.0, piece@);
                        assert(scan_words(text@.take(i + 1)).0 == prev.0.push(piece@));
                    }
                }
                start = i + 1;
            } else {
                assert(text@.subrange(start as int, i + 1) =~= text@.subrange(start as int, i as int).push(c));
            }
            assert(scan_words(text@.take(i + 1)).1 =~= text@.subrange(start as int, i + 1));
            i = i + 1;
        }
        assert(text@.take(n as int) =~= text@);
        let ghost sc = scan_words(text@);
        if i > start {
            let piece = text.substring_char(start, i);
            match parse_number(piece) {
                Some(v) => {
                    if ok {
                        out.push(v);
                    }
                },
                None => {
                    ok = false;
                },
            }
            proof {
                lemma_add_word(sc.0, piece@);
                assert(words(text@) == sc.0.push(piece@));
            }
        }
        if ok && out.len() > 0 {
            Some(out)
        } else {
            None
        }
    }
}

} // verus!
