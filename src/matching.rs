//! Deciding whether a response line answers the current round.

use vstd::prelude::*;
use vstd::string::StrSliceExecFns;

verus! {

/// `pat` occurs in `text` as a run of consecutive characters.
pub open spec fn contains_text(text: Seq<char>, pat: Seq<char>) -> bool {
    exists|i: int| 0 <= i && i + pat.len() <= text.len() && #[trigger] text.subrange(i, i + pat.len()) == pat
}

/// The characters of `s`, one by one.
fn chars_of(s: &str) -> (r: Vec<char>)
    ensures
        r@ == s@,
{
    let n = s.unicode_len();
    let mut r: Vec<char> = Vec::new();
    let mut i: usize = 0;
    while i < n
        invariant
            n == s@.len(),
            i <= n,
            r@ == s@.take(i as int),
        decreases n - i,
    {
        r.push(s.get_char(i));
        i = i + 1;
        assert(r@ =~= s@.take(i as int));
    }
    assert(s@.take(n as int) =~= s@);
    r
}

/// Whether `pat` occurs in `text`.
fn chars_contain(text: &Vec<char>, pat: &Vec<char>) -> (r: bool)
    ensures
        r == contains_text(text@, pat@),
{
    let n = text.len();
    let m = pat.len();
    if m > n {
        return false;
    }
    let mut i: usize = 0;
    while i <= n - m
        invariant
            n == text@.len(),
            m == pat@.len(),
            m <= n,
            i <= n - m + 1,
            forall|k: int| 0 <= k < i ==> #[trigger] text@.subrange(k, k + m) != pat@,
        decreases n - m + 1 - i,
    {
        let mut j: usize = 0;
        let mut same = true;
        while j < m
            invariant
                n == text@.len(),
                m == pat@.len(),
                i + m <= n,
                j <= m,
                same <==> forall|q: int| 0 <= q < j ==> text@[i + q] == pat@[q],
            decreases m - j,
        {
            if text[i + j] != pat[j] {
                same = false;
            }
            j = j + 1;
        }
        if same {
            assert(text@.subrange(i as int, i + m) =~= pat@);
            return true;
        }
        assert(text@.subrange(i as int, i + m) != pat@) by {
            let q = choose|q: int| 0 <= q < m && text@[i + q] != pat@[q];
            assert(text@.subrange(i as int, i + m)[q] == text@[i + q]);
        }
        i = i + 1;
    }
    proof {
        assert forall|k: int| 0 <= k && k + m <= n implies #[trigger] text@.subrange(k, k + m) != pat@ by {
            assert(k < i);
        }
    }
    false
}

/// Whether the response `line` holds the `expected` text anywhere in it.
pub fn line_matches(line: &str, expected: &str) -> (r: bool)
    ensures
        r == contains_text(line@, expected@),
{
    let text = chars_of(line);
    let pat = chars_of(expected);
    chars_contain(&text, &pat)
}

/// The match signal after the reader has taken one read: it is raised by
/// a line that holds `expected`, and left as it was by any other line or
/// by a failed read (`None`).
pub fn signal_after_read(signal: bool, line: Option<&str>, expected: &str) -> (r: bool)
    ensures
        r == (signal || (line is Some && contains_text(line->Some_0@, expected@))),
{
    match line {
        Some(l) => signal || line_matches(l, expected),
        None => signal,
    }
}

} // verus!
