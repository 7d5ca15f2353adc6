//! Text helpers: repetition, joining with a separator, trimming and
//! substring search, each with its meaning stated over `Seq<char>`.

use vstd::prelude::*;
use vstd::string::*;

verus! {

/// `unit` written `n` times in a row.
pub open spec fn repeated(unit: Seq<char>, n: nat) -> Seq<char>
    decreases n,
{
    if n == 0 {
        Seq::empty()
    } else {
        repeated(unit, (n - 1) as nat) + unit
    }
}

/// The items written one after another with `sep` between each two.
pub open spec fn joined(items: Seq<Seq<char>>, sep: Seq<char>) -> Seq<char>
    decreases items.len(),
{
    if items.len() == 0 {
        Seq::empty()
    } else if items.len() == 1 {
        items[0]
    } else {
        joined(items.drop_last(), sep) + sep + items.last()
    }
}

/// What `str::trim` leaves of a text: the text without its leading and
/// trailing Unicode white space.
pub uninterp spec fn trimmed(s: Seq<char>) -> Seq<char>;

/// Relies on `itertools::repeat_n`: an iterator that yields `unit` exactly
/// `n` times, collected here into one string.
#[verifier::external_body]
pub(crate) fn repeat_unit(unit: &str, n: usize) -> (r: String)
    ensures
        r@ == repeated(unit@, n as nat),
{
    itertools::repeat_n(unit, n).collect()
}

/// Relies on `itertools::join`: the items' `Display` text, in order, with
/// `sep` between each two, and the empty string for no items.
#[verifier::external_body]
pub(crate) fn join_with(items: &Vec<String>, sep: &str) -> (r: String)
    ensures
        r@ == joined(items.deep_view(), sep@),
{
    itertools::join(items, sep)
}

/// Relies on `str::trim`: the text without leading and trailing white space.
#[verifier::external_body]
pub(crate) fn trim_text(s: &str) -> (r: String)
    ensures
        r@ == trimmed(s@),
{
    s.trim().to_string()
}

/// `pat` stands in `s` from position `i` on.
pub open spec fn occurs_at(s: Seq<char>, pat: Seq<char>, i: int) -> bool {
    0 <= i && i + pat.len() <= s.len() && s.subrange(i, i + pat.len()) == pat
}

/// `pat` stands nowhere in `s` from position `start` on.
pub open spec fn absent_from(s: Seq<char>, pat: Seq<char>, start: int) -> bool {
    forall|j: int| start <= j ==> !#[trigger] occurs_at(s, pat, j)
}

/// `i` is the first place at or after `start` where `pat` stands in `s`.
pub open spec fn first_from(s: Seq<char>, pat: Seq<char>, start: int, i: int) -> bool {
    &&& start <= i
    &&& occurs_at(s, pat, i)
    &&& forall|j: int| start <= j < i ==> !#[trigger] occurs_at(s, pat, j)
}

/// Whether `pat` stands in `s` at position `i`, read character by character.
fn matches_at(s: &str, s_len: usize, pat: &str, pat_len: usize, i: usize) -> (r: bool)
    requires
        s_len == s@.len(),
        pat_len == pat@.len(),
    ensures
        r == occurs_at(s@, pat@, i as int),
{
    if i > s_len || pat_len > s_len - i {
        return false;
    }
    let mut k: usize = 0;
    while k < pat_len
        invariant
            k <= pat_len,
            pat_len == pat@.len(),
            s_len == s@.len(),
            i + pat_len <= s_len,
            forall|m: int| 0 <= m < k ==> s@[i + m] == pat@[m],
        decreases pat_len - k,
    {
        if s.get_char(i + k) != pat.get_char(k) {
            assert(s@.subrange(i as int, i + pat_len)[k as int] != pat@[k as int]);
            return false;
        }
        k = k + 1;
    }
    assert(s@.subrange(i as int, i + pat_len) =~= pat@);
    true
}

/// The first place at or after `start` where `pat` (not empty) stands in `s`.
pub fn find_from(s: &str, pat: &str, start: usize) -> (r: Option<usize>)
    requires
        pat@.len() > 0,
    ensures
        match r {
            Some(i) => first_from(s@, pat@, start as int, i as int),
            None => absent_from(s@, pat@, start as int),
        },
{
    let s_len = s.unicode_len();
    let pat_len = pat.unicode_len();
    if start > s_len {
        return None;
    }
    let mut i: usize = start;
    while i < s_len
        invariant
            start <= i <= s_len,
            s_len == s@.len(),
            pat_len == pat@.len(),
            forall|j: int| start <= j < i ==> !#[trigger] occurs_at(s@, pat@, j),
        decreases s_len - i,
    {
        if matches_at(s, s_len, pat, pat_len, i) {
            return Some(i);
        }
        i = i + 1;
    }
    None
}

} // verus!
