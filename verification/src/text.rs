//! Delimiter scanning and splitting, in specification and executable form.

use vstd::prelude::*;

verus! {

/// The index of the first occurrence of `d` in `s`, or `s.len()` if `d`
/// does not occur.
pub open spec fn first_index_of(s: Seq<char>, d: char) -> int
    decreases s.len(),
{
    if s.len() == 0 {
        0
    } else if s[0] == d {
        0
    } else {
        1 + first_index_of(s.drop_first(), d)
    }
}

/// `first_index_of` is in bounds, lands on `d` when `d` occurs, and
/// nothing before it is `d`.
pub proof fn lemma_first_index(s: Seq<char>, d: char)
    ensures
        0 <= first_index_of(s, d) <= s.len(),
        first_index_of(s, d) < s.len() ==> s[first_index_of(s, d)] == d,
        forall|j: int| 0 <= j < first_index_of(s, d) ==> s[j] != d,
    decreases s.len(),
{
    if s.len() > 0 && s[0] != d {
        lemma_first_index(s.drop_first(), d);
        assert forall|j: int| 0 <= j < first_index_of(s, d) implies s[j] != d by {
            if j > 0 {
                assert(s.drop_first()[j - 1] == s[j]);
            }
        }
    }
}

/// An index with no `d` before it, and `d` at it or the end beyond it, is
/// exactly `first_index_of`.
pub proof fn lemma_first_index_is(s: Seq<char>, d: char, i: int)
    requires
        0 <= i <= s.len(),
        forall|j: int| 0 <= j < i ==> s[j] != d,
        i < s.len() ==> s[i] == d,
    ensures
        first_index_of(s, d) == i,
    decreases s.len(),
{
    if s.len() > 0 && s[0] != d {
        lemma_first_index_is(s.drop_first(), d, i - 1);
    }
}

/// `s` split at every `d`, as `str::split` splits.
pub open spec fn split_all(s: Seq<char>, d: char) -> Seq<Seq<char>>
    decreases s.len(),
    via split_all_dec
{
    let i = first_index_of(s, d);
    if i == s.len() {
        seq![s]
    } else {
        seq![s.take(i)] + split_all(s.skip(i + 1), d)
    }
}

#[via_fn]
proof fn split_all_dec(s: Seq<char>, d: char) {
    lemma_first_index(s, d);
}

/// `s` split at `d` into at most `n` pieces, as `str::splitn` splits: the
/// last piece keeps any later occurrences of `d`.
pub open spec fn split_at_most(s: Seq<char>, d: char, n: nat) -> Seq<Seq<char>>
    decreases n,
{
    if n <= 1 {
        seq![s]
    } else {
        let i = first_index_of(s, d);
        if i == s.len() {
            seq![s]
        } else {
            seq![s.take(i)] + split_at_most(s.skip(i + 1), d, (n - 1) as nat)
        }
    }
}

/// `split_at_most(s, d, n)`, padded with empty pieces to exactly `n`
/// pieces, as taking the first `n` pieces of an exhausted `splitn` with a
/// default of the empty string does.
pub open spec fn pieces(s: Seq<char>, d: char, n: nat) -> Seq<Seq<char>> {
    let p = split_at_most(s, d, n);
    Seq::new(n, |i: int| if i < p.len() { p[i] } else { Seq::<char>::empty() })
}

/// Peeling one piece off `pieces`: the first piece is the text up to the
/// first delimiter, and the remaining pieces are the pieces of the rest.
pub proof fn lemma_pieces_step(s: Seq<char>, d: char, n: nat)
    requires
        n > 1,
    ensures
        ({
            let i = first_index_of(s, d);
            let head = if i < s.len() { s.take(i) } else { s };
            let tail = if i < s.len() { s.skip(i + 1) } else { Seq::<char>::empty() };
            pieces(s, d, n)[0] == head && pieces(s, d, n).drop_first() =~= pieces(
                tail,
                d,
                (n - 1) as nat,
            )
        }),
{
    lemma_first_index(s, d);
    let i = first_index_of(s, d);
    if i == s.len() {
        assert(split_at_most(Seq::<char>::empty(), d, (n - 1) as nat) =~= seq![
            Seq::<char>::empty(),
        ]);
    }
}

/// The first index of `d` in `s`, scanning from `from`.
pub fn scan_for(s: &str, d: char, from: usize) -> (i: usize)
    requires
        from <= s@.len(),
    ensures
        from <= i <= s@.len(),
        forall|j: int| from <= j < i ==> s@[j] != d,
        i < s@.len() ==> s@[i as int] == d,
{
    let n = s.unicode_len();
    let mut i: usize = from;
    while i < n
        invariant
            from <= i <= n == s@.len(),
            forall|j: int| from <= j < i ==> s@[j] != d,
        decreases n - i,
    {
        if s.get_char(i) == d {
            return i;
        }
        i += 1;
    }
    i
}

/// Split off the text before the first comma.  When there is no comma the
/// whole text is the first part and the rest is empty.
pub fn split_comma<'a>(s: &'a str) -> (r: (&'a str, &'a str))
    ensures
        ({
            let i = first_index_of(s@, ',');
            if i < s@.len() {
                r.0@ == s@.take(i) && r.1@ == s@.skip(i + 1)
            } else {
                r.0@ == s@ && r.1@ =~= Seq::<char>::empty()
            }
        }),
{
    let n = s.unicode_len();
    let i = scan_for(s, ',', 0);
    proof {
        lemma_first_index_is(s@, ',', i as int);
    }
    if i < n {
        let head = s.substring_char(0, i);
        let tail = s.substring_char(i + 1, n);
        assert(head@ =~= s@.take(i as int));
        assert(tail@ =~= s@.skip(i + 1));
        (head, tail)
    } else {
        let empty = s.substring_char(n, n);
        assert(s@.take(n as int) =~= s@);
        (s, empty)
    }
}

} // verus!
