use vstd::prelude::*;

verus! {

/// The first element of `s`, in order, that equals an element before it.
pub open spec fn first_repeat<T>(s: Seq<T>) -> Option<T>
    decreases s.len(),
{
    if s.len() == 0 {
        None
    } else {
        match first_repeat(s.drop_last()) {
            Some(x) => Some(x),
            None => if s.drop_last().contains(s.last()) {
                Some(s.last())
            } else {
                None
            },
        }
    }
}

/// A repeat found in a prefix is the first repeat of the whole sequence.
pub proof fn lemma_first_repeat_prefix<T>(s: Seq<T>, i: int)
    requires
        0 <= i <= s.len(),
        first_repeat(s.take(i)) is Some,
    ensures
        first_repeat(s) == first_repeat(s.take(i)),
    decreases s.len() - i,
{
    if i == s.len() {
        assert(s.take(i) =~= s);
    } else {
        assert(s.take(i + 1).drop_last() =~= s.take(i));
        lemma_first_repeat_prefix(s, i + 1);
    }
}

/// A sequence without a repeat has no duplicates, and the other way round.
pub proof fn lemma_first_repeat_none<T>(s: Seq<T>)
    ensures
        first_repeat(s) is None <==> s.no_duplicates(),
        first_repeat(s) matches Some(x) ==> exists|i: int, j: int|
            0 <= i < j < s.len() && s[i] == x && s[j] == x,
    decreases s.len(),
{
    if s.len() > 0 {
        let p = s.drop_last();
        lemma_first_repeat_none(p);
        if first_repeat(p) is Some {
            let x = first_repeat(p)->0;
            let (i, j) = choose|i: int, j: int| 0 <= i < j < p.len() && p[i] == x && p[j] == x;
            assert(s[i] == x && s[j] == x);
        } else if p.contains(s.last()) {
            let i = choose|i: int| 0 <= i < p.len() && p[i] == s.last();
            assert(s[i] == s.last() && s[s.len() - 1] == s.last());
        } else {
            assert forall|i: int, j: int| 0 <= i < s.len() && 0 <= j < s.len() && i != j implies s[i] != s[j] by {
                if i < s.len() - 1 && j < s.len() - 1 {
                    assert(p[i] == s[i] && p[j] == s[j]);
                } else if i == s.len() - 1 {
                    assert(p[j] == s[j]);
                } else {
                    assert(p[i] == s[i]);
                }
            }
        }
    }
}

} // verus!
