//! Where something stands first in a list.

use vstd::prelude::*;

verus! {

/// The first position of `x` in `s`.
pub open spec fn place_of<A>(s: Seq<A>, x: A) -> Option<int>
    decreases s.len(),
{
    if s.len() == 0 {
        None
    } else if s[0] == x {
        Some(0)
    } else {
        match place_of(s.drop_first(), x) {
            Some(i) => Some(i + 1),
            None => None,
        }
    }
}

/// `place_of` finds a value where it stands first, and finds nothing exactly
/// where it does not stand at all.
pub proof fn place_of_is_first<A>(s: Seq<A>, x: A)
    ensures
        match place_of(s, x) {
            Some(i) => {
                &&& 0 <= i < s.len()
                &&& s[i] == x
                &&& forall|j: int| 0 <= j < i ==> s[j] != x
            },
            None => !s.contains(x),
        },
    decreases s.len(),
{
    if s.len() > 0 && s[0] != x {
        let rest = s.drop_first();
        place_of_is_first(rest, x);
        match place_of(rest, x) {
            Some(i) => {
                assert(s[i + 1] == rest[i]);
                assert forall|j: int| 0 <= j < i + 1 implies s[j] != x by {
                    if j > 0 {
                        assert(s[j] == rest[j - 1]);
                    }
                }
            },
            None => {
                assert forall|j: int| 0 <= j < s.len() implies s[j] != x by {
                    if j > 0 {
                        assert(s[j] == rest[j - 1]);
                    }
                }
            },
        }
    }
}

/// A value is placed where it stands first.
pub proof fn first_is_place_of<A>(s: Seq<A>, i: int)
    requires
        0 <= i < s.len(),
        forall|j: int| 0 <= j < i ==> s[j] != s[i],
    ensures
        place_of(s, s[i]) == Some(i),
{
    place_of_is_first(s, s[i]);
    assert(s.contains(s[i]));
}

/// Where the elements that a filter keeps stand in the list: at rising places,
/// and at every one that holds an element to keep.
pub proof fn filter_places<A>(s: Seq<A>, keep: spec_fn(A) -> bool) -> (at: Seq<int>)
    ensures
        at.len() == s.filter(keep).len(),
        forall|k: int|
            0 <= k < at.len() ==> 0 <= #[trigger] at[k] < s.len() && keep(s[at[k]]) && s.filter(
                keep,
            )[k] == s[at[k]],
        forall|k: int, l: int| 0 <= k < l < at.len() ==> #[trigger] at[k] < #[trigger] at[l],
        forall|i: int| 0 <= i < s.len() && keep(#[trigger] s[i]) ==> at.contains(i),
    decreases s.len(),
{
    reveal(Seq::filter);
    if s.len() == 0 {
        Seq::empty()
    } else {
        let less = s.drop_last();
        let before = filter_places(less, keep);
        let last = s.len() - 1;
        let at = if keep(s.last()) {
            before.push(last)
        } else {
            before
        };
        assert forall|k: int| 0 <= k < at.len() implies 0 <= #[trigger] at[k] < s.len() && keep(
            s[at[k]],
        ) && s.filter(keep)[k] == s[at[k]] by {
            if k < before.len() {
                assert(at[k] == before[k]);
                assert(s[at[k]] == less[before[k]]);
            }
        }
        assert forall|i: int| 0 <= i < s.len() && keep(#[trigger] s[i]) implies at.contains(i) by {
            if i < last {
                assert(less[i] == s[i]);
                assert(before.contains(i));
                let k = choose|k: int| 0 <= k < before.len() && before[k] == i;
                assert(at[k] == i);
            } else {
                assert(at[before.len() as int] == i);
            }
        }
        at
    }
}

} // verus!
