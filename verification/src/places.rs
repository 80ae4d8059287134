//! Counting the positions at which something holds.

use vstd::prelude::*;

verus! {

/// The positions below `n` at which something holds.
pub open spec fn places(n: nat, holds: spec_fn(int) -> bool) -> Set<int> {
    Set::new(|i: int| 0 <= i < n && holds(i))
}

/// There is no position below zero.
pub proof fn no_place_below_zero(holds: spec_fn(int) -> bool)
    ensures
        places(0, holds).finite(),
        places(0, holds).len() == 0,
{
    assert(places(0, holds) =~= Set::empty());
}

/// One more position counts where something holds at it.
pub proof fn next_place_counts(n: nat, holds: spec_fn(int) -> bool)
    ensures
        places(n, holds).finite(),
        places(n + 1, holds).finite(),
        places(n + 1, holds).len() == places(n, holds).len() + if holds(n as int) {
            1nat
        } else {
            0
        },
{
    places_are_finite(n, holds);
    let s = places(n, holds);
    if holds(n as int) {
        assert(places(n + 1, holds) =~= s.insert(n as int));
    } else {
        assert(places(n + 1, holds) =~= s);
    }
}

/// There are at most `n` positions below `n`.
pub proof fn places_are_finite(n: nat, holds: spec_fn(int) -> bool)
    ensures
        places(n, holds).finite(),
        places(n, holds).len() <= n,
    decreases n,
{
    if n == 0 {
        no_place_below_zero(holds);
    } else {
        let m = (n - 1) as nat;
        places_are_finite(m, holds);
        let s = places(m, holds);
        if holds(m as int) {
            assert(places(n, holds) =~= s.insert(m as int));
        } else {
            assert(places(n, holds) =~= s);
        }
    }
}

/// What holds wherever another thing holds, holds at no fewer positions.
pub proof fn wider_holds_more_often(
    n: nat,
    holds: spec_fn(int) -> bool,
    wider: spec_fn(int) -> bool,
)
    requires
        forall|i: int| 0 <= i < n && #[trigger] holds(i) ==> wider(i),
    ensures
        places(n, holds).len() <= places(n, wider).len(),
{
    places_are_finite(n, wider);
    vstd::set_lib::lemma_len_subset(places(n, holds), places(n, wider));
}

/// Things that hold at the same positions have the same places.
pub proof fn same_places(n: nat, f: spec_fn(int) -> bool, g: spec_fn(int) -> bool)
    requires
        forall|i: int| 0 <= i < n ==> #[trigger] f(i) == g(i),
    ensures
        places(n, f) == places(n, g),
{
    assert(places(n, f) =~= places(n, g));
}

} // verus!
