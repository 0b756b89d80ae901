//! Arrays that a specification builds lane by lane.

use vstd::array::spec_array_update;
use vstd::prelude::*;

verus! {

/// `base` with its first `n` lanes replaced by what `lane` gives for them.
pub open spec fn lanes_filled<T, const N: usize>(
    base: [T; N],
    lane: spec_fn(int) -> T,
    n: nat,
) -> [T; N]
    decreases n,
{
    if n == 0 {
        base
    } else {
        spec_array_update(lanes_filled(base, lane, (n - 1) as nat), n - 1, lane(n - 1))
    }
}

/// The array whose lane `i` holds `lane(i)`.
pub open spec fn lanes_from<T, const N: usize>(lane: spec_fn(int) -> T) -> [T; N] {
    lanes_filled(arbitrary(), lane, N as nat)
}

/// The first `n` lanes of `lanes_filled` hold what `lane` gives, the others
/// what `base` held.
pub proof fn lemma_lanes_filled<T, const N: usize>(base: [T; N], lane: spec_fn(int) -> T, n: nat)
    requires
        n <= N,
    ensures
        forall|i: int| 0 <= i < n ==> #[trigger] lanes_filled(base, lane, n)[i] == lane(i),
        forall|i: int| n <= i < N ==> #[trigger] lanes_filled(base, lane, n)[i] == base[i],
    decreases n,
{
    if n > 0 {
        let before = lanes_filled(base, lane, (n - 1) as nat);
        lemma_lanes_filled(base, lane, (n - 1) as nat);
        assert(lanes_filled(base, lane, n)@ == before@.update(n - 1, lane(n - 1)));
        assert forall|i: int| 0 <= i < n implies #[trigger] lanes_filled(base, lane, n)[i]
            == lane(i) by {
            if i < n - 1 {
                assert(before[i] == lane(i));
            }
        }
        assert forall|i: int| n <= i < N implies #[trigger] lanes_filled(base, lane, n)[i]
            == base[i] by {
            assert(before[i] == base[i]);
        }
    }
}

/// Every lane of `lanes_from(lane)` holds what `lane` gives for it.
pub proof fn lemma_lanes_from<T, const N: usize>(lane: spec_fn(int) -> T)
    ensures
        forall|i: int| 0 <= i < N ==> #[trigger] lanes_from::<T, N>(lane)[i] == lane(i),
{
    lemma_lanes_filled::<T, N>(arbitrary(), lane, N as nat);
}

/// An array is the array built from its own lanes.
pub proof fn lemma_lanes_of_array<T, const N: usize>(array: [T; N], lane: spec_fn(int) -> T)
    requires
        forall|i: int| 0 <= i < N ==> array[i] == #[trigger] lane(i),
    ensures
        array == lanes_from::<T, N>(lane),
{
    lemma_lanes_from::<T, N>(lane);
    assert(array =~= lanes_from::<T, N>(lane));
}

} // verus!
