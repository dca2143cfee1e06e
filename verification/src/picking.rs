//! Parts picked from a list: which positions, in the order of the list.

use vstd::prelude::*;

verus! {

/// The positions are those of a list of length `n` that are to be kept, each once
/// and in order.
pub open spec fn picks(positions: Seq<int>, n: nat, keep: spec_fn(int) -> bool) -> bool {
    &&& forall|k: int| 0 <= k < positions.len() ==> 0 <= #[trigger] positions[k] < n && keep(
        positions[k],
    )
    &&& forall|k: int, l: int|
        0 <= k < l < positions.len() ==> #[trigger] positions[k] < #[trigger] positions[l]
    &&& forall|i: int| 0 <= i < n && #[trigger] keep(i) ==> positions.contains(i)
}

/// A position added behind the others, if it is to be kept.
pub proof fn picks_grow(positions: Seq<int>, n: nat, keep: spec_fn(int) -> bool)
    requires
        picks(positions, n, keep),
    ensures
        picks(
            if keep(n as int) {
                positions.push(n as int)
            } else {
                positions
            },
            n + 1,
            keep,
        ),
{
    let more = if keep(n as int) {
        positions.push(n as int)
    } else {
        positions
    };
    assert forall|i: int| 0 <= i < n + 1 && #[trigger] keep(i) implies more.contains(i) by {
        if i < n {
            assert(positions.contains(i));
            let k = choose|k: int| 0 <= k < positions.len() && positions[k] == i;
            assert(more[k] == i);
        } else {
            assert(more[positions.len() as int] == i);
        }
    }
}

/// What is to be kept up to `n` may be said in another way.
pub proof fn picks_agree(
    positions: Seq<int>,
    n: nat,
    keep: spec_fn(int) -> bool,
    other: spec_fn(int) -> bool,
)
    requires
        picks(positions, n, keep),
        forall|i: int| 0 <= i < n ==> #[trigger] keep(i) == other(i),
    ensures
        picks(positions, n, other),
{
    assert forall|k: int| 0 <= k < positions.len() implies 0 <= #[trigger] positions[k] < n
        && other(positions[k]) by {
        assert(keep(positions[k]));
    }
    assert forall|i: int| 0 <= i < n && #[trigger] other(i) implies positions.contains(i) by {
        assert(keep(i));
    }
}

} // verus!
