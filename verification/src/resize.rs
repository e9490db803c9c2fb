//! The redistribution rule for sibling regions that share one axis of a
//! container: what the sizes become when one region is dragged to a
//! requested size under a common floor.
//!
//! The rule is greedy and local. A region that grows takes the space from
//! the regions after it, nearest first, each down to the floor. A region
//! that shrinks hands the space to its right neighbour; a request below the
//! floor pulls the regions before it along, nearest first, each down to the
//! floor. If the total then exceeds the container, the dragged region gives
//! the excess back, down to the floor.

use vstd::prelude::*;

verus! {

/// The floor below which no region is shrunk, in pixels.
pub const PANEL_MIN_SIZE: i32 = 100;

/// The sizes as mathematical integers.
pub open spec fn px(sizes: Seq<i32>) -> Seq<int> {
    Seq::new(sizes.len(), |k: int| sizes[k] as int)
}

/// The sum of the sizes.
pub open spec fn total(sizes: Seq<int>) -> int
    decreases sizes.len(),
{
    if sizes.len() == 0 {
        0
    } else {
        total(sizes.drop_last()) + sizes.last()
    }
}

/// What a region of `size` can give up without going below `floor`.
pub open spec fn slack(size: int, floor: int) -> int {
    if size > floor {
        size - floor
    } else {
        0
    }
}

/// The slack of the regions `lo..hi` together.
pub open spec fn slack_between(sizes: Seq<int>, lo: int, hi: int, floor: int) -> int
    decreases hi - lo,
{
    if hi <= lo {
        0
    } else {
        slack_between(sizes, lo, hi - 1, floor) + slack(sizes[hi - 1], floor)
    }
}

/// The part of `amount` that falls to a region with slack `own` when the
/// regions asked before it had slack `before` together: what they left
/// uncovered, as far as the region's own slack goes.
pub open spec fn absorbed(amount: int, before: int, own: int) -> int {
    let open_amount = amount - before;
    if open_amount <= 0 {
        0
    } else if open_amount < own {
        open_amount
    } else {
        own
    }
}

/// `v` brought into the range of a pixel value.
pub open spec fn saturate(v: int) -> int {
    if v > i32::MAX {
        i32::MAX as int
    } else if v < i32::MIN {
        i32::MIN as int
    } else {
        v
    }
}

/// `v`, but no less than `floor`.
pub open spec fn at_least(v: int, floor: int) -> int {
    if v < floor {
        floor
    } else {
        v
    }
}

/// Region `ix` grows to `size`: the regions after it absorb the growth,
/// nearest first, each within its slack. The regions before it keep their
/// sizes.
pub open spec fn expanded(sizes: Seq<int>, ix: int, size: int, floor: int) -> Seq<int> {
    Seq::new(
        sizes.len(),
        |k: int|
            if k < ix {
                sizes[k]
            } else if k == ix {
                size
            } else {
                sizes[k] - absorbed(
                    size - sizes[ix],
                    slack_between(sizes, ix + 1, k, floor),
                    slack(sizes[k], floor),
                )
            },
    )
}

/// Region `ix` shrinks to `size`, but not below the floor; what it gives up
/// goes to region `ix + 1`. The part of the request that lies below the floor
/// is taken from the regions before `ix`, nearest first, each within its
/// slack. The regions after `ix + 1` keep their sizes.
pub open spec fn shrunk(sizes: Seq<int>, ix: int, size: int, floor: int) -> Seq<int> {
    Seq::new(
        sizes.len(),
        |k: int|
            if k < ix {
                sizes[k] - absorbed(
                    floor - size,
                    slack_between(sizes, k + 1, ix, floor),
                    slack(sizes[k], floor),
                )
            } else if k == ix {
                at_least(size, floor)
            } else if k == ix + 1 {
                saturate(sizes[k] + sizes[ix] - at_least(size, floor))
            } else {
                sizes[k]
            },
    )
}

/// Where the total exceeds `extent`, region `ix` gives the excess back, but
/// does not go below the floor.
pub open spec fn fitted(sizes: Seq<int>, ix: int, floor: int, extent: int) -> Seq<int> {
    if total(sizes) > extent {
        sizes.update(ix, at_least(sizes[ix] - (total(sizes) - extent), floor))
    } else {
        sizes
    }
}

/// The sizes after region `ix` was dragged to `size`, in a container of
/// `extent`. The last region cannot be dragged: for it, and for an index
/// that names no region, the sizes stay as they are.
pub open spec fn resized(sizes: Seq<int>, ix: int, size: int, floor: int, extent: int) -> Seq<
    int,
> {
    if 0 <= ix && ix + 1 < sizes.len() {
        if size > sizes[ix] {
            fitted(expanded(sizes, ix, size, floor), ix, floor, extent)
        } else {
            fitted(shrunk(sizes, ix, size, floor), ix, floor, extent)
        }
    } else {
        sizes
    }
}

/// The sizes after a series of drags, each given as the region and the size
/// asked for it, applied first to last.
pub open spec fn resized_by(
    sizes: Seq<int>,
    drags: Seq<(int, int)>,
    floor: int,
    extent: int,
) -> Seq<int>
    decreases drags.len(),
{
    if drags.len() == 0 {
        sizes
    } else {
        resized(
            resized_by(sizes, drags.drop_last(), floor, extent),
            drags.last().0,
            drags.last().1,
            floor,
            extent,
        )
    }
}

/// Every region is at the floor or above, and together they fit the
/// container.
pub open spec fn within_bounds(sizes: Seq<int>, floor: int, extent: int) -> bool {
    &&& forall|k: int| 0 <= k < sizes.len() ==> sizes[k] >= floor
    &&& total(sizes) <= extent
}

proof fn lemma_slack_between_bounds(sizes: Seq<int>, lo: int, hi: int, floor: int)
    ensures
        slack_between(sizes, lo, hi, floor) >= 0,
    decreases hi - lo,
{
    if hi > lo {
        lemma_slack_between_bounds(sizes, lo, hi - 1, floor);
    }
}

proof fn lemma_slack_between_grows(sizes: Seq<int>, lo: int, mid: int, hi: int, floor: int)
    requires
        mid <= hi,
    ensures
        slack_between(sizes, lo, mid, floor) <= slack_between(sizes, lo, hi, floor),
    decreases hi - mid,
{
    if mid < hi {
        lemma_slack_between_grows(sizes, lo, mid, hi - 1, floor);
        if hi - 1 < lo {
            lemma_slack_between_bounds(sizes, lo, mid, floor);
        }
    }
}

proof fn lemma_slack_between_front(sizes: Seq<int>, lo: int, hi: int, floor: int)
    requires
        lo < hi,
    ensures
        slack_between(sizes, lo, hi, floor) == slack(sizes[lo], floor) + slack_between(
            sizes,
            lo + 1,
            hi,
            floor,
        ),
    decreases hi - lo,
{
    if lo + 1 < hi {
        lemma_slack_between_front(sizes, lo, hi - 1, floor);
    } else {
        assert(slack_between(sizes, lo, lo, floor) == 0);
        assert(slack_between(sizes, lo + 1, hi, floor) == 0);
    }
}

proof fn lemma_slack_between_shrinks(sizes: Seq<int>, lo: int, mid: int, hi: int, floor: int)
    requires
        lo <= mid,
    ensures
        slack_between(sizes, mid, hi, floor) <= slack_between(sizes, lo, hi, floor),
    decreases mid - lo,
{
    if lo < mid {
        lemma_slack_between_shrinks(sizes, lo + 1, mid, hi, floor);
        if lo < hi {
            lemma_slack_between_front(sizes, lo, hi, floor);
        } else {
            lemma_slack_between_bounds(sizes, lo + 1, hi, floor);
        }
    }
}

proof fn lemma_total_take_step(sizes: Seq<int>, k: int)
    requires
        0 <= k < sizes.len(),
    ensures
        total(sizes.take(k + 1)) == total(sizes.take(k)) + sizes[k],
{
    assert(sizes.take(k + 1).drop_last() =~= sizes.take(k));
}

proof fn lemma_total_update(sizes: Seq<int>, ix: int, v: int)
    requires
        0 <= ix < sizes.len(),
    ensures
        total(sizes.update(ix, v)) == total(sizes) - sizes[ix] + v,
    decreases sizes.len(),
{
    let updated = sizes.update(ix, v);
    if ix == sizes.len() - 1 {
        assert(updated.drop_last() =~= sizes.drop_last());
    } else {
        assert(updated.drop_last() =~= sizes.drop_last().update(ix, v));
        lemma_total_update(sizes.drop_last(), ix, v);
    }
}

/// The total of the first `k` sizes after region `ix` grew by a positive
/// amount: the growth is added, and what the regions `ix + 1 .. k` could
/// cover of it is taken off.
proof fn lemma_expanded_total(sizes: Seq<int>, ix: int, size: int, floor: int, k: int)
    requires
        0 <= ix < sizes.len(),
        size > sizes[ix],
        0 <= k <= sizes.len(),
    ensures
        k <= ix ==> total(expanded(sizes, ix, size, floor).take(k)) == total(sizes.take(k)),
        k > ix ==> total(expanded(sizes, ix, size, floor).take(k)) == total(sizes.take(k)) + (size
            - sizes[ix]) - absorbed(size - sizes[ix], 0, slack_between(sizes, ix + 1, k, floor)),
    decreases k,
{
    let e = expanded(sizes, ix, size, floor);
    if k == 0 {
        assert(e.take(0) =~= sizes.take(0));
    } else {
        lemma_expanded_total(sizes, ix, size, floor, k - 1);
        lemma_total_take_step(e, k - 1);
        lemma_total_take_step(sizes, k - 1);
        lemma_slack_between_bounds(sizes, ix + 1, k - 1, floor);
        if k - 1 == ix {
            assert(slack_between(sizes, ix + 1, k, floor) == 0);
        }
    }
}

/// The total of the first `k` sizes after region `ix` shrank: nothing is
/// added, since the saturation at `ix + 1` can only take away.
proof fn lemma_shrunk_total(sizes: Seq<int>, ix: int, size: int, floor: int, k: int)
    requires
        0 <= ix,
        ix + 1 < sizes.len(),
        size <= sizes[ix],
        floor <= sizes[ix],
        sizes[ix + 1] >= i32::MIN,
        0 <= k <= sizes.len(),
    ensures
        total(shrunk(sizes, ix, size, floor).take(k)) <= total(sizes.take(k)) + (if k == ix + 1 {
            at_least(size, floor) - sizes[ix]
        } else {
            0
        }),
    decreases k,
{
    let s = shrunk(sizes, ix, size, floor);
    if k == 0 {
        assert(s.take(0) =~= sizes.take(0));
    } else {
        lemma_shrunk_total(sizes, ix, size, floor, k - 1);
        lemma_total_take_step(s, k - 1);
        lemma_total_take_step(sizes, k - 1);
    }
}

/// One drag keeps the bounds: if every region is at the floor or above and
/// the regions fit the container, the same holds after any region was
/// dragged to any size.
pub proof fn lemma_resized_within_bounds(
    sizes: Seq<int>,
    ix: int,
    size: int,
    floor: int,
    extent: int,
)
    requires
        within_bounds(sizes, floor, extent),
        i32::MIN <= floor <= i32::MAX,
    ensures
        resized(sizes, ix, size, floor, extent).len() == sizes.len(),
        within_bounds(resized(sizes, ix, size, floor, extent), floor, extent),
{
    let n = sizes.len() as int;
    if 0 <= ix && ix + 1 < n {
        assert(sizes.take(n) =~= sizes);
        if size > sizes[ix] {
            let e = expanded(sizes, ix, size, floor);
            lemma_expanded_total(sizes, ix, size, floor, n);
            assert(e.take(n) =~= e);
            lemma_slack_between_bounds(sizes, ix + 1, n, floor);
            if total(e) > extent {
                lemma_total_update(e, ix, at_least(e[ix] - (total(e) - extent), floor));
            }
        } else {
            let s = shrunk(sizes, ix, size, floor);
            lemma_shrunk_total(sizes, ix, size, floor, n);
            assert(s.take(n) =~= s);
            if total(s) > extent {
                lemma_total_update(s, ix, at_least(s[ix] - (total(s) - extent), floor));
            }
        }
    }
}

/// Any series of drags keeps the bounds: from sizes that are at the floor or
/// above and fit the container, every region stays at the floor or above and
/// the regions still fit, whatever was dragged and however often.
pub proof fn lemma_resized_by_within_bounds(
    sizes: Seq<int>,
    drags: Seq<(int, int)>,
    floor: int,
    extent: int,
)
    requires
        within_bounds(sizes, floor, extent),
        i32::MIN <= floor <= i32::MAX,
    ensures
        resized_by(sizes, drags, floor, extent).len() == sizes.len(),
        within_bounds(resized_by(sizes, drags, floor, extent), floor, extent),
    decreases drags.len(),
{
    if drags.len() > 0 {
        lemma_resized_by_within_bounds(sizes, drags.drop_last(), floor, extent);
        lemma_resized_within_bounds(
            resized_by(sizes, drags.drop_last(), floor, extent),
            drags.last().0,
            drags.last().1,
            floor,
            extent,
        );
    }
}


/// A region that grows by no more than the regions after it can give gets
/// the size asked for, and the total stays as it is.
proof fn lemma_grown_tracks_pointer(sizes: Seq<int>, ix: int, size: int, floor: int, extent: int)
    requires
        within_bounds(sizes, floor, extent),
        0 <= ix,
        ix + 1 < sizes.len(),
        size > sizes[ix],
        size - sizes[ix] <= slack_between(sizes, ix + 1, sizes.len() as int, floor),
    ensures
        total(expanded(sizes, ix, size, floor)) == total(sizes),
        resized(sizes, ix, size, floor, extent) == expanded(sizes, ix, size, floor),
{
    let n = sizes.len() as int;
    let grown = expanded(sizes, ix, size, floor);
    let growth = size - sizes[ix];
    let given = absorbed(growth, 0, slack_between(sizes, ix + 1, n, floor));
    lemma_expanded_total(sizes, ix, size, floor, n);
    assert(sizes.take(n) =~= sizes);
    assert(grown.take(n) =~= grown);
    assert(total(grown) == total(sizes) + growth - given);
    assert(given == growth);
    assert(fitted(grown, ix, floor, extent) == grown);
}

/// A region that shrinks to no less than the floor gets the size asked
/// for; its right neighbour takes what it gives up, the other regions keep
/// their sizes, and the total stays as it is.
proof fn lemma_shrunk_tracks_pointer(sizes: Seq<int>, ix: int, size: int, floor: int, extent: int)
    requires
        within_bounds(sizes, floor, extent),
        0 <= ix,
        ix + 1 < sizes.len(),
        floor <= size <= sizes[ix],
        sizes[ix + 1] + sizes[ix] - size <= i32::MAX,
        i32::MIN <= floor,
    ensures
        shrunk(sizes, ix, size, floor) == sizes.update(ix, size).update(
            ix + 1,
            sizes[ix + 1] + sizes[ix] - size,
        ),
        total(shrunk(sizes, ix, size, floor)) == total(sizes),
        resized(sizes, ix, size, floor, extent) == shrunk(sizes, ix, size, floor),
{
    let moved = shrunk(sizes, ix, size, floor);
    let shrunk_only = sizes.update(ix, size);
    let handed_over = shrunk_only.update(ix + 1, sizes[ix + 1] + sizes[ix] - size);
    assert forall|k: int| 0 <= k < ix implies moved[k] == sizes[k] by {
        lemma_slack_between_bounds(sizes, k + 1, ix, floor);
    }
    assert(moved[ix] == size);
    assert(moved[ix + 1] == sizes[ix + 1] + sizes[ix] - size);
    assert(moved =~= handed_over);
    lemma_total_update(sizes, ix, size);
    assert(total(shrunk_only) == total(sizes) - sizes[ix] + size);
    lemma_total_update(shrunk_only, ix + 1, sizes[ix + 1] + sizes[ix] - size);
    assert(total(handed_over) == total(sizes));
    assert(fitted(moved, ix, floor, extent) == moved);
}

/// The dragged edge follows the pointer as long as no floor is hit. From
/// sizes within bounds, a region that is asked to grow by no more than the
/// regions after it can give gets exactly the size asked for, and a region
/// that is asked to shrink to no less than the floor gets it too, its right
/// neighbour taking what it gives up. In both cases the total stays as it
/// is, and the regions before the dragged one keep their sizes.
pub proof fn lemma_resized_tracks_pointer(
    sizes: Seq<int>,
    ix: int,
    size: int,
    floor: int,
    extent: int,
)
    requires
        within_bounds(sizes, floor, extent),
        0 <= ix,
        ix + 1 < sizes.len(),
        floor <= size,
        size - sizes[ix] <= slack_between(sizes, ix + 1, sizes.len() as int, floor),
        sizes[ix + 1] + sizes[ix] - size <= i32::MAX,
        i32::MIN <= floor,
    ensures
        resized(sizes, ix, size, floor, extent)[ix] == size,
        total(resized(sizes, ix, size, floor, extent)) == total(sizes),
        forall|k: int| 0 <= k < ix ==> resized(sizes, ix, size, floor, extent)[k] == sizes[k],
        size <= sizes[ix] ==> resized(sizes, ix, size, floor, extent) == sizes.update(
            ix,
            size,
        ).update(ix + 1, sizes[ix + 1] + sizes[ix] - size),
{
    if size > sizes[ix] {
        lemma_grown_tracks_pointer(sizes, ix, size, floor, extent);
    } else {
        lemma_shrunk_tracks_pointer(sizes, ix, size, floor, extent);
    }
}

/// The sum of the sizes, wide enough for any number of regions.
pub fn sum_sizes(sizes: &Vec<i32>) -> (r: i128)
    ensures
        r == total(px(sizes@)),
        -sizes.len() * 0x8000_0000 <= r <= sizes.len() * 0x8000_0000,
{
    let mut acc: i128 = 0;
    let mut i: usize = 0;
    while i < sizes.len()
        invariant
            i <= sizes.len(),
            acc == total(px(sizes@).take(i as int)),
            -(i as int) * 0x8000_0000 <= acc <= (i as int) * 0x8000_0000,
        decreases sizes.len() - i,
    {
        proof {
            lemma_total_take_step(px(sizes@), i as int);
        }
        acc = acc + sizes[i] as i128;
        i = i + 1;
    }
    proof {
        assert(px(sizes@).take(sizes.len() as int) =~= px(sizes@));
    }
    acc
}

/// Computes [`resized`]: the sizes after region `ix` was dragged to `size`,
/// with `floor` for every region and a container of `extent`.
pub fn redistribute(sizes: &Vec<i32>, ix: usize, size: i32, floor: i32, extent: i32) -> (r: Vec<
    i32,
>)
    ensures
        px(r@) == resized(px(sizes@), ix as int, size as int, floor as int, extent as int),
{
    let n = sizes.len();
    let mut new_sizes = sizes.clone();
    let ghost s = px(sizes@);
    assert(px(new_sizes@) =~= s);
    if n < 2 || ix >= n - 1 {
        return new_sizes;
    }
    let old_size = sizes[ix];
    if size > old_size {
        let ghost goal = expanded(s, ix as int, size as int, floor as int);
        new_sizes.set(ix, size);
        let mut remaining: i64 = size as i64 - old_size as i64;
        let mut j: usize = ix + 1;
        while remaining > 0 && j < n
            invariant
                n == sizes.len(),
                new_sizes.len() == n,
                s == px(sizes@),
                goal == expanded(s, ix as int, size as int, floor as int),
                ix < j <= n,
                size > sizes[ix as int],
                remaining == at_least(
                    size - sizes[ix as int] - slack_between(s, ix + 1, j as int, floor as int),
                    0,
                ),
                forall|k: int| 0 <= k < j ==> new_sizes[k] == #[trigger] goal[k],
                forall|k: int| j <= k < n ==> new_sizes[k] == #[trigger] sizes[k],
            decreases n - j,
        {
            let current = new_sizes[j];
            let available: i64 = if current > floor {
                current as i64 - floor as i64
            } else {
                0
            };
            let to_reduce: i64 = if remaining < available {
                remaining
            } else {
                available
            };
            proof {
                lemma_slack_between_bounds(s, ix + 1, j as int, floor as int);
            }
            new_sizes.set(j, (current as i64 - to_reduce) as i32);
            remaining = remaining - to_reduce;
            j = j + 1;
        }
        proof {
            assert forall|k: int| 0 <= k < n implies new_sizes[k] == goal[k] by {
                if k >= j {
                    lemma_slack_between_grows(s, ix + 1, j as int, k, floor as int);
                }
            }
            assert(px(new_sizes@) =~= goal);
        }
    } else {
        let ghost goal = shrunk(s, ix as int, size as int, floor as int);
        let new_size: i32 = if size > floor {
            size
        } else {
            floor
        };
        let grown: i64 = sizes[ix + 1] as i64 + old_size as i64 - new_size as i64;
        let neighbour: i32 = if grown > i32::MAX as i64 {
            i32::MAX
        } else if grown < i32::MIN as i64 {
            i32::MIN
        } else {
            grown as i32
        };
        new_sizes.set(ix, new_size);
        new_sizes.set(ix + 1, neighbour);
        let mut remaining: i64 = floor as i64 - size as i64;
        let mut j: usize = ix;
        while remaining > 0 && j > 0
            invariant
                n == sizes.len(),
                new_sizes.len() == n,
                s == px(sizes@),
                goal == shrunk(s, ix as int, size as int, floor as int),
                j <= ix,
                ix + 1 < n,
                remaining <= floor - size,
                remaining > 0 ==> remaining == floor - size - slack_between(
                    s,
                    j as int,
                    ix as int,
                    floor as int,
                ),
                remaining <= 0 ==> floor - size <= slack_between(
                    s,
                    j as int,
                    ix as int,
                    floor as int,
                ),
                forall|k: int| j <= k < n ==> new_sizes[k] == #[trigger] goal[k],
                forall|k: int| 0 <= k < j ==> new_sizes[k] == #[trigger] sizes[k],
            decreases j,
        {
            j = j - 1;
            let current = sizes[j];
            let available: i64 = if current > floor {
                current as i64 - floor as i64
            } else {
                0
            };
            let to_reduce: i64 = if remaining < available {
                remaining
            } else {
                available
            };
            proof {
                lemma_slack_between_front(s, j as int, ix as int, floor as int);
                lemma_slack_between_bounds(s, j + 1, ix as int, floor as int);
            }
            new_sizes.set(j, (current as i64 - to_reduce) as i32);
            remaining = remaining - to_reduce;
        }
        proof {
            assert forall|k: int| 0 <= k < n implies new_sizes[k] == goal[k] by {
                if k < j {
                    lemma_slack_between_shrinks(s, k + 1, j as int, ix as int, floor as int);
                }
            }
            assert(px(new_sizes@) =~= goal);
        }
    }
    let total_size = sum_sizes(&new_sizes);
    if total_size > extent as i128 {
        let reduced: i128 = new_sizes[ix] as i128 - (total_size - extent as i128);
        let fitted_size: i32 = if reduced < floor as i128 {
            floor
        } else {
            reduced as i32
        };
        let ghost before = px(new_sizes@);
        new_sizes.set(ix, fitted_size);
        assert(px(new_sizes@) =~= before.update(ix as int, fitted_size as int));
    }
    new_sizes
}

} // verus!
