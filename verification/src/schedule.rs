//! The threshold scheduler: the similarity threshold of each layer, derived
//! from the threshold of the first.

use vstd::prelude::*;

verus! {

/// No layer asks for more similarity than this (0.95).
pub const CEILING: i64 = 950_000;

/// The smallest remaining gap below the ceiling that is still worth a layer
/// of its own (0.03).
pub const MIN_GAP: i64 = 30_000;

/// How far the threshold rises from `current` to the next layer: wide steps
/// while there is room, narrow ones close to the ceiling.
pub open spec fn increment_for(current: int) -> int {
    if current < 650_000 {
        100_000
    } else if current < 750_000 {
        70_000
    } else if current < 850_000 {
        50_000
    } else {
        30_000
    }
}

/// The thresholds that follow `current`, at most `room` of them.
pub open spec fn ladder_tail(current: int, room: nat) -> Seq<int>
    decreases room,
{
    if room == 0 || current >= CEILING {
        Seq::empty()
    } else {
        let next = current + increment_for(current);
        if next > CEILING {
            if CEILING - current >= MIN_GAP {
                seq![CEILING as int]
            } else {
                Seq::empty()
            }
        } else {
            seq![next] + ladder_tail(next, (room - 1) as nat)
        }
    }
}

/// The threshold of every layer, the first layer's first.
pub open spec fn ladder(first: int, max_depth: nat) -> Seq<int> {
    seq![first] + ladder_tail(first, if max_depth >= 1 { (max_depth - 1) as nat } else { 0 })
}

/// What holds of the thresholds after `current`: there are at most `room`
/// of them, each lies above `current` and none above the ceiling, and each
/// is the one before it raised by that one's increment.
pub proof fn lemma_ladder_tail(current: int, room: nat)
    ensures
        ladder_tail(current, room).len() <= room,
        forall|i: int|
            0 <= i < ladder_tail(current, room).len() ==> current < #[trigger] ladder_tail(
                current,
                room,
            )[i] <= CEILING,
        forall|i: int, j: int|
            0 <= i < j < ladder_tail(current, room).len() ==> ladder_tail(current, room)[i]
                < ladder_tail(current, room)[j],
        ladder_tail(current, room).len() > 0 ==> ladder_tail(current, room)[0] == current
            + increment_for(current),
        forall|i: int|
            0 <= i < ladder_tail(current, room).len() - 1 ==> #[trigger] ladder_tail(
                current,
                room,
            )[i + 1] == ladder_tail(current, room)[i] + increment_for(
                ladder_tail(current, room)[i],
            ),
    decreases room,
{
    if room == 0 || current >= CEILING {
    } else {
        let next = current + increment_for(current);
        if next <= CEILING {
            lemma_ladder_tail(next, (room - 1) as nat);
            let rest = ladder_tail(next, (room - 1) as nat);
            let tail = ladder_tail(current, room);
            assert(tail =~= seq![next] + rest);
            assert forall|i: int| 0 <= i < tail.len() - 1 implies #[trigger] tail[i + 1] == tail[i]
                + increment_for(tail[i]) by {
                if i > 0 {
                    assert(tail[i + 1] == rest[(i - 1) + 1]);
                }
            }
        }
    }
}

/// The law of the threshold scheduler. The first threshold is the one
/// asked for; thresholds rise strictly, each by the increment that belongs
/// to the one before it; none beyond the first exceeds the ceiling, so none
/// at all does where the first does not; and there are no more thresholds
/// than `max_depth`, provided `max_depth` allows the first layer.
pub proof fn lemma_ladder(first: int, max_depth: nat)
    ensures
        ladder(first, max_depth).len() >= 1,
        ladder(first, max_depth)[0] == first,
        max_depth >= 1 ==> ladder(first, max_depth).len() <= max_depth,
        forall|i: int, j: int|
            0 <= i < j < ladder(first, max_depth).len() ==> ladder(first, max_depth)[i] < ladder(
                first,
                max_depth,
            )[j],
        forall|i: int|
            1 <= i < ladder(first, max_depth).len() ==> #[trigger] ladder(first, max_depth)[i]
                <= CEILING,
        first <= CEILING ==> forall|i: int|
            0 <= i < ladder(first, max_depth).len() ==> #[trigger] ladder(first, max_depth)[i]
                <= CEILING,
        forall|i: int|
            0 <= i < ladder(first, max_depth).len() - 1 ==> #[trigger] ladder(first, max_depth)[i
                + 1] == ladder(first, max_depth)[i] + increment_for(ladder(first, max_depth)[i]),
{
    let room: nat = if max_depth >= 1 {
        (max_depth - 1) as nat
    } else {
        0
    };
    lemma_ladder_tail(first, room);
    let tail = ladder_tail(first, room);
    let all = ladder(first, max_depth);
    assert(all =~= seq![first] + tail);
    assert forall|i: int, j: int| 0 <= i < j < all.len() implies all[i] < all[j] by {
        assert(all[j] == tail[j - 1]);
        if i > 0 {
            assert(all[i] == tail[i - 1]);
        }
    }
    assert forall|i: int| 1 <= i < all.len() implies #[trigger] all[i] <= CEILING by {
        assert(all[i] == tail[i - 1]);
    }
    assert forall|i: int| 0 <= i < all.len() - 1 implies #[trigger] all[i + 1] == all[i]
        + increment_for(all[i]) by {
        assert(all[i + 1] == tail[i]);
        if i > 0 {
            assert(all[i] == tail[i - 1]);
            assert(tail[(i - 1) + 1] == tail[i - 1] + increment_for(tail[i - 1]));
        }
    }
}

/// A first threshold of 0.93 or more leaves room for at most one further
/// layer, whatever depth is allowed.
pub proof fn lemma_ladder_near_ceiling(first: int, max_depth: nat)
    requires
        first >= 930_000,
    ensures
        ladder(first, max_depth).len() <= 2,
{
    let room: nat = if max_depth >= 1 {
        (max_depth - 1) as nat
    } else {
        0
    };
    if room > 0 && first < CEILING {
        let next = first + increment_for(first);
        assert(next > CEILING);
    }
}

/// A sequence of machine integers read as mathematical integers.
pub open spec fn ints(s: Seq<i64>) -> Seq<int> {
    s.map_values(|x: i64| x as int)
}

/// Limits and switches of one expansion search.
#[derive(Debug, Clone, Copy)]
pub struct TreeSearchConfig {
    /// Threshold of the first layer, in millionths.
    pub first_threshold: i64,
    /// Hard upper bound on the number of layers.
    pub max_depth: usize,
    /// Budget of accepted nodes over the whole search.
    pub max_nodes: usize,
    /// How many candidates one branch may contribute.
    pub branch_limit: usize,
    /// Whether a node beyond the first layer must share a tag with the
    /// memory it was reached from.
    pub require_tag_overlap: bool,
}

impl Default for TreeSearchConfig {
    fn default() -> (config: Self)
        ensures
            config == (TreeSearchConfig {
                first_threshold: 600_000,
                max_depth: 5,
                max_nodes: 100,
                branch_limit: 5,
                require_tag_overlap: true,
            }),
    {
        TreeSearchConfig {
            first_threshold: 600_000,
            max_depth: 5,
            max_nodes: 100,
            branch_limit: 5,
            require_tag_overlap: true,
        }
    }
}

impl TreeSearchConfig {
    /// The default configuration with its first threshold and node budget
    /// replaced.
    pub fn new(first_threshold: i64, max_nodes: usize) -> (config: Self)
        ensures
            config == (TreeSearchConfig {
                first_threshold,
                max_depth: 5,
                max_nodes,
                branch_limit: 5,
                require_tag_overlap: true,
            }),
    {
        TreeSearchConfig {
            first_threshold,
            max_depth: 5,
            max_nodes,
            branch_limit: 5,
            require_tag_overlap: true,
        }
    }

    /// The thresholds of this configuration as mathematical integers.
    pub open spec fn thresholds(&self) -> Seq<int> {
        ladder(self.first_threshold as int, self.max_depth as nat)
    }

    /// Computes the threshold of every layer: the first threshold, then
    /// each threshold raised by its increment for as long as the result
    /// stays at or under the ceiling and the depth allows another layer.
    pub fn generate_thresholds(&self) -> (thresholds: Vec<i64>)
        ensures
            ints(thresholds@) == self.thresholds(),
            thresholds@.len() >= 1,
            thresholds@[0] == self.first_threshold,
            self.max_depth >= 1 ==> thresholds@.len() <= self.max_depth,
            forall|i: int, j: int| 0 <= i < j < thresholds@.len() ==> thresholds@[i] < thresholds@[j],
            self.first_threshold <= CEILING ==> forall|i: int|
                0 <= i < thresholds@.len() ==> thresholds@[i] <= CEILING,
    {
        let mut thresholds: Vec<i64> = Vec::new();
        thresholds.push(self.first_threshold);
        let mut current: i64 = self.first_threshold;
        let ghost first = self.first_threshold as int;
        let ghost room: nat = if self.max_depth >= 1 { (self.max_depth - 1) as nat } else { 0 };
        assert(ints(thresholds@) =~= seq![first]);
        while thresholds.len() < self.max_depth && current < CEILING
            invariant
                1 <= thresholds.len(),
                thresholds.len() <= self.max_depth || thresholds.len() == 1,
                room == if self.max_depth >= 1 { (self.max_depth - 1) as nat } else { 0 },
                ints(thresholds@) + ladder_tail(
                    current as int,
                    (room + 1 - thresholds.len()) as nat,
                ) == ladder(first, self.max_depth as nat),
            ensures
                ints(thresholds@) == ladder(first, self.max_depth as nat),
            decreases self.max_depth - thresholds.len(),
        {
            let increment = self.calculate_increment(current);
            let next: i64 = current + increment;
            let ghost before = ints(thresholds@);
            let ghost left = (room + 1 - thresholds.len()) as nat;
            if next > CEILING {
                if CEILING - current >= MIN_GAP {
                    thresholds.push(CEILING);
                    assert(ints(thresholds@) =~= before + seq![CEILING as int]);
                }
                assert(ints(thresholds@) =~= before + ladder_tail(current as int, left));
                break ;
            }
            thresholds.push(next);
            assert(ints(thresholds@) =~= before + seq![next as int]);
            assert(before + (seq![next as int] + ladder_tail(next as int, (left - 1) as nat))
                =~= ints(thresholds@) + ladder_tail(next as int, (left - 1) as nat));
            current = next;
        }
        proof {
            lemma_ladder(first, self.max_depth as nat);
            assert(thresholds@.len() == ints(thresholds@).len());
            assert forall|i: int| 0 <= i < thresholds@.len() implies thresholds@[i] as int
                == ladder(first, self.max_depth as nat)[i] by {
                assert(ints(thresholds@)[i] == thresholds@[i] as int);
            }
        }
        thresholds
    }

    /// The step from `current_threshold` to the next layer's threshold.
    fn calculate_increment(&self, current_threshold: i64) -> (increment: i64)
        ensures
            increment == increment_for(current_threshold as int),
    {
        if current_threshold < 650_000 {
            100_000
        } else if current_threshold < 750_000 {
            70_000
        } else if current_threshold < 850_000 {
            50_000
        } else {
            30_000
        }
    }
}

} // verus!
