//! Motion classes of a burst and the choice of frames to merge.
//!
//! Frames are ranked by a sharpness score; here a score stands as an integer
//! key in the same order (a larger key for a sharper frame).
use vstd::prelude::*;

verus! {

/// How far the camera moved across the burst.
#[derive(Debug, Clone, Copy, PartialEq, Eq, Structural)]
pub enum MotionClass {
    /// Under 2 px: all frames, weighted by sharpness.
    Low,
    /// 2–8 px: the three sharpest frames.
    Medium,
    /// Over 8 px: the single sharpest frame.
    High,
}

/// The name of each class.
pub open spec fn spec_motion_name(m: MotionClass) -> Seq<char> {
    match m {
        MotionClass::Low => "low"@,
        MotionClass::Medium => "medium"@,
        MotionClass::High => "high"@,
    }
}

impl MotionClass {
    pub fn as_str(&self) -> (name: &'static str)
        ensures
            name@ == spec_motion_name(*self),
    {
        match self {
            MotionClass::Low => "low",
            MotionClass::Medium => "medium",
            MotionClass::High => "high",
        }
    }
}

/// Frame `j` comes before frame `i` in the ranking: it is sharper, or as sharp
/// and earlier in the burst.
pub open spec fn outranks(keys: Seq<u32>, j: int, i: int) -> bool {
    keys[j] > keys[i] || (keys[j] == keys[i] && j < i)
}

/// The number of frames among the first `n` that outrank frame `i`.
pub open spec fn rank_below(keys: Seq<u32>, i: int, n: int) -> nat
    decreases n,
{
    if n <= 0 {
        0
    } else {
        rank_below(keys, i, n - 1) + if outranks(keys, n - 1, i) { 1nat } else { 0nat }
    }
}

/// The position of frame `i` in the ranking (0 for the sharpest).
pub open spec fn rank(keys: Seq<u32>, i: int) -> nat {
    rank_below(keys, i, keys.len() as int)
}

proof fn lemma_rank_below_order(keys: Seq<u32>, i: int, j: int, n: int)
    requires
        0 <= i < keys.len(),
        0 <= j < keys.len(),
        outranks(keys, j, i),
        0 <= n <= keys.len(),
    ensures
        rank_below(keys, i, n) >= rank_below(keys, j, n) + if j < n { 1int } else { 0int },
    decreases n,
{
    if n > 0 {
        lemma_rank_below_order(keys, i, j, n - 1);
        let k = n - 1;
        if outranks(keys, k, j) {
            assert(outranks(keys, k, i));
        }
        if k == j {
            assert(!outranks(keys, j, j));
        }
    }
}

/// A frame that outranks another has a smaller rank.
pub proof fn lemma_rank_respects_order(keys: Seq<u32>, i: int, j: int)
    requires
        0 <= i < keys.len(),
        0 <= j < keys.len(),
        outranks(keys, j, i),
    ensures
        rank(keys, j) < rank(keys, i),
{
    lemma_rank_below_order(keys, i, j, keys.len() as int);
}

/// The frames kept for a burst are the top of the ranking: any frame sharper
/// than a kept one (or as sharp and earlier) is kept too.
pub proof fn lemma_kept_frames_are_the_sharpest(keys: Seq<u32>, count: int, i: int, j: int)
    requires
        0 <= i < keys.len(),
        0 <= j < keys.len(),
        rank(keys, i) < count,
        outranks(keys, j, i),
    ensures
        rank(keys, j) < count,
{
    lemma_rank_respects_order(keys, i, j);
}

/// `i` is the sharpest frame, the last one when several are equally sharp.
pub open spec fn is_last_sharpest(keys: Seq<u32>, i: int) -> bool {
    &&& 0 <= i < keys.len()
    &&& forall|j: int| 0 <= j < keys.len() ==> keys[j] <= keys[i]
    &&& forall|j: int| i < j < keys.len() ==> keys[j] < keys[i]
}

/// The sharpest frame of a non-empty burst (the last of equally sharp ones).
pub fn sharpest_frame(keys: &[u32]) -> (best: usize)
    requires
        keys@.len() >= 1,
    ensures
        is_last_sharpest(keys@, best as int),
{
    let mut best: usize = 0;
    let mut i: usize = 1;
    while i < keys.len()
        invariant
            1 <= i <= keys@.len(),
            best < i,
            forall|j: int| 0 <= j < i ==> keys@[j] <= keys@[best as int],
            forall|j: int| best < j < i ==> keys@[j] < keys@[best as int],
        decreases keys@.len() - i,
    {
        if keys[i] >= keys[best] {
            best = i;
        }
        i = i + 1;
    }
    best
}

fn rank_of(keys: &[u32], i: usize) -> (r: usize)
    requires
        i < keys@.len(),
    ensures
        r == rank(keys@, i as int),
{
    let mut r: usize = 0;
    let mut j: usize = 0;
    while j < keys.len()
        invariant
            j <= keys@.len(),
            i < keys@.len(),
            r == rank_below(keys@, i as int, j as int),
            r <= j,
        decreases keys@.len() - j,
    {
        if keys[j] > keys[i] || (keys[j] == keys[i] && j < i) {
            r = r + 1;
        }
        j = j + 1;
    }
    r
}

/// The frames ranked among the `count` sharpest, in burst order.
pub fn sharpest_frames(keys: &[u32], count: usize) -> (chosen: Vec<usize>)
    ensures
        forall|a: int, b: int| 0 <= a < b < chosen@.len() ==> chosen@[a] < chosen@[b],
        forall|a: int| 0 <= a < chosen@.len() ==> (#[trigger] chosen@[a]) < keys@.len(),
        forall|i: int|
            0 <= i < keys@.len() ==> (chosen@.contains(i as usize) <==> rank(keys@, i) < count),
{
    let mut chosen: Vec<usize> = Vec::new();
    let mut i: usize = 0;
    while i < keys.len()
        invariant
            i <= keys@.len(),
            forall|a: int, b: int| 0 <= a < b < chosen@.len() ==> chosen@[a] < chosen@[b],
            forall|a: int| 0 <= a < chosen@.len() ==> (#[trigger] chosen@[a]) < i,
            forall|k: int| 0 <= k < i ==> (chosen@.contains(k as usize) <==> rank(keys@, k) < count),
        decreases keys@.len() - i,
    {
        let r = rank_of(keys, i);
        let ghost before = chosen@;
        if r < count {
            chosen.push(i);
            proof {
                assert(chosen@ == before.push(i));
                assert(chosen@[chosen@.len() - 1] == i);
                assert forall|k: int| 0 <= k < i + 1 implies (chosen@.contains(k as usize) <==> rank(
                    keys@,
                    k,
                ) < count) by {
                    if k < i {
                        if before.contains(k as usize) {
                            let a = choose|a: int| 0 <= a < before.len() && before[a] == k as usize;
                            assert(chosen@[a] == k as usize);
                        }
                        if chosen@.contains(k as usize) {
                            let a = choose|a: int| 0 <= a < chosen@.len() && chosen@[a] == k as usize;
                            if a < before.len() {
                                assert(before[a] == k as usize);
                            }
                        }
                    }
                }
            }
        } else {
            proof {
                assert forall|k: int| 0 <= k < i + 1 implies (chosen@.contains(k as usize) <==> rank(
                    keys@,
                    k,
                ) < count) by {
                    if k == i {
                        if chosen@.contains(k as usize) {
                            let a = choose|a: int| 0 <= a < chosen@.len() && chosen@[a] == k as usize;
                        }
                    }
                }
            }
        }
        i = i + 1;
    }
    chosen
}


/// The motion class of a burst from its mean displacement: `under_two` when the
/// displacement is below 2 px, `at_most_eight` when it is at most 8 px.
pub fn motion_class(under_two: bool, at_most_eight: bool) -> (m: MotionClass)
    ensures
        m == if under_two {
            MotionClass::Low
        } else if at_most_eight {
            MotionClass::Medium
        } else {
            MotionClass::High
        },
{
    if under_two {
        MotionClass::Low
    } else if at_most_eight {
        MotionClass::Medium
    } else {
        MotionClass::High
    }
}

/// Which frames of a burst make the result.
pub enum BurstChoice {
    /// This frame alone, unmerged.
    Single(usize),
    /// These frames (in burst order), merged.
    Merge(Vec<usize>),
}

/// The frames to use for a motion class: under strong motion the sharpest frame
/// alone (the last of equals), under medium motion the three sharpest, and
/// under little motion every frame that is sharp enough (`sharp_enough`, a
/// threshold on the sharpness scores measured outside).
pub fn choose_burst_frames(motion: MotionClass, keys: &[u32], sharp_enough: &[bool]) -> (c: BurstChoice)
    requires
        keys@.len() >= 1,
        sharp_enough@.len() == keys@.len(),
    ensures
        motion == MotionClass::High ==> (c matches BurstChoice::Single(i) && is_last_sharpest(keys@, i as int)),
        motion == MotionClass::Medium ==> (c matches BurstChoice::Merge(v) && {
            &&& forall|a: int, b: int| 0 <= a < b < v@.len() ==> v@[a] < v@[b]
            &&& forall|a: int| 0 <= a < v@.len() ==> (#[trigger] v@[a]) < keys@.len()
            &&& forall|i: int| 0 <= i < keys@.len() ==> (v@.contains(i as usize) <==> rank(keys@, i) < 3)
        }),
        motion == MotionClass::Low ==> (c matches BurstChoice::Merge(v) && {
            &&& forall|a: int, b: int| 0 <= a < b < v@.len() ==> v@[a] < v@[b]
            &&& forall|a: int| 0 <= a < v@.len() ==> (#[trigger] v@[a]) < keys@.len()
            &&& forall|i: int| 0 <= i < keys@.len() ==> (v@.contains(i as usize) <==> sharp_enough@[i])
        }),
{
    match motion {
        MotionClass::High => BurstChoice::Single(sharpest_frame(keys)),
        MotionClass::Medium => BurstChoice::Merge(sharpest_frames(keys, 3)),
        MotionClass::Low => {
            let mut v: Vec<usize> = Vec::new();
            let mut i: usize = 0;
            while i < sharp_enough.len()
                invariant
                    i <= sharp_enough@.len(),
                    forall|a: int, b: int| 0 <= a < b < v@.len() ==> v@[a] < v@[b],
                    forall|a: int| 0 <= a < v@.len() ==> (#[trigger] v@[a]) < i,
                    forall|j: int| 0 <= j < i ==> (v@.contains(j as usize) <==> sharp_enough@[j]),
                decreases sharp_enough@.len() - i,
            {
                if sharp_enough[i] {
                    proof {
                        assert forall|j: int| 0 <= j < i implies (v@.push(i).contains(j as usize) <==> sharp_enough@[j]) by {
                            if v@.push(i).contains(j as usize) {
                                let k = choose|k: int| 0 <= k < v@.push(i).len() && v@.push(i)[k] == j as usize;
                                if k < v@.len() {
                                    assert(v@.contains(j as usize));
                                }
                            }
                            if v@.contains(j as usize) {
                                let k = choose|k: int| 0 <= k < v@.len() && v@[k] == j as usize;
                                assert(v@.push(i)[k] == j as usize);
                            }
                        }
                        assert(v@.push(i)[v@.len() as int] == i);
                    }
                    v.push(i);
                } else {
                    proof {
                        assert(!v@.contains(i)) by {
                            if v@.contains(i) {
                                let k = choose|k: int| 0 <= k < v@.len() && v@[k] == i;
                                assert(v@[k] < i);
                            }
                        }
                    }
                }
                i = i + 1;
            }
            BurstChoice::Merge(v)
        },
    }
}

} // verus!
