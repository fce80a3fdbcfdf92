//! The frames of one output image, in order and complete.
//!
//! Frames are loaded in any order. A frame set holds them by slot, the slot
//! of a frame being `4 * group + position`: the frame at index `i` has slot
//! `i`. So a set of `n` frames has one frame for each of the slots below
//! `n`, none twice and none missing. All frames of a set have one size.

use vstd::prelude::*;
use vstd::seq_lib::{to_multiset_build, to_multiset_contains, to_multiset_len, to_multiset_remove};
use crate::error::MergeError;
use crate::frame::{models, Frame, FrameModel};
use crate::grid::{fits, grid_fits};

verus! {

/// The index of the first frame with the given slot, or the number of
/// frames if none has it.
pub open spec fn slot_index(frames: Seq<FrameModel>, slot: nat) -> nat
    decreases frames.len(),
{
    if frames.len() == 0 || frames[0].slot() == slot {
        0
    } else {
        1 + slot_index(frames.drop_first(), slot)
    }
}

/// Whether one of the frames has the given slot.
pub open spec fn has_slot(frames: Seq<FrameModel>, slot: nat) -> bool {
    slot_index(frames, slot) < frames.len()
}

/// The first frame with the given slot.
pub open spec fn at_slot(frames: Seq<FrameModel>, slot: nat) -> FrameModel
    recommends
        has_slot(frames, slot),
{
    frames[slot_index(frames, slot) as int]
}

/// Whether every slot below the number of frames is taken.
pub open spec fn complete(frames: Seq<FrameModel>) -> bool {
    forall|slot: nat| slot < frames.len() ==> has_slot(frames, slot)
}

/// Whether `slot` is the lowest slot below the number of frames that no
/// frame has.
pub open spec fn first_missing_slot(frames: Seq<FrameModel>, slot: nat) -> bool {
    &&& slot < frames.len()
    &&& !has_slot(frames, slot)
    &&& forall|lower: nat| lower < slot ==> has_slot(frames, lower)
}

/// The frames in the order of their slots.
pub open spec fn arranged(frames: Seq<FrameModel>) -> Seq<FrameModel>
    recommends
        complete(frames),
{
    Seq::new(frames.len(), |slot: int| at_slot(frames, slot as nat))
}

/// Whether two frames have the same width and the same height.
pub open spec fn same_size(a: FrameModel, b: FrameModel) -> bool {
    a.width == b.width && a.height == b.height
}

/// Whether all frames have the size of the first.
pub open spec fn uniform(frames: Seq<FrameModel>) -> bool {
    forall|i: int| 0 <= i < frames.len() ==> same_size(#[trigger] frames[i], frames[0])
}

/// Whether the frame at `index` is the first whose size is not that of the
/// frame at index 0.
pub open spec fn first_odd_size(frames: Seq<FrameModel>, index: nat) -> bool {
    &&& index < frames.len()
    &&& !same_size(frames[index as int], frames[0])
    &&& forall|i: int| 0 <= i < index ==> same_size(#[trigger] frames[i], frames[0])
}

/// What holds of the frames of a frame set: each is well formed and sits at
/// its slot, and all have one size.
pub open spec fn is_frame_set(frames: Seq<FrameModel>) -> bool {
    &&& forall|i: int| 0 <= i < frames.len() ==> (#[trigger] frames[i]).wf()
    &&& forall|i: int| 0 <= i < frames.len() ==> (#[trigger] frames[i]).slot() == i
    &&& uniform(frames)
}

/// The two ways to merge a frame set.
#[derive(Clone, Copy, Debug, PartialEq, Eq, Structural)]
pub enum MergeMode {
    /// One group of four frames: the image has the size of a frame.
    FourShot,
    /// Four groups of four frames: the image has twice the width and twice
    /// the height of a frame.
    SixteenShot,
}

/// The merge mode for a number of frames, if there is one.
pub open spec fn mode_for(count: nat) -> Option<MergeMode> {
    if count == 4 {
        Some(MergeMode::FourShot)
    } else if count == 16 {
        Some(MergeMode::SixteenShot)
    } else {
        None
    }
}

/// Whether the image that a merge of the frames gives can be allocated,
/// and its width and height fit 32 bits.
pub open spec fn output_fits(frames: Seq<FrameModel>) -> bool {
    match mode_for(frames.len()) {
        Some(MergeMode::FourShot) => grid_fits(frames[0].width, frames[0].height),
        Some(MergeMode::SixteenShot) => {
            &&& 2 * frames[0].width <= u32::MAX
            &&& 2 * frames[0].height <= u32::MAX
            &&& grid_fits(2 * frames[0].width, 2 * frames[0].height)
        },
        None => true,
    }
}

/// Selects the way to merge a number of frames: four frames make one group,
/// sixteen make four. Any other number is refused.
pub fn select_mode(count: usize) -> (mode: Result<MergeMode, MergeError>)
    ensures
        count == 4 ==> mode == Ok::<MergeMode, MergeError>(MergeMode::FourShot),
        count == 16 ==> mode == Ok::<MergeMode, MergeError>(MergeMode::SixteenShot),
        count != 4 && count != 16 ==> mode == Err::<MergeMode, MergeError>(
            MergeError::UnsupportedFrameCount(count),
        ),
        mode matches Ok(m) ==> mode_for(count as nat) == Some(m),
        mode is Err ==> mode_for(count as nat) is None,
{
    if count == 4 {
        Ok(MergeMode::FourShot)
    } else if count == 16 {
        Ok(MergeMode::SixteenShot)
    } else {
        Err(MergeError::UnsupportedFrameCount(count))
    }
}

/// The frames of one output image, ordered by slot.
#[derive(Debug)]
pub struct FrameSet<'a> {
    frames: Vec<Frame<'a>>,
}

impl<'a> View for FrameSet<'a> {
    type V = Seq<FrameModel>;

    closed spec fn view(&self) -> Seq<FrameModel> {
        models(self.frames@)
    }
}

proof fn lemma_slot_index(frames: Seq<FrameModel>, slot: nat, n: int)
    requires
        0 <= n <= frames.len(),
        forall|j: int| 0 <= j < n ==> frames[j].slot() != slot,
        n == frames.len() || frames[n].slot() == slot,
    ensures
        slot_index(frames, slot) == n,
    decreases n,
{
    if n > 0 {
        lemma_slot_index(frames.drop_first(), slot, n - 1);
    }
}

/// Finds the first frame with the given slot; gives the number of frames if
/// there is none.
fn find_slot(frames: &Vec<Frame<'_>>, slot: u32) -> (index: usize)
    ensures
        index == slot_index(models(frames@), slot as nat),
        index <= frames@.len(),
        index < frames@.len() ==> models(frames@)[index as int].slot() == slot,
{
    let mut index: usize = 0;
    while index < frames.len() && frames[index].slot() != slot
        invariant
            index <= frames@.len(),
            forall|j: int| 0 <= j < index ==> models(frames@)[j].slot() != slot,
        decreases frames@.len() - index,
    {
        index = index + 1;
    }
    proof {
        lemma_slot_index(models(frames@), slot as nat, index as int);
    }
    index
}

impl<'a> FrameSet<'a> {
    /// What holds of every frame set.
    #[verifier::type_invariant]
    pub open spec fn inv(self) -> bool {
        is_frame_set(self@)
    }

    /// Orders the frames by slot and checks that they make a frame set.
    ///
    /// The frames make a set if every slot below their number is taken and
    /// all of them have one size. Otherwise the error names the lowest slot
    /// that is not taken or, if all are, the lowest slot whose frame has
    /// another size than the frame at slot 0.
    ///
    /// The number of frames is not judged here: see [`FrameSet::mode`].
    pub fn new(frames: Vec<Frame<'a>>) -> (set: Result<FrameSet<'a>, MergeError>)
        ensures
            match set {
                Ok(s) => {
                    &&& complete(models(frames@))
                    &&& s@ == arranged(models(frames@))
                    &&& s@.to_multiset() == models(frames@).to_multiset()
                    &&& is_frame_set(s@)
                },
                Err(MergeError::IncompleteFrameSet(slot)) => first_missing_slot(
                    models(frames@),
                    slot as nat,
                ),
                Err(MergeError::DimensionMismatch(slot)) => {
                    &&& complete(models(frames@))
                    &&& first_odd_size(arranged(models(frames@)), slot as nat)
                },
                Err(_) => false,
            },
    {
        let ghost input = models(frames@);
        let count: usize = frames.len();
        let mut ordered: Vec<Frame<'a>> = Vec::new();
        let mut slot: u32 = 0;
        while (slot as usize) < count
            invariant
                count == frames@.len(),
                input == models(frames@),
                slot <= count,
                slot <= 16,
                ordered@.len() == slot,
                forall|s: nat| s < slot ==> has_slot(input, s),
                forall|s: int| 0 <= s < slot ==> models(ordered@)[s] == at_slot(input, s as nat),
                forall|s: int| 0 <= s < slot ==> (#[trigger] models(ordered@)[s]).wf(),
                forall|s: int| 0 <= s < slot ==> (#[trigger] models(ordered@)[s]).slot() == s,
            decreases count - slot,
        {
            let index: usize = find_slot(&frames, slot);
            if index == count {
                return Err(MergeError::IncompleteFrameSet(slot));
            }
            let frame: Frame<'a> = frames[index];
            proof {
                use_type_invariant(&frame);
                assert(frame@ == at_slot(input, slot as nat));
            }
            let ghost before = models(ordered@);
            ordered.push(frame);
            proof {
                assert(models(ordered@) =~= before.push(frame@));
            }
            slot = slot + 1;
        }
        assert(models(ordered@) =~= arranged(input));
        assert(complete(input));
        let mut at: usize = 0;
        while at < count
            invariant
                at <= count <= 16,
                count == ordered@.len(),
                input == models(frames@),
                complete(input),
                models(ordered@) == arranged(input),
                forall|i: int| 0 <= i < at ==> same_size(#[trigger] arranged(input)[i], arranged(input)[0]),
            decreases count - at,
        {
            if ordered[at].width() != ordered[0].width() || ordered[at].height()
                != ordered[0].height() {
                assert(first_odd_size(arranged(input), at as nat));
                return Err(MergeError::DimensionMismatch(at as u32));
            }
            at = at + 1;
        }
        proof {
            arranged_is_permutation(input);
        }
        Ok(FrameSet { frames: ordered })
    }

    /// The number of frames, which is 16 at most.
    pub fn len(&self) -> (count: usize)
        ensures
            count == self@.len(),
            count <= 16,
    {
        proof {
            use_type_invariant(self);
            if self@.len() > 0 {
                assert(self@[self@.len() - 1].slot() == self@.len() - 1);
            }
        }
        self.frames.len()
    }

    /// The frame at the given slot, if the set has one.
    pub fn frame(&self, slot: usize) -> (frame: Option<Frame<'a>>)
        ensures
            slot < self@.len() ==> frame is Some && frame->Some_0@ == self@[slot as int],
            slot >= self@.len() ==> frame is None,
    {
        if slot < self.frames.len() {
            Some(self.frames[slot])
        } else {
            None
        }
    }

    /// The four frames of a group of the set, in the order of their positions.
    pub(crate) fn group_of_four(&self, group: usize) -> (frames: [Frame<'a>; 4])
        requires
            4 * group + 4 <= self@.len(),
        ensures
            models(frames@) == self@.subrange(4 * group, 4 * group + 4),
    {
        let count: usize = self.frames.len();
        assert(4 * group + 4 <= count);
        let first: usize = 4 * group;
        let frames: [Frame<'a>; 4] = [
            self.frames[first],
            self.frames[first + 1],
            self.frames[first + 2],
            self.frames[first + 3],
        ];
        assert(models(frames@) =~= self@.subrange(4 * group, 4 * group + 4));
        frames
    }

    /// The four frames of a group, in the order of their positions, if the
    /// set has that group in full.
    pub fn group(&self, group: usize) -> (frames: Option<[Frame<'a>; 4]>)
        ensures
            4 * group + 4 <= self@.len() ==> frames is Some && models(frames->Some_0@)
                == self@.subrange(4 * group, 4 * group + 4),
            4 * group + 4 > self@.len() ==> frames is None,
    {
        let count: usize = self.len();
        if group < 4 && 4 * group + 4 <= count {
            Some(self.group_of_four(group))
        } else {
            None
        }
    }

    /// The way to merge the set, if its number of frames can be merged.
    pub fn mode(&self) -> (mode: Result<MergeMode, MergeError>)
        ensures
            match mode {
                Ok(m) => mode_for(self@.len()) == Some(m),
                Err(MergeError::UnsupportedFrameCount(count)) => mode_for(self@.len()) is None
                    && count == self@.len(),
                Err(_) => false,
            },
    {
        select_mode(self.len())
    }

    /// Whether the image that a merge of the set gives can be allocated, and
    /// its width and height fit 32 bits.
    pub fn output_fits(&self) -> (fits: bool)
        ensures
            fits == output_fits(self@),
    {
        match self.mode() {
            Ok(MergeMode::FourShot) => {
                let width: u32 = self.frames[0].width();
                let height: u32 = self.frames[0].height();
                fits(width, height)
            },
            Ok(MergeMode::SixteenShot) => {
                let width: u32 = self.frames[0].width();
                let height: u32 = self.frames[0].height();
                if width > u32::MAX / 2 || height > u32::MAX / 2 {
                    false
                } else {
                    fits(2 * width, 2 * height)
                }
            },
            Err(_) => true,
        }
    }
}

proof fn lemma_slot_index_is_first(frames: Seq<FrameModel>, slot: nat)
    ensures
        slot_index(frames, slot) <= frames.len(),
        has_slot(frames, slot) ==> at_slot(frames, slot).slot() == slot,
        forall|k: int| 0 <= k < slot_index(frames, slot) ==> (#[trigger] frames[k]).slot() != slot,
    decreases frames.len(),
{
    if frames.len() > 0 && frames[0].slot() != slot {
        let rest = frames.drop_first();
        lemma_slot_index_is_first(rest, slot);
        assert forall|k: int| 0 <= k < slot_index(frames, slot) implies (#[trigger] frames[k]).slot()
            != slot by {
            if k > 0 {
                assert(rest[k - 1] == frames[k]);
            }
        }
    }
}

proof fn lemma_slot_index_without(frames: Seq<FrameModel>, index: int, slot: nat)
    requires
        0 <= index < frames.len(),
        frames[index].slot() != slot,
        has_slot(frames, slot),
    ensures
        has_slot(frames.remove(index), slot),
        at_slot(frames.remove(index), slot) == at_slot(frames, slot),
{
    lemma_slot_index_is_first(frames, slot);
    let found = slot_index(frames, slot) as int;
    let rest = frames.remove(index);
    let moved = if found < index {
        found
    } else {
        found - 1
    };
    assert(rest[moved] == frames[found]);
    assert forall|k: int| 0 <= k < moved implies rest[k].slot() != slot by {
        if k < index {
            assert(rest[k] == frames[k]);
        } else {
            assert(rest[k] == frames[k + 1]);
        }
    }
    lemma_slot_index(rest, slot, moved);
}

/// Ordering the frames by slot neither drops a frame nor adds one: where
/// every slot is taken, the ordered frames are the given frames but for
/// their order.
pub proof fn arranged_is_permutation(frames: Seq<FrameModel>)
    requires
        complete(frames),
    ensures
        arranged(frames).to_multiset() == frames.to_multiset(),
    decreases frames.len(),
{
    if frames.len() == 0 {
        assert(arranged(frames) =~= frames);
    } else {
        let top = (frames.len() - 1) as nat;
        assert(has_slot(frames, top));
        lemma_slot_index_is_first(frames, top);
        let index = slot_index(frames, top) as int;
        let rest = frames.remove(index);
        assert forall|slot: nat| slot < rest.len() implies has_slot(rest, slot) && at_slot(
            rest,
            slot,
        ) == at_slot(frames, slot) by {
            assert(has_slot(frames, slot));
            lemma_slot_index_without(frames, index, slot);
        }
        arranged_is_permutation(rest);
        assert(arranged(frames) =~= arranged(rest).push(frames[index]));
        to_multiset_build(arranged(rest), frames[index]);
        to_multiset_remove(frames, index);
        to_multiset_contains(frames, frames[index]);
        assert(frames.contains(frames[index]));
        assert(frames.to_multiset().remove(frames[index]).insert(frames[index])
            =~= frames.to_multiset());
    }
}

/// Where every slot is taken, each slot is taken once: a frame is the
/// frame at its slot.
pub proof fn complete_frames_have_distinct_slots(frames: Seq<FrameModel>, index: int)
    requires
        complete(frames),
        0 <= index < frames.len(),
    ensures
        frames[index].slot() < frames.len(),
        frames[index] == at_slot(frames, frames[index].slot()),
{
    arranged_is_permutation(frames);
    let sorted = arranged(frames);
    to_multiset_contains(frames, frames[index]);
    to_multiset_contains(sorted, frames[index]);
    assert(frames.contains(frames[index]));
    let slot = choose|s: int| 0 <= s < sorted.len() && sorted[s] == frames[index];
    assert(has_slot(frames, slot as nat));
    lemma_slot_index_is_first(frames, slot as nat);
}

/// The order in which the frames are given does not matter: the same
/// frames in another order take the same slots, and ordering by slot gives
/// the same sequence.
pub proof fn arranged_ignores_order(a: Seq<FrameModel>, b: Seq<FrameModel>)
    requires
        complete(a),
        a.to_multiset() == b.to_multiset(),
    ensures
        complete(b),
        arranged(a) == arranged(b),
{
    to_multiset_len(a);
    to_multiset_len(b);
    assert forall|slot: nat| slot < b.len() implies has_slot(b, slot) && at_slot(b, slot)
        == at_slot(a, slot) by {
        assert(has_slot(a, slot));
        lemma_slot_index_is_first(a, slot);
        let held = at_slot(a, slot);
        to_multiset_contains(a, held);
        to_multiset_contains(b, held);
        assert(a.contains(held));
        let k = choose|k: int| 0 <= k < b.len() && b[k] == held;
        lemma_slot_index_is_first(b, slot);
        if !has_slot(b, slot) {
            assert(b[k].slot() != slot);
        }
        let found = at_slot(b, slot);
        to_multiset_contains(a, found);
        to_multiset_contains(b, found);
        assert(b.contains(found));
        let i = choose|i: int| 0 <= i < a.len() && a[i] == found;
        complete_frames_have_distinct_slots(a, i);
    }
    assert(arranged(a) =~= arranged(b));
}

} // verus!
