//! Merging the frames of a group, and of a whole frame set, into one image.
//!
//! At every output coordinate each frame of a group gives one sample, and
//! the frame's shift decides through which filter colour that sample was
//! taken. The merge adds the samples up per colour. Nothing is averaged.
//! Red and blue get one sample each where green gets two; the
//! [`ScalingPolicy`] says whether red and blue are doubled to make up for it.
//!
//! Channel values are 16 bits wide. A total that needs more keeps its low
//! 16 bits, as 16-bit addition that wraps does.

use vstd::prelude::*;
use vstd::seq_lib::{to_multiset_contains, to_multiset_len, to_multiset_remove};
use crate::cfa::Color;
use crate::error::MergeError;
use crate::frame::{models, Frame, FrameModel};
use crate::frame_set::{
    is_frame_set, mode_for, output_fits, same_size, uniform, FrameSet, MergeMode,
};
use crate::grid::{grid_fits, GridModel, PixelGrid, Rgb16};

verus! {

/// How the channels are scaled after the samples are added up.
#[derive(Clone, Copy, Debug, PartialEq, Eq, Structural)]
pub enum ScalingPolicy {
    /// Every channel is the plain sum of its samples.
    Plain,
    /// Red and blue are doubled, green is left as it is. This is the default.
    DoubleRedBlue,
}

impl ScalingPolicy {
    /// The factor by which the policy multiplies the sum of a channel.
    pub open spec fn weight_spec(self, color: Color) -> nat {
        match (self, color) {
            (ScalingPolicy::DoubleRedBlue, Color::Red) => 2,
            (ScalingPolicy::DoubleRedBlue, Color::Blue) => 2,
            _ => 1,
        }
    }

    /// The factor by which the policy multiplies the sum of a channel.
    pub fn weight(self, color: Color) -> (weight: u32)
        ensures
            weight == self.weight_spec(color),
    {
        match (self, color) {
            (ScalingPolicy::DoubleRedBlue, Color::Red) => 2,
            (ScalingPolicy::DoubleRedBlue, Color::Blue) => 2,
            _ => 1,
        }
    }

    /// The channel value for a sum of up to four samples.
    fn channel(self, color: Color, sum: u32) -> (value: u16)
        requires
            sum <= 4 * 0xffff,
        ensures
            value == stored(self.weight_spec(color) * sum as nat),
    {
        let scaled: u32 = if self.weight(color) == 2 {
            2 * sum
        } else {
            sum
        };
        (scaled % 0x1_0000) as u16
    }
}

impl Default for ScalingPolicy {
    fn default() -> (policy: ScalingPolicy)
        ensures
            policy == ScalingPolicy::DoubleRedBlue,
    {
        ScalingPolicy::DoubleRedBlue
    }
}

/// What a frame adds to the channel `color` at the output coordinate
/// (`x`, `y`): its sample there, if it saw the coordinate through that
/// colour, and nothing otherwise.
pub open spec fn contribution(frame: FrameModel, x: int, y: int, color: Color) -> nat {
    if frame.color_at(x, y) == color {
        frame.sample_at(x, y) as nat
    } else {
        0
    }
}

/// The sum of what the frames add to the channel `color` at (`x`, `y`).
pub open spec fn channel_sum(frames: Seq<FrameModel>, x: int, y: int, color: Color) -> nat
    decreases frames.len(),
{
    if frames.len() == 0 {
        0
    } else {
        channel_sum(frames.drop_last(), x, y, color) + contribution(frames.last(), x, y, color)
    }
}

/// The 16-bit channel value that stands for a total: its low 16 bits.
pub open spec fn stored(total: nat) -> u16 {
    (total % 0x1_0000) as u16
}

/// One channel of the merged pixel at (`x`, `y`).
pub open spec fn merged_channel(
    frames: Seq<FrameModel>,
    policy: ScalingPolicy,
    x: int,
    y: int,
    color: Color,
) -> u16 {
    stored(policy.weight_spec(color) * channel_sum(frames, x, y, color))
}

/// The merged pixel at the output coordinate (`x`, `y`).
pub open spec fn merged_pixel(frames: Seq<FrameModel>, policy: ScalingPolicy, x: int, y: int) -> Rgb16 {
    Rgb16 {
        red: merged_channel(frames, policy, x, y, Color::Red),
        green: merged_channel(frames, policy, x, y, Color::Green),
        blue: merged_channel(frames, policy, x, y, Color::Blue),
    }
}

/// The merge of a group: a grid of the size of the group's first frame that
/// holds the merged pixel at every coordinate.
pub open spec fn merged_group(frames: Seq<FrameModel>, policy: ScalingPolicy) -> GridModel
    recommends
        frames.len() > 0,
{
    GridModel {
        width: frames[0].width,
        height: frames[0].height,
        pixels: Map::new(
            |at: (int, int)| 0 <= at.0 < frames[0].width && 0 <= at.1 < frames[0].height,
            |at: (int, int)| merged_pixel(frames, policy, at.0, at.1),
        ),
    }
}

/// The index of the grid that gives the interleaved image its pixel at
/// (`x`, `y`): even columns of even rows come from grid 0, odd columns of
/// even rows from grid 1, even columns of odd rows from grid 2 and odd
/// columns of odd rows from grid 3.
pub open spec fn source_grid(x: int, y: int) -> int {
    (x % 2) + 2 * (y % 2)
}

/// Four grids of one size woven into a grid of twice the width and twice
/// the height: the pixel at (`x`, `y`) is the pixel at (`x / 2`, `y / 2`) of
/// the grid that [`source_grid`] names.
pub open spec fn interleaved(grids: Seq<GridModel>) -> GridModel
    recommends
        grids.len() == 4,
{
    GridModel {
        width: 2 * grids[0].width,
        height: 2 * grids[0].height,
        pixels: Map::new(
            |at: (int, int)| 0 <= at.0 < 2 * grids[0].width && 0 <= at.1 < 2 * grids[0].height,
            |at: (int, int)| grids[source_grid(at.0, at.1)].pixel(at.0 / 2, at.1 / 2),
        ),
    }
}

/// The frames of one group of a frame set.
pub open spec fn group_frames(frames: Seq<FrameModel>, group: int) -> Seq<FrameModel>
    recommends
        0 <= group,
        4 * group + 4 <= frames.len(),
{
    frames.subrange(4 * group, 4 * group + 4)
}

/// The merge of a frame set. Four frames are merged as one group. Of
/// sixteen frames each group of four is merged by itself, and the four
/// images are interleaved.
pub open spec fn merged_set(frames: Seq<FrameModel>, policy: ScalingPolicy) -> GridModel
    recommends
        mode_for(frames.len()) is Some,
{
    if mode_for(frames.len()) == Some(MergeMode::SixteenShot) {
        interleaved(Seq::new(4, |group: int| merged_group(group_frames(frames, group), policy)))
    } else {
        merged_group(frames, policy)
    }
}

proof fn lemma_channel_sum_bound(frames: Seq<FrameModel>, x: int, y: int, color: Color)
    ensures
        channel_sum(frames, x, y, color) <= 0xffff * frames.len(),
    decreases frames.len(),
{
    if frames.len() > 0 {
        lemma_channel_sum_bound(frames.drop_last(), x, y, color);
    }
}

/// The merged pixel of four frames at the output coordinate (`x`, `y`).
pub fn merge_pixel(frames: &[Frame<'_>; 4], policy: ScalingPolicy, x: u32, y: u32) -> (pixel: Rgb16)
    ensures
        pixel == merged_pixel(models(frames@), policy, x as int, y as int),
{
    let ghost all = models(frames@);
    let mut red: u32 = 0;
    let mut green: u32 = 0;
    let mut blue: u32 = 0;
    let mut i: usize = 0;
    while i < 4
        invariant
            i <= 4,
            all == models(frames@),
            all.len() == 4,
            red == channel_sum(all.take(i as int), x as int, y as int, Color::Red),
            green == channel_sum(all.take(i as int), x as int, y as int, Color::Green),
            blue == channel_sum(all.take(i as int), x as int, y as int, Color::Blue),
        decreases 4 - i,
    {
        let sample: u32 = frames[i].sample_at(x, y) as u32;
        let color: Color = frames[i].color_at(x, y);
        proof {
            let longer = all.take(i + 1);
            assert(longer.drop_last() =~= all.take(i as int));
            assert(longer.last() == frames@[i as int]@);
            lemma_channel_sum_bound(all.take(i as int), x as int, y as int, Color::Red);
            lemma_channel_sum_bound(all.take(i as int), x as int, y as int, Color::Green);
            lemma_channel_sum_bound(all.take(i as int), x as int, y as int, Color::Blue);
        }
        match color {
            Color::Red => {
                red = red + sample;
            },
            Color::Green => {
                green = green + sample;
            },
            Color::Blue => {
                blue = blue + sample;
            },
        }
        i = i + 1;
    }
    proof {
        assert(all.take(4) =~= all);
        lemma_channel_sum_bound(all, x as int, y as int, Color::Red);
        lemma_channel_sum_bound(all, x as int, y as int, Color::Green);
        lemma_channel_sum_bound(all, x as int, y as int, Color::Blue);
    }
    Rgb16 {
        red: policy.channel(Color::Red, red),
        green: policy.channel(Color::Green, green),
        blue: policy.channel(Color::Blue, blue),
    }
}

/// Merges the four frames of a group into one image of the size of the
/// group's first frame.
///
/// The order of the frames does not matter: each frame's own position in
/// the group says where its samples belong.
///
/// The image must be one that can be allocated, which
/// [`fits`](crate::grid::fits) tells.
pub fn merge_group(frames: &[Frame<'_>; 4], policy: ScalingPolicy) -> (grid: PixelGrid)
    requires
        grid_fits(frames@[0]@.width, frames@[0]@.height),
    ensures
        grid@ == merged_group(models(frames@), policy),
{
    let width: u32 = frames[0].width();
    let height: u32 = frames[0].height();
    let ghost all = models(frames@);
    let ghost goal = merged_group(all, policy);
    let mut grid: PixelGrid = PixelGrid::new(width, height);
    let mut y: u32 = 0;
    while y < height
        invariant
            y <= height,
            all == models(frames@),
            goal == merged_group(all, policy),
            goal.width == width,
            goal.height == height,
            grid@.width == width,
            grid@.height == height,
            grid@.pixels.dom() =~= goal.pixels.dom(),
            forall|px: int, py: int|
                0 <= px < width && 0 <= py < y ==> grid@.pixel(px, py) == goal.pixel(px, py),
        decreases height - y,
    {
        let mut x: u32 = 0;
        while x < width
            invariant
                x <= width,
                y < height,
                all == models(frames@),
                goal == merged_group(all, policy),
                goal.width == width,
                goal.height == height,
                grid@.width == width,
                grid@.height == height,
                grid@.pixels.dom() =~= goal.pixels.dom(),
                forall|px: int, py: int|
                    0 <= px < width && 0 <= py < y ==> grid@.pixel(px, py) == goal.pixel(px, py),
                forall|px: int| 0 <= px < x ==> grid@.pixel(px, y as int) == goal.pixel(px, y as int),
            decreases width - x,
        {
            let pixel: Rgb16 = merge_pixel(frames, policy, x, y);
            grid.set_pixel(x, y, pixel);
            x = x + 1;
        }
        y = y + 1;
    }
    assert forall|at: (int, int)| goal.pixels.dom().contains(at) implies grid@.pixels[at]
        == goal.pixels[at] by {
        assert(grid@.pixel(at.0, at.1) == goal.pixel(at.0, at.1));
    }
    assert(grid@.pixels =~= goal.pixels);
    grid
}

/// The contents of a sequence of grids.
pub open spec fn grid_models(grids: Seq<PixelGrid>) -> Seq<GridModel> {
    grids.map_values(|grid: PixelGrid| grid@)
}

/// Weaves four grids of one size into a grid of twice the width and twice
/// the height: output pixel (`x`, `y`) is pixel (`x / 2`, `y / 2`) of the
/// grid with index `x % 2 + 2 * (y % 2)`.
///
/// The doubled width and height must fit 32 bits, and the image must be one
/// that can be allocated, which [`fits`](crate::grid::fits) tells.
pub fn interleave(grids: &[PixelGrid; 4]) -> (grid: PixelGrid)
    requires
        forall|i: int| 0 <= i < 4 ==> (#[trigger] grids@[i])@.width == grids@[0]@.width,
        forall|i: int| 0 <= i < 4 ==> (#[trigger] grids@[i])@.height == grids@[0]@.height,
        2 * grids@[0]@.width <= u32::MAX,
        2 * grids@[0]@.height <= u32::MAX,
        grid_fits(2 * grids@[0]@.width, 2 * grids@[0]@.height),
    ensures
        grid@ == interleaved(grid_models(grids@)),
{
    let width: u32 = 2 * grids[0].width();
    let height: u32 = 2 * grids[0].height();
    let ghost all = grid_models(grids@);
    let ghost goal = interleaved(all);
    let mut grid: PixelGrid = PixelGrid::new(width, height);
    let mut y: u32 = 0;
    while y < height
        invariant
            y <= height,
            all == grid_models(grids@),
            goal == interleaved(all),
            forall|i: int| 0 <= i < 4 ==> (#[trigger] grids@[i])@.width == grids@[0]@.width,
            forall|i: int| 0 <= i < 4 ==> (#[trigger] grids@[i])@.height == grids@[0]@.height,
            width == 2 * grids@[0]@.width,
            height == 2 * grids@[0]@.height,
            grid@.width == width,
            grid@.height == height,
            grid@.pixels.dom() =~= goal.pixels.dom(),
            forall|px: int, py: int|
                0 <= px < width && 0 <= py < y ==> grid@.pixel(px, py) == goal.pixel(px, py),
        decreases height - y,
    {
        let mut x: u32 = 0;
        while x < width
            invariant
                x <= width,
                y < height,
                all == grid_models(grids@),
                goal == interleaved(all),
                forall|i: int| 0 <= i < 4 ==> (#[trigger] grids@[i])@.width == grids@[0]@.width,
                forall|i: int| 0 <= i < 4 ==> (#[trigger] grids@[i])@.height == grids@[0]@.height,
                width == 2 * grids@[0]@.width,
                height == 2 * grids@[0]@.height,
                grid@.width == width,
                grid@.height == height,
                grid@.pixels.dom() =~= goal.pixels.dom(),
                forall|px: int, py: int|
                    0 <= px < width && 0 <= py < y ==> grid@.pixel(px, py) == goal.pixel(px, py),
                forall|px: int| 0 <= px < x ==> grid@.pixel(px, y as int) == goal.pixel(px, y as int),
            decreases width - x,
        {
            let source: usize = (x % 2 + 2 * (y % 2)) as usize;
            match grids[source].pixel(x / 2, y / 2) {
                Some(pixel) => {
                    grid.set_pixel(x, y, pixel);
                },
                None => {
                    assert(false);
                },
            }
            x = x + 1;
        }
        y = y + 1;
    }
    assert forall|at: (int, int)| goal.pixels.dom().contains(at) implies grid@.pixels[at]
        == goal.pixels[at] by {
        assert(grid@.pixel(at.0, at.1) == goal.pixel(at.0, at.1));
    }
    assert(grid@.pixels =~= goal.pixels);
    grid
}

proof fn lemma_quarter_fits(width: nat, height: nat)
    requires
        grid_fits(2 * width, 2 * height),
    ensures
        grid_fits(width, height),
{
    assert(width * height * 6 <= (2 * width) * (2 * height) * 6) by (nonlinear_arith);
}

/// Merges a frame set into one image.
///
/// A set of four frames gives an image of the size of a frame. A set of
/// sixteen gives one of twice the width and twice the height. A set of any
/// other number of frames is refused.
///
/// The image must be one that can be allocated, which
/// [`FrameSet::output_fits`] tells.
pub fn merge_frame_set(set: &FrameSet<'_>, policy: ScalingPolicy) -> (image: Result<
    PixelGrid,
    MergeError,
>)
    requires
        output_fits(set@),
    ensures
        match image {
            Ok(grid) => mode_for(set@.len()) is Some && grid@ == merged_set(set@, policy),
            Err(MergeError::UnsupportedFrameCount(count)) => mode_for(set@.len()) is None && count
                == set@.len(),
            Err(_) => false,
        },
{
    proof {
        use_type_invariant(set);
    }
    match set.mode() {
        Err(error) => Err(error),
        Ok(MergeMode::FourShot) => {
            let frames: [Frame<'_>; 4] = set.group_of_four(0);
            assert(set@.subrange(0, 4) =~= set@);
            Ok(merge_group(&frames, policy))
        },
        Ok(MergeMode::SixteenShot) => {
            let first: [Frame<'_>; 4] = set.group_of_four(0);
            let second: [Frame<'_>; 4] = set.group_of_four(1);
            let third: [Frame<'_>; 4] = set.group_of_four(2);
            let fourth: [Frame<'_>; 4] = set.group_of_four(3);
            proof {
                lemma_quarter_fits(set@[0].width, set@[0].height);
                assert(models(first@)[0] == set@[0]);
                assert(models(second@)[0] == set@[4]);
                assert(models(third@)[0] == set@[8]);
                assert(models(fourth@)[0] == set@[12]);
            }
            let grids: [PixelGrid; 4] = [
                merge_group(&first, policy),
                merge_group(&second, policy),
                merge_group(&third, policy),
                merge_group(&fourth, policy),
            ];
            let image: PixelGrid = interleave(&grids);
            assert(grid_models(grids@) =~= Seq::new(
                4,
                |group: int| merged_group(group_frames(set@, group), policy),
            ));
            Ok(image)
        },
    }
}

proof fn lemma_channel_sum_without(frames: Seq<FrameModel>, index: int, x: int, y: int, color: Color)
    requires
        0 <= index < frames.len(),
    ensures
        channel_sum(frames, x, y, color) == channel_sum(frames.remove(index), x, y, color)
            + contribution(frames[index], x, y, color),
    decreases frames.len(),
{
    if index == frames.len() - 1 {
        assert(frames.remove(index) =~= frames.drop_last());
    } else {
        lemma_channel_sum_without(frames.drop_last(), index, x, y, color);
        assert(frames.remove(index).drop_last() =~= frames.drop_last().remove(index));
        assert(frames.remove(index).last() == frames.last());
    }
}

proof fn lemma_channel_sum_of_permutation(
    a: Seq<FrameModel>,
    b: Seq<FrameModel>,
    x: int,
    y: int,
    color: Color,
)
    requires
        a.to_multiset() == b.to_multiset(),
    ensures
        channel_sum(a, x, y, color) == channel_sum(b, x, y, color),
    decreases a.len(),
{
    to_multiset_len(a);
    to_multiset_len(b);
    if a.len() > 0 {
        let last = a.last();
        to_multiset_contains(a, last);
        to_multiset_contains(b, last);
        assert(a.contains(last));
        let index = choose|i: int| 0 <= i < b.len() && b[i] == last;
        to_multiset_remove(a, a.len() - 1);
        to_multiset_remove(b, index);
        assert(a.remove(a.len() - 1) =~= a.drop_last());
        lemma_channel_sum_of_permutation(a.drop_last(), b.remove(index), x, y, color);
        lemma_channel_sum_without(b, index, x, y, color);
    }
}

/// The merged pixel does not depend on the order of the frames: frames that
/// are the same but for their order give the same pixel at every coordinate.
pub proof fn merge_ignores_frame_order(
    a: Seq<FrameModel>,
    b: Seq<FrameModel>,
    policy: ScalingPolicy,
    x: int,
    y: int,
)
    requires
        a.to_multiset() == b.to_multiset(),
    ensures
        merged_pixel(a, policy, x, y) == merged_pixel(b, policy, x, y),
{
    lemma_channel_sum_of_permutation(a, b, x, y, Color::Red);
    lemma_channel_sum_of_permutation(a, b, x, y, Color::Green);
    lemma_channel_sum_of_permutation(a, b, x, y, Color::Blue);
}

/// The merge of a group does not depend on the order of its frames: frames
/// of one size that are the same but for their order give the same image.
pub proof fn merged_group_ignores_frame_order(
    a: Seq<FrameModel>,
    b: Seq<FrameModel>,
    policy: ScalingPolicy,
)
    requires
        a.len() > 0,
        uniform(a),
        a.to_multiset() == b.to_multiset(),
    ensures
        merged_group(a, policy) == merged_group(b, policy),
{
    to_multiset_len(a);
    to_multiset_len(b);
    to_multiset_contains(a, b[0]);
    to_multiset_contains(b, b[0]);
    assert(b.contains(b[0]));
    let index = choose|i: int| 0 <= i < a.len() && a[i] == b[0];
    assert(a[index].width == a[0].width && a[index].height == a[0].height);
    assert forall|at: (int, int)|
        merged_pixel(a, policy, at.0, at.1) == merged_pixel(b, policy, at.0, at.1) by {
        merge_ignores_frame_order(a, b, policy, at.0, at.1);
    }
    assert(merged_group(a, policy).pixels =~= merged_group(b, policy).pixels);
}

/// Whether every sample of the frame's plane is `value`.
pub open spec fn is_constant(frame: FrameModel, value: u16) -> bool {
    forall|x: int, y: int|
        0 <= x < frame.width && 0 <= y < frame.height ==> #[trigger] frame.sample(x, y) == value
}

proof fn lemma_channel_sum_of_four(frames: Seq<FrameModel>, x: int, y: int, color: Color)
    requires
        frames.len() == 4,
    ensures
        channel_sum(frames, x, y, color) == contribution(frames[0], x, y, color) + contribution(
            frames[1],
            x,
            y,
            color,
        ) + contribution(frames[2], x, y, color) + contribution(frames[3], x, y, color),
{
    let three = frames.drop_last();
    let two = three.drop_last();
    let one = two.drop_last();
    assert(channel_sum(one.drop_last(), x, y, color) == 0);
    assert(channel_sum(one, x, y, color) == contribution(frames[0], x, y, color));
    assert(channel_sum(two, x, y, color) == channel_sum(one, x, y, color) + contribution(
        frames[1],
        x,
        y,
        color,
    ));
    assert(channel_sum(three, x, y, color) == channel_sum(two, x, y, color) + contribution(
        frames[2],
        x,
        y,
        color,
    ));
}

/// Frames whose samples all have one value `k` merge to the same pixel at
/// every coordinate away from the upper and the left edge: green is twice
/// `k`, from the two frames that saw the coordinate through green, and red
/// and blue are `k` times the factor of the scaling policy.
///
/// The frames are the four of a group, in the order of their positions. In
/// row 0 and in column 0 the shifted frames have no sample to give.
pub proof fn merge_of_constant_frames(
    frames: Seq<FrameModel>,
    policy: ScalingPolicy,
    k: u16,
    x: int,
    y: int,
)
    requires
        frames.len() == 4,
        forall|i: int| 0 <= i < 4 ==> (#[trigger] frames[i]).position == i,
        forall|i: int| 0 <= i < 4 ==> is_constant(#[trigger] frames[i], k),
        forall|i: int| 0 <= i < 4 ==> 1 <= x < (#[trigger] frames[i]).width,
        forall|i: int| 0 <= i < 4 ==> 1 <= y < (#[trigger] frames[i]).height,
    ensures
        merged_pixel(frames, policy, x, y) == (Rgb16 {
            red: stored(policy.weight_spec(Color::Red) * k as nat),
            green: stored(2 * k as nat),
            blue: stored(policy.weight_spec(Color::Blue) * k as nat),
        }),
{
    lemma_channel_sum_of_four(frames, x, y, Color::Red);
    lemma_channel_sum_of_four(frames, x, y, Color::Green);
    lemma_channel_sum_of_four(frames, x, y, Color::Blue);
    assert(frames[0].sample_at(x, y) == k);
    assert(frames[1].sample_at(x, y) == k);
    assert(frames[2].sample_at(x, y) == k);
    assert(frames[3].sample_at(x, y) == k);
    assert(channel_sum(frames, x, y, Color::Red) == k);
    assert(channel_sum(frames, x, y, Color::Green) == 2 * k);
    assert(channel_sum(frames, x, y, Color::Blue) == k);
    assert(policy.weight_spec(Color::Green) == 1);
    assert(policy.weight_spec(Color::Red) == 1 || policy.weight_spec(Color::Red) == 2);
    assert(policy.weight_spec(Color::Blue) == 1 || policy.weight_spec(Color::Blue) == 2);
}

/// A channel that gets a sample above zero from one of the frames is not
/// zero itself, as long as its scaled total fits 16 bits; and then the
/// channel holds that total.
pub proof fn sampled_channel_is_not_zero(
    frames: Seq<FrameModel>,
    policy: ScalingPolicy,
    x: int,
    y: int,
    color: Color,
    index: int,
)
    requires
        0 <= index < frames.len(),
        contribution(frames[index], x, y, color) > 0,
        policy.weight_spec(color) * channel_sum(frames, x, y, color) <= 0xffff,
    ensures
        merged_channel(frames, policy, x, y, color) > 0,
        merged_channel(frames, policy, x, y, color) == policy.weight_spec(color) * channel_sum(
            frames,
            x,
            y,
            color,
        ),
{
    lemma_channel_sum_without(frames, index, x, y, color);
    assert(policy.weight_spec(color) == 1 || policy.weight_spec(color) == 2);
}

/// In the image of a set of sixteen frames, every 2-by-2 block of pixels
/// holds one pixel of each group's own merge: the pixel at (`2a`, `2b`) is
/// that of group 0 at (`a`, `b`), the pixel at (`2a + 1`, `2b`) that of
/// group 1, the pixel at (`2a`, `2b + 1`) that of group 2 and the pixel at
/// (`2a + 1`, `2b + 1`) that of group 3.
pub proof fn sixteen_frames_interleave(
    frames: Seq<FrameModel>,
    policy: ScalingPolicy,
    a: int,
    b: int,
)
    requires
        frames.len() == 16,
        is_frame_set(frames),
        0 <= a < frames[0].width,
        0 <= b < frames[0].height,
    ensures
        merged_set(frames, policy).pixel(2 * a, 2 * b) == merged_group(
            group_frames(frames, 0),
            policy,
        ).pixel(a, b),
        merged_set(frames, policy).pixel(2 * a + 1, 2 * b) == merged_group(
            group_frames(frames, 1),
            policy,
        ).pixel(a, b),
        merged_set(frames, policy).pixel(2 * a, 2 * b + 1) == merged_group(
            group_frames(frames, 2),
            policy,
        ).pixel(a, b),
        merged_set(frames, policy).pixel(2 * a + 1, 2 * b + 1) == merged_group(
            group_frames(frames, 3),
            policy,
        ).pixel(a, b),
        forall|group: int|
            0 <= group < 4 ==> #[trigger] merged_group(group_frames(frames, group), policy).pixel(
                a,
                b,
            ) == merged_pixel(group_frames(frames, group), policy, a, b),
{
    assert(same_size(frames[4], frames[0]));
    assert(same_size(frames[8], frames[0]));
    assert(same_size(frames[12], frames[0]));
}

} // verus!
