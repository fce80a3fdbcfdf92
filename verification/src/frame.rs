//! One raw capture.

use vstd::prelude::*;
use crate::cfa::{filter_color, filter_color_spec, Color};
use crate::error::{MergeError, MetadataField};
use crate::exif::ExifData;
use crate::sequence::{group_of, map_sequence, position_of, valid_sequence};

verus! {

/// The mathematical content of a frame.
pub struct FrameModel {
    /// Width of the raw plane, in pixels.
    pub width: nat,
    /// Height of the raw plane, in pixels.
    pub height: nat,
    /// One-based number of the capture within its series.
    pub sequence_number: nat,
    /// The group of four that the capture belongs to.
    pub group: nat,
    /// The capture's place within its group.
    pub position: nat,
    /// The raw samples: two bytes each, low byte first, row after row.
    pub bytes: Seq<u8>,
}

impl FrameModel {
    /// The invariant of a frame: a plane that is not empty, and a group and
    /// position that follow from the sequence number.
    pub open spec fn wf(self) -> bool {
        &&& 0 < self.width <= u32::MAX
        &&& 0 < self.height <= u32::MAX
        &&& valid_sequence(self.sequence_number as int)
        &&& self.group == group_of(self.sequence_number as int)
        &&& self.position == position_of(self.sequence_number as int)
    }

    /// The frame's place in the order of a frame set.
    pub open spec fn slot(self) -> nat {
        4 * self.group + self.position
    }

    /// The byte at `index`; zero beyond the end of the bytes.
    pub open spec fn byte(self, index: int) -> u8 {
        if 0 <= index < self.bytes.len() {
            self.bytes[index]
        } else {
            0
        }
    }

    /// The sample at column `x` and row `y` of the raw plane; zero outside
    /// the plane.
    pub open spec fn sample(self, x: int, y: int) -> u16 {
        if 0 <= x < self.width && 0 <= y < self.height {
            let at = 2 * (y * self.width + x);
            (self.byte(at) + 256 * self.byte(at + 1)) as u16
        } else {
            0
        }
    }

    /// By how many rows and columns the frame is shifted within the
    /// 2-by-2 grid of sensor positions of its group.
    pub open spec fn offset(self) -> (int, int) {
        if self.position == 0 {
            (1, 1)
        } else if self.position == 1 {
            (0, 1)
        } else if self.position == 2 {
            (0, 0)
        } else {
            (1, 0)
        }
    }

    /// The sample that the frame holds for the output coordinate (`x`, `y`).
    pub open spec fn sample_at(self, x: int, y: int) -> u16 {
        self.sample(x - self.offset().1, y - self.offset().0)
    }

    /// The filter colour through which the frame saw the output coordinate
    /// (`x`, `y`).
    pub open spec fn color_at(self, x: int, y: int) -> Color {
        filter_color_spec(y - self.offset().0, x - self.offset().1)
    }
}

/// One raw capture: its dimensions, its place in the series and its samples.
#[derive(Clone, Copy, Debug)]
pub struct Frame<'a> {
    width: u32,
    height: u32,
    sequence_number: u32,
    group: u32,
    position_in_group: u32,
    pixel_store: &'a [u8],
}

impl<'a> View for Frame<'a> {
    type V = FrameModel;

    closed spec fn view(&self) -> FrameModel {
        FrameModel {
            width: self.width as nat,
            height: self.height as nat,
            sequence_number: self.sequence_number as nat,
            group: self.group as nat,
            position: self.position_in_group as nat,
            bytes: self.pixel_store@,
        }
    }
}

impl<'a> Frame<'a> {
    /// What holds of every frame: its content is well formed.
    #[verifier::type_invariant]
    pub open spec fn inv(self) -> bool {
        self@.wf()
    }

    /// Builds a frame from its metadata and its samples.
    ///
    /// `pixel_store` starts at the first sample. It may be shorter than the
    /// plane: samples beyond its end read as zero.
    pub fn new(exif: &ExifData, pixel_store: &'a [u8]) -> (frame: Result<Frame<'a>, MergeError>)
        ensures
            match frame {
                Ok(f) => {
                    &&& exif.width > 0
                    &&& exif.height > 0
                    &&& valid_sequence(exif.sequence_number as int)
                    &&& f@.wf()
                    &&& f@.width == exif.width
                    &&& f@.height == exif.height
                    &&& f@.sequence_number == exif.sequence_number
                    &&& f@.bytes == pixel_store@
                },
                Err(e) => {
                    if exif.width == 0 {
                        e == MergeError::MetadataFieldInvalid(MetadataField::Width)
                    } else if exif.height == 0 {
                        e == MergeError::MetadataFieldInvalid(MetadataField::Height)
                    } else {
                        &&& !valid_sequence(exif.sequence_number as int)
                        &&& e == MergeError::InvalidSequence(exif.sequence_number)
                    }
                },
            },
    {
        if exif.width == 0 {
            return Err(MergeError::MetadataFieldInvalid(MetadataField::Width));
        }
        if exif.height == 0 {
            return Err(MergeError::MetadataFieldInvalid(MetadataField::Height));
        }
        match map_sequence(exif.sequence_number) {
            Ok((group, position)) => Ok(
                Frame {
                    width: exif.width,
                    height: exif.height,
                    sequence_number: exif.sequence_number,
                    group,
                    position_in_group: position,
                    pixel_store,
                },
            ),
            Err(e) => Err(e),
        }
    }

    /// Width of the raw plane, in pixels.
    pub fn width(&self) -> (width: u32)
        ensures
            width == self@.width,
            width > 0,
    {
        proof {
            use_type_invariant(self);
        }
        self.width
    }

    /// Height of the raw plane, in pixels.
    pub fn height(&self) -> (height: u32)
        ensures
            height == self@.height,
            height > 0,
    {
        proof {
            use_type_invariant(self);
        }
        self.height
    }

    /// One-based number of the capture within its series.
    pub fn sequence_number(&self) -> (seq: u32)
        ensures
            seq == self@.sequence_number,
            1 <= seq <= 16,
    {
        proof {
            use_type_invariant(self);
        }
        self.sequence_number
    }

    /// The group of four that the capture belongs to.
    pub fn group(&self) -> (group: u32)
        ensures
            group == self@.group,
            group < 4,
    {
        proof {
            use_type_invariant(self);
        }
        self.group
    }

    /// The capture's place within its group.
    pub fn position_in_group(&self) -> (position: u32)
        ensures
            position == self@.position,
            position < 4,
    {
        proof {
            use_type_invariant(self);
        }
        self.position_in_group
    }

    /// The frame's place in the order of a frame set: `4 * group + position`.
    pub fn slot(&self) -> (slot: u32)
        ensures
            slot == self@.slot(),
            slot < 16,
    {
        proof {
            use_type_invariant(self);
        }
        4 * self.group + self.position_in_group
    }

    fn byte(&self, index: u128) -> (b: u8)
        ensures
            b == self@.byte(index as int),
    {
        if index < self.pixel_store.len() as u128 {
            self.pixel_store[index as usize]
        } else {
            0
        }
    }

    /// The sample at column `x` and row `y` of the raw plane.
    ///
    /// Outside the plane the sample is zero, and so is every byte that the
    /// pixel store is too short to hold.
    pub fn sample(&self, x: u32, y: u32) -> (sample: u16)
        ensures
            sample == self@.sample(x as int, y as int),
    {
        if x >= self.width || y >= self.height {
            return 0;
        }
        assert(0 <= y as int * self.width as int <= 0xffff_ffff * 0xffff_ffff)
            by (nonlinear_arith)
            requires
                0 <= self.width <= 0xffff_ffff,
                0 <= y <= 0xffff_ffff,
        ;
        let at: u128 = 2 * (y as u128 * self.width as u128 + x as u128);
        let low: u8 = self.byte(at);
        let high: u8 = self.byte(at + 1);
        low as u16 + 256 * (high as u16)
    }

    /// By how many rows and columns the frame is shifted within the
    /// 2-by-2 grid of sensor positions of its group.
    pub fn offset(&self) -> (offset: (u32, u32))
        ensures
            offset.0 == self@.offset().0,
            offset.1 == self@.offset().1,
            offset.0 <= 1,
            offset.1 <= 1,
    {
        match self.position_in_group {
            0 => (1, 1),
            1 => (0, 1),
            2 => (0, 0),
            _ => (1, 0),
        }
    }

    /// The sample that the frame holds for the output coordinate (`x`, `y`):
    /// the sample of the raw plane at that coordinate less the frame's offset,
    /// zero where that falls outside the plane.
    pub fn sample_at(&self, x: u32, y: u32) -> (sample: u16)
        ensures
            sample == self@.sample_at(x as int, y as int),
    {
        let (row_offset, col_offset): (u32, u32) = self.offset();
        if x < col_offset || y < row_offset {
            0
        } else {
            self.sample(x - col_offset, y - row_offset)
        }
    }

    /// The filter colour through which the frame saw the output coordinate
    /// (`x`, `y`): the colour of the site at that coordinate less the frame's
    /// offset. The tiling goes on beyond the edges of the plane.
    pub fn color_at(&self, x: u32, y: u32) -> (color: Color)
        ensures
            color == self@.color_at(x as int, y as int),
    {
        let (row_offset, col_offset): (u32, u32) = self.offset();
        filter_color(y.wrapping_sub(row_offset), x.wrapping_sub(col_offset))
    }
}

/// The contents of a sequence of frames.
pub open spec fn models<'a>(frames: Seq<Frame<'a>>) -> Seq<FrameModel> {
    frames.map_values(|frame: Frame<'a>| frame@)
}

} // verus!
