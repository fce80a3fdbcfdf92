use pixelshift::cfa::Color;
use pixelshift::error::{MergeError, MetadataField};
use pixelshift::exif::ExifData;
use pixelshift::frame::Frame;

fn exif(width: u32, height: u32, sequence_number: u32) -> ExifData {
    ExifData { width, height, sequence_number, offset: 8 }
}

fn le_bytes(samples: &[u16]) -> Vec<u8> {
    samples.iter().flat_map(|s| s.to_le_bytes()).collect()
}

#[test]
fn frame_keeps_its_metadata() {
    let data = le_bytes(&[1, 2, 3, 4, 5, 6]);
    let frame = Frame::new(&exif(3, 2, 7), &data).unwrap();
    assert_eq!(frame.width(), 3);
    assert_eq!(frame.height(), 2);
    assert_eq!(frame.sequence_number(), 7);
    assert_eq!(frame.group(), 0);
    assert_eq!(frame.position_in_group(), 3);
    assert_eq!(frame.slot(), 3);
}

#[test]
fn frame_slot_follows_the_sequence_number() {
    let data: Vec<u8> = Vec::new();
    let slots: Vec<u32> =
        (1..=16u32).map(|seq| Frame::new(&exif(1, 1, seq), &data).unwrap().slot()).collect();
    assert_eq!(slots, vec![5, 4, 7, 6, 1, 0, 3, 2, 13, 12, 15, 14, 9, 8, 11, 10]);
}

#[test]
fn frame_without_width_or_height_is_refused() {
    let data: Vec<u8> = Vec::new();
    assert_eq!(
        Frame::new(&exif(0, 2, 1), &data).err(),
        Some(MergeError::MetadataFieldInvalid(MetadataField::Width))
    );
    assert_eq!(
        Frame::new(&exif(2, 0, 1), &data).err(),
        Some(MergeError::MetadataFieldInvalid(MetadataField::Height))
    );
    assert_eq!(
        Frame::new(&exif(0, 0, 0), &data).err(),
        Some(MergeError::MetadataFieldInvalid(MetadataField::Width))
    );
}

#[test]
fn frame_with_invalid_sequence_is_refused() {
    let data: Vec<u8> = Vec::new();
    assert_eq!(Frame::new(&exif(2, 2, 0), &data).err(), Some(MergeError::InvalidSequence(0)));
    assert_eq!(Frame::new(&exif(2, 2, 17), &data).err(), Some(MergeError::InvalidSequence(17)));
}

#[test]
fn samples_are_little_endian_and_row_major() {
    let data: Vec<u8> = vec![0x34, 0x12, 0xff, 0x00, 0x00, 0xff, 0xff, 0xff, 0x01, 0x00, 0x00, 0x80];
    let frame = Frame::new(&exif(3, 2, 1), &data).unwrap();
    assert_eq!(frame.sample(0, 0), 0x1234);
    assert_eq!(frame.sample(1, 0), 0x00ff);
    assert_eq!(frame.sample(2, 0), 0xff00);
    assert_eq!(frame.sample(0, 1), 0xffff);
    assert_eq!(frame.sample(1, 1), 1);
    assert_eq!(frame.sample(2, 1), 0x8000);
}

#[test]
fn samples_outside_the_plane_are_zero() {
    let data = le_bytes(&[11, 12, 13, 14, 15, 16, 17, 18]);
    let frame = Frame::new(&exif(2, 2, 1), &data).unwrap();
    assert_eq!(frame.sample(1, 1), 14);
    assert_eq!(frame.sample(2, 0), 0);
    assert_eq!(frame.sample(0, 2), 0);
    assert_eq!(frame.sample(2, 2), 0);
    assert_eq!(frame.sample(u32::MAX, 0), 0);
    assert_eq!(frame.sample(0, u32::MAX), 0);
    assert_eq!(frame.sample(u32::MAX, u32::MAX), 0);
}

#[test]
fn samples_beyond_the_pixel_store_are_zero() {
    let data: Vec<u8> = vec![0x01, 0x02, 0x03];
    let frame = Frame::new(&exif(2, 2, 1), &data).unwrap();
    assert_eq!(frame.sample(0, 0), 0x0201);
    assert_eq!(frame.sample(1, 0), 0x0003);
    assert_eq!(frame.sample(0, 1), 0);
    assert_eq!(frame.sample(1, 1), 0);
    let empty: Vec<u8> = Vec::new();
    let frame = Frame::new(&exif(u32::MAX, u32::MAX, 1), &empty).unwrap();
    assert_eq!(frame.sample(u32::MAX - 1, u32::MAX - 1), 0);
}

#[test]
fn offsets_follow_the_position() {
    let data: Vec<u8> = Vec::new();
    let offset = |seq: u32| Frame::new(&exif(1, 1, seq), &data).unwrap().offset();
    // sequence numbers 6, 5, 8, 7 are the positions 0, 1, 2, 3
    assert_eq!(offset(6), (1, 1));
    assert_eq!(offset(5), (0, 1));
    assert_eq!(offset(8), (0, 0));
    assert_eq!(offset(7), (1, 0));
}

#[test]
fn sample_at_undoes_the_offset() {
    let data = le_bytes(&[10, 20, 30, 40, 50, 60]);
    // position 0: one row and one column
    let frame = Frame::new(&exif(3, 2, 6), &data).unwrap();
    assert_eq!(frame.sample_at(1, 1), 10);
    assert_eq!(frame.sample_at(2, 1), 20);
    assert_eq!(frame.sample_at(3, 2), 60);
    assert_eq!(frame.sample_at(0, 0), 0);
    assert_eq!(frame.sample_at(0, 1), 0);
    assert_eq!(frame.sample_at(1, 0), 0);
    assert_eq!(frame.sample_at(4, 1), 0);
    // position 1: one column
    let frame = Frame::new(&exif(3, 2, 5), &data).unwrap();
    assert_eq!(frame.sample_at(1, 0), 10);
    assert_eq!(frame.sample_at(3, 1), 60);
    assert_eq!(frame.sample_at(0, 0), 0);
    // position 2: no shift
    let frame = Frame::new(&exif(3, 2, 8), &data).unwrap();
    assert_eq!(frame.sample_at(0, 0), 10);
    assert_eq!(frame.sample_at(2, 1), 60);
    // position 3: one row
    let frame = Frame::new(&exif(3, 2, 7), &data).unwrap();
    assert_eq!(frame.sample_at(0, 1), 10);
    assert_eq!(frame.sample_at(2, 2), 60);
    assert_eq!(frame.sample_at(0, 0), 0);
}

#[test]
fn color_at_undoes_the_offset() {
    let data: Vec<u8> = Vec::new();
    let colors = |seq: u32| {
        let frame = Frame::new(&exif(2, 2, seq), &data).unwrap();
        [frame.color_at(0, 0), frame.color_at(1, 0), frame.color_at(0, 1), frame.color_at(1, 1)]
    };
    assert_eq!(colors(6), [Color::Blue, Color::Green, Color::Green, Color::Red]);
    assert_eq!(colors(5), [Color::Green, Color::Red, Color::Blue, Color::Green]);
    assert_eq!(colors(8), [Color::Red, Color::Green, Color::Green, Color::Blue]);
    assert_eq!(colors(7), [Color::Green, Color::Blue, Color::Red, Color::Green]);
}

#[test]
fn the_frames_of_a_group_see_one_red_two_green_one_blue() {
    let data: Vec<u8> = Vec::new();
    let frames: Vec<Frame> =
        (5..=8u32).map(|seq| Frame::new(&exif(4, 4, seq), &data).unwrap()).collect();
    for y in 0..6u32 {
        for x in 0..6u32 {
            let count =
                |color: Color| frames.iter().filter(|f| f.color_at(x, y) == color).count();
            assert_eq!(count(Color::Red), 1);
            assert_eq!(count(Color::Green), 2);
            assert_eq!(count(Color::Blue), 1);
        }
    }
}
