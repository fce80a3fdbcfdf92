use pixelshift::error::{MergeError, MetadataField};
use pixelshift::exif::{read_exif, ExifData};

const LISTING: &str = "ExifTool Version Number         : 12.40\n\
File Name                       : IMGP0001.DNG\n\
Image Width                     : 6000\n\
Image Height                    : 4000\n\
Strip Offsets                   : 127488\n\
Sequence Number                 : 3\n\
Create Date                     : 2023:05:01 10:11:12\n";

#[test]
fn listing_is_read() {
    assert_eq!(
        read_exif(LISTING.as_bytes()),
        Ok(ExifData { width: 6000, height: 4000, sequence_number: 3, offset: 127488 })
    );
}

#[test]
fn last_line_needs_no_line_feed() {
    let text = "Image Width: 2\nImage Height: 3\nSequence Number: 4\nStrip Offsets: 5";
    assert_eq!(
        read_exif(text.as_bytes()),
        Ok(ExifData { width: 2, height: 3, sequence_number: 4, offset: 5 })
    );
}

#[test]
fn blanks_around_key_and_value_are_ignored() {
    let text = "\t Image Width \t:\t 2 \r\n  Image Height:3\r\nSequence Number:   4\r\n Strip Offsets : 5 \r\n";
    assert_eq!(
        read_exif(text.as_bytes()),
        Ok(ExifData { width: 2, height: 3, sequence_number: 4, offset: 5 })
    );
}

#[test]
fn plus_sign_and_leading_zeros_are_accepted() {
    let text = "Image Width: +2\nImage Height: 003\nSequence Number: +04\nStrip Offsets: 5\n";
    assert_eq!(
        read_exif(text.as_bytes()),
        Ok(ExifData { width: 2, height: 3, sequence_number: 4, offset: 5 })
    );
}

#[test]
fn largest_number_is_accepted() {
    let text = "Image Width: 4294967295\nImage Height: 3\nSequence Number: 4\nStrip Offsets: 5\n";
    assert_eq!(
        read_exif(text.as_bytes()),
        Ok(ExifData { width: 4294967295, height: 3, sequence_number: 4, offset: 5 })
    );
}

#[test]
fn number_beyond_32_bits_is_invalid() {
    let text = "Image Width: 4294967296\nImage Height: 3\nSequence Number: 4\nStrip Offsets: 5\n";
    assert_eq!(
        read_exif(text.as_bytes()),
        Err(MergeError::MetadataFieldInvalid(MetadataField::Width))
    );
    let text = "Image Width: 2\nImage Height: 99999999999999999999999999\nSequence Number: 4\nStrip Offsets: 5\n";
    assert_eq!(
        read_exif(text.as_bytes()),
        Err(MergeError::MetadataFieldInvalid(MetadataField::Height))
    );
}

#[test]
fn last_value_of_a_key_counts() {
    let text = "Image Width: 0\nImage Width: 7\nImage Height: 3\nSequence Number: 4\nStrip Offsets: 5\nImage Height: 9\n";
    assert_eq!(
        read_exif(text.as_bytes()),
        Ok(ExifData { width: 7, height: 9, sequence_number: 4, offset: 5 })
    );
}

#[test]
fn only_the_first_separator_splits_a_line() {
    let text = "Time: 10:11:12\nImage Width: 2\nImage Height: 3\nSequence Number: 4\nStrip Offsets: 5\n";
    assert_eq!(
        read_exif(text.as_bytes()),
        Ok(ExifData { width: 2, height: 3, sequence_number: 4, offset: 5 })
    );
    let text = "Image Width: 2:3\nImage Height: 3\nSequence Number: 4\nStrip Offsets: 5\n";
    assert_eq!(
        read_exif(text.as_bytes()),
        Err(MergeError::MetadataFieldInvalid(MetadataField::Width))
    );
}

#[test]
fn keys_are_matched_in_full() {
    let text = "Image Widths: 1\nExif Image Width: 1\nimage width: 1\nImage Height: 3\nSequence Number: 4\nStrip Offsets: 5\n";
    assert_eq!(
        read_exif(text.as_bytes()),
        Err(MergeError::MetadataFieldMissing(MetadataField::Width))
    );
}

#[test]
fn each_missing_field_is_named() {
    let lines = [
        ("Image Width: 2\n", MetadataField::Width),
        ("Image Height: 3\n", MetadataField::Height),
        ("Sequence Number: 4\n", MetadataField::SequenceNumber),
        ("Strip Offsets: 5\n", MetadataField::Offset),
    ];
    for skip in 0..4 {
        let mut text = String::new();
        for (i, (line, _)) in lines.iter().enumerate() {
            if i != skip {
                text.push_str(line);
            }
        }
        assert_eq!(
            read_exif(text.as_bytes()),
            Err(MergeError::MetadataFieldMissing(lines[skip].1))
        );
    }
}

#[test]
fn empty_listing_misses_the_width() {
    assert_eq!(read_exif(b""), Err(MergeError::MetadataFieldMissing(MetadataField::Width)));
}

#[test]
fn zero_is_invalid_for_every_field() {
    let fields = [
        ("Image Width", MetadataField::Width),
        ("Image Height", MetadataField::Height),
        ("Sequence Number", MetadataField::SequenceNumber),
        ("Strip Offsets", MetadataField::Offset),
    ];
    for zero in 0..4 {
        let mut text = String::new();
        for (i, (key, _)) in fields.iter().enumerate() {
            let value = if i == zero { 0 } else { 5 };
            text.push_str(&format!("{} : {}\n", key, value));
        }
        assert_eq!(
            read_exif(text.as_bytes()),
            Err(MergeError::MetadataFieldInvalid(fields[zero].1))
        );
    }
}

#[test]
fn value_that_is_no_number_is_invalid() {
    for bad in ["", "abc", "12a", "-3", "+", "1 2", "0x10", "3.5"] {
        let text = format!(
            "Image Width: 2\nImage Height: 3\nSequence Number: {}\nStrip Offsets: 5\n",
            bad
        );
        assert_eq!(
            read_exif(text.as_bytes()),
            Err(MergeError::MetadataFieldInvalid(MetadataField::SequenceNumber)),
            "value {:?}",
            bad
        );
    }
}

#[test]
fn line_without_separator_is_malformed() {
    let text = "Image Width: 2\nImage Height: 3\nno separator here\nSequence Number: 4\nStrip Offsets: 5\n";
    assert_eq!(read_exif(text.as_bytes()), Err(MergeError::MetadataLineMalformed(2)));
    assert_eq!(read_exif(b"\n"), Err(MergeError::MetadataLineMalformed(0)));
    assert_eq!(read_exif(b"a: b\n\nc: d\n"), Err(MergeError::MetadataLineMalformed(1)));
}

#[test]
fn first_faulty_line_is_reported() {
    let text = "Image Width: x\nbroken\nImage Height: y\n";
    assert_eq!(
        read_exif(text.as_bytes()),
        Err(MergeError::MetadataFieldInvalid(MetadataField::Width))
    );
    let text = "broken\nImage Width: x\n";
    assert_eq!(read_exif(text.as_bytes()), Err(MergeError::MetadataLineMalformed(0)));
    let text = "Image Width: 0\nImage Height: y\n";
    assert_eq!(
        read_exif(text.as_bytes()),
        Err(MergeError::MetadataFieldInvalid(MetadataField::Height))
    );
}

#[test]
fn bytes_that_are_no_text_are_passed_over() {
    let mut text: Vec<u8> = b"Maker Notes : ".to_vec();
    text.extend_from_slice(&[0xff, 0xfe, 0x00, 0x80]);
    text.extend_from_slice(b"\nImage Width: 2\nImage Height: 3\nSequence Number: 4\nStrip Offsets: 5\n");
    assert_eq!(
        read_exif(&text),
        Ok(ExifData { width: 2, height: 3, sequence_number: 4, offset: 5 })
    );
}
