use tinyrenderer::tga::TgaError;
use tinyrenderer::tga::TGAHeader;
use tinyrenderer::tga::TGAImage;
use tinyrenderer::tga::TGAHEADER_BYTES_COUNT;

fn sample_header() -> TGAHeader {
    TGAHeader {
        id_length: 1,
        color_map_type: 0,
        image_type: 2,
        color_map_origin: 0x0102,
        color_map_entries_count: 0x0304,
        color_map_bits_per_entry: 5,
        image_origin_x: 0x0607,
        image_origin_y: 0x0809,
        image_width: 0x0a0b,
        image_height: 0x0c0d,
        image_bits_per_pixel: 32,
        image_descriptor: 8,
    }
}

#[test]
fn header_bytes_are_little_endian() {
    let h = sample_header();
    let bytes = h.to_bytes();
    assert_eq!(bytes.len(), TGAHEADER_BYTES_COUNT);
    assert_eq!(
        bytes,
        vec![
            1, 0, 2, 0x02, 0x01, 0x04, 0x03, 5, 0x07, 0x06, 0x09, 0x08, 0x0b, 0x0a, 0x0d, 0x0c,
            32, 8
        ]
    );
}

#[test]
fn header_round_trips_through_its_bytes() {
    let h = sample_header();
    let bytes = h.to_bytes();
    let back = TGAHeader::from_bytes(bytes.as_slice()).unwrap();
    assert_eq!(back, h);
}

#[test]
fn short_header_is_refused() {
    let bytes: Vec<u8> = vec![0; 17];
    assert_eq!(
        TGAHeader::from_bytes(bytes.as_slice()).unwrap_err(),
        TgaError::TruncatedHeader
    );
}

#[test]
fn extra_header_bytes_are_ignored() {
    let mut bytes = sample_header().to_bytes();
    bytes.push(0xff);
    let back = TGAHeader::from_bytes(bytes.as_slice()).unwrap();
    assert_eq!(back, sample_header());
}

#[test]
fn new_image_is_truecolor_and_zeroed() {
    let img = TGAImage::new(3, 2);
    assert_eq!(img.get_width(), 3);
    assert_eq!(img.get_height(), 2);
    let stream = img.image_to_bytes();
    assert_eq!(stream.len(), 18 + 3 * 2 * 4);
    // Uncompressed truecolor, 32 bits per pixel, alpha-depth descriptor.
    assert_eq!(stream[2], 2);
    assert_eq!(stream[12], 3);
    assert_eq!(stream[14], 2);
    assert_eq!(stream[16], 32);
    assert_eq!(stream[17], 8);
    assert!(stream[18..].iter().all(|b| *b == 0));
}

#[test]
fn set_color_writes_bgra_at_the_pixel_offset() {
    let mut img = TGAImage::new(3, 2);
    img.set_color((1, 1), (10, 20, 30, 40));
    let stream = img.image_to_bytes();
    let base = 18 + (1 + 1 * 3) * 4;
    assert_eq!(stream[base], 30); // blue
    assert_eq!(stream[base + 1], 20); // green
    assert_eq!(stream[base + 2], 10); // red
    assert_eq!(stream[base + 3], 40); // alpha
    for (i, b) in stream[18..].iter().enumerate() {
        if i < 16 || i > 19 {
            assert_eq!(*b, 0);
        }
    }
}

#[test]
fn saved_image_reloads_with_identical_header_and_pixels() {
    // Serializing a bitmap and reading the stream back yields the same
    // header fields and pixel bytes.
    let mut img = TGAImage::new(4, 3);
    img.set_color((0, 0), (255, 0, 0, 255));
    img.set_color((3, 2), (0, 255, 0, 255));
    img.set_color((2, 1), (1, 2, 3, 4));
    let stream = img.image_to_bytes();
    let back = TGAImage::image_from_bytes(&stream).unwrap();
    assert_eq!(back.get_width(), 4);
    assert_eq!(back.get_height(), 3);
    assert_eq!(back.image_to_bytes(), stream);
}

#[test]
fn truncated_pixel_data_is_refused() {
    let img = TGAImage::new(2, 2);
    let mut stream = img.image_to_bytes();
    stream.pop();
    assert_eq!(
        TGAImage::image_from_bytes(&stream).unwrap_err(),
        TgaError::TruncatedImage
    );
}

#[test]
fn trailing_bytes_after_pixel_data_are_ignored() {
    let img = TGAImage::new(2, 2);
    let mut stream = img.image_to_bytes();
    stream.push(9);
    let back = TGAImage::image_from_bytes(&stream).unwrap();
    assert_eq!(back.image_to_bytes().len(), 18 + 16);
}
