use bitmap::le::u32_le_bytes;
use bitmap::Bitmap;

fn encode(image: &Bitmap) -> Vec<u8> {
    let mut file = Vec::new();
    image.write(&mut file);
    file
}

fn field(file: &[u8], at: usize) -> u32 {
    u32::from_le_bytes([file[at], file[at + 1], file[at + 2], file[at + 3]])
}

#[test]
fn two_by_two_file_is_exact() {
    let mut image = Bitmap::new(2, 2);
    for y in 0..2 {
        for x in 0..2 {
            image.set_pixel(x, y, (10, 20, 30));
        }
    }
    let file = encode(&image);
    let file_header: [u8; 14] = [b'B', b'M', 70, 0, 0, 0, 0, 0, 0, 0, 54, 0, 0, 0];
    let info_header: [u8; 40] = [
        40, 0, 0, 0, 2, 0, 0, 0, 2, 0, 0, 0, 1, 0, 24, 0, 0, 0, 0, 0, 16, 0, 0, 0, 72, 0, 0, 0,
        72, 0, 0, 0, 0, 0, 0, 0, 0, 0, 0, 0,
    ];
    let pixels: [u8; 16] = [
        30, 20, 10, 30, 20, 10, 30, 20, 10, 30, 20, 10, 0xFF, 0xFF, 0xFF, 0xFF,
    ];
    assert_eq!(&file[..14], &file_header);
    assert_eq!(&file[14..54], &info_header);
    assert_eq!(&file[54..], &pixels);
    assert_eq!(file.len(), 54 + 16);
}

#[test]
fn headers_match_the_written_file() {
    let mut image = Bitmap::new(5, 3);
    image.set_pixel(4, 2, (9, 8, 7));
    let file = encode(&image);
    assert_eq!(&file[..14], &image.file_header());
    assert_eq!(&file[14..54], &image.info_header());
    assert_eq!(&file[54..], image.pixel_data());
}

#[test]
fn file_header_of_an_empty_image() {
    let image = Bitmap::new(0, 0);
    assert_eq!(image.file_header(), [0x42, 0x4D, 54, 0, 0, 0, 0, 0, 0, 0, 54, 0, 0, 0]);
}

#[test]
fn info_header_fixed_fields() {
    let header = Bitmap::new(6, 9).info_header();
    assert_eq!(field(&header, 0), 40);
    assert_eq!(field(&header, 4), 6);
    assert_eq!(field(&header, 8), 9);
    assert_eq!(&header[12..14], &[1, 0]);
    assert_eq!(&header[14..16], &[24, 0]);
    assert_eq!(field(&header, 16), 0);
    assert_eq!(field(&header, 24), 72);
    assert_eq!(field(&header, 28), 72);
    assert_eq!(&header[32..40], &[0; 8]);
}

#[test]
fn size_fields_agree_with_the_file() {
    for (width, height) in [(0, 0), (1, 1), (2, 2), (3, 7), (4, 4), (17, 5), (300, 200)] {
        let image = Bitmap::new(width, height);
        let file = encode(&image);
        let image_size = field(&file, 34);
        assert_eq!(image_size as usize, image.pixel_data().len());
        assert_eq!(field(&file, 2), 54 + image_size);
        assert_eq!(field(&file, 2) as usize, file.len());
        assert_eq!(field(&file, 10), 54);
    }
}

#[test]
fn wide_fields_are_little_endian() {
    let image = Bitmap::new(300, 200);
    let file = encode(&image);
    // 180054, 300, 200 and 180000
    assert_eq!(&file[2..6], &[0x56, 0xBF, 0x02, 0x00]);
    assert_eq!(&file[18..22], &[0x2C, 0x01, 0x00, 0x00]);
    assert_eq!(&file[22..26], &[0xC8, 0x00, 0x00, 0x00]);
    assert_eq!(&file[34..38], &[0x20, 0xBF, 0x02, 0x00]);
}

#[test]
fn u32_le_bytes_puts_the_low_byte_first() {
    assert_eq!(u32_le_bytes(0), [0, 0, 0, 0]);
    assert_eq!(u32_le_bytes(1), [1, 0, 0, 0]);
    assert_eq!(u32_le_bytes(0x1234_5678), [0x78, 0x56, 0x34, 0x12]);
    assert_eq!(u32_le_bytes(u32::MAX), [0xFF, 0xFF, 0xFF, 0xFF]);
    assert_eq!(u32_le_bytes(0x0100_0000), 0x0100_0000u32.to_le_bytes());
}

#[test]
fn encoding_twice_gives_the_same_bytes() {
    let mut image = Bitmap::new(3, 3);
    image.set_pixel(1, 2, (5, 6, 7));
    let first = encode(&image);
    let second = encode(&image);
    assert_eq!(first, second);
}

#[test]
fn encoding_the_same_image_into_different_sinks() {
    let mut image = Bitmap::new(2, 3);
    image.set_pixel(0, 1, (5, 6, 7));
    let mut first = vec![1, 2, 3];
    let mut second = Vec::new();
    image.write(&mut first);
    image.write(&mut second);
    assert_eq!(&first[3..], &second[..]);
}

#[test]
fn write_appends_to_what_the_sink_held() {
    let image = Bitmap::new(1, 1);
    let mut sink = vec![0xAA, 0xBB];
    image.write(&mut sink);
    assert_eq!(&sink[..2], &[0xAA, 0xBB]);
    assert_eq!(sink.len(), 2 + 54 + 4);
    assert_eq!(&sink[2..4], b"BM");
}

#[test]
fn write_leaves_the_image_as_it_was() {
    let mut image = Bitmap::new(2, 2);
    image.set_pixel(1, 1, (1, 2, 3));
    let before = image.pixel_data().to_vec();
    let _ = encode(&image);
    assert_eq!(image.pixel_data(), &before[..]);
    assert_eq!(image.width(), 2);
    assert_eq!(image.height(), 2);
}
