use flate2::write::ZlibEncoder;
use flate2::Compression;
use sta::png::{chunk, crop, paeth, read_png, upscale2x, write_png, Image};
use std::io::Write;

fn solid(w: u32, h: u32, px: [u8; 4]) -> Image {
    Image { width: w, height: h, rgba: px.iter().copied().cycle().take((w * h * 4) as usize).collect() }
}

#[test]
fn a_png_round_trips() {
    let mut image = solid(5, 3, [10, 20, 30, 255]);
    image.rgba[0] = 200;
    let bytes = write_png(&image).unwrap();
    let back = read_png(&bytes).unwrap();
    assert_eq!((back.width, back.height), (5, 3));
    assert_eq!(back.rgba, image.rgba);
}

#[test]
fn crop_is_clamped_to_the_image() {
    let image = solid(4, 4, [1, 2, 3, 4]);
    assert_eq!((crop(&image, 1, 1, 2, 2).width, crop(&image, 1, 1, 2, 2).height), (2, 2));
    // Entirely outside, and partly outside, both stay inside the buffer instead of panicking.
    let out = crop(&image, 9, 9, 4, 4);
    assert_eq!((out.width, out.height), (0, 0));
    let over = crop(&image, 3, 3, 10, 10);
    assert_eq!((over.width, over.height), (1, 1));
}

#[test]
fn upscale_doubles_every_pixel() {
    let image = solid(2, 2, [7, 8, 9, 255]);
    let big = upscale2x(&image);
    assert_eq!((big.width, big.height), (4, 4));
    assert_eq!(big.pixel(3, 3), Some([7, 8, 9, 255]));
}

#[test]
fn png_round_trip() {
    let mut rgba = Vec::new();
    for y in 0..7u32 {
        for x in 0..5u32 {
            rgba.extend_from_slice(&[(x * 40) as u8, (y * 30) as u8, 0x7f, 255]);
        }
    }
    let image = Image { width: 5, height: 7, rgba };
    let png = write_png(&image).unwrap();
    assert_eq!(&png[1..4], b"PNG");
    let back = read_png(&png).unwrap();
    assert_eq!((back.width, back.height), (5, 7));
    assert_eq!(back.pixel(4, 6), Some([160, 180, 0x7f, 255]));
    assert_eq!(back.pixel(0, 0), Some([0, 0, 0x7f, 255]));
    assert_eq!(back.pixel(5, 0), None, "outside the image");
    assert!(read_png(b"not a png at all").is_err());
}

/// The reader must handle every scan-line filter: a hand-built image with all five.
#[test]
fn png_filters() {
    let (w, h) = (4usize, 5usize);
    let mut raw = Vec::new();
    for y in 0..h {
        raw.push(y as u8 % 5); // filters 0..4, one per row
        for x in 0..w * 3 {
            raw.push(((x + y) % 7) as u8);
        }
    }
    let mut encoder = ZlibEncoder::new(Vec::new(), Compression::fast());
    encoder.write_all(&raw).unwrap();
    let compressed = encoder.finish().unwrap();
    let mut png = vec![0x89, b'P', b'N', b'G', 0x0d, 0x0a, 0x1a, 0x0a];
    let mut header = Vec::new();
    header.extend_from_slice(&(w as u32).to_be_bytes());
    header.extend_from_slice(&(h as u32).to_be_bytes());
    header.extend_from_slice(&[8, 2, 0, 0, 0]);
    chunk(&mut png, b"IHDR", &header);
    chunk(&mut png, b"IDAT", &compressed);
    chunk(&mut png, b"IEND", &[]);
    let image = read_png(&png).expect("all five filters");
    assert_eq!((image.width, image.height), (4, 5));
    assert_eq!(image.pixel(0, 0), Some([0, 1, 2, 255]), "row 0 is unfiltered");
    // Row 1 adds the pixel to the left: its first pixel stands as it is, the second is the sum.
    assert_eq!(image.pixel(0, 1), Some([1, 2, 3, 255]));
    assert_eq!(image.pixel(1, 1), Some([1 + 4, 2 + 5, 3 + 6, 255]));
    // Row 2 adds the pixel above.
    assert_eq!(image.pixel(0, 2), Some([2 + 1, 3 + 2, 4 + 3, 255]));
}

#[test]
fn the_nearest_neighbor_predicts() {
    assert_eq!(paeth(10, 10, 5), 10, "ties go to the left");
    assert_eq!(paeth(10, 20, 15), 15);
    assert_eq!(paeth(0, 200, 0), 200);
    assert_eq!(paeth(5, 5, 200), 5);
    assert_eq!(paeth(100, 0, 100), 0);
}

#[test]
fn a_chunk_carries_its_length_and_checksum() {
    let mut out = Vec::new();
    chunk(&mut out, b"IEND", &[]);
    assert_eq!(out, vec![0, 0, 0, 0, b'I', b'E', b'N', b'D', 0xAE, 0x42, 0x60, 0x82]);
}

#[test]
fn broken_pictures_are_refused() {
    let image = solid(2, 2, [1, 2, 3, 4]);
    let good = write_png(&image).unwrap();
    // Cut off, and a wrong signature.
    assert!(read_png(&good[..good.len() / 2]).is_err());
    let mut wrong = good.clone();
    wrong[0] = 0;
    assert!(read_png(&wrong).is_err());
    // A picture of no pixels.
    let mut empty = good.clone();
    empty[16..20].copy_from_slice(&0u32.to_be_bytes());
    assert!(read_png(&empty).is_err());
}

#[test]
fn cropping_keeps_the_pixels() {
    let mut image = solid(3, 3, [0, 0, 0, 255]);
    for i in 0..9usize {
        image.rgba[4 * i] = i as u8;
    }
    let part = crop(&image, 1, 1, 2, 2);
    assert_eq!(part.pixel(0, 0), Some([4, 0, 0, 255]));
    assert_eq!(part.pixel(1, 1), Some([8, 0, 0, 255]));
    let big = upscale2x(&image);
    assert_eq!(big.pixel(4, 3), Some([5, 0, 0, 255]));
}

#[test]
fn an_empty_cut_has_no_size() {
    let image = Image { width: 4, height: 4, rgba: [1, 2, 3, 4].repeat(16) };
    for (x, y, w, h) in [(1, 1, 0, 2), (1, 1, 2, 0), (4, 0, 2, 2), (0, 9, 2, 2)] {
        let cut = crop(&image, x, y, w, h);
        assert_eq!((cut.width, cut.height, cut.rgba.len()), (0, 0, 0));
    }
}
