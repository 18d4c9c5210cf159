use beetle::image::{jpeg_to_image, png_frame_to_image, JpegImage, PngFrame};
use beetle::image::{decode_bmp, encode_bmp, ImageBuffer};
use beetle::skin::ColorRgba;

fn create_synthetic_24bit_bmp_via_encoder(w: u32, h: u32, bgr_color: (u8, u8, u8)) -> Vec<u8> {
    let img = ImageBuffer::new(w, h, ColorRgba::new(bgr_color.2, bgr_color.1, bgr_color.0, 255));
    img.encode_bmp_bytes()
}

fn create_synthetic_24bit_bmp_by_hand(w: u32, h: u32, bgr_color: (u8, u8, u8)) -> Vec<u8> {
    let row_stride = ((w * 3 + 3) / 4 * 4) as usize;
    let row_padding = row_stride - (w * 3) as usize;
    let pixel_bytes_len = row_stride * h as usize;
    let total_size = 54 + pixel_bytes_len;

    let mut data = Vec::with_capacity(total_size);
    data.extend_from_slice(b"BM");
    data.extend_from_slice(&(total_size as u32).to_le_bytes());
    data.extend_from_slice(&[0, 0, 0, 0]);
    data.extend_from_slice(&54u32.to_le_bytes());
    data.extend_from_slice(&40u32.to_le_bytes());
    data.extend_from_slice(&(w as i32).to_le_bytes());
    data.extend_from_slice(&(h as i32).to_le_bytes());
    data.extend_from_slice(&1u16.to_le_bytes());
    data.extend_from_slice(&24u16.to_le_bytes());
    data.extend_from_slice(&0u32.to_le_bytes());
    data.extend_from_slice(&(pixel_bytes_len as u32).to_le_bytes());
    data.extend_from_slice(&2835u32.to_le_bytes());
    data.extend_from_slice(&2835u32.to_le_bytes());
    data.extend_from_slice(&0u32.to_le_bytes());
    data.extend_from_slice(&0u32.to_le_bytes());
    for _ in 0..h {
        for _ in 0..w {
            data.push(bgr_color.0);
            data.push(bgr_color.1);
            data.push(bgr_color.2);
        }
        for _ in 0..row_padding {
            data.push(0);
        }
    }
    data
}

#[test]
fn image_test_bmp_decoder_24bit() {
    let bmp_data = create_synthetic_24bit_bmp_by_hand(2, 3, (255, 128, 64));
    let img = ImageBuffer::from_bmp_bytes(&bmp_data).expect("Failed to decode synthetic BMP");
    assert_eq!(img.width, 2);
    assert_eq!(img.height, 3);
    assert_eq!(img.pixels.len(), 6);
    assert_eq!(img.pixels[0], ColorRgba::new(64, 128, 255, 255));
}

#[test]
fn mod_test_bmp_decoder_24bit() {
    let bmp_data = create_synthetic_24bit_bmp_via_encoder(2, 3, (255, 128, 64));
    let img = ImageBuffer::from_bmp_bytes(&bmp_data).expect("Failed to decode synthetic BMP");
    assert_eq!(img.width, 2);
    assert_eq!(img.height, 3);
    assert_eq!(img.pixels.len(), 6);
    assert_eq!(img.pixels[0], ColorRgba::new(64, 128, 255, 255));
}

#[test]
fn test_bmp_decoder_8bit_paletted() {
    let mut data = Vec::new();
    data.extend_from_slice(b"BM");
    let file_size: u32 = 14 + 40 + (256 * 4) + 8;
    data.extend_from_slice(&file_size.to_le_bytes());
    data.extend_from_slice(&[0; 4]);
    let data_offset: u32 = 14 + 40 + (256 * 4);
    data.extend_from_slice(&data_offset.to_le_bytes());

    data.extend_from_slice(&40u32.to_le_bytes());
    data.extend_from_slice(&2i32.to_le_bytes());
    data.extend_from_slice(&2i32.to_le_bytes());
    data.extend_from_slice(&1u16.to_le_bytes());
    data.extend_from_slice(&8u16.to_le_bytes());
    data.extend_from_slice(&0u32.to_le_bytes());
    data.extend_from_slice(&8u32.to_le_bytes());
    data.extend_from_slice(&0u32.to_le_bytes());
    data.extend_from_slice(&0u32.to_le_bytes());
    data.extend_from_slice(&256u32.to_le_bytes());
    data.extend_from_slice(&0u32.to_le_bytes());

    data.extend_from_slice(&[0, 0, 255, 0]);
    data.extend_from_slice(&[255, 0, 0, 0]);
    for _ in 2..256 {
        data.extend_from_slice(&[0, 0, 0, 0]);
    }

    data.extend_from_slice(&[0, 1, 0, 0]);
    data.extend_from_slice(&[1, 0, 0, 0]);

    let img = ImageBuffer::from_bmp_bytes(&data).expect("Failed to decode 8-bit paletted BMP");
    assert_eq!(img.width, 2);
    assert_eq!(img.height, 2);
    assert_eq!(img.pixels[0], ColorRgba::new(0, 0, 255, 255));
    assert_eq!(img.pixels[1], ColorRgba::new(255, 0, 0, 255));
    assert_eq!(img.pixels[2], ColorRgba::new(255, 0, 0, 255));
    assert_eq!(img.pixels[3], ColorRgba::new(0, 0, 255, 255));
}

#[test]
fn image_test_from_bytes_magic_detection() {
    let bmp_data = create_synthetic_24bit_bmp_by_hand(2, 2, (10, 20, 30));
    let img = ImageBuffer::from_bytes(&bmp_data).expect("Should decode BMP from generic bytes");
    assert_eq!(img.width, 2);
    assert_eq!(img.height, 2);
}

#[test]
fn mod_test_from_bytes_magic_detection() {
    let bmp_data = create_synthetic_24bit_bmp_via_encoder(2, 2, (10, 20, 30));
    let img = ImageBuffer::from_bytes(&bmp_data).expect("Should decode BMP from generic bytes");
    assert_eq!(img.width, 2);
    assert_eq!(img.height, 2);
}

#[test]
fn image_test_png_decoder_under_bga_enhanced() {
    let mut png_bytes = Vec::new();
    {
        let mut encoder = png::Encoder::new(&mut png_bytes, 2, 2);
        encoder.set_color(png::ColorType::Rgba);
        encoder.set_depth(png::BitDepth::Eight);
        let mut writer = encoder.write_header().expect("write header");
        let data = [255, 0, 0, 255, 0, 255, 0, 255, 0, 0, 255, 255, 255, 255, 255, 255];
        writer.write_image_data(&data).expect("write data");
    }
    let img = ImageBuffer::from_bytes(&png_bytes).expect("Should decode PNG via from_bytes");
    assert_eq!(img.width, 2);
    assert_eq!(img.height, 2);
    assert_eq!(img.pixels.len(), 4);
    assert_eq!(img.pixels[0], ColorRgba::new(255, 0, 0, 255));
    assert_eq!(img.pixels[1], ColorRgba::new(0, 255, 0, 255));
}

#[test]
fn mod_test_png_decoder_under_bga_enhanced() {
    let png_bytes: &[u8] = &[
        0x89, 0x50, 0x4e, 0x47, 0x0d, 0x0a, 0x1a, 0x0a, 0x00, 0x00, 0x00, 0x0d, 0x49, 0x48, 0x44,
        0x52, 0x00, 0x00, 0x00, 0x01, 0x00, 0x00, 0x00, 0x01, 0x08, 0x00, 0x00, 0x00, 0x00, 0x3a,
        0x7e, 0x9b, 0x55, 0x00, 0x00, 0x00, 0x0a, 0x49, 0x44, 0x41, 0x54, 0x78, 0x9c, 0x63, 0x60,
        0x00, 0x00, 0x00, 0x02, 0x00, 0x01, 0x48, 0xaf, 0xa4, 0x71, 0x00, 0x00, 0x00, 0x00, 0x49,
        0x45, 0x4e, 0x44, 0xae, 0x42, 0x60, 0x82,
    ];
    let img = ImageBuffer::from_bytes(png_bytes).expect("Should decode PNG via from_bytes");
    assert_eq!(img.width, 1);
    assert_eq!(img.height, 1);
    assert_eq!(img.pixels.len(), 1);
    assert_eq!(img.pixels[0], ColorRgba::new(0, 0, 0, 255));
}

#[test]
fn bmp_encode_decode_roundtrip() {
    let mut img = ImageBuffer::new(3, 2, ColorRgba::new(1, 2, 3, 255));
    img.pixels[4] = ColorRgba::new(200, 100, 50, 255);
    let bytes = encode_bmp(&img);
    let back = decode_bmp(&bytes).expect("decode");
    assert_eq!(back.width, 3);
    assert_eq!(back.height, 2);
    assert_eq!(back.pixels, img.pixels);
}

#[test]
fn bmp_rejects_bad_magic() {
    let mut bytes = create_synthetic_24bit_bmp_by_hand(1, 1, (1, 2, 3));
    bytes[0] = b'X';
    assert!(ImageBuffer::from_bmp_bytes(&bytes).is_none());
    assert!(decode_bmp(&bytes[..10]).is_none());
}

#[test]
fn jpeg_decoding_rejects_garbage() {
    assert!(ImageBuffer::from_jpeg_bytes(&[0xff, 0xd8, 0x00, 0x01, 0x02]).is_none());
    assert!(ImageBuffer::from_png_bytes(&[0x89, b'P', b'N', b'G', 0, 0]).is_none());
}

#[test]
fn raw_rgba_bytes_and_scaling() {
    let img = ImageBuffer::new(1, 1, ColorRgba::new(9, 8, 7, 6));
    assert_eq!(img.to_raw_rgba_bytes(), vec![9, 8, 7, 6]);
    let big = img.create_scaled(2, 3);
    assert_eq!((big.width, big.height, big.pixels.len()), (2, 3, 6));
    assert!(big.pixels.iter().all(|p| *p == ColorRgba::new(9, 8, 7, 6)));
    let empty = img.create_scaled(0, 3);
    assert_eq!(empty.pixels.len(), 0);
}

#[test]
fn colors_pack_as_argb() {
    assert_eq!(ColorRgba::new(0x11, 0x22, 0x33, 0x44).to_u32(), 0x44112233);
    assert_eq!(ColorRgba::transparent(), ColorRgba::new(0, 0, 0, 0));
    assert_eq!(ColorRgba::new(1, 2, 3, 4).with_alpha(200), ColorRgba::new(1, 2, 3, 200));
}

#[test]
fn frame_conversion_checks_pixel_count() {
    let f = PngFrame { width: 2, height: 1, color: 2, frame_size: 6, buf: vec![1, 2, 3, 4, 5, 6, 9, 9] };
    let img = png_frame_to_image(f).expect("rgb frame");
    assert_eq!(img.pixels[1].r, 4);
    assert_eq!(img.pixels[1].a, 255);
    let bad = PngFrame { width: 3, height: 1, color: 2, frame_size: 6, buf: vec![1, 2, 3, 4, 5, 6] };
    assert!(png_frame_to_image(bad).is_none());
    let odd = PngFrame { width: 1, height: 1, color: 3, frame_size: 1, buf: vec![7] };
    assert!(png_frame_to_image(odd).is_none());
    let j = JpegImage { width: 1, height: 1, format: 3, bytes: vec![0, 255, 0, 0] };
    let img = jpeg_to_image(j).expect("cmyk image");
    assert_eq!((img.pixels[0].r, img.pixels[0].g, img.pixels[0].b), (255, 0, 255));
    let short = JpegImage { width: 2, height: 2, format: 0, bytes: vec![1, 2, 3] };
    assert!(jpeg_to_image(short).is_none());
}

#[test]
fn encode_ignores_pixels_past_the_image() {
    let mut img = ImageBuffer::new(2, 1, ColorRgba::new(1, 2, 3, 255));
    let exact = encode_bmp(&img);
    img.pixels.push(ColorRgba::new(9, 9, 9, 255));
    assert_eq!(encode_bmp(&img), exact);
    let back = decode_bmp(&exact).expect("decodes");
    assert_eq!(back.pixels.len(), 2);
}
