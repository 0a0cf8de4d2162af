use maat_graphics::shader_handlers::gltf_loader::{keep_decoded, load_images, BufferView};
use maat_graphics::shader_handlers::model_handler::create_blank_image;
use maat_graphics::shader_handlers::texture_handler::{
    checker_pixel, create_checked_image, image_from_bytes, image_from_file, image_pixels, image_size, skips_text,
    texture_from_file, texture_from_file_image, texture_from_image,
};

fn png_of(img: &image::RgbaImage) -> Vec<u8> {
    let mut out = std::io::Cursor::new(Vec::new());
    img.write_to(&mut out, image::ImageOutputFormat::Png).unwrap();
    out.into_inner()
}

#[test]
fn checker_pixels() {
    assert_eq!(checker_pixel(0, 0), [0, 0, 0, 255]);
    assert_eq!(checker_pixel(1, 0), [255, 255, 255, 255]);
    assert_eq!(checker_pixel(3, 4), [255, 255, 255, 255]);
    assert_eq!(checker_pixel(2, 4), [0, 0, 0, 255]);
}

#[test]
fn placeholder_images() {
    let c = create_checked_image();
    assert_eq!(image_size(&c), (2, 2));
    assert_eq!(
        image_pixels(&c),
        vec![0, 0, 0, 255, 255, 255, 255, 255, 255, 255, 255, 255, 0, 0, 0, 255]
    );
    let b = create_blank_image();
    assert_eq!(image_size(&b), (2, 2));
    assert_eq!(image_pixels(&b), vec![255u8; 16]);
}

#[test]
fn file_textures_are_mirrored() {
    let img = image_from_bytes(2, 1, vec![1, 2, 3, 4, 5, 6, 7, 8]).unwrap();
    let t = texture_from_file_image(&img);
    assert_eq!(image_size(&t), (2, 1));
    assert_eq!(image_pixels(&t), vec![5, 6, 7, 8, 1, 2, 3, 4]);
}

#[test]
fn model_images_are_decoded_from_buffers() {
    let source = image::RgbaImage::from_raw(1, 2, vec![9, 8, 7, 6, 5, 4, 3, 2]).unwrap();
    let png = png_of(&source);
    let mut buffer = vec![0u8; 3];
    buffer.extend_from_slice(&png);
    let buffers = vec![vec![1u8, 2, 3], buffer];
    let sources = vec![
        Some(BufferView { buffer: 1, offset: 3, length: png.len() }),
        None,
        Some(BufferView { buffer: 0, offset: 0, length: 3 }),
    ];
    let images = load_images(&buffers, &sources);
    assert_eq!(images.len(), 1);
    assert_eq!(image_size(&images[0]), (1, 2));
    assert_eq!(image_pixels(&images[0]), vec![9, 8, 7, 6, 5, 4, 3, 2]);
}

#[test]
fn only_decoded_images_are_kept() {
    let a = image_from_bytes(1, 1, vec![1, 1, 1, 1]).unwrap();
    let b = image_from_bytes(1, 1, vec![2, 2, 2, 2]).unwrap();
    let kept = keep_decoded(vec![None, Some(a), None, Some(b)]);
    assert_eq!(kept.len(), 2);
    assert_eq!(image_pixels(&kept[0])[0], 1);
    assert_eq!(image_pixels(&kept[1])[0], 2);
}

#[test]
fn texts_left_undrawn() {
    for t in ["", " ", "  ", "a b", "  a", "hello", " a ", "   "] {
        let expected = t.len() == 0 || t.split(' ').filter(|s| s.is_empty()).count() > t.len();
        assert_eq!(skips_text(t.as_bytes()), expected, "text {:?}", t);
    }
    assert!(skips_text(b" "));
    assert!(!skips_text(b"  a"));
}

#[test]
fn textures_from_images_are_mirrored_when_whole() {
    let img = image_from_bytes(1, 2, vec![1, 2, 3, 4, 5, 6, 7, 8]).unwrap();
    let t = texture_from_image(&img).unwrap();
    assert_eq!(image_pixels(&t), vec![1, 2, 3, 4, 5, 6, 7, 8]);
    let wide = image_from_bytes(3, 1, (0u8..12).collect()).unwrap();
    let t = texture_from_image(&wide).unwrap();
    assert_eq!(image_pixels(&t), vec![8, 9, 10, 11, 4, 5, 6, 7, 0, 1, 2, 3]);
}

#[test]
fn file_textures_are_decoded_by_extension_and_mirrored() {
    let source = image::RgbaImage::from_raw(2, 1, vec![1, 2, 3, 4, 5, 6, 7, 8]).unwrap();
    let png = png_of(&source);
    let t = texture_from_file("./textures/grass.png", &png).unwrap();
    assert_eq!(image_size(&t), (2, 1));
    assert_eq!(image_pixels(&t), vec![5, 6, 7, 8, 1, 2, 3, 4]);
    let upper = texture_from_file("GRASS.PNG", &png).unwrap();
    assert_eq!(image_pixels(&upper), vec![5, 6, 7, 8, 1, 2, 3, 4]);
    assert!(texture_from_file("grass.jpg", &png).is_none());
    assert!(texture_from_file("grass", &png).is_none());
    assert!(texture_from_file("grass.txt", &png).is_none());
    assert!(texture_from_file("grass.png", b"not an image").is_none());
    assert!(texture_from_file("grass.png", &[]).is_none());
}

#[test]
fn images_need_four_bytes_a_pixel() {
    assert!(image_from_bytes(2, 2, vec![0u8; 15]).is_none());
    let img = image_from_bytes(2, 2, vec![7u8; 16]).unwrap();
    assert_eq!(image_size(&img), (2, 2));
    assert_eq!(image_pixels(&img), vec![7u8; 16]);
    assert!(image_from_bytes(0, 0, Vec::new()).is_some());
}

#[test]
fn file_images_are_decoded_unmirrored() {
    let source = image::RgbaImage::from_raw(2, 1, vec![1, 2, 3, 4, 5, 6, 7, 8]).unwrap();
    let img = image_from_file("sky.png", &png_of(&source)).unwrap();
    assert_eq!(image_size(&img), (2, 1));
    assert_eq!(image_pixels(&img), vec![1, 2, 3, 4, 5, 6, 7, 8]);
    assert!(image_from_file("sky.png", b"\x89PNG broken").is_none());
    assert!(image_from_file("sky.bmp", &png_of(&source)).is_none());
}
