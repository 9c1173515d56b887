use qr_code_generator::config::{Config, QrPosition};
use qr_code_generator::error::QrImageError;
use qr_code_generator::qr_embedder::QrEmbedder;
use qr_code_generator::qr_validator::QrValidator;
use qr_code_generator::raster::{GrayImage, Px, RgbaImage};

fn luma_to_rgba(image: &image::GrayImage) -> RgbaImage {
    let (w, h) = image.dimensions();
    let mut rgba = RgbaImage::new(w as usize, h as usize, Px { r: 0, g: 0, b: 0, a: 255 });
    for y in 0..h {
        for x in 0..w {
            let l = image.get_pixel(x, y)[0];
            rgba.set_pixel(x as usize, y as usize, Px { r: l, g: l, b: l, a: 255 });
        }
    }
    rgba
}

#[test]
fn test_validate_simple_qr() {
    // Create a simple QR code
    let data = "https://example.com";
    let code = qrcode::QrCode::new(data.as_bytes()).unwrap();
    let image = code.render::<image::Luma<u8>>().build();
    let rgba = luma_to_rgba(&image);

    let validator = QrValidator::new(3);
    let result = validator.validate(&rgba, data);

    assert!(result.is_ok());
    assert!(result.unwrap());
}

#[test]
fn embed_then_validate_round_trip() {
    let config = Config::default()
        .with_qr_size_ratio(250)
        .with_qr_position(QrPosition::BottomRight);
    let embedder = QrEmbedder::new(config);
    let bg = RgbaImage::new(1920, 1080, Px { r: 120, g: 140, b: 160, a: 255 });
    let out = embedder
        .embed_qr_code(bg, "https://example.com")
        .expect("embed should succeed");

    let validator = QrValidator::new(3);
    assert!(validator.quick_check(&out));
    let result = validator.validate(&out, "https://example.com");
    assert!(result.is_ok());
    assert!(result.unwrap());
}

#[test]
fn embed_then_validate_small_background() {
    let embedder = QrEmbedder::new(Config::default().with_qr_position(QrPosition::Center));
    let bg = RgbaImage::new(400, 400, Px { r: 255, g: 255, b: 255, a: 255 });
    let out = embedder
        .embed_qr_code(bg, "hello-world")
        .expect("embed should succeed");

    let validator = QrValidator::new(3);
    let result = validator.validate(&out, "hello-world");
    assert!(result.is_ok());
    assert!(result.unwrap());
}

#[test]
fn wrong_payload_is_a_terminal_mismatch() {
    let embedder = QrEmbedder::new(Config::default().with_qr_position(QrPosition::Center));
    let bg = RgbaImage::new(800, 800, Px { r: 255, g: 255, b: 255, a: 255 });
    let out = embedder.embed_qr_code(bg, "A").expect("embed should succeed");

    let validator = QrValidator::new(5);
    let result = validator.validate(&out, "B");
    match result {
        Err(QrImageError::ValidationMismatch { decoded }) => {
            assert_eq!(decoded, b"A".to_vec());
        }
        other => panic!("expected a mismatch, got {:?}", other),
    }
}

#[test]
fn blank_image_exhausts_attempts() {
    let validator = QrValidator::new(2);
    let img = RgbaImage::new(400, 400, Px { r: 128, g: 128, b: 128, a: 255 });
    let result = validator.validate(&img, "anything");
    match result {
        Err(QrImageError::ValidationExhausted { attempts }) => assert_eq!(attempts, 2),
        other => panic!("expected exhaustion, got {:?}", other),
    }
}

#[test]
fn zero_attempt_budget_exhausts_immediately() {
    let validator = QrValidator::new(0);
    let img = RgbaImage::new(100, 100, Px { r: 128, g: 128, b: 128, a: 255 });
    let result = validator.validate(&img, "anything");
    match result {
        Err(QrImageError::ValidationExhausted { attempts }) => assert_eq!(attempts, 0),
        other => panic!("expected exhaustion, got {:?}", other),
    }
}

#[test]
fn quick_check_is_false_on_blank_image() {
    let validator = QrValidator::new(3);
    let img = RgbaImage::new(400, 400, Px { r: 128, g: 128, b: 128, a: 255 });
    assert!(!validator.quick_check(&img));
}

#[test]
fn contrast_stretch_remaps_full_range() {
    let validator = QrValidator::new(3);
    let img = GrayImage { width: 3, height: 1, pixels: vec![0, 100, 200] };
    let out = validator.enhance_contrast(&img);
    assert_eq!(out.pixels, vec![0, 127, 255]);
}

#[test]
fn contrast_stretch_keeps_flat_image() {
    let validator = QrValidator::new(3);
    let img = GrayImage { width: 2, height: 2, pixels: vec![77, 77, 77, 77] };
    let out = validator.enhance_contrast(&img);
    assert_eq!(out.pixels, vec![77, 77, 77, 77]);
}

#[test]
fn brightness_shift_grows_with_attempt() {
    let validator = QrValidator::new(9);
    let img = GrayImage { width: 3, height: 1, pixels: vec![0, 100, 250] };
    let out = validator.adjust_brightness(&img, 4);
    assert_eq!(out.pixels, vec![20, 120, 255]);
    let out = validator.adjust_brightness(&img, 5);
    assert_eq!(out.pixels, vec![40, 140, 255]);
}

#[test]
fn adaptive_threshold_binarizes_against_local_mean() {
    let validator = QrValidator::new(3);
    // Uniform images sit above their own mean less the offset: all white.
    let img = GrayImage { width: 3, height: 3, pixels: vec![100; 9] };
    let out = validator.adaptive_threshold(&img);
    assert_eq!(out.pixels, vec![255; 9]);
    let img = GrayImage { width: 3, height: 3, pixels: vec![0; 9] };
    let out = validator.adaptive_threshold(&img);
    assert_eq!(out.pixels, vec![255; 9]);
}

#[test]
fn preprocess_first_attempt_is_identity() {
    let validator = QrValidator::new(3);
    let img = GrayImage { width: 2, height: 2, pixels: vec![1, 2, 3, 4] };
    let out = validator.preprocess_image(&img, 1);
    assert_eq!(out.pixels, vec![1, 2, 3, 4]);
}
