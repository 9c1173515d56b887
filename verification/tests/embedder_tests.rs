use qr_code_generator::config::{Config, QrPosition};
use qr_code_generator::error::QrImageError;
use qr_code_generator::qr_embedder::{alpha_blend, QrEmbedder};
use qr_code_generator::raster::{to_gray, Px, RgbaImage};

fn embedder_with(config: Config) -> QrEmbedder {
    QrEmbedder::new(config)
}

#[test]
fn test_alpha_blend() {
    let bg = Px { r: 100, g: 100, b: 100, a: 255 };
    let fg = Px { r: 255, g: 255, b: 255, a: 128 };
    let result = alpha_blend(bg, fg);

    // Result should be between bg and fg
    assert!(result.r > bg.r && result.r < fg.r);
}

#[test]
fn test_calculate_qr_size() {
    let config = Config::default();
    let embedder = embedder_with(config);
    let img = RgbaImage::new(1920, 1080, Px { r: 0, g: 0, b: 0, a: 255 });
    let size = embedder.calculate_qr_size(&img);

    assert!(size >= 200 && size <= 800);
}

#[test]
fn alpha_blend_known_value() {
    let bg = Px { r: 100, g: 100, b: 100, a: 255 };
    let fg = Px { r: 255, g: 255, b: 255, a: 128 };
    assert_eq!(alpha_blend(bg, fg), Px { r: 177, g: 177, b: 177, a: 255 });
}

#[test]
fn alpha_blend_transparent_foreground_keeps_background() {
    let bg = Px { r: 13, g: 77, b: 201, a: 255 };
    let fg = Px { r: 255, g: 255, b: 255, a: 0 };
    assert_eq!(alpha_blend(bg, fg), bg);

    let translucent_bg = Px { r: 13, g: 77, b: 201, a: 9 };
    assert_eq!(alpha_blend(translucent_bg, fg), translucent_bg);
}

#[test]
fn alpha_blend_opaque_foreground_wins() {
    let bg = Px { r: 13, g: 77, b: 201, a: 255 };
    let fg = Px { r: 1, g: 2, b: 3, a: 255 };
    assert_eq!(alpha_blend(bg, fg), fg);

    let clear_bg = Px { r: 50, g: 60, b: 70, a: 0 };
    assert_eq!(alpha_blend(clear_bg, fg), fg);
}

#[test]
fn tile_size_clamps_small_background() {
    let config = Config::default().with_qr_size_ratio(100);
    let embedder = embedder_with(config);
    let img = RgbaImage::new(100, 100, Px { r: 0, g: 0, b: 0, a: 255 });
    assert_eq!(embedder.calculate_qr_size(&img), 200);
}

#[test]
fn tile_size_clamps_large_background() {
    let config = Config::default().with_qr_size_ratio(500);
    let embedder = embedder_with(config);
    let img = RgbaImage::new(10000, 10000, Px { r: 0, g: 0, b: 0, a: 255 });
    assert_eq!(embedder.calculate_qr_size(&img), 800);
}

#[test]
fn tile_size_uses_shorter_dimension() {
    let config = Config::default();
    let embedder = embedder_with(config);
    let img = RgbaImage::new(1920, 1080, Px { r: 0, g: 0, b: 0, a: 255 });
    assert_eq!(embedder.calculate_qr_size(&img), 270);
}

#[test]
fn anchors_place_tile_within_margin() {
    let bg = RgbaImage::new(1920, 1080, Px { r: 0, g: 0, b: 0, a: 255 });
    let tile = RgbaImage::new(480, 480, Px { r: 255, g: 255, b: 255, a: 255 });

    let at = |pos: QrPosition| {
        let embedder = embedder_with(Config::default().with_qr_position(pos));
        embedder.calculate_position(&bg, &tile)
    };
    assert_eq!(at(QrPosition::TopLeft), (30, 30));
    assert_eq!(at(QrPosition::TopRight), (1920 - 480 - 30, 30));
    assert_eq!(at(QrPosition::BottomLeft), (30, 1080 - 480 - 30));
    assert_eq!(at(QrPosition::BottomRight), (1920 - 480 - 30, 1080 - 480 - 30));
    assert_eq!(at(QrPosition::Center), ((1920 - 480) / 2, (1080 - 480) / 2));
}

#[test]
fn anchors_clamp_to_zero_for_oversized_tile() {
    let bg = RgbaImage::new(100, 100, Px { r: 0, g: 0, b: 0, a: 255 });
    let tile = RgbaImage::new(200, 200, Px { r: 255, g: 255, b: 255, a: 255 });
    let embedder = embedder_with(Config::default().with_qr_position(QrPosition::BottomRight));
    assert_eq!(embedder.calculate_position(&bg, &tile), (0, 0));
}

#[test]
fn embed_rejects_zero_dimension_background() {
    let embedder = embedder_with(Config::default());
    let bg = RgbaImage::new(0, 0, Px { r: 0, g: 0, b: 0, a: 255 });
    let result = embedder.embed_qr_code(bg, "hello");
    assert!(matches!(result, Err(QrImageError::CompositingError)));
}

#[test]
fn embed_rejects_oversized_payload() {
    let embedder = embedder_with(Config::default());
    let bg = RgbaImage::new(1920, 1080, Px { r: 120, g: 140, b: 160, a: 255 });
    let payload = "a".repeat(4000);
    let result = embedder.embed_qr_code(bg, &payload);
    assert!(matches!(result, Err(QrImageError::QrEncodeError)));
}

#[test]
fn embed_composites_tile_pixels() {
    let config = Config::default()
        .with_qr_size_ratio(250)
        .with_qr_position(QrPosition::BottomRight);
    let embedder = embedder_with(config);
    let bg = RgbaImage::new(1920, 1080, Px { r: 120, g: 140, b: 160, a: 255 });
    let out = embedder
        .embed_qr_code(bg, "https://example.com")
        .expect("embed should succeed");
    assert_eq!(out.width, 1920);
    assert_eq!(out.height, 1080);

    // Tile side 270, anchored bottom-right: top-left tile corner at (1620, 780).
    // That corner lies on the light-gray border, blended over the background.
    assert_eq!(out.pixel(1620, 780), Px { r: 192, g: 194, b: 196, a: 255 });

    // (30, 30) into the tile lies on the backing plate (the sampled cell is
    // inside the quiet zone), blended over the background.
    assert_eq!(out.pixel(1650, 810), Px { r: 241, g: 243, b: 245, a: 255 });

    // A pixel far from the tile is the untouched background.
    assert_eq!(out.pixel(10, 10), Px { r: 120, g: 140, b: 160, a: 255 });
}

#[test]
fn grayscale_uses_srgb_weights() {
    let img = RgbaImage::new(1, 1, Px { r: 255, g: 0, b: 0, a: 255 });
    assert_eq!(to_gray(&img).pixels, vec![54]);
    let img = RgbaImage::new(1, 1, Px { r: 0, g: 255, b: 0, a: 255 });
    assert_eq!(to_gray(&img).pixels, vec![182]);
    let img = RgbaImage::new(1, 1, Px { r: 0, g: 0, b: 255, a: 255 });
    assert_eq!(to_gray(&img).pixels, vec![18]);
    let img = RgbaImage::new(1, 1, Px { r: 255, g: 255, b: 255, a: 255 });
    assert_eq!(to_gray(&img).pixels, vec![255]);
}

#[test]
fn config_builders_clamp_and_set() {
    let c = Config::default();
    assert_eq!(c.image_width, 1920);
    assert_eq!(c.image_height, 1080);
    assert_eq!(c.qr_size_ratio, 250);
    assert_eq!(c.qr_position, QrPosition::BottomRight);
    assert_eq!(c.max_validation_attempts, 3);
    assert_eq!(c.qr_background_opacity, 230);

    let c = Config::new()
        .with_dimensions(640, 480)
        .with_qr_size_ratio(50)
        .with_qr_position(QrPosition::Center)
        .with_api_key(String::from("k"));
    assert_eq!(c.image_width, 640);
    assert_eq!(c.image_height, 480);
    assert_eq!(c.qr_size_ratio, 100);
    assert_eq!(c.qr_position, QrPosition::Center);
    assert_eq!(c.unsplash_api_key, Some(String::from("k")));

    let c = Config::new().with_qr_size_ratio(700);
    assert_eq!(c.qr_size_ratio, 500);
}
