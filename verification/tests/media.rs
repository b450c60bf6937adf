use ichigo::media::{decode, from_decoder, human_size, is_renderable_image, summarize, DecodeError, MAX_ENCODED_BYTES};

#[test]
fn plain_image_types_are_renderable() {
    assert!(is_renderable_image("image/png"));
    assert!(is_renderable_image("image/jpeg"));
    assert!(is_renderable_image("image/gif"));
    assert!(is_renderable_image("image/webp"));
}

/// A `Content-Type` carries parameters and arbitrary case.
#[test]
fn parameters_and_case_are_ignored() {
    assert!(is_renderable_image("image/png; charset=binary"));
    assert!(is_renderable_image("IMAGE/PNG"));
    assert!(is_renderable_image("  image/png  "));
    assert!(is_renderable_image("Image/Png ;q=1"));
}

/// SVG is markup — it belongs in the text pane, not the decoder.
#[test]
fn svg_is_not_renderable() {
    assert!(!is_renderable_image("image/svg+xml"));
    assert!(!is_renderable_image("IMAGE/SVG+XML; charset=utf-8"));
}

#[test]
fn non_images_are_not_renderable() {
    assert!(!is_renderable_image("application/json"));
    assert!(!is_renderable_image("text/plain"));
    assert!(!is_renderable_image(""));
    // The prefix alone is not a type.
    assert!(!is_renderable_image("image/"));
    // A type that merely contains "image/" somewhere is not one either.
    assert!(!is_renderable_image("application/vnd.image/png"));
}

/// A header need not split on a char boundary — this must not panic.
#[test]
fn multibyte_content_type_is_refused_not_panicked() {
    assert!(!is_renderable_image("iöage/png"));
    assert!(!is_renderable_image("日本語"));
}

#[test]
fn summary_shows_type_dimensions_and_size() {
    assert_eq!(
        summarize("image/png", 43_112, Some((1024, 768))),
        "image/png · 1024×768 · 42.1 KB"
    );
}

/// Dimensions are absent when the decode failed or was never attempted.
#[test]
fn summary_without_dimensions() {
    assert_eq!(summarize("image/png; charset=binary", 512, None), "image/png · 512 B");
}

#[test]
fn sizes_scale_by_unit() {
    assert_eq!(human_size(0), "0 B");
    assert_eq!(human_size(1023), "1023 B");
    assert_eq!(human_size(1024), "1.0 KB");
    assert_eq!(human_size(1024 * 1024), "1.0 MB");
}

/// A body that is not an image at all must report, not panic — this is the
/// path a server mislabelling JSON as `image/png` takes.
#[test]
fn decoding_a_non_image_is_an_error() {
    assert!(decode(b"{\"not\":\"an image\"}").is_err());
}

#[test]
fn decoding_a_real_png_yields_its_dimensions() {
    // Smallest possible PNG: 1×1, written out rather than fetched so the
    // test needs no fixture file.
    const PNG_1X1: &[u8] = &[
        0x89, 0x50, 0x4E, 0x47, 0x0D, 0x0A, 0x1A, 0x0A, 0x00, 0x00, 0x00, 0x0D, 0x49, 0x48,
        0x44, 0x52, 0x00, 0x00, 0x00, 0x01, 0x00, 0x00, 0x00, 0x01, 0x08, 0x06, 0x00, 0x00,
        0x00, 0x1F, 0x15, 0xC4, 0x89, 0x00, 0x00, 0x00, 0x0A, 0x49, 0x44, 0x41, 0x54, 0x78,
        0x9C, 0x63, 0x00, 0x01, 0x00, 0x00, 0x05, 0x00, 0x01, 0x0D, 0x0A, 0x2D, 0xB4, 0x00,
        0x00, 0x00, 0x00, 0x49, 0x45, 0x4E, 0x44, 0xAE, 0x42, 0x60, 0x82,
    ];
    let img = decode(PNG_1X1).ok().expect("1×1 png should decode");
    assert_eq!((img.width(), img.height()), (1, 1));
}

#[test]
fn oversized_bodies_are_refused_before_decoding() {
    let huge = vec![0u8; MAX_ENCODED_BYTES + 1];
    let err = decode(&huge).err().expect("too large").message();
    assert!(err.contains("cap"), "got: {err}");
}

/// One decimal, exactly as a double-precision division would be printed.
#[test]
fn sizes_round_as_doubles_print() {
    let mut sizes: Vec<usize> = (0..4000).map(|i| 1024 + i * 262).collect();
    sizes.extend((0..4000).map(|i| 1048576 + i * 52429));
    // Exact halves of a tenth, which go to the even digit.
    sizes.extend([1024 + 256, 1024 + 768, 1048576 + 262144, 1048576 + 786432]);
    sizes.extend([usize::MAX, usize::MAX / 3, (1 << 53) + 1, (1 << 62) + 12345]);
    for bytes in sizes {
        let n = bytes as f64;
        let expected = if n < 1048576.0 {
            format!("{:.1} KB", n / 1024.0)
        } else {
            format!("{:.1} MB", n / 1048576.0)
        };
        assert_eq!(human_size(bytes), expected, "{bytes}");
    }
}

#[test]
fn an_oversized_body_is_reported_with_both_sizes() {
    let e = DecodeError::TooLarge(MAX_ENCODED_BYTES + 1);
    assert_eq!(e.message(), "image is 32.0 MB, over the 32.0 MB cap");
}

/// What the decoder says is what is shown.
#[test]
fn the_decoders_word_is_taken() {
    let shown = from_decoder(Ok((image::DynamicImage::new_rgb8(3, 2), 3, 2))).ok().expect("an image");
    assert_eq!((shown.width(), shown.height()), (3, 2));
    let e = from_decoder(Err("bad magic".to_string())).err().expect("an error");
    assert_eq!(e, DecodeError::Undecodable("bad magic".to_string()));
}

/// A picture wider than the limit is refused by its header, however small the body.
#[test]
fn a_picture_over_the_limit_is_not_decoded() {
    // A bitmap header that claims 20000 pixels across.
    let mut bytes = b"BM".to_vec();
    for n in [70u32, 0, 54, 40, 20000, 1] {
        bytes.extend(n.to_le_bytes());
    }
    bytes.extend([1, 0, 24, 0]);
    for n in [0u32, 60000, 0, 0, 0, 0] {
        bytes.extend(n.to_le_bytes());
    }
    bytes.resize(60054, 0);
    assert!(matches!(decode(&bytes), Err(DecodeError::Undecodable(_))));
}
