use base64::engine::general_purpose::STANDARD as BASE64;
use base64::Engine;
use mdless::terminal::capabilities::ImageSupport;
use mdless::terminal::protocols::{
    cube_color, cube_index, iterm2_image, kitty_image, maybe_tmux, osc8_end, osc8_link, osc8_start,
    osc8_start_with_id, png_dimensions, sixel_char, sixel_image, tmux_passthrough, ImageSource, RgbImage,
    KITTY_CHUNK,
};

fn solid(width: u32, height: u32, rgb: (u8, u8, u8)) -> RgbImage {
    let mut pixels = Vec::with_capacity((width * height * 3) as usize);
    for _ in 0..(width * height) {
        pixels.extend_from_slice(&[rgb.0, rgb.1, rgb.2]);
    }
    RgbImage::new(width, height, pixels).unwrap()
}

#[test]
fn osc8_roundtrip() {
    assert_eq!(
        osc8_link("https://example.com/a", "text"),
        "\u{1b}]8;;https://example.com/a\u{1b}\\text\u{1b}]8;;\u{1b}\\"
    );
    assert_eq!(osc8_end(), "\u{1b}]8;;\u{1b}\\");
}

#[test]
fn osc8_strips_injected_control_characters() {
    let s = osc8_start("https://x/\u{1b}]0;pwned\u{7};evil");
    assert!(!s.contains('\u{1b}'.to_string().as_str().repeat(2).as_str()));
    assert!(!s[2..].contains('\u{7}'));
    assert!(!s.contains("pwned;"));
}

#[test]
fn osc8_with_id() {
    assert_eq!(osc8_start_with_id("https://x", "42"), "\u{1b}]8;id=42;https://x\u{1b}\\");
}

#[test]
fn tmux_doubles_escapes_and_wraps() {
    let inner = "\u{1b}_Ga=T;AAA\u{1b}\\";
    let wrapped = tmux_passthrough(inner);
    assert!(wrapped.starts_with("\u{1b}Ptmux;"));
    assert!(wrapped.ends_with("\u{1b}\\"));
    let body = &wrapped["\u{1b}Ptmux;".len()..wrapped.len() - 2];
    assert_eq!(body.matches('\u{1b}').count(), 4);
}

#[test]
fn maybe_tmux_is_identity_when_disabled() {
    assert_eq!(maybe_tmux("x".to_string(), false), "x");
    assert!(maybe_tmux("x".to_string(), true).starts_with("\u{1b}Ptmux;"));
}

#[test]
fn kitty_single_chunk_has_m0_and_placement() {
    let s = kitty_image(b"tiny", 10, 5);
    assert!(s.starts_with("\u{1b}_Gf=100,a=T,c=10,r=5,m=0;"));
    assert!(s.ends_with("\u{1b}\\"));
    let payload = s.trim_start_matches("\u{1b}_Gf=100,a=T,c=10,r=5,m=0;").trim_end_matches("\u{1b}\\");
    assert_eq!(BASE64.decode(payload).unwrap(), b"tiny");
}

#[test]
fn kitty_chunks_at_the_4096_boundary() {
    let png = vec![0xABu8; 3072];
    let s = kitty_image(&png, 1, 1);
    assert_eq!(s.matches("\u{1b}_G").count(), 1);
    assert!(s.contains(",m=0;"));
    let png = vec![0xABu8; 3073];
    let s = kitty_image(&png, 4, 2);
    let parts: Vec<&str> = s.split("\u{1b}_G").filter(|p| !p.is_empty()).collect();
    assert_eq!(parts.len(), 2);
    assert!(parts[0].starts_with("f=100,a=T,c=4,r=2,m=1;"));
    assert!(parts[1].starts_with("m=0;"));
    let mut b64 = String::new();
    for part in parts {
        let after = part.split_once(';').unwrap().1;
        b64.push_str(after.trim_end_matches("\u{1b}\\"));
    }
    assert_eq!(BASE64.decode(b64).unwrap(), png);
}

#[test]
fn kitty_chunk_lengths_never_exceed_the_limit() {
    let png = vec![7u8; 20_000];
    let s = kitty_image(&png, 40, 20);
    for part in s.split("\u{1b}_G").filter(|p| !p.is_empty()) {
        let payload = part.split_once(';').unwrap().1.trim_end_matches("\u{1b}\\");
        assert!(payload.len() <= KITTY_CHUNK, "chunk too large");
    }
}

#[test]
fn kitty_handles_empty_input() {
    let s = kitty_image(b"", 1, 1);
    assert_eq!(s, "\u{1b}_Gf=100,a=T,c=1,r=1,m=0;\u{1b}\\");
}

#[test]
fn iterm2_prefix_and_payload() {
    let png = b"0123456789";
    let s = iterm2_image(png, 12, 6);
    assert!(s.starts_with("\u{1b}]1337;File=inline=1;size=10;width=12cells;height=6cells;preserveAspectRatio=1:"));
    assert!(s.ends_with('\u{7}'));
    let payload = s.rsplit_once(':').unwrap().1.trim_end_matches('\u{7}');
    assert_eq!(BASE64.decode(payload).unwrap(), png);
}

#[test]
fn sixel_header_and_terminator() {
    let s = sixel_image(&solid(4, 6, (255, 0, 0)));
    assert!(s.starts_with("\u{1b}Pq\"1;1;4;6"));
    assert!(s.ends_with("\u{1b}\\"));
}

#[test]
fn sixel_solid_red_uses_one_register_and_full_bits() {
    let s = sixel_image(&solid(8, 6, (255, 0, 0)));
    assert!(s.contains("#180;2;100;0;0"), "{s}");
    assert!(s.contains("#180!8~"), "{s}");
}

#[test]
fn sixel_bands_are_separated_by_dashes() {
    let s = sixel_image(&solid(2, 12, (0, 0, 255)));
    assert_eq!(s.matches('-').count(), 1);
    let s = sixel_image(&solid(2, 6, (0, 0, 255)));
    assert_eq!(s.matches('-').count(), 0);
}

#[test]
fn sixel_two_colours_share_a_band_with_a_carriage_return() {
    let mut pixels = Vec::new();
    for y in 0..6 {
        for _x in 0..2 {
            if y < 3 {
                pixels.extend_from_slice(&[255, 255, 255]);
            } else {
                pixels.extend_from_slice(&[0, 0, 0]);
            }
        }
    }
    let img = RgbImage::new(2, 6, pixels).unwrap();
    let s = sixel_image(&img);
    assert_eq!(s.matches('$').count(), 1, "{s}");
    assert!(s.contains("#0;2;0;0;0"));
    assert!(s.contains("#215;2;100;100;100"));
}

#[test]
fn sixel_partial_last_band_only_sets_existing_rows() {
    let s = sixel_image(&solid(3, 2, (255, 255, 255)));
    assert!(s.contains("#215BBB"), "{s}");
}

#[test]
fn sixel_empty_image_is_a_valid_empty_sequence() {
    let img = RgbImage::new(0, 0, Vec::new()).unwrap();
    assert_eq!(sixel_image(&img), "\u{1b}Pq\"1;1;0;0\u{1b}\\");
}

#[test]
fn sixel_char_mapping() {
    assert_eq!(sixel_char(0), '?');
    assert_eq!(sixel_char(0b111111), '~');
    assert_eq!(sixel_char(1), '@');
}

#[test]
fn cube_quantisation() {
    assert_eq!(cube_index(0, 0, 0), 0);
    assert_eq!(cube_index(255, 255, 255), 215);
    assert_eq!(cube_index(255, 0, 0), 180);
    assert_eq!(cube_color(0), (0, 0, 0));
    assert_eq!(cube_color(215), (100, 100, 100));
}

#[test]
fn dispatch_selects_the_right_protocol() {
    let src = ImageSource::Rgb(solid(6, 6, (0, 255, 0)));
    assert!(ImageSupport::NoImage.encode(&src, 2, 1).is_none());
    assert!(ImageSupport::Kitty.encode(&src, 2, 1).unwrap().starts_with("\u{1b}_G"));
    assert!(ImageSupport::Iterm2.encode(&src, 2, 1).unwrap().starts_with("\u{1b}]1337;"));
    assert!(ImageSupport::Sixel.encode(&src, 2, 1).unwrap().starts_with("\u{1b}Pq"));
}

#[test]
fn dispatch_wraps_for_tmux() {
    let src = ImageSource::Rgb(solid(6, 6, (0, 255, 0)));
    let s = ImageSupport::Kitty.encode_for_tmux(&src, 2, 1, true).unwrap();
    assert!(s.starts_with("\u{1b}Ptmux;"));
    assert!(ImageSupport::NoImage.encode_for_tmux(&src, 2, 1, true).is_none());
}

#[test]
fn png_roundtrip_between_representations() {
    let img = solid(5, 3, (10, 200, 30));
    let png = ImageSource::Rgb(img.clone()).to_png().unwrap();
    assert_eq!(png_dimensions(&png), Some((5, 3)));
    let back = ImageSource::Png(png.clone()).to_rgb().unwrap();
    assert_eq!(back, img);
    assert_eq!(ImageSource::Png(png).dimensions(), Some((5, 3)));
}

#[test]
fn invalid_png_degrades_to_none() {
    let src = ImageSource::Png(b"not a png".to_vec());
    assert!(src.to_rgb().is_none());
    assert!(src.dimensions().is_none());
    assert!(ImageSupport::Sixel.encode(&src, 1, 1).is_none());
    assert!(ImageSupport::Kitty.encode(&src, 1, 1).is_some());
}

#[test]
fn rgb_image_rejects_wrong_buffer_length() {
    assert!(RgbImage::new(2, 2, vec![0; 11]).is_none());
    assert!(RgbImage::new(2, 2, vec![0; 12]).is_some());
}
