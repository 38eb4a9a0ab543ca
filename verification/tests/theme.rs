use mdless::render::theme::{dist, indexed_to_rgb, rgb, rgb_to_ansi16, rgb_to_ansi256, Color, ColorLevel, Style, Theme};

#[test]
fn truecolor_to_256_cube_and_grey() {
    assert_eq!(rgb_to_ansi256(0, 0, 0), 16);
    assert_eq!(rgb_to_ansi256(255, 255, 255), 231);
    assert_eq!(rgb_to_ansi256(255, 0, 0), 196);
    let g = rgb_to_ansi256(0x80, 0x80, 0x80);
    assert!((232..=255).contains(&g), "got {g}");
}

#[test]
fn truecolor_to_16() {
    assert_eq!(rgb_to_ansi16(0, 0, 0), 0);
    assert_eq!(rgb_to_ansi16(250, 10, 10), 1, "dark red is nearer to the normal red");
    assert_eq!(rgb_to_ansi16(255, 120, 120), 9);
    assert_eq!(rgb_to_ansi16(250, 250, 250), 15);
    assert_eq!(rgb_to_ansi16(10, 160, 10), 2);
}

#[test]
fn style_downgrade_chain() {
    let s = Style::new().fg(rgb(0x82, 0xaa, 0xff)).bg(rgb(0, 0, 0)).bold();
    let t256 = s.downgrade(ColorLevel::Ansi256);
    assert!(matches!(t256.fg, Some(Color::Indexed(_))));
    assert!(t256.bold);
    let t16 = s.downgrade(ColorLevel::Ansi16);
    assert!(matches!(t16.fg, Some(Color::Indexed(i)) if i < 16));
    let mono = s.downgrade(ColorLevel::NoColor);
    assert_eq!(mono.fg, None);
    assert_eq!(mono.bg, None);
    assert!(mono.bold);
    assert!(mono.reverse, "background becomes reverse video");
}

#[test]
fn theme_downgrade_touches_every_style() {
    let t = Theme::dark().downgraded(ColorLevel::Ansi16);
    assert!(matches!(t.heading(1).fg, Some(Color::Indexed(i)) if i < 16));
    assert!(matches!(t.link.fg, Some(Color::Indexed(i)) if i < 16));
    assert!(matches!(t.warning.fg, Some(Color::Indexed(i)) if i < 16));
    let mono = Theme::light().downgraded(ColorLevel::NoColor);
    assert_eq!(mono.code_bg.fg, None);
    assert_eq!(mono.code_bg.bg, None);
    assert!(mono.search_match.reverse);
}

#[test]
fn indexed_roundtrip_is_sane() {
    for i in 0u8..=255 {
        let (r, g, b) = indexed_to_rgb(i);
        let back = rgb_to_ansi256(r, g, b);
        let (r2, g2, b2) = indexed_to_rgb(back);
        assert!(dist((r, g, b), (r2, g2, b2)) < 400, "index {i}");
    }
}

#[test]
fn the_crt_theme_is_two_phosphors_on_a_painted_screen() {
    let theme = Theme::builtin("crt").expect("a built-in theme");
    assert_eq!(theme.name, "crt");
    assert!(theme.dark, "it selects the dark syntax highlighting");
    assert_eq!(theme.screen.bg, Some(rgb(0x00, 0x14, 0x08)));
    let amber = rgb(0xff, 0xb0, 0x00);
    for style in theme.styles() {
        for colour in [style.fg, style.bg].into_iter().flatten() {
            let Color::Rgb(r, g, b) = colour else {
                panic!("the palette is defined in RGB");
            };
            if colour == amber {
                continue;
            }
            assert!(g >= r && g >= b, "green never loses to another channel: {colour:?}");
        }
    }
}

#[test]
fn only_the_screen_owning_themes_paint_it() {
    assert_eq!(Theme::dark().screen.bg, None);
    assert_eq!(Theme::light().screen.bg, None);
    assert!(Theme::crt().screen.bg.is_some());
    assert!(Theme::cyberpunk().screen.bg.is_some());
}

#[test]
fn the_cyberpunk_theme_keeps_content_and_alarm_apart() {
    let theme = Theme::builtin("cyberpunk").expect("a built-in theme");
    assert!(theme.dark && theme.syntax, "a bitmapped console, not a tube");
    let reddish = |style: Style| match style.fg {
        Some(Color::Rgb(r, g, b)) => r > g && r > b,
        _ => false,
    };
    for (what, style) in [
        ("body text", theme.text),
        ("links", theme.link),
        ("the first heading", theme.heading[0]),
        ("emphasis", theme.emph),
    ] {
        assert!(!reddish(style), "{what} must not compete with the alarms");
    }
    for (what, style) in [
        ("warnings", theme.warning),
        ("table borders", theme.table_border),
        ("list markers", theme.list_marker),
        ("fold markers", theme.fold_marker),
    ] {
        assert!(reddish(style), "{what} carry the crimson");
    }
}

#[test]
fn resolve_names() {
    assert_eq!(Theme::resolve("dark", false).name, "dark");
    assert_eq!(Theme::resolve("light", false).name, "light");
    assert_eq!(Theme::resolve("crt", false).name, "crt");
    assert_eq!(Theme::resolve("cyberpunk", false).name, "cyberpunk");
    assert!(Theme::builtin("nope").is_none());
}
