use mdless::config::schema::{ColorMode, ImageMode, Osc8Mode};
use mdless::terminal::capabilities::{
    detect_from, parse_konsole_version, parse_version, parse_vte_version, Capabilities, CapabilityOverrides,
    ColorLevel, Env, ImageSupport, TerminalSize,
};

fn env(pairs: &[(&str, &str)]) -> Env {
    let mut e = Env::new();
    for (k, v) in pairs {
        e.set(k, v);
    }
    e
}

fn caps(pairs: &[(&str, &str)]) -> Capabilities {
    detect_from(&env(pairs), TerminalSize::default(), &CapabilityOverrides::default())
}

#[test]
fn color_detection_matrix() {
    let cases: &[(&[(&str, &str)], ColorLevel)] = &[
        (&[("TERM", "xterm-256color")], ColorLevel::Ansi256),
        (&[("TERM", "xterm-256color"), ("COLORTERM", "truecolor")], ColorLevel::TrueColor),
        (&[("TERM", "xterm"), ("COLORTERM", "24bit")], ColorLevel::TrueColor),
        (&[("TERM", "xterm")], ColorLevel::Ansi16),
        (&[("TERM", "dumb")], ColorLevel::NoColor),
        (&[], ColorLevel::NoColor),
        (&[("TERM", "xterm-kitty")], ColorLevel::TrueColor),
        (&[("TERM", "screen-256color")], ColorLevel::Ansi256),
    ];
    for (pairs, expected) in cases {
        assert_eq!(caps(pairs).color, *expected, "case {pairs:?}");
    }
}

#[test]
fn no_color_beats_colorterm() {
    let c = caps(&[("TERM", "xterm-256color"), ("COLORTERM", "truecolor"), ("NO_COLOR", "")]);
    assert_eq!(c.color, ColorLevel::NoColor);
    let c = caps(&[("COLORTERM", "truecolor"), ("NO_COLOR", "1")]);
    assert_eq!(c.color, ColorLevel::NoColor);
    assert!(c.evidence.iter().any(|e| e.capability == "color" && e.reason.contains("NO_COLOR")));
}

#[test]
fn not_a_tty_disables_everything_optional() {
    let c = detect_from(
        &env(&[("TERM", "xterm-kitty"), ("KITTY_WINDOW_ID", "1")]),
        TerminalSize::non_tty(),
        &CapabilityOverrides::default(),
    );
    assert_eq!(c.color, ColorLevel::NoColor);
    assert_eq!(c.images, ImageSupport::NoImage);
    assert!(!c.osc8);
    assert!(!c.mouse);
}

#[test]
fn clicolor_force_enables_color_without_tty() {
    let c = detect_from(
        &env(&[("TERM", "xterm-256color"), ("CLICOLOR_FORCE", "1")]),
        TerminalSize::non_tty(),
        &CapabilityOverrides::default(),
    );
    assert_eq!(c.color, ColorLevel::Ansi256);
}

#[test]
fn image_protocol_matrix() {
    let cases: &[(&[(&str, &str)], ImageSupport)] = &[
        (&[("TERM", "xterm-kitty")], ImageSupport::Kitty),
        (&[("TERM", "xterm-256color"), ("KITTY_WINDOW_ID", "3")], ImageSupport::Kitty),
        (&[("TERM", "xterm-256color"), ("TERM_PROGRAM", "iTerm.app")], ImageSupport::Iterm2),
        (&[("TERM", "xterm-256color"), ("WEZTERM_EXECUTABLE", "/x")], ImageSupport::Iterm2),
        (&[("TERM", "foot")], ImageSupport::Sixel),
        (&[("TERM", "mlterm")], ImageSupport::Sixel),
        (&[("TERM", "xterm-sixel")], ImageSupport::Sixel),
        (&[("TERM", "xterm-256color")], ImageSupport::NoImage),
        (&[("TERM", "alacritty")], ImageSupport::NoImage),
        (&[("TERM", "xterm-256color"), ("TERM_PROGRAM", "Apple_Terminal")], ImageSupport::NoImage),
    ];
    for (pairs, expected) in cases {
        assert_eq!(caps(pairs).images, *expected, "case {pairs:?}");
    }
}

#[test]
fn tmux_disables_images_by_default() {
    let c = caps(&[("TERM", "xterm-kitty"), ("TMUX", "/tmp/tmux-1000/default,1,0")]);
    assert!(c.tmux);
    assert_eq!(c.images, ImageSupport::NoImage);
    assert!(!c.osc8);
    let c = caps(&[("TERM", "xterm-kitty"), ("TMUX", "/tmp/x,1,0"), ("MDLESS_FORCE_IMAGES", "1")]);
    assert_eq!(c.images, ImageSupport::Kitty);
    assert!(c.osc8);
}

#[test]
fn screen_counts_as_multiplexer() {
    let c = caps(&[("TERM", "screen-256color"), ("STY", "1234.pts-0")]);
    assert!(c.tmux);
}

#[test]
fn osc8_matrix() {
    let cases: &[(&[(&str, &str)], bool)] = &[
        (&[("TERM", "xterm-kitty")], true),
        (&[("TERM", "foot")], true),
        (&[("TERM", "xterm-256color"), ("VTE_VERSION", "6003")], true),
        (&[("TERM", "xterm-256color"), ("VTE_VERSION", "4600")], false),
        (&[("TERM", "xterm-256color"), ("KONSOLE_VERSION", "211200")], true),
        (&[("TERM", "xterm-256color"), ("KONSOLE_VERSION", "180804")], false),
        (&[("TERM", "xterm-256color")], false),
        (&[("TERM", "xterm-256color"), ("TERM_PROGRAM", "iTerm.app")], true),
    ];
    for (pairs, expected) in cases {
        assert_eq!(caps(pairs).osc8, *expected, "case {pairs:?}");
    }
}

#[test]
fn unicode_from_locale() {
    assert!(caps(&[("TERM", "xterm"), ("LANG", "en_US.UTF-8")]).unicode_box);
    assert!(caps(&[("TERM", "xterm"), ("LC_ALL", "de_DE.utf8")]).unicode_box);
    assert!(!caps(&[("TERM", "xterm"), ("LANG", "C")]).unicode_box);
    assert!(!caps(&[("TERM", "xterm")]).unicode_box);
    assert!(!caps(&[("TERM", "xterm"), ("LC_ALL", "C"), ("LANG", "en_US.UTF-8")]).unicode_box);
}

#[test]
fn ssh_detection() {
    assert!(caps(&[("SSH_TTY", "/dev/pts/3")]).ssh);
    assert!(caps(&[("SSH_CONNECTION", "1.2.3.4 5 6.7.8.9 22")]).ssh);
    assert!(!caps(&[("TERM", "xterm")]).ssh);
}

#[test]
fn config_overrides_win() {
    let base = env(&[("TERM", "xterm-kitty"), ("KITTY_WINDOW_ID", "1")]);
    let o = CapabilityOverrides {
        color: Some(ColorMode::Never),
        osc8: Some(Osc8Mode::Never),
        images: Some(ImageMode::Never),
        mouse: Some(false),
        width: Some(120),
        ..CapabilityOverrides::default()
    };
    let c = detect_from(&base, TerminalSize::default(), &o);
    assert_eq!(c.color, ColorLevel::NoColor);
    assert!(!c.osc8);
    assert_eq!(c.images, ImageSupport::NoImage);
    assert!(!c.mouse);
    assert_eq!(c.size, (120, 24));
    let o = CapabilityOverrides { osc8: Some(Osc8Mode::Always), ..CapabilityOverrides::default() };
    let c = detect_from(&env(&[("TERM", "vt100")]), TerminalSize::default(), &o);
    assert!(c.osc8);
}

#[test]
fn mdless_env_overrides() {
    let c = caps(&[("TERM", "xterm-256color"), ("MDLESS_COLOR", "truecolor")]);
    assert_eq!(c.color, ColorLevel::TrueColor);
    let c = caps(&[("TERM", "xterm-kitty"), ("MDLESS_IMAGES", "none")]);
    assert_eq!(c.images, ImageSupport::NoImage);
    let c = caps(&[("TERM", "vt100"), ("MDLESS_OSC8", "1")]);
    assert!(c.osc8);
    let c = caps(&[("TERM", "vt100"), ("MDLESS_UNICODE", "1")]);
    assert!(c.unicode_box);
}

#[test]
fn mouse_override_cannot_enable_an_incapable_terminal() {
    let o = CapabilityOverrides { mouse: Some(true), ..CapabilityOverrides::default() };
    let c = detect_from(&env(&[("TERM", "dumb")]), TerminalSize::default(), &o);
    assert!(!c.mouse);
    let c = detect_from(&env(&[("TERM", "xterm")]), TerminalSize::non_tty(), &o);
    assert!(!c.mouse);
    let c = detect_from(&env(&[("TERM", "xterm")]), TerminalSize::default(), &o);
    assert!(c.mouse);
}

#[test]
fn describe_lists_every_capability() {
    let text = caps(&[("TERM", "xterm-256color"), ("LANG", "en_US.UTF-8")]).describe();
    for key in ["color", "unicode-box", "osc8", "images", "mouse", "ssh", "size", "cell-pixels", "terminal", "tty"] {
        assert!(text.contains(key), "missing {key} in:\n{text}");
    }
    assert!(text.contains("TERM=xterm-256color"));
}

#[test]
fn version_parsers() {
    assert_eq!(parse_vte_version("6003"), Some((0, 60)));
    assert_eq!(parse_vte_version("5000"), Some((0, 50)));
    assert_eq!(parse_konsole_version("211200"), Some((21, 12)));
    assert_eq!(parse_version("3.4.19"), Some((3, 4)));
    assert_eq!(parse_version("nonsense"), None);
}

#[test]
fn cell_size_falls_back() {
    let c = caps(&[("TERM", "xterm")]);
    assert_eq!(c.cell_size(), (8, 16));
    let c = detect_from(
        &env(&[("TERM", "xterm")]),
        TerminalSize { cell_pixels: Some((10, 20)), ..TerminalSize::default() },
        &CapabilityOverrides::default(),
    );
    assert_eq!(c.cell_size(), (10, 20));
}
