use nu_ansi_term::AnyWrite;
use nu_ansi_term::BoundedSink;
use nu_ansi_term::ByteSink;
use nu_ansi_term::CodeFormat;
use nu_ansi_term::Color::Black;
use nu_ansi_term::Color::Blue;
use nu_ansi_term::Color::Cyan;
use nu_ansi_term::Color::Fixed;
use nu_ansi_term::Color::Green;
use nu_ansi_term::Color::LightRed;
use nu_ansi_term::Color::Magenta;
use nu_ansi_term::Color::Purple;
use nu_ansi_term::Color::Red;
use nu_ansi_term::Color::Rgb;
use nu_ansi_term::Color::White;
use nu_ansi_term::Color::Yellow;
use nu_ansi_term::Color;
use nu_ansi_term::Style;
use nu_ansi_term::StringSink;

#[test]
fn test_infix() {
    assert_eq!(
        Style::new().dimmed().infix(Style::new()).to_string(),
        "\x1B[0m"
    );
    assert_eq!(
        White.dimmed().infix(White.normal()).to_string(),
        "\x1B[0m\x1B[37m"
    );
    assert_eq!(White.normal().infix(White.bold()).to_string(), "\x1B[1m");
    assert_eq!(White.normal().infix(Blue.normal()).to_string(), "\x1B[34m");
    assert_eq!(Blue.bold().infix(Blue.bold()).to_string(), "");
}

#[test]
fn plain_prefix_and_suffix_are_empty() {
    assert_eq!(Style::new().prefix().to_string(), "");
    assert_eq!(Style::new().suffix().to_string(), "");
    assert_eq!(Style::default().prefix().to_string(), "");
}

#[test]
fn bold_prefix_and_suffix() {
    let bold = Style::new().bold();
    assert_eq!(bold.prefix().to_string(), "\x1B[1m");
    assert_eq!(bold.suffix().to_string(), "\x1B[0m");
}

#[test]
fn blue_bold_prefix() {
    assert_eq!(Blue.bold().prefix().to_string(), "\x1B[1;34m");
}

#[test]
fn single_attributes() {
    assert_eq!(Style::new().dimmed().prefix().to_string(), "\x1B[2m");
    assert_eq!(Style::new().italic().prefix().to_string(), "\x1B[3m");
    assert_eq!(Style::new().underline().prefix().to_string(), "\x1B[4m");
    assert_eq!(Style::new().blink().prefix().to_string(), "\x1B[5m");
    assert_eq!(Style::new().reverse().prefix().to_string(), "\x1B[7m");
    assert_eq!(Style::new().hidden().prefix().to_string(), "\x1B[8m");
    assert_eq!(Style::new().strikethrough().prefix().to_string(), "\x1B[9m");
}

#[test]
fn attribute_order_is_canonical() {
    assert_eq!(
        Green.bold().underline().prefix().to_string(),
        "\x1B[1;4;32m"
    );
    assert_eq!(
        Green.underline().bold().prefix().to_string(),
        "\x1B[1;4;32m"
    );
    assert_eq!(
        Cyan.underline().bold().bg(White).prefix().to_string(),
        "\x1B[1;4;47;36m"
    );
}

#[test]
fn background_precedes_foreground() {
    assert_eq!(Yellow.normal().on(Blue).prefix().to_string(), "\x1B[44;33m");
    assert_eq!(
        Style::new().bg(Blue).fg(Yellow).prefix().to_string(),
        "\x1B[44;33m"
    );
    assert_eq!(LightRed.on(LightRed).prefix().to_string(), "\x1B[101;91m");
    assert_eq!(Black.normal().prefix().to_string(), "\x1B[30m");
}

#[test]
fn fixed_and_rgb_codes() {
    assert_eq!(Fixed(100).normal().prefix().to_string(), "\x1B[38;5;100m");
    assert_eq!(
        Fixed(100).on(Purple).prefix().to_string(),
        "\x1B[45;38;5;100m"
    );
    assert_eq!(
        Fixed(100).on(Fixed(200)).prefix().to_string(),
        "\x1B[48;5;200;38;5;100m"
    );
    assert_eq!(
        Rgb(70, 130, 180).normal().prefix().to_string(),
        "\x1B[38;2;70;130;180m"
    );
    assert_eq!(
        Rgb(70, 130, 180).on(Blue).prefix().to_string(),
        "\x1B[44;38;2;70;130;180m"
    );
    assert_eq!(
        Blue.on(Rgb(70, 130, 180)).prefix().to_string(),
        "\x1B[48;2;70;130;180;34m"
    );
    assert_eq!(
        Rgb(70, 130, 180).on(Rgb(5, 10, 15)).prefix().to_string(),
        "\x1B[48;2;5;10;15;38;2;70;130;180m"
    );
    assert_eq!(Fixed(0).normal().prefix().to_string(), "\x1B[38;5;0m");
    assert_eq!(Fixed(255).normal().prefix().to_string(), "\x1B[38;5;255m");
}

#[test]
fn default_color_codes() {
    assert_eq!(Color::Default.normal().prefix().to_string(), "\x1B[39m");
    assert_eq!(
        Style::new().bg(Color::Default).prefix().to_string(),
        "\x1B[49m"
    );
}

#[test]
fn prefix_with_reset_comes_first() {
    assert_eq!(
        Cyan.on(Blue).prefix_with_reset().fg(Yellow).prefix().to_string(),
        "\x1B[0m\x1B[44;33m"
    );
    assert_eq!(
        Style::new().bold().prefix_with_reset().prefix().to_string(),
        "\x1B[0m\x1B[1m"
    );
}

#[test]
fn suffix_is_reset_or_empty() {
    assert_eq!(Green.normal().bold().suffix().to_string(), "\x1B[0m");
    assert_eq!(Purple.suffix().to_string(), "\x1B[0m");
    assert_eq!(Style::new().suffix().to_string(), "");
}

#[test]
fn infix_identical_styles_is_empty() {
    assert_eq!(Style::new().infix(Style::new()).to_string(), "");
    let fancy = Rgb(1, 2, 3).on(Fixed(17)).bold().underline();
    assert_eq!(fancy.infix(fancy).to_string(), "");
}

#[test]
fn infix_addition_has_no_reset() {
    let out = Green.normal().infix(Green.bold()).to_string();
    assert_eq!(out, "\x1B[1m");
    assert!(!out.contains("\x1B[0m"));
    let out = Style::new().bold().infix(Green.bold().underline()).to_string();
    assert_eq!(out, "\x1B[4;32m");
    assert!(!out.contains("\x1B[0m"));
}

#[test]
fn infix_removal_is_reset_then_prefix() {
    let current = White.bold().underline();
    let next = White.bold();
    let out = current.infix(next).to_string();
    let mut expected = String::from("\x1B[0m");
    expected.push_str(&next.prefix().to_string());
    assert_eq!(out, expected);
    assert_eq!(out, "\x1B[0m\x1B[1;37m");
}

#[test]
fn infix_color_removal_resets() {
    let out = White.normal().infix(Style::new().bold()).to_string();
    assert_eq!(out, "\x1B[0m\x1B[1m");
    let out = Style::new().bg(Blue).infix(Style::new().bold()).to_string();
    assert_eq!(out, "\x1B[0m\x1B[1m");
}

#[test]
fn color_prefix_infix_suffix() {
    assert_eq!(Green.prefix().to_string(), "\x1B[32m");
    assert_eq!(Red.infix(Yellow).to_string(), "\x1B[33m");
    assert_eq!(Red.infix(Red).to_string(), "");
    assert_eq!(Purple.suffix().to_string(), "\x1B[0m");
}

#[test]
fn purple_and_magenta_encode_identically() {
    assert_eq!(
        Purple.normal().prefix().to_string(),
        Magenta.normal().prefix().to_string()
    );
    assert_eq!(Purple.on(White).prefix().to_string(), "\x1B[47;35m");
    assert_eq!(Magenta.on(White).prefix().to_string(), "\x1B[47;35m");
    assert_eq!(
        Color::LightPurple.normal().prefix().to_string(),
        Color::LightMagenta.normal().prefix().to_string()
    );
}

#[test]
fn zero_padded_format() {
    let bold = Style::new().bold();
    assert_eq!(
        bold.prefix().to_string_with(CodeFormat::ZeroPadded),
        "\x1B[01m"
    );
    assert_eq!(
        Yellow.bold().prefix().to_string_with(CodeFormat::ZeroPadded),
        "\x1B[01;33m"
    );
    // Color codes are never padded.
    assert_eq!(
        Blue.normal().prefix().to_string_with(CodeFormat::ZeroPadded),
        "\x1B[34m"
    );
    assert_eq!(
        Green.normal().infix(Green.bold()).to_string_with(CodeFormat::ZeroPadded),
        "\x1B[01m"
    );
}

#[test]
fn byte_sink_matches_string_sink() {
    let style = Yellow.bold();
    let mut bytes = ByteSink::new();
    style
        .write_prefix(&mut bytes, CodeFormat::Standard)
        .unwrap();
    assert_eq!(bytes.into_bytes(), b"\x1B[1;33m".to_vec());

    let mut chars = StringSink::new();
    style
        .write_prefix(&mut chars, CodeFormat::Standard)
        .unwrap();
    assert_eq!(chars.into_string(), "\x1B[1;33m");
}

#[test]
fn write_suffix_and_infix_into_sinks() {
    let mut sink = ByteSink::new();
    Yellow.bold().write_suffix(&mut sink).unwrap();
    assert_eq!(sink.into_bytes(), b"\x1B[0m".to_vec());

    let mut sink = StringSink::new();
    White
        .normal()
        .write_infix(White.bold(), &mut sink, CodeFormat::Standard)
        .unwrap();
    assert_eq!(sink.into_string(), "\x1B[1m");
}

#[test]
fn bounded_sink_keeps_bytes_written_before_the_failure() {
    let mut sink = BoundedSink::new(3);
    let result = Style::new().bold().write_prefix(&mut sink, CodeFormat::Standard);
    assert!(result.is_err());
    // The sequence start and the bold code fit; the closing `m` did not.
    assert_eq!(sink.into_bytes(), b"\x1B[1".to_vec());
}

#[test]
fn bounded_sink_succeeds_within_capacity() {
    let mut sink = BoundedSink::new(16);
    Style::new().bold().write_prefix(&mut sink, CodeFormat::Standard).unwrap();
    assert_eq!(sink.into_bytes(), b"\x1B[1m".to_vec());

    let mut sink = BoundedSink::new(0);
    let result = Style::new().bold().write_prefix(&mut sink, CodeFormat::Standard);
    assert!(result.is_err());
    assert_eq!(sink.into_bytes(), Vec::<u8>::new());
    let mut sink = BoundedSink::new(0);
    assert!(Style::new().write_prefix(&mut sink, CodeFormat::Standard).is_ok());
}

#[test]
fn write_str_reports_exact_fit() {
    let mut sink = BoundedSink::new(5);
    assert!(sink.write_str("abcde").is_ok());
    assert!(sink.write_str("").is_ok());
    assert!(sink.write_str("f").is_err());
    assert_eq!(sink.into_bytes(), b"abcde".to_vec());
}

#[test]
fn is_plain_distinguishes_reset_flag() {
    assert!(Style::new().is_plain());
    assert!(!Style::new().bold().is_plain());
    assert!(!Style::new().prefix_with_reset().is_plain());
    assert!(!White.normal().is_plain());
}
