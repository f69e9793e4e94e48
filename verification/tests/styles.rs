use nu_ansi_term::Color::{
    Black, Blue, Cyan, DarkGray, Fixed, Green, LightBlue, LightCyan, LightGray,
    LightGreen, LightMagenta, LightPurple, LightRed, LightYellow, Magenta, Purple, Red, Rgb,
    White, Yellow,
};
use nu_ansi_term::windows::console_mode_update;
use nu_ansi_term::{
    AnsiByteStrings, AnsiGenericString, AnsiString, AnsiStrings, AnyWrite, Difference, OSControl,
    Style,
};

#[test]
fn every_attribute_in_order() {
    let style = Style::new()
        .strikethrough()
        .hidden()
        .reverse()
        .blink()
        .underline()
        .italic()
        .dimmed()
        .bold()
        .fg(Red)
        .on(Blue);
    assert_eq!(style.prefix(), "\x1B[1;2;3;4;5;7;8;9;44;31m");
    assert_eq!(style.suffix(), "\x1B[0m");
}

#[test]
fn palette_foregrounds() {
    let cases = [
        (Black, "30"),
        (Red, "31"),
        (Green, "32"),
        (Yellow, "33"),
        (Blue, "34"),
        (Purple, "35"),
        (Magenta, "35"),
        (Cyan, "36"),
        (White, "37"),
        (nu_ansi_term::Color::Default, "39"),
        (DarkGray, "90"),
        (LightRed, "91"),
        (LightGreen, "92"),
        (LightYellow, "93"),
        (LightBlue, "94"),
        (LightPurple, "95"),
        (LightMagenta, "95"),
        (LightCyan, "96"),
        (LightGray, "97"),
    ];
    for (colour, code) in cases {
        assert_eq!(colour.foreground_code(), code);
        assert_eq!(colour.normal().prefix(), format!("\x1B[{}m", code));
    }
}

#[test]
fn palette_backgrounds() {
    assert_eq!(Black.background_code(), "40");
    assert_eq!(White.background_code(), "47");
    assert_eq!(nu_ansi_term::Color::Default.background_code(), "49");
    assert_eq!(DarkGray.background_code(), "100");
    assert_eq!(LightGray.background_code(), "107");
    assert_eq!(Style::new().on(LightCyan).prefix(), "\x1B[106m");
}

#[test]
fn indexed_and_rgb_colours() {
    assert_eq!(Fixed(0).foreground_code(), "38;5;0");
    assert_eq!(Fixed(7).foreground_code(), "38;5;7");
    assert_eq!(Fixed(42).foreground_code(), "38;5;42");
    assert_eq!(Fixed(200).background_code(), "48;5;200");
    assert_eq!(Rgb(1, 22, 255).foreground_code(), "38;2;1;22;255");
    assert_eq!(Rgb(0, 100, 9).background_code(), "48;2;0;100;9");
    assert_eq!(
        Fixed(200).on(LightBlue).prefix(),
        "\x1B[104;38;5;200m"
    );
}

#[test]
fn plain_style_writes_nothing() {
    let plain = Style::new();
    assert!(plain.is_plain());
    assert_eq!(plain.prefix(), "");
    assert_eq!(plain.suffix(), "");
    assert_eq!(plain.paint("text").to_string(), "text");
    assert!(!Style::new().bold().is_plain());
    assert!(!Style::title().is_plain());
    assert!(!Style::new().reset_before_style().is_plain());
}

#[test]
fn reset_before_style() {
    let style = Green.normal().reset_before_style();
    assert_eq!(style.prefix(), "\x1B[0m\x1B[32m");
    let only_reset = Style::new().reset_before_style();
    assert_eq!(only_reset.prefix(), "\x1B[0m");
    assert_eq!(only_reset.suffix(), "\x1B[0m");
}

#[test]
fn control_sequence_codes() {
    assert_eq!(Style::title().prefix(), "\x1B]2;");
    assert_eq!(Style::icon().prefix(), "\x1B]I;");
    assert_eq!(Style::cwd().prefix(), "\x1B]7;");
    assert_eq!(Style::title().suffix(), "\x1B\\");
    let mut link = Red.bold();
    link.hyperlink();
    assert_eq!(link.oscontrol, Some(OSControl::Hyperlink));
    assert_eq!(link.prefix(), "\x1B[1;31m\x1B]8;;");
    assert_eq!(link.suffix(), "\x1B]8;;\x1B\\\x1B[0m");
}

#[test]
fn colour_shortcuts() {
    assert_eq!(Red.bold(), Style::new().fg(Red).bold());
    assert_eq!(Red.dimmed(), Style::new().fg(Red).dimmed());
    assert_eq!(Red.italic(), Style::new().fg(Red).italic());
    assert_eq!(Red.underline(), Style::new().fg(Red).underline());
    assert_eq!(Red.blink(), Style::new().fg(Red).blink());
    assert_eq!(Red.reverse(), Style::new().fg(Red).reverse());
    assert_eq!(Red.hidden(), Style::new().fg(Red).hidden());
    assert_eq!(Red.strikethrough(), Style::new().fg(Red).strikethrough());
    assert_eq!(Red.on(Blue), Style::new().fg(Red).on(Blue));
    assert_eq!(Red.paint("x"), Red.normal().paint("x"));
}

#[test]
fn difference_cases() {
    let red = Red.normal();
    assert_eq!(Difference::between(&red, &red), Difference::Empty);
    assert_eq!(Difference::between(&red.bold(), &red), Difference::Reset);
    assert_eq!(Difference::between(&red, &Style::new()), Difference::Reset);
    assert_eq!(Difference::between(&Style::title(), &Style::new()), Difference::Reset);
    assert_eq!(
        Difference::between(&red, &red.bold()),
        Difference::ExtraStyles(Style::new().bold())
    );
    assert_eq!(
        Difference::between(&red, &Blue.normal()),
        Difference::ExtraStyles(Blue.normal())
    );
    assert_eq!(
        Difference::between(&Style::new(), &Style::title()),
        Difference::ExtraStyles(Style::title())
    );
    assert_eq!(
        Difference::between(&Red.underline(), &Blue.bold().underline()),
        Difference::ExtraStyles(Blue.bold())
    );
    assert_eq!(
        Difference::between(&red, &red.reset_before_style()),
        Difference::ExtraStyles(Style::new())
    );
}

#[test]
fn transitions_between_styles() {
    let a = Red.paint("a");
    let b = Blue.paint("b");
    assert_eq!(AnsiStrings(&[a.clone(), b.clone()]).to_string(), "\x1B[31ma\x1B[34mb\x1B[0m");
    let bold = Red.bold().paint("a");
    assert_eq!(
        AnsiStrings(&[bold, Red.paint("b")]).to_string(),
        "\x1B[1;31ma\x1B[0m\x1B[31mb\x1B[0m"
    );
    assert_eq!(AnsiStrings(&[a.clone(), Red.paint("b")]).to_string(), "\x1B[31mab\x1B[0m");
    assert_eq!(
        AnsiStrings(&[Green.paint("a"), Style::new().paint("b")]).to_string(),
        "\x1B[32ma\x1B[0mb"
    );
    assert_eq!(AnsiStrings(&[]).to_string(), "");
}

#[test]
fn alone_in_a_set() {
    let mut link = Red.paint("here");
    link.hyperlink("https://example.com");
    let texts: [AnsiString; 5] = [
        Style::new().paint("plain"),
        Red.bold().paint("bold red"),
        AnsiString::title("T"),
        Style::new().reset_before_style().paint("r"),
        link,
    ];
    for t in texts.iter() {
        assert_eq!(AnsiStrings(&[t.clone()]).to_string(), t.to_string());
    }
}

#[test]
fn constructors_and_accessors() {
    let title: AnsiString = AnsiGenericString::title("My Title");
    assert_eq!(title.to_string(), "\x1B]2;My Title\x1B\\");
    assert_eq!(AnsiString::icon("foo/bar.icn").to_string(), "\x1B]I;foo/bar.icn\x1B\\");
    assert_eq!(AnsiString::cwd("/foo/bar").to_string(), "\x1B]7;/foo/bar\x1B\\");
    let plain = AnsiString::from("a plain string");
    assert_eq!(plain.to_string(), "a plain string");
    assert_eq!(plain.clone(), plain);
    assert_eq!(plain.as_str(), "a plain string");
    assert!(plain.style_ref().is_plain());

    let mut s = Style::new().paint("x");
    *s.style_ref_mut() = Green.bold();
    assert_eq!(*s.style_ref(), Green.bold());
    assert_eq!(s.to_string(), "\x1B[1;32mx\x1B[0m");
}

#[test]
fn hyperlink_keeps_style_and_sets_url() {
    let mut s = Green.underline().paint("go");
    s.hyperlink("https://a.example");
    assert_eq!(s.style_ref().foreground, Some(Green));
    assert!(s.style_ref().is_underline);
    assert_eq!(s.params, Some("https://a.example"));
    assert_eq!(
        s.to_string(),
        "\x1B[4;32m\x1B]8;;https://a.example\x1B\\go\x1B]8;;\x1B\\\x1B[0m"
    );
}

#[test]
fn byte_strings() {
    let bytes: &[u8] = b"ab";
    let red = Red.paint(bytes);
    let mut out: Vec<u8> = Vec::new();
    red.write_to_any(&mut out);
    assert_eq!(out, b"\x1B[31mab\x1B[0m".to_vec());

    let more: &[u8] = b"cd";
    let set = [red.clone(), Style::new().paint(more)];
    let mut out: Vec<u8> = Vec::new();
    AnsiByteStrings(&set).write_to_any(&mut out);
    assert_eq!(out, b"\x1B[31mab\x1B[0mcd".to_vec());
}

#[test]
fn writers_append() {
    let mut out = String::from("> ");
    Red.paint("x").write_to_any(&mut out);
    out.write_code("!");
    assert_eq!(out, "> \x1B[31mx\x1B[0m!");
    let mut bytes: Vec<u8> = vec![1];
    bytes.write_code("é");
    bytes.write_str(&[2, 3]);
    assert_eq!(bytes, vec![1, 0xC3, 0xA9, 2, 3]);
}

#[test]
fn console_mode_gains_terminal_processing() {
    assert_eq!(console_mode_update(0x0003), Some(0x0007));
    assert_eq!(console_mode_update(0x0007), None);
    assert_eq!(console_mode_update(0), Some(4));
}

#[test]
fn link_after_reset_keeps_its_address() {
    let mut b = Style::new().paint("b");
    b.hyperlink("u");
    let joined = AnsiStrings(&[Red.paint("a"), b]).to_string();
    assert_eq!(joined, "\x1B[31ma\x1B[0m\x1B]8;;u\x1B\\b\x1B]8;;\x1B\\\x1B[0m");
}

#[test]
fn links_to_other_addresses() {
    let mut x = Blue.paint("x");
    x.hyperlink("u1");
    let mut y = Blue.paint("y");
    y.hyperlink("u2");
    assert_eq!(
        AnsiStrings(&[x.clone(), y.clone()]).to_string(),
        "\x1B[34m\x1B]8;;u1\x1B\\x\x1B]8;;u2\x1B\\y\x1B]8;;\x1B\\\x1B[0m"
    );
    let mut same = Blue.paint("y");
    same.hyperlink("u1");
    assert_eq!(
        AnsiStrings(&[x.clone(), same]).to_string(),
        "\x1B[34m\x1B]8;;u1\x1B\\xy\x1B]8;;\x1B\\\x1B[0m"
    );
    let mut bolder = Blue.bold().paint("y");
    bolder.hyperlink("u1");
    assert_eq!(
        AnsiStrings(&[x, bolder.clone()]).to_string(),
        "\x1B[34m\x1B]8;;u1\x1B\\x\x1B[1my\x1B]8;;\x1B\\\x1B[0m"
    );
    assert_eq!(
        AnsiStrings(&[bolder, y]).to_string(),
        "\x1B[1;34m\x1B]8;;u1\x1B\\y\x1B[0m\x1B[34m\x1B]8;;u2\x1B\\y\x1B]8;;\x1B\\\x1B[0m"
    );
}

#[test]
fn byte_links_compare_addresses() {
    let u: &[u8] = b"u";
    let v: &[u8] = b"v";
    let text: &[u8] = b"t";
    let mut first = Blue.paint(text);
    first.hyperlink(u);
    let mut second = Blue.paint(text);
    second.hyperlink(u);
    let mut third = Blue.paint(text);
    third.hyperlink(v);
    let mut out: Vec<u8> = Vec::new();
    AnsiByteStrings(&[first, second, third]).write_to_any(&mut out);
    assert_eq!(
        out,
        b"\x1B[34m\x1B]8;;u\x1B\\tt\x1B]8;;v\x1B\\t\x1B]8;;\x1B\\\x1B[0m".to_vec()
    );
}

#[test]
fn last_link_wins() {
    let mut a = Red.paint("x");
    a.hyperlink("first");
    a.hyperlink("second");
    let mut b = Red.paint("x");
    b.hyperlink("second");
    assert_eq!(a, b);
    assert_eq!(Style::default().paint("x"), AnsiString::from("x"));
}

#[test]
fn argument_without_control_is_not_written() {
    let mut s = Red.paint("x");
    s.params = Some("ignored");
    assert_eq!(s.to_string(), Red.paint("x").to_string());
}

#[test]
fn same_text_compares_units() {
    assert!(<String as AnyWrite>::same_text("ab", "ab"));
    assert!(!<String as AnyWrite>::same_text("ab", "abc"));
    assert!(<Vec<u8> as AnyWrite>::same_text(&[1, 2], &[1, 2]));
    assert!(!<Vec<u8> as AnyWrite>::same_text(&[1, 2], &[1, 3]));
}

#[test]
fn bytes_are_the_encoding_of_strings() {
    let texts = ["héllo ", "wörld", " ∑"];
    let mut strings = [Red.bold().paint(texts[0]), Style::new().paint(texts[1]), Blue.paint(texts[2])];
    strings[1].hyperlink("https://é.example");
    let mut bytes = [
        Red.bold().paint(texts[0].as_bytes()),
        Style::new().paint(texts[1].as_bytes()),
        Blue.paint(texts[2].as_bytes()),
    ];
    bytes[1].hyperlink("https://é.example".as_bytes());
    let mut out: Vec<u8> = Vec::new();
    AnsiByteStrings(&bytes).write_to_any(&mut out);
    assert_eq!(out, AnsiStrings(&strings).to_string().into_bytes());
    let mut one: Vec<u8> = Vec::new();
    bytes[1].write_to_any(&mut one);
    assert_eq!(one, strings[1].to_string().into_bytes());
}
