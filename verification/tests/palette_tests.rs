use palettify::{parse_hex_str, Palette};

#[test]
fn parses_lowercase_and_uppercase_hex() {
    assert_eq!(parse_hex_str("#ff8800"), Some([255, 136, 0]));
    assert_eq!(parse_hex_str("#FF8800"), Some([255, 136, 0]));
    assert_eq!(parse_hex_str("#1a2B3c"), Some([0x1a, 0x2b, 0x3c]));
    assert_eq!(parse_hex_str("#000000"), Some([0, 0, 0]));
}

#[test]
fn surrounding_white_space_is_ignored() {
    assert_eq!(parse_hex_str("  #102030\t"), Some([16, 32, 48]));
    assert_eq!(parse_hex_str("#102030\r"), Some([16, 32, 48]));
    assert_eq!(parse_hex_str("\u{a0}#102030\u{3000}"), Some([16, 32, 48]));
}

#[test]
fn plus_sign_fields_parse_as_single_digits() {
    assert_eq!(parse_hex_str("#+f+f+f"), Some([15, 15, 15]));
    assert_eq!(parse_hex_str("#+a0b+c"), Some([10, 11, 12]));
}

#[test]
fn malformed_lines_give_none() {
    assert_eq!(parse_hex_str(""), None);
    assert_eq!(parse_hex_str("#12345"), None);
    assert_eq!(parse_hex_str("#1234567"), None);
    assert_eq!(parse_hex_str("ff88000"), None);
    assert_eq!(parse_hex_str("#gg0000"), None);
    assert_eq!(parse_hex_str("#-10000"), None);
    assert_eq!(parse_hex_str("#++0000"), None);
    assert_eq!(parse_hex_str("# 10000"), None);
    assert_eq!(parse_hex_str("// comment"), None);
}

#[test]
fn non_ascii_field_gives_none() {
    assert_eq!(parse_hex_str("#\u{e9}1234"), None);
    assert_eq!(parse_hex_str("#12\u{e9}34"), None);
}

#[test]
fn formatted_colours_parse_back() {
    for c in [[0u8, 0, 0], [255, 255, 255], [1, 128, 254], [0x9a, 0xbc, 0xde]] {
        let lower = format!("#{:02x}{:02x}{:02x}", c[0], c[1], c[2]);
        let upper = format!("#{:02X}{:02X}{:02X}", c[0], c[1], c[2]);
        assert_eq!(parse_hex_str(&lower), Some(c));
        assert_eq!(parse_hex_str(&upper), Some(c));
    }
}

#[test]
fn palette_keeps_the_colours_of_valid_lines_in_order() {
    let text = "#ff0000\nnot a colour\n  #00FF00  \r\n\n#0000ff";
    let p = Palette::parse(text);
    assert_eq!(p.0, vec![[255, 0, 0], [0, 255, 0], [0, 0, 255]]);
}

#[test]
fn palette_with_trailing_newline_and_empty_text() {
    assert_eq!(Palette::parse("#010203\n").0, vec![[1, 2, 3]]);
    assert_eq!(Palette::parse("").0, Vec::<[u8; 3]>::new());
    assert_eq!(Palette::parse("\n\n").0, Vec::<[u8; 3]>::new());
}

#[test]
fn palette_keeps_repeated_colours() {
    let p = Palette::parse("#111111\n#111111\n#222222\n");
    assert_eq!(p.0, vec![[17, 17, 17], [17, 17, 17], [34, 34, 34]]);
}

#[test]
fn written_palette_file_reads_back() {
    let colours = vec![[12u8, 34, 56], [255, 0, 128], [12, 34, 56], [0, 0, 0]];
    let mut text = String::new();
    for c in &colours {
        text.push_str(&format!("#{:02X}{:02X}{:02X}\n", c[0], c[1], c[2]));
    }
    assert_eq!(Palette::parse(&text).0, colours);
}
