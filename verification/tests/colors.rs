use wallfetch::colors::{hex_list, palette_json, parse_hex_colors, rgb_list, rgb_triplet, ColorsError};
use wallfetch::palette::{ansi_truecolor, rgb_hex};

#[test]
fn parses_hex_palette() {
    assert_eq!(
        parse_hex_colors("#ff0000 00ff00  #0000FF").unwrap(),
        vec![[255, 0, 0], [0, 255, 0], [0, 0, 255]]
    );
}

#[test]
fn rejects_invalid_palette() {
    assert!(parse_hex_colors("red").is_err());
    assert!(parse_hex_colors("").is_err());
}

#[test]
fn reports_the_first_invalid_word() {
    assert_eq!(
        parse_hex_colors("#123456 ##123456 nope"),
        Err(ColorsError::InvalidColor("##123456".to_string()))
    );
    assert_eq!(parse_hex_colors(" \t\n"), Err(ColorsError::NoColors));
    assert_eq!(
        parse_hex_colors("#12345"),
        Err(ColorsError::InvalidColor("#12345".to_string()))
    );
    assert_eq!(
        parse_hex_colors("1234567"),
        Err(ColorsError::InvalidColor("1234567".to_string()))
    );
    assert_eq!(
        parse_hex_colors("12345g"),
        Err(ColorsError::InvalidColor("12345g".to_string()))
    );
}

#[test]
fn splits_on_unicode_whitespace() {
    assert_eq!(
        parse_hex_colors("aBcDeF\u{3000}#010203\r\n"),
        Ok(vec![[0xab, 0xcd, 0xef], [1, 2, 3]])
    );
    assert_eq!(
        parse_hex_colors("#ff0000\u{a0}"),
        Ok(vec![[255, 0, 0]])
    );
}

#[test]
fn formats_colours() {
    assert_eq!(rgb_hex([255, 111, 97]), "#ff6f61");
    assert_eq!(rgb_hex([0, 10, 171]), "#000aab");
    assert_eq!(ansi_truecolor([0, 9, 255]), "38;2;0;9;255");
    assert_eq!(rgb_triplet([74, 78, 159]), "74,78,159");
}

#[test]
fn lists_colours() {
    let colors = [[255, 111, 97], [74, 78, 159]];
    assert_eq!(hex_list(&colors), "#ff6f61 #4a4e9f");
    assert_eq!(rgb_list(&colors), "255,111,97 74,78,159");
    assert_eq!(hex_list(&[]), "");
}

#[test]
fn hex_list_round_trip() {
    let colors = vec![[255, 111, 97], [219, 111, 158], [0, 0, 0]];
    let text = format!("{}\n", hex_list(&colors));
    assert_eq!(parse_hex_colors(&text), Ok(colors));
}

#[test]
fn palette_json_lists_hex_strings() {
    let text = palette_json("/walls/a.png", &vec![[255, 0, 16], [1, 2, 3]], &vec![[0, 0, 0]]).unwrap();
    assert_eq!(
        text,
        "{\n  \"colors\": [\n    \"#000000\"\n  ],\n  \"source\": [\n    \"#ff0010\",\n    \"#010203\"\n  ],\n  \"wallpaper\": \"/walls/a.png\"\n}"
    );
    let empty = palette_json("w\"x", &vec![], &vec![]).unwrap();
    assert_eq!(empty, "{\n  \"colors\": [],\n  \"source\": [],\n  \"wallpaper\": \"w\\\"x\"\n}");
}
