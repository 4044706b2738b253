use wallfetch::format::render_ansi;

#[test]
fn renders_placeholders() {
    let rendered = render_ansi("$1red $2blue\n", &[[255, 0, 0], [0, 0, 255]]).unwrap();
    assert_eq!(
        rendered,
        "\x1b[38;2;255;0;0mred \x1b[38;2;0;0;255mblue\x1b[0m\n"
    );
}

#[test]
fn rejects_template_without_placeholders() {
    assert!(render_ansi("plain text", &[[255, 0, 0]]).is_err());
}

#[test]
fn render_reports_the_missing_placeholders() {
    assert_eq!(
        render_ansi("$3 only", &[[1, 2, 3], [4, 5, 6]]).unwrap_err(),
        "template contains none of the available $1, $2, ... placeholders"
    );
}

#[test]
fn render_appends_reset_without_final_newline() {
    assert_eq!(
        render_ansi("a$1b", &[[1, 2, 3]]).unwrap(),
        "a\x1b[38;2;1;2;3mb\x1b[0m"
    );
}

#[test]
fn render_replaces_two_digit_placeholders_first() {
    let mut colors = vec![[0u8, 0, 0]; 12];
    colors[0] = [1, 1, 1];
    colors[11] = [12, 12, 12];
    assert_eq!(
        render_ansi("$12 $1", &colors).unwrap(),
        "\x1b[38;2;12;12;12m \x1b[38;2;1;1;1m\x1b[0m"
    );
}

#[test]
fn render_treats_longer_placeholder_as_prefix_when_colour_missing() {
    // With two colours, `$12` is `$1` followed by `2`.
    assert_eq!(
        render_ansi("$12", &[[1, 1, 1], [2, 2, 2]]).unwrap(),
        "\x1b[38;2;1;1;1m2\x1b[0m"
    );
}

#[test]
fn render_replaces_every_occurrence() {
    assert_eq!(
        render_ansi("$1$1\n\n", &[[9, 8, 7]]).unwrap(),
        "\x1b[38;2;9;8;7m\x1b[38;2;9;8;7m\n\x1b[0m\n"
    );
}

#[test]
fn render_without_colours_fails() {
    assert!(render_ansi("$1", &[]).is_err());
}
