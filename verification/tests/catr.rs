use cli_tools::catr::{blank, whitespace, Config, Numbering};

fn config(number_lines: bool, number_nonblank_lines: bool) -> Config {
    Config { files: vec!["-".to_string()], number_lines, number_nonblank_lines }
}

fn print_all(config: &Config, lines: &[&str]) -> Vec<String> {
    let mut numbering = Numbering::new();
    lines.iter().map(|line| numbering.line(config, line)).collect()
}

#[test]
fn whitespace_is_what_the_standard_library_calls_whitespace() {
    for code in 0..=0x10FFFFu32 {
        if let Some(c) = char::from_u32(code) {
            assert_eq!(whitespace(c), c.is_whitespace(), "for U+{:04X}", code);
        }
    }
}

#[test]
fn blank_lines_are_those_that_trim_to_nothing() {
    for line in [
        "", " ", "\t", " \t \u{a0}\u{3000}", "\r", "a", " a ", "\u{200b}", " \u{2028} ", "  .  ",
        "\u{85}", "\u{1680}\u{2000}\u{200a}\u{202f}\u{205f}", "\u{feff}",
    ] {
        assert_eq!(blank(line), line.trim().is_empty(), "for {:?}", line);
    }
}

#[test]
fn plain_copy_numbers_nothing() {
    let printed = print_all(&config(false, false), &["one", "", "three"]);
    assert_eq!(printed, vec!["one", "", "three"]);
}

#[test]
fn number_all_lines() {
    let printed = print_all(&config(true, false), &["one", "", "three"]);
    assert_eq!(printed, vec!["     1\tone", "     2\t", "     3\tthree"]);
}

#[test]
fn number_nonblank_lines_skips_blank_ones() {
    let printed = print_all(&config(false, true), &["one", "", "  \t", "four"]);
    assert_eq!(printed, vec!["     1\tone", "", "  \t", "     2\tfour"]);
}

#[test]
fn numbers_are_set_as_the_standard_library_sets_them() {
    let all = config(true, false);
    let lines = vec!["x"; 1_000_123];
    let printed = print_all(&all, &lines);
    for n in [1usize, 9, 10, 99, 100, 999, 1000, 99_999, 100_000, 999_999, 1_000_000, 1_000_123] {
        assert_eq!(printed[n - 1], format!("{:>6}\t{}", n, "x"));
    }
    assert_eq!(printed[999_998], "999999\tx");
    assert_eq!(printed[999_999], "1000000\tx");
}

#[test]
fn each_file_starts_at_line_one() {
    let all = config(true, false);
    assert_eq!(print_all(&all, &["a", "b"]), vec!["     1\ta", "     2\tb"]);
    assert_eq!(print_all(&all, &["c"]), vec!["     1\tc"]);
}
