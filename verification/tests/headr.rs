use cli_tools::headr::{parse_positive_int, Amount, Config};

#[test]
fn test_parse_positive_int() {
    // 3 is an OK integer
    let res = parse_positive_int("3");
    assert!(res.is_ok());
    assert_eq!(res.unwrap(), 3);

    // Any string is an error
    let res = parse_positive_int("foo");
    assert!(res.is_err());
    assert_eq!(res.unwrap_err().to_string(), "foo".to_string());

    // A zero is an error
    let res = parse_positive_int("0");
    assert!(res.is_err());
    assert_eq!(res.unwrap_err().to_string(), "0".to_string());
}

#[test]
fn positive_numbers_are_read_as_the_standard_library_reads_them() {
    let mut texts: Vec<String> = Vec::new();
    for n in 0..1200usize {
        texts.push(n.to_string());
        texts.push(format!("+{}", n));
        texts.push(format!("-{}", n));
        texts.push(format!("00{}", n));
        texts.push(format!(" {}", n));
        texts.push(format!("{} ", n));
        texts.push(format!("{}x", n));
        texts.push(format!("{}.0", n));
    }
    for special in [
        "", "+", "-", "++1", "+-1", "1+", "0", "+0", "000", "1_000", "1e3", "0x10", "\u{663}",
        "\u{ff11}", "18446744073709551615", "18446744073709551616", "+18446744073709551615",
        "018446744073709551615", "99999999999999999999999999", "4294967295", "4294967296",
        "184467440737095516150", "18446744073709551614",
    ] {
        texts.push(special.to_string());
    }
    for text in texts {
        let expected: Result<usize, String> = match text.parse::<usize>() {
            Ok(n) if n > 0 => Ok(n),
            _ => Err(text.clone()),
        };
        assert_eq!(parse_positive_int(&text), expected, "for {:?}", text);
    }
}

#[test]
fn largest_machine_word_is_read() {
    assert_eq!(parse_positive_int(&usize::MAX.to_string()), Ok(usize::MAX));
    assert_eq!(parse_positive_int("+7"), Ok(7));
    assert_eq!(parse_positive_int("0042"), Ok(42));
}

fn names(files: &[&str]) -> Vec<String> {
    files.iter().map(|f| f.to_string()).collect()
}

#[test]
fn config_takes_positive_counts() {
    let config = Config::new(names(&["a", "b"]), "10", None).unwrap();
    assert_eq!(config.files, names(&["a", "b"]));
    assert_eq!(config.lines, 10);
    assert_eq!(config.bytes, None);
    let config = Config::new(names(&["-"]), "3", Some("512")).unwrap();
    assert_eq!(config.files, names(&["-"]));
    assert_eq!(config.lines, 3);
    assert_eq!(config.bytes, Some(512));
}

#[test]
fn config_rejects_a_bad_line_count() {
    assert_eq!(Config::new(names(&["a"]), "0", None).unwrap_err(), "illegal line count -- 0");
    assert_eq!(Config::new(names(&["a"]), "foo", None).unwrap_err(), "illegal line count -- foo");
    assert_eq!(Config::new(names(&["a"]), "", None).unwrap_err(), "illegal line count -- ");
    // the line count is looked at first
    assert_eq!(
        Config::new(names(&["a"]), "-1", Some("bar")).unwrap_err(),
        "illegal line count -- -1"
    );
}

#[test]
fn config_rejects_a_bad_byte_count() {
    assert_eq!(
        Config::new(names(&["a"]), "10", Some("0")).unwrap_err(),
        "illegal byte count -- 0"
    );
    assert_eq!(
        Config::new(names(&["a"]), "10", Some("1k")).unwrap_err(),
        "illegal byte count -- 1k"
    );
}

#[test]
fn plan_for_one_file_has_no_header() {
    let config = Config::new(names(&["only.txt"]), "10", None).unwrap();
    let plan = config.plan();
    assert_eq!(plan.len(), 1);
    assert_eq!(plan[0].file, "only.txt");
    assert_eq!(plan[0].header, None);
    assert_eq!(plan[0].amount, Amount::Lines(10));
    assert!(!plan[0].blank_after);
}

#[test]
fn plan_for_several_files_has_headers_and_gaps() {
    let config = Config::new(names(&["a.txt", "-", "c d"]), "2", None).unwrap();
    let plan = config.plan();
    assert_eq!(plan.len(), 3);
    assert_eq!(plan[0].file, "a.txt");
    assert_eq!(plan[1].file, "-");
    assert_eq!(plan[2].file, "c d");
    assert_eq!(plan[0].header, Some("==> a.txt <==".to_string()));
    assert_eq!(plan[1].header, Some("==> - <==".to_string()));
    assert_eq!(plan[2].header, Some("==> c d <==".to_string()));
    assert!(plan[0].blank_after);
    assert!(plan[1].blank_after);
    assert!(!plan[2].blank_after);
    for section in &plan {
        assert_eq!(section.amount, Amount::Lines(2));
    }
}

#[test]
fn plan_prefers_the_byte_count() {
    let config = Config::new(names(&["a", "b"]), "10", Some("4")).unwrap();
    for section in config.plan() {
        assert_eq!(section.amount, Amount::Bytes(4));
    }
}

#[test]
fn plan_for_no_file_is_empty() {
    let config = Config::new(Vec::new(), "10", None).unwrap();
    assert!(config.plan().is_empty());
}
