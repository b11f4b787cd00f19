use compiler::text::{concat3, join, lines_of, parse_usize, split_str, str_eq, succ_to_string, usize_to_string};

#[test]
fn decimal_text() {
    assert_eq!(usize_to_string(0), "0");
    assert_eq!(usize_to_string(7), "7");
    assert_eq!(usize_to_string(2000), "2000");
    assert_eq!(usize_to_string(usize::MAX), usize::MAX.to_string());
}

#[test]
fn numbers_read_as_rust_reads_them() {
    assert_eq!(parse_usize("42"), Some(42));
    assert_eq!(parse_usize("+42"), Some(42));
    assert_eq!(parse_usize("007"), Some(7));
    assert_eq!(parse_usize(""), None);
    assert_eq!(parse_usize("+"), None);
    assert_eq!(parse_usize("-1"), None);
    assert_eq!(parse_usize("4 2"), None);
    assert_eq!(parse_usize("18446744073709551615"), "18446744073709551615".parse::<usize>().ok());
    assert_eq!(parse_usize("18446744073709551616"), "18446744073709551616".parse::<usize>().ok());
}

#[test]
fn splitting_and_lines() {
    assert_eq!(split_str("a|b||c", '|'), vec!["a", "b", "", "c"]);
    assert_eq!(split_str("", '|'), vec![""]);
    assert_eq!(split_str("|", '|'), vec!["", ""]);
    assert_eq!(lines_of("a\nb\r\n\nc"), vec!["a", "b", "", "c"]);
    assert_eq!(lines_of("a\n"), vec!["a"]);
    assert_eq!(lines_of(""), Vec::<String>::new());
    assert_eq!(lines_of("x\r"), vec!["x\r"]);
    let text = "one\r\ntwo\n\nthree\r";
    let std_lines: Vec<String> = text.lines().map(|l| l.to_string()).collect();
    assert_eq!(lines_of(text), std_lines);
}

#[test]
fn joining_and_comparing() {
    assert_eq!(join(&vec!["entero".to_string(), "flotante".to_string()], ","), "entero,flotante");
    assert_eq!(join(&vec![], ","), "");
    assert_eq!(concat3("a", "b", "c"), "abc");
    assert!(str_eq("abc", "abc"));
    assert!(!str_eq("abc", "abd"));
}

#[test]
fn successor_as_text() {
    assert_eq!(succ_to_string(0), "1");
    assert_eq!(succ_to_string(9), "10");
    assert_eq!(succ_to_string(41), "42");
    assert_eq!(succ_to_string(199), "200");
    assert_eq!(succ_to_string(usize::MAX), (usize::MAX as u128 + 1).to_string());
}
