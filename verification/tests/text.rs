use argus_manager::text::{
    characters, contains, decimal_text, find, find_from, is_space, join, parse_signed,
    parse_unsigned, same, split_line, strip_str_prefix, token, trim, Class,
};

fn text(v: &[char]) -> String {
    v.iter().collect()
}

#[test]
fn white_space_is_that_of_unicode() {
    for n in 0..=0x10_ffffu32 {
        if let Some(c) = char::from_u32(n) {
            assert_eq!(is_space(c), c.is_whitespace(), "{n:x}");
        }
    }
}

#[test]
fn trimming_removes_white_space_at_both_ends() {
    let cases: Vec<&str> =
        vec!["", " ", "a", " a ", "\t a b \n", "\u{3000}x\u{85}", "x\u{200b} ", "\r\n12\r\n"];
    for s in cases {
        assert_eq!(text(trim(&characters(s))), s.trim());
    }
}

#[test]
fn whole_numbers_are_read_as_std_reads_them() {
    let cases: Vec<&str> = vec![
        "", "+", "-", "0", "007", "+42", "-42", "42 ", " 42", "4 2", "4a", "18446744073709551615",
        "18446744073709551616", "99999999999999999999999", "9223372036854775807",
        "9223372036854775808", "-9223372036854775808", "-9223372036854775809", "--1", "+-1", "-0",
        "4294967295", "4294967296", "\u{664}",
    ];
    for s in cases {
        let c = characters(s);
        assert_eq!(parse_unsigned(&c, u64::MAX), s.parse::<u64>().ok(), "{s}");
        assert_eq!(
            parse_unsigned(&c, u32::MAX as u64),
            s.parse::<u32>().ok().map(|n| n as u64),
            "{s}"
        );
        assert_eq!(parse_signed(&c), s.parse::<i64>().ok(), "{s}");
    }
}

#[test]
fn lines_end_at_line_feeds() {
    let cases: Vec<&str> =
        vec!["", "a", "a\n", "a\nb", "a\r\nb\r", "\n\nx\n", "\r\n", "a\r\r\nb", "one\ntwo\r\nthree"];
    for s in cases {
        let all = characters(s);
        let mut rest: &[char] = &all;
        let mut lines: Vec<String> = Vec::new();
        while !rest.is_empty() {
            let (line, after) = split_line(rest);
            lines.push(text(line));
            rest = after;
        }
        let want: Vec<String> = s.lines().map(|l| l.to_string()).collect();
        assert_eq!(lines, want, "{s:?}");
    }
}

#[test]
fn needles_are_found_where_they_first_stand() {
    let s = characters("abcabcab");
    assert_eq!(find(&s, &characters("abc")), Some(0));
    assert_eq!(find(&s, &characters("cab")), Some(2));
    assert_eq!(find(&s, &characters("abd")), None);
    assert_eq!(find(&s, &characters("")), Some(0));
    assert_eq!(find(&characters(""), &characters("a")), None);
    assert_eq!(find_from(&s, &characters("abc"), 1), Some(3));
    assert_eq!(find_from(&s, &characters("abc"), 4), None);
    assert_eq!(find_from(&s, &characters(""), 8), Some(8));
    assert!(contains("17000000.gv11b", "gv11b"));
    assert!(!contains("17000000.gv1", "gv11b"));
}

#[test]
fn tokens_and_prefixes() {
    assert_eq!(token(&characters("  12345 kB"), Class::Space).map(text), Some("12345".to_string()));
    assert_eq!(token(&characters("  "), Class::Space).map(text), None);
    assert_eq!(token(&characters("%%9%"), Class::SpaceOrPercent).map(text), Some("9".to_string()));
    assert_eq!(strip_str_prefix("unix:/tmp/x", "unix:"), Some("/tmp/x"));
    assert_eq!(strip_str_prefix("unix", "unix:"), None);
    assert!(same("dbus", "dbus"));
    assert!(!same("dbus", "dbu"));
}

#[test]
fn numbers_are_written_in_decimal() {
    for n in [0u32, 7, 10, 42, 99, 100, 12_345, u32::MAX] {
        assert_eq!(decimal_text(n), n.to_string());
    }
}

#[test]
fn paths_are_joined_as_std_joins_them() {
    for (dir, path) in [("/sys", "class"), ("/sys/", "class"), ("", "a"), ("/a", "/b"), ("/a", "")] {
        assert_eq!(join(dir, path), std::path::Path::new(dir).join(path).to_string_lossy());
    }
}
