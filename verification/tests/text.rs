use vrc_join_notificator::log_read::{latest_log_file, log_in_vec, log_time};
use vrc_join_notificator::text::{
    byte_len_below_two, clone_strings, contains, count_newlines, is_boundary, join, parse_i64,
    parse_u32, parse_usize, push_count_field, push_decimal, slice_from, slice_range,
};

fn v(items: &[&str]) -> Vec<String> {
    items.iter().map(|s| s.to_string()).collect()
}

#[test]
fn lines_split_at_lf_and_crlf() {
    assert_eq!(log_in_vec("a\nb\r\nc"), v(&["a", "b", "c"]));
}

#[test]
fn lines_final_terminator_is_optional() {
    assert_eq!(log_in_vec("a\nb\n"), v(&["a", "b"]));
    assert_eq!(log_in_vec("a\nb\r\n"), v(&["a", "b"]));
    assert_eq!(log_in_vec("a\nb"), v(&["a", "b"]));
}

#[test]
fn lines_edge_cases() {
    assert_eq!(log_in_vec(""), Vec::<String>::new());
    assert_eq!(log_in_vec("\n"), v(&[""]));
    assert_eq!(log_in_vec("\n\n"), v(&["", ""]));
    assert_eq!(log_in_vec("a\r"), v(&["a\r"]));
    assert_eq!(log_in_vec("a\r\rb\n"), v(&["a\r\rb"]));
    assert_eq!(log_in_vec("x\r\r\n"), v(&["x\r"]));
}

#[test]
fn lines_match_std_lines() {
    for s in ["", "a", "a\n", "\r\n", "a\r\nb\rc\n\nd\r", "日本\n語\r\n"] {
        let expected: Vec<String> = s.lines().map(|l| l.to_string()).collect();
        assert_eq!(log_in_vec(s), expected);
    }
}

#[test]
fn joined_lines_split_back() {
    let lines = v(&["one", "two\rx", "three"]);
    assert_eq!(log_in_vec(&join(&lines, "\n")), lines);
}

#[test]
fn contains_finds_substrings() {
    assert!(contains("hello world", "o w"));
    assert!(contains("abc", ""));
    assert!(!contains("abc", "abcd"));
    assert!(contains("日本語", "本語"));
    assert!(!contains("", "a"));
}

#[test]
fn byte_slicing_follows_str_indexing() {
    let s = "ab日本c";
    assert!(is_boundary(s, 2));
    assert!(!is_boundary(s, 3));
    assert!(is_boundary(s, 8));
    assert!(is_boundary(s, 9));
    assert!(!is_boundary(s, 10));
    assert_eq!(slice_from(s, 5), "本c");
    assert_eq!(slice_range(s, 2, 8), "日本");
    assert_eq!(slice_from(s, 9), "");
}

#[test]
fn join_puts_separators_between() {
    assert_eq!(join(&v(&[]), ", "), "");
    assert_eq!(join(&v(&["a"]), ", "), "a");
    assert_eq!(join(&v(&["a", "b", "c"]), ", "), "a, b, c");
}

#[test]
fn decimal_and_count_field() {
    let mut s = String::new();
    push_decimal(&mut s, 0);
    assert_eq!(s, "0");
    let mut s = String::from("x");
    push_decimal(&mut s, 1234567);
    assert_eq!(s, "x1234567");
    for n in [0usize, 7, 42, 100, 999, 12345] {
        let mut s = String::new();
        push_count_field(&mut s, n);
        assert_eq!(s, format!("{: >3}", n));
    }
}

#[test]
fn parse_numbers_like_std() {
    for s in ["0", "42", "+7", "-1", "", "+", "-", " 1", "1_0", "18446744073709551615", "18446744073709551616", "4294967295", "4294967296", "007"] {
        assert_eq!(parse_usize(s), s.parse::<usize>().ok(), "usize {:?}", s);
        assert_eq!(parse_u32(s), s.parse::<u32>().ok(), "u32 {:?}", s);
        assert_eq!(parse_i64(s), s.parse::<i64>().ok(), "i64 {:?}", s);
    }
    for s in ["-9223372036854775808", "-9223372036854775809", "9223372036854775807", "9223372036854775808", "-0", "+-1"] {
        assert_eq!(parse_i64(s), s.parse::<i64>().ok(), "i64 {:?}", s);
    }
}

#[test]
fn newline_count() {
    assert_eq!(count_newlines(""), 0);
    assert_eq!(count_newlines("a\nb\n\nc"), 3);
}

#[test]
fn byte_length_below_two() {
    assert!(byte_len_below_two(""));
    assert!(byte_len_below_two("a"));
    assert!(!byte_len_below_two("ab"));
    assert!(!byte_len_below_two("é"));
}

#[test]
fn clone_keeps_strings() {
    let a = v(&["x", "y"]);
    assert_eq!(clone_strings(&a), a);
}

#[test]
fn log_time_reads_the_stamp() {
    assert_eq!(log_time("output_log_2024-01-02_03-04-05.txt"), Some(20240102030405));
    assert_eq!(log_time("output_log_x.txt"), None);
    assert_eq!(log_time("output_log_2024-01-02_03-04-0a.txt"), None);
}

#[test]
fn latest_log_file_picks_the_newest() {
    let names = v(&[
        "output_log_2024-01-02_03-04-05.txt",
        "Player.log",
        "output_log_2024-03-01_00-00-00.txt",
        "output_log_2023-12-31_23-59-59.txt",
    ]);
    assert_eq!(latest_log_file(&names), "output_log_2024-03-01_00-00-00.txt");
}

#[test]
fn latest_log_file_keeps_the_first_of_equals() {
    let names = v(&["output_log_2024-01-02_03-04-05.txt", "output_log_2024-01-02_03-04-05.bak"]);
    assert_eq!(latest_log_file(&names), "output_log_2024-01-02_03-04-05.txt");
}

#[test]
fn latest_log_file_empty_without_logs() {
    assert_eq!(latest_log_file(&v(&["a.txt", "b"])), "");
    assert_eq!(latest_log_file(&v(&["output_log_0000-00-00_00-00-00.txt"])), "");
}
