use formatter::{get_extended, get_lines, FormatterConfig};

#[test]
fn new_config_is_blank() {
    let cfg = FormatterConfig::new();
    assert_eq!(cfg.prefix, "");
    assert_eq!(cfg.suffix, "");
    assert_eq!(cfg.header, "");
    assert_eq!(cfg.footer, "");
    assert_eq!(cfg.line_breaker, "");
    assert_eq!(cfg.width, 0);
    assert_eq!(cfg.cmd, "");
    assert!(cfg.args.is_empty());
}

#[test]
fn extend_is_noop_when_width_not_larger() {
    assert_eq!(get_extended("abc", 2), "abc");
    assert_eq!(get_extended("abc", 3), "abc");
    assert_eq!(get_extended("abc", 0), "abc");
}

#[test]
fn extend_empty_line_stays_empty() {
    assert_eq!(get_extended("", 0), "");
    assert_eq!(get_extended("", 4), "");
}

#[test]
fn extend_fills_with_char_before_last() {
    let r = get_extended("ab", 6);
    assert_eq!(r, "aaaaab");
    assert_eq!(r.chars().count(), 6);
}

#[test]
fn extend_single_char_repeats_it() {
    assert_eq!(get_extended("x", 3), "xxx");
}

#[test]
fn extend_keeps_first_and_last_chars() {
    let r = get_extended("<=-]", 7);
    assert_eq!(r, "<=----]");
    assert_eq!(r.chars().next(), Some('<'));
    assert_eq!(r.chars().last(), Some(']'));
}

#[test]
fn extend_counts_multibyte_chars_once() {
    let r = get_extended("лд", 4);
    assert_eq!(r, "лллд");
    assert_eq!(r.chars().count(), 4);
}

#[test]
fn lines_empty_input_gives_one_empty_row() {
    let cfg = FormatterConfig::new();
    assert_eq!(get_lines("", &cfg), "\n");
    assert_eq!(get_lines("\n", &cfg), "\n");
}

#[test]
fn lines_empty_input_is_padded_at_fixed_width() {
    let mut cfg = FormatterConfig::new();
    cfg.width = 3;
    assert_eq!(get_lines("", &cfg), "   \n");
}

#[test]
fn lines_inner_empty_line_is_kept() {
    let mut cfg = FormatterConfig::new();
    cfg.prefix = ">".to_string();
    assert_eq!(get_lines("a\n\nb", &cfg), ">a\n>\n>b\n");
    assert_eq!(get_lines("a\n\n", &cfg), ">a\n>\n");
}

#[test]
fn lines_final_newline_changes_nothing() {
    let mut cfg = FormatterConfig::new();
    cfg.width = 4;
    cfg.prefix = "[".to_string();
    cfg.suffix = "]".to_string();
    cfg.line_breaker = "-".to_string();
    assert_eq!(get_lines("one\ntwo", &cfg), get_lines("one\ntwo\n", &cfg));
    assert_eq!(get_lines("", &cfg), get_lines("\n", &cfg));
}

#[test]
fn lines_wrap_and_pad_last_chunk() {
    let mut cfg = FormatterConfig::new();
    cfg.width = 2;
    assert_eq!(get_lines("abcde", &cfg), "ab\ncd\ne \n");
}

#[test]
fn lines_decoration_dropped_when_equal_to_width() {
    let mut cfg = FormatterConfig::new();
    cfg.width = 2;
    cfg.prefix = "<".to_string();
    cfg.suffix = ">".to_string();
    assert_eq!(get_lines("abc", &cfg), "ab\nc \n");
}

#[test]
fn lines_breaker_expanded_to_width() {
    let mut cfg = FormatterConfig::new();
    cfg.width = 6;
    cfg.prefix = "|".to_string();
    cfg.line_breaker = "=>".to_string();
    assert_eq!(get_lines("a\nb", &cfg), "|a    \n=====>\n|b    \n");
}

#[test]
fn lines_breaker_not_expanded_at_natural_width() {
    let mut cfg = FormatterConfig::new();
    cfg.line_breaker = "->".to_string();
    assert_eq!(get_lines("a\nbb", &cfg), "a\n->\nbb\n");
}
