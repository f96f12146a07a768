use model_toolcall_adapter::config::parse_model_aliases;
use model_toolcall_adapter::table::Table;
use model_toolcall_adapter::text;
use model_toolcall_adapter::text::CharClass;

#[test]
fn white_space_is_what_std_says() {
    for n in 0..=0x10ffff_u32 {
        if let Some(c) = char::from_u32(n) {
            assert_eq!(text::is_whitespace(c), c.is_whitespace(), "{n:x}");
            assert_eq!(text::width_of(c), c.len_utf8(), "{n:x}");
        }
    }
}

#[test]
fn trims_as_std_does() {
    for s in ["", " ", "a", "  a b\u{a0}\n", "\u{3000}x\u{2003}", "\r\n\t"] {
        assert_eq!(text::trim_str(s), s.trim());
        let chars = text::chars_of(s);
        assert_eq!(text::string_of(text::trim_start(&chars)), s.trim_start());
        assert_eq!(text::string_of(text::trim_end(&chars)), s.trim_end());
        assert_eq!(text::is_blank(s), s.trim().is_empty());
    }
}

#[test]
fn searches_as_std_does() {
    for (s, p) in [("abcabc", "bc"), ("abc", "abcd"), ("aaa", "aa"), ("", ""), ("x", ""), ("ab", "c")] {
        let chars = text::chars_of(s);
        assert_eq!(text::find_text(&chars, p), s.find(p));
        assert_eq!(text::str_contains(s, p), s.contains(p));
        assert_eq!(text::str_starts_with(s, p), s.starts_with(p));
        assert_eq!(text::ends_with_text(&chars, p), s.ends_with(p));
    }
    let chars = text::chars_of("a,b,c");
    assert_eq!(text::find_class(&chars, CharClass::Only(',')), Some(1));
    assert_eq!(text::find_last(&chars, ','), Some(3));
    assert_eq!(text::find_last(&chars, 'x'), None);
}

#[test]
fn splits_lines_as_std_does() {
    for s in ["", "a", "a\n", "a\r\nb\n\nc", "\n", "a\r", "x\r\r\ny"] {
        let lines: Vec<&str> = s.lines().collect();
        assert_eq!(text::split_lines(&text::chars_of(s)), lines);
    }
}

#[test]
fn writes_numbers_as_std_does() {
    for n in [0_u64, 7, 10, 99, 1234567890, u64::MAX] {
        assert_eq!(text::decimal_of(n), n.to_string());
    }
    for n in [0_i64, -1, 42, i64::MIN, i64::MAX] {
        assert_eq!(text::signed_decimal_of(n), n.to_string());
    }
}

#[test]
fn compares_and_folds_as_std_does() {
    for (a, b) in [("abc", "ABC"), ("a", "b"), ("\u{e4}", "\u{c4}"), ("", "")] {
        assert_eq!(text::eq_ignore_case(a, b), a.eq_ignore_ascii_case(b));
        assert_eq!(text::is_before(a, b), a < b);
        assert_eq!(text::is_before(b, a), b < a);
    }
    let upper = text::to_upper(&text::chars_of("aZ9\u{e4}"));
    assert_eq!(text::string_of(&upper), "AZ9\u{e4}");
    let lower = text::to_lower(&text::chars_of("aZ9\u{c4}"));
    assert_eq!(text::string_of(&lower), "az9\u{c4}");
}

#[test]
fn takes_suffixes_and_ends_off() {
    let chars = text::chars_of("doneFINISHEDFINISHED");
    assert_eq!(text::string_of(text::drop_suffix(&chars, "FINISHED")), "done");
    let chars = text::chars_of("a//");
    assert_eq!(text::string_of(text::drop_back(&chars, CharClass::Only('/'))), "a");
    let chars = text::chars_of("\r\n\nx");
    assert_eq!(text::string_of(text::drop_front(&chars, CharClass::LineEnd)), "x");
    assert_eq!(text::join(&vec!["a".to_string(), "b".to_string()], ", "), "a, b");
}

#[test]
fn tables_keep_one_value_for_a_key() {
    let mut table: Table<String> = Table::new();
    table.insert("a".to_string(), "1".to_string());
    table.insert("b".to_string(), "2".to_string());
    table.insert("a".to_string(), "3".to_string());
    assert_eq!(table.len(), 2);
    assert_eq!(table.get("a").map(String::as_str), Some("3"));
    assert_eq!(table.key_at(1), "b");
    assert_eq!(table.value_at(0), "3");
    assert_eq!(table.take("a"), Some("3".to_string()));
    assert_eq!(table.take("a"), None);
    assert_eq!(table.len(), 1);
    assert!(table.get("a").is_none());
}

#[test]
fn reads_model_aliases() {
    let aliases = parse_model_aliases("gpt-5-codex=qwen3-coder, gpt-5-mini = qwen3-fast ,,bad,=x,y=");
    assert_eq!(aliases.len(), 2);
    assert_eq!(aliases.get("gpt-5-codex").map(String::as_str), Some("qwen3-coder"));
    assert_eq!(aliases.get("gpt-5-mini").map(String::as_str), Some("qwen3-fast"));
    assert_eq!(parse_model_aliases("").len(), 0);
    assert_eq!(parse_model_aliases("a=1,a=2").get("a").map(String::as_str), Some("2"));
}
