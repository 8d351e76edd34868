//! Text: trimming, splitting, and numbers.

use meshsplat::text::{
    decimal_text, first_visible, has_part, has_prefix, has_suffix, hex_text, join, lower_text,
    parse_bounded, parse_usize, replace, same_text, slice_text, split_fields, split_lines,
    split_words, text_after, text_before, text_before_part, to_chars, trim, trim_end_char,
};

#[test]
fn splitting_agrees_with_the_standard_library() {
    for t in [
        "",
        " ",
        "a",
        " a  b\tc ",
        "a\nb\r\nc\n",
        "\n\n",
        "x\ry\r\n",
        "é\u{3000}ü\u{85}z",
        "\r\n",
    ] {
        assert_eq!(trim(t), t.trim(), "{t:?}");
        assert_eq!(first_visible(t), t.trim().chars().next());
        assert_eq!(split_words(t), t.split_whitespace().collect::<Vec<_>>(), "{t:?}");
        let lines: Vec<String> = split_lines(t).iter().map(|l| trim(l)).collect();
        assert_eq!(lines, t.lines().map(str::trim).collect::<Vec<_>>(), "{t:?}");
        assert_eq!(lower_text(t), t.to_ascii_lowercase());
        assert_eq!(to_chars(t), t.chars().collect::<Vec<_>>());
        for part in ["a", "b", "  ", "\n", ""] {
            assert_eq!(has_part(t, part), t.contains(part));
            assert_eq!(has_prefix(t, part), t.starts_with(part));
            assert_eq!(has_suffix(t, part), t.ends_with(part));
            assert_eq!(same_text(t, part), t == part);
        }
    }
}

#[test]
fn fields_are_split_at_commas_and_semicolons() {
    assert_eq!(split_fields(" a,b;c\td,, ", true), vec!["a", "b", "c", "d"]);
    assert_eq!(split_fields("a,b c", false), vec!["a,b", "c"]);
}

#[test]
fn parts_are_cut_out() {
    assert_eq!(text_before("a/b/c", '/'), Some("a".to_owned()));
    assert_eq!(text_after("a/b/c", '/'), Some("c".to_owned()));
    assert_eq!(text_before("abc", '/'), None);
    assert_eq!(text_after("abc", '/'), None);
    assert_eq!(text_before_part("1 -- 2 -- 3", "--"), "1 ");
    assert_eq!(text_before_part("123", "--"), "123");
    assert_eq!(trim_end_char("17))", ')'), "17");
    assert_eq!(slice_text(&to_chars("aéb"), 1, 3), "éb");
    assert_eq!(join(&vec!["a".to_owned(), "b".to_owned()], ", "), "a, b");
    assert_eq!(join(&Vec::new(), ", "), "");
    for (t, part, with) in [
        ("aXbXc", "X", ""),
        ("aaaa", "aa", "b"),
        ("abc", "x", "y"),
        ("", "x", "y"),
        ("xx", "x", "xx"),
    ] {
        assert_eq!(replace(t, part, with), t.replace(part, with));
    }
}

#[test]
fn numbers_are_read_and_written() {
    for n in [0, 7, 10, 12345, u64::MAX] {
        assert_eq!(decimal_text(n), n.to_string());
        assert_eq!(parse_bounded(&decimal_text(n), u64::MAX), Some(n));
        assert_eq!(hex_text(n, 16), format!("{n:016x}"));
    }
    for t in [
        "",
        "+",
        "-1",
        "+5",
        "007",
        "1 ",
        "18446744073709551615",
        "18446744073709551616",
        "99999999999999999999999",
        "1x",
        "٣",
    ] {
        assert_eq!(parse_bounded(t, u64::MAX), t.parse::<u64>().ok(), "{t}");
        assert_eq!(parse_usize(t), t.parse::<usize>().ok(), "{t}");
        assert_eq!(
            parse_bounded(t, u32::MAX as u64),
            t.parse::<u32>().ok().map(u64::from),
            "{t}"
        );
    }
}
