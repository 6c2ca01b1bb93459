use taxstud_core::sorting::{index_before, sort_positions, sort_strings};
use taxstud_core::text::{
    blank, chars_of, collapse_whitespace, contains_text, join_texts, keep_non_empty, less_text,
    push_decimal, same_text, split_once, split_pieces, string_of, string_of_range, trim, trim_all,
};

fn owned(items: &[&str]) -> Vec<String> {
    items.iter().map(|s| s.to_string()).collect()
}

#[test]
fn characters_and_strings_convert_both_ways() {
    assert_eq!(chars_of("a\u{e9}z"), vec!['a', '\u{e9}', 'z']);
    assert_eq!(string_of(&vec!['h', 'i']), "hi");
    assert_eq!(string_of_range(&vec!['a', 'b', 'c', 'd'], 1, 3), "bc");
    assert_eq!(string_of_range(&vec!['a'], 1, 1), "");
    assert!(same_text("x", "x"));
    assert!(!same_text("x", "X"));
}

#[test]
fn whitespace_is_the_unicode_white_space_property() {
    let listed = |c: char| {
        let n = c as u32;
        (0x09..=0x0D).contains(&n)
            || [0x20, 0x85, 0xA0, 0x1680, 0x2028, 0x2029, 0x202F, 0x205F, 0x3000].contains(&n)
            || (0x2000..=0x200A).contains(&n)
    };
    for n in 0..=0x10FFFFu32 {
        if let Some(c) = char::from_u32(n) {
            let s = c.to_string();
            assert_eq!(blank(&s), listed(c), "U+{:04X}", n);
            assert_eq!(trim(&s).is_empty(), listed(c), "U+{:04X}", n);
        }
    }
}

#[test]
fn blank_means_only_whitespace() {
    assert!(blank(""));
    assert!(blank(" \t\n\u{a0}\u{3000}"));
    assert!(!blank(" a "));
    assert!(!blank("\u{200b}"));
}

#[test]
fn trim_removes_whitespace_at_both_ends_only() {
    assert_eq!(trim("  a b \n"), "a b");
    assert_eq!(trim("\u{2003}x"), "x");
    assert_eq!(trim("   "), "");
    assert_eq!(trim(""), "");
    assert_eq!(trim("x"), "x");
    assert_eq!(trim_all(&owned(&[" a", "b ", " "])), owned(&["a", "b", ""]));
}

#[test]
fn split_keeps_empty_pieces() {
    assert_eq!(split_pieces("a,b,,c", Some(',')), owned(&["a", "b", "", "c"]));
    assert_eq!(split_pieces("", Some(',')), owned(&[""]));
    assert_eq!(split_pieces(",", Some(',')), owned(&["", ""]));
    assert_eq!(split_pieces("a b\t\tc ", None), owned(&["a", "b", "", "c", ""]));
    assert_eq!(keep_non_empty(owned(&["", "a", "", "b"])), owned(&["a", "b"]));
}

#[test]
fn split_once_cuts_at_the_first_separator() {
    assert_eq!(split_once("a=b=c", '='), Some(("a".to_string(), "b=c".to_string())));
    assert_eq!(split_once("=x", '='), Some(("".to_string(), "x".to_string())));
    assert_eq!(split_once("x=", '='), Some(("x".to_string(), "".to_string())));
    assert_eq!(split_once("abc", '='), None);
    assert_eq!(split_once("", '='), None);
}

#[test]
fn join_puts_the_separator_between_neighbours() {
    assert_eq!(join_texts(&owned(&["a", "b", "c"]), ", "), "a, b, c");
    assert_eq!(join_texts(&owned(&["a"]), ", "), "a");
    assert_eq!(join_texts(&owned(&[]), ", "), "");
    assert_eq!(join_texts(&owned(&["", ""]), "-"), "-");
}

#[test]
fn collapse_leaves_single_spaces_between_words() {
    assert_eq!(collapse_whitespace("  a \t b\n\nc  "), "a b c");
    assert_eq!(collapse_whitespace(" \t"), "");
    assert_eq!(collapse_whitespace("one"), "one");
}

#[test]
fn decimal_numerals() {
    for (n, s) in [(0usize, "0"), (7, "7"), (10, "10"), (909, "909"), (1234567890, "1234567890")] {
        let mut out = "n=".to_string();
        push_decimal(&mut out, n);
        assert_eq!(out, format!("n={}", s));
    }
    let mut out = String::new();
    push_decimal(&mut out, usize::MAX);
    assert_eq!(out, usize::MAX.to_string());
}

#[test]
fn substring_search() {
    assert!(contains_text("Error: Permission denied (os error 13)", "Permission denied"));
    assert!(contains_text("abc", ""));
    assert!(contains_text("", ""));
    assert!(contains_text("abc", "abc"));
    assert!(contains_text("aab", "ab"));
    assert!(!contains_text("abc", "abcd"));
    assert!(!contains_text("abc", "ac"));
    assert!(!contains_text("", "a"));
}

#[test]
fn order_of_strings_is_by_code_point() {
    let samples = ["", "a", "A", "ab", "b", "\u{e9}", "e\u{301}", "z", "Z", "aa", "\u{10000}", "\u{ffff}"];
    for a in samples {
        for b in samples {
            assert_eq!(less_text(a, b), a < b, "{:?} vs {:?}", a, b);
        }
    }
}

#[test]
fn positions_are_sorted_by_key_and_equal_keys_keep_their_order() {
    let keys: Vec<(String, String)> = [("b", "1"), ("a", "2"), ("b", "0"), ("a", "2"), ("", "z"), ("a", "1")]
        .iter()
        .map(|(x, y)| (x.to_string(), y.to_string()))
        .collect();
    assert_eq!(sort_positions(&keys), vec![4, 5, 1, 3, 2, 0]);
    assert_eq!(sort_positions(&vec![]), Vec::<usize>::new());
    assert!(index_before(&keys, 1, 3));
    assert!(!index_before(&keys, 3, 1));
    assert!(index_before(&keys, 2, 2));
    assert!(index_before(&keys, 2, 0));
    assert!(!index_before(&keys, 0, 4));
}

#[test]
fn strings_are_sorted_like_the_standard_sort() {
    let v = owned(&["pear", "Apple", "apple", "", "fig", "apple", "\u{e9}clair", "Fig"]);
    let mut expected = v.clone();
    expected.sort();
    assert_eq!(sort_strings(&v), expected);
    let many: Vec<String> = (0..200).map(|i| format!("{}", (i * 7919) % 211)).collect();
    let mut expected = many.clone();
    expected.sort();
    assert_eq!(sort_strings(&many), expected);
}
