//! Texts, paths and names.

use herdr_worktree_nav::model::{name_of_path, normalize_path, Unlisted};
use herdr_worktree_nav::ordered::OrderedMap;
use herdr_worktree_nav::port::Slug;
use herdr_worktree_nav::text::{
    chars_of, comes_before, decimal_text, folded, insert_ordered, joined, lines_of, read_number,
    read_signed, text_of, trimmed_text, wide_decimal_text,
};

fn lines(text: &str) -> Vec<String> {
    let cs = chars_of(text);
    lines_of(&cs).into_iter().map(text_of).collect()
}

#[test]
fn a_text_is_split_trimmed_and_folded_as_the_standard_library_does() {
    let cases = [
        "", "a", "a\n", "a\r\nb", "a\rb\n", "\n\na", "  a \t b ", "\u{a0}a\u{2003}", "é\u{3000}ü\n",
        "\r", "\r\n", "a\n\n",
    ];
    for text in cases {
        assert_eq!(lines(text), text.lines().collect::<Vec<_>>(), "{text:?}");
        assert_eq!(trimmed_text(text), text.trim(), "{text:?}");
    }
    assert_eq!(folded("fatal: bad ref for\n  refs/heads/x\n"), "fatal: bad ref for refs/heads/x");
    assert_eq!(folded(&folded("a\n\n b\n")), folded("a\n\n b\n"));
    assert_eq!(joined(&vec!["a".to_string(), "b".to_string()], "; "), "a; b");
}

#[test]
fn every_white_space_character_is_trimmed_and_no_other() {
    for code in 0..0x11000u32 {
        if let Some(c) = char::from_u32(code) {
            let text = format!("{c}x");
            assert_eq!(trimmed_text(&text), text.trim(), "{code:x}");
        }
    }
}

#[test]
fn a_number_reads_back() {
    for n in [0, 7, 10, 4294967295, u64::MAX] {
        assert_eq!(decimal_text(n), n.to_string());
        assert_eq!(read_number(&chars_of(&n.to_string()), u64::MAX), Some(n));
    }
    assert_eq!(wide_decimal_text(u128::MAX), u128::MAX.to_string());
    for (text, most) in [("", 9), ("x", 9), ("-1", 9), ("10", 9), ("18446744073709551616", u64::MAX)] {
        assert_eq!(read_number(&chars_of(text), most), None, "{text}");
    }
    assert_eq!(read_number(&chars_of("+7"), 9), "+7".parse().ok());
    for text in ["0", "-12", "+3", "9223372036854775807", "9223372036854775808", "-", "a", ""] {
        assert_eq!(read_signed(&chars_of(text)), text.parse::<i64>().ok(), "{text}");
    }
}

#[test]
fn texts_are_ordered_as_the_standard_library_orders_them() {
    let texts = ["b", "", "a", "aa", "ä", "Z", "a/b", "\u{10000}", "\u{ffff}"];
    for a in texts {
        for b in texts {
            assert_eq!(comes_before(a, b), a < b, "{a:?} {b:?}");
        }
    }
    let mut expected: Vec<String> = texts.iter().map(|text| text.to_string()).collect();
    let mut list = Vec::new();
    for text in &expected {
        insert_ordered(&mut list, text.clone());
        insert_ordered(&mut list, text.clone());
    }
    expected.sort();
    assert_eq!(list, expected);
}

#[test]
fn a_map_is_walked_in_the_order_of_its_keys() {
    let mut map = OrderedMap::new();
    for (key, value) in [("b", 1), ("a", 2), ("c", 3), ("b", 4)] {
        map.insert(key.to_string(), value);
    }
    let walk = |map: &OrderedMap<i32>| -> Vec<(String, i32)> {
        (0..map.len()).map(|i| (map.key_at(i).to_string(), *map.value_at(i))).collect()
    };
    assert_eq!(
        walk(&map),
        [("a".to_string(), 2), ("b".to_string(), 4), ("c".to_string(), 3)]
    );
    map.remove("a");
    map.remove("nothing");
    assert_eq!(walk(&map), [("b".to_string(), 4), ("c".to_string(), 3)]);
    map.keep(&vec![false, true]);
    assert_eq!(walk(&map), [("c".to_string(), 3)]);
    assert!(map.has("c") && !map.has("b"));
}

#[test]
fn a_path_has_one_spelling() {
    for (path, normal) in [("/src/app/", "/src/app"), ("/src/app", "/src/app"), ("/", "/"), ("//", "/")] {
        assert_eq!(normalize_path(path), normal, "{path}");
        assert_eq!(normalize_path(&normalize_path(path)), normal, "{path}");
    }
    assert_eq!(name_of_path("/src/app"), "app");
    assert_eq!(name_of_path("app"), "app");
    let unlisted = Unlisted {
        repo_key: "/src/old/.git".to_string(),
        words: String::new(),
        panes: Vec::new(),
    };
    assert_eq!(unlisted.name(), "old");
}

#[test]
fn a_slug_is_two_names() {
    assert_eq!(Slug::owner_repo("me", "app").as_ref().map(Slug::as_str), Some("me/app"));
    for (owner, repo) in [("", "app"), ("me", ""), ("me/you", "app"), ("me", "app/x")] {
        assert_eq!(Slug::owner_repo(owner, repo), None, "{owner} {repo}");
    }
}
