use s3_browser::number::{decimal_text, signed_decimal_text};
use s3_browser::order::stable_sort;
use s3_browser::text::{at_most, chars_of, same_text, three_texts, two_texts};

#[test]
fn texts_compare_as_strings_do() {
    let texts = ["", "a", "ab", "b", "B", "é", "z", "\u{7ff}", "\u{800}", "\u{ffff}", "\u{10000}"];
    for a in texts {
        for b in texts {
            assert_eq!(at_most(a, b), a <= b);
            assert_eq!(same_text(a, b), a == b);
        }
    }
}

#[test]
fn characters_come_one_by_one() {
    assert_eq!(chars_of("a/é"), vec!['a', '/', 'é']);
    assert_eq!(chars_of(""), Vec::<char>::new());
}

#[test]
fn texts_are_put_together() {
    assert_eq!(two_texts("ab", "c"), "abc");
    assert_eq!(three_texts("", "…", "x"), "…x");
}

#[test]
fn names_sort_as_std_sorts_them() {
    let names: Vec<String> = ["zeta", "alpha", "", "Alpha", "beta", "alpha", "éta"]
        .iter()
        .map(|name| name.to_string())
        .collect();
    let mut expected = names.clone();
    expected.sort();
    assert_eq!(stable_sort(names), expected);
    assert_eq!(stable_sort(Vec::<String>::new()), Vec::<String>::new());
}

#[test]
fn sorting_what_is_sorted_changes_nothing() {
    let names: Vec<String> = vec!["a".to_string(), "b".to_string(), "b".to_string()];
    assert_eq!(stable_sort(names.clone()), names);
}

#[test]
fn numbers_are_written_in_decimal() {
    for n in [0u64, 7, 9, 10, 42, 100, 1009, u64::MAX] {
        assert_eq!(decimal_text(n), format!("{n}"));
        assert_eq!(decimal_text(n).parse::<u64>(), Ok(n));
    }
    for n in [0i64, 5, -1, -10, i64::MAX, i64::MIN] {
        assert_eq!(signed_decimal_text(n), format!("{n}"));
    }
}
