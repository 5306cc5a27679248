use s3_browser::entry::{entries_of, Entry, ObjectPage, ObjectSummary};
use s3_browser::order::stable_sort;
use s3_browser::path::{last_segment, relative_name, split_segments};

fn entry(key: &str) -> Entry {
    Entry { key: key.to_string(), size: 0, is_prefix: false }
}

fn object(key: &str, size: i64) -> ObjectSummary {
    ObjectSummary { key: Some(key.to_string()), size: Some(size) }
}

#[test]
fn names_are_relative_to_the_prefix() {
    assert_eq!(entry("photos/2024/a.jpg").name("photos/2024/"), "a.jpg");
    assert_eq!(entry("photos/2024/").name("photos/"), "2024");
    assert_eq!(entry("photos/").name(""), "photos");
    assert_eq!(entry("other/a.jpg").name("photos/"), "other/a.jpg");
    assert_eq!(entry("pho").name("photos/"), "pho");
    assert_eq!(entry("a///").name(""), "a");
    assert_eq!(entry("a/").name("a/"), "");
    assert_eq!(entry("//").name(""), "");
    assert_eq!(entry("").name(""), "");
    assert_eq!(relative_name("é/ü/", "é/"), "ü");
}

#[test]
fn names_agree_with_std() {
    let texts = ["", "/", "a", "a/", "a/b", "a/b/", "a//b//", "//a", "é/b", "b/é/"];
    for key in texts {
        for prefix in texts {
            let expected = key.strip_prefix(prefix).unwrap_or(key).trim_end_matches('/');
            assert_eq!(entry(key).name(prefix), expected);
        }
    }
}

#[test]
fn file_name_is_behind_the_last_slash() {
    for key in ["", "/", "a", "a/", "a/b", "a/b/", "a//b", "é/ü.txt", "/x"] {
        let expected = key.rsplit('/').next().unwrap_or(key);
        assert_eq!(last_segment(key), expected);
        assert!(!last_segment(key).contains('/'));
        assert!(key.ends_with(last_segment(key)));
    }
    assert_eq!(last_segment("photos/2024/a.jpg"), "a.jpg");
}

#[test]
fn segments_are_the_pieces_between_slashes() {
    assert_eq!(split_segments("a/b/c/"), vec!["a", "b", "c"]);
    assert_eq!(split_segments(""), Vec::<String>::new());
    for prefix in ["", "/", "a", "a/", "//a//b", "a/b", "é/ü//"] {
        let expected: Vec<String> = prefix
            .split('/')
            .filter(|piece| !piece.is_empty())
            .map(|piece| piece.to_string())
            .collect();
        assert_eq!(split_segments(prefix), expected);
    }
}

#[test]
fn uploaded_file_keeps_its_name() {
    let key = format!("{}{}", "photos/2024/", "a.jpg");
    assert_eq!(entry(&key).name("photos/2024/"), "a.jpg");
    assert_eq!(last_segment(&key), "a.jpg");
}

#[test]
fn folders_stand_before_files() {
    let page = ObjectPage {
        common_prefixes: vec![Some("p/z/".to_string()), None, Some("p/b/".to_string())],
        contents: vec![object("p/c", 3), object("p/", 0), object("p/a", 5)],
    };
    let rows = entries_of(&page, "p/");
    let seen: Vec<(&str, i64, bool)> =
        rows.iter().map(|row| (row.key.as_str(), row.size, row.is_prefix)).collect();
    assert_eq!(
        seen,
        vec![
            ("", 0, true),
            ("p/b/", 0, true),
            ("p/z/", 0, true),
            ("p/a", 5, false),
            ("p/c", 3, false),
        ]
    );
}

#[test]
fn folder_marker_is_hidden() {
    let page = ObjectPage { common_prefixes: Vec::new(), contents: vec![object("p/", 0)] };
    assert_eq!(entries_of(&page, "p/").len(), 0);
    assert_eq!(entries_of(&page, "").len(), 1);
}

#[test]
fn missing_keys_and_sizes_are_empty() {
    let page = ObjectPage {
        common_prefixes: Vec::new(),
        contents: vec![ObjectSummary { key: None, size: None }],
    };
    let rows = entries_of(&page, "");
    assert_eq!(rows.len(), 1);
    assert_eq!(rows[0].key, "");
    assert_eq!(rows[0].size, 0);
    assert!(!rows[0].is_prefix);
}

#[test]
fn entries_of_the_same_key_keep_their_order() {
    let rows = vec![
        Entry { key: "b".to_string(), size: 1, is_prefix: false },
        Entry { key: "a".to_string(), size: 2, is_prefix: false },
        Entry { key: "a".to_string(), size: 3, is_prefix: false },
        Entry { key: "a".to_string(), size: 4, is_prefix: true },
        Entry { key: "b".to_string(), size: 5, is_prefix: false },
    ];
    let sizes: Vec<i64> = stable_sort(rows).iter().map(|row| row.size).collect();
    assert_eq!(sizes, vec![4, 2, 3, 1, 5]);
}
