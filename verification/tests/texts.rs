use bagflow::paths::{abs, directory, metadata_path, parent};
use bagflow::text::{
    begins_with, contains_text, cut_once, join_texts, same_text, sort_texts, text_before,
};
use bagflow::text_map::{copy_text_map, TextMap};
use std::path::Path;

fn list(items: &[&str]) -> Vec<String> {
    items.iter().map(|s| s.to_string()).collect()
}

#[test]
fn texts_order_as_std_orders_them() {
    let words = ["", "a", "b", "ab", "aB", "a/b", "a__b", "é", "𝄞", "\u{ffff}", "abc"];
    for a in words {
        for b in words {
            assert_eq!(text_before(a, b), a < b, "{a} {b}");
            assert_eq!(same_text(a, b), a == b, "{a} {b}");
            assert_eq!(begins_with(a, b), a.starts_with(b), "{a} {b}");
        }
    }
    let mut sorted = list(&words);
    sorted.sort();
    assert_eq!(sort_texts(&list(&words)), sorted);
}

#[test]
fn cutting_takes_the_first_mark() {
    assert_eq!(cut_once("decode/frames/raw", '/'), Some(("decode".into(), "frames/raw".into())));
    assert_eq!(cut_once("/x", '/'), Some((String::new(), "x".into())));
    assert_eq!(cut_once("decode", '/'), None);
    assert_eq!(cut_once("", '/'), None);
}

#[test]
fn joining_puts_the_separator_between() {
    assert_eq!(join_texts(&list(&[]), ","), "");
    assert_eq!(join_texts(&list(&["a"]), ","), "a");
    assert_eq!(join_texts(&list(&["a", "", "b"]), ","), "a,,b");
    assert!(contains_text(&list(&["a", "b"]), "b"));
    assert!(!contains_text(&list(&["a", "b"]), "c"));
}

#[test]
fn maps_keep_keys_in_order_and_once() {
    let mut map: TextMap<String> = TextMap::new();
    for (k, v) in [("m", "1"), ("a", "2"), ("z", "3"), ("a", "4")] {
        map.insert(k.to_string(), v.to_string());
    }
    assert_eq!(map.len(), 3);
    let keys: Vec<&str> = map.entries().iter().map(|e| e.0.as_str()).collect();
    assert_eq!(keys, ["a", "m", "z"]);
    assert_eq!(map.get("a").map(String::as_str), Some("4"));
    assert_eq!(map.key_at(1), "m");
    assert_eq!(map.value_at(2), "3");
    assert!(!map.contains_key("b"));
    assert_eq!(map.get("b"), None);
    let copy = copy_text_map(&map);
    assert_eq!(copy.entries(), map.entries());
}

#[test]
fn paths_join_as_std_joins_them() {
    for base in ["", "/", "/data", "/data/", "flows", "."] {
        for path in ["", "bag", "bag/", "/abs/bag", "../bag", "."] {
            let expected = if Path::new(path).is_absolute() {
                path.to_string()
            } else {
                Path::new(base).join(path).to_str().unwrap().to_string()
            };
            assert_eq!(abs(base, path), expected, "{base} {path}");
        }
    }
}

#[test]
fn parents_are_those_of_std() {
    let paths = [
        "", "/", "//", ".", "..", "a", "a/", "/a", "a/b", "a/b/", "a//b", "/a/b", "./a", "a/.",
        "a/./b", "a/b/.", "/./a", "a/..", "../a", "/.", "./", "a/.b", "a/b.", "//a", "/a//",
        "a/b/./", "././a", ".a", "a/./.",
    ];
    for path in paths {
        let expected = Path::new(path).parent().map(|p| p.to_str().unwrap().to_string());
        assert_eq!(parent(path), expected, "{path}");
    }
    assert_eq!(directory("flow.yml"), "");
    assert_eq!(directory("/flows/flow.yml"), "/flows");
    assert_eq!(directory("/"), ".");
}

#[test]
fn metadata_stands_in_or_beside_the_bag() {
    assert_eq!(metadata_path("/data/run", true), "/data/run/metadata.yaml");
    assert_eq!(metadata_path("/data/run/a.mcap", false), "/data/run/metadata.yaml");
    assert_eq!(metadata_path("a.mcap", false), "metadata.yaml");
}
