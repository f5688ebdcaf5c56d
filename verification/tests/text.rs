use windplume_deploy::ordered::{comes_before, find_value, put_entry, put_item, set_of};
use windplume_deploy::paths::{bytes_of, escapes, join, same_path};
use windplume_deploy::text::{
    blank, content_lines, cut_once, decimal_text, hex_only, joined, line_list, lowered, pieces,
    rcut_once, trimmed, trimmed_end_char, without_prefix, without_prefixes, word_list,
};

const SAMPLES: [&str; 12] = [
    "",
    " ",
    "a",
    " a\u{a0}b\t\r\n",
    "one\ntwo\r\n\r\nthree\r",
    "\n\n",
    "中文 é\u{2003}x\u{3000}",
    "a:b:c",
    "::",
    "\u{85}x\u{2028}y\u{feff}",
    "tail\n",
    "x\r",
];

#[test]
fn texts_are_taken_apart_as_the_standard_library_does() {
    for sample in SAMPLES {
        assert_eq!(trimmed(sample), sample.trim());
        assert_eq!(blank(sample), sample.trim().is_empty());
        assert_eq!(word_list(sample), sample.split_whitespace().collect::<Vec<_>>());
        assert_eq!(line_list(sample), sample.lines().collect::<Vec<_>>());
        assert_eq!(pieces(sample, ':'), sample.split(':').collect::<Vec<_>>());
        assert_eq!(
            cut_once(sample, ':'),
            sample.split_once(':').map(|(a, b)| (a.to_string(), b.to_string()))
        );
        assert_eq!(
            rcut_once(sample, ':'),
            sample.rsplit_once(':').map(|(a, b)| (a.to_string(), b.to_string()))
        );
        assert_eq!(trimmed_end_char(sample, ':'), sample.trim_end_matches(':'));
        assert_eq!(without_prefix(sample, "a").as_deref(), sample.strip_prefix('a'));
        assert_eq!(lowered(sample), sample.to_ascii_lowercase());
        assert_eq!(
            content_lines(sample),
            sample
                .lines()
                .map(str::trim)
                .filter(|line| !line.is_empty())
                .collect::<Vec<_>>()
        );
        for other in SAMPLES {
            assert_eq!(comes_before(sample, other), sample < other);
        }
    }
    assert_eq!(without_prefixes("ababc", "ab"), "c");
    assert_eq!(joined(&pieces("a/b/c", '/'), "/"), "a/b/c");
    for number in [0, 7, 10, 1024, u64::MAX] {
        assert_eq!(decimal_text(number), number.to_string());
    }
    assert!(hex_only("09afAF"));
    assert!(!hex_only("0g"));
    assert_eq!(lowered("AÉz"), "aÉz");
}

#[test]
fn entries_are_kept_in_order() {
    let mut entries: Vec<(String, u64)> = Vec::new();
    for (key, value) in [("b", 1), ("a", 2), ("c", 3), ("b", 4)] {
        put_entry(&mut entries, key.into(), value);
    }
    assert_eq!(
        entries,
        [("a".to_string(), 2), ("b".to_string(), 4), ("c".to_string(), 3)]
    );
    assert_eq!(find_value(&entries, "b"), Some(&4));
    assert!(find_value(&entries, "d").is_none());
    let mut items = set_of(&vec!["b".into(), "a".into(), "b".into()]);
    assert_eq!(items, ["a", "b"]);
    put_item(&mut items, "ab".into());
    assert_eq!(items, ["a", "ab", "b"]);
}

#[test]
fn paths_are_compared_by_their_parts() {
    let samples = ["a/b", "./a//b/", "a/./b", "/a/b", "../a", "a/..", "a", "", ".", "/", "a/b/c"];
    for left in samples {
        let path = std::path::Path::new(left);
        assert_eq!(
            escapes(&bytes_of(left)),
            path.components().any(|part| matches!(
                part,
                std::path::Component::ParentDir | std::path::Component::RootDir
            )),
            "{left}"
        );
        for right in samples {
            assert_eq!(
                same_path(&bytes_of(left), &bytes_of(right)),
                path == std::path::Path::new(right),
                "{left} {right}"
            );
        }
    }
    assert_eq!(join("/data", "update"), "/data/update");
    assert_eq!(join("/data/", "update"), "/data/update");
}
