use parser_api::order::{sort_ints, sorted_ids, sorted_texts};
use parser_api::tally::count_labels;
use parser_api::text::{
    ascii_lowercase, chars_of, contains_text, dec_i64, dec_u64, dec_usize, find, join, parse_i64,
    parse_u64, split_text_lines, string_from, text_at_most, text_eq, trim,
};
use parser_api::timed::{age_at, TimedMap};

fn texts(v: &[&str]) -> Vec<String> {
    v.iter().map(|s| s.to_string()).collect()
}

#[test]
fn texts_are_trimmed_and_split_like_strings() {
    for s in ["", " a b\t\n", "\u{a0}x\u{2003}", "\u{200b}y", "x"] {
        assert_eq!(trim(s), s.trim());
    }
    for s in ["", "a", " a \nb", "a\r\nb\n", "\n \n", "a\rb\n\r\n"] {
        let want: Vec<String> = s
            .lines()
            .map(|l| l.trim().to_string())
            .filter(|l| !l.is_empty())
            .collect();
        assert_eq!(split_text_lines(s), want);
    }
    assert_eq!(join(&texts(&["a", "b", "c"]), ", "), "a, b, c");
    assert_eq!(join(&Vec::new(), ", "), "");
}

#[test]
fn texts_are_searched_and_compared() {
    let v = chars_of("häßlich");
    assert_eq!(string_from(&v, 1, 3), "äß");
    assert_eq!(find(&v, &chars_of("ßl")), Some(2));
    assert_eq!(find(&v, &chars_of("x")), None);
    assert_eq!(find(&v, &Vec::new()), Some(0));
    assert!(text_eq("ab", "ab"));
    assert!(!text_eq("ab", "abc"));
    assert!(contains_text(&texts(&["a", "b"]), "b"));
    assert!(!contains_text(&texts(&["a", "b"]), "c"));
    assert_eq!(ascii_lowercase("AbÄ"), "abÄ");
    for (a, b) in [("a", "b"), ("b", "a"), ("a", "ab"), ("", "a"), ("z", "ä"), ("x", "x")] {
        assert_eq!(text_at_most(a, b), a <= b);
    }
}

#[test]
fn numbers_are_written_and_read() {
    for n in [0u64, 7, 10, 4_294_967_296, u64::MAX] {
        assert_eq!(dec_u64(n), n.to_string());
        assert_eq!(parse_u64(&dec_u64(n)), Some(n));
    }
    assert_eq!(dec_usize(120), "120");
    for n in [0i64, -1, 42, i64::MIN, i64::MAX] {
        assert_eq!(dec_i64(n), n.to_string());
        assert_eq!(parse_i64(&dec_i64(n)), Some(n));
    }
    for s in ["", "+", "-", "+5", "-0", "007", " 1", "1 ", "18446744073709551616", "1_0", "--1"] {
        assert_eq!(parse_u64(s), s.parse::<u64>().ok());
        assert_eq!(parse_i64(s), s.parse::<i64>().ok());
    }
}

#[test]
fn sorting_is_stable() {
    assert_eq!(
        sort_ints(vec![(2, 0, 0), (1, 9, 0), (2, 0, 0), (1, 3, 5)]),
        vec![3, 1, 0, 2]
    );
    assert_eq!(sorted_ids(&vec![3, -1, 3, 2]), vec![-1, 2, 3, 3]);
    assert_eq!(sorted_texts(texts(&["b", "", "ab", "a"])), texts(&["", "a", "ab", "b"]));
}

#[test]
fn timed_entries_age() {
    assert_eq!(age_at(5, 9), 0);
    let mut m: TimedMap<String, u8> = TimedMap::new();
    m.put("a".to_string(), 1, 10);
    m.put("b".to_string(), 2, 20);
    m.put("a".to_string(), 3, 30);
    assert_eq!(m.get(&"a".to_string(), 35, 6), Some(&3));
    assert_eq!(m.get(&"a".to_string(), 36, 6), None);
    m.drop_oldest(1);
    assert_eq!(m.get(&"b".to_string(), 20, 100), None);
    m.drop_stale(100, 50);
    assert!(m.entries.is_empty());
    m.put("c".to_string(), 1, 0);
    m.remove(&"c".to_string());
    assert!(m.entries.is_empty());
}

#[test]
fn labels_are_counted() {
    let c = count_labels(&texts(&["x", "y", "x"]));
    let mut got: Vec<(String, i64)> = c.into_iter().map(|l| (l.label, l.count)).collect();
    got.sort();
    assert_eq!(got, vec![("x".to_string(), 2), ("y".to_string(), 1)]);
}
