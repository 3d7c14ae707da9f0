use jpv_lib::number::{format_decimal, parse_decimal};
use jpv_lib::query::{decode_query, Mode, Query};

fn pairs(raw: &[(&str, &str)]) -> Vec<(String, String)> {
    raw.iter().map(|(k, v)| (k.to_string(), v.to_string())).collect()
}

fn written(query: &Query) -> Vec<(String, String)> {
    query.serialize().into_iter().map(|(k, v)| (k.to_string(), v.into_owned())).collect()
}

#[test]
fn parameters_are_read() {
    let query = Query::deserialize(pairs(&[
        ("q", "食べる"),
        ("t", "to eat"),
        ("a", "食べ"),
        ("a", "食"),
        ("i", "1"),
        ("mode", "katakana"),
        ("other", "x"),
    ]));
    assert_eq!(query.q, "食べる");
    assert_eq!(query.translation.as_deref(), Some("to eat"));
    assert_eq!(query.a, vec!["食べ".to_string(), "食".to_string()]);
    assert_eq!(query.i, 1);
    assert_eq!(query.mode, Mode::Katakana);
}

#[test]
fn later_parameters_win() {
    let query = Query::deserialize(pairs(&[("q", "a"), ("q", "b"), ("mode", "hiragana"), ("mode", "x")]));
    assert_eq!(query.q, "b");
    assert_eq!(query.mode, Mode::Unfiltered);
}

#[test]
fn selection_that_is_no_number_is_passed_over() {
    let query = Query::deserialize(pairs(&[("i", "3"), ("i", "x"), ("i", "-1"), ("i", ""), ("i", "1 ")]));
    assert_eq!(query.i, 3);
    let query = Query::deserialize(pairs(&[("i", "+7")]));
    assert_eq!(query.i, 7);
    let query = Query::deserialize(pairs(&[("i", "99999999999999999999999999")]));
    assert_eq!(query.i, 0);
}

#[test]
fn blank_query_has_no_parameters() {
    let query = Query::new();
    assert!(query.serialize().is_empty());
    assert_eq!(query.mode, Mode::Unfiltered);
}

#[test]
fn parameters_are_written_in_order() {
    let query = Query {
        q: "食べる".to_string(),
        translation: Some("to eat".to_string()),
        a: vec!["食べ".to_string(), "食".to_string()],
        i: 12,
        mode: Mode::Hiragana,
    };
    assert_eq!(
        written(&query),
        pairs(&[("q", "食べる"), ("t", "to eat"), ("a", "食べ"), ("a", "食"), ("i", "12"), ("mode", "hiragana")])
    );
}

#[test]
fn written_parameters_read_back() {
    let query = Query {
        q: "nihongo".to_string(),
        translation: None,
        a: vec!["ni".to_string()],
        i: 4,
        mode: Mode::Katakana,
    };
    let back = Query::deserialize(written(&query));
    assert_eq!(back.q, query.q);
    assert_eq!(back.translation, query.translation);
    assert_eq!(back.a, query.a);
    assert_eq!(back.i, query.i);
    assert_eq!(back.mode, query.mode);
}

#[test]
fn input_is_the_selected_segment() {
    let (query, input) = decode_query(Some(pairs(&[("q", "日本語を"), ("a", "日本語"), ("a", "日本"), ("i", "1")])));
    assert_eq!(query.a.len(), 2);
    assert_eq!(input, "日本");
    let (_, input) = decode_query(Some(pairs(&[("q", "日本語を"), ("a", "日本語"), ("i", "5")])));
    assert_eq!(input, "日本語を");
    let (_, input) = decode_query(Some(pairs(&[("q", "日本語を")])));
    assert_eq!(input, "日本語を");
    let (query, input) = decode_query(None);
    assert_eq!(input, "");
    assert_eq!(query.i, 0);
}

#[test]
fn decimal_numbers() {
    assert_eq!(parse_decimal("0", 10), Some(0));
    assert_eq!(parse_decimal("10", 10), Some(10));
    assert_eq!(parse_decimal("11", 10), None);
    assert_eq!(parse_decimal("007", 10), Some(7));
    assert_eq!(parse_decimal("+5", 10), Some(5));
    assert_eq!(parse_decimal("+", 10), None);
    assert_eq!(parse_decimal("", 10), None);
    assert_eq!(parse_decimal("5+", 10), None);
    assert_eq!(parse_decimal("１", 10), None);
    assert_eq!(parse_decimal("18446744073709551615", u64::MAX), Some(u64::MAX));
    assert_eq!(parse_decimal("18446744073709551616", u64::MAX), None);
    assert_eq!(parse_decimal("4294967295", u32::MAX as u64), Some(4294967295));
    assert_eq!(parse_decimal("4294967296", u32::MAX as u64), None);
    assert_eq!(format_decimal(0), "0");
    assert_eq!(format_decimal(9), "9");
    assert_eq!(format_decimal(10), "10");
    assert_eq!(format_decimal(1205), "1205");
    assert_eq!(format_decimal(u64::MAX), "18446744073709551615");
}

fn laid_out(q: &str, a: &[&str], i: usize) -> Vec<jpv_lib::prompt::Span> {
    let mut query = Query::new();
    query.q = q.to_string();
    query.a = a.iter().map(|s| s.to_string()).collect();
    query.i = i;
    jpv_lib::prompt::highlight(&query)
}

#[test]
fn spans_carry_byte_offsets() {
    let spans = laid_out("日本", &[], 0);
    assert_eq!(spans.len(), 2);
    assert_eq!((spans[0].at, spans[0].ch), (0, '日'));
    assert_eq!((spans[1].at, spans[1].ch), (3, '本'));
    let text = "aé日𝄞b";
    let spans = laid_out(text, &[], 0);
    let expected: Vec<(usize, char)> = text.char_indices().collect();
    assert_eq!(spans.iter().map(|s| (s.at, s.ch)).collect::<Vec<_>>(), expected);
    assert_eq!(expected, vec![(0, 'a'), (1, 'é'), (3, '日'), (6, '𝄞'), (10, 'b')]);
    assert!(laid_out("", &[], 0).is_empty());
}

#[test]
fn spans_mark_the_selected_segment() {
    // The segment 本語 is selected; it occurs twice, and not where one is under way.
    let spans = laid_out("日本語本語本", &["本語", "日本"], 0);
    let active: Vec<bool> = spans.iter().map(|s| s.active).collect();
    assert_eq!(active, vec![false, true, true, true, true, false]);
    let cycles: Vec<bool> = spans.iter().map(|s| s.cycles).collect();
    assert_eq!(cycles, vec![false, true, false, true, false, false]);
    assert!(spans.iter().all(|s| s.clickable));
    let at: Vec<usize> = spans.iter().map(|s| s.at).collect();
    assert_eq!(at, vec![0, 3, 6, 9, 12, 15]);
    // With one segment only, a click where it begins does nothing.
    let spans = laid_out("ああ", &["あ"], 0);
    assert_eq!(spans.iter().map(|s| s.clickable).collect::<Vec<_>>(), vec![false, false]);
    assert_eq!(spans.iter().map(|s| s.active).collect::<Vec<_>>(), vec![true, true]);
    // Overlapping occurrences: the second begins only when the first is over.
    let spans = laid_out("あああ", &["ああ", "x"], 0);
    assert_eq!(spans.iter().map(|s| s.cycles).collect::<Vec<_>>(), vec![true, false, false]);
    assert_eq!(spans.iter().map(|s| s.active).collect::<Vec<_>>(), vec![true, true, false]);
    // No segment is selected where the selection points behind the list.
    let spans = laid_out("日本", &["日"], 1);
    assert!(spans.iter().all(|s| !s.active && !s.cycles && s.clickable));
}
