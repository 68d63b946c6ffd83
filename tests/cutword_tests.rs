use cutword::{
    admit_folded, count_tokens, entry_from_fields, is_noise, is_skipped_line, load_dictionary,
    parse_entry, process_line, DictEntry, DictError, FrequencyTable, Segmenter, StopwordSet,
    MAX_WORD_LEN,
};

fn tok(w: &str, t: &str) -> (String, String) {
    (w.to_string(), t.to_string())
}

fn run(seg: &Segmenter, lines: &[&str], stop: &StopwordSet) -> FrequencyTable {
    let mut table = FrequencyTable::new();
    for line in lines {
        assert!(process_line(&mut table, seg, line, stop).is_ok());
    }
    table
}

fn sorted_entries(table: &FrequencyTable) -> Vec<(String, u64)> {
    let mut e = table.entries();
    e.sort();
    e
}

#[test]
fn every_noise_tag_is_rejected() {
    for t in [
        "d", "f", "x", "p", "t", "q", "m", "nr", "r", "c", "e", "xc", "zg", "y", "uj", "ug", "ul",
        "ud",
    ] {
        assert!(is_noise(t, 1), "{}", t);
    }
}

#[test]
fn informative_tags_are_kept() {
    for t in ["n", "v", "a", "eng", "ns", "u", "uv", "", "dd", "nrt", "vn"] {
        assert!(!is_noise(t, 2), "{}", t);
    }
}

#[test]
fn length_threshold_is_twenty_one() {
    assert_eq!(MAX_WORD_LEN, 21);
    assert!(!is_noise("n", 21));
    assert!(is_noise("n", 22));
}

#[test]
fn blank_and_comment_lines_are_skipped() {
    assert!(is_skipped_line(""));
    assert!(is_skipped_line("/"));
    assert!(is_skipped_line("// 注释"));
    assert!(!is_skipped_line("a/b"));
    assert!(!is_skipped_line(" /"));
}

#[test]
fn table_insert_or_increment() {
    let mut t = FrequencyTable::new();
    assert_eq!(t.len(), 0);
    t.record("系统".to_string());
    t.record("工程".to_string());
    t.record("系统".to_string());
    assert_eq!(t.count("系统"), 2);
    assert_eq!(t.count("工程"), 1);
    assert_eq!(t.count("别的"), 0);
    assert_eq!(t.len(), 2);
    assert_eq!(t.total(), 3);
    assert_eq!(
        sorted_entries(&t),
        vec![("工程".to_string(), 1), ("系统".to_string(), 2)]
    );
}

#[test]
fn dictionary_line_with_word_and_tag() {
    let e = parse_entry("系统工程师 n").unwrap();
    assert_eq!(e.word, "系统工程师");
    assert_eq!(e.tag, "n");
    let e = parse_entry("  云计算\tn  3 ").unwrap();
    assert_eq!(e.word, "云计算");
    assert_eq!(e.tag, "n");
}

#[test]
fn dictionary_line_without_tag_is_malformed() {
    assert!(matches!(parse_entry("单词"), Err(DictError::MalformedLine)));
    assert!(matches!(parse_entry(""), Err(DictError::MalformedLine)));
    assert!(matches!(parse_entry("   \t "), Err(DictError::MalformedLine)));
}

#[test]
fn entry_from_fields_takes_first_two() {
    let e = entry_from_fields(vec!["a".to_string(), "b".to_string(), "c".to_string()]).unwrap();
    assert_eq!(e.word, "a");
    assert_eq!(e.tag, "b");
    assert!(matches!(entry_from_fields(vec!["a".to_string()]), Err(DictError::MalformedLine)));
}

#[test]
fn stopwords_are_taken_verbatim() {
    let stop = StopwordSet::from_lines(&vec!["的".to_string(), "the".to_string(), " a".to_string()]);
    assert!(stop.contains("的"));
    assert!(stop.contains("the"));
    assert!(stop.contains(" a"));
    assert!(!stop.contains("a"));
    assert!(!stop.contains("The"));
}

#[test]
fn admit_folded_respects_stopwords() {
    let stop = StopwordSet::from_lines(&vec!["the".to_string()]);
    let mut t = FrequencyTable::new();
    assert!(!admit_folded(&mut t, "the".to_string(), &stop));
    assert!(admit_folded(&mut t, "cat".to_string(), &stop));
    assert_eq!(t.count("the"), 0);
    assert_eq!(t.count("cat"), 1);
}

#[test]
fn count_tokens_filters_and_folds() {
    let stop = StopwordSet::from_lines(&vec!["the".to_string()]);
    let mut t = FrequencyTable::new();
    let long21: String = "字".repeat(21);
    let long22: String = "字".repeat(22);
    let tokens = vec![
        tok("HELLO", "eng"),
        tok("Hello", "eng"),
        tok("The", "eng"),
        tok("很", "d"),
        tok("，", "x"),
        tok("我", "r"),
        tok(&long21, "n"),
        tok(&long22, "n"),
        tok("系统", "n"),
    ];
    count_tokens(&mut t, &tokens, &stop);
    assert_eq!(t.count("hello"), 2);
    assert_eq!(t.count("HELLO"), 0);
    assert_eq!(t.count("the"), 0);
    assert_eq!(t.count("很"), 0);
    assert_eq!(t.count("，"), 0);
    assert_eq!(t.count("我"), 0);
    assert_eq!(t.count(&long21), 1);
    assert_eq!(t.count(&long22), 0);
    assert_eq!(t.count("系统"), 1);
    assert_eq!(t.len(), 3);
    assert_eq!(t.total(), 4);
}

#[test]
fn repeated_stream_doubles_counts() {
    let seg = Segmenter::new();
    let stop = StopwordSet::new();
    let lines = ["我们在北京学习中文", "Rust 语言 rust 编程"];
    let once = run(&seg, &lines, &stop);
    let twice_lines: Vec<&str> = lines.iter().chain(lines.iter()).copied().collect();
    let twice = run(&seg, &twice_lines, &stop);
    let a = sorted_entries(&once);
    let b = sorted_entries(&twice);
    assert!(!a.is_empty());
    assert_eq!(a.len(), b.len());
    for (x, y) in a.iter().zip(b.iter()) {
        assert_eq!(x.0, y.0);
        assert_eq!(2 * x.1, y.1);
    }
}

#[test]
fn noise_tokens_never_counted() {
    let seg = Segmenter::new();
    let stop = StopwordSet::new();
    let t = run(&seg, &["我很忙，他也很忙。", "我和你"], &stop);
    assert_eq!(t.count("我"), 0);
    assert_eq!(t.count("很"), 0);
    assert_eq!(t.count("，"), 0);
    assert_eq!(t.count("。"), 0);
    assert_eq!(t.count("和"), 0);
}

#[test]
fn stopwords_never_counted() {
    let seg = Segmenter::new();
    let stop = StopwordSet::from_lines(&vec!["北京".to_string(), "rust".to_string()]);
    let t = run(&seg, &["北京北京北京", "Rust rust RUST"], &stop);
    assert_eq!(t.count("北京"), 0);
    assert_eq!(t.count("rust"), 0);
    assert_eq!(t.len(), 0);
}

#[test]
fn inserted_blank_and_comment_lines_change_nothing() {
    let seg = Segmenter::new();
    let stop = StopwordSet::new();
    let plain = run(&seg, &["我们在北京学习中文", "Rust 编程"], &stop);
    let noisy = run(
        &seg,
        &["", "/ 北京 北京", "我们在北京学习中文", "", "//Rust", "Rust 编程", "/"],
        &stop,
    );
    assert_eq!(sorted_entries(&plain), sorted_entries(&noisy));
    let only = run(&seg, &["", "/北京", "/"], &stop);
    assert_eq!(only.len(), 0);
    assert_eq!(only.total(), 0);
}

#[test]
fn case_variants_share_one_key() {
    let seg = Segmenter::new();
    let stop = StopwordSet::new();
    let t = run(&seg, &["Word word"], &stop);
    assert_eq!(t.count("word"), 2);
    assert_eq!(t.count("Word"), 0);
    assert_eq!(sorted_entries(&t), vec![("word".to_string(), 2)]);
}

#[test]
fn custom_dictionary_entry_changes_segmentation() {
    let stop = StopwordSet::new();
    let mut seg = Segmenter::new();
    let bad = load_dictionary(&mut seg, &vec!["系统工程师\tn".to_string()]);
    assert!(bad.is_empty());
    let t = run(&seg, &["系统工程师很忙"], &stop);
    assert_eq!(t.count("系统工程师"), 1);
}

#[test]
fn runs_without_any_config() {
    let seg = Segmenter::new();
    let stop = StopwordSet::new();
    let t = run(&seg, &["我们在北京学习中文"], &stop);
    assert!(t.len() > 0);
    assert!(t.count("北京") >= 1);
    assert_eq!(t.count("在"), 0);
}

#[test]
fn malformed_dictionary_line_does_not_stop_the_load() {
    let stop = StopwordSet::new();
    let mut seg = Segmenter::new();
    let lines = vec![
        "系统工程师 n".to_string(),
        "坏行".to_string(),
        "云原生架构 n".to_string(),
    ];
    let bad = load_dictionary(&mut seg, &lines);
    assert_eq!(bad, vec![1]);
    let t = run(&seg, &["系统工程师很忙", "云原生架构很好"], &stop);
    assert_eq!(t.count("系统工程师"), 1);
    assert_eq!(t.count("云原生架构"), 1);
}

#[test]
fn add_entry_registers_one_word() {
    let stop = StopwordSet::new();
    let mut seg = Segmenter::new();
    seg.add_entry(&DictEntry { word: "量子纠缠态".to_string(), tag: "n".to_string() });
    let t = run(&seg, &["量子纠缠态"], &stop);
    assert_eq!(t.count("量子纠缠态"), 1);
}

#[test]
fn dictionary_fields_split_on_unicode_white_space() {
    let e = parse_entry("系统\u{3000}n").unwrap();
    assert_eq!(e.word, "系统");
    assert_eq!(e.tag, "n");
    let e = parse_entry("\u{a0}工程\u{2003}\u{2003}vn\t5").unwrap();
    assert_eq!(e.word, "工程");
    assert_eq!(e.tag, "vn");
    assert!(matches!(parse_entry("\u{3000}工程\u{3000}"), Err(DictError::MalformedLine)));
}
