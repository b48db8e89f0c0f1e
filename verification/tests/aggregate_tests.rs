use loc_analyzer::analyze::aggregate;
use loc_analyzer::stats::{FileRecord, LanguageFiles, SortKey};
use loc_analyzer::render::{parse_format, parse_sort_key, OutputFormat};

fn file(name: &str, code: u64, comments: u64, blanks: u64) -> FileRecord {
    FileRecord { name: name.to_string(), code, comments, blanks }
}

fn lang(name: &str, files: Vec<FileRecord>) -> LanguageFiles {
    LanguageFiles { name: name.to_string(), files }
}

fn sample() -> Vec<LanguageFiles> {
    vec![
        lang("Rust", vec![file("a.rs", 60, 5, 3), file("b.rs", 40, 5, 2)]),
        lang("Python", vec![file("x.py", 30, 2, 1)]),
        lang("Toml", vec![file("c.toml", 10, 0, 0)]),
    ]
}

#[test]
fn totals_cover_every_language() {
    let r = aggregate(sample(), None, SortKey::Code, "t".to_string(), "/p".to_string(), 1);
    assert_eq!(r.total_code, 140);
    assert_eq!(r.total_comments, 12);
    assert_eq!(r.total_blanks, 6);
    assert_eq!(r.total_files, 4);
    let listed: u64 = r.languages.iter().map(|l| l.code).sum();
    assert_eq!(listed, r.total_code);
}

#[test]
fn filtering_never_alters_totals() {
    let unfiltered = aggregate(sample(), None, SortKey::Code, "t".to_string(), "/p".to_string(), 1);
    let filtered = aggregate(sample(), Some(20), SortKey::Code, "t".to_string(), "/p".to_string(), 1);
    assert_eq!(filtered.languages.len(), 2);
    assert_eq!(filtered.total_code, unfiltered.total_code);
    assert_eq!(filtered.total_files, unfiltered.total_files);
    assert_eq!(filtered.total_comments, unfiltered.total_comments);
    assert_eq!(filtered.total_blanks, unfiltered.total_blanks);
    // Percentages are taken against the unfiltered grand total too.
    assert_eq!(filtered.languages[0].percentage_hundredths, 7143);
}

#[test]
fn min_lines_boundary_is_inclusive() {
    let at = aggregate(sample(), Some(10), SortKey::Code, "t".to_string(), "/p".to_string(), 1);
    assert!(at.languages.iter().any(|l| l.name == "Toml"));
    let above = aggregate(sample(), Some(11), SortKey::Code, "t".to_string(), "/p".to_string(), 1);
    assert!(!above.languages.iter().any(|l| l.name == "Toml"));
}

#[test]
fn sorts_descending_by_code_by_default() {
    let r = aggregate(sample(), None, SortKey::Code, "t".to_string(), "/p".to_string(), 1);
    let names: Vec<&str> = r.languages.iter().map(|l| l.name.as_str()).collect();
    assert_eq!(names, vec!["Rust", "Python", "Toml"]);
}

#[test]
fn equal_keys_keep_first_seen_order() {
    let input = vec![
        lang("Alpha", vec![file("a", 50, 0, 0)]),
        lang("Beta", vec![file("b", 70, 0, 0)]),
        lang("Gamma", vec![file("c", 50, 0, 0)]),
    ];
    let r = aggregate(input, None, SortKey::Code, "t".to_string(), "/p".to_string(), 1);
    let names: Vec<&str> = r.languages.iter().map(|l| l.name.as_str()).collect();
    // Alpha and Gamma are tied on code; Alpha was seen first.
    assert_eq!(names, vec!["Beta", "Alpha", "Gamma"]);
}

#[test]
fn sorts_by_other_fields() {
    let input = vec![
        lang("Many", vec![file("a", 1, 9, 0), file("b", 1, 0, 4), file("c", 1, 0, 0)]),
        lang("Big", vec![file("d", 100, 1, 1)]),
    ];
    let by_files = aggregate(input, None, SortKey::Files, "t".to_string(), "/p".to_string(), 1);
    assert_eq!(by_files.languages[0].name, "Many");
    let input = vec![
        lang("Chatty", vec![file("a", 1, 50, 0)]),
        lang("Quiet", vec![file("b", 100, 1, 0)]),
    ];
    let by_comments =
        aggregate(input, None, SortKey::Comments, "t".to_string(), "/p".to_string(), 1);
    assert_eq!(by_comments.languages[0].name, "Chatty");
}

#[test]
fn summary_fields_are_consistent() {
    let r = aggregate(sample(), None, SortKey::Code, "ts".to_string(), "/root".to_string(), 42);
    assert_eq!(r.timestamp, "ts");
    assert_eq!(r.root_path, "/root");
    assert_eq!(r.duration_nanos, 42);
    let rust = &r.languages[0];
    assert_eq!(rust.name, "Rust");
    assert_eq!(rust.file_count, 2);
    assert_eq!(rust.code, 100);
    assert_eq!(rust.comments, 10);
    assert_eq!(rust.blanks, 5);
    assert_eq!(rust.total, 115);
    // 100 of 140: 71.43% rounded half-up from 71.4285...
    assert_eq!(rust.percentage_hundredths, 7143);
}

#[test]
fn empty_input_yields_zero_result() {
    let r = aggregate(Vec::new(), None, SortKey::Code, "t".to_string(), "/p".to_string(), 0);
    assert_eq!(r.total_files, 0);
    assert_eq!(r.total_code, 0);
    assert_eq!(r.total_comments, 0);
    assert_eq!(r.total_blanks, 0);
    assert!(r.languages.is_empty());
}

#[test]
fn zero_code_percentage_is_zero() {
    let input = vec![lang("Empty", vec![file("a", 0, 0, 1)])];
    let r = aggregate(input, None, SortKey::Code, "t".to_string(), "/p".to_string(), 1);
    assert_eq!(r.languages[0].percentage_hundredths, 0);
}

#[test]
fn unrecognized_sort_name_falls_back_to_code() {
    assert_eq!(parse_sort_key(&"files".to_string()), SortKey::Files);
    assert_eq!(parse_sort_key(&"comments".to_string()), SortKey::Comments);
    assert_eq!(parse_sort_key(&"blanks".to_string()), SortKey::Blanks);
    assert_eq!(parse_sort_key(&"total".to_string()), SortKey::Total);
    assert_eq!(parse_sort_key(&"code".to_string()), SortKey::Code);
    assert_eq!(parse_sort_key(&"bogus".to_string()), SortKey::Code);
}

#[test]
fn unrecognized_format_falls_back_to_table() {
    assert_eq!(parse_format(&"json".to_string()), OutputFormat::Json);
    assert_eq!(parse_format(&"csv".to_string()), OutputFormat::Csv);
    assert_eq!(parse_format(&"html".to_string()), OutputFormat::Html);
    assert_eq!(parse_format(&"table".to_string()), OutputFormat::Table);
    assert_eq!(parse_format(&"yaml".to_string()), OutputFormat::Table);
}
