use loc_analyzer::analyze::aggregate;
use loc_analyzer::compare::compare;
use loc_analyzer::render::{choose_view, OutputFormat, ReportView};
use loc_analyzer::stats::{FileRecord, LanguageFiles, SortKey};
use loc_analyzer::table::comparison_table;

fn result_with_code(code: u64) -> loc_analyzer::stats::AnalysisResult {
    let input = vec![LanguageFiles {
        name: "Rust".to_string(),
        files: vec![FileRecord { name: "a.rs".to_string(), code, comments: 2, blanks: 1 }],
    }];
    aggregate(input, None, SortKey::Code, "t".to_string(), "/p".to_string(), 1)
}

#[test]
fn delta_is_signed_b_minus_a() {
    let a = result_with_code(100);
    let b = result_with_code(150);
    let rows = compare(&a, &b);
    assert_eq!(rows.len(), 4);
    assert_eq!(rows[1].metric, "Lines of Code");
    assert_eq!(rows[1].value_a, 100);
    assert_eq!(rows[1].value_b, 150);
    assert_eq!(rows[1].delta, 50);
    let back = compare(&b, &a);
    assert_eq!(back[1].delta, -50);
}

#[test]
fn four_fixed_metrics_in_order() {
    let a = result_with_code(10);
    let b = result_with_code(10);
    let rows = compare(&a, &b);
    let metrics: Vec<&str> = rows.iter().map(|r| r.metric.as_str()).collect();
    assert_eq!(metrics, vec!["Total Files", "Lines of Code", "Comments", "Blank Lines"]);
    assert!(rows.iter().all(|r| r.delta == 0));
}

#[test]
fn comparison_table_shows_signed_deltas() {
    let a = result_with_code(100);
    let b = result_with_code(150);
    let rows = compare(&a, &b);
    let table = comparison_table(&rows);
    let text = format!("{}", table);
    assert!(text.contains("Lines of Code"));
    assert!(text.contains("+50"));
    assert!(text.contains("Difference"));
}

#[test]
fn comparison_view_wins_over_every_format() {
    for format in [
        OutputFormat::Table,
        OutputFormat::Json,
        OutputFormat::Csv,
        OutputFormat::Html,
    ] {
        assert_eq!(choose_view(true, format), ReportView::Comparison);
    }
    assert_eq!(choose_view(false, OutputFormat::Json), ReportView::Single(OutputFormat::Json));
}
