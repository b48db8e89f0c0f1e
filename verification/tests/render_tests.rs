use loc_analyzer::analyze::aggregate;
use loc_analyzer::render::{render_csv, render_json};
use loc_analyzer::stats::{FileRecord, LanguageFiles, SortKey};
use loc_analyzer::table::analysis_table;

fn file(name: &str, code: u64, comments: u64, blanks: u64) -> FileRecord {
    FileRecord { name: name.to_string(), code, comments, blanks }
}

fn sample() -> Vec<LanguageFiles> {
    vec![
        LanguageFiles {
            name: "Rust".to_string(),
            files: vec![file("src/a.rs", 60, 5, 3), file("src/b.rs", 40, 5, 2)],
        },
        LanguageFiles { name: "Python".to_string(), files: vec![file("x.py", 10, 1, 1)] },
    ]
}

fn sample_result() -> loc_analyzer::stats::AnalysisResult {
    aggregate(
        sample(),
        None,
        SortKey::Code,
        "2024-01-02T03:04:05+00:00".to_string(),
        "/work/project".to_string(),
        1_500_000_000,
    )
}

#[test]
fn csv_has_header_and_one_row_per_language() {
    let text = render_csv(&sample_result());
    let lines: Vec<&str> = text.lines().collect();
    assert_eq!(lines.len(), 3);
    assert_eq!(
        lines[0],
        "name,file_count,code_lines,comment_lines,blank_lines,total_lines,percentage"
    );
    assert_eq!(lines[1], "Rust,2,100,10,5,115,90.91");
    assert_eq!(lines[2], "Python,1,10,1,1,12,9.09");
}

#[test]
fn csv_never_carries_file_detail() {
    let text = render_csv(&sample_result());
    assert!(!text.contains("src/a.rs"));
    assert!(!text.contains("src/b.rs"));
    assert!(!text.contains("files"));
}

#[test]
fn csv_quotes_fields_with_commas() {
    let input = vec![LanguageFiles {
        name: "C, C++".to_string(),
        files: vec![file("m.cpp", 5, 0, 0)],
    }];
    let r = aggregate(input, None, SortKey::Code, "t".to_string(), "/p".to_string(), 1);
    let text = render_csv(&r);
    assert!(text.contains("\"C, C++\",1,5,0,0,5,100.00"));
}

#[test]
fn csv_doubles_embedded_quotes() {
    let input = vec![LanguageFiles {
        name: "say \"hi\"".to_string(),
        files: vec![file("m", 5, 0, 0)],
    }];
    let r = aggregate(input, None, SortKey::Code, "t".to_string(), "/p".to_string(), 1);
    let text = render_csv(&r);
    assert!(text.contains("\"say \"\"hi\"\"\",1,5,0,0,5,100.00"));
}

#[test]
fn json_round_trips_every_field() {
    let r = sample_result();
    let text = render_json(&r);
    let v: serde_json::Value = serde_json::from_str(&text).expect("output must be valid JSON");
    assert_eq!(v["timestamp"], "2024-01-02T03:04:05+00:00");
    assert_eq!(v["root_path"], "/work/project");
    assert_eq!(v["duration_seconds"].as_f64().unwrap(), 1.5);
    assert_eq!(v["total_files"].as_u64().unwrap(), 3);
    assert_eq!(v["total_code"].as_u64().unwrap(), 110);
    assert_eq!(v["total_comments"].as_u64().unwrap(), 11);
    assert_eq!(v["total_blanks"].as_u64().unwrap(), 6);
    let langs = v["languages"].as_array().unwrap();
    assert_eq!(langs.len(), 2);
    assert_eq!(langs[0]["name"], "Rust");
    assert_eq!(langs[0]["file_count"].as_u64().unwrap(), 2);
    assert_eq!(langs[0]["code"].as_u64().unwrap(), 100);
    assert_eq!(langs[0]["comments"].as_u64().unwrap(), 10);
    assert_eq!(langs[0]["blanks"].as_u64().unwrap(), 5);
    assert_eq!(langs[0]["total"].as_u64().unwrap(), 115);
    assert_eq!(langs[0]["percentage"].as_f64().unwrap(), 90.91);
    let files = langs[0]["files"].as_array().unwrap();
    assert_eq!(files.len(), 2);
    assert_eq!(files[0]["name"], "src/a.rs");
    assert_eq!(files[0]["code"].as_u64().unwrap(), 60);
    assert_eq!(files[0]["comments"].as_u64().unwrap(), 5);
    assert_eq!(files[0]["blanks"].as_u64().unwrap(), 3);
    assert_eq!(files[0]["total"].as_u64().unwrap(), 68);
    assert_eq!(langs[1]["name"], "Python");
    assert_eq!(langs[1]["files"].as_array().unwrap().len(), 1);
}

#[test]
fn json_keeps_file_detail_for_every_detail_level() {
    // JSON is always maximally detailed; the flag only affects tables.
    let text = render_json(&sample_result());
    assert!(text.contains("src/a.rs"));
    assert!(text.contains("src/b.rs"));
}

#[test]
fn json_escapes_special_characters() {
    let input = vec![LanguageFiles {
        name: "we\"ird\\lang\nname".to_string(),
        files: vec![file("a\tb", 5, 0, 0)],
    }];
    let r = aggregate(input, None, SortKey::Code, "t".to_string(), "/p".to_string(), 1);
    let text = render_json(&r);
    let v: serde_json::Value = serde_json::from_str(&text).expect("escaped JSON must parse");
    assert_eq!(v["languages"][0]["name"], "we\"ird\\lang\nname");
    assert_eq!(v["languages"][0]["files"][0]["name"], "a\tb");
}

#[test]
fn json_empty_listing_is_an_empty_array() {
    let r = aggregate(Vec::new(), None, SortKey::Code, "t".to_string(), "/p".to_string(), 0);
    let text = render_json(&r);
    let v: serde_json::Value = serde_json::from_str(&text).unwrap();
    assert_eq!(v["languages"].as_array().unwrap().len(), 0);
}

#[test]
fn compact_table_has_four_columns() {
    let table = analysis_table(&sample_result(), false);
    let text = format!("{}", table);
    assert!(text.contains("Language"));
    assert!(text.contains("Lines of Code"));
    assert!(text.contains("% of Codebase"));
    assert!(!text.contains("Blanks"));
    assert!(text.contains("Rust"));
    assert!(text.contains("90.9%"));
}

#[test]
fn detailed_table_adds_breakdown_columns() {
    let table = analysis_table(&sample_result(), true);
    let text = format!("{}", table);
    assert!(text.contains("Comments"));
    assert!(text.contains("Blanks"));
    assert!(text.contains("Total"));
    assert!(!text.contains("Lines of Code"));
}

#[test]
fn table_rows_follow_listing_order() {
    let table = analysis_table(&sample_result(), false);
    let text = format!("{}", table);
    let rust_at = text.find("Rust").unwrap();
    let python_at = text.find("Python").unwrap();
    assert!(rust_at < python_at);
}
