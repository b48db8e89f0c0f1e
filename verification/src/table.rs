//! Tabular views, built on the `comfy_table` crate. The table object is
//! opaque; its header and body cell texts are tracked through the
//! trusted wrappers below, so what ends up in each cell is verified even
//! though the box-drawing itself happens in the outside crate.

use vstd::prelude::*;
use vstd::string::StringExecFns;
use crate::compare::{delta_chars, format_delta, ComparisonRow};
use crate::format::{
    count_chars, format_count, format_percent_one_decimal, percent_one_decimal_chars,
};
use crate::stats::{AnalysisResult, LanguageSummary};

verus! {

#[verifier::external_type_specification]
#[verifier::external_body]
pub struct ExTable(comfy_table::Table);

/// The header cells of a table, one entry per column; empty while no
/// header was set.
pub uninterp spec fn table_header(t: comfy_table::Table) -> Seq<Seq<char>>;

/// The body rows of a table in insertion order, each a sequence of cell
/// texts.
pub uninterp spec fn table_rows(t: comfy_table::Table) -> Seq<Seq<Seq<char>>>;

/// Relies on comfy_table::Table::new: a fresh table has no header and
/// no body rows.
#[verifier::external_body]
fn table_new() -> (t: comfy_table::Table)
    ensures
        table_header(t) == Seq::<Seq<char>>::empty(),
        table_rows(t) == Seq::<Seq<Seq<char>>>::empty(),
{
    comfy_table::Table::new()
}

/// Relies on comfy_table::Table::load_style: replaces the border style
/// only; header and rows keep their cell texts.
#[verifier::external_body]
fn table_style_utf8(t: &mut comfy_table::Table)
    ensures
        table_header(*final(t)) == table_header(*old(t)),
        table_rows(*final(t)) == table_rows(*old(t)),
{
    t.load_style(comfy_table::presets::UTF8_FULL);
}

/// Relies on comfy_table::Table::set_content_arrangement: layout only;
/// header and rows keep their cell texts.
#[verifier::external_body]
fn table_arrange_dynamic(t: &mut comfy_table::Table)
    ensures
        table_header(*final(t)) == table_header(*old(t)),
        table_rows(*final(t)) == table_rows(*old(t)),
{
    t.set_content_arrangement(comfy_table::ContentArrangement::Dynamic);
}

/// Relies on comfy_table::Table::set_header: the header becomes exactly
/// the given cells; body rows are untouched.
#[verifier::external_body]
fn table_set_header(t: &mut comfy_table::Table, cells: Vec<String>)
    ensures
        table_header(*final(t)) == cells.deep_view(),
        table_rows(*final(t)) == table_rows(*old(t)),
{
    t.set_header(cells);
}

/// Relies on comfy_table::Table::add_row: appends one body row holding
/// exactly the given cells; header and earlier rows are untouched.
#[verifier::external_body]
fn table_add_row(t: &mut comfy_table::Table, cells: Vec<String>)
    ensures
        table_header(*final(t)) == table_header(*old(t)),
        table_rows(*final(t)) == table_rows(*old(t)).push(cells.deep_view()),
{
    t.add_row(cells);
}

/// Header of the compact language listing.
pub open spec fn compact_header() -> Seq<Seq<char>> {
    seq!["Language"@, "Files"@, "Lines of Code"@, "% of Codebase"@]
}

/// Header of the detailed language listing.
pub open spec fn detailed_header() -> Seq<Seq<char>> {
    seq!["Language"@, "Files"@, "Code"@, "Comments"@, "Blanks"@, "Total"@, "% of Codebase"@]
}

/// The cell texts of one language row: counts in decimal-prefix form,
/// the percentage with one fractional digit.
pub open spec fn summary_row(l: LanguageSummary, detailed: bool) -> Seq<Seq<char>> {
    if detailed {
        seq![
            l.name@,
            count_chars(l.file_count as nat),
            count_chars(l.code as nat),
            count_chars(l.comments as nat),
            count_chars(l.blanks as nat),
            count_chars(l.total as nat),
            percent_one_decimal_chars(l.percentage_hundredths as nat),
        ]
    } else {
        seq![
            l.name@,
            count_chars(l.file_count as nat),
            count_chars(l.code as nat),
            percent_one_decimal_chars(l.percentage_hundredths as nat),
        ]
    }
}

/// Builds one language row's cells.
fn summary_row_cells(l: &LanguageSummary, detailed: bool) -> (r: Vec<String>)
    ensures
        r.deep_view() == summary_row(*l, detailed),
{
    let mut cells: Vec<String> = Vec::new();
    cells.push(l.name.clone());
    cells.push(format_count(l.file_count));
    cells.push(format_count(l.code));
    if detailed {
        cells.push(format_count(l.comments));
        cells.push(format_count(l.blanks));
        cells.push(format_count(l.total));
    }
    cells.push(format_percent_one_decimal(l.percentage_hundredths));
    proof {
        assert(cells.deep_view() =~= summary_row(*l, detailed));
    }
    cells
}

/// Builds the language listing as a table: the compact or detailed
/// header, and one row per language in the listing's own order — the
/// renderer never re-sorts.
pub fn analysis_table(result: &AnalysisResult, detailed: bool) -> (t: comfy_table::Table)
    ensures
        table_header(t) == if detailed {
            detailed_header()
        } else {
            compact_header()
        },
        table_rows(t).len() == result.languages@.len(),
        forall|i: int|
            0 <= i < result.languages@.len() ==> table_rows(t)[i] == summary_row(
                #[trigger] result.languages@[i],
                detailed,
            ),
{
    let mut t = table_new();
    table_style_utf8(&mut t);
    table_arrange_dynamic(&mut t);
    let mut header: Vec<String> = Vec::new();
    header.push(String::from_str("Language"));
    header.push(String::from_str("Files"));
    if detailed {
        header.push(String::from_str("Code"));
        header.push(String::from_str("Comments"));
        header.push(String::from_str("Blanks"));
        header.push(String::from_str("Total"));
    } else {
        header.push(String::from_str("Lines of Code"));
    }
    header.push(String::from_str("% of Codebase"));
    proof {
        if detailed {
            assert(header.deep_view() =~= detailed_header());
        } else {
            assert(header.deep_view() =~= compact_header());
        }
    }
    table_set_header(&mut t, header);
    let mut i: usize = 0;
    while i < result.languages.len()
        invariant
            i <= result.languages@.len(),
            table_header(t) == if detailed {
                detailed_header()
            } else {
                compact_header()
            },
            table_rows(t).len() == i,
            forall|j: int|
                0 <= j < i ==> table_rows(t)[j] == summary_row(
                    #[trigger] result.languages@[j],
                    detailed,
                ),
        decreases result.languages@.len() - i,
    {
        let cells = summary_row_cells(&result.languages[i], detailed);
        table_add_row(&mut t, cells);
        i = i + 1;
    }
    t
}

/// Header of the comparison view.
pub open spec fn comparison_header() -> Seq<Seq<char>> {
    seq!["Metric"@, "Directory 1"@, "Directory 2"@, "Difference"@]
}

/// The cell texts of one comparison row: both values in decimal-prefix
/// form and the sign-carrying delta.
pub open spec fn comparison_row_cells_spec(row: ComparisonRow) -> Seq<Seq<char>> {
    seq![
        row.metric@,
        count_chars(row.value_a as nat),
        count_chars(row.value_b as nat),
        delta_chars(row.delta as int),
    ]
}

/// Builds the comparison view: the fixed header and one row per metric,
/// in the order the comparison produced them.
pub fn comparison_table(rows: &Vec<ComparisonRow>) -> (t: comfy_table::Table)
    requires
        forall|i: int| 0 <= i < rows@.len() ==> #[trigger] rows@[i].delta > i64::MIN,
    ensures
        table_header(t) == comparison_header(),
        table_rows(t).len() == rows@.len(),
        forall|i: int|
            0 <= i < rows@.len() ==> table_rows(t)[i] == comparison_row_cells_spec(
                #[trigger] rows@[i],
            ),
{
    let mut t = table_new();
    table_style_utf8(&mut t);
    table_arrange_dynamic(&mut t);
    let mut header: Vec<String> = Vec::new();
    header.push(String::from_str("Metric"));
    header.push(String::from_str("Directory 1"));
    header.push(String::from_str("Directory 2"));
    header.push(String::from_str("Difference"));
    proof {
        assert(header.deep_view() =~= comparison_header());
    }
    table_set_header(&mut t, header);
    let mut i: usize = 0;
    while i < rows.len()
        invariant
            i <= rows@.len(),
            forall|j: int| 0 <= j < rows@.len() ==> #[trigger] rows@[j].delta > i64::MIN,
            table_header(t) == comparison_header(),
            table_rows(t).len() == i,
            forall|j: int|
                0 <= j < i ==> table_rows(t)[j] == comparison_row_cells_spec(#[trigger] rows@[j]),
        decreases rows@.len() - i,
    {
        let row = &rows[i];
        let mut cells: Vec<String> = Vec::new();
        cells.push(row.metric.clone());
        cells.push(format_count(row.value_a));
        cells.push(format_count(row.value_b));
        cells.push(format_delta(row.delta));
        proof {
            assert(cells.deep_view() =~= comparison_row_cells_spec(rows@[i as int]));
        }
        table_add_row(&mut t, cells);
        i = i + 1;
    }
    t
}

} // verus!
