//! Report rendering: the closed set of output forms, the comparison
//! precedence rule, and the CSV and JSON text emitters with their exact
//! character-level contracts.

use vstd::prelude::*;
use vstd::string::{StringExecFns, StrSliceExecFns};
use crate::format::{
    dec_digits, digit_char, padded_digits, percent_two_decimal_chars, string_push, pad_u64,
    u64_to_string, format_percent_two_decimals,
};
use crate::stats::{AnalysisResult, FileRecord, LanguageSummary, SortKey};

verus! {

/// The closed set of output forms a single-tree report can take.
#[derive(Clone, Copy, PartialEq, Eq, Structural, Debug)]
pub enum OutputFormat {
    Table,
    Json,
    Csv,
    Html,
}

/// Which view one invocation produces: the two-tree comparison, or a
/// single-tree report in one output form.
#[derive(Clone, Copy, PartialEq, Eq, Structural, Debug)]
pub enum ReportView {
    Comparison,
    Single(OutputFormat),
}

/// The output form a format name selects; anything unrecognized falls
/// back to the table form.
pub open spec fn format_of(s: Seq<char>) -> OutputFormat {
    if s == "json"@ {
        OutputFormat::Json
    } else if s == "csv"@ {
        OutputFormat::Csv
    } else if s == "html"@ {
        OutputFormat::Html
    } else {
        OutputFormat::Table
    }
}

/// Parses a format name; unrecognized names select the table form.
pub fn parse_format(s: &String) -> (r: OutputFormat)
    ensures
        r == format_of(s@),
{
    if s.eq(&String::from_str("json")) {
        OutputFormat::Json
    } else if s.eq(&String::from_str("csv")) {
        OutputFormat::Csv
    } else if s.eq(&String::from_str("html")) {
        OutputFormat::Html
    } else {
        OutputFormat::Table
    }
}

/// The sort field a name selects; anything unrecognized falls back to
/// the default, sorting by code. An unrecognized name is a
/// configuration mistake but never a fatal one.
pub open spec fn sort_key_of(s: Seq<char>) -> SortKey {
    if s == "files"@ {
        SortKey::Files
    } else if s == "comments"@ {
        SortKey::Comments
    } else if s == "blanks"@ {
        SortKey::Blanks
    } else if s == "total"@ {
        SortKey::Total
    } else {
        SortKey::Code
    }
}

/// Parses a sort field name; unrecognized names select the code sort.
pub fn parse_sort_key(s: &String) -> (r: SortKey)
    ensures
        r == sort_key_of(s@),
{
    if s.eq(&String::from_str("files")) {
        SortKey::Files
    } else if s.eq(&String::from_str("comments")) {
        SortKey::Comments
    } else if s.eq(&String::from_str("blanks")) {
        SortKey::Blanks
    } else if s.eq(&String::from_str("total")) {
        SortKey::Total
    } else {
        SortKey::Code
    }
}

/// Chooses the view of one invocation: a comparison run always takes
/// the table-style comparison view, whatever output form was requested;
/// only a single-tree run honours the format.
pub fn choose_view(comparison: bool, format: OutputFormat) -> (r: ReportView)
    ensures
        comparison ==> r == ReportView::Comparison,
        !comparison ==> r == ReportView::Single(format),
{
    if comparison {
        ReportView::Comparison
    } else {
        ReportView::Single(format)
    }
}

// ---------------------------------------------------------------------
// CSV
// ---------------------------------------------------------------------

/// A character that forces a CSV field into quotes.
pub open spec fn is_csv_special(c: char) -> bool {
    c == ',' || c == '"' || c == '\n' || c == '\r'
}

pub open spec fn csv_needs_quoting(s: Seq<char>) -> bool {
    exists|j: int| 0 <= j < s.len() && is_csv_special(s[j])
}

/// The field text with every quote doubled.
pub open spec fn csv_doubled(s: Seq<char>) -> Seq<char>
    decreases s.len(),
{
    if s.len() == 0 {
        Seq::<char>::empty()
    } else {
        csv_doubled(s.drop_last()) + (if s.last() == '"' {
            "\"\""@
        } else {
            seq![s.last()]
        })
    }
}

/// Standard CSV quoting: a field with a comma, quote or line break is
/// wrapped in quotes with inner quotes doubled; any other field stands
/// as it is.
pub open spec fn csv_field(s: Seq<char>) -> Seq<char> {
    if csv_needs_quoting(s) {
        "\""@ + csv_doubled(s) + "\""@
    } else {
        s
    }
}

/// Renders one field with standard CSV quoting.
fn csv_field_string(s: &String) -> (r: String)
    ensures
        r@ == csv_field(s@),
{
    let st: &str = s.as_str();
    let len: usize = st.unicode_len();
    let mut found = false;
    let mut i: usize = 0;
    while i < len
        invariant
            st@ == s@,
            i <= len == s@.len(),
            found == exists|j: int| 0 <= j < i && is_csv_special(s@[j]),
        decreases len - i,
    {
        let c = st.get_char(i);
        if c == ',' || c == '"' || c == '\n' || c == '\r' {
            found = true;
        }
        i = i + 1;
    }
    if !found {
        let r = s.clone();
        return r;
    }
    let mut out = String::from_str("\"");
    let mut i: usize = 0;
    proof {
        assert(s@.take(0) =~= Seq::<char>::empty());
        assert(out@ =~= "\""@ + csv_doubled(s@.take(0)));
    }
    while i < len
        invariant
            st@ == s@,
            i <= len == s@.len(),
            out@ == "\""@ + csv_doubled(s@.take(i as int)),
        decreases len - i,
    {
        let c = st.get_char(i);
        proof {
            assert(s@.take(i + 1).drop_last() =~= s@.take(i as int));
            assert(s@.take(i + 1).last() == s@[i as int]);
        }
        if c == '"' {
            out.append("\"\"");
        } else {
            string_push(&mut out, c);
            proof {
                assert(out@ =~= "\""@ + csv_doubled(s@.take(i as int)) + seq![s@[i as int]]);
            }
        }
        proof {
            assert(out@ =~= "\""@ + csv_doubled(s@.take(i + 1)));
        }
        i = i + 1;
    }
    out.append("\"");
    proof {
        assert(s@.take(len as int) =~= s@);
        assert(out@ =~= csv_field(s@));
    }
    out
}

/// The fixed CSV header line: language-level columns only.
pub open spec fn csv_header_chars() -> Seq<char> {
    "name,file_count,code_lines,comment_lines,blank_lines,total_lines,percentage\n"@
}

/// One CSV row: the language-level aggregates and the percentage with
/// two fractional digits — never any per-file detail.
pub open spec fn csv_row_chars(l: LanguageSummary) -> Seq<char> {
    csv_field(l.name@) + ","@ + dec_digits(l.file_count as nat) + ","@ + dec_digits(l.code as nat)
        + ","@ + dec_digits(l.comments as nat) + ","@ + dec_digits(l.blanks as nat) + ","@
        + dec_digits(l.total as nat) + ","@ + percent_two_decimal_chars(
        l.percentage_hundredths as nat,
    ) + "\n"@
}

pub open spec fn csv_rows_chars(s: Seq<LanguageSummary>) -> Seq<char>
    decreases s.len(),
{
    if s.len() == 0 {
        Seq::<char>::empty()
    } else {
        csv_rows_chars(s.drop_last()) + csv_row_chars(s.last())
    }
}

/// The whole CSV document: header plus one row per listed language, in
/// listing order. By design this form carries no per-file detail,
/// whatever detail level the caller asked of other forms.
pub open spec fn csv_chars(r: AnalysisResult) -> Seq<char> {
    csv_header_chars() + csv_rows_chars(r.languages@)
}

/// Two summaries that agree on every language-level field; the per-file
/// listings may differ arbitrarily.
pub open spec fn same_language_level(x: LanguageSummary, y: LanguageSummary) -> bool {
    &&& x.name@ == y.name@
    &&& x.file_count == y.file_count
    &&& x.code == y.code
    &&& x.comments == y.comments
    &&& x.blanks == y.blanks
    &&& x.total == y.total
    &&& x.percentage_hundredths == y.percentage_hundredths
}

proof fn lemma_csv_rows_language_level(s: Seq<LanguageSummary>, t: Seq<LanguageSummary>)
    requires
        s.len() == t.len(),
        forall|i: int| 0 <= i < s.len() ==> #[trigger] same_language_level(s[i], t[i]),
    ensures
        csv_rows_chars(s) == csv_rows_chars(t),
    decreases s.len(),
{
    if s.len() > 0 {
        assert forall|i: int| 0 <= i < s.drop_last().len() implies #[trigger] same_language_level(
            s.drop_last()[i],
            t.drop_last()[i],
        ) by {
            assert(s.drop_last()[i] == s[i]);
            assert(t.drop_last()[i] == t[i]);
        }
        lemma_csv_rows_language_level(s.drop_last(), t.drop_last());
        assert(same_language_level(s[s.len() - 1], t[t.len() - 1]));
        assert(csv_row_chars(s.last()) == csv_row_chars(t.last()));
    }
}

/// CSV output never carries per-file detail: two results that agree on
/// their language-level fields render to the same CSV text, however
/// their file listings differ — and no detail flag exists on this path
/// at all.
pub proof fn lemma_csv_ignores_file_detail(a: AnalysisResult, b: AnalysisResult)
    requires
        a.languages@.len() == b.languages@.len(),
        forall|i: int|
            0 <= i < a.languages@.len() ==> #[trigger] same_language_level(
                a.languages@[i],
                b.languages@[i],
            ),
    ensures
        csv_chars(a) == csv_chars(b),
{
    lemma_csv_rows_language_level(a.languages@, b.languages@);
}

/// Appends one language's CSV row.
fn push_csv_row(out: &mut String, l: &LanguageSummary)
    ensures
        final(out)@ == old(out)@ + csv_row_chars(*l),
{
    let field = csv_field_string(&l.name);
    out.append(field.as_str());
    out.append(",");
    let t = u64_to_string(l.file_count);
    out.append(t.as_str());
    out.append(",");
    let t = u64_to_string(l.code);
    out.append(t.as_str());
    out.append(",");
    let t = u64_to_string(l.comments);
    out.append(t.as_str());
    out.append(",");
    let t = u64_to_string(l.blanks);
    out.append(t.as_str());
    out.append(",");
    let t = u64_to_string(l.total);
    out.append(t.as_str());
    out.append(",");
    let t = format_percent_two_decimals(l.percentage_hundredths);
    out.append(t.as_str());
    out.append("\n");
    proof {
        assert(out@ =~= old(out)@ + csv_row_chars(*l));
    }
}

/// Renders the whole CSV document per [`csv_chars`].
pub fn render_csv(result: &AnalysisResult) -> (r: String)
    ensures
        r@ == csv_chars(*result),
{
    let mut out = String::from_str(
        "name,file_count,code_lines,comment_lines,blank_lines,total_lines,percentage\n",
    );
    let langs = &result.languages;
    let mut i: usize = 0;
    proof {
        assert(langs@.take(0) =~= Seq::<LanguageSummary>::empty());
        assert(out@ =~= csv_header_chars() + csv_rows_chars(langs@.take(0)));
    }
    while i < langs.len()
        invariant
            i <= langs@.len(),
            out@ == csv_header_chars() + csv_rows_chars(langs@.take(i as int)),
        decreases langs@.len() - i,
    {
        proof {
            assert(langs@.take(i + 1).drop_last() =~= langs@.take(i as int));
            assert(langs@.take(i + 1).last() == langs@[i as int]);
        }
        push_csv_row(&mut out, &langs[i]);
        proof {
            assert(out@ =~= csv_header_chars() + csv_rows_chars(langs@.take(i + 1)));
        }
        i = i + 1;
    }
    proof {
        assert(langs@.take(langs@.len() as int) =~= langs@);
    }
    out
}

// ---------------------------------------------------------------------
// JSON
// ---------------------------------------------------------------------

/// The lowercase hexadecimal digit for `d` (`0 <= d < 16`).
pub open spec fn hex_digit(d: int) -> char {
    if d < 10 {
        digit_char(d)
    } else if d == 10 {
        'a'
    } else if d == 11 {
        'b'
    } else if d == 12 {
        'c'
    } else if d == 13 {
        'd'
    } else if d == 14 {
        'e'
    } else {
        'f'
    }
}

/// The JSON escape of one character: quote, backslash and the common
/// control characters take their short escapes, other control
/// characters a `\u00..` escape, everything else stands as itself.
pub open spec fn json_esc_char(c: char) -> Seq<char> {
    if c == '"' {
        "\\\""@
    } else if c == '\\' {
        "\\\\"@
    } else if c == '\n' {
        "\\n"@
    } else if c == '\r' {
        "\\r"@
    } else if c == '\t' {
        "\\t"@
    } else if (c as u32) < 32 {
        "\\u00"@ + seq![digit_char((c as u32) as int / 16), hex_digit((c as u32) as int % 16)]
    } else {
        seq![c]
    }
}

pub open spec fn json_escaped(s: Seq<char>) -> Seq<char>
    decreases s.len(),
{
    if s.len() == 0 {
        Seq::<char>::empty()
    } else {
        json_escaped(s.drop_last()) + json_esc_char(s.last())
    }
}

/// A JSON string literal: quotes around the escaped text.
pub open spec fn json_string_chars(s: Seq<char>) -> Seq<char> {
    "\""@ + json_escaped(s) + "\""@
}

fn hex_digit_str(d: u32) -> (r: &'static str)
    requires
        d < 16,
    ensures
        r@ =~= seq![hex_digit(d as int)],
{
    proof {
        reveal_strlit("0");
        reveal_strlit("1");
        reveal_strlit("2");
        reveal_strlit("3");
        reveal_strlit("4");
        reveal_strlit("5");
        reveal_strlit("6");
        reveal_strlit("7");
        reveal_strlit("8");
        reveal_strlit("9");
        reveal_strlit("a");
        reveal_strlit("b");
        reveal_strlit("c");
        reveal_strlit("d");
        reveal_strlit("e");
        reveal_strlit("f");
    }
    match d {
        0 => "0",
        1 => "1",
        2 => "2",
        3 => "3",
        4 => "4",
        5 => "5",
        6 => "6",
        7 => "7",
        8 => "8",
        9 => "9",
        10 => "a",
        11 => "b",
        12 => "c",
        13 => "d",
        14 => "e",
        _ => "f",
    }
}

/// Appends the escaped body and surrounding quotes of a JSON string.
fn push_json_string(out: &mut String, s: &String)
    ensures
        final(out)@ == old(out)@ + json_string_chars(s@),
{
    out.append("\"");
    let st: &str = s.as_str();
    let len: usize = st.unicode_len();
    let mut i: usize = 0;
    proof {
        assert(s@.take(0) =~= Seq::<char>::empty());
        assert(out@ =~= old(out)@ + "\""@ + json_escaped(s@.take(0)));
    }
    while i < len
        invariant
            st@ == s@,
            i <= len == s@.len(),
            out@ == old(out)@ + "\""@ + json_escaped(s@.take(i as int)),
        decreases len - i,
    {
        let c = st.get_char(i);
        proof {
            assert(s@.take(i + 1).drop_last() =~= s@.take(i as int));
            assert(s@.take(i + 1).last() == s@[i as int]);
        }
        if c == '"' {
            out.append("\\\"");
        } else if c == '\\' {
            out.append("\\\\");
        } else if c == '\n' {
            out.append("\\n");
        } else if c == '\r' {
            out.append("\\r");
        } else if c == '\t' {
            out.append("\\t");
        } else if (c as u32) < 32 {
            out.append("\\u00");
            let code: u32 = c as u32;
            let hi = hex_digit_str(code / 16);
            out.append(hi);
            let lo = hex_digit_str(code % 16);
            out.append(lo);
            proof {
                assert(out@ =~= old(out)@ + "\""@ + json_escaped(s@.take(i as int))
                    + json_esc_char(s@[i as int]));
            }
        } else {
            string_push(out, c);
            proof {
                assert(out@ =~= old(out)@ + "\""@ + json_escaped(s@.take(i as int)) + seq![
                    s@[i as int],
                ]);
            }
        }
        proof {
            assert(out@ =~= old(out)@ + "\""@ + json_escaped(s@.take(i + 1)));
        }
        i = i + 1;
    }
    out.append("\"");
    proof {
        assert(s@.take(len as int) =~= s@);
        assert(out@ =~= old(out)@ + json_string_chars(s@));
    }
}

/// The duration in whole seconds with all nine nanosecond digits.
pub open spec fn seconds_chars(nanos: nat) -> Seq<char> {
    dec_digits(nanos / 1_000_000_000) + "."@ + padded_digits(9, nanos % 1_000_000_000)
}

/// One file record as a JSON object; `total` is derived on the way out.
pub open spec fn file_json_chars(f: FileRecord) -> Seq<char> {
    "        {\n          \"name\": "@ + json_string_chars(f.name@)
        + ",\n          \"code\": "@ + dec_digits(f.code as nat)
        + ",\n          \"comments\": "@ + dec_digits(f.comments as nat)
        + ",\n          \"blanks\": "@ + dec_digits(f.blanks as nat)
        + ",\n          \"total\": "@ + dec_digits((f.code + f.comments + f.blanks) as nat)
        + "\n        }"@
}

pub open spec fn files_items_chars(fs: Seq<FileRecord>) -> Seq<char>
    decreases fs.len(),
{
    if fs.len() <= 1 {
        if fs.len() == 0 {
            Seq::<char>::empty()
        } else {
            file_json_chars(fs[0])
        }
    } else {
        files_items_chars(fs.drop_last()) + ",\n"@ + file_json_chars(fs.last())
    }
}

pub open spec fn files_array_chars(fs: Seq<FileRecord>) -> Seq<char> {
    if fs.len() == 0 {
        "[]"@
    } else {
        "[\n"@ + files_items_chars(fs) + "\n      ]"@
    }
}

/// One language as a JSON object, per-file detail always present.
pub open spec fn lang_json_chars(l: LanguageSummary) -> Seq<char> {
    "    {\n      \"name\": "@ + json_string_chars(l.name@)
        + ",\n      \"file_count\": "@ + dec_digits(l.file_count as nat)
        + ",\n      \"code\": "@ + dec_digits(l.code as nat)
        + ",\n      \"comments\": "@ + dec_digits(l.comments as nat)
        + ",\n      \"blanks\": "@ + dec_digits(l.blanks as nat)
        + ",\n      \"total\": "@ + dec_digits(l.total as nat)
        + ",\n      \"percentage\": "@ + percent_two_decimal_chars(l.percentage_hundredths as nat)
        + ",\n      \"files\": "@ + files_array_chars(l.files@)
        + "\n    }"@
}

pub open spec fn langs_items_chars(ls: Seq<LanguageSummary>) -> Seq<char>
    decreases ls.len(),
{
    if ls.len() <= 1 {
        if ls.len() == 0 {
            Seq::<char>::empty()
        } else {
            lang_json_chars(ls[0])
        }
    } else {
        langs_items_chars(ls.drop_last()) + ",\n"@ + lang_json_chars(ls.last())
    }
}

pub open spec fn langs_array_chars(ls: Seq<LanguageSummary>) -> Seq<char> {
    if ls.len() == 0 {
        "[]"@
    } else {
        "[\n"@ + langs_items_chars(ls) + "\n  ]"@
    }
}

/// The whole pretty-printed JSON document: every field of the result,
/// with full per-file detail whatever detail level other forms use.
pub open spec fn json_chars(r: AnalysisResult) -> Seq<char> {
    "{\n  \"timestamp\": "@ + json_string_chars(r.timestamp@)
        + ",\n  \"root_path\": "@ + json_string_chars(r.root_path@)
        + ",\n  \"duration_seconds\": "@ + seconds_chars(r.duration_nanos as nat)
        + ",\n  \"total_files\": "@ + dec_digits(r.total_files as nat)
        + ",\n  \"total_code\": "@ + dec_digits(r.total_code as nat)
        + ",\n  \"total_comments\": "@ + dec_digits(r.total_comments as nat)
        + ",\n  \"total_blanks\": "@ + dec_digits(r.total_blanks as nat)
        + ",\n  \"languages\": "@ + langs_array_chars(r.languages@)
        + "\n}"@
}

/// The derived total of every file record fits the count type.
pub open spec fn file_fits(f: FileRecord) -> bool {
    f.code + f.comments + f.blanks <= u64::MAX
}

pub open spec fn lang_files_fit(l: LanguageSummary) -> bool {
    forall|j: int| 0 <= j < l.files@.len() ==> file_fits(#[trigger] l.files@[j])
}

pub open spec fn result_files_fit(r: AnalysisResult) -> bool {
    forall|i: int| 0 <= i < r.languages@.len() ==> lang_files_fit(#[trigger] r.languages@[i])
}

/// Appends one file record's JSON object.
fn push_file_json(out: &mut String, f: &FileRecord)
    requires
        file_fits(*f),
    ensures
        final(out)@ == old(out)@ + file_json_chars(*f),
{
    out.append("        {\n          \"name\": ");
    push_json_string(out, &f.name);
    out.append(",\n          \"code\": ");
    let t = u64_to_string(f.code);
    out.append(t.as_str());
    out.append(",\n          \"comments\": ");
    let t = u64_to_string(f.comments);
    out.append(t.as_str());
    out.append(",\n          \"blanks\": ");
    let t = u64_to_string(f.blanks);
    out.append(t.as_str());
    out.append(",\n          \"total\": ");
    let t = u64_to_string(f.code + f.comments + f.blanks);
    out.append(t.as_str());
    out.append("\n        }");
    proof {
        assert(out@ =~= old(out)@ + file_json_chars(*f));
    }
}

/// Appends one language's JSON object, files array first to last.
#[verifier::rlimit(100)]
fn push_lang_json(out: &mut String, l: &LanguageSummary)
    requires
        lang_files_fit(*l),
    ensures
        final(out)@ == old(out)@ + lang_json_chars(*l),
{
    out.append("    {\n      \"name\": ");
    push_json_string(out, &l.name);
    out.append(",\n      \"file_count\": ");
    let t = u64_to_string(l.file_count);
    out.append(t.as_str());
    out.append(",\n      \"code\": ");
    let t = u64_to_string(l.code);
    out.append(t.as_str());
    out.append(",\n      \"comments\": ");
    let t = u64_to_string(l.comments);
    out.append(t.as_str());
    out.append(",\n      \"blanks\": ");
    let t = u64_to_string(l.blanks);
    out.append(t.as_str());
    out.append(",\n      \"total\": ");
    let t = u64_to_string(l.total);
    out.append(t.as_str());
    out.append(",\n      \"percentage\": ");
    let t = format_percent_two_decimals(l.percentage_hundredths);
    out.append(t.as_str());
    out.append(",\n      \"files\": ");
    let ghost before_files: Seq<char> = out@;
    if l.files.len() == 0 {
        out.append("[]");
        proof {
            assert(out@ =~= before_files + files_array_chars(l.files@));
        }
    } else {
        out.append("[\n");
        let mut i: usize = 0;
        while i < l.files.len()
            invariant
                lang_files_fit(*l),
                1 <= l.files@.len(),
                i <= l.files@.len(),
                i == 0 ==> out@ == before_files + "[\n"@,
                i >= 1 ==> out@ == before_files + "[\n"@ + files_items_chars(
                    l.files@.take(i as int),
                ),
            decreases l.files@.len() - i,
        {
            if i > 0 {
                out.append(",\n");
            }
            proof {
                assert(l.files@.take(i + 1).drop_last() =~= l.files@.take(i as int));
                assert(l.files@.take(i + 1).last() == l.files@[i as int]);
                assert(l.files@.take(1)[0] == l.files@[0]);
            }
            push_file_json(&mut *out, &l.files[i]);
            proof {
                assert(out@ =~= before_files + "[\n"@ + files_items_chars(l.files@.take(i + 1)));
            }
            i = i + 1;
        }
        out.append("\n      ]");
        proof {
            assert(l.files@.take(l.files@.len() as int) =~= l.files@);
            assert(out@ =~= before_files + files_array_chars(l.files@));
        }
    }
    out.append("\n    }");
    proof {
        assert(out@ =~= old(out)@ + lang_json_chars(*l));
    }
}

/// Renders the whole pretty-printed JSON document per [`json_chars`].
#[verifier::rlimit(100)]
pub fn render_json(result: &AnalysisResult) -> (r: String)
    requires
        result_files_fit(*result),
    ensures
        r@ == json_chars(*result),
{
    let mut out = String::from_str("{\n  \"timestamp\": ");
    push_json_string(&mut out, &result.timestamp);
    out.append(",\n  \"root_path\": ");
    push_json_string(&mut out, &result.root_path);
    out.append(",\n  \"duration_seconds\": ");
    let t = u64_to_string(result.duration_nanos / 1_000_000_000);
    out.append(t.as_str());
    out.append(".");
    let t = pad_u64(9, result.duration_nanos % 1_000_000_000);
    out.append(t.as_str());
    out.append(",\n  \"total_files\": ");
    let t = u64_to_string(result.total_files);
    out.append(t.as_str());
    out.append(",\n  \"total_code\": ");
    let t = u64_to_string(result.total_code);
    out.append(t.as_str());
    out.append(",\n  \"total_comments\": ");
    let t = u64_to_string(result.total_comments);
    out.append(t.as_str());
    out.append(",\n  \"total_blanks\": ");
    let t = u64_to_string(result.total_blanks);
    out.append(t.as_str());
    out.append(",\n  \"languages\": ");
    let ghost before_langs: Seq<char> = out@;
    let langs = &result.languages;
    if langs.len() == 0 {
        out.append("[]");
        proof {
            assert(out@ =~= before_langs + langs_array_chars(langs@));
        }
    } else {
        out.append("[\n");
        let mut i: usize = 0;
        while i < langs.len()
            invariant
                result_files_fit(*result),
                langs@ == result.languages@,
                1 <= langs@.len(),
                i <= langs@.len(),
                i == 0 ==> out@ == before_langs + "[\n"@,
                i >= 1 ==> out@ == before_langs + "[\n"@ + langs_items_chars(
                    langs@.take(i as int),
                ),
            decreases langs@.len() - i,
        {
            if i > 0 {
                out.append(",\n");
            }
            proof {
                assert(langs@.take(i + 1).drop_last() =~= langs@.take(i as int));
                assert(langs@.take(i + 1).last() == langs@[i as int]);
                assert(langs@.take(1)[0] == langs@[0]);
            }
            push_lang_json(&mut out, &langs[i]);
            proof {
                assert(out@ =~= before_langs + "[\n"@ + langs_items_chars(langs@.take(i + 1)));
            }
            i = i + 1;
        }
        out.append("\n  ]");
        proof {
            assert(langs@.take(langs@.len() as int) =~= langs@);
            assert(out@ =~= before_langs + langs_array_chars(langs@));
        }
    }
    out.append("\n}");
    proof {
        assert(out@ =~= json_chars(*result));
    }
    out
}

} // verus!
