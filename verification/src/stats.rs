//! The data model: per-file line counts, per-language summaries, and the
//! whole-tree analysis result, together with the summation and filtering
//! steps of aggregation.

use vstd::prelude::*;
use crate::format::{calculate_percentage, pct_hundredths};

verus! {

/// Line counts of a single source file, as delivered by the scanner.
pub struct FileRecord {
    pub name: String,
    pub code: u64,
    pub comments: u64,
    pub blanks: u64,
}

/// One language with the files the scanner attributed to it, in the
/// order the scanner delivered them.
pub struct LanguageFiles {
    pub name: String,
    pub files: Vec<FileRecord>,
}

/// Aggregated counts for one language. The count fields are always the
/// sums over `files`, `total` the sum of the three categories, and
/// `percentage_hundredths` the language's share of the grand code total
/// in hundredths of a percent.
pub struct LanguageSummary {
    pub name: String,
    pub files: Vec<FileRecord>,
    pub file_count: u64,
    pub code: u64,
    pub comments: u64,
    pub blanks: u64,
    pub total: u64,
    pub percentage_hundredths: u64,
}

/// The field a language listing is ordered by.
#[derive(Clone, Copy, PartialEq, Eq, Structural, Debug)]
pub enum SortKey {
    Code,
    Files,
    Comments,
    Blanks,
    Total,
}

/// The aggregated outcome of one analysis run. Grand totals cover every
/// language the scanner reported, before any minimum-lines filtering of
/// the `languages` listing.
pub struct AnalysisResult {
    pub timestamp: String,
    pub root_path: String,
    pub duration_nanos: u64,
    pub total_files: u64,
    pub total_code: u64,
    pub total_comments: u64,
    pub total_blanks: u64,
    pub languages: Vec<LanguageSummary>,
}

/// Sum of `sel` over a sequence of file records.
pub open spec fn sum_sel(s: Seq<FileRecord>, sel: spec_fn(FileRecord) -> int) -> int
    decreases s.len(),
{
    if s.len() == 0 {
        0
    } else {
        sum_sel(s.drop_last(), sel) + sel(s.last())
    }
}

pub open spec fn code_sel() -> spec_fn(FileRecord) -> int {
    |f: FileRecord| f.code as int
}

pub open spec fn comments_sel() -> spec_fn(FileRecord) -> int {
    |f: FileRecord| f.comments as int
}

pub open spec fn blanks_sel() -> spec_fn(FileRecord) -> int {
    |f: FileRecord| f.blanks as int
}

pub open spec fn sum_code(s: Seq<FileRecord>) -> int {
    sum_sel(s, code_sel())
}

pub open spec fn sum_comments(s: Seq<FileRecord>) -> int {
    sum_sel(s, comments_sel())
}

pub open spec fn sum_blanks(s: Seq<FileRecord>) -> int {
    sum_sel(s, blanks_sel())
}

/// Sum of a per-language measure over a sequence of scanned languages.
pub open spec fn grand_sel(s: Seq<LanguageFiles>, lm: spec_fn(LanguageFiles) -> int) -> int
    decreases s.len(),
{
    if s.len() == 0 {
        0
    } else {
        grand_sel(s.drop_last(), lm) + lm(s.last())
    }
}

pub open spec fn lang_code_measure() -> spec_fn(LanguageFiles) -> int {
    |lf: LanguageFiles| sum_code(lf.files@)
}

pub open spec fn lang_comments_measure() -> spec_fn(LanguageFiles) -> int {
    |lf: LanguageFiles| sum_comments(lf.files@)
}

pub open spec fn lang_blanks_measure() -> spec_fn(LanguageFiles) -> int {
    |lf: LanguageFiles| sum_blanks(lf.files@)
}

pub open spec fn lang_files_measure() -> spec_fn(LanguageFiles) -> int {
    |lf: LanguageFiles| lf.files@.len() as int
}

pub open spec fn grand_code(s: Seq<LanguageFiles>) -> int {
    grand_sel(s, lang_code_measure())
}

pub open spec fn grand_comments(s: Seq<LanguageFiles>) -> int {
    grand_sel(s, lang_comments_measure())
}

pub open spec fn grand_blanks(s: Seq<LanguageFiles>) -> int {
    grand_sel(s, lang_blanks_measure())
}

pub open spec fn grand_files(s: Seq<LanguageFiles>) -> int {
    grand_sel(s, lang_files_measure())
}

pub proof fn lemma_sum_sel_take_step(s: Seq<FileRecord>, sel: spec_fn(FileRecord) -> int, i: int)
    requires
        0 <= i < s.len(),
    ensures
        sum_sel(s.take(i + 1), sel) == sum_sel(s.take(i), sel) + sel(s[i]),
{
    assert(s.take(i + 1).drop_last() =~= s.take(i));
    assert(s.take(i + 1).last() == s[i]);
}

pub proof fn lemma_sum_sel_nonneg(s: Seq<FileRecord>, sel: spec_fn(FileRecord) -> int)
    requires
        forall|f: FileRecord| #[trigger] sel(f) >= 0,
    ensures
        sum_sel(s, sel) >= 0,
    decreases s.len(),
{
    if s.len() > 0 {
        lemma_sum_sel_nonneg(s.drop_last(), sel);
    }
}

pub proof fn lemma_sum_sel_take_le(s: Seq<FileRecord>, sel: spec_fn(FileRecord) -> int, i: int)
    requires
        forall|f: FileRecord| #[trigger] sel(f) >= 0,
        0 <= i <= s.len(),
    ensures
        sum_sel(s.take(i), sel) <= sum_sel(s, sel),
    decreases s.len() - i,
{
    if i == s.len() {
        assert(s.take(i) =~= s);
    } else {
        lemma_sum_sel_take_step(s, sel, i);
        lemma_sum_sel_take_le(s, sel, i + 1);
    }
}

pub proof fn lemma_grand_take_step(s: Seq<LanguageFiles>, lm: spec_fn(LanguageFiles) -> int, i: int)
    requires
        0 <= i < s.len(),
    ensures
        grand_sel(s.take(i + 1), lm) == grand_sel(s.take(i), lm) + lm(s[i]),
{
    assert(s.take(i + 1).drop_last() =~= s.take(i));
    assert(s.take(i + 1).last() == s[i]);
}

pub proof fn lemma_grand_nonneg(s: Seq<LanguageFiles>, lm: spec_fn(LanguageFiles) -> int)
    requires
        forall|lf: LanguageFiles| #[trigger] lm(lf) >= 0,
    ensures
        grand_sel(s, lm) >= 0,
    decreases s.len(),
{
    if s.len() > 0 {
        lemma_grand_nonneg(s.drop_last(), lm);
    }
}

pub proof fn lemma_grand_take_le(s: Seq<LanguageFiles>, lm: spec_fn(LanguageFiles) -> int, i: int)
    requires
        forall|lf: LanguageFiles| #[trigger] lm(lf) >= 0,
        0 <= i <= s.len(),
    ensures
        grand_sel(s.take(i), lm) <= grand_sel(s, lm),
    decreases s.len() - i,
{
    if i == s.len() {
        assert(s.take(i) =~= s);
    } else {
        lemma_grand_take_step(s, lm, i);
        lemma_grand_take_le(s, lm, i + 1);
    }
}

/// Each language's measure is at most the grand total of that measure.
pub proof fn lemma_lang_le_grand(s: Seq<LanguageFiles>, lm: spec_fn(LanguageFiles) -> int, i: int)
    requires
        forall|lf: LanguageFiles| #[trigger] lm(lf) >= 0,
        0 <= i < s.len(),
    ensures
        lm(s[i]) <= grand_sel(s, lm),
    decreases s.len(),
{
    if i == s.len() - 1 {
        lemma_grand_nonneg(s.drop_last(), lm);
    } else {
        lemma_lang_le_grand(s.drop_last(), lm, i);
        assert(s.drop_last()[i] == s[i]);
    }
}

/// Sums the three count categories over a language's files.
pub fn sum_files(files: &Vec<FileRecord>) -> (r: (u64, u64, u64))
    requires
        sum_code(files@) <= u64::MAX,
        sum_comments(files@) <= u64::MAX,
        sum_blanks(files@) <= u64::MAX,
    ensures
        r.0 == sum_code(files@),
        r.1 == sum_comments(files@),
        r.2 == sum_blanks(files@),
{
    let mut code: u64 = 0;
    let mut comments: u64 = 0;
    let mut blanks: u64 = 0;
    let mut i: usize = 0;
    proof {
        assert(files@.take(0) =~= Seq::<FileRecord>::empty());
    }
    while i < files.len()
        invariant
            i <= files@.len(),
            sum_code(files@) <= u64::MAX,
            sum_comments(files@) <= u64::MAX,
            sum_blanks(files@) <= u64::MAX,
            code == sum_sel(files@.take(i as int), code_sel()),
            comments == sum_sel(files@.take(i as int), comments_sel()),
            blanks == sum_sel(files@.take(i as int), blanks_sel()),
        decreases files@.len() - i,
    {
        let f = &files[i];
        proof {
            lemma_sum_sel_take_step(files@, code_sel(), i as int);
            lemma_sum_sel_take_step(files@, comments_sel(), i as int);
            lemma_sum_sel_take_step(files@, blanks_sel(), i as int);
            lemma_sum_sel_take_le(files@, code_sel(), i + 1);
            lemma_sum_sel_take_le(files@, comments_sel(), i + 1);
            lemma_sum_sel_take_le(files@, blanks_sel(), i + 1);
        }
        code = code + f.code;
        comments = comments + f.comments;
        blanks = blanks + f.blanks;
        i = i + 1;
    }
    proof {
        assert(files@.take(files@.len() as int) =~= files@);
    }
    (code, comments, blanks)
}

/// A summary is internally consistent: counts are the sums over its own
/// file listing and `total` covers the three categories.
pub open spec fn wf_summary(l: LanguageSummary) -> bool {
    &&& l.file_count == l.files@.len()
    &&& l.code == sum_code(l.files@)
    &&& l.comments == sum_comments(l.files@)
    &&& l.blanks == sum_blanks(l.files@)
    &&& l.total == l.code + l.comments + l.blanks
}

/// `l` is the summary of the scanned language `src`, with its percentage
/// taken against the (unfiltered) grand code total.
pub open spec fn summary_matches(l: LanguageSummary, src: LanguageFiles, grand: int) -> bool {
    &&& wf_summary(l)
    &&& l.name@ == src.name@
    &&& l.files@ == src.files@
    &&& l.percentage_hundredths == pct_hundredths(sum_code(src.files@), grand)
}

/// Bounds under which aggregation cannot overflow: all grand totals fit
/// in the count type.
pub open spec fn totals_fit(s: Seq<LanguageFiles>) -> bool {
    &&& grand_code(s) + grand_comments(s) + grand_blanks(s) <= u64::MAX
    &&& grand_files(s) <= u64::MAX
}

/// Builds one summary per scanned language, in the scanner's order, with
/// percentages taken against the grand code total `grand`.
pub fn build_summaries(input: Vec<LanguageFiles>, grand: u64) -> (r: Vec<LanguageSummary>)
    requires
        totals_fit(input@),
        grand == grand_code(input@),
    ensures
        r@.len() == input@.len(),
        forall|i: int|
            0 <= i < input@.len() ==> #[trigger] summary_matches(r@[i], input@[i], grand as int),
{
    let ghost orig: Seq<LanguageFiles> = input@;
    let mut rest = input;
    let mut out: Vec<LanguageSummary> = Vec::new();
    proof {
        assert(orig.skip(0) =~= orig);
    }
    while rest.len() > 0
        invariant
            totals_fit(orig),
            grand == grand_code(orig),
            out@.len() + rest@.len() == orig.len(),
            rest@ == orig.skip(out@.len() as int),
            forall|i: int|
                0 <= i < out@.len() ==> #[trigger] summary_matches(out@[i], orig[i], grand as int),
        decreases rest@.len(),
    {
        let ghost i: int = out@.len() as int;
        let ghost mc = lang_code_measure();
        let ghost mm = lang_comments_measure();
        let ghost mb = lang_blanks_measure();
        proof {
            assert(rest@[0] == orig[i]);
            assert forall|lf: LanguageFiles| #[trigger] mc(lf) >= 0 by {
                lemma_sum_sel_nonneg(lf.files@, code_sel());
            }
            assert forall|lf: LanguageFiles| #[trigger] mm(lf) >= 0 by {
                lemma_sum_sel_nonneg(lf.files@, comments_sel());
            }
            assert forall|lf: LanguageFiles| #[trigger] mb(lf) >= 0 by {
                lemma_sum_sel_nonneg(lf.files@, blanks_sel());
            }
            lemma_lang_le_grand(orig, mc, i);
            lemma_lang_le_grand(orig, mm, i);
            lemma_lang_le_grand(orig, mb, i);
            lemma_grand_nonneg(orig, mc);
            lemma_grand_nonneg(orig, mm);
            lemma_grand_nonneg(orig, mb);
        }
        let lf = rest.remove(0);
        let (code, comments, blanks) = sum_files(&lf.files);
        let pct = calculate_percentage(code, grand);
        let file_count: u64 = lf.files.len() as u64;
        let summary = LanguageSummary {
            name: lf.name,
            file_count,
            code,
            comments,
            blanks,
            total: code + comments + blanks,
            percentage_hundredths: pct,
            files: lf.files,
        };
        out.push(summary);
        proof {
            assert(rest@ =~= orig.skip(out@.len() as int));
        }
    }
    proof {
        assert(out@.len() == orig.len());
    }
    out
}

/// The retention test of minimum-lines filtering: keep a language when
/// no minimum is given, or when its code count reaches the minimum
/// (inclusive).
pub open spec fn keeps(min: Option<u64>) -> spec_fn(LanguageSummary) -> bool {
    |l: LanguageSummary|
        match min {
            Option::None => true,
            Option::Some(m) => l.code >= m,
        }
}

/// The minimum-lines boundary is inclusive: a summary is retained
/// exactly when its code count reaches the minimum, so one at the
/// minimum itself stays while one a single line short is dropped; with
/// no minimum, everything is retained.
pub proof fn lemma_min_lines_inclusive(l: LanguageSummary, m: u64)
    ensures
        keeps(Option::Some(m))(l) <==> l.code >= m,
        keeps(Option::None)(l),
{
}

/// Retains the languages whose code count reaches `min_lines`, keeping
/// their order; `None` retains everything. Grand totals are never
/// touched by this step: it acts on the listing alone.
pub fn filter_summaries(v: Vec<LanguageSummary>, min_lines: Option<u64>) -> (r: Vec<
    LanguageSummary,
>)
    ensures
        r@ == v@.filter(keeps(min_lines)),
{
    let ghost orig: Seq<LanguageSummary> = v@;
    let mut rest = v;
    let mut out: Vec<LanguageSummary> = Vec::new();
    let ghost pred = keeps(min_lines);
    proof {
        assert(orig.skip(0) =~= orig);
        assert(orig.take(0) =~= Seq::<LanguageSummary>::empty());
        reveal(Seq::filter);
        assert(orig.take(0).filter(pred) =~= Seq::<LanguageSummary>::empty());
    }
    while rest.len() > 0
        invariant
            rest@.len() <= orig.len(),
            rest@ == orig.skip(orig.len() - rest@.len()),
            out@ == orig.take(orig.len() - rest@.len()).filter(pred),
            pred == keeps(min_lines),
        decreases rest@.len(),
    {
        let ghost i: int = orig.len() - rest@.len();
        proof {
            assert(rest@[0] == orig[i]);
        }
        let x = rest.remove(0);
        let keep = match min_lines {
            Option::Some(m) => x.code >= m,
            Option::None => true,
        };
        proof {
            assert(keep == pred(orig[i]));
            reveal(Seq::filter);
            assert(orig.take(i + 1).drop_last() =~= orig.take(i));
            assert(orig.take(i + 1).last() == orig[i]);
        }
        if keep {
            out.push(x);
        }
        proof {
            assert(rest@ =~= orig.skip(i + 1));
        }
    }
    proof {
        assert(orig.take(orig.len() as int) =~= orig);
    }
    out
}

} // verus!
