//! The aggregation pipeline: grand totals over every scanned language,
//! one summary per language, minimum-lines filtering of the listing, and
//! the stable descending sort — composed into [`aggregate`].
//!
//! Grand totals are computed over all languages before filtering and do
//! not depend on the filter: the contract of [`aggregate`] states the
//! totals as functions of the input alone.

use vstd::prelude::*;
use crate::stats::{
    AnalysisResult, LanguageFiles, LanguageSummary, SortKey, build_summaries, filter_summaries,
    grand_blanks, grand_code, grand_comments, grand_files, grand_sel, keeps, lang_blanks_measure,
    lang_code_measure, lang_comments_measure, lang_files_measure, lemma_grand_nonneg,
    lemma_grand_take_le, lemma_grand_take_step, lemma_lang_le_grand, lemma_sum_sel_nonneg,
    code_sel, comments_sel, blanks_sel, sum_code, sum_files, summary_matches, totals_fit,
};
use crate::order::{sort_desc, sort_summaries};

verus! {

/// Computes the four grand totals (code, comments, blanks, files) over
/// every scanned language.
pub fn grand_totals(input: &Vec<LanguageFiles>) -> (r: (u64, u64, u64, u64))
    requires
        totals_fit(input@),
    ensures
        r.0 == grand_code(input@),
        r.1 == grand_comments(input@),
        r.2 == grand_blanks(input@),
        r.3 == grand_files(input@),
{
    let ghost mc = lang_code_measure();
    let ghost mm = lang_comments_measure();
    let ghost mb = lang_blanks_measure();
    let ghost mf = lang_files_measure();
    proof {
        assert forall|lf: LanguageFiles| #[trigger] mc(lf) >= 0 by {
            lemma_sum_sel_nonneg(lf.files@, code_sel());
        }
        assert forall|lf: LanguageFiles| #[trigger] mm(lf) >= 0 by {
            lemma_sum_sel_nonneg(lf.files@, comments_sel());
        }
        assert forall|lf: LanguageFiles| #[trigger] mb(lf) >= 0 by {
            lemma_sum_sel_nonneg(lf.files@, blanks_sel());
        }
        assert forall|lf: LanguageFiles| #[trigger] mf(lf) >= 0 by {}
        lemma_grand_nonneg(input@, mc);
        lemma_grand_nonneg(input@, mm);
        lemma_grand_nonneg(input@, mb);
        assert(input@.take(0) =~= Seq::<LanguageFiles>::empty());
    }
    let mut code: u64 = 0;
    let mut comments: u64 = 0;
    let mut blanks: u64 = 0;
    let mut files: u64 = 0;
    let mut i: usize = 0;
    while i < input.len()
        invariant
            i <= input@.len(),
            totals_fit(input@),
            mc == lang_code_measure(),
            mm == lang_comments_measure(),
            mb == lang_blanks_measure(),
            mf == lang_files_measure(),
            forall|lf: LanguageFiles| #[trigger] mc(lf) >= 0,
            forall|lf: LanguageFiles| #[trigger] mm(lf) >= 0,
            forall|lf: LanguageFiles| #[trigger] mb(lf) >= 0,
            forall|lf: LanguageFiles| #[trigger] mf(lf) >= 0,
            grand_code(input@) >= 0,
            grand_comments(input@) >= 0,
            grand_blanks(input@) >= 0,
            code == grand_sel(input@.take(i as int), mc),
            comments == grand_sel(input@.take(i as int), mm),
            blanks == grand_sel(input@.take(i as int), mb),
            files == grand_sel(input@.take(i as int), mf),
        decreases input@.len() - i,
    {
        let lf = &input[i];
        proof {
            lemma_lang_le_grand(input@, mc, i as int);
            lemma_lang_le_grand(input@, mm, i as int);
            lemma_lang_le_grand(input@, mb, i as int);
            lemma_grand_take_step(input@, mc, i as int);
            lemma_grand_take_step(input@, mm, i as int);
            lemma_grand_take_step(input@, mb, i as int);
            lemma_grand_take_step(input@, mf, i as int);
            lemma_grand_take_le(input@, mc, i + 1);
            lemma_grand_take_le(input@, mm, i + 1);
            lemma_grand_take_le(input@, mb, i + 1);
            lemma_grand_take_le(input@, mf, i + 1);
        }
        let (c, m, b) = sum_files(&lf.files);
        code = code + c;
        comments = comments + m;
        blanks = blanks + b;
        files = files + (lf.files.len() as u64);
        i = i + 1;
    }
    proof {
        assert(input@.take(input@.len() as int) =~= input@);
    }
    (code, comments, blanks, files)
}

/// Turns the scanner's per-language file counts into an analysis result:
/// grand totals over every language first, then one summary per language
/// with its share of the grand code total, then the minimum-lines filter
/// of the listing, then the stable descending sort by `sort_by`. The
/// four total fields depend on the input alone — filtering never alters
/// them. Timestamp and duration are measurements of the caller's
/// environment and are passed in.
pub fn aggregate(
    input: Vec<LanguageFiles>,
    min_lines: Option<u64>,
    sort_by: SortKey,
    timestamp: String,
    root_path: String,
    duration_nanos: u64,
) -> (r: AnalysisResult)
    requires
        totals_fit(input@),
    ensures
        r.timestamp == timestamp,
        r.root_path == root_path,
        r.duration_nanos == duration_nanos,
        r.total_code == grand_code(input@),
        r.total_comments == grand_comments(input@),
        r.total_blanks == grand_blanks(input@),
        r.total_files == grand_files(input@),
        exists|s0: Seq<LanguageSummary>|
            {
                &&& s0.len() == input@.len()
                &&& (forall|i: int|
                    0 <= i < input@.len() ==> #[trigger] summary_matches(
                        s0[i],
                        input@[i],
                        grand_code(input@),
                    ))
                &&& r.languages@ == sort_desc(#[trigger] s0.filter(keeps(min_lines)), sort_by)
            },
{
    let ghost inp: Seq<LanguageFiles> = input@;
    let (code, comments, blanks, files) = grand_totals(&input);
    let summaries = build_summaries(input, code);
    let ghost s0: Seq<LanguageSummary> = summaries@;
    let filtered = filter_summaries(summaries, min_lines);
    let sorted = sort_summaries(filtered, sort_by);
    let r = AnalysisResult {
        timestamp,
        root_path,
        duration_nanos,
        total_files: files,
        total_code: code,
        total_comments: comments,
        total_blanks: blanks,
        languages: sorted,
    };
    proof {
        assert(s0.len() == inp.len());
        assert(r.languages@ == sort_desc(s0.filter(keeps(min_lines)), sort_by));
    }
    r
}

/// Sum of the per-language code counts of a listing.
pub open spec fn langs_code_sum(s: Seq<LanguageSummary>) -> int
    decreases s.len(),
{
    if s.len() == 0 {
        0
    } else {
        langs_code_sum(s.drop_last()) + s.last().code
    }
}

proof fn lemma_insert_desc_code_sum(s: Seq<LanguageSummary>, x: LanguageSummary, k: SortKey)
    ensures
        langs_code_sum(crate::order::insert_desc(s, x, k)) == langs_code_sum(s) + x.code,
    decreases s.len(),
{
    let r = crate::order::insert_desc(s, x, k);
    if s.len() == 0 {
        assert(r =~= seq![x]);
        assert(r.drop_last() =~= Seq::<LanguageSummary>::empty());
        assert(r.last() == x);
        assert(langs_code_sum(Seq::<LanguageSummary>::empty()) == 0);
        assert(langs_code_sum(r) == x.code);
    } else if crate::order::key_of(s.last(), k) >= crate::order::key_of(x, k) {
        assert(r == s.push(x));
        assert(r.drop_last() =~= s);
        assert(r.last() == x);
        assert(langs_code_sum(r) == langs_code_sum(s) + x.code);
    } else {
        lemma_insert_desc_code_sum(s.drop_last(), x, k);
        let t = crate::order::insert_desc(s.drop_last(), x, k);
        assert(r == t.push(s.last()));
        assert(r.drop_last() =~= t);
        assert(r.last() == s.last());
        assert(langs_code_sum(r) == langs_code_sum(t) + s.last().code);
        assert(langs_code_sum(s) == langs_code_sum(s.drop_last()) + s.last().code);
    }
}

/// Sorting rearranges the listing only: the code counts add up to the
/// same value before and after.
pub proof fn lemma_sort_desc_code_sum(s: Seq<LanguageSummary>, k: SortKey)
    ensures
        langs_code_sum(sort_desc(s, k)) == langs_code_sum(s),
    decreases s.len(),
{
    if s.len() > 0 {
        lemma_sort_desc_code_sum(s.drop_last(), k);
        lemma_insert_desc_code_sum(sort_desc(s.drop_last(), k), s.last(), k);
    }
}

/// Filtering with no minimum keeps every language.
pub proof fn lemma_filter_none_keeps_all(s: Seq<LanguageSummary>)
    ensures
        s.filter(keeps(Option::None)) == s,
    decreases s.len(),
{
    reveal(Seq::filter);
    let pred = keeps(Option::None);
    if s.len() == 0 {
        assert(s.filter(pred) =~= s);
    } else {
        lemma_filter_none_keeps_all(s.drop_last());
        assert(pred(s.last()));
        assert(s.filter(pred) =~= s);
    }
}

/// Summaries that match the scanned input carry code counts that add up
/// to the grand code total.
pub proof fn lemma_matched_code_sum(s0: Seq<LanguageSummary>, input: Seq<LanguageFiles>, g: int)
    requires
        s0.len() == input.len(),
        forall|i: int| 0 <= i < input.len() ==> #[trigger] summary_matches(s0[i], input[i], g),
    ensures
        langs_code_sum(s0) == grand_code(input),
    decreases input.len(),
{
    let ghost mc = lang_code_measure();
    if input.len() == 0 {
    } else {
        assert forall|i: int| 0 <= i < input.drop_last().len() implies #[trigger] summary_matches(
            s0.drop_last()[i],
            input.drop_last()[i],
            g,
        ) by {
            assert(s0.drop_last()[i] == s0[i]);
            assert(input.drop_last()[i] == input[i]);
        }
        lemma_matched_code_sum(s0.drop_last(), input.drop_last(), g);
        assert(summary_matches(s0[input.len() - 1], input[input.len() - 1], g));
        assert(mc(input.last()) == sum_code(input.last().files@));
        assert(grand_code(input) == grand_sel(input.drop_last(), mc) + mc(input.last()));
    }
}

/// The conservation law behind the grand totals: when no minimum-lines
/// filter is applied, the code counts of the languages listed by the
/// aggregation — matched summaries, filtered with no minimum, sorted any
/// way — add up to exactly the grand code total of the scanned input.
/// (With a filter, the totals themselves are untouched: `aggregate`
/// states them as functions of the input alone.)
pub proof fn lemma_unfiltered_listing_sums_to_total(
    s0: Seq<LanguageSummary>,
    input: Seq<LanguageFiles>,
    k: SortKey,
)
    requires
        s0.len() == input.len(),
        forall|i: int|
            0 <= i < input.len() ==> #[trigger] summary_matches(s0[i], input[i], grand_code(input)),
    ensures
        langs_code_sum(sort_desc(s0.filter(keeps(Option::None)), k)) == grand_code(input),
{
    lemma_filter_none_keeps_all(s0);
    lemma_sort_desc_code_sum(s0.filter(keeps(Option::None)), k);
    lemma_matched_code_sum(s0, input, grand_code(input));
}

} // verus!
