//! Two analyses of the same files give the same output.
//!
//! The files of a project come in whatever order they are found, and
//! workers hand in their results in no fixed order. As long as no two
//! listed files share a name and no two ignored files share a path, the
//! output shows the same rows in the same order.

use vstd::prelude::*;
use crate::code_unit::UnitKind;
use crate::metrics::{
    function_metrics, lemma_summary_rows_permutation, totals_metrics, Metrics, MetricsThresholds,
};
use crate::options::{Mode, Sort};
use crate::order::{lemma_sorted_unique_by, may_precede, row_precedes, sort_key};
use crate::output::{
    file_views, function_views, texts, FileMetrics, FunctionMetrics, FunctionRow, WccOutput,
};
use crate::permutation::{
    collect, lemma_collect_distinct, lemma_collect_permutation, lemma_distinct_permutation,
    lemma_map_permutation,
};
use crate::project::{lemma_merge_all_permutation, Totals};
use crate::runner::{
    ignored_of, listed_of, listed_rows, listed_scores, parts_of, ran, stands_for, SourceFile,
};
use crate::spaces::{lemma_spaces_distinct, SpaceRow};
use crate::wcc::function_rows;

verus! {

/// The totals of a file, if it has coverage.
pub open spec fn part_of() -> spec_fn(SourceFile) -> Option<Totals> {
    |file: SourceFile| file.totals()
}

/// Name and scores of a file, if it has coverage and a name.
pub open spec fn listing_of(limits: MetricsThresholds) -> spec_fn(SourceFile) -> Option<
    (Seq<char>, Metrics),
> {
    |file: SourceFile|
        match (file.totals(), file.name) {
            (Some(totals), Some(name)) => Some((name@, totals_metrics(totals, limits))),
            _ => None,
        }
}

/// The path of a file, if it has no coverage.
pub open spec fn ignoring_of() -> spec_fn(SourceFile) -> Option<Seq<char>> {
    |file: SourceFile|
        match (file.coverage, file.relative_path) {
            (None, Some(path)) => Some(path@),
            _ => None,
        }
}

/// The scores of a code unit, if it is a function.
pub open spec fn function_of(limits: MetricsThresholds) -> spec_fn(SpaceRow) -> Option<
    FunctionRow,
> {
    |row: SpaceRow|
        if row.data.kind == UnitKind::Function {
            Some(FunctionRow { name: row.name, metrics: function_metrics(row.data, limits) })
        } else {
            None
        }
}

/// No two files with coverage share a name, and no two files without
/// coverage share a path.
pub open spec fn distinct_sources(files: Seq<SourceFile>, limits: MetricsThresholds) -> bool {
    forall|i: int, j: int|
        0 <= i < j < files.len() ==> {
            &&& listing_of(limits)(#[trigger] files[i]).is_some() && listing_of(limits)(
                #[trigger] files[j],
            ).is_some() ==> listing_of(limits)(files[i]).unwrap().0 != listing_of(limits)(
                files[j],
            ).unwrap().0
            &&& ignoring_of()(files[i]).is_some() && ignoring_of()(files[j]).is_some()
                ==> ignoring_of()(files[i]).unwrap() != ignoring_of()(files[j]).unwrap()
        }
}

/// Totals, listed files and ignored files are collected from the files.
pub proof fn lemma_collected(files: Seq<SourceFile>, limits: MetricsThresholds)
    ensures
        parts_of(files) == collect(files, part_of()),
        listed_of(files, limits) == collect(files, listing_of(limits)),
        ignored_of(files) == collect(files, ignoring_of()),
    decreases files.len(),
{
    if files.len() > 0 {
        lemma_collected(files.drop_last(), limits);
    }
}

/// The functions of a file are collected from its code units.
pub proof fn lemma_functions_collected(rows: Seq<SpaceRow>, limits: MetricsThresholds)
    ensures
        function_rows(rows, limits) == collect(rows, function_of(limits)),
    decreases rows.len(),
{
    if rows.len() > 0 {
        lemma_functions_collected(rows.drop_last(), limits);
    }
}

/// Two analyses of the same files, found in any order, show the same
/// files with the same scores and functions in the same order, the same
/// project summary and the same ignored files in the same order.
pub proof fn lemma_run_is_determined(
    files_a: Seq<SourceFile>,
    files_b: Seq<SourceFile>,
    total_coverage: Option<u64>,
    mode: Mode,
    limits: MetricsThresholds,
    by: Sort,
    output_a: WccOutput,
    output_b: WccOutput,
)
    requires
        files_a.to_multiset() == files_b.to_multiset(),
        distinct_sources(files_a, limits),
        ran(files_a, total_coverage, mode, limits, by, output_a),
        ran(files_b, total_coverage, mode, limits, by, output_b),
    ensures
        file_views(output_a.files@) == file_views(output_b.files@),
        texts(output_a.ignored_files@) == texts(output_b.ignored_files@),
        output_a.project == output_b.project,
{
    lemma_collected(files_a, limits);
    lemma_collected(files_b, limits);
    // The project summary.
    lemma_collect_permutation(files_a, files_b, part_of());
    lemma_merge_all_permutation(parts_of(files_a), parts_of(files_b));
    lemma_collect_permutation(files_a, files_b, listing_of(limits));
    let listed_a = listed_of(files_a, limits);
    let listed_b = listed_of(files_b, limits);
    let scores = |p: (Seq<char>, Metrics)| p.1;
    lemma_map_permutation(listed_a, listed_b, scores);
    assert(listed_scores(listed_a) =~= listed_a.map_values(scores));
    assert(listed_scores(listed_b) =~= listed_b.map_values(scores));
    lemma_summary_rows_permutation(listed_scores(listed_a), listed_scores(listed_b), limits);
    // The ignored files.
    lemma_collect_permutation(files_a, files_b, ignoring_of());
    let path = |p: Seq<char>| p;
    lemma_collect_distinct(files_a, ignoring_of(), path);
    let ia = output_a.ignored_files@;
    let ib = output_b.ignored_files@;
    lemma_distinct_permutation(ignored_of(files_a), texts(ia), path);
    let text = |s: String| s@;
    let no_key = |s: String| 0u64;
    assert(texts(ia) =~= ia.map_values(text));
    assert(texts(ib) =~= ib.map_values(text));
    assert forall|i: int, j: int| 0 <= i < j < ia.len() implies may_precede(
        no_key(#[trigger] ia[i]),
        text(ia[i]),
        no_key(#[trigger] ia[j]),
        text(ia[j]),
    ) && text(ia[i]) != text(ia[j]) by {
        assert(row_precedes(ia[i], ia[j], by));
        assert(path(texts(ia)[i]) != path(texts(ia)[j]));
    }
    assert forall|i: int, j: int| 0 <= i < j < ib.len() implies may_precede(
        no_key(#[trigger] ib[i]),
        text(ib[i]),
        no_key(#[trigger] ib[j]),
        text(ib[j]),
    ) by {
        assert(row_precedes(ib[i], ib[j], by));
    }
    lemma_sorted_unique_by(ia, ib, text, no_key, text);
    // The listed files.
    let fa = output_a.files@;
    let fb = output_b.files@;
    let pair_name = |p: (Seq<char>, Metrics)| p.0;
    lemma_collect_distinct(files_a, listing_of(limits), pair_name);
    lemma_distinct_permutation(listed_a, listed_rows(fa), pair_name);
    let shown = |f: FileMetrics| (f.name@, f.metrics);
    let file_key = |f: FileMetrics| sort_key(f.metrics, by);
    let file_name = |f: FileMetrics| f.name@;
    assert(listed_rows(fa) =~= fa.map_values(shown));
    assert(listed_rows(fb) =~= fb.map_values(shown));
    assert forall|i: int, j: int| 0 <= i < j < fa.len() implies may_precede(
        file_key(#[trigger] fa[i]),
        file_name(fa[i]),
        file_key(#[trigger] fa[j]),
        file_name(fa[j]),
    ) && file_name(fa[i]) != file_name(fa[j]) by {
        assert(row_precedes(fa[i], fa[j], by));
        assert(pair_name(listed_rows(fa)[i]) != pair_name(listed_rows(fa)[j]));
    }
    assert forall|i: int, j: int| 0 <= i < j < fb.len() implies may_precede(
        file_key(#[trigger] fb[i]),
        file_name(fb[i]),
        file_key(#[trigger] fb[j]),
        file_name(fb[j]),
    ) by {
        assert(row_precedes(fb[i], fb[j], by));
    }
    lemma_sorted_unique_by(fa, fb, shown, file_key, file_name);
    assert(fa.len() == fa.map_values(shown).len());
    assert(fb.len() == fb.map_values(shown).len());
    files_a.to_multiset_ensures();
    files_b.to_multiset_ensures();
    assert forall|k: int| 0 <= k < fa.len() implies fa[k]@ == fb[k]@ by {
        assert(fa.map_values(shown)[k] == fb.map_values(shown)[k]);
        assert(fa[k].name@ == fb[k].name@ && fa[k].metrics == fb[k].metrics);
        let i = choose|i: int| 0 <= i < files_a.len() && stands_for(fa[k], files_a[i], mode, limits, by);
        let j = choose|j: int| 0 <= j < files_b.len() && stands_for(fb[k], files_b[j], mode, limits, by);
        let source = files_b[j];
        assert(files_b.contains(source));
        assert(files_b.to_multiset().count(source) > 0);
        assert(files_a.to_multiset().count(source) > 0);
        assert(files_a.contains(source));
        let m = choose|m: int| 0 <= m < files_a.len() && files_a[m] == source;
        assert(listing_of(limits)(files_a[i]).unwrap().0 == fa[k].name@);
        assert(listing_of(limits)(files_a[m]).unwrap().0 == fb[k].name@);
        assert(i == m);
        lemma_same_functions(fa[k], fb[k], files_a[i], mode, limits, by);
    }
    assert(file_views(fa) =~= file_views(fb));
}

/// Two rows that stand for one source file show the same functions in the
/// same order.
pub proof fn lemma_same_functions(
    a: FileMetrics,
    b: FileMetrics,
    source: SourceFile,
    mode: Mode,
    limits: MetricsThresholds,
    by: Sort,
)
    requires
        stands_for(a, source, mode, limits, by),
        stands_for(b, source, mode, limits, by),
    ensures
        a@.functions == b@.functions,
{
    if let Some(list_a) = a.functions {
        let list_b = b.functions.unwrap();
        let la = list_a@;
        let lb = list_b@;
        let rows = source.rows().unwrap();
        let (lines, root) = source.coverage.unwrap();
        lemma_spaces_distinct(root, lines@, lines@.len() as int);
        lemma_functions_collected(rows, limits);
        let name_of = |r: FunctionRow| r.name;
        assert forall|i: int, j: int|
            0 <= i < j < rows.len() && function_of(limits)(#[trigger] rows[i]).is_some()
                && function_of(limits)(#[trigger] rows[j]).is_some() implies name_of(
            function_of(limits)(rows[i]).unwrap(),
        ) != name_of(function_of(limits)(rows[j]).unwrap()) by {
            assert(rows[i].name != rows[j].name);
        }
        lemma_collect_distinct(rows, function_of(limits), name_of);
        lemma_distinct_permutation(function_rows(rows, limits), function_views(la), name_of);
        let row = |f: FunctionMetrics| f@;
        let key = |f: FunctionMetrics| sort_key(f.metrics, by);
        let name = |f: FunctionMetrics| f.name@;
        assert(function_views(la) =~= la.map_values(row));
        assert(function_views(lb) =~= lb.map_values(row));
        assert forall|i: int, j: int| 0 <= i < j < la.len() implies may_precede(
            key(#[trigger] la[i]),
            name(la[i]),
            key(#[trigger] la[j]),
            name(la[j]),
        ) && name(la[i]) != name(la[j]) by {
            assert(row_precedes(la[i], la[j], by));
            assert(name_of(function_views(la)[i]) != name_of(function_views(la)[j]));
        }
        assert forall|i: int, j: int| 0 <= i < j < lb.len() implies may_precede(
            key(#[trigger] lb[i]),
            name(lb[i]),
            key(#[trigger] lb[j]),
            name(lb[j]),
        ) by {
            assert(row_precedes(lb[i], lb[j], by));
        }
        lemma_sorted_unique_by(la, lb, row, key, name);
    }
}

} // verus!
