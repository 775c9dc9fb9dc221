//! The order of the output: the chosen score, highest first; rows with the
//! same score by name.

use vstd::prelude::*;
use vstd::string::*;
use vstd::multiset::Multiset;
use vstd::utf8::{encode_utf8, encode_utf8_decode_utf8};
use vstd::seq_lib::{to_multiset_build, to_multiset_remove};
use crate::metrics::Metrics;
use crate::options::Sort;
use crate::output::{file_content, function_views, FileMetrics, FunctionMetrics};
use crate::permutation::lemma_map_permutation;

verus! {

/// The first index from `from` on at which `a` and `b` differ or one of
/// them ends.
pub open spec fn first_difference(a: Seq<u8>, b: Seq<u8>, from: int) -> int
    decreases a.len() - from,
{
    if from < 0 || from >= a.len() || from >= b.len() || a[from] != b[from] {
        from
    } else {
        first_difference(a, b, from + 1)
    }
}

/// `a` comes no later than `b` in the order of a dictionary.
pub open spec fn bytes_le(a: Seq<u8>, b: Seq<u8>) -> bool {
    let k = first_difference(a, b, 0);
    k == a.len() || (k < b.len() && a[k] < b[k])
}

/// The name `a` comes no later than the name `b`: the order of their UTF-8
/// encodings, which is the order of `str`.
pub open spec fn name_le(a: Seq<char>, b: Seq<char>) -> bool {
    bytes_le(encode_utf8(a), encode_utf8(b))
}

/// The score of a row by which the output is sorted.
pub open spec fn sort_key(metrics: Metrics, by: Sort) -> u64 {
    match by {
        Sort::Wcc => metrics.cyclomatic.wcc,
        Sort::Crap => metrics.cyclomatic.crap,
        Sort::Skunk => metrics.cyclomatic.skunk,
    }
}

/// A row with the score `a` and the name `a_name` may stand before one
/// with `b` and `b_name`: its score is higher, or the same and its name
/// comes no later.
pub open spec fn may_precede(a: u64, a_name: Seq<char>, b: u64, b_name: Seq<char>) -> bool {
    a > b || (a == b && name_le(a_name, b_name))
}

/// Up to the first difference two sequences agree, and there they differ
/// unless one of them ends.
pub proof fn lemma_first_difference(a: Seq<u8>, b: Seq<u8>, from: int)
    requires
        0 <= from <= a.len(),
        from <= b.len(),
    ensures
        from <= first_difference(a, b, from) <= a.len(),
        first_difference(a, b, from) <= b.len(),
        forall|i: int| from <= i < first_difference(a, b, from) ==> a[i] == b[i],
        first_difference(a, b, from) < a.len() && first_difference(a, b, from) < b.len() ==> a[first_difference(
            a,
            b,
            from,
        )] != b[first_difference(a, b, from)],
    decreases a.len() - from,
{
    if from < a.len() && from < b.len() && a[from] == b[from] {
        lemma_first_difference(a, b, from + 1);
    }
}

/// Of two sequences one comes no later than the other.
pub proof fn lemma_bytes_le_total(a: Seq<u8>, b: Seq<u8>)
    ensures
        bytes_le(a, b) || bytes_le(b, a),
{
    lemma_first_difference(a, b, 0);
    lemma_first_difference(b, a, 0);
    let k = first_difference(a, b, 0);
    let m = first_difference(b, a, 0);
    if k < m {
        assert(b[k] == a[k]);
    } else if m < k {
        assert(a[m] == b[m]);
    }
}

/// The order of a dictionary is transitive.
pub proof fn lemma_bytes_le_transitive(a: Seq<u8>, b: Seq<u8>, c: Seq<u8>)
    requires
        bytes_le(a, b),
        bytes_le(b, c),
    ensures
        bytes_le(a, c),
{
    lemma_first_difference(a, b, 0);
    lemma_first_difference(b, c, 0);
    lemma_first_difference(a, c, 0);
    let k1 = first_difference(a, b, 0);
    let k2 = first_difference(b, c, 0);
    let k3 = first_difference(a, c, 0);
    let low = if k1 <= k2 { k1 } else { k2 };
    if k3 < low {
        assert(a[k3] == b[k3]);
        assert(b[k3] == c[k3]);
    } else if k3 > low {
        assert(a[low] == c[low]);
        if k1 < k2 {
            assert(b[low] == c[low]);
        } else if k2 < k1 {
            assert(a[low] == b[low]);
        }
    } else {
        if k1 < k2 {
            assert(b[low] == c[low]);
        } else if k2 < k1 {
            assert(a[low] == b[low]);
        }
    }
}

/// Two sequences of which each comes no later than the other are equal.
pub proof fn lemma_bytes_le_antisymmetric(a: Seq<u8>, b: Seq<u8>)
    requires
        bytes_le(a, b),
        bytes_le(b, a),
    ensures
        a == b,
{
    lemma_first_difference(a, b, 0);
    lemma_first_difference(b, a, 0);
    let k = first_difference(a, b, 0);
    let m = first_difference(b, a, 0);
    if k < m {
        assert(b[k] == a[k]);
    } else if m < k {
        assert(a[m] == b[m]);
    }
    assert(a =~= b);
}

/// Two names of which each comes no later than the other are equal.
pub proof fn lemma_name_le_antisymmetric(a: Seq<char>, b: Seq<char>)
    requires
        name_le(a, b),
        name_le(b, a),
    ensures
        a == b,
{
    lemma_bytes_le_antisymmetric(encode_utf8(a), encode_utf8(b));
    encode_utf8_decode_utf8(a);
    encode_utf8_decode_utf8(b);
}

/// Of two rows one may stand before the other, and a row before itself.
pub proof fn lemma_may_precede_total(a: u64, a_name: Seq<char>, b: u64, b_name: Seq<char>)
    ensures
        may_precede(a, a_name, b, b_name) || may_precede(b, b_name, a, a_name),
        may_precede(a, a_name, a, a_name),
{
    lemma_bytes_le_total(encode_utf8(a_name), encode_utf8(b_name));
    lemma_bytes_le_total(encode_utf8(a_name), encode_utf8(a_name));
}

/// If `a` may stand before `b` and `b` before `c`, then `a` before `c`.
pub proof fn lemma_may_precede_transitive(
    a: u64,
    a_name: Seq<char>,
    b: u64,
    b_name: Seq<char>,
    c: u64,
    c_name: Seq<char>,
)
    requires
        may_precede(a, a_name, b, b_name),
        may_precede(b, b_name, c, c_name),
    ensures
        may_precede(a, a_name, c, c_name),
{
    if a == b && b == c {
        lemma_bytes_le_transitive(encode_utf8(a_name), encode_utf8(b_name), encode_utf8(c_name));
    }
}

/// Whether the name `a` comes no later than the name `b`.
pub fn name_comes_first(a: &str, b: &str) -> (yes: bool)
    ensures
        yes == name_le(a@, b@),
{
    let x = a.as_bytes();
    let y = b.as_bytes();
    let mut i: usize = 0;
    while i < x.len() && i < y.len() && x[i] == y[i]
        invariant
            i <= x@.len(),
            i <= y@.len(),
            first_difference(x@, y@, 0) == first_difference(x@, y@, i as int),
        decreases x@.len() - i,
    {
        i += 1;
    }
    i == x.len() || (i < y.len() && x[i] < y[i])
}

/// The score of a row by which the output is sorted.
pub fn get_sort_key(metrics: &Metrics, by: Sort) -> (key: u64)
    ensures
        key == sort_key(*metrics, by),
{
    match by {
        Sort::Wcc => metrics.cyclomatic.wcc,
        Sort::Crap => metrics.cyclomatic.crap,
        Sort::Skunk => metrics.cyclomatic.skunk,
    }
}

/// A row of the output: it has a name and, for each sort key, a score.
pub trait Ranked: Sized {
    /// The name of the row.
    spec fn row_name(&self) -> Seq<char>;

    /// The score of the row for a sort key.
    spec fn row_key(&self, by: Sort) -> u64;

    /// The name of the row.
    fn name_text(&self) -> (name: &str)
        ensures
            name@ == self.row_name(),
    ;

    /// The score of the row for a sort key.
    fn key(&self, by: Sort) -> (key: u64)
        ensures
            key == self.row_key(by),
    ;
}

/// A bare name has no score: names are sorted by name alone.
impl Ranked for String {
    open spec fn row_name(&self) -> Seq<char> {
        self@
    }

    open spec fn row_key(&self, by: Sort) -> u64 {
        0
    }

    fn name_text(&self) -> (name: &str) {
        self.as_str()
    }

    fn key(&self, by: Sort) -> (key: u64) {
        0
    }
}

impl Ranked for FunctionMetrics {
    open spec fn row_name(&self) -> Seq<char> {
        self.name@
    }

    open spec fn row_key(&self, by: Sort) -> u64 {
        sort_key(self.metrics, by)
    }

    fn name_text(&self) -> (name: &str) {
        self.name.as_str()
    }

    fn key(&self, by: Sort) -> (key: u64) {
        get_sort_key(&self.metrics, by)
    }
}

impl Ranked for FileMetrics {
    open spec fn row_name(&self) -> Seq<char> {
        self.name@
    }

    open spec fn row_key(&self, by: Sort) -> u64 {
        sort_key(self.metrics, by)
    }

    fn name_text(&self) -> (name: &str) {
        self.name.as_str()
    }

    fn key(&self, by: Sort) -> (key: u64) {
        get_sort_key(&self.metrics, by)
    }
}

/// The row `a` may stand before the row `b`.
pub open spec fn row_precedes<T: Ranked>(a: T, b: T, by: Sort) -> bool {
    may_precede(a.row_key(by), a.row_name(), b.row_key(by), b.row_name())
}

/// Every row may stand before all that follow it.
pub open spec fn sorted_by<T: Ranked>(rows: Seq<T>, by: Sort) -> bool {
    forall|i: int, j: int| 0 <= i < j < rows.len() ==> row_precedes(rows[i], rows[j], by)
}

/// No name occurs in two rows.
pub open spec fn distinct_names<T: Ranked>(rows: Seq<T>) -> bool {
    forall|i: int, j: int|
        0 <= i < j < rows.len() ==> (#[trigger] rows[i]).row_name() != (#[trigger] rows[j]).row_name()
}

/// Rows with distinct names have one sorted order only: however the rows
/// come in, the sorted output is the same.
pub proof fn lemma_sorted_unique<T: Ranked>(a: Seq<T>, b: Seq<T>, by: Sort)
    requires
        sorted_by(a, by),
        sorted_by(b, by),
        a.to_multiset() == b.to_multiset(),
        distinct_names(a),
    ensures
        a == b,
    decreases a.len(),
{
    broadcast use vstd::multiset::group_multiset_axioms;

    a.to_multiset_ensures();
    b.to_multiset_ensures();
    vstd::seq_lib::to_multiset_len(a);
    vstd::seq_lib::to_multiset_len(b);
    if a.len() == 0 {
        assert(a =~= b);
    } else {
        let x = a[0];
        let y = b[0];
        assert(b.contains(y));
        assert(b.to_multiset().count(y) > 0);
        assert(a.contains(y));
        let j = choose|j: int| 0 <= j < a.len() && a[j] == y;
        assert(a.contains(x));
        assert(a.to_multiset().count(x) > 0);
        assert(b.contains(x));
        let m = choose|m: int| 0 <= m < b.len() && b[m] == x;
        if j > 0 {
            assert(row_precedes(a[0], a[j], by));
            if m > 0 {
                assert(row_precedes(b[0], b[m], by));
            }
            lemma_name_le_antisymmetric(x.row_name(), y.row_name());
            assert(a[0].row_name() != a[j].row_name());
        }
        assert(x == y);
        let a1 = a.remove(0);
        let b1 = b.remove(0);
        to_multiset_remove(a, 0);
        to_multiset_remove(b, 0);
        assert forall|i: int, k: int| 0 <= i < k < a1.len() implies row_precedes(
            a1[i],
            a1[k],
            by,
        ) by {
            assert(a1[i] == a[i + 1] && a1[k] == a[k + 1]);
        }
        assert forall|i: int, k: int| 0 <= i < k < b1.len() implies row_precedes(
            b1[i],
            b1[k],
            by,
        ) by {
            assert(b1[i] == b[i + 1] && b1[k] == b[k + 1]);
        }
        assert forall|i: int, k: int| 0 <= i < k < a1.len() implies (#[trigger] a1[i]).row_name()
            != (#[trigger] a1[k]).row_name() by {
            assert(a1[i] == a[i + 1] && a1[k] == a[k + 1]);
        }
        lemma_sorted_unique(a1, b1, by);
        assert forall|i: int| 0 <= i < a.len() implies a[i] == b[i] by {
            if i > 0 {
                assert(a1[i - 1] == a[i]);
                assert(b1[i - 1] == b[i]);
            }
        }
        assert(a =~= b);
    }
}

/// The functions of every file are sorted.
pub open spec fn functions_sorted(files: Seq<FileMetrics>, by: Sort) -> bool {
    forall|k: int|
        0 <= k < files.len() ==> ((#[trigger] files[k]).functions matches Some(list)
            ==> sorted_by(list@, by))
}

/// Items that are sorted by score and name, and of which no two share a
/// name, show the same in the same order, however they came in. `view` is
/// what an item shows; score and name are part of it.
pub proof fn lemma_sorted_unique_by<A, V>(
    a: Seq<A>,
    b: Seq<A>,
    view: spec_fn(A) -> V,
    key: spec_fn(A) -> u64,
    name: spec_fn(A) -> Seq<char>,
)
    requires
        a.map_values(view).to_multiset() == b.map_values(view).to_multiset(),
        forall|x: A, y: A|
            #[trigger] view(x) == #[trigger] view(y) ==> key(x) == key(y) && name(x) == name(y),
        forall|i: int, j: int|
            0 <= i < j < a.len() ==> may_precede(
                key(#[trigger] a[i]),
                name(a[i]),
                key(#[trigger] a[j]),
                name(a[j]),
            ),
        forall|i: int, j: int|
            0 <= i < j < b.len() ==> may_precede(
                key(#[trigger] b[i]),
                name(b[i]),
                key(#[trigger] b[j]),
                name(b[j]),
            ),
        forall|i: int, j: int| 0 <= i < j < a.len() ==> name(#[trigger] a[i]) != name(#[trigger] a[j]),
    ensures
        a.map_values(view) == b.map_values(view),
    decreases a.len(),
{
    broadcast use vstd::multiset::group_multiset_axioms;

    let va = a.map_values(view);
    let vb = b.map_values(view);
    va.to_multiset_ensures();
    vb.to_multiset_ensures();
    vstd::seq_lib::to_multiset_len(va);
    vstd::seq_lib::to_multiset_len(vb);
    if a.len() == 0 {
        assert(va =~= vb);
    } else {
        assert(vb.contains(vb[0]));
        assert(vb.to_multiset().count(vb[0]) > 0);
        assert(va.contains(vb[0]));
        let j = choose|j: int| 0 <= j < va.len() && va[j] == vb[0];
        assert(va.contains(va[0]));
        assert(va.to_multiset().count(va[0]) > 0);
        assert(vb.contains(va[0]));
        let m = choose|m: int| 0 <= m < vb.len() && vb[m] == va[0];
        assert(view(a[j]) == view(b[0]));
        assert(view(b[m]) == view(a[0]));
        if j > 0 {
            assert(may_precede(key(a[0]), name(a[0]), key(a[j]), name(a[j])));
            if m > 0 {
                assert(may_precede(key(b[0]), name(b[0]), key(b[m]), name(b[m])));
            }
            lemma_name_le_antisymmetric(name(a[0]), name(a[j]));
            assert(name(a[0]) != name(a[j]));
        }
        assert(va[0] == vb[0]);
        let a1 = a.remove(0);
        let b1 = b.remove(0);
        to_multiset_remove(va, 0);
        to_multiset_remove(vb, 0);
        assert(a1.map_values(view) =~= va.remove(0));
        assert(b1.map_values(view) =~= vb.remove(0));
        assert forall|i: int, k: int| 0 <= i < k < a1.len() implies may_precede(
            key(#[trigger] a1[i]),
            name(a1[i]),
            key(#[trigger] a1[k]),
            name(a1[k]),
        ) && name(a1[i]) != name(a1[k]) by {
            assert(a1[i] == a[i + 1] && a1[k] == a[k + 1]);
        }
        assert forall|i: int, k: int| 0 <= i < k < b1.len() implies may_precede(
            key(#[trigger] b1[i]),
            name(b1[i]),
            key(#[trigger] b1[k]),
            name(b1[k]),
        ) by {
            assert(b1[i] == b[i + 1] && b1[k] == b[k + 1]);
        }
        lemma_sorted_unique_by(a1, b1, view, key, name);
        assert forall|i: int| 0 <= i < va.len() implies va[i] == vb[i] by {
            if i > 0 {
                assert(a1.map_values(view)[i - 1] == va[i]);
                assert(b1.map_values(view)[i - 1] == vb[i]);
            }
        }
        assert(va =~= vb);
    }
}

/// Whether the row `a` may stand before the row `b`.
fn precedes<T: Ranked>(a: &T, b: &T, by: Sort) -> (yes: bool)
    ensures
        yes == row_precedes(*a, *b, by),
{
    let x = a.key(by);
    let y = b.key(by);
    x > y || (x == y && name_comes_first(a.name_text(), b.name_text()))
}

/// The index of a row that may stand before all others.
fn first_row<T: Ranked>(rows: &Vec<T>, by: Sort) -> (best: usize)
    requires
        rows@.len() > 0,
    ensures
        best < rows@.len(),
        forall|j: int| 0 <= j < rows@.len() ==> row_precedes(rows@[best as int], #[trigger] rows@[j], by),
{
    let mut best: usize = 0;
    let mut j: usize = 1;
    proof {
        lemma_may_precede_total(
            rows@[0].row_key(by),
            rows@[0].row_name(),
            rows@[0].row_key(by),
            rows@[0].row_name(),
        );
    }
    while j < rows.len()
        invariant
            best < j <= rows@.len(),
            forall|k: int| 0 <= k < j ==> row_precedes(rows@[best as int], #[trigger] rows@[k], by),
        decreases rows@.len() - j,
    {
        if !precedes(&rows[best], &rows[j], by) {
            proof {
                let new = rows@[j as int];
                let old_best = rows@[best as int];
                lemma_may_precede_total(
                    new.row_key(by),
                    new.row_name(),
                    old_best.row_key(by),
                    old_best.row_name(),
                );
                assert forall|k: int| 0 <= k < j + 1 implies row_precedes(
                    new,
                    #[trigger] rows@[k],
                    by,
                ) by {
                    if k < j {
                        lemma_may_precede_transitive(
                            new.row_key(by),
                            new.row_name(),
                            old_best.row_key(by),
                            old_best.row_name(),
                            rows@[k].row_key(by),
                            rows@[k].row_name(),
                        );
                    }
                }
            }
            best = j;
        }
        j += 1;
    }
    best
}

/// Sorts the rows by the chosen score, highest first, and rows with the
/// same score by name. No row is lost and none is added.
pub fn sort_rows<T: Ranked>(rows: &mut Vec<T>, by: Sort)
    ensures
        sorted_by(final(rows)@, by),
        final(rows)@.to_multiset() == old(rows)@.to_multiset(),
{
    broadcast use vstd::multiset::group_multiset_axioms;

    let ghost start = rows@;
    let mut sorted: Vec<T> = Vec::new();
    proof {
        sorted@.to_multiset_ensures();
        assert(sorted@.to_multiset() =~= Multiset::<T>::empty());
        assert(sorted@.to_multiset().add(rows@.to_multiset()) =~= start.to_multiset());
    }
    while rows.len() > 0
        invariant
            sorted_by(sorted@, by),
            forall|i: int, j: int|
                0 <= i < sorted@.len() && 0 <= j < rows@.len() ==> row_precedes(
                    #[trigger] sorted@[i],
                    #[trigger] rows@[j],
                    by,
                ),
            sorted@.to_multiset().add(rows@.to_multiset()) == start.to_multiset(),
        decreases rows@.len(),
    {
        let best = first_row(rows, by);
        let ghost before = rows@;
        let ghost done = sorted@;
        let row = rows.remove(best);
        sorted.push(row);
        proof {
            assert(rows@ == before.remove(best as int));
            to_multiset_remove(before, best as int);
            to_multiset_build(done, row);
            assert(before.contains(row));
            before.to_multiset_ensures();
            assert(before.to_multiset().count(row) > 0);
            assert(before.to_multiset() =~= rows@.to_multiset().insert(row));
            assert(sorted@.to_multiset() =~= done.to_multiset().insert(row));
            assert(sorted@.to_multiset().add(rows@.to_multiset()) =~= done.to_multiset().add(
                before.to_multiset(),
            ));
            assert forall|i: int, j: int|
                0 <= i < sorted@.len() && 0 <= j < rows@.len() implies row_precedes(
                #[trigger] sorted@[i],
                #[trigger] rows@[j],
                by,
            ) by {
                let at = if j < best { j } else { j + 1 };
                assert(rows@[j] == before[at]);
                if i < done.len() {
                    assert(sorted@[i] == done[i]);
                }
            }
            assert forall|i: int, j: int| 0 <= i < j < sorted@.len() implies row_precedes(
                sorted@[i],
                sorted@[j],
                by,
            ) by {
                if j < done.len() {
                    assert(sorted@[i] == done[i] && sorted@[j] == done[j]);
                } else {
                    assert(sorted@[i] == done[i]);
                    assert(sorted@[j] == before[best as int]);
                }
            }
        }
    }
    proof {
        rows@.to_multiset_ensures();
        assert(rows@.to_multiset() =~= Multiset::<T>::empty());
        assert(sorted@.to_multiset().add(rows@.to_multiset()) =~= sorted@.to_multiset());
    }
    *rows = sorted;
}

impl FileMetrics {
    /// The file with its functions sorted by the chosen score, highest
    /// first, and functions with the same score by name.
    pub fn sort_functions(self, by: Sort) -> (file: FileMetrics)
        ensures
            file.name == self.name,
            file.metrics == self.metrics,
            match self.functions {
                None => file.functions.is_none(),
                Some(list) => {
                    &&& file.functions matches Some(sorted)
                    &&& sorted_by(file.functions.unwrap()@, by)
                    &&& file.functions.unwrap()@.to_multiset() == list@.to_multiset()
                },
            },
            file_content(file) == file_content(self),
    {
        let FileMetrics { name, metrics, functions } = self;
        let functions = match functions {
            None => None,
            Some(list) => {
                let mut list = list;
                let ghost unsorted = list@;
                sort_rows(&mut list, by);
                proof {
                    let row = |f: FunctionMetrics| f@;
                    lemma_map_permutation(list@, unsorted, row);
                    assert(function_views(list@) =~= list@.map_values(row));
                    assert(function_views(unsorted) =~= unsorted.map_values(row));
                }
                Some(list)
            },
        };
        FileMetrics { name, metrics, functions }
    }
}

} // verus!
