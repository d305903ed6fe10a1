//! Path sets and the tree-level difference report.
//!
//! A tree is enumerated (outside this library) into an ordered set of
//! relative paths, held as a vector of path strings.  This module computes
//! the set-level differences between two such enumerations, and aggregates
//! the per-path comparisons of the common paths into the final report.

use vstd::prelude::*;
use crate::comparator::FileType;
use crate::comparator::EntryView;
use crate::comparator::entries_identical;
use crate::comparator::entry_diffs;
use crate::comparator::compare_files;
use crate::comparator::pairs_view;
use crate::comparator::lemma_identical_entry;
use crate::comparator::lemma_detection_symmetric;

verus! {

/// The views of a sequence of path strings.
pub open spec fn path_views(s: Seq<String>) -> Seq<Seq<char>> {
    s.map_values(|p: String| p@)
}

/// The paths of `a` that do not occur in `b`, in the order of `a`.
pub open spec fn path_difference(a: Seq<Seq<char>>, b: Seq<Seq<char>>) -> Seq<Seq<char>>
    decreases a.len(),
{
    if a.len() == 0 {
        Seq::empty()
    } else {
        let rest = path_difference(a.drop_last(), b);
        if b.contains(a.last()) {
            rest
        } else {
            rest.push(a.last())
        }
    }
}

/// The paths of `a` that also occur in `b`, in the order of `a`.
pub open spec fn path_intersection(a: Seq<Seq<char>>, b: Seq<Seq<char>>) -> Seq<Seq<char>>
    decreases a.len(),
{
    if a.len() == 0 {
        Seq::empty()
    } else {
        let rest = path_intersection(a.drop_last(), b);
        if b.contains(a.last()) {
            rest.push(a.last())
        } else {
            rest
        }
    }
}

/// Whether a path occurs in a path set.
pub fn contains_path(set: &Vec<String>, path: &String) -> (r: bool)
    ensures
        r == path_views(set@).contains(path@),
{
    let mut i: usize = 0;
    while i < set.len()
        invariant
            i <= set@.len(),
            forall|j: int| 0 <= j < i ==> set@[j]@ != path@,
        decreases set@.len() - i,
    {
        if set[i].eq(path) {
            proof {
                assert(path_views(set@)[i as int] == path@);
            }
            return true;
        }
        i += 1;
    }
    proof {
        assert forall|k: int| 0 <= k < path_views(set@).len() implies path_views(set@)[k]
            != path@ by {
            assert(path_views(set@)[k] == set@[k]@);
        }
    }
    false
}

/// The paths present in the first set but not in the second, in the first
/// set's order.
pub fn symmetric_difference(first: &Vec<String>, second: &Vec<String>) -> (r: Vec<String>)
    ensures
        path_views(r@) == path_difference(path_views(first@), path_views(second@)),
{
    let mut ret: Vec<String> = Vec::new();
    let mut i: usize = 0;
    while i < first.len()
        invariant
            i <= first@.len(),
            path_views(ret@) =~= path_difference(
                path_views(first@.take(i as int)),
                path_views(second@),
            ),
        decreases first@.len() - i,
    {
        let ghost prefix = path_views(first@.take(i as int));
        let ghost next = path_views(first@.take(i as int + 1));
        proof {
            assert(next.drop_last() =~= prefix);
            assert(next.last() == first@[i as int]@);
        }
        let absent = !contains_path(second, &first[i]);
        if absent {
            let ghost before = ret@;
            ret.push(first[i].clone());
            proof {
                assert(path_views(ret@) =~= path_views(before).push(first@[i as int]@));
            }
        }
        proof {
            assert(path_views(ret@) =~= path_difference(next, path_views(second@)));
        }
        i += 1;
    }
    proof {
        assert(first@.take(first@.len() as int) =~= first@);
    }
    ret
}

/// The paths present in both sets, in the first set's order.
pub fn intersection(first: &Vec<String>, second: &Vec<String>) -> (r: Vec<String>)
    ensures
        path_views(r@) == path_intersection(path_views(first@), path_views(second@)),
{
    let mut ret: Vec<String> = Vec::new();
    let mut i: usize = 0;
    while i < first.len()
        invariant
            i <= first@.len(),
            path_views(ret@) =~= path_intersection(
                path_views(first@.take(i as int)),
                path_views(second@),
            ),
        decreases first@.len() - i,
    {
        let ghost prefix = path_views(first@.take(i as int));
        let ghost next = path_views(first@.take(i as int + 1));
        proof {
            assert(next.drop_last() =~= prefix);
            assert(next.last() == first@[i as int]@);
        }
        let present = contains_path(second, &first[i]);
        if present {
            let ghost before = ret@;
            ret.push(first[i].clone());
            proof {
                assert(path_views(ret@) =~= path_views(before).push(first@[i as int]@));
            }
        }
        proof {
            assert(path_views(ret@) =~= path_intersection(next, path_views(second@)));
        }
        i += 1;
    }
    proof {
        assert(first@.take(first@.len() as int) =~= first@);
    }
    ret
}

/// The two entries found at one common relative path, with the byte
/// contents that take part when both entries are regular files.
pub struct ComparedPair {
    pub path: String,
    pub original: FileType,
    pub new_entry: FileType,
    pub original_content: Vec<u8>,
    pub new_content: Vec<u8>,
}

/// Mathematical view of a compared pair.
pub ghost struct ComparedPairView {
    pub path: Seq<char>,
    pub original: EntryView,
    pub new_entry: EntryView,
    pub original_content: Seq<u8>,
    pub new_content: Seq<u8>,
}

impl View for ComparedPair {
    type V = ComparedPairView;

    open spec fn view(&self) -> ComparedPairView {
        ComparedPairView {
            path: self.path@,
            original: self.original@,
            new_entry: self.new_entry@,
            original_content: self.original_content@,
            new_content: self.new_content@,
        }
    }
}

/// The report for one common path that is not identical in the two trees.
pub struct PathDifference {
    pub name: String,
    pub differences: Vec<(String, String)>,
}

impl View for PathDifference {
    type V = (Seq<char>, Seq<(Seq<char>, Seq<char>)>);

    open spec fn view(&self) -> (Seq<char>, Seq<(Seq<char>, Seq<char>)>) {
        (self.name@, pairs_view(self.differences@))
    }
}

/// The views of a sequence of compared pairs.
pub open spec fn compared_views(s: Seq<ComparedPair>) -> Seq<ComparedPairView> {
    s.map_values(|p: ComparedPair| p@)
}

/// The views of a sequence of per-path reports.
pub open spec fn report_views(s: Seq<PathDifference>) -> Seq<
    (Seq<char>, Seq<(Seq<char>, Seq<char>)>),
> {
    s.map_values(|d: PathDifference| d@)
}

/// Whether the two entries of a compared pair are identical.
pub open spec fn pair_identical(p: ComparedPairView) -> bool {
    entries_identical(p.original, p.new_entry, p.original_content == p.new_content)
}

/// The report entry of one compared pair: its path and its itemized field
/// differences.
pub open spec fn pair_report(p: ComparedPairView) -> (Seq<char>, Seq<(Seq<char>, Seq<char>)>) {
    (p.path, entry_diffs(p.original, p.new_entry, p.original_content == p.new_content))
}

/// The aggregated report of a sequence of compared pairs: one entry per
/// pair that is not identical, in input order; identical pairs are omitted
/// entirely.
pub open spec fn difference_report(items: Seq<ComparedPairView>) -> Seq<
    (Seq<char>, Seq<(Seq<char>, Seq<char>)>),
>
    decreases items.len(),
{
    if items.len() == 0 {
        Seq::empty()
    } else {
        let rest = difference_report(items.drop_last());
        if pair_identical(items.last()) {
            rest
        } else {
            rest.push(pair_report(items.last()))
        }
    }
}

/// Compare every pair and keep a report entry for each one that is not
/// identical, in input order.
pub fn collect_differences(items: &Vec<ComparedPair>) -> (r: Vec<PathDifference>)
    ensures
        report_views(r@) == difference_report(compared_views(items@)),
{
    let mut ret: Vec<PathDifference> = Vec::new();
    let mut i: usize = 0;
    while i < items.len()
        invariant
            i <= items@.len(),
            report_views(ret@) =~= difference_report(compared_views(items@.take(i as int))),
        decreases items@.len() - i,
    {
        let ghost prefix = compared_views(items@.take(i as int));
        let ghost next = compared_views(items@.take(i as int + 1));
        proof {
            assert(next.drop_last() =~= prefix);
            assert(next.last() == items@[i as int]@);
        }
        let item = &items[i];
        let (identical, differences) = compare_files(
            &item.original,
            &item.new_entry,
            &item.original_content,
            &item.new_content,
        );
        if !identical {
            let ghost before = ret@;
            ret.push(PathDifference { name: item.path.clone(), differences });
            proof {
                assert(report_views(ret@) =~= report_views(before).push(
                    pair_report(items@[i as int]@),
                ));
            }
        }
        proof {
            assert(report_views(ret@) =~= difference_report(next));
        }
        i += 1;
    }
    proof {
        assert(items@.take(items@.len() as int) =~= items@);
    }
    ret
}

/// A path occurs in the difference of two sets exactly when it occurs in
/// the first and not in the second.
pub proof fn lemma_difference_membership(a: Seq<Seq<char>>, b: Seq<Seq<char>>)
    ensures
        forall|v: Seq<char>|
            #[trigger] path_difference(a, b).contains(v) <==> a.contains(v) && !b.contains(v),
    decreases a.len(),
{
    if a.len() == 0 {
    } else {
        let al = a.drop_last();
        lemma_difference_membership(al, b);
        assert forall|v: Seq<char>|
            #[trigger] path_difference(a, b).contains(v) <==> a.contains(v) && !b.contains(
                v,
            ) by {
            let d = path_difference(a, b);
            let dl = path_difference(al, b);
            if d.contains(v) {
                let k = choose|k: int| 0 <= k < d.len() && d[k] == v;
                if b.contains(a.last()) || k < d.len() - 1 {
                    assert(dl[k] == v);
                    assert(dl.contains(v));
                    let j = choose|j: int| 0 <= j < al.len() && al[j] == v;
                    assert(a[j] == v);
                } else {
                    assert(v == a.last());
                    assert(a[a.len() - 1] == v);
                }
            }
            if a.contains(v) && !b.contains(v) {
                let k = choose|k: int| 0 <= k < a.len() && a[k] == v;
                if k < a.len() - 1 {
                    assert(al[k] == v);
                    assert(al.contains(v));
                    assert(dl.contains(v));
                    let j = choose|j: int| 0 <= j < dl.len() && dl[j] == v;
                    if b.contains(a.last()) {
                        assert(d[j] == v);
                    } else {
                        assert(d == dl.push(a.last()));
                        assert(d[j] == v);
                    }
                } else {
                    assert(v == a.last());
                    assert(d.last() == v);
                    assert(d[d.len() - 1] == v);
                }
            }
        }
    }
}

/// A path occurs in the intersection of two sets exactly when it occurs in
/// both.
pub proof fn lemma_intersection_membership(a: Seq<Seq<char>>, b: Seq<Seq<char>>)
    ensures
        forall|v: Seq<char>|
            #[trigger] path_intersection(a, b).contains(v) <==> a.contains(v) && b.contains(v),
    decreases a.len(),
{
    if a.len() == 0 {
    } else {
        let al = a.drop_last();
        lemma_intersection_membership(al, b);
        assert forall|v: Seq<char>|
            #[trigger] path_intersection(a, b).contains(v) <==> a.contains(v) && b.contains(
                v,
            ) by {
            let d = path_intersection(a, b);
            let dl = path_intersection(al, b);
            if d.contains(v) {
                let k = choose|k: int| 0 <= k < d.len() && d[k] == v;
                if !b.contains(a.last()) || k < d.len() - 1 {
                    assert(dl[k] == v);
                    assert(dl.contains(v));
                    let j = choose|j: int| 0 <= j < al.len() && al[j] == v;
                    assert(a[j] == v);
                } else {
                    assert(v == a.last());
                    assert(a[a.len() - 1] == v);
                }
            }
            if a.contains(v) && b.contains(v) {
                let k = choose|k: int| 0 <= k < a.len() && a[k] == v;
                if k < a.len() - 1 {
                    assert(al[k] == v);
                    assert(al.contains(v));
                    assert(dl.contains(v));
                    let j = choose|j: int| 0 <= j < dl.len() && dl[j] == v;
                    if !b.contains(a.last()) {
                        assert(d[j] == v);
                    } else {
                        assert(d == dl.push(a.last()));
                        assert(d[j] == v);
                    }
                } else {
                    assert(v == a.last());
                    assert(d.last() == v);
                    assert(d[d.len() - 1] == v);
                }
            }
        }
    }
}

/// The difference of a duplicate-free path set is itself a genuine set:
/// no path is listed twice.
pub proof fn lemma_difference_no_duplicates(a: Seq<Seq<char>>, b: Seq<Seq<char>>)
    requires
        a.no_duplicates(),
    ensures
        path_difference(a, b).no_duplicates(),
    decreases a.len(),
{
    if a.len() > 0 {
        let al = a.drop_last();
        assert(al.no_duplicates());
        lemma_difference_no_duplicates(al, b);
        lemma_difference_membership(al, b);
        if !b.contains(a.last()) {
            let dl = path_difference(al, b);
            assert(!al.contains(a.last())) by {
                if al.contains(a.last()) {
                    let k = choose|k: int| 0 <= k < al.len() && al[k] == a.last();
                    assert(a[k] == a[a.len() - 1]);
                }
            }
            assert(!dl.contains(a.last()));
            let d = dl.push(a.last());
            assert forall|i: int, j: int|
                0 <= i < d.len() && 0 <= j < d.len() && i != j implies d[i] != d[j] by {
                if i < d.len() - 1 && j < d.len() - 1 {
                    assert(d[i] == dl[i] && d[j] == dl[j]);
                } else if j == d.len() - 1 {
                    assert(d[i] == dl[i] && dl.contains(dl[i]));
                } else {
                    assert(d[j] == dl[j] && dl.contains(dl[j]));
                }
            }
        }
    }
}

/// The intersection of a duplicate-free path set with another is itself a
/// genuine set: no path is listed twice.
pub proof fn lemma_intersection_no_duplicates(a: Seq<Seq<char>>, b: Seq<Seq<char>>)
    requires
        a.no_duplicates(),
    ensures
        path_intersection(a, b).no_duplicates(),
    decreases a.len(),
{
    if a.len() > 0 {
        let al = a.drop_last();
        assert(al.no_duplicates());
        lemma_intersection_no_duplicates(al, b);
        lemma_intersection_membership(al, b);
        if b.contains(a.last()) {
            let dl = path_intersection(al, b);
            assert(!al.contains(a.last())) by {
                if al.contains(a.last()) {
                    let k = choose|k: int| 0 <= k < al.len() && al[k] == a.last();
                    assert(a[k] == a[a.len() - 1]);
                }
            }
            assert(!dl.contains(a.last()));
            let d = dl.push(a.last());
            assert forall|i: int, j: int|
                0 <= i < d.len() && 0 <= j < d.len() && i != j implies d[i] != d[j] by {
                if i < d.len() - 1 && j < d.len() - 1 {
                    assert(d[i] == dl[i] && d[j] == dl[j]);
                } else if j == d.len() - 1 {
                    assert(d[i] == dl[i] && dl.contains(dl[i]));
                } else {
                    assert(d[j] == dl[j] && dl.contains(dl[j]));
                }
            }
        }
    }
}

/// The deleted paths, the added paths and the common paths of two trees
/// are pairwise disjoint.
pub proof fn lemma_difference_sets_disjoint(a: Seq<Seq<char>>, b: Seq<Seq<char>>)
    ensures
        forall|v: Seq<char>|
            !(#[trigger] path_difference(a, b).contains(v) && path_difference(b, a).contains(v)),
        forall|v: Seq<char>|
            !(#[trigger] path_difference(a, b).contains(v) && path_intersection(a, b).contains(v)),
        forall|v: Seq<char>|
            !(#[trigger] path_difference(b, a).contains(v) && path_intersection(a, b).contains(v)),
{
    lemma_difference_membership(a, b);
    lemma_difference_membership(b, a);
    lemma_intersection_membership(a, b);
}

/// Comparing a tree to itself deletes and adds nothing.
pub proof fn lemma_self_difference_empty(a: Seq<Seq<char>>)
    ensures
        path_difference(a, a) =~= Seq::<Seq<char>>::empty(),
{
    lemma_difference_membership(a, a);
    let d = path_difference(a, a);
    if d.len() > 0 {
        assert(d.contains(d[0]));
    }
}

/// Comparing every common path of a tree against an identical copy of the
/// tree reports no difference.
pub proof fn lemma_identical_pairs_empty_report(items: Seq<ComparedPairView>)
    requires
        forall|i: int|
            0 <= i < items.len() ==> (#[trigger] items[i]).original == items[i].new_entry
                && items[i].original_content == items[i].new_content,
    ensures
        difference_report(items) =~= Seq::<(Seq<char>, Seq<(Seq<char>, Seq<char>)>)>::empty(),
    decreases items.len(),
{
    if items.len() > 0 {
        let al = items.drop_last();
        assert forall|i: int|
            0 <= i < al.len() implies (#[trigger] al[i]).original == al[i].new_entry
            && al[i].original_content == al[i].new_content by {
            assert(al[i] == items[i]);
        }
        lemma_identical_pairs_empty_report(al);
        assert(items[items.len() - 1] == items.last());
        lemma_identical_entry(items.last().original);
    }
}

/// A compared pair with the two trees' roles exchanged.
pub open spec fn swap_pair(p: ComparedPairView) -> ComparedPairView {
    ComparedPairView {
        path: p.path,
        original: p.new_entry,
        new_entry: p.original,
        original_content: p.new_content,
        new_content: p.original_content,
    }
}

/// The paths named by a report.
pub open spec fn report_names(r: Seq<(Seq<char>, Seq<(Seq<char>, Seq<char>)>)>) -> Seq<Seq<char>> {
    r.map_values(|e: (Seq<char>, Seq<(Seq<char>, Seq<char>)>)| e.0)
}

/// Which paths are reported as different does not depend on which tree is
/// handed in as the original: exchanging the trees reports exactly the same
/// paths, only the reported field values are original-relative.
pub proof fn lemma_report_symmetric(items: Seq<ComparedPairView>)
    ensures
        report_names(difference_report(items.map_values(|p: ComparedPairView| swap_pair(p))))
            =~= report_names(difference_report(items)),
    decreases items.len(),
{
    let swapped = items.map_values(|p: ComparedPairView| swap_pair(p));
    if items.len() == 0 {
    } else {
        lemma_report_symmetric(items.drop_last());
        assert(swapped.drop_last() =~= items.drop_last().map_values(
            |p: ComparedPairView| swap_pair(p),
        ));
        let p = items.last();
        lemma_detection_symmetric(p.original, p.new_entry, p.original_content == p.new_content);
        assert(swapped.last() == swap_pair(p));
        assert(pair_identical(swap_pair(p)) == pair_identical(p));
        let rs = difference_report(swapped.drop_last());
        let ri = difference_report(items.drop_last());
        if !pair_identical(p) {
            assert(report_names(rs.push(pair_report(swap_pair(p)))) =~= report_names(rs).push(
                p.path,
            ));
            assert(report_names(ri.push(pair_report(p))) =~= report_names(ri).push(p.path));
        }
    }
}

/// The full result of comparing two trees.
pub struct TreeDiff {
    pub deleted_files: Vec<String>,
    pub added_files: Vec<String>,
    pub differences: Vec<PathDifference>,
}

/// Build the full report: the paths deleted from the original tree, the
/// paths added in the new tree, and the itemized differences of the
/// compared common paths.
pub fn diff_report(set_a: &Vec<String>, set_b: &Vec<String>, compared: &Vec<ComparedPair>) -> (r:
    TreeDiff)
    ensures
        path_views(r.deleted_files@) == path_difference(path_views(set_a@), path_views(set_b@)),
        path_views(r.added_files@) == path_difference(path_views(set_b@), path_views(set_a@)),
        report_views(r.differences@) == difference_report(compared_views(compared@)),
{
    TreeDiff {
        deleted_files: symmetric_difference(set_a, set_b),
        added_files: symmetric_difference(set_b, set_a),
        differences: collect_differences(compared),
    }
}

} // verus!
