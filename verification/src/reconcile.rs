//! Comparing what a manifest expects with what a folder holds.

use crate::expansion::{expected_paths, is_expected, position};
use crate::manifest_checker::{entries, ManifestInfo, ManifestInfoView};
use crate::models::{Manifest, ManifestView};
use crate::sorting::sort_strings;
use crate::text::{is_sorted, is_strictly_sorted, lemma_sorted_lists_equal, lex_le, texts};
use vstd::prelude::*;

verus! {

/// The test that a path is none of those that the manifest expects.
pub open spec fn unexpected(manifest: ManifestView) -> spec_fn(Seq<char>) -> bool {
    |path: Seq<char>| !is_expected(manifest, path)
}

impl ManifestInfoView {
    /// The new assets; none where the list is absent.
    pub open spec fn new_list(self) -> Seq<Seq<char>> {
        entries(self.new_assets)
    }

    /// The missing assets; none where the list is absent.
    pub open spec fn missing_list(self) -> Seq<Seq<char>> {
        entries(self.missing_assets)
    }

    /// A list is present only where it has entries.
    pub open spec fn well_formed(self) -> bool {
        &&& self.new_assets is Some ==> self.new_list().len() > 0
        &&& self.missing_assets is Some ==> self.missing_list().len() > 0
    }

    /// This is the outcome of checking the folder contents `assets` against `manifest`:
    /// the new assets are the entries of `assets` that the manifest does not expect,
    /// each as often as it occurs there, in lexicographic order; the missing assets
    /// are the expected paths that do not occur in `assets`, each once, in
    /// lexicographic order.
    pub open spec fn reports(self, manifest: ManifestView, assets: Seq<Seq<char>>) -> bool {
        &&& self.well_formed()
        &&& is_sorted(self.new_list())
        &&& self.new_list().to_multiset() == assets.filter(unexpected(manifest)).to_multiset()
        &&& is_strictly_sorted(self.missing_list())
        &&& forall|p: Seq<char>| #[trigger]
            self.missing_list().contains(p) <==> is_expected(manifest, p) && !assets.contains(p)
    }
}

/// A sorted list without repetition is strictly sorted.
proof fn lemma_sorted_distinct(s: Seq<Seq<char>>)
    requires
        is_sorted(s),
        s.no_duplicates(),
    ensures
        is_strictly_sorted(s),
{
    assert forall|i: int, j: int| #![trigger s[i], s[j]] 0 <= i < j < s.len() implies lex_le(
        s[i],
        s[j],
    ) && s[i] != s[j] by {}
}

/// Two lists with the same entries as multisets have the same members, and
/// one is free of repetition if the other is.
proof fn lemma_rearranged(a: Seq<Seq<char>>, b: Seq<Seq<char>>)
    requires
        a.to_multiset() == b.to_multiset(),
    ensures
        forall|p: Seq<char>| #[trigger] a.contains(p) <==> b.contains(p),
        a.no_duplicates() ==> b.no_duplicates(),
{
    broadcast use vstd::seq_lib::group_to_multiset_ensures;

    assert forall|p: Seq<char>| #[trigger] a.contains(p) <==> b.contains(p) by {
        assert(a.contains(p) <==> a.to_multiset().count(p) > 0);
        assert(b.contains(p) <==> b.to_multiset().count(p) > 0);
    }
    if a.no_duplicates() {
        a.lemma_multiset_has_no_duplicates();
        b.lemma_multiset_has_no_duplicates_conv();
    }
}

/// Two lists without repetition that have the same members hold the same entries equally often.
proof fn lemma_distinct_same_members(a: Seq<Seq<char>>, b: Seq<Seq<char>>)
    requires
        a.no_duplicates(),
        b.no_duplicates(),
        forall|p: Seq<char>| #[trigger] a.contains(p) <==> b.contains(p),
    ensures
        a.to_multiset() == b.to_multiset(),
{
    broadcast use vstd::seq_lib::group_to_multiset_ensures;

    a.lemma_multiset_has_no_duplicates();
    b.lemma_multiset_has_no_duplicates();
    assert forall|p: Seq<char>| a.to_multiset().count(p) == b.to_multiset().count(p) by {
        assert(a.contains(p) <==> a.to_multiset().count(p) > 0);
        assert(b.contains(p) <==> b.to_multiset().count(p) > 0);
        assert(a.contains(p) <==> b.contains(p));
        if a.contains(p) {
            assert(a.to_multiset().contains(p));
            assert(b.to_multiset().contains(p));
        }
    }
    assert(a.to_multiset() =~= b.to_multiset());
}

/// A strictly sorted list is sorted and free of repetition.
proof fn lemma_strictly_sorted(s: Seq<Seq<char>>)
    requires
        is_strictly_sorted(s),
    ensures
        is_sorted(s),
        s.no_duplicates(),
{
    assert forall|i: int, j: int| 0 <= i < s.len() && 0 <= j < s.len() && i != j implies s[i]
        != s[j] by {
        if i < j {
            assert(crate::text::lex_lt(s[i], s[j]));
        } else {
            assert(crate::text::lex_lt(s[j], s[i]));
        }
    }
}

/// Checking given folder contents against a given manifest has one outcome:
/// any two reports of the same check hold the same lists, in the same order.
pub proof fn lemma_report_is_determined(
    manifest: ManifestView,
    assets: Seq<Seq<char>>,
    first: ManifestInfoView,
    second: ManifestInfoView,
)
    requires
        first.reports(manifest, assets),
        second.reports(manifest, assets),
    ensures
        first == second,
{
    lemma_sorted_lists_equal(first.new_list(), second.new_list());
    lemma_strictly_sorted(first.missing_list());
    lemma_strictly_sorted(second.missing_list());
    assert forall|p: Seq<char>| #[trigger]
        first.missing_list().contains(p) <==> second.missing_list().contains(p) by {}
    lemma_distinct_same_members(first.missing_list(), second.missing_list());
    lemma_sorted_lists_equal(first.missing_list(), second.missing_list());
}

/// The new assets of a report are the entries of the folder that the manifest does not expect.
pub proof fn lemma_new_assets_are_the_unexpected(
    manifest: ManifestView,
    assets: Seq<Seq<char>>,
    report: ManifestInfoView,
    path: Seq<char>,
)
    requires
        report.reports(manifest, assets),
    ensures
        report.new_list().contains(path) <==> assets.contains(path) && !is_expected(manifest, path),
{
    broadcast use vstd::seq_lib::group_to_multiset_ensures;

    let stray = assets.filter(unexpected(manifest));
    assert(report.new_list().contains(path) <==> stray.contains(path)) by {
        assert(report.new_list().contains(path) <==> report.new_list().to_multiset().count(path)
            > 0);
        assert(stray.contains(path) <==> stray.to_multiset().count(path) > 0);
    }
    if stray.contains(path) {
        assets.lemma_filter_contains_rev(unexpected(manifest), path);
        let i = choose|i: int| 0 <= i < stray.len() && stray[i] == path;
        assets.lemma_filter_pred(unexpected(manifest), i);
    }
    if assets.contains(path) && !is_expected(manifest, path) {
        let i = choose|i: int| 0 <= i < assets.len() && assets[i] == path;
        assets.lemma_filter_contains(unexpected(manifest), i);
    }
}

/// Where the folder holds the expected paths and nothing else, there is nothing
/// to report: both lists are absent.
pub proof fn lemma_complete_folder(
    manifest: ManifestView,
    assets: Seq<Seq<char>>,
    report: ManifestInfoView,
)
    requires
        report.reports(manifest, assets),
        forall|p: Seq<char>| #[trigger] assets.contains(p) <==> is_expected(manifest, p),
    ensures
        report.new_assets is None,
        report.missing_assets is None,
{
    broadcast use vstd::seq_lib::group_to_multiset_ensures;

    let stray = assets.filter(unexpected(manifest));
    if stray.len() > 0 {
        assets.lemma_filter_pred(unexpected(manifest), 0);
        assert(stray.contains(stray[0]));
        assets.lemma_filter_contains_rev(unexpected(manifest), stray[0]);
        assert(assets.contains(stray[0]));
    }
    assert(report.new_list().to_multiset().len() == 0);
    assert(report.new_list().len() == 0);
    if report.missing_list().len() > 0 {
        assert(report.missing_list().contains(report.missing_list()[0]));
    }
}

/// As many flags as `count`, none of them set.
fn cleared_flags(count: usize) -> (flags: Vec<bool>)
    ensures
        flags@.len() == count,
        forall|i: int| 0 <= i < count ==> !flags@[i],
{
    let mut flags: Vec<bool> = Vec::new();
    while flags.len() < count
        invariant
            flags@.len() <= count,
            forall|i: int| 0 <= i < flags@.len() ==> !flags@[i],
        decreases count - flags@.len(),
    {
        flags.push(false);
    }
    flags
}

/// Walks the folder contents: marks the expected paths that occur there, and
/// collects the entries that are not expected, in the order in which they come.
fn mark_and_collect(manifest: &Manifest, expected: &Vec<String>, assets: &Vec<String>) -> (res: (
    Vec<bool>,
    Vec<String>,
))
    requires
        texts(expected@).no_duplicates(),
        forall|p: Seq<char>| #[trigger] texts(expected@).contains(p) <==> is_expected(manifest@, p),
    ensures
        res.0@.len() == expected@.len(),
        forall|e: int|
            0 <= e < expected@.len() ==> (res.0@[e] <==> texts(assets@).contains(
                #[trigger] texts(expected@)[e],
            )),
        texts(res.1@) == texts(assets@).filter(unexpected(manifest@)),
{
    let ghost wanted = texts(expected@);
    let ghost found = texts(assets@);
    let ghost stray = unexpected(manifest@);
    let mut seen = cleared_flags(expected.len());
    let mut new_assets: Vec<String> = Vec::new();
    let mut k: usize = 0;
    proof {
        assert(found.take(0) =~= Seq::<Seq<char>>::empty());
        assert(found.take(0).filter(stray) =~= Seq::<Seq<char>>::empty()) by {
            found.take(0).lemma_filter_len(stray);
        }
        assert(texts(new_assets@) =~= Seq::<Seq<char>>::empty());
    }
    while k < assets.len()
        invariant
            k <= assets@.len(),
            wanted == texts(expected@),
            found == texts(assets@),
            stray == unexpected(manifest@),
            wanted.no_duplicates(),
            forall|p: Seq<char>| #[trigger] wanted.contains(p) <==> is_expected(manifest@, p),
            seen@.len() == expected@.len(),
            forall|e: int|
                0 <= e < wanted.len() ==> (seen@[e] <==> found.take(k as int).contains(
                    #[trigger] wanted[e],
                )),
            texts(new_assets@) == found.take(k as int).filter(stray),
        decreases assets@.len() - k,
    {
        let ghost before = found.take(k as int);
        let ghost after = found.take(k + 1);
        let ghost asset = found[k as int];
        let ghost flags = seen@;
        let ghost collected = texts(new_assets@);
        proof {
            assert(after =~= before.push(asset));
            before.lemma_filter_push(asset, stray);
            assert(stray(asset) <==> !wanted.contains(asset));
            assert forall|p: Seq<char>| #[trigger]
                after.contains(p) <==> before.contains(p) || p == asset by {
                if before.contains(p) {
                    let w = choose|w: int| 0 <= w < before.len() && before[w] == p;
                    assert(after[w] == p);
                }
                if p == asset {
                    assert(after[k as int] == p);
                }
            }
        }
        match position(expected, assets[k].as_str()) {
            Some(at) => {
                seen.set(at, true);
                proof {
                    assert forall|e: int| 0 <= e < wanted.len() implies (seen@[e]
                        <==> after.contains(#[trigger] wanted[e])) by {
                        if e != at {
                            assert(wanted[e] != wanted[at as int]);
                            assert(seen@[e] == flags[e]);
                        }
                    }
                }
            },
            None => {
                new_assets.push(assets[k].clone());
                proof {
                    assert(texts(new_assets@) =~= collected.push(asset));
                    assert forall|e: int| 0 <= e < wanted.len() implies (seen@[e]
                        <==> after.contains(#[trigger] wanted[e])) by {
                        assert(wanted.contains(wanted[e]));
                    }
                }
            },
        }
        k = k + 1;
    }
    assert(found.take(k as int) =~= found);
    (seen, new_assets)
}

/// The expected paths that were not marked, in the order of `expected`.
fn collect_unmarked(expected: &Vec<String>, seen: &Vec<bool>) -> (missing: Vec<String>)
    requires
        seen@.len() == expected@.len(),
        texts(expected@).no_duplicates(),
    ensures
        texts(missing@).no_duplicates(),
        forall|p: Seq<char>| #[trigger]
            texts(missing@).contains(p) <==> exists|e: int|
                0 <= e < expected@.len() && #[trigger] texts(expected@)[e] == p && !seen@[e],
{
    let ghost wanted = texts(expected@);
    let mut missing: Vec<String> = Vec::new();
    let mut e: usize = 0;
    assert(texts(missing@) =~= Seq::<Seq<char>>::empty());
    while e < expected.len()
        invariant
            e <= expected@.len(),
            seen@.len() == expected@.len(),
            wanted == texts(expected@),
            wanted.no_duplicates(),
            texts(missing@).no_duplicates(),
            forall|p: Seq<char>| #[trigger]
                texts(missing@).contains(p) <==> exists|i: int|
                    0 <= i < e && #[trigger] wanted[i] == p && !seen@[i],
        decreases expected@.len() - e,
    {
        let ghost before = texts(missing@);
        if !seen[e] {
            missing.push(expected[e].clone());
            proof {
                let now = texts(missing@);
                let added = wanted[e as int];
                assert(now =~= before.push(added));
                assert(!before.contains(added));
                assert forall|p: Seq<char>| #[trigger]
                    now.contains(p) <==> exists|i: int|
                        0 <= i < e + 1 && #[trigger] wanted[i] == p && !seen@[i] by {
                    if before.contains(p) {
                        let w = choose|w: int| 0 <= w < before.len() && before[w] == p;
                        assert(now[w] == p);
                    }
                    if p == added {
                        assert(now[before.len() as int] == p);
                    }
                    if now.contains(p) {
                        let w = choose|w: int| 0 <= w < now.len() && now[w] == p;
                        if w < before.len() {
                            assert(before[w] == p);
                            assert(before.contains(p));
                        }
                    }
                }
            }
        }
        e = e + 1;
    }
    missing
}

/// Checks the folder contents `assets` against `manifest`.
pub fn reconcile(manifest: Manifest, assets: Vec<String>) -> (info: ManifestInfo)
    ensures
        info@.reports(manifest@, texts(assets@)),
{
    let expected = expected_paths(&manifest);
    let (seen, unsorted_new) = mark_and_collect(&manifest, &expected, &assets);
    let unsorted_missing = collect_unmarked(&expected, &seen);
    let ghost wanted = texts(expected@);
    let ghost found = texts(assets@);
    let ghost raw_missing = texts(unsorted_missing@);
    let missing_assets = sort_strings(unsorted_missing);
    let new_assets = sort_strings(unsorted_new);
    proof {
        let missing = texts(missing_assets@);
        lemma_rearranged(raw_missing, missing);
        lemma_sorted_distinct(missing);
        assert forall|p: Seq<char>| #[trigger]
            missing.contains(p) <==> is_expected(manifest@, p) && !found.contains(p) by {
            if raw_missing.contains(p) {
                let e = choose|e: int|
                    0 <= e < wanted.len() && #[trigger] wanted[e] == p && !seen@[e];
                assert(wanted.contains(p));
            }
            if is_expected(manifest@, p) && !found.contains(p) {
                assert(wanted.contains(p));
                let e = choose|e: int| 0 <= e < wanted.len() && wanted[e] == p;
                assert(!seen@[e]);
            }
        }
    }
    let ghost new_len = new_assets@.len();
    let ghost missing_len = missing_assets@.len();
    let info = ManifestInfo::default().with_new_assets(new_assets).with_missing_assets(
        missing_assets,
    );
    proof {
        if new_len == 0 {
            assert(texts(new_assets@) =~= Seq::<Seq<char>>::empty());
        }
        if missing_len == 0 {
            assert(texts(missing_assets@) =~= Seq::<Seq<char>>::empty());
        }
    }
    info
}

} // verus!
