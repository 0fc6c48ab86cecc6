//! The outcome of a check does not depend on the order in which a manifest
//! lists its entries, nor on the order in which a folder is walked.

use crate::expansion::{
    base_candidates, candidate_expects, file_expects, is_expected, placed, with_extension,
};
use crate::manifest_checker::ManifestInfoView;
use crate::models::ManifestView;
use crate::paths::extension_of;
use crate::reconcile::{lemma_report_is_determined, unexpected};
use vstd::prelude::*;

verus! {

/// Two lists have the same members, whatever their order and however often each occurs.
pub open spec fn same_members<A>(a: Seq<A>, b: Seq<A>) -> bool {
    forall|x: A| #[trigger] a.contains(x) <==> b.contains(x)
}

/// The places of a candidate depend on the scales as a set only.
proof fn lemma_scales_as_set(
    candidate: Seq<char>,
    scales: Seq<nat>,
    others: Seq<nat>,
    path: Seq<char>,
)
    requires
        same_members(scales, others),
        candidate_expects(candidate, scales, path),
    ensures
        candidate_expects(candidate, others, path),
{
    let k = choose|k: int|
        0 <= k < scales.len() && #[trigger] scales[k] >= 1 && path == placed(scales[k], candidate);
    assert(scales.contains(scales[k]));
    assert(others.contains(scales[k]));
    let w = choose|w: int| 0 <= w < others.len() && others[w] == scales[k];
    assert(others[w] >= 1 && path == placed(others[w], candidate));
}

/// The paths expected for one entry depend on extensions and scales as sets only.
proof fn lemma_entry_as_sets(
    file: Seq<char>,
    extensions: Seq<Seq<char>>,
    scales: Seq<nat>,
    other_extensions: Seq<Seq<char>>,
    other_scales: Seq<nat>,
    path: Seq<char>,
)
    requires
        same_members(extensions, other_extensions),
        same_members(scales, other_scales),
        file_expects(file, extensions, scales, path),
    ensures
        file_expects(file, other_extensions, other_scales, path),
{
    let names = base_candidates(file, extensions);
    let other_names = base_candidates(file, other_extensions);
    let j = choose|j: int|
        0 <= j < names.len() && candidate_expects(#[trigger] names[j], scales, path);
    lemma_scales_as_set(names[j], scales, other_scales, path);
    if extension_of(file) is Some {
        assert(other_names[0] == names[j]);
    } else {
        assert(extensions.contains(extensions[j]));
        let w = choose|w: int| 0 <= w < other_extensions.len() && other_extensions[w] == extensions[j];
        assert(other_names[w] == with_extension(file, other_extensions[w]));
        assert(candidate_expects(other_names[w], other_scales, path));
    }
}

/// The expected paths depend on the three lists of a manifest as sets only.
proof fn lemma_manifest_as_sets(manifest: ManifestView, other: ManifestView, path: Seq<char>)
    requires
        same_members(manifest.files, other.files),
        same_members(manifest.file_extensions, other.file_extensions),
        same_members(manifest.file_scales, other.file_scales),
        is_expected(manifest, path),
    ensures
        is_expected(other, path),
{
    let i = choose|i: int|
        0 <= i < manifest.files.len() && file_expects(
            #[trigger] manifest.files[i],
            manifest.file_extensions,
            manifest.file_scales,
            path,
        );
    lemma_entry_as_sets(
        manifest.files[i],
        manifest.file_extensions,
        manifest.file_scales,
        other.file_extensions,
        other.file_scales,
        path,
    );
    assert(manifest.files.contains(manifest.files[i]));
    let w = choose|w: int| 0 <= w < other.files.len() && other.files[w] == manifest.files[i];
    assert(file_expects(other.files[w], other.file_extensions, other.file_scales, path));
}

/// How often an entry occurs among the entries of a list that pass a test.
proof fn lemma_filter_count(s: Seq<Seq<char>>, pred: spec_fn(Seq<char>) -> bool, x: Seq<char>)
    ensures
        s.filter(pred).to_multiset().count(x) == if pred(x) {
            s.to_multiset().count(x)
        } else {
            0
        },
    decreases s.len(),
{
    broadcast use vstd::seq_lib::group_to_multiset_ensures;
    broadcast use vstd::multiset::group_multiset_axioms;

    if s.len() == 0 {
        s.lemma_filter_len(pred);
        assert(s.filter(pred) =~= Seq::<Seq<char>>::empty());
        assert(!s.contains(x));
        assert(!s.filter(pred).contains(x));
    } else {
        let front = s.drop_last();
        let last = s.last();
        assert(s =~= front.push(last));
        lemma_filter_count(front, pred, x);
        front.lemma_filter_push(last, pred);
        vstd::seq_lib::to_multiset_build(front, last);
        if pred(last) {
            vstd::seq_lib::to_multiset_build(front.filter(pred), last);
        }
    }
}

/// Reordering the entries of a manifest and the contents of a folder leaves the
/// outcome of the check as it is: where two manifests name the same files,
/// extensions and scales, and two listings hold the same paths equally often,
/// a report of the one check and a report of the other hold the same lists, in
/// the same order.
pub proof fn lemma_report_ignores_order(
    manifest: ManifestView,
    assets: Seq<Seq<char>>,
    reordered_manifest: ManifestView,
    reordered_assets: Seq<Seq<char>>,
    first: ManifestInfoView,
    second: ManifestInfoView,
)
    requires
        same_members(manifest.files, reordered_manifest.files),
        same_members(manifest.file_extensions, reordered_manifest.file_extensions),
        same_members(manifest.file_scales, reordered_manifest.file_scales),
        assets.to_multiset() == reordered_assets.to_multiset(),
        first.reports(manifest, assets),
        second.reports(reordered_manifest, reordered_assets),
    ensures
        first == second,
{
    broadcast use vstd::seq_lib::group_to_multiset_ensures;

    assert forall|p: Seq<char>| is_expected(manifest, p) <==> is_expected(
        reordered_manifest,
        p,
    ) by {
        if is_expected(manifest, p) {
            lemma_manifest_as_sets(manifest, reordered_manifest, p);
        }
        if is_expected(reordered_manifest, p) {
            lemma_manifest_as_sets(reordered_manifest, manifest, p);
        }
    }
    assert forall|p: Seq<char>| assets.contains(p) <==> reordered_assets.contains(p) by {
        assert(assets.contains(p) <==> assets.to_multiset().count(p) > 0);
        assert(reordered_assets.contains(p) <==> reordered_assets.to_multiset().count(p) > 0);
    }
    let kept = assets.filter(unexpected(manifest));
    let reordered_kept = reordered_assets.filter(unexpected(reordered_manifest));
    assert forall|p: Seq<char>| kept.to_multiset().count(p) == reordered_kept.to_multiset().count(
        p,
    ) by {
        lemma_filter_count(assets, unexpected(manifest), p);
        lemma_filter_count(reordered_assets, unexpected(reordered_manifest), p);
    }
    assert(kept.to_multiset() =~= reordered_kept.to_multiset());
    assert(second.reports(manifest, assets));
    lemma_report_is_determined(manifest, assets, first, second);
}

} // verus!
