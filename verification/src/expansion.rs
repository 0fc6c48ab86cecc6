//! From a manifest to the set of paths that it expects on disk.
//!
//! A file of the manifest that carries an extension stands for itself; one
//! without stands for one candidate per extension of the manifest. Each
//! candidate is expected once per scale: at the root for scale 1, and in the
//! folder `<scale>.0x` for a larger scale. Scale 0 places nothing.

use crate::models::{scale_values, Manifest, ManifestView};
use crate::paths::{extension_of, has_extension};
use crate::text::{decimal, decimal_string, str_eq, texts};
use vstd::prelude::*;

verus! {

/// The name `file` with the extension `ext` behind a dot.
pub open spec fn with_extension(file: Seq<char>, ext: Seq<char>) -> Seq<char> {
    file + seq!['.'] + ext
}

/// The names that the entry `file` of a manifest stands for.
pub open spec fn base_candidates(file: Seq<char>, extensions: Seq<Seq<char>>) -> Seq<Seq<char>> {
    if extension_of(file) is Some {
        seq![file]
    } else {
        Seq::new(extensions.len(), |j: int| with_extension(file, extensions[j]))
    }
}

/// The folder of a scale above 1, with its trailing separator.
pub open spec fn scale_folder(scale: nat) -> Seq<char> {
    decimal(scale) + seq!['.', '0', 'x', '/']
}

/// Where `candidate` lies at `scale`.
pub open spec fn placed(scale: nat, candidate: Seq<char>) -> Seq<char> {
    if scale == 1 {
        candidate
    } else {
        scale_folder(scale) + candidate
    }
}

/// `path` is where `candidate` lies at one of `scales`.
pub open spec fn candidate_expects(candidate: Seq<char>, scales: Seq<nat>, path: Seq<char>) -> bool {
    exists|k: int|
        0 <= k < scales.len() && #[trigger] scales[k] >= 1 && path == placed(scales[k], candidate)
}

/// `path` is where one of `candidates` lies at one of `scales`.
pub open spec fn any_candidate_expects(
    candidates: Seq<Seq<char>>,
    scales: Seq<nat>,
    path: Seq<char>,
) -> bool {
    exists|j: int|
        0 <= j < candidates.len() && candidate_expects(#[trigger] candidates[j], scales, path)
}

/// `path` is expected on account of the entry `file`.
pub open spec fn file_expects(
    file: Seq<char>,
    extensions: Seq<Seq<char>>,
    scales: Seq<nat>,
    path: Seq<char>,
) -> bool {
    any_candidate_expects(base_candidates(file, extensions), scales, path)
}

/// `path` is expected on account of one of `files`.
pub open spec fn any_file_expects(
    files: Seq<Seq<char>>,
    extensions: Seq<Seq<char>>,
    scales: Seq<nat>,
    path: Seq<char>,
) -> bool {
    exists|i: int|
        0 <= i < files.len() && file_expects(#[trigger] files[i], extensions, scales, path)
}

/// `path` belongs to the set of files that the manifest expects.
pub open spec fn is_expected(manifest: ManifestView, path: Seq<char>) -> bool {
    any_file_expects(manifest.files, manifest.file_extensions, manifest.file_scales, path)
}

/// What one more scale adds to the places of a candidate.
proof fn lemma_next_scale(candidate: Seq<char>, scales: Seq<nat>, k: int, path: Seq<char>)
    requires
        0 <= k < scales.len(),
    ensures
        candidate_expects(candidate, scales.take(k + 1), path) <==> candidate_expects(
            candidate,
            scales.take(k),
            path,
        ) || (scales[k] >= 1 && path == placed(scales[k], candidate)),
{
    let shorter = scales.take(k);
    let longer = scales.take(k + 1);
    if candidate_expects(candidate, shorter, path) {
        let w = choose|w: int|
            0 <= w < shorter.len() && #[trigger] shorter[w] >= 1 && path == placed(
                shorter[w],
                candidate,
            );
        assert(longer[w] == shorter[w]);
    }
    if scales[k] >= 1 && path == placed(scales[k], candidate) {
        assert(longer[k] == scales[k]);
    }
    if candidate_expects(candidate, longer, path) {
        let w = choose|w: int|
            0 <= w < longer.len() && #[trigger] longer[w] >= 1 && path == placed(
                longer[w],
                candidate,
            );
        if w < k {
            assert(shorter[w] == longer[w]);
        }
    }
}

/// What one more candidate adds to the expected paths.
proof fn lemma_next_candidate(
    candidates: Seq<Seq<char>>,
    scales: Seq<nat>,
    j: int,
    path: Seq<char>,
)
    requires
        0 <= j < candidates.len(),
    ensures
        any_candidate_expects(candidates.take(j + 1), scales, path) <==> any_candidate_expects(
            candidates.take(j),
            scales,
            path,
        ) || candidate_expects(candidates[j], scales, path),
{
    let shorter = candidates.take(j);
    let longer = candidates.take(j + 1);
    if any_candidate_expects(shorter, scales, path) {
        let w = choose|w: int|
            0 <= w < shorter.len() && candidate_expects(#[trigger] shorter[w], scales, path);
        assert(longer[w] == shorter[w]);
    }
    if candidate_expects(candidates[j], scales, path) {
        assert(longer[j] == candidates[j]);
    }
    if any_candidate_expects(longer, scales, path) {
        let w = choose|w: int|
            0 <= w < longer.len() && candidate_expects(#[trigger] longer[w], scales, path);
        if w < j {
            assert(shorter[w] == longer[w]);
        }
    }
}

/// What one more file adds to the expected paths.
proof fn lemma_next_file(
    files: Seq<Seq<char>>,
    extensions: Seq<Seq<char>>,
    scales: Seq<nat>,
    i: int,
    path: Seq<char>,
)
    requires
        0 <= i < files.len(),
    ensures
        any_file_expects(files.take(i + 1), extensions, scales, path) <==> any_file_expects(
            files.take(i),
            extensions,
            scales,
            path,
        ) || file_expects(files[i], extensions, scales, path),
{
    let shorter = files.take(i);
    let longer = files.take(i + 1);
    if any_file_expects(shorter, extensions, scales, path) {
        let w = choose|w: int|
            0 <= w < shorter.len() && file_expects(#[trigger] shorter[w], extensions, scales, path);
        assert(longer[w] == shorter[w]);
    }
    if file_expects(files[i], extensions, scales, path) {
        assert(longer[i] == files[i]);
    }
    if any_file_expects(longer, extensions, scales, path) {
        let w = choose|w: int|
            0 <= w < longer.len() && file_expects(#[trigger] longer[w], extensions, scales, path);
        if w < i {
            assert(shorter[w] == longer[w]);
        }
    }
}

/// The first position of `item` in `list`, if it occurs there.
pub fn position(list: &Vec<String>, item: &str) -> (res: Option<usize>)
    ensures
        res is None <==> !texts(list@).contains(item@),
        res matches Some(at) ==> {
            &&& at < list@.len()
            &&& texts(list@)[at as int] == item@
            &&& forall|j: int| 0 <= j < at ==> texts(list@)[j] != item@
        },
{
    let mut at: usize = 0;
    while at < list.len()
        invariant
            at <= list@.len(),
            forall|j: int| 0 <= j < at ==> texts(list@)[j] != item@,
        decreases list@.len() - at,
    {
        if str_eq(list[at].as_str(), item) {
            assert(texts(list@)[at as int] == item@);
            return Some(at);
        }
        at = at + 1;
    }
    None
}

/// Adds `path` to `paths` unless it is there already.
fn insert_unique(paths: &mut Vec<String>, path: String)
    requires
        texts(old(paths)@).no_duplicates(),
    ensures
        texts(final(paths)@).no_duplicates(),
        forall|p: Seq<char>| #[trigger]
            texts(final(paths)@).contains(p) <==> texts(old(paths)@).contains(p) || p == path@,
{
    let ghost before = texts(paths@);
    let ghost added = path@;
    if position(paths, path.as_str()).is_none() {
        paths.push(path);
        proof {
            let now = texts(paths@);
            assert(now =~= before.push(added));
            assert forall|p: Seq<char>| #[trigger]
                now.contains(p) <==> before.contains(p) || p == added by {
                if before.contains(p) {
                    let w = choose|w: int| 0 <= w < before.len() && before[w] == p;
                    assert(now[w] == p);
                }
                if p == added {
                    assert(now[before.len() as int] == p);
                }
            }
        }
    }
}

/// The path of `candidate` at `scale`.
pub fn place(scale: usize, candidate: &str) -> (path: String)
    requires
        scale >= 1,
    ensures
        path@ == placed(scale as nat, candidate@),
{
    if scale == 1 {
        String::from_str(candidate)
    } else {
        let mut path = decimal_string(scale);
        proof {
            reveal_strlit(".0x/");
        }
        path.append(".0x/");
        path.append(candidate);
        assert(path@ =~= placed(scale as nat, candidate@));
        path
    }
}

/// Adds the places of `candidate` at each of `scales`.
fn add_placements(paths: &mut Vec<String>, candidate: &str, scales: &Vec<usize>)
    requires
        texts(old(paths)@).no_duplicates(),
    ensures
        texts(final(paths)@).no_duplicates(),
        forall|p: Seq<char>| #[trigger]
            texts(final(paths)@).contains(p) <==> texts(old(paths)@).contains(p)
                || candidate_expects(candidate@, scale_values(scales@), p),
{
    let ghost before = texts(paths@);
    let ghost values = scale_values(scales@);
    let mut k: usize = 0;
    while k < scales.len()
        invariant
            k <= scales@.len(),
            values == scale_values(scales@),
            texts(paths@).no_duplicates(),
            forall|p: Seq<char>| #[trigger]
                texts(paths@).contains(p) <==> before.contains(p) || candidate_expects(
                    candidate@,
                    values.take(k as int),
                    p,
                ),
        decreases scales@.len() - k,
    {
        let ghost sofar = texts(paths@);
        let scale = scales[k];
        if scale >= 1 {
            insert_unique(paths, place(scale, candidate));
        }
        proof {
            assert forall|p: Seq<char>| #[trigger]
                texts(paths@).contains(p) <==> before.contains(p) || candidate_expects(
                    candidate@,
                    values.take(k + 1),
                    p,
                ) by {
                lemma_next_scale(candidate@, values, k as int, p);
                assert(sofar.contains(p) <==> before.contains(p) || candidate_expects(
                    candidate@,
                    values.take(k as int),
                    p,
                ));
            }
        }
        k = k + 1;
    }
    assert(values.take(k as int) =~= values);
}

/// The names that the entry `file` stands for.
pub fn candidates(file: &String, extensions: &Vec<String>) -> (names: Vec<String>)
    ensures
        texts(names@) == base_candidates(file@, texts(extensions@)),
{
    let mut names: Vec<String> = Vec::new();
    if has_extension(file.as_str()) {
        names.push(file.clone());
        assert(texts(names@) =~= seq![file@]);
        return names;
    }
    let mut j: usize = 0;
    while j < extensions.len()
        invariant
            j <= extensions@.len(),
            extension_of(file@) is None,
            texts(names@) == base_candidates(file@, texts(extensions@)).take(j as int),
        decreases extensions@.len() - j,
    {
        let ghost base = base_candidates(file@, texts(extensions@));
        let mut name = file.clone();
        proof {
            reveal_strlit(".");
        }
        name.append(".");
        name.append(extensions[j].as_str());
        assert(name@ =~= with_extension(file@, texts(extensions@)[j as int]));
        assert(base[j as int] == name@);
        names.push(name);
        assert(texts(names@) =~= base.take(j as int).push(base[j as int]));
        assert(base.take(j as int).push(base[j as int]) =~= base.take(j + 1));
        j = j + 1;
    }
    assert(base_candidates(file@, texts(extensions@)).take(j as int) =~= base_candidates(
        file@,
        texts(extensions@),
    ));
    names
}

/// Adds the paths that are expected on account of the entry `file`.
fn add_file(paths: &mut Vec<String>, file: &String, extensions: &Vec<String>, scales: &Vec<usize>)
    requires
        texts(old(paths)@).no_duplicates(),
    ensures
        texts(final(paths)@).no_duplicates(),
        forall|p: Seq<char>| #[trigger]
            texts(final(paths)@).contains(p) <==> texts(old(paths)@).contains(p) || file_expects(
                file@,
                texts(extensions@),
                scale_values(scales@),
                p,
            ),
{
    let ghost before = texts(paths@);
    let ghost values = scale_values(scales@);
    let names = candidates(file, extensions);
    let ghost all = texts(names@);
    let mut j: usize = 0;
    while j < names.len()
        invariant
            j <= names@.len(),
            all == texts(names@),
            values == scale_values(scales@),
            texts(paths@).no_duplicates(),
            forall|p: Seq<char>| #[trigger]
                texts(paths@).contains(p) <==> before.contains(p) || any_candidate_expects(
                    all.take(j as int),
                    values,
                    p,
                ),
        decreases names@.len() - j,
    {
        let ghost sofar = texts(paths@);
        add_placements(paths, names[j].as_str(), scales);
        proof {
            assert forall|p: Seq<char>| #[trigger]
                texts(paths@).contains(p) <==> before.contains(p) || any_candidate_expects(
                    all.take(j + 1),
                    values,
                    p,
                ) by {
                lemma_next_candidate(all, values, j as int, p);
                assert(sofar.contains(p) <==> before.contains(p) || any_candidate_expects(
                    all.take(j as int),
                    values,
                    p,
                ));
            }
        }
        j = j + 1;
    }
    assert(all.take(j as int) =~= all);
}

/// The paths that the manifest expects, each once.
pub fn expected_paths(manifest: &Manifest) -> (paths: Vec<String>)
    ensures
        texts(paths@).no_duplicates(),
        forall|p: Seq<char>| #[trigger] texts(paths@).contains(p) <==> is_expected(manifest@, p),
{
    let mut paths: Vec<String> = Vec::new();
    let ghost files = manifest@.files;
    let ghost extensions = manifest@.file_extensions;
    let ghost scales = manifest@.file_scales;
    let mut i: usize = 0;
    assert(texts(paths@) =~= Seq::<Seq<char>>::empty());
    while i < manifest.files.len()
        invariant
            i <= manifest.files@.len(),
            files == texts(manifest.files@),
            extensions == texts(manifest.file_extensions@),
            scales == scale_values(manifest.file_scales@),
            texts(paths@).no_duplicates(),
            forall|p: Seq<char>| #[trigger]
                texts(paths@).contains(p) <==> any_file_expects(
                    files.take(i as int),
                    extensions,
                    scales,
                    p,
                ),
        decreases manifest.files@.len() - i,
    {
        let ghost sofar = texts(paths@);
        add_file(&mut paths, &manifest.files[i], &manifest.file_extensions, &manifest.file_scales);
        proof {
            assert forall|p: Seq<char>| #[trigger]
                texts(paths@).contains(p) <==> any_file_expects(
                    files.take(i + 1),
                    extensions,
                    scales,
                    p,
                ) by {
                lemma_next_file(files, extensions, scales, i as int, p);
                assert(sofar.contains(p) <==> any_file_expects(
                    files.take(i as int),
                    extensions,
                    scales,
                    p,
                ));
            }
        }
        i = i + 1;
    }
    assert(files.take(i as int) =~= files);
    paths
}

} // verus!
