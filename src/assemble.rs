//! Building one binary's report from the libraries its inspection found.

use vstd::prelude::*;
use crate::classify::{apt_source, bucket_of, classify, homebrew_source, library_from_apt, library_from_homebrew};
use crate::error::LinkageError;
use crate::inspect::{format_of, inspection_for, BinaryFormat};
use crate::model::{Bucket, Library, LibraryView, Linkage, opt_view, paths_of};

verus! {

/// A library path found by an inspection, with what the filesystem and the
/// package database had to say about it.
#[derive(Debug, Clone)]
pub struct ObservedLibrary {
    /// The path as the inspection reported it.
    pub path: String,
    /// Where the path really leads, where that was looked up.
    pub canonical: Option<String>,
    /// The text of the owning formula's install receipt, where one was read.
    pub receipt: Option<String>,
    /// What `dpkg --search` printed for the path, where it ran and succeeded.
    pub dpkg_stdout: Option<Vec<u8>>,
}

/// Path, canonical form, receipt text and package database answer.
pub type ObservedView = (Seq<char>, Option<Seq<char>>, Option<Seq<char>>, Option<Seq<u8>>);

impl View for ObservedLibrary {
    type V = ObservedView;

    open spec fn view(&self) -> ObservedView {
        (self.path@, opt_view(self.canonical), opt_view(self.receipt), match self.dpkg_stdout {
            Some(b) => Some(b@),
            None => None,
        })
    }
}

/// The canonical form of an observed path; the path itself where none was
/// looked up.
pub open spec fn canonical_of(o: ObservedView) -> Seq<char> {
    match o.1 {
        Some(c) => c,
        None => o.0,
    }
}

pub open spec fn observed_bucket(o: ObservedView) -> Bucket {
    bucket_of(o.0, canonical_of(o))
}

/// The owner of an observed library, where one is known.
pub open spec fn observed_source(o: ObservedView, host_os: Seq<char>) -> Option<Seq<char>> {
    match observed_bucket(o) {
        Bucket::Homebrew => homebrew_source(o.0, o.2),
        Bucket::System | Bucket::Other => apt_source(host_os, o.3),
        _ => None,
    }
}

pub open spec fn observed_library(o: ObservedView, host_os: Seq<char>) -> LibraryView {
    (o.0, observed_source(o, host_os))
}

/// Observation `i` is the first one of its path.
pub open spec fn first_in(obs: Seq<ObservedView>, p: Seq<char>, i: int) -> bool {
    0 <= i < obs.len() && obs[i].0 == p && forall|j: int| 0 <= j < i ==> (#[trigger] obs[j]).0 != p
}

/// An earlier observation has the path of observation `i`.
pub open spec fn seen_before(obs: Seq<ObservedView>, i: int) -> bool {
    exists|j: int| 0 <= j < i && (#[trigger] obs[j]).0 == obs[i].0
}

/// The first observation of path `p`.
pub open spec fn first_index(obs: Seq<ObservedView>, p: Seq<char>) -> int {
    choose|k: int| first_in(obs, p, k)
}

/// Bucket `b` after the observations have been classified in order: each
/// path goes where its first observation is classified, once.
pub open spec fn bucket_after(obs: Seq<ObservedView>, host_os: Seq<char>, b: Bucket) -> Seq<LibraryView>
    decreases obs.len(),
{
    if obs.len() == 0 {
        Seq::empty()
    } else {
        let prev = bucket_after(obs.drop_last(), host_os, b);
        if observed_bucket(obs.last()) == b && !seen_before(obs, obs.len() - 1) {
            prev.push(observed_library(obs.last(), host_os))
        } else {
            prev
        }
    }
}

/// The report of binary `binary` built for `target` on a host running
/// `host_os`: each observed library classified, in order, into its bucket.
/// A target that is not recognised, or that cannot be inspected on this
/// host, fails with nothing built.
pub fn determine_linkage(binary: String, target: String, host_os: &str, observed: &Vec<ObservedLibrary>) -> (r: Result<Linkage, LinkageError>)
    ensures
        format_of(target@) is None ==> r matches Err(LinkageError::UnsupportedBinary),
        format_of(target@) == Some(BinaryFormat::Elf) && host_os@ != "linux"@ ==> r matches Err(
            LinkageError::InvalidOs { .. },
        ),
        r matches Err(LinkageError::InvalidOs { host, target: t }) ==> host@ == host_os@ && t@ == target@,
        r is Ok <==> (format_of(target@) is Some && (format_of(target@) == Some(BinaryFormat::Elf) ==> host_os@ == "linux"@)),
        r matches Ok(l) ==> l.wf() && opt_view(l.binary) == Some(binary@) && opt_view(l.target) == Some(target@)
            && (forall|b: Bucket| #[trigger] l.bucket(b) == bucket_after(observed@.map_values(|o: ObservedLibrary| o@), host_os@, b))
            && (forall|i: int| 0 <= i < observed@.len() ==> l.has_path(#[trigger] observed@[i].path@))
            && (forall|p: Seq<char>, b1: Bucket, b2: Bucket|
                (#[trigger] paths_of(l.bucket(b1)).contains(p)) && (#[trigger] paths_of(l.bucket(b2)).contains(p)) ==> b1 == b2),
{
    match inspection_for(target.as_str(), host_os) {
        Err(e) => {
            return Err(e);
        },
        Ok(_) => {},
    }
    let ghost obs = observed@.map_values(|o: ObservedLibrary| o@);
    let ghost bin_v = binary@;
    let ghost target_v = target@;
    let mut linkage = Linkage::new(Some(binary), Some(target));
    let n = observed.len();
    let mut i: usize = 0;
    while i < n
        invariant
            n == observed@.len(),
            obs == observed@.map_values(|o: ObservedLibrary| o@),
            i <= n,
            linkage.wf(),
            opt_view(linkage.binary) == Some(bin_v),
            opt_view(linkage.target) == Some(target_v),
            format_of(target_v) is Some,
            format_of(target_v) == Some(BinaryFormat::Elf) ==> host_os@ == "linux"@,
            forall|b: Bucket| #[trigger] linkage.bucket(b) == bucket_after(obs.subrange(0, i as int), host_os@, b),
        decreases n - i,
    {
        let o = &observed[i];
        let ghost ov = obs[i as int];
        assert(ov == o@);
        assert(obs.subrange(0, i + 1).drop_last() =~= obs.subrange(0, i as int));
        assert(obs.subrange(0, i + 1).last() == ov);
        proof {
            lemma_seen_iff_held(obs.subrange(0, i + 1), host_os@, i as int);
            assert forall|b: Bucket| #[trigger] linkage.bucket(b) == bucket_after(obs.subrange(0, i + 1).drop_last(), host_os@, b) by {}
        }
        if linkage.holds_path(o.path.as_str()) {
            assert forall|c: Bucket| #[trigger] linkage.bucket(c) == bucket_after(obs.subrange(0, i + 1), host_os@, c) by {}
            i += 1;
            continue;
        }
        let canonical: &str = match &o.canonical {
            Some(c) => c.as_str(),
            None => o.path.as_str(),
        };
        let b = classify(o.path.as_str(), canonical);
        let lib: Library = match b {
            Bucket::Homebrew => {
                let receipt: Option<&str> = match &o.receipt {
                    Some(t) => Some(t.as_str()),
                    None => None,
                };
                library_from_homebrew(o.path.clone(), receipt)
            },
            Bucket::System | Bucket::Other => {
                let answer: Option<&[u8]> = match &o.dpkg_stdout {
                    Some(v) => Some(v.as_slice()),
                    None => None,
                };
                library_from_apt(o.path.clone(), host_os, answer)
            },
            _ => Library::new(o.path.clone()),
        };
        assert(lib@ == observed_library(ov, host_os@));
        let ghost old_linkage = linkage;
        let ghost sub = obs.subrange(0, i + 1);
        assert(sub[i as int] == ov);
        assert(!seen_before(sub, i as int)) by {
            if seen_before(sub, i as int) {
                let bb = choose|bb: Bucket| paths_of(#[trigger] bucket_after(sub.drop_last(), host_os@, bb)).contains(sub[i as int].0);
                assert(linkage.bucket(bb) == bucket_after(sub.drop_last(), host_os@, bb));
                assert(paths_of(linkage.bucket(bb)).contains(o.path@));
            }
        }
        assert(!paths_of(linkage.bucket(b)).contains(o.path@));
        linkage.insert(b, lib);
        assert forall|c: Bucket| #[trigger] linkage.bucket(c) == bucket_after(sub, host_os@, c) by {
            if c != b {
                assert(linkage.bucket(c) == old_linkage.bucket(c));
            } else {
                assert(linkage.bucket(b) == old_linkage.bucket(b).push(lib@));
            }
        }
        i += 1;
    }
    assert(obs.subrange(0, n as int) =~= obs);
    proof {
        lemma_buckets_disjoint(obs, host_os@);
        assert forall|j: int| 0 <= j < observed@.len() implies linkage.has_path(#[trigger] observed@[j].path@) by {
            assert(obs[j].0 == observed@[j].path@);
            lemma_path_in_exactly_one_bucket(obs, host_os@, j);
            let k = first_index(obs, obs[j].0);
            assert(paths_of(linkage.bucket(observed_bucket(obs[k]))).contains(obs[j].0));
        }
    }
    Ok(linkage)
}

/// Some observation of a path comes first.
pub proof fn lemma_first_exists(obs: Seq<ObservedView>, j: int)
    requires
        0 <= j < obs.len(),
    ensures
        first_in(obs, obs[j].0, first_index(obs, obs[j].0)),
        first_index(obs, obs[j].0) <= j,
    decreases j,
{
    let p = obs[j].0;
    if exists|i: int| 0 <= i < j && (#[trigger] obs[i]).0 == p {
        let i = choose|i: int| 0 <= i < j && (#[trigger] obs[i]).0 == p;
        lemma_first_exists(obs, i);
    } else {
        assert(first_in(obs, p, j));
    }
    let k = first_index(obs, p);
    if k > j {
        assert(obs[j].0 != p);
    }
}

/// A path is in bucket `b` exactly when its first observation was
/// classified into `b`.
pub proof fn lemma_bucket_paths(obs: Seq<ObservedView>, host_os: Seq<char>, b: Bucket, p: Seq<char>)
    ensures
        paths_of(bucket_after(obs, host_os, b)).contains(p) <==> exists|j: int|
            #[trigger] first_in(obs, p, j) && observed_bucket(obs[j]) == b,
    decreases obs.len(),
{
    if obs.len() > 0 {
        let prev_obs = obs.drop_last();
        lemma_bucket_paths(prev_obs, host_os, b, p);
        let prev = bucket_after(prev_obs, host_os, b);
        let after = bucket_after(obs, host_os, b);
        let n = obs.len() - 1;
        let o = obs.last();
        assert(obs[n] == o);
        assert forall|j: int| 0 <= j < n implies prev_obs[j] == obs[j] by {}
        assert forall|j: int| 0 <= j < n implies (first_in(prev_obs, p, j) <==> first_in(obs, p, j)) by {
            if first_in(obs, p, j) {
                assert forall|i: int| 0 <= i < j implies (#[trigger] prev_obs[i]).0 != p by {
                    assert(prev_obs[i] == obs[i]);
                }
            }
            if first_in(prev_obs, p, j) {
                assert forall|i: int| 0 <= i < j implies (#[trigger] obs[i]).0 != p by {
                    assert(prev_obs[i] == obs[i]);
                }
            }
        }
        let in_prev = exists|j: int| #[trigger] first_in(prev_obs, p, j) && observed_bucket(prev_obs[j]) == b;
        let in_all = exists|j: int| #[trigger] first_in(obs, p, j) && observed_bucket(obs[j]) == b;
        let by_last = first_in(obs, p, n) && observed_bucket(o) == b;
        assert(first_in(obs, p, n) <==> o.0 == p && !seen_before(obs, n)) by {
            if o.0 == p && !seen_before(obs, n) {
                assert forall|i: int| 0 <= i < n implies (#[trigger] obs[i]).0 != p by {
                    if obs[i].0 == p {
                        assert(seen_before(obs, n));
                    }
                }
            }
            if first_in(obs, p, n) && seen_before(obs, n) {
                let i = choose|i: int| 0 <= i < n && (#[trigger] obs[i]).0 == obs[n].0;
                assert(obs[i].0 != p);
            }
        }
        assert(in_all <==> in_prev || by_last) by {
            if in_all {
                let j = choose|j: int| #[trigger] first_in(obs, p, j) && observed_bucket(obs[j]) == b;
                if j < n {
                    assert(first_in(prev_obs, p, j));
                    assert(prev_obs[j] == obs[j]);
                }
            }
            if in_prev {
                let j = choose|j: int| #[trigger] first_in(prev_obs, p, j) && observed_bucket(prev_obs[j]) == b;
                assert(first_in(obs, p, j));
                assert(obs[j] == prev_obs[j]);
            }
        }
        if observed_bucket(o) == b && !seen_before(obs, n) {
            let l = observed_library(o, host_os);
            assert(after == prev.push(l));
            let ps = paths_of(prev);
            assert(paths_of(prev.push(l)) =~= ps.push(l.0));
            assert(ps.push(l.0).contains(p) <==> ps.contains(p) || p == l.0) by {
                if ps.push(l.0).contains(p) {
                    let k = choose|k: int| 0 <= k < ps.push(l.0).len() && ps.push(l.0)[k] == p;
                    if k < ps.len() {
                        assert(ps[k] == p);
                    }
                }
                if ps.contains(p) {
                    let k = choose|k: int| 0 <= k < ps.len() && ps[k] == p;
                    assert(ps.push(l.0)[k] == p);
                }
                if p == l.0 {
                    assert(ps.push(l.0)[ps.len() as int] == p);
                }
            }
        }
    }
}

/// An observation's path is held by some bucket exactly when an earlier
/// observation had that path.
proof fn lemma_seen_iff_held(obs: Seq<ObservedView>, host_os: Seq<char>, i: int)
    requires
        i == obs.len() - 1,
        i >= 0,
    ensures
        seen_before(obs, i) <==> exists|b: Bucket| paths_of(#[trigger] bucket_after(obs.drop_last(), host_os, b)).contains(obs[i].0),
{
    let prev = obs.drop_last();
    let p = obs[i].0;
    if seen_before(obs, i) {
        let j = choose|j: int| 0 <= j < i && (#[trigger] obs[j]).0 == obs[i].0;
        assert(prev[j] == obs[j]);
        lemma_first_exists(prev, j);
        let k = first_index(prev, p);
        lemma_bucket_paths(prev, host_os, observed_bucket(prev[k]), p);
        assert(paths_of(bucket_after(prev, host_os, observed_bucket(prev[k]))).contains(p));
    }
    if exists|b: Bucket| paths_of(#[trigger] bucket_after(prev, host_os, b)).contains(p) {
        let b = choose|b: Bucket| paths_of(#[trigger] bucket_after(prev, host_os, b)).contains(p);
        lemma_bucket_paths(prev, host_os, b, p);
        let j = choose|j: int| #[trigger] first_in(prev, p, j) && observed_bucket(prev[j]) == b;
        assert(obs[j] == prev[j]);
    }
}

/// No path is held by two buckets.
pub proof fn lemma_buckets_disjoint(obs: Seq<ObservedView>, host_os: Seq<char>)
    ensures
        forall|p: Seq<char>, b1: Bucket, b2: Bucket|
            (#[trigger] paths_of(bucket_after(obs, host_os, b1)).contains(p)) && (#[trigger] paths_of(
                bucket_after(obs, host_os, b2),
            ).contains(p)) ==> b1 == b2,
{
    assert forall|p: Seq<char>, b1: Bucket, b2: Bucket|
        (#[trigger] paths_of(bucket_after(obs, host_os, b1)).contains(p)) && (#[trigger] paths_of(
            bucket_after(obs, host_os, b2),
        ).contains(p)) implies b1 == b2 by {
        lemma_bucket_paths(obs, host_os, b1, p);
        lemma_bucket_paths(obs, host_os, b2, p);
        let j1 = choose|j: int| #[trigger] first_in(obs, p, j) && observed_bucket(obs[j]) == b1;
        let j2 = choose|j: int| #[trigger] first_in(obs, p, j) && observed_bucket(obs[j]) == b2;
        if j1 < j2 {
            assert(obs[j1].0 != p);
        }
        if j2 < j1 {
            assert(obs[j2].0 != p);
        }
    }
}

/// Each observed path appears in exactly one bucket of the report: the one
/// that the first observation of that path was classified into.
pub proof fn lemma_path_in_exactly_one_bucket(obs: Seq<ObservedView>, host_os: Seq<char>, i: int)
    requires
        0 <= i < obs.len(),
    ensures
        first_in(obs, obs[i].0, first_index(obs, obs[i].0)),
        first_index(obs, obs[i].0) <= i,
        forall|b: Bucket|
            paths_of(#[trigger] bucket_after(obs, host_os, b)).contains(obs[i].0) <==> b == observed_bucket(
                obs[first_index(obs, obs[i].0)],
            ),
{
    let p = obs[i].0;
    lemma_first_exists(obs, i);
    let k = first_index(obs, p);
    assert forall|b: Bucket|
        paths_of(#[trigger] bucket_after(obs, host_os, b)).contains(p) <==> b == observed_bucket(obs[k]) by {
        lemma_bucket_paths(obs, host_os, b, p);
        if paths_of(bucket_after(obs, host_os, b)).contains(p) {
            let j = choose|j: int| #[trigger] first_in(obs, p, j) && observed_bucket(obs[j]) == b;
            if j < k {
                assert(obs[j].0 != p);
            }
            if k < j {
                assert(obs[k].0 != p);
            }
        } else {
            assert(first_in(obs, p, k));
        }
    }
}

/// Where every observation of one path saw the same canonical form, the
/// bucket that holds a path is the one chosen by the first prefix rule it
/// meets.
pub proof fn lemma_path_bucket_follows_rules(obs: Seq<ObservedView>, host_os: Seq<char>, i: int)
    requires
        0 <= i < obs.len(),
        forall|j: int, k: int|
            0 <= j < obs.len() && 0 <= k < obs.len() && (#[trigger] obs[j]).0 == (#[trigger] obs[k]).0
                ==> canonical_of(obs[j]) == canonical_of(obs[k]),
    ensures
        forall|b: Bucket|
            paths_of(#[trigger] bucket_after(obs, host_os, b)).contains(obs[i].0) <==> b == bucket_of(
                obs[i].0,
                canonical_of(obs[i]),
            ),
{
    lemma_path_in_exactly_one_bucket(obs, host_os, i);
    let k = first_index(obs, obs[i].0);
    assert(obs[k].0 == obs[i].0);
    assert(canonical_of(obs[k]) == canonical_of(obs[i]));
}

/// Classifying the same observation a second time leaves every bucket as
/// the first time left it.
pub proof fn lemma_classify_twice(obs: Seq<ObservedView>, host_os: Seq<char>, o: ObservedView, b: Bucket)
    ensures
        bucket_after(obs.push(o).push(o), host_os, b) == bucket_after(obs.push(o), host_os, b),
{
    let twice = obs.push(o).push(o);
    assert(twice.drop_last() =~= obs.push(o));
    assert(twice[obs.len() as int] == o);
    assert(seen_before(twice, twice.len() - 1));
}

} // verus!
