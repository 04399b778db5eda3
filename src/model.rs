//! The report's data: a library reference and the per-binary linkage, with
//! its five provenance buckets.

use vstd::prelude::*;
use crate::text::str_eq;

verus! {

/// What a library is to the contracts: its path and its owning package.
pub type LibraryView = (Seq<char>, Option<Seq<char>>);

pub open spec fn opt_view(o: Option<String>) -> Option<Seq<char>> {
    match o {
        Some(s) => Some(s@),
        None => None,
    }
}

/// One dynamic dependency of a binary.
#[derive(Debug, Clone)]
pub struct Library {
    /// The library's path, or the bare name where the format holds no path.
    pub path: String,
    /// The package that owns the path, where it is known.
    pub source: Option<String>,
}

impl View for Library {
    type V = LibraryView;

    open spec fn view(&self) -> LibraryView {
        (self.path@, opt_view(self.source))
    }
}

/// A library's display form: its path, then its package in parentheses.
pub open spec fn display_of(l: LibraryView) -> Seq<char> {
    match l.1 {
        Some(p) => l.0 + " ("@ + p + ")"@,
        None => l.0,
    }
}

impl Library {
    /// A library with no known owner.
    pub fn new(path: String) -> (r: Library)
        ensures
            r@ == (path@, None::<Seq<char>>),
    {
        Library { path, source: None }
    }

    /// The path, followed by ` (package)` when the owning package is known.
    pub fn display(&self) -> (r: String)
        ensures
            r@ == display_of(self@),
    {
        let mut out = self.path.clone();
        match &self.source {
            Some(p) => {
                out.append(" (");
                out.append(p.as_str());
                out.append(")");
            },
            None => {},
        }
        out
    }
}

/// A provenance bucket.
#[derive(PartialEq, Eq, Structural, Clone, Copy, Debug)]
pub enum Bucket {
    /// Shipped with the operating system.
    System,
    /// Installed by Homebrew.
    Homebrew,
    /// Installed by hand in a public location, managed by no package manager.
    PublicUnmanaged,
    /// A macOS framework.
    Frameworks,
    /// Anything else.
    Other,
}

pub open spec fn paths_of(s: Seq<LibraryView>) -> Seq<Seq<char>> {
    s.map_values(|l: LibraryView| l.0)
}

/// `lib` added to `s` unless a library with its path is there already.
pub open spec fn insert_spec(s: Seq<LibraryView>, lib: LibraryView) -> Seq<LibraryView> {
    if paths_of(s).contains(lib.0) {
        s
    } else {
        s.push(lib)
    }
}

pub open spec fn views_of(v: Seq<Library>) -> Seq<LibraryView> {
    v.map_values(|l: Library| l@)
}

/// The linkage report of one binary on one target.
#[derive(Debug, Clone)]
pub struct Linkage {
    /// File name of the inspected binary.
    pub binary: Option<String>,
    /// The target triple the binary was built for.
    pub target: Option<String>,
    /// Libraries of the operating system.
    pub system: Vec<Library>,
    /// Libraries installed by Homebrew.
    pub homebrew: Vec<Library>,
    /// Public libraries that no package manager handles.
    pub public_unmanaged: Vec<Library>,
    /// macOS frameworks.
    pub frameworks: Vec<Library>,
    /// Everything else.
    pub other: Vec<Library>,
}

impl Linkage {
    /// The libraries of bucket `b`.
    pub open spec fn bucket(&self, b: Bucket) -> Seq<LibraryView> {
        match b {
            Bucket::System => views_of(self.system@),
            Bucket::Homebrew => views_of(self.homebrew@),
            Bucket::PublicUnmanaged => views_of(self.public_unmanaged@),
            Bucket::Frameworks => views_of(self.frameworks@),
            Bucket::Other => views_of(self.other@),
        }
    }

    /// No bucket holds two libraries with one path.
    pub open spec fn wf(&self) -> bool {
        forall|b: Bucket| paths_of(#[trigger] self.bucket(b)).no_duplicates()
    }

    /// Some bucket holds a library with path `p`.
    pub open spec fn has_path(&self, p: Seq<char>) -> bool {
        exists|b: Bucket| paths_of(#[trigger] self.bucket(b)).contains(p)
    }

    /// Whether some bucket holds a library with path `p`.
    pub fn holds_path(&self, p: &str) -> (r: bool)
        ensures
            r == self.has_path(p@),
    {
        let r = vec_has_path(&self.system, p) || vec_has_path(&self.homebrew, p)
            || vec_has_path(&self.public_unmanaged, p) || vec_has_path(&self.frameworks, p)
            || vec_has_path(&self.other, p);
        proof {
            if r {
                if paths_of(self.bucket(Bucket::System)).contains(p@) {
                } else if paths_of(self.bucket(Bucket::Homebrew)).contains(p@) {
                } else if paths_of(self.bucket(Bucket::PublicUnmanaged)).contains(p@) {
                } else if paths_of(self.bucket(Bucket::Frameworks)).contains(p@) {
                } else {
                    assert(paths_of(self.bucket(Bucket::Other)).contains(p@));
                }
            }
        }
        r
    }

    /// An empty report.
    pub fn new(binary: Option<String>, target: Option<String>) -> (r: Linkage)
        ensures
            r.wf(),
            opt_view(r.binary) == opt_view(binary),
            opt_view(r.target) == opt_view(target),
            forall|b: Bucket| #[trigger] r.bucket(b) == Seq::<LibraryView>::empty(),
    {
        let r = Linkage {
            binary,
            target,
            system: Vec::new(),
            homebrew: Vec::new(),
            public_unmanaged: Vec::new(),
            frameworks: Vec::new(),
            other: Vec::new(),
        };
        assert forall|b: Bucket| #[trigger] r.bucket(b) == Seq::<LibraryView>::empty() by {
            assert(r.bucket(b) =~= Seq::<LibraryView>::empty());
        }
        assert forall|b: Bucket| paths_of(#[trigger] r.bucket(b)).no_duplicates() by {
            assert(paths_of(r.bucket(b)) =~= Seq::<Seq<char>>::empty());
        }
        r
    }

    /// Adds `lib` to bucket `b`, unless the bucket holds its path already.
    pub fn insert(&mut self, b: Bucket, lib: Library)
        requires
            old(self).wf(),
        ensures
            final(self).wf(),
            final(self).bucket(b) == insert_spec(old(self).bucket(b), lib@),
            forall|c: Bucket| c != b ==> #[trigger] final(self).bucket(c) == old(self).bucket(c),
            opt_view(final(self).binary) == opt_view(old(self).binary),
            opt_view(final(self).target) == opt_view(old(self).target),
    {
        assert(paths_of(self.bucket(b)).no_duplicates());
        match b {
            Bucket::System => insert_unique(&mut self.system, lib),
            Bucket::Homebrew => insert_unique(&mut self.homebrew, lib),
            Bucket::PublicUnmanaged => insert_unique(&mut self.public_unmanaged, lib),
            Bucket::Frameworks => insert_unique(&mut self.frameworks, lib),
            Bucket::Other => insert_unique(&mut self.other, lib),
        }
        assert forall|c: Bucket| paths_of(#[trigger] self.bucket(c)).no_duplicates() by {
            if c != b {
                assert(self.bucket(c) == old(self).bucket(c));
            }
        }
    }
}

fn vec_has_path(v: &Vec<Library>, p: &str) -> (r: bool)
    ensures
        r == paths_of(views_of(v@)).contains(p@),
{
    let n = v.len();
    let mut i: usize = 0;
    while i < n
        invariant
            n == v@.len(),
            i <= n,
            forall|j: int| 0 <= j < i ==> v@[j].path@ != p@,
        decreases n - i,
    {
        if str_eq(v[i].path.as_str(), p) {
            assert(paths_of(views_of(v@))[i as int] == p@);
            return true;
        }
        i += 1;
    }
    assert(!paths_of(views_of(v@)).contains(p@)) by {
        if paths_of(views_of(v@)).contains(p@) {
            let j = choose|j: int| 0 <= j < paths_of(views_of(v@)).len() && paths_of(views_of(v@))[j] == p@;
            assert(v@[j].path@ == p@);
        }
    }
    false
}

fn insert_unique(v: &mut Vec<Library>, lib: Library)
    requires
        paths_of(views_of(old(v)@)).no_duplicates(),
    ensures
        paths_of(views_of(final(v)@)).no_duplicates(),
        views_of(final(v)@) == insert_spec(views_of(old(v)@), lib@),
{
    let n = v.len();
    let mut i: usize = 0;
    let mut found = false;
    while i < n && !found
        invariant
            n == v@.len(),
            i <= n,
            found ==> paths_of(views_of(v@)).contains(lib.path@),
            !found ==> forall|j: int| 0 <= j < i ==> v@[j].path@ != lib.path@,
        decreases n - i,
    {
        if str_eq(v[i].path.as_str(), lib.path.as_str()) {
            assert(paths_of(views_of(v@))[i as int] == lib.path@);
            found = true;
        }
        i += 1;
    }
    if !found {
        let ghost before = views_of(v@);
        assert(!paths_of(before).contains(lib.path@)) by {
            if paths_of(before).contains(lib.path@) {
                let j = choose|j: int| 0 <= j < paths_of(before).len() && paths_of(before)[j] == lib.path@;
                assert(v@[j].path@ == lib.path@);
            }
        }
        v.push(lib);
        assert(views_of(v@) =~= before.push(lib@));
        assert(paths_of(views_of(v@)) =~= paths_of(before).push(lib.path@));
    }
}

} // verus!
