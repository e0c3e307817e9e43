//! The engine layer: the root cache state and the plain records it is built
//! from.
//!
//! The cache engine is modelled in memory: a record type per entity kind
//! (package, version, version-file, package-file), and a [`CacheHolder`] that
//! owns the engine's root state — the packages built from a backing database
//! of records. The root state can be discarded and rebuilt in place
//! ([`CacheHolder::re_up`]), which is the engine's reload capability.
//!
//! Each record type has a specification-level counterpart (`…Data`) giving
//! its abstract contents; every contract in the crate speaks of records
//! through those.

use vstd::prelude::*;

verus! {

/// Abstract contents of a [`PkgFileRecord`].
#[verifier::ext_equal]
pub struct PkgFileData {
    pub file_name: Seq<char>,
    pub archive: Seq<char>,
    pub version: Option<Seq<char>>,
    pub origin: Option<Seq<char>>,
    pub codename: Option<Seq<char>>,
    pub label: Option<Seq<char>>,
    pub site: Option<Seq<char>>,
    pub component: Seq<char>,
    pub architecture: Option<Seq<char>>,
    pub index_type: Seq<char>,
}

/// Abstract contents of a [`VerFileRecord`].
#[verifier::ext_equal]
pub struct VerFileData {
    pub short_desc: Option<Seq<char>>,
    pub long_desc: Option<Seq<char>>,
    pub maintainer: Option<Seq<char>>,
    pub homepage: Option<Seq<char>>,
    pub pkg_files: Seq<PkgFileData>,
}

/// Abstract contents of a [`VerRecord`].
#[verifier::ext_equal]
pub struct VerData {
    pub version: Seq<char>,
    pub arch: Seq<char>,
    pub section: Option<Seq<char>>,
    pub source_package: Seq<char>,
    pub source_version: Seq<char>,
    pub priority: int,
    pub files: Seq<VerFileData>,
}

/// Abstract contents of a [`PkgRecord`].
#[verifier::ext_equal]
pub struct PkgData {
    pub name: Seq<char>,
    pub arch: Seq<char>,
    pub current_version: Option<Seq<char>>,
    pub candidate_version: Option<Seq<char>>,
    pub versions: Seq<VerData>,
}

/// One entry in the list of files a version's metadata came from: origin
/// metadata of a repository index. Optional fields are absent when the
/// backing index does not carry them.
#[derive(Debug)]
pub struct PkgFileRecord {
    pub file_name: String,
    pub archive: String,
    pub version: Option<String>,
    pub origin: Option<String>,
    pub codename: Option<String>,
    pub label: Option<String>,
    pub site: Option<String>,
    pub component: String,
    pub architecture: Option<String>,
    pub index_type: String,
}

impl View for PkgFileRecord {
    type V = PkgFileData;

    open spec fn view(&self) -> PkgFileData {
        PkgFileData {
            file_name: self.file_name@,
            archive: self.archive@,
            version: self.version.deep_view(),
            origin: self.origin.deep_view(),
            codename: self.codename.deep_view(),
            label: self.label.deep_view(),
            site: self.site.deep_view(),
            component: self.component@,
            architecture: self.architecture.deep_view(),
            index_type: self.index_type@,
        }
    }
}

impl DeepView for PkgFileRecord {
    type V = PkgFileData;

    open spec fn deep_view(&self) -> PkgFileData {
        self.view()
    }
}

/// One file a version's metadata came from, together with the per-file
/// description fields its parser can look up.
#[derive(Debug)]
pub struct VerFileRecord {
    pub short_desc: Option<String>,
    pub long_desc: Option<String>,
    pub maintainer: Option<String>,
    pub homepage: Option<String>,
    pub pkg_files: Vec<PkgFileRecord>,
}

impl View for VerFileRecord {
    type V = VerFileData;

    open spec fn view(&self) -> VerFileData {
        VerFileData {
            short_desc: self.short_desc.deep_view(),
            long_desc: self.long_desc.deep_view(),
            maintainer: self.maintainer.deep_view(),
            homepage: self.homepage.deep_view(),
            pkg_files: self.pkg_files.deep_view(),
        }
    }
}

impl DeepView for VerFileRecord {
    type V = VerFileData;

    open spec fn deep_view(&self) -> VerFileData {
        self.view()
    }
}

/// One version of a binary package.
#[derive(Debug)]
pub struct VerRecord {
    pub version: String,
    pub arch: String,
    pub section: Option<String>,
    pub source_package: String,
    pub source_version: String,
    pub priority: i32,
    pub files: Vec<VerFileRecord>,
}

impl View for VerRecord {
    type V = VerData;

    open spec fn view(&self) -> VerData {
        VerData {
            version: self.version@,
            arch: self.arch@,
            section: self.section.deep_view(),
            source_package: self.source_package@,
            source_version: self.source_version@,
            priority: self.priority as int,
            files: self.files.deep_view(),
        }
    }
}

impl DeepView for VerRecord {
    type V = VerData;

    open spec fn deep_view(&self) -> VerData {
        self.view()
    }
}

/// One binary package, with the versions the cache knows of it.
#[derive(Debug)]
pub struct PkgRecord {
    pub name: String,
    pub arch: String,
    pub current_version: Option<String>,
    pub candidate_version: Option<String>,
    pub versions: Vec<VerRecord>,
}

impl View for PkgRecord {
    type V = PkgData;

    open spec fn view(&self) -> PkgData {
        PkgData {
            name: self.name@,
            arch: self.arch@,
            current_version: self.current_version.deep_view(),
            candidate_version: self.candidate_version.deep_view(),
            versions: self.versions.deep_view(),
        }
    }
}

impl DeepView for PkgRecord {
    type V = PkgData;

    open spec fn deep_view(&self) -> PkgData {
        self.view()
    }
}

/// Clone an optional string, keeping its value exactly.
pub(crate) fn clone_opt_string(o: &Option<String>) -> (r: Option<String>)
    ensures
        r == *o,
{
    match o {
        Some(s) => Some(s.clone()),
        None => None,
    }
}

impl Clone for PkgFileRecord {
    fn clone(&self) -> (r: Self)
        ensures
            r@ == self@,
    {
        PkgFileRecord {
            file_name: self.file_name.clone(),
            archive: self.archive.clone(),
            version: clone_opt_string(&self.version),
            origin: clone_opt_string(&self.origin),
            codename: clone_opt_string(&self.codename),
            label: clone_opt_string(&self.label),
            site: clone_opt_string(&self.site),
            component: self.component.clone(),
            architecture: clone_opt_string(&self.architecture),
            index_type: self.index_type.clone(),
        }
    }
}

impl Clone for VerFileRecord {
    fn clone(&self) -> (r: Self)
        ensures
            r@ == self@,
    {
        let pkg_files = self.pkg_files.clone();
        let r = VerFileRecord {
            short_desc: clone_opt_string(&self.short_desc),
            long_desc: clone_opt_string(&self.long_desc),
            maintainer: clone_opt_string(&self.maintainer),
            homepage: clone_opt_string(&self.homepage),
            pkg_files,
        };
        proof {
            assert(r@.pkg_files =~= self@.pkg_files);
            assert(r@ =~= self@);
        }
        r
    }
}

impl Clone for VerRecord {
    fn clone(&self) -> (r: Self)
        ensures
            r@ == self@,
    {
        let files = self.files.clone();
        let r = VerRecord {
            version: self.version.clone(),
            arch: self.arch.clone(),
            section: clone_opt_string(&self.section),
            source_package: self.source_package.clone(),
            source_version: self.source_version.clone(),
            priority: self.priority,
            files,
        };
        proof {
            assert(r@.files =~= self@.files);
            assert(r@ =~= self@);
        }
        r
    }
}

impl Clone for PkgRecord {
    fn clone(&self) -> (r: Self)
        ensures
            r@ == self@,
    {
        let versions = self.versions.clone();
        let r = PkgRecord {
            name: self.name.clone(),
            arch: self.arch.clone(),
            current_version: clone_opt_string(&self.current_version),
            candidate_version: clone_opt_string(&self.candidate_version),
            versions,
        };
        proof {
            assert(r@.versions =~= self@.versions);
            assert(r@ =~= self@);
        }
        r
    }
}

/// Clone a package list, keeping its abstract contents exactly.
pub fn clone_pkg_list(v: &Vec<PkgRecord>) -> (r: Vec<PkgRecord>)
    ensures
        r.deep_view() == v.deep_view(),
{
    let r = v.clone();
    proof {
        assert(r.deep_view() =~= v.deep_view());
    }
    r
}

/// Clone a version list, keeping its abstract contents exactly.
pub(crate) fn clone_ver_list(v: &Vec<VerRecord>) -> (r: Vec<VerRecord>)
    ensures
        r.deep_view() == v.deep_view(),
{
    let r = v.clone();
    proof {
        assert(r.deep_view() =~= v.deep_view());
    }
    r
}

/// Clone a version-file list, keeping its abstract contents exactly.
pub(crate) fn clone_ver_file_list(v: &Vec<VerFileRecord>) -> (r: Vec<VerFileRecord>)
    ensures
        r.deep_view() == v.deep_view(),
{
    let r = v.clone();
    proof {
        assert(r.deep_view() =~= v.deep_view());
    }
    r
}

/// Clone a package-file list, keeping its abstract contents exactly.
pub(crate) fn clone_pkg_file_list(v: &Vec<PkgFileRecord>) -> (r: Vec<PkgFileRecord>)
    ensures
        r.deep_view() == v.deep_view(),
{
    let r = v.clone();
    proof {
        assert(r.deep_view() =~= v.deep_view());
    }
    r
}

/// Owns the engine's root state.
///
/// `db` stands for the system's package database the engine reads; `pkgs` is
/// the cache state built from it. Exactly one holder backs a cache handle;
/// the built state is only ever read, or discarded and rebuilt in place by
/// [`CacheHolder::re_up`].
#[derive(Debug)]
pub struct CacheHolder {
    pub db: Vec<PkgRecord>,
    pub pkgs: Vec<PkgRecord>,
}

impl CacheHolder {
    /// Well-formed: the built cache state mirrors the backing database.
    pub open spec fn wf(&self) -> bool {
        self.pkgs.deep_view() == self.db.deep_view()
    }

    /// Build the root state from a backing database of records.
    pub fn new(db: Vec<PkgRecord>) -> (r: CacheHolder)
        ensures
            r.wf(),
            r.db == db,
    {
        let pkgs = clone_pkg_list(&db);
        CacheHolder { db, pkgs }
    }

    /// Discard the cache state and re-create it from the backing database,
    /// in place.
    pub fn re_up(&mut self)
        ensures
            final(self).db == old(self).db,
            final(self).wf(),
    {
        let rebuilt = clone_pkg_list(&self.db);
        self.pkgs = rebuilt;
    }
}

} // verus!
