//! The safe cache layer: the cache handle, its traversal entry points, and
//! the package / version / version-file / package-file cursor hierarchy.

use core::marker::PhantomData;
use vstd::prelude::*;
use vstd::string::StringSliceAdditionalSpecFns;

use crate::citer::CIterator;
use crate::citer::RawIterator;
use crate::raw;
use crate::raw::CacheHolder;
use crate::raw::PkgData;
use crate::raw::PkgFileData;
use crate::raw::PkgFileRecord;
use crate::raw::PkgRecord;
use crate::raw::VerData;
use crate::raw::VerFileData;
use crate::raw::VerFileRecord;
use crate::raw::VerRecord;
use crate::vercmp;

verus! {

/// Why a cache operation was refused.
#[derive(Debug, Clone, Copy, PartialEq, Eq, Structural)]
pub enum CacheError {
    /// An input string held an embedded NUL, which the engine's text
    /// protocol cannot carry.
    InvalidArgument,
}

/// Whether a byte string holds an embedded NUL.
pub open spec fn has_nul_byte(s: Seq<u8>) -> bool {
    exists|i: int| 0 <= i < s.len() && s[i] == 0u8
}

/// Scan a byte string for an embedded NUL.
fn contains_nul(b: &[u8]) -> (r: bool)
    ensures
        r == has_nul_byte(b@),
{
    let n = b.len();
    let mut i: usize = 0;
    while i < n
        invariant
            n == b@.len(),
            0 <= i <= n,
            forall|j: int| 0 <= j < i ==> b@[j] != 0u8,
        decreases n - i,
    {
        if b[i] == 0 {
            return true;
        }
        i = i + 1;
    }
    false
}

/// The packages of `s` whose name is `name`, in cache order.
pub open spec fn pkgs_named(s: Seq<PkgData>, name: Seq<char>) -> Seq<PkgData> {
    s.filter(|p: PkgData| p.name == name)
}

/// The packages of `s` whose name is `name` and architecture `arch`, in
/// cache order.
pub open spec fn pkgs_named_arch(s: Seq<PkgData>, name: Seq<char>, arch: Seq<char>) -> Seq<
    PkgData,
> {
    s.filter(|p: PkgData| p.name == name && p.arch == arch)
}

/// Collect the packages of `v` whose name is `name`, in order.
fn collect_named(v: &Vec<PkgRecord>, name: &String) -> (r: Vec<PkgRecord>)
    ensures
        r.deep_view() == pkgs_named(v.deep_view(), name@),
{
    let ghost all = v.deep_view();
    let mut out: Vec<PkgRecord> = Vec::new();
    let mut i: usize = 0;
    proof {
        assert(out.deep_view() =~= pkgs_named(all.take(0), name@)) by {
            assert(all.take(0) =~= Seq::<PkgData>::empty());
            reveal_with_fuel(Seq::filter, 1);
        }
    }
    while i < v.len()
        invariant
            0 <= i <= v.len(),
            all == v.deep_view(),
            all.len() == v.len(),
            out.deep_view() == pkgs_named(all.take(i as int), name@),
        decreases v.len() - i,
    {
        let p = &v[i];
        proof {
            assert(p@ == all[i as int]);
            assert(all.take(i + 1).drop_last() =~= all.take(i as int));
            assert(all.take(i + 1).last() == all[i as int]);
        }
        let ghost pre = out.deep_view();
        if p.name == *name {
            out.push(p.clone());
            proof {
                assert(out.deep_view() =~= pre.push(all[i as int]));
            }
        }
        proof {
            reveal_with_fuel(Seq::filter, 2);
            assert(out.deep_view() =~= pkgs_named(all.take(i + 1), name@));
        }
        i = i + 1;
    }
    proof {
        assert(all.take(v.len() as int) =~= all);
        assert(out.deep_view() == pkgs_named(all, name@));
    }
    out
}

/// Collect the packages of `v` whose name is `name` and architecture
/// `arch`, in order.
fn collect_named_arch(v: &Vec<PkgRecord>, name: &String, arch: &String) -> (r: Vec<PkgRecord>)
    ensures
        r.deep_view() == pkgs_named_arch(v.deep_view(), name@, arch@),
{
    let ghost all = v.deep_view();
    let mut out: Vec<PkgRecord> = Vec::new();
    let mut i: usize = 0;
    proof {
        assert(out.deep_view() =~= pkgs_named_arch(all.take(0), name@, arch@)) by {
            assert(all.take(0) =~= Seq::<PkgData>::empty());
            reveal_with_fuel(Seq::filter, 1);
        }
    }
    while i < v.len()
        invariant
            0 <= i <= v.len(),
            all == v.deep_view(),
            all.len() == v.len(),
            out.deep_view() == pkgs_named_arch(all.take(i as int), name@, arch@),
        decreases v.len() - i,
    {
        let p = &v[i];
        proof {
            assert(p@ == all[i as int]);
            assert(all.take(i + 1).drop_last() =~= all.take(i as int));
            assert(all.take(i + 1).last() == all[i as int]);
        }
        let ghost pre = out.deep_view();
        if p.name == *name && p.arch == *arch {
            out.push(p.clone());
            proof {
                assert(out.deep_view() =~= pre.push(all[i as int]));
            }
        }
        proof {
            reveal_with_fuel(Seq::filter, 2);
            assert(out.deep_view() =~= pkgs_named_arch(all.take(i + 1), name@, arch@));
        }
        i = i + 1;
    }
    proof {
        assert(all.take(v.len() as int) =~= all);
        assert(out.deep_view() == pkgs_named_arch(all, name@, arch@));
    }
    out
}

/// A handle on the package cache, from which most functionality can be
/// accessed.
///
/// The handle owns the engine's root state and is the exclusion unit the
/// design asks for: opening a traversal borrows the handle mutably for the
/// cursor's whole lifetime, so a second traversal, or a [`Cache::reload`],
/// cannot start until the cursor is dropped. A program that wants one
/// process-wide cache keeps a single `Cache` behind its own lock; this crate
/// keeps the handle an explicit value so independent caches can be built and
/// checked.
#[derive(Debug)]
pub struct Cache {
    holder: CacheHolder,
}

impl Cache {
    /// The abstract contents of the cache state: one entry per package.
    pub closed spec fn pkgs(&self) -> Seq<PkgData> {
        self.holder.pkgs.deep_view()
    }

    /// The abstract contents of the backing package database.
    pub closed spec fn db(&self) -> Seq<PkgData> {
        self.holder.db.deep_view()
    }

    /// Well-formed: the cache state mirrors the backing database.
    pub closed spec fn wf(&self) -> bool {
        self.holder.wf()
    }

    /// A cache handle over an empty backing database. An embedding program
    /// that feeds the cache from a real package store builds the records
    /// first and uses [`Cache::with_packages`]; keeping one handle per
    /// process is that program's concern.
    pub fn get_singleton() -> (c: Cache)
        ensures
            c.wf(),
            c.db() == Seq::<PkgData>::empty(),
            c.pkgs() == Seq::<PkgData>::empty(),
    {
        let c = Cache { holder: CacheHolder::new(Vec::new()) };
        proof {
            assert(c.db() =~= Seq::<PkgData>::empty());
        }
        c
    }

    /// A cache handle over the given backing database of package records.
    pub fn with_packages(db: Vec<PkgRecord>) -> (c: Cache)
        ensures
            c.wf(),
            c.db() == db.deep_view(),
            c.pkgs() == db.deep_view(),
    {
        Cache { holder: CacheHolder::new(db) }
    }

    /// Drop the cache state, and re-create it from the backing database.
    ///
    /// The borrow rules uphold the engine's precondition: `reload` cannot be
    /// called while any cursor from this handle is alive, since such a
    /// cursor keeps the handle mutably borrowed. Reloading over an unchanged
    /// database leaves the visible packages unchanged.
    pub fn reload(&mut self)
        ensures
            final(self).wf(),
            final(self).db() == old(self).db(),
            final(self).pkgs() == old(self).db(),
            old(self).wf() ==> final(self).pkgs() == old(self).pkgs(),
    {
        self.holder.re_up();
    }

    /// Walk through all of the packages, in cache order — an order the
    /// engine chooses and callers must treat as arbitrary.
    pub fn iter<'c>(&'c mut self) -> (r: CIterator<PkgIterator<'c>>)
        ensures
            *final(self) == *old(self),
            r.inv(),
            r.remaining() == old(self).pkgs(),
            r.remaining().len() <= usize::MAX,
    {
        let pkgs = raw::clone_pkg_list(&self.holder.pkgs);
        let r = CIterator {
            first: true,
            raw: PkgIterator { cache: PhantomData, pkgs, idx: 0 },
        };
        proof {
            assert(pkgs.len() == pkgs@.len());
            assert(r.remaining() =~= old(self).pkgs());
        }
        r
    }

    /// Find the packages called `name`: the returned cursor runs over
    /// exactly the packages of the cache with that name, in cache order —
    /// positioned at the first match, or already at end when there is none.
    ///
    /// A `name` holding an embedded NUL is refused with
    /// [`CacheError::InvalidArgument`] before the cache is consulted.
    pub fn find_by_name<'c>(&'c mut self, name: &str) -> (r: Result<
        CIterator<PkgIterator<'c>>,
        CacheError,
    >)
        ensures
            *final(self) == *old(self),
            match r {
                Result::Ok(it) => {
                    &&& !has_nul_byte(name.spec_bytes())
                    &&& it.inv()
                    &&& it.remaining() == pkgs_named(old(self).pkgs(), name@)
                    &&& it.remaining().len() <= usize::MAX
                },
                Result::Err(e) => {
                    &&& has_nul_byte(name.spec_bytes())
                    &&& e == CacheError::InvalidArgument
                },
            },
    {
        if contains_nul(name.as_bytes()) {
            return Err(CacheError::InvalidArgument);
        }
        let owned = name.to_owned();
        let matched = collect_named(&self.holder.pkgs, &owned);
        let r = CIterator {
            first: true,
            raw: PkgIterator { cache: PhantomData, pkgs: matched, idx: 0 },
        };
        proof {
            assert(matched.len() == matched@.len());
            assert(r.remaining() =~= pkgs_named(old(self).pkgs(), name@));
        }
        Ok(r)
    }

    /// Find the packages called `name` for architecture `arch`; otherwise as
    /// [`Cache::find_by_name`].
    pub fn find_by_name_arch<'c>(&'c mut self, name: &str, arch: &str) -> (r: Result<
        CIterator<PkgIterator<'c>>,
        CacheError,
    >)
        ensures
            *final(self) == *old(self),
            match r {
                Result::Ok(it) => {
                    &&& !has_nul_byte(name.spec_bytes())
                    &&& !has_nul_byte(arch.spec_bytes())
                    &&& it.inv()
                    &&& it.remaining() == pkgs_named_arch(old(self).pkgs(), name@, arch@)
                    &&& it.remaining().len() <= usize::MAX
                },
                Result::Err(e) => {
                    &&& has_nul_byte(name.spec_bytes()) || has_nul_byte(arch.spec_bytes())
                    &&& e == CacheError::InvalidArgument
                },
            },
    {
        if contains_nul(name.as_bytes()) {
            return Err(CacheError::InvalidArgument);
        }
        if contains_nul(arch.as_bytes()) {
            return Err(CacheError::InvalidArgument);
        }
        let owned_name = name.to_owned();
        let owned_arch = arch.to_owned();
        let matched = collect_named_arch(&self.holder.pkgs, &owned_name, &owned_arch);
        let r = CIterator {
            first: true,
            raw: PkgIterator { cache: PhantomData, pkgs: matched, idx: 0 },
        };
        proof {
            assert(matched.len() == matched@.len());
            assert(r.remaining() =~= pkgs_named_arch(old(self).pkgs(), name@, arch@));
        }
        Ok(r)
    }

    /// Compare two version strings, returning an `Ordering` as used by most
    /// `sort()` methods. The ordering is the engine's Debian-style version
    /// ordering ([`crate::vercmp::version_cmp`]), over the strings' bytes;
    /// it needs no open cursor.
    pub fn compare_versions(&self, left: &str, right: &str) -> (r: core::cmp::Ordering)
        ensures
            r == vercmp::version_cmp(left.spec_bytes(), right.spec_bytes()),
    {
        vercmp::version_cmp_bytes(left.as_bytes(), right.as_bytes())
    }
}

/// A cursor over a list of packages.
#[derive(Debug)]
pub struct PkgIterator<'c> {
    cache: PhantomData<&'c CacheHolder>,
    pkgs: Vec<PkgRecord>,
    idx: usize,
}

/// A short-lived read proxy over a package cursor's current position.
pub struct PkgView {
    rec: PkgRecord,
}

impl View for PkgView {
    type V = PkgData;

    closed spec fn view(&self) -> PkgData {
        self.rec@
    }
}

impl<'c> RawIterator for PkgIterator<'c> {
    type View = PkgView;

    closed spec fn elems(&self) -> Seq<PkgData> {
        self.pkgs.deep_view()
    }

    closed spec fn pos(&self) -> int {
        self.idx as int
    }

    closed spec fn inv(&self) -> bool {
        self.idx <= self.pkgs.len()
    }

    proof fn lemma_inv_bounds(&self) {
    }

    fn is_end(&self) -> (r: bool) {
        self.idx == self.pkgs.len()
    }

    fn next(&mut self) {
        self.idx = self.idx + 1;
    }

    fn as_view(&self) -> (v: PkgView) {
        PkgView { rec: self.pkgs[self.idx].clone() }
    }
}

/// Accessors over the current package.
impl PkgView {
    /// The package's name.
    pub fn name(&self) -> (r: String)
        ensures
            r@ == self@.name,
    {
        self.rec.name.clone()
    }

    /// The package's architecture.
    pub fn arch(&self) -> (r: String)
        ensures
            r@ == self@.arch,
    {
        self.rec.arch.clone()
    }

    /// The installed version, if the package is installed.
    pub fn current_version(&self) -> (r: Option<String>)
        ensures
            r.deep_view() == self@.current_version,
    {
        raw::clone_opt_string(&self.rec.current_version)
    }

    /// The version an install would pick, if any.
    pub fn candidate_version(&self) -> (r: Option<String>)
        ensures
            r.deep_view() == self@.candidate_version,
    {
        raw::clone_opt_string(&self.rec.candidate_version)
    }

    /// A cursor over the versions the cache knows of this package.
    pub fn versions(&self) -> (r: CIterator<VerIterator>)
        ensures
            r.inv(),
            r.remaining() == self@.versions,
            r.remaining().len() <= usize::MAX,
    {
        let vers = raw::clone_ver_list(&self.rec.versions);
        let r = CIterator { first: true, raw: VerIterator { vers, idx: 0 } };
        proof {
            assert(vers.len() == vers@.len());
            assert(r.remaining() =~= self@.versions);
        }
        r
    }
}

/// A cursor over a package's version list.
pub struct VerIterator {
    vers: Vec<VerRecord>,
    idx: usize,
}

/// A short-lived read proxy over a version cursor's current position.
pub struct VerView {
    rec: VerRecord,
}

impl View for VerView {
    type V = VerData;

    closed spec fn view(&self) -> VerData {
        self.rec@
    }
}

impl RawIterator for VerIterator {
    type View = VerView;

    closed spec fn elems(&self) -> Seq<VerData> {
        self.vers.deep_view()
    }

    closed spec fn pos(&self) -> int {
        self.idx as int
    }

    closed spec fn inv(&self) -> bool {
        self.idx <= self.vers.len()
    }

    proof fn lemma_inv_bounds(&self) {
    }

    fn is_end(&self) -> (r: bool) {
        self.idx == self.vers.len()
    }

    fn next(&mut self) {
        self.idx = self.idx + 1;
    }

    fn as_view(&self) -> (v: VerView) {
        VerView { rec: self.vers[self.idx].clone() }
    }
}

/// Accessors over the current version.
impl VerView {
    /// The version string.
    pub fn version(&self) -> (r: String)
        ensures
            r@ == self@.version,
    {
        self.rec.version.clone()
    }

    /// The version's architecture.
    pub fn arch(&self) -> (r: String)
        ensures
            r@ == self@.arch,
    {
        self.rec.arch.clone()
    }

    /// The section the version files under, if any.
    pub fn section(&self) -> (r: Option<String>)
        ensures
            r.deep_view() == self@.section,
    {
        raw::clone_opt_string(&self.rec.section)
    }

    /// The source package the version was built from.
    pub fn source_package(&self) -> (r: String)
        ensures
            r@ == self@.source_package,
    {
        self.rec.source_package.clone()
    }

    /// The source version the version was built from.
    pub fn source_version(&self) -> (r: String)
        ensures
            r@ == self@.source_version,
    {
        self.rec.source_version.clone()
    }

    /// The version's pin priority.
    pub fn priority(&self) -> (r: i32)
        ensures
            r as int == self@.priority,
    {
        self.rec.priority
    }

    /// A cursor over the files this version's metadata came from.
    pub fn origin_iter(&self) -> (r: CIterator<VerFileIterator>)
        ensures
            r.inv(),
            r.remaining() == self@.files,
            r.remaining().len() <= usize::MAX,
    {
        let files = raw::clone_ver_file_list(&self.rec.files);
        let r = CIterator { first: true, raw: VerFileIterator { files, idx: 0 } };
        proof {
            assert(files.len() == files@.len());
            assert(r.remaining() =~= self@.files);
        }
        r
    }
}

/// A cursor over a version's file list.
pub struct VerFileIterator {
    files: Vec<VerFileRecord>,
    idx: usize,
}

/// A short-lived read proxy over a version-file cursor's current position.
pub struct VerFileView {
    rec: VerFileRecord,
}

impl View for VerFileView {
    type V = VerFileData;

    closed spec fn view(&self) -> VerFileData {
        self.rec@
    }
}

impl RawIterator for VerFileIterator {
    type View = VerFileView;

    closed spec fn elems(&self) -> Seq<VerFileData> {
        self.files.deep_view()
    }

    closed spec fn pos(&self) -> int {
        self.idx as int
    }

    closed spec fn inv(&self) -> bool {
        self.idx <= self.files.len()
    }

    proof fn lemma_inv_bounds(&self) {
    }

    fn is_end(&self) -> (r: bool) {
        self.idx == self.files.len()
    }

    fn next(&mut self) {
        self.idx = self.idx + 1;
    }

    fn as_view(&self) -> (v: VerFileView) {
        VerFileView { rec: self.files[self.idx].clone() }
    }
}

/// Accessors over the current version-file entry.
impl VerFileView {
    /// The short description recorded in this file, if any.
    pub fn short_desc(&self) -> (r: Option<String>)
        ensures
            r.deep_view() == self@.short_desc,
    {
        raw::clone_opt_string(&self.rec.short_desc)
    }

    /// The long description recorded in this file, if any.
    pub fn long_desc(&self) -> (r: Option<String>)
        ensures
            r.deep_view() == self@.long_desc,
    {
        raw::clone_opt_string(&self.rec.long_desc)
    }

    /// The maintainer recorded in this file, if any.
    pub fn maintainer(&self) -> (r: Option<String>)
        ensures
            r.deep_view() == self@.maintainer,
    {
        raw::clone_opt_string(&self.rec.maintainer)
    }

    /// The homepage recorded in this file, if any.
    pub fn homepage(&self) -> (r: Option<String>)
        ensures
            r.deep_view() == self@.homepage,
    {
        raw::clone_opt_string(&self.rec.homepage)
    }

    /// A cursor over the package files backing this entry.
    pub fn file(&self) -> (r: CIterator<PkgFileIterator>)
        ensures
            r.inv(),
            r.remaining() == self@.pkg_files,
            r.remaining().len() <= usize::MAX,
    {
        let pkg_files = raw::clone_pkg_file_list(&self.rec.pkg_files);
        let r = CIterator { first: true, raw: PkgFileIterator { pkg_files, idx: 0 } };
        proof {
            assert(pkg_files.len() == pkg_files@.len());
            assert(r.remaining() =~= self@.pkg_files);
        }
        r
    }
}

/// A cursor over a list of package files.
pub struct PkgFileIterator {
    pkg_files: Vec<PkgFileRecord>,
    idx: usize,
}

/// A short-lived read proxy over a package-file cursor's current position.
pub struct PkgFileView {
    rec: PkgFileRecord,
}

impl View for PkgFileView {
    type V = PkgFileData;

    closed spec fn view(&self) -> PkgFileData {
        self.rec@
    }
}

impl RawIterator for PkgFileIterator {
    type View = PkgFileView;

    closed spec fn elems(&self) -> Seq<PkgFileData> {
        self.pkg_files.deep_view()
    }

    closed spec fn pos(&self) -> int {
        self.idx as int
    }

    closed spec fn inv(&self) -> bool {
        self.idx <= self.pkg_files.len()
    }

    proof fn lemma_inv_bounds(&self) {
    }

    fn is_end(&self) -> (r: bool) {
        self.idx == self.pkg_files.len()
    }

    fn next(&mut self) {
        self.idx = self.idx + 1;
    }

    fn as_view(&self) -> (v: PkgFileView) {
        PkgFileView { rec: self.pkg_files[self.idx].clone() }
    }
}

/// Accessors over the current package file.
impl PkgFileView {
    /// The file's name.
    pub fn file_name(&self) -> (r: String)
        ensures
            r@ == self@.file_name,
    {
        self.rec.file_name.clone()
    }

    /// The archive the file belongs to.
    pub fn archive(&self) -> (r: String)
        ensures
            r@ == self@.archive,
    {
        self.rec.archive.clone()
    }

    /// The release version the file carries, if any.
    pub fn version(&self) -> (r: Option<String>)
        ensures
            r.deep_view() == self@.version,
    {
        raw::clone_opt_string(&self.rec.version)
    }

    /// The origin the file carries, if any.
    pub fn origin(&self) -> (r: Option<String>)
        ensures
            r.deep_view() == self@.origin,
    {
        raw::clone_opt_string(&self.rec.origin)
    }

    /// The codename the file carries, if any.
    pub fn codename(&self) -> (r: Option<String>)
        ensures
            r.deep_view() == self@.codename,
    {
        raw::clone_opt_string(&self.rec.codename)
    }

    /// The label the file carries, if any.
    pub fn label(&self) -> (r: Option<String>)
        ensures
            r.deep_view() == self@.label,
    {
        raw::clone_opt_string(&self.rec.label)
    }

    /// The site the file was fetched from, if any.
    pub fn site(&self) -> (r: Option<String>)
        ensures
            r.deep_view() == self@.site,
    {
        raw::clone_opt_string(&self.rec.site)
    }

    /// The component the file belongs to.
    pub fn component(&self) -> (r: String)
        ensures
            r@ == self@.component,
    {
        self.rec.component.clone()
    }

    /// The architecture the file is for, if any.
    pub fn architecture(&self) -> (r: Option<String>)
        ensures
            r.deep_view() == self@.architecture,
    {
        raw::clone_opt_string(&self.rec.architecture)
    }

    /// The index type of the file.
    pub fn index_type(&self) -> (r: String)
        ensures
            r@ == self@.index_type,
    {
        self.rec.index_type.clone()
    }
}

/// Law: a full traversal does not disturb the cache, so two successive
/// traversals without an intervening reload range over the same package
/// sequence — in particular the same total count and the same names. The
/// hypotheses are exactly what [`Cache::iter`] guarantees: the handle left
/// unchanged, and each cursor ranging over the cache's packages.
pub proof fn lemma_traversal_idempotent(
    pre: Cache,
    mid: Cache,
    first: Seq<PkgData>,
    second: Seq<PkgData>,
)
    requires
        mid == pre,
        first == pre.pkgs(),
        second == mid.pkgs(),
    ensures
        second == first,
        second.len() == first.len(),
        forall|i: int| #![trigger second[i]] 0 <= i < first.len() ==> second[i].name == first[i].name,
{
}

/// Law: every package a find-by-name cursor yields bears the requested
/// name — the cursor's contents are exactly the matching packages of the
/// cache, so no stranger can appear.
pub proof fn lemma_found_packages_bear_the_name(s: Seq<PkgData>, name: Seq<char>, i: int)
    requires
        0 <= i < pkgs_named(s, name).len(),
    ensures
        pkgs_named(s, name)[i].name == name,
{
    s.lemma_filter_pred(|p: PkgData| p.name == name, i);
}

/// Law: a name no package of the cache bears yields an immediately
/// exhausted cursor.
pub proof fn lemma_absent_name_finds_nothing(s: Seq<PkgData>, name: Seq<char>)
    requires
        forall|i: int| 0 <= i < s.len() ==> s[i].name != name,
    ensures
        pkgs_named(s, name).len() == 0,
    decreases s.len(),
{
    reveal_with_fuel(Seq::filter, 2);
    if s.len() == 0 {
        assert(s =~= Seq::<PkgData>::empty());
    } else {
        lemma_absent_name_finds_nothing(s.drop_last(), name);
        assert(s.last() == s[s.len() - 1]);
    }
}

/// Law: a name some package of the cache bears yields a non-empty cursor.
pub proof fn lemma_present_name_is_found(s: Seq<PkgData>, name: Seq<char>, i: int)
    requires
        0 <= i < s.len(),
        s[i].name == name,
    ensures
        pkgs_named(s, name).len() > 0,
{
    s.lemma_filter_contains(|p: PkgData| p.name == name, i);
    assert(pkgs_named(s, name).contains(s[i]));
}

} // verus!
