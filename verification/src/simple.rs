//! Owned snapshot structs, and constructors that copy them out of views.
//!
//! A snapshot is cursor-independent: once built from a view, it has no
//! relation to the engine's lifetime. Each constructor's contract ties the
//! snapshot's fields to the abstract contents of the view it was read from.

use vstd::prelude::*;

use crate::citer::RawIterator;
use crate::raw::PkgData;
use crate::raw::PkgFileData;
use crate::raw::VerData;
use crate::raw::VerFileData;
use crate::sane;

verus! {

/// An owned copy of a package's top-level facts.
#[derive(Clone, Debug)]
pub struct BinaryPackage {
    pub name: String,
    pub arch: String,
    pub current_version: Option<String>,
    pub candidate_version: Option<String>,
}

/// Whether a snapshot holds exactly a package's top-level facts.
pub open spec fn binary_package_matches(r: BinaryPackage, p: PkgData) -> bool {
    &&& r.name@ == p.name
    &&& r.arch@ == p.arch
    &&& r.current_version.deep_view() == p.current_version
    &&& r.candidate_version.deep_view() == p.candidate_version
}

impl BinaryPackage {
    /// Copy the current package out of a view.
    pub fn new(view: &sane::PkgView) -> (r: Self)
        ensures
            binary_package_matches(r, view@),
    {
        BinaryPackage {
            name: view.name(),
            arch: view.arch(),
            current_version: view.current_version(),
            candidate_version: view.candidate_version(),
        }
    }
}

/// The description fields a version's first backing file records.
#[derive(Clone, Debug)]
pub struct VersionDetails {
    pub short_desc: Option<String>,
    pub long_desc: Option<String>,
    pub maintainer: Option<String>,
    pub homepage: Option<String>,
}

/// Whether the details are those of the first of `files`, or all absent
/// when a version has no backing file.
pub open spec fn details_match(d: VersionDetails, files: Seq<VerFileData>) -> bool {
    if files.len() > 0 {
        &&& d.short_desc.deep_view() == files[0].short_desc
        &&& d.long_desc.deep_view() == files[0].long_desc
        &&& d.maintainer.deep_view() == files[0].maintainer
        &&& d.homepage.deep_view() == files[0].homepage
    } else {
        &&& d.short_desc is None
        &&& d.long_desc is None
        &&& d.maintainer is None
        &&& d.homepage is None
    }
}

impl Default for VersionDetails {
    /// Details with every field absent.
    fn default() -> (d: Self)
        ensures
            d.short_desc is None,
            d.long_desc is None,
            d.maintainer is None,
            d.homepage is None,
    {
        Self { short_desc: None, long_desc: None, maintainer: None, homepage: None }
    }
}

/// An owned copy of one version of a package.
#[derive(Clone, Debug)]
pub struct Version {
    pub version: String,
    pub arch: String,
    pub section: Option<String>,
    pub source_package: String,
    pub source_version: String,
    pub priority: i32,
    pub details: VersionDetails,
}

/// Whether a snapshot holds exactly a version's facts, details included.
pub open spec fn version_matches(r: Version, d: VerData) -> bool {
    &&& r.version@ == d.version
    &&& r.arch@ == d.arch
    &&& r.section.deep_view() == d.section
    &&& r.source_package@ == d.source_package
    &&& r.source_version@ == d.source_version
    &&& r.priority as int == d.priority
    &&& details_match(r.details, d.files)
}

impl Version {
    /// Copy the current version out of a view. A version carries either no
    /// details or the details of its first backing file.
    pub fn new(view: &sane::VerView) -> (r: Self)
        ensures
            version_matches(r, view@),
    {
        let mut oi = view.origin_iter();
        let details = match oi.next() {
            Some(ver_file) => {
                let vf = ver_file.get();
                VersionDetails {
                    short_desc: vf.short_desc(),
                    long_desc: vf.long_desc(),
                    maintainer: vf.maintainer(),
                    homepage: vf.homepage(),
                }
            },
            None => Default::default(),
        };
        Version {
            version: view.version(),
            arch: view.arch(),
            section: view.section(),
            source_package: view.source_package(),
            source_version: view.source_version(),
            priority: view.priority(),
            details,
        }
    }
}

/// An owned copy of the origin metadata of one package file.
#[derive(Clone, Debug)]
pub struct Origin {
    pub file_name: String,
    pub archive: String,
    pub version: Option<String>,
    pub origin: Option<String>,
    pub codename: Option<String>,
    pub label: Option<String>,
    pub site: Option<String>,
    pub component: String,
    pub architecture: Option<String>,
    pub index_type: String,
}

/// Whether a snapshot holds exactly a package file's origin metadata.
pub open spec fn origin_matches(o: Origin, p: PkgFileData) -> bool {
    &&& o.file_name@ == p.file_name
    &&& o.archive@ == p.archive
    &&& o.version.deep_view() == p.version
    &&& o.origin.deep_view() == p.origin
    &&& o.codename.deep_view() == p.codename
    &&& o.label.deep_view() == p.label
    &&& o.site.deep_view() == p.site
    &&& o.component@ == p.component
    &&& o.architecture.deep_view() == p.architecture
    &&& o.index_type@ == p.index_type
}

impl Origin {
    /// Copy the origin metadata of a version-file's first backing package
    /// file, if it has one.
    pub fn from_ver_file(view: &sane::VerFileView) -> (r: Option<Self>)
        ensures
            match r {
                Option::Some(o) => view@.pkg_files.len() > 0 && origin_matches(
                    o,
                    view@.pkg_files[0],
                ),
                Option::None => view@.pkg_files.len() == 0,
            },
    {
        let mut it = view.file();
        match it.next() {
            Some(b) => Some(Self::new(b.get())),
            None => None,
        }
    }

    /// Copy the current package file out of a view.
    pub fn new(view: &sane::PkgFileView) -> (r: Self)
        ensures
            origin_matches(r, view@),
    {
        Origin {
            file_name: view.file_name(),
            archive: view.archive(),
            version: view.version(),
            origin: view.origin(),
            codename: view.codename(),
            label: view.label(),
            site: view.site(),
            component: view.component(),
            architecture: view.architecture(),
            index_type: view.index_type(),
        }
    }
}

/// An owned copy of one version together with the origins of every file its
/// metadata came from.
#[derive(Clone, Debug)]
pub struct VersionOrigins {
    pub version: Version,
    pub origins: Vec<Origin>,
}

impl VersionOrigins {
    /// Copy the current version and all of its origins out of a view.
    ///
    /// Every file of the version must have a backing package file; the cache
    /// engine guarantees as much for the versions it stores.
    #[verifier::loop_isolation(false)]
    pub fn new(view: &sane::VerView) -> (r: Self)
        requires
            forall|i: int|
                #![trigger view@.files[i]]
                0 <= i < view@.files.len() ==> view@.files[i].pkg_files.len() > 0,
        ensures
            version_matches(r.version, view@),
            r.origins@.len() == view@.files.len(),
            forall|i: int|
                #![trigger r.origins@[i]]
                0 <= i < view@.files.len() ==> origin_matches(
                    r.origins@[i],
                    view@.files[i].pkg_files[0],
                ),
    {
        let version = Version::new(view);
        let ghost all = view@.files;
        let mut origins: Vec<Origin> = Vec::new();
        let mut it = view.origin_iter();
        let ghost mut k: int = 0;
        loop
            invariant
                it.inv(),
                0 <= k <= all.len(),
                it.remaining() =~= all.skip(k),
                origins@.len() == k,
                forall|i: int|
                    #![trigger origins@[i]]
                    0 <= i < k ==> origin_matches(origins@[i], all[i].pkg_files[0]),
            decreases all.len() - k,
        {
            match it.next() {
                Some(b) => {
                    proof {
                        assert(b@ == all[k]);
                    }
                    let o = match Origin::from_ver_file(b.get()) {
                        Some(o) => o,
                        None => unreached(),
                    };
                    origins.push(o);
                    proof {
                        k = k + 1;
                        assert(it.remaining() =~= all.skip(k));
                    }
                },
                None => {
                    proof {
                        assert(all.skip(k).len() == all.len() - k);
                        assert(k == all.len());
                    }
                    return VersionOrigins { version, origins };
                },
            }
        }
    }
}

/// An owned copy of a package together with every version the cache knows
/// of it.
#[derive(Clone, Debug)]
pub struct BinaryPackageVersions {
    pub pkg: BinaryPackage,
    pub versions: Vec<Version>,
}

impl BinaryPackageVersions {
    /// Copy the current package and all of its versions out of a view.
    #[verifier::loop_isolation(false)]
    pub fn new(view: &sane::PkgView) -> (r: Self)
        ensures
            binary_package_matches(r.pkg, view@),
            r.versions@.len() == view@.versions.len(),
            forall|i: int|
                #![trigger r.versions@[i]]
                0 <= i < view@.versions.len() ==> version_matches(r.versions@[i], view@.versions[i]),
    {
        let pkg = BinaryPackage::new(view);
        let ghost all = view@.versions;
        let mut versions: Vec<Version> = Vec::new();
        let mut it = view.versions();
        let ghost mut k: int = 0;
        loop
            invariant
                it.inv(),
                0 <= k <= all.len(),
                it.remaining() =~= all.skip(k),
                versions@.len() == k,
                forall|i: int|
                    #![trigger versions@[i]]
                    0 <= i < k ==> version_matches(versions@[i], all[i]),
            decreases all.len() - k,
        {
            match it.next() {
                Some(b) => {
                    proof {
                        assert(b@ == all[k]);
                    }
                    let v = Version::new(b.get());
                    versions.push(v);
                    proof {
                        k = k + 1;
                        assert(it.remaining() =~= all.skip(k));
                    }
                },
                None => {
                    proof {
                        assert(all.skip(k).len() == all.len() - k);
                        assert(k == all.len());
                    }
                    return BinaryPackageVersions { pkg, versions };
                },
            }
        }
    }
}

} // verus!
