use apt_pkg_native::simple::BinaryPackage;
use apt_pkg_native::simple::BinaryPackageVersions;
use apt_pkg_native::simple::Origin;
use apt_pkg_native::simple::Version;
use apt_pkg_native::simple::VersionOrigins;
use apt_pkg_native::Cache;
use apt_pkg_native::PkgFileRecord;
use apt_pkg_native::PkgRecord;
use apt_pkg_native::VerFileRecord;
use apt_pkg_native::VerRecord;

fn one_package() -> PkgRecord {
    PkgRecord {
        name: "hello".to_string(),
        arch: "amd64".to_string(),
        current_version: Some("2.10-3".to_string()),
        candidate_version: Some("2.10-3".to_string()),
        versions: vec![VerRecord {
            version: "2.10-3".to_string(),
            arch: "amd64".to_string(),
            section: Some("devel".to_string()),
            source_package: "hello".to_string(),
            source_version: "2.10-3".to_string(),
            priority: 100,
            files: vec![VerFileRecord {
                short_desc: Some("example program".to_string()),
                long_desc: Some("an example program that greets".to_string()),
                maintainer: Some("Someone <someone@example.org>".to_string()),
                homepage: Some("https://example.org/hello".to_string()),
                pkg_files: vec![PkgFileRecord {
                    file_name: "/var/lib/lists/x_Packages".to_string(),
                    archive: "stable".to_string(),
                    version: Some("12.1".to_string()),
                    origin: Some("Origin".to_string()),
                    codename: Some("stable".to_string()),
                    label: Some("Label".to_string()),
                    site: Some("deb.example.org".to_string()),
                    component: "main".to_string(),
                    architecture: Some("amd64".to_string()),
                    index_type: "Debian Package Index".to_string(),
                }],
            }],
        }],
    }
}

#[test]
fn binary_package_copies_fields() {
    let mut cache = Cache::with_packages(vec![one_package()]);
    let mut it = cache.iter();
    let view = it.next().expect("one package");
    let pkg = BinaryPackage::new(view.get());
    assert_eq!("hello", pkg.name);
    assert_eq!("amd64", pkg.arch);
    assert_eq!(Some("2.10-3".to_string()), pkg.current_version);
    assert_eq!(Some("2.10-3".to_string()), pkg.candidate_version);
}

#[test]
fn version_copies_details_from_first_file() {
    let mut cache = Cache::with_packages(vec![one_package()]);
    let mut it = cache.iter();
    let view = it.next().expect("one package");
    let mut vers = view.get().versions();
    let vview = vers.next().expect("one version");
    let ver = Version::new(vview.get());
    assert_eq!("2.10-3", ver.version);
    assert_eq!(Some("devel".to_string()), ver.section);
    assert_eq!("hello", ver.source_package);
    assert_eq!(100, ver.priority);
    assert_eq!(Some("example program".to_string()), ver.details.short_desc);
    assert_eq!(
        Some("https://example.org/hello".to_string()),
        ver.details.homepage
    );
}

#[test]
fn version_origins_collects_backing_files() {
    let mut cache = Cache::with_packages(vec![one_package()]);
    let mut it = cache.iter();
    let view = it.next().expect("one package");
    let mut vers = view.get().versions();
    let vview = vers.next().expect("one version");
    let vo = VersionOrigins::new(vview.get());
    assert_eq!("2.10-3", vo.version.version);
    assert_eq!(1, vo.origins.len());
    assert_eq!("stable", vo.origins[0].archive);
    assert_eq!("main", vo.origins[0].component);
    assert_eq!(Some("deb.example.org".to_string()), vo.origins[0].site);
    assert_eq!("Debian Package Index", vo.origins[0].index_type);
}

#[test]
fn origin_from_ver_file_follows_first_backing_file() {
    let mut cache = Cache::with_packages(vec![one_package()]);
    let mut it = cache.iter();
    let view = it.next().expect("one package");
    let mut vers = view.get().versions();
    let vview = vers.next().expect("one version");
    let mut files = vview.get().origin_iter();
    let fview = files.next().expect("one version-file");
    let origin = Origin::from_ver_file(fview.get()).expect("backing file present");
    assert_eq!("/var/lib/lists/x_Packages", origin.file_name);
    assert_eq!(Some("Origin".to_string()), origin.origin);
    assert_eq!(Some("Label".to_string()), origin.label);
    assert_eq!(Some("stable".to_string()), origin.codename);
    assert_eq!(Some("12.1".to_string()), origin.version);
    assert_eq!(Some("amd64".to_string()), origin.architecture);
}

#[test]
fn binary_package_versions_collects_all() {
    let mut cache = Cache::with_packages(vec![one_package()]);
    let mut m = cache.iter().map(BinaryPackageVersions::new);
    let all = m.next().expect("one package");
    assert_eq!("hello", all.pkg.name);
    assert_eq!(1, all.versions.len());
    assert_eq!("2.10-3", all.versions[0].version);
    assert_eq!(None, m.next().map(|x| x.pkg.name));
}

#[test]
fn absent_fields_read_as_none() {
    let bare = PkgRecord {
        name: "bare".to_string(),
        arch: "all".to_string(),
        current_version: None,
        candidate_version: None,
        versions: vec![VerRecord {
            version: "0.1".to_string(),
            arch: "all".to_string(),
            section: None,
            source_package: "bare".to_string(),
            source_version: "0.1".to_string(),
            priority: 0,
            files: Vec::new(),
        }],
    };
    let mut cache = Cache::with_packages(vec![bare]);
    let mut it = cache.iter();
    let view = it.next().expect("one package");
    assert_eq!(None, view.get().current_version());
    assert_eq!(None, view.get().candidate_version());
    let mut vers = view.get().versions();
    let vview = vers.next().expect("one version");
    assert_eq!(None, vview.get().section());
    let ver = Version::new(vview.get());
    assert_eq!(None, ver.details.short_desc);
    assert_eq!(None, ver.details.maintainer);
}

#[test]
fn any_and_all_short_circuit_on_names() {
    let packages = vec![
        PkgRecord {
            name: "alpha".to_string(),
            arch: "amd64".to_string(),
            current_version: None,
            candidate_version: None,
            versions: Vec::new(),
        },
        PkgRecord {
            name: "beta".to_string(),
            arch: "amd64".to_string(),
            current_version: Some("1".to_string()),
            candidate_version: None,
            versions: Vec::new(),
        },
    ];
    let mut cache = Cache::with_packages(packages);
    assert!(cache.iter().any(|v| v.name() == "beta"));
    assert!(!cache.iter().any(|v| v.name() == "gamma"));
    assert!(cache.iter().all(|v| v.arch() == "amd64"));
    assert!(!cache.iter().all(|v| v.current_version().is_some()));
}
