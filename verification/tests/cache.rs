use apt_pkg_native::simple;
use apt_pkg_native::simple::BinaryPackage;
use apt_pkg_native::Cache;
use apt_pkg_native::CacheError;
use apt_pkg_native::PkgFileRecord;
use apt_pkg_native::PkgRecord;
use apt_pkg_native::VerFileRecord;
use apt_pkg_native::VerRecord;

fn pkg_file(archive: &str) -> PkgFileRecord {
    PkgFileRecord {
        file_name: "/var/lib/lists/archive_dists_stable_main_binary-amd64_Packages".to_string(),
        archive: archive.to_string(),
        version: Some("1.0".to_string()),
        origin: Some("TestOrigin".to_string()),
        codename: Some("stable".to_string()),
        label: Some("TestLabel".to_string()),
        site: Some("archive.example.org".to_string()),
        component: "main".to_string(),
        architecture: Some("amd64".to_string()),
        index_type: "Debian Package Index".to_string(),
    }
}

fn ver_file(short_desc: &str) -> VerFileRecord {
    VerFileRecord {
        short_desc: Some(short_desc.to_string()),
        long_desc: Some(format!("{short_desc}, at length")),
        maintainer: Some("Maintainer <maintainer@example.org>".to_string()),
        homepage: Some("https://example.org".to_string()),
        pkg_files: vec![pkg_file("stable")],
    }
}

fn version(ver: &str, priority: i32) -> VerRecord {
    VerRecord {
        version: ver.to_string(),
        arch: "amd64".to_string(),
        section: Some("admin".to_string()),
        source_package: "src".to_string(),
        source_version: ver.to_string(),
        priority,
        files: vec![ver_file("a package")],
    }
}

fn package(name: &str, vers: &[&str]) -> PkgRecord {
    PkgRecord {
        name: name.to_string(),
        arch: "amd64".to_string(),
        current_version: vers.first().map(|v| v.to_string()),
        candidate_version: vers.last().map(|v| v.to_string()),
        versions: vers.iter().map(|v| version(v, 500)).collect(),
    }
}

fn sample_cache() -> Cache {
    Cache::with_packages(vec![
        package("apt", &["2.6.1"]),
        package("base-files", &["12.4", "12.5"]),
        package("zsh", &["5.9-4"]),
    ])
}

#[test]
fn pretty_print_all() {
    let mut cache = sample_cache();
    let read_all_and_count = cache.iter().map(simple::BinaryPackageVersions::new).count();
    assert!(read_all_and_count > 2);
    assert_eq!(read_all_and_count, cache.iter().count());
}

#[test]
fn find_a_package() {
    let mut cache = sample_cache();

    if let Some(view) = cache
        .find_by_name("apt")
        .expect("name holds no NUL")
        .next()
    {
        assert_eq!("apt", view.get().name());
    } else {
        panic!("not found!");
    }

    assert!(cache
        .find_by_name("this-package-doesnt-exist-and-if-someone-makes-it-ill-be-really-angry")
        .expect("name holds no NUL")
        .next()
        .is_none());
}

#[test]
#[allow(unused_variables, unused_mut)]
fn find_by_filter_map() {
    let mut cache = Cache::get_singleton();
}

#[test]
fn filter_map_finds_dashed_names() {
    let mut cache = sample_cache();
    let mut interesting = cache.iter().filter_map(|f| {
        let name = f.name();
        if name.contains('-') {
            Some(name)
        } else {
            None
        }
    });
    assert_eq!(Some("base-files".to_string()), interesting.next());
    assert_eq!(None, interesting.next());
}

use std::cmp::Ordering;

#[test]
fn compare_versions() {
    let cache = Cache::get_singleton();
    assert_eq!(Ordering::Less, cache.compare_versions("3.0", "3.1"));
    assert_eq!(Ordering::Greater, cache.compare_versions("3.1", "3.0"));
    assert_eq!(Ordering::Equal, cache.compare_versions("3.0", "3.0"));
}

#[test]
fn reload() {
    let mut cache = Cache::get_singleton();
    cache.reload();
    cache.reload();
    cache.reload();
    cache.reload();
}

#[test]
fn reload_keeps_contents() {
    let mut cache = sample_cache();
    cache.reload();
    cache.reload();
    assert_eq!(3, cache.iter().count());
}

#[test]
fn find_rejects_embedded_nul() {
    let mut cache = sample_cache();
    match cache.find_by_name("a\0pt") {
        Err(e) => assert_eq!(CacheError::InvalidArgument, e),
        Ok(_) => panic!("expected an error"),
    }
    match cache.find_by_name_arch("apt", "amd64\0") {
        Err(e) => assert_eq!(CacheError::InvalidArgument, e),
        Ok(_) => panic!("expected an error"),
    }
    assert!(cache.find_by_name_arch("apt", "amd64").is_ok());
}

#[test]
fn find_by_name_arch_matches() {
    let mut cache = sample_cache();
    let mut found = cache.find_by_name_arch("zsh", "amd64").unwrap();
    let first = found.next();
    assert_eq!("zsh", first.as_ref().unwrap().get().name());
    assert_eq!("amd64", first.as_ref().unwrap().get().arch());

    assert!(cache
        .find_by_name_arch("zsh", "riscv64")
        .unwrap()
        .next()
        .is_none());
}

#[test]
fn traversal_is_idempotent() {
    let mut cache = sample_cache();
    let first: Vec<String> = {
        let mut names = Vec::new();
        let mut m = cache.iter().map(|v| v.name());
        while let Some(name) = m.next() {
            names.push(name);
        }
        names
    };
    let second: Vec<String> = {
        let mut names = Vec::new();
        let mut m = cache.iter().map(|v| v.name());
        while let Some(name) = m.next() {
            names.push(name);
        }
        names
    };
    assert_eq!(first.len(), second.len());
    assert_eq!(first, second);
}

#[test]
fn materializing_views_matches_skipping_them() {
    let mut cache = sample_cache();
    let materialized = cache.iter().map(|v| BinaryPackage::new(v)).count();
    let skipped = cache.iter().count();
    assert_eq!(materialized, skipped);
    let identity_count = cache.iter().map(|_v| ()).count();
    assert_eq!(identity_count, skipped);
    assert_eq!(3, skipped);
}

#[test]
fn empty_cache_has_no_packages() {
    let mut cache = Cache::get_singleton();
    assert_eq!(0, cache.iter().count());
    assert!(cache.find_by_name("apt").unwrap().next().is_none());
}

#[test]
fn exhausted_cursor_stays_exhausted() {
    let mut cache = Cache::with_packages(vec![package("only", &["1"])]);
    let mut it = cache.iter();
    assert!(it.next().is_some());
    assert!(it.next().is_none());
    assert!(it.next().is_none());
}
