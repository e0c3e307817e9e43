use std::cmp::Ordering;

use apt_pkg_native::Cache;

#[test]
fn tilde_sorts_before_base() {
    let cache = Cache::get_singleton();
    assert_eq!(Ordering::Less, cache.compare_versions("3.0~1", "3.0"));
    assert_eq!(Ordering::Greater, cache.compare_versions("3.0", "3.0~1"));
}

#[test]
fn sorting_with_the_engine_order() {
    let cache = Cache::get_singleton();
    let mut packages = vec!["3.0", "3.1", "3.0~1"];
    packages.sort_by(|left, right| cache.compare_versions(left, right));
    assert_eq!(vec!["3.0~1", "3.0", "3.1"], packages);
}

#[test]
fn epochs_dominate() {
    let cache = Cache::get_singleton();
    assert_eq!(Ordering::Greater, cache.compare_versions("1:1.0", "2.0"));
    assert_eq!(Ordering::Less, cache.compare_versions("1:1.0", "2:0.1"));
    assert_eq!(Ordering::Equal, cache.compare_versions("0:2.0", "2.0"));
}

#[test]
fn revisions_break_ties() {
    let cache = Cache::get_singleton();
    assert_eq!(Ordering::Greater, cache.compare_versions("1.0-1", "1.0"));
    assert_eq!(Ordering::Equal, cache.compare_versions("1.0-0", "1.0"));
    assert_eq!(Ordering::Less, cache.compare_versions("1.0-1", "1.0-2"));
}

#[test]
fn leading_zeros_do_not_count() {
    let cache = Cache::get_singleton();
    assert_eq!(Ordering::Equal, cache.compare_versions("3.00", "3.0"));
    assert_eq!(Ordering::Less, cache.compare_versions("3.09", "3.10"));
}

#[test]
fn letters_sort_before_other_punctuation() {
    let cache = Cache::get_singleton();
    assert_eq!(Ordering::Less, cache.compare_versions("1.0a", "1.0+"));
    assert_eq!(Ordering::Greater, cache.compare_versions("1.0+", "1.0"));
}
