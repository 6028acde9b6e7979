use deb2nix::config::{
    choose_config_path, config_path_candidates, default_libraries_config, get_pkg_for_lib,
    is_system_lib, libraries_config_or_default, LibrariesConfig, LIBRARIES_JSON_PATH,
};
use deb2nix::reconcile::{is_superseded, reconcile};
use deb2nix::resolver::{
    classify_library, needed_libraries, pending_lookups, resolve, LibraryClass, Resolution,
};

fn strings(v: &[&str]) -> Vec<String> {
    v.iter().map(|s| s.to_string()).collect()
}

fn pairs(v: &[(&str, &str)]) -> Vec<(String, String)> {
    v.iter().map(|(a, b)| (a.to_string(), b.to_string())).collect()
}

fn config(system: &[&str], map: &[(&str, &str)]) -> LibrariesConfig {
    let mut c = LibrariesConfig::new();
    for s in system {
        c.add_system_lib(s.to_string());
    }
    for (l, p) in map {
        c.add_mapping(l.to_string(), p.to_string());
    }
    c
}

fn run(required: &[&str], bundled: &[&str], c: &LibrariesConfig, located: &[(&str, &str)]) -> Resolution {
    resolve(&strings(required), &strings(bundled), c, &pairs(located))
}

#[test]
fn mapped_library_resolves_to_its_package() {
    let c = config(&[], &[("libfoo.so.2", "foo-pkg")]);
    let r = run(&["libfoo.so.2"], &[], &c, &[]);
    assert_eq!(r.resolved, strings(&["foo-pkg"]));
    assert!(r.missing.is_empty());
}

#[test]
fn bundled_library_is_self_satisfied() {
    let c = config(&[], &[]);
    let r = run(&["libbar.so.1"], &["libbar.so.1"], &c, &[]);
    assert!(r.resolved.is_empty());
    assert!(r.missing.is_empty());
}

#[test]
fn unresolvable_library_is_missing_without_index() {
    let c = config(&[], &[]);
    let r = run(&["libbaz.so.9"], &[], &c, &[]);
    assert!(r.resolved.is_empty());
    assert_eq!(r.missing, strings(&["libbaz.so.9"]));
}

#[test]
fn index_answer_resolves_external_library() {
    let c = config(&[], &[]);
    let r = run(&["libbaz.so.9", "libqux.so.1"], &[], &c, &[("libbaz.so.9", "baz")]);
    assert_eq!(r.resolved, strings(&["baz"]));
    assert_eq!(r.missing, strings(&["libqux.so.1"]));
}

#[test]
fn resolving_twice_gives_the_same_result() {
    let c = config(&["libc.so.6"], &[("libgtk-3.so.0", "gtk3")]);
    let req = ["libgtk-3.so.0", "libc.so.6", "libz.so.1", "libfoo.so"];
    let loc = [("libz.so.1", "zlib")];
    let a = run(&req, &["libfoo.so"], &c, &loc);
    let b = run(&req, &["libfoo.so"], &c, &loc);
    assert_eq!(a.resolved, b.resolved);
    assert_eq!(a.missing, b.missing);
}

#[test]
fn result_is_sorted_whatever_the_discovery_order() {
    let c = config(&[], &[("libX11.so.6", "xorg.libX11"), ("libasound.so.2", "alsa-lib")]);
    let a = run(&["libX11.so.6", "libzz.so", "libasound.so.2", "libaa.so"], &[], &c, &[]);
    let b = run(&["libaa.so", "libasound.so.2", "libzz.so", "libX11.so.6", "libaa.so"], &[], &c, &[]);
    assert_eq!(a.resolved, strings(&["alsa-lib", "xorg.libX11"]));
    assert_eq!(a.missing, strings(&["libaa.so", "libzz.so"]));
    assert_eq!(a.resolved, b.resolved);
    assert_eq!(a.missing, b.missing);
}

#[test]
fn system_library_never_appears() {
    let c = config(&["libc.so.6"], &[("libc.so.6", "glibc")]);
    let r = run(&["libc.so.6"], &[], &c, &[("libc.so.6", "glibc")]);
    assert!(r.resolved.is_empty());
    assert!(r.missing.is_empty());
}

#[test]
fn mapping_wins_over_bundled_file() {
    let c = config(&[], &[("libssl.so.3", "openssl")]);
    let r = run(&["libssl.so.3"], &["libssl.so.3"], &c, &[]);
    assert_eq!(r.resolved, strings(&["openssl"]));
    assert!(r.missing.is_empty());
}

#[test]
fn each_library_ends_in_one_place() {
    let c = config(&[], &[("liba.so", "pa")]);
    let r = run(&["liba.so", "libb.so", "libc.so"], &[], &c, &[("libb.so", "pb")]);
    assert_eq!(r.resolved, strings(&["pa", "pb"]));
    assert_eq!(r.missing, strings(&["libc.so"]));
    for m in &r.missing {
        assert!(!r.resolved.contains(m));
    }
}

#[test]
fn two_libraries_of_one_package_give_it_once() {
    let c = config(&[], &[("libnss3.so", "nss"), ("libsmime3.so", "nss")]);
    let r = run(&["libsmime3.so", "libnss3.so"], &[], &c, &[]);
    assert_eq!(r.resolved, strings(&["nss"]));
}

#[test]
fn nothing_required_resolves_to_nothing() {
    let c = default_libraries_config();
    let r = run(&[], &["libx.so"], &c, &[]);
    assert!(r.resolved.is_empty());
    assert!(r.missing.is_empty());
}

#[test]
fn classification_follows_the_strategy_order() {
    let c = config(&["libc.so.6"], &[("libm1.so", "m1")]);
    let bundled = strings(&["libm1.so", "libb.so"]);
    assert!(matches!(classify_library("libc.so.6", &bundled, &c), LibraryClass::System));
    match classify_library("libm1.so", &bundled, &c) {
        LibraryClass::Mapped(p) => assert_eq!(p, "m1"),
        _ => panic!("expected a mapping"),
    }
    assert!(matches!(classify_library("libb.so", &bundled, &c), LibraryClass::Bundled));
    assert!(matches!(classify_library("libq.so", &bundled, &c), LibraryClass::External));
}

#[test]
fn needed_and_pending_libraries() {
    let c = config(&["libc.so.6"], &[("libm1.so", "m1")]);
    let req = strings(&["libq.so", "libc.so.6", "libm1.so", "libb.so", "libq.so"]);
    let bundled = strings(&["libm1.so", "libb.so"]);
    assert_eq!(needed_libraries(&req, &bundled, &c), strings(&["libm1.so", "libq.so"]));
    assert_eq!(pending_lookups(&req, &bundled, &c), strings(&["libq.so"]));
}

#[test]
fn default_config_knows_the_c_runtime() {
    let c = default_libraries_config();
    assert_eq!(c.system_libs.len(), 10);
    assert!(is_system_lib(&c, "libc.so.6"));
    assert!(is_system_lib(&c, "libstdc++.so.6"));
    assert!(!is_system_lib(&c, "libgtk-3.so.0"));
    assert_eq!(get_pkg_for_lib(&c, "libc.so.6"), None);
}

#[test]
fn loaded_config_replaces_default_whole() {
    let loaded = config(&["libonly.so"], &[("liba.so", "a")]);
    let c = libraries_config_or_default(Some(loaded));
    assert_eq!(c.system_libs, strings(&["libonly.so"]));
    assert!(!is_system_lib(&c, "libc.so.6"));
    let d = libraries_config_or_default(None);
    assert!(is_system_lib(&d, "libc.so.6"));
}

#[test]
fn mapping_is_replaced_not_repeated() {
    let mut c = config(&[], &[("liba.so", "old"), ("libb.so", "b")]);
    c.add_mapping("liba.so".to_string(), "new".to_string());
    assert_eq!(c.lib_to_pkg_map.len(), 2);
    assert_eq!(get_pkg_for_lib(&c, "liba.so"), Some("new".to_string()));
    assert_eq!(get_pkg_for_lib(&c, "libb.so"), Some("b".to_string()));
    assert_eq!(get_pkg_for_lib(&c, "libc.so"), None);
}

#[test]
fn config_path_prefers_the_first_present() {
    let c = config_path_candidates("/src/app");
    assert_eq!(c, strings(&["libraries.json", "../libraries.json", "/src/app/libraries.json"]));
    assert_eq!(choose_config_path(&c, &vec![false, true, true]), "../libraries.json");
    assert_eq!(choose_config_path(&c, &vec![false, false, true]), "/src/app/libraries.json");
    assert_eq!(choose_config_path(&c, &vec![false, false, false]), LIBRARIES_JSON_PATH);
}

#[test]
fn newer_major_version_drops_older_family() {
    let r = reconcile(&strings(&["toolkitA.v5", "toolkitA.v6"]));
    assert_eq!(r, strings(&["toolkitA.v6"]));
}

#[test]
fn reconcile_keeps_unrelated_and_lone_versions() {
    let input = strings(&["gtk3", "qt5.qtbase", "qt6.qtbase", "qt5.qtsvg", "toolkitB.v5"]);
    let r = reconcile(&input);
    assert_eq!(r, strings(&["gtk3", "qt6.qtbase", "toolkitB.v5"]));
    assert!(is_superseded("qt5.qtsvg", &input));
    assert!(!is_superseded("toolkitB.v5", &input));
    assert_eq!(reconcile(&strings(&["lib55", "lib66"])), strings(&["lib55", "lib66"]));
    assert!(reconcile(&Vec::new()).is_empty());
}
