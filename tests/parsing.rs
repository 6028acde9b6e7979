use deb2nix::index::{
    first_index_query, next_index_step, package_from_index_output, strip_output_suffix,
    unwrap_parens, IndexQuery, IndexStep,
};
use deb2nix::input::{classify_input, detect_package_type, download_name, InputKind};
use deb2nix::metadata::{normalize_arch, package_info_from_control, PackageInfo, PackageType};
use deb2nix::scan::{add_needed, check_tools, find_data_archive};
use deb2nix::text::{
    insert_sorted, join_with, last_segment, less_than, same_text, split, trim, trimmed_lines,
};

fn strings(v: &[&str]) -> Vec<String> {
    v.iter().map(|s| s.to_string()).collect()
}

#[test]
fn architecture_codes_are_normalized() {
    assert_eq!(normalize_arch("amd64"), "x86_64-linux");
    assert_eq!(normalize_arch("arm64"), "aarch64-linux");
    assert_eq!(normalize_arch("riscv64"), "riscv64");
}

#[test]
fn control_fields_fill_the_metadata() {
    let listing = "Package: demo-app\nVersion: 1.2.3 \r\nArchitecture: amd64\nMaintainer: x\nDescription:  A demo  \n";
    let info = package_info_from_control(listing);
    assert_eq!(info.name, "demo-app");
    assert_eq!(info.version, "1.2.3");
    assert_eq!(info.arch, "x86_64-linux");
    assert_eq!(info.description, "A demo");
    assert!(info.deps.is_empty());
}

#[test]
fn control_fields_absent_or_repeated() {
    let info = package_info_from_control("Package: a\nPackage: b\n Version: 9\nArchitecture: riscv64");
    assert_eq!(info.name, "b");
    assert_eq!(info.version, "");
    assert_eq!(info.arch, "riscv64");
    assert_eq!(info.description, "");
    let blank = PackageInfo::default();
    assert_eq!(blank.name, "");
}

#[test]
fn needed_libraries_accumulate_as_a_sorted_set() {
    let mut req: Vec<String> = Vec::new();
    add_needed(&mut req, "libz.so.1\n  libgtk-3.so.0  \n\n\t\nlibc.so.6\n");
    add_needed(&mut req, "libc.so.6\r\nlibX11.so.6\n");
    add_needed(&mut req, "");
    assert_eq!(req, strings(&["libX11.so.6", "libc.so.6", "libgtk-3.so.0", "libz.so.1"]));
}

#[test]
fn data_archive_is_found_by_prefix() {
    let names = strings(&["debian-binary", "control.tar.xz", "data.tar.zst", "data.tar.gz"]);
    assert_eq!(find_data_archive(&names), Some("data.tar.zst".to_string()));
    assert_eq!(find_data_archive(&strings(&["debian-binary", "data.tgz"])), None);
}

#[test]
fn missing_tools_are_named() {
    let tools = strings(&["patchelf", "ar", "tar"]);
    assert_eq!(check_tools(&tools, &vec![true, true, true]), Ok(()));
    assert_eq!(
        check_tools(&tools, &vec![false, true, false]),
        Err("Missing required tools: patchelf, tar".to_string())
    );
}

#[test]
fn index_output_names_the_package() {
    assert_eq!(package_from_index_output("xorg.libX11.out\n"), Some("libX11".to_string()));
    assert_eq!(package_from_index_output("zlib\nother\n"), Some("zlib".to_string()));
    assert_eq!(package_from_index_output("  \n\n"), None);
    assert_eq!(package_from_index_output(""), None);
    assert_eq!(package_from_index_output("openssl.lib"), Some("openssl".to_string()));
}

#[test]
fn index_output_prefers_plain_lines() {
    assert_eq!(
        package_from_index_output("(glibc.debug)\nglibc.out\n"),
        Some("glibc".to_string())
    );
    assert_eq!(package_from_index_output("(libpng.dev)\n"), Some("libpng".to_string()));
    assert_eq!(package_from_index_output(".out\n"), None);
}

#[test]
fn output_suffix_and_parentheses_are_removed() {
    assert_eq!(strip_output_suffix("a.b.dev"), "a.b");
    assert_eq!(strip_output_suffix("a.b.doc"), "a.b.doc");
    assert_eq!(strip_output_suffix("out"), "out");
    assert_eq!(unwrap_parens("(x.y)"), "x.y");
    assert_eq!(unwrap_parens("x.y"), "x.y");
    assert_eq!(unwrap_parens("("), "");
}

#[test]
fn index_queries_go_from_root_to_anywhere() {
    let q = first_index_query("libfoo.so.1");
    match &q {
        IndexQuery::AtRoot(p) => assert_eq!(p, "/lib/libfoo.so.1"),
        _ => panic!("expected a query at the root"),
    }
    match next_index_step("libfoo.so.1", &q, true, "foo.out\n") {
        IndexStep::Found(p) => assert_eq!(p, "foo"),
        _ => panic!("expected a package"),
    }
    let next = match next_index_step("libfoo.so.1", &q, false, "foo.out\n") {
        IndexStep::Ask(n) => n,
        _ => panic!("expected another query"),
    };
    match &next {
        IndexQuery::Anywhere(n) => assert_eq!(n, "libfoo.so.1"),
        _ => panic!("expected a query anywhere"),
    }
    assert!(matches!(next_index_step("libfoo.so.1", &q, true, "\n"), IndexStep::Ask(_)));
    match next_index_step("libfoo.so.1", &next, false, "bar\n") {
        IndexStep::Found(p) => assert_eq!(p, "bar"),
        _ => panic!("expected a package"),
    }
    assert!(matches!(next_index_step("libfoo.so.1", &next, true, ""), IndexStep::NotFound));
}

#[test]
fn text_primitives() {
    assert_eq!(trim(" \t a b \u{3000}\n"), "a b");
    assert_eq!(trim("   "), "");
    assert_eq!(split("a.b..c", '.'), strings(&["a", "b", "", "c"]));
    assert_eq!(split("", '.'), strings(&[""]));
    assert_eq!(last_segment("xorg.libX11", '.'), "libX11");
    assert_eq!(last_segment("zlib", '.'), "zlib");
    assert_eq!(last_segment("a.", '.'), "");
    assert_eq!(trimmed_lines(" x \n\n y\r\n"), strings(&["x", "y"]));
    assert_eq!(join_with(&strings(&["a", "b", "c"]), ", "), "a, b, c");
    assert_eq!(join_with(&Vec::new(), ", "), "");
    assert!(same_text("abc", "abc"));
    assert!(!same_text("abc", "ab"));
}

#[test]
fn lexicographic_order_matches_string_order() {
    let words = ["", "a", "ab", "b", "B", "é", "xorg.libX11", "xorg.libXext", "z"];
    for a in words.iter() {
        for b in words.iter() {
            assert_eq!(less_than(a, b), a < b, "{} < {}", a, b);
        }
    }
    let mut v: Vec<String> = Vec::new();
    for w in ["pango", "cairo", "pango", "alsa-lib", "Zed"] {
        insert_sorted(&mut v, w.to_string());
    }
    assert_eq!(v, strings(&["Zed", "alsa-lib", "cairo", "pango"]));
}

#[test]
fn inputs_are_classified() {
    assert_eq!(classify_input(""), InputKind::Empty);
    assert_eq!(classify_input("pkg.rpm"), InputKind::NotDeb);
    assert_eq!(classify_input("https://example.com/a/pkg.deb"), InputKind::Url);
    assert_eq!(classify_input("ftp://host/pkg.deb"), InputKind::Url);
    assert_eq!(classify_input("./pkg.deb"), InputKind::Local);
    assert_eq!(download_name("https://example.com/a/pkg.deb"), "pkg.deb");
    assert_eq!(download_name("https://example.com/a/"), "downloaded_file.deb");
}

#[test]
fn archive_signature_is_detected() {
    assert_eq!(detect_package_type(b"!<arch>\ndebian-binary"), Some(PackageType::Deb));
    assert_eq!(detect_package_type(b"\x7fELF\x02\x01"), None);
    assert_eq!(detect_package_type(b"!<ar"), None);
    assert_eq!(detect_package_type(b""), None);
}
