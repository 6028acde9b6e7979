use deb2nix::metadata::{PackageInfo, PackageType};
use deb2nix::recipe::{build_input_list, format_inputs, format_library_path, generate_nix_content};
use deb2nix::template::fill_template;

fn strings(v: &[&str]) -> Vec<String> {
    v.iter().map(|s| s.to_string()).collect()
}

fn fields(v: &[(&str, &str)]) -> Vec<(String, String)> {
    v.iter().map(|(a, b)| (a.to_string(), b.to_string())).collect()
}

#[test]
fn template_placeholders_are_filled_once() {
    let f = fields(&[("name", "demo"), ("url", "{name}"), ("name", "other")]);
    assert_eq!(fill_template("a {name} b {url} c {unknown} {} {name", &f), "a demo b {name} c {unknown} {} {name");
    assert_eq!(fill_template("", &f), "");
    assert_eq!(fill_template("${name}-x", &f), "$demo-x");
}

#[test]
fn build_inputs_merge_standard_and_resolved() {
    let deps = strings(&["legacyPackages.x86_64-linux.xorg.libXtst", "zlib", "xorg.libX11", "cups"]);
    let list = build_input_list(&deps);
    assert_eq!(list.len(), 28);
    assert_eq!(list[0], "alsa-lib");
    assert!(list.contains(&"libXtst".to_string()));
    assert!(list.contains(&"libX11".to_string()));
    assert!(list.contains(&"zlib".to_string()));
    assert!(list.contains(&"xorg.libX11".to_string()));
    let mut sorted = list.clone();
    sorted.sort();
    sorted.dedup();
    assert_eq!(sorted, list);
}

#[test]
fn inputs_are_listed_with_their_prefix() {
    let text = format_inputs(&strings(&["alsa-lib", "xorg.libX11", "zlib"]));
    assert_eq!(
        text,
        "    pkgs.alsa-lib # Accessed via pkgs, so hyphens are fine\n    pkgs.xorg.libX11\n    pkgs.zlib"
    );
    assert_eq!(format_inputs(&strings(&["xorg.a", "b"])), "    pkgs.xorg.a\n    pkgs.b");
    let lib = format_library_path();
    assert!(lib.starts_with("            pkgs.libglvnd\n            pkgs.mesa\n"));
    assert!(lib.ends_with("            pkgs.systemd"));
    assert_eq!(lib.lines().count(), 17);
}

#[test]
fn recipe_holds_the_package_metadata() {
    let mut info = PackageInfo::default();
    info.name = "demo-app".to_string();
    info.version = "1.2.3".to_string();
    info.arch = "x86_64-linux".to_string();
    info.description = "A demo".to_string();
    info.deps = strings(&["zlib"]);
    let r = generate_nix_content(&PackageType::Deb, &info, "https://example.com/demo.deb", "sha256-abc", true);
    assert!(r.starts_with("{ pkgs ? import <nixpkgs> {} }:\n"));
    assert!(r.contains("pname = \"demo-app\";"));
    assert!(r.contains("version = \"1.2.3\";"));
    assert!(r.contains("url = \"https://example.com/demo.deb\";"));
    assert!(r.contains("sha256 = \"sha256-abc\";"));
    assert!(r.contains("    pkgs.alsa-lib # Accessed via pkgs, so hyphens are fine\n"));
    assert!(r.contains("    pkgs.zlib\n"));
    assert!(r.contains("            pkgs.vulkan-loader\n"));
    assert!(r.contains("description = \"A demo\";"));
    assert!(r.contains("platforms = [ \"x86_64-linux\" ];"));
    assert!(!r.contains("{name}"));
    assert!(!r.contains("{packages}"));
}

#[test]
fn recipe_of_blank_metadata_leaves_fields_empty() {
    let info = PackageInfo::default();
    let r = generate_nix_content(&PackageType::Deb, &info, "", "", false);
    assert!(r.contains("pname = \"\";"));
    assert!(r.contains("platforms = [ \"\" ];"));
    assert!(r.contains("    pkgs.xorg.libxcb\n"));
}
