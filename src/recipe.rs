//! The build recipe for a package: its metadata and resolved dependencies
//! filled into a Nix expression.
use vstd::prelude::*;

use crate::metadata::{PackageInfo, PackageType};
use crate::template::{fill, fill_template};
use crate::text::{
    has_char, insert_sorted, join, join_with, last_piece, last_segment, lemma_sorted_unique,
    lemma_take_one_more, sorted_strict, strip_prefix_text,
};

verus! {

/// The first line of every recipe.
pub const RECIPE_HEADER: &'static str = "{ pkgs ? import <nixpkgs> {} }:";

/// The recipe for a Debian archive.
pub const DEB_TEMPLATE: &'static str = "{header}

pkgs.stdenv.mkDerivation {
  pname = \"{name}\";
  version = \"{version}\";

  src = pkgs.fetchurl {
    url = \"{url}\";
    sha256 = \"{sha256}\";
  };

  nativeBuildInputs = [
    pkgs.dpkg
    pkgs.autoPatchelfHook
    pkgs.makeWrapper
  ];

  buildInputs = [
{packages}
  ];

  unpackPhase = ''
    runHook preUnpack
    dpkg-deb -x $src .
    runHook postUnpack
  '';

  installPhase = ''
    runHook preInstall
    mkdir -p $out
    cp -r usr/. $out/ 2>/dev/null || true
    if [ -d opt ]; then cp -r opt $out/; fi
    for bin in $out/bin/*; do
      wrapProgram \"$bin\" --prefix LD_LIBRARY_PATH : \"${pkgs.lib.makeLibraryPath [
{lib_packages}
      ]}\"
    done
    runHook postInstall
  '';

  meta = {
    description = \"{description}\";
    platforms = [ \"{arch}\" ];
  };
}
";

/// The attribute-set prefix that a dependency's path may carry.
pub open spec fn legacy_prefix() -> Seq<char> {
    "legacyPackages.x86_64-linux."@
}

/// `p` without the attribute-set prefix.
pub open spec fn clean_pkg_path(p: Seq<char>) -> Seq<char> {
    if legacy_prefix().is_prefix_of(p) {
        p.skip(legacy_prefix().len() as int)
    } else {
        p
    }
}

/// The build input that dependency `d` contributes: the last segment of its path.
pub open spec fn dep_input(d: Seq<char>) -> Seq<char> {
    last_piece(clean_pkg_path(d), '.')
}

/// The build inputs of every recipe.
pub open spec fn standard_build_inputs() -> Seq<Seq<char>> {
    seq![
        "alsa-lib"@, "at-spi2-core"@, "cairo"@, "cups"@, "dbus"@, "expat"@, "glib"@, "glibc"@,
        "gtk3"@, "libdrm"@, "libnotify"@, "libsecret"@, "libxkbcommon"@, "mesa"@, "nspr"@,
        "nss"@, "pango"@, "systemd"@, "xorg.libX11"@, "xorg.libXcomposite"@,
        "xorg.libXdamage"@, "xorg.libXext"@, "xorg.libXfixes"@, "xorg.libXrandr"@,
        "xorg.libxcb"@,
    ]
}

/// The packages on the library path of the wrapped programs.
pub open spec fn library_path_packages() -> Seq<Seq<char>> {
    seq![
        "libglvnd"@, "mesa"@, "libdrm"@, "vulkan-loader"@, "libxkbcommon"@, "gtk3"@,
        "alsa-lib"@, "nss"@, "nspr"@, "expat"@, "dbus"@, "at-spi2-core"@, "pango"@, "cairo"@,
        "libsecret"@, "libnotify"@, "systemd"@,
    ]
}

/// `list` is the sorted set of the standard build inputs and those of `deps`.
pub open spec fn is_build_input_list(list: Seq<Seq<char>>, deps: Seq<Seq<char>>) -> bool {
    &&& sorted_strict(list)
    &&& forall|x: Seq<char>| #[trigger] list.contains(x) <==> (standard_build_inputs().contains(x)
        || exists|i: int| 0 <= i < deps.len() && dep_input(#[trigger] deps[i]) == x)
}

/// The build inputs of a recipe whose package depends on `deps`, sorted.
pub open spec fn build_inputs(deps: Seq<Seq<char>>) -> Seq<Seq<char>> {
    choose|list: Seq<Seq<char>>| is_build_input_list(list, deps)
}

/// How build input `p`, at position `i`, is listed.
pub open spec fn input_line(p: Seq<char>, i: int) -> Seq<char> {
    if p.contains('.') || i != 0 {
        "    pkgs."@ + p
    } else {
        "    pkgs."@ + p + " # Accessed via pkgs, so hyphens are fine"@
    }
}

/// The listing of build inputs `list`, one per line.
pub open spec fn inputs_text(list: Seq<Seq<char>>) -> Seq<char> {
    join(Seq::new(list.len(), |i: int| input_line(list[i], i)), "\n"@)
}

/// The listing of the library path's packages, one per line.
pub open spec fn library_path_text() -> Seq<char> {
    join(library_path_packages().map_values(|p: Seq<char>| "            pkgs."@ + p), "\n"@)
}

/// The values that fill a recipe's template.
pub open spec fn recipe_fields(info: PackageInfo, url: Seq<char>, sha256: Seq<char>) -> Seq<(Seq<char>, Seq<char>)> {
    seq![
        ("header"@, RECIPE_HEADER@),
        ("name"@, info.name@),
        ("version"@, info.version@),
        ("url"@, url),
        ("sha256"@, sha256),
        ("packages"@, inputs_text(build_inputs(info.deps.deep_view()))),
        ("lib_packages"@, library_path_text()),
        ("description"@, info.description@),
        ("arch"@, info.arch@),
    ]
}

/// The build input that dependency `d` contributes.
fn dep_input_name(d: &str) -> (r: String)
    ensures
        r@ == dep_input(d@),
{
    match strip_prefix_text(d, "legacyPackages.x86_64-linux.") {
        Some(rest) => last_segment(rest.as_str(), '.'),
        None => last_segment(d, '.'),
    }
}

/// The sorted build inputs of a package that depends on `deps`.
pub fn build_input_list(deps: &Vec<String>) -> (r: Vec<String>)
    ensures
        r.deep_view() == build_inputs(deps.deep_view()),
{
    let standard: Vec<String> = vec![
        String::from_str("alsa-lib"), String::from_str("at-spi2-core"), String::from_str("cairo"),
        String::from_str("cups"), String::from_str("dbus"), String::from_str("expat"),
        String::from_str("glib"), String::from_str("glibc"), String::from_str("gtk3"),
        String::from_str("libdrm"), String::from_str("libnotify"), String::from_str("libsecret"),
        String::from_str("libxkbcommon"), String::from_str("mesa"), String::from_str("nspr"),
        String::from_str("nss"), String::from_str("pango"), String::from_str("systemd"),
        String::from_str("xorg.libX11"), String::from_str("xorg.libXcomposite"),
        String::from_str("xorg.libXdamage"), String::from_str("xorg.libXext"),
        String::from_str("xorg.libXfixes"), String::from_str("xorg.libXrandr"),
        String::from_str("xorg.libxcb"),
    ];
    let ghost st = standard.deep_view();
    assert(st =~= standard_build_inputs());
    let ghost ds = deps.deep_view();
    let mut r: Vec<String> = Vec::new();
    let mut i: usize = 0;
    while i < standard.len()
        invariant
            i <= standard.len(),
            st == standard.deep_view(),
            sorted_strict(r.deep_view()),
            forall|x: Seq<char>| #[trigger] r.deep_view().contains(x) <==> st.take(i as int).contains(x),
        decreases standard.len() - i,
    {
        insert_sorted(&mut r, standard[i].clone());
        proof {
            lemma_take_one_more(st, i as int);
        }
        i = i + 1;
    }
    assert(st.take(i as int) =~= st);
    let mut k: usize = 0;
    while k < deps.len()
        invariant
            k <= deps.len(),
            ds == deps.deep_view(),
            st == standard_build_inputs(),
            sorted_strict(r.deep_view()),
            forall|x: Seq<char>| #[trigger] r.deep_view().contains(x) <==> (st.contains(x)
                || exists|m: int| 0 <= m < k && dep_input(#[trigger] ds[m]) == x),
        decreases deps.len() - k,
    {
        let name = dep_input_name(deps[k].as_str());
        let ghost before = r.deep_view();
        let ghost added = name@;
        assert(dep_input(ds[k as int]) == added);
        insert_sorted(&mut r, name);
        assert forall|x: Seq<char>| #[trigger] r.deep_view().contains(x) <==> (st.contains(x)
            || exists|m: int| 0 <= m < k + 1 && dep_input(#[trigger] ds[m]) == x) by {
            if exists|m: int| 0 <= m < k + 1 && dep_input(#[trigger] ds[m]) == x {
                let m = choose|m: int| 0 <= m < k + 1 && dep_input(#[trigger] ds[m]) == x;
                if m < k {
                    assert(before.contains(x));
                }
            }
            if x == added {
                assert(dep_input(ds[k as int]) == x);
            }
        }
        k = k + 1;
    }
    proof {
        assert(is_build_input_list(r.deep_view(), ds));
        let other = build_inputs(ds);
        assert(is_build_input_list(other, ds));
        lemma_sorted_unique(r.deep_view(), other);
    }
    r
}

/// The listing of build inputs `list`, one per line.
pub fn format_inputs(list: &Vec<String>) -> (r: String)
    ensures
        r@ == inputs_text(list.deep_view()),
{
    let ghost ls = list.deep_view();
    let mut lines: Vec<String> = Vec::new();
    let mut i: usize = 0;
    while i < list.len()
        invariant
            i <= list.len(),
            ls == list.deep_view(),
            lines.deep_view() == Seq::new(i as nat, |m: int| input_line(ls[m], m)),
        decreases list.len() - i,
    {
        let p = list[i].as_str();
        let mut line = String::from_str("    pkgs.");
        line.append(p);
        if !has_char(p, '.') && i == 0 {
            line.append(" # Accessed via pkgs, so hyphens are fine");
        }
        assert(p@ == ls[i as int]);
        assert(line@ == input_line(ls[i as int], i as int));
        let ghost before = lines.deep_view();
        lines.push(line);
        assert(lines.deep_view() =~= before.push(input_line(ls[i as int], i as int)));
        i = i + 1;
        assert(lines.deep_view() =~= Seq::new(i as nat, |m: int| input_line(ls[m], m)));
    }
    join_with(&lines, "\n")
}

/// The listing of the library path's packages, one per line.
pub fn format_library_path() -> (r: String)
    ensures
        r@ == library_path_text(),
{
    let names: Vec<&str> = vec![
        "libglvnd", "mesa", "libdrm", "vulkan-loader", "libxkbcommon", "gtk3", "alsa-lib", "nss",
        "nspr", "expat", "dbus", "at-spi2-core", "pango", "cairo", "libsecret", "libnotify",
        "systemd",
    ];
    let ghost all = library_path_packages();
    let ghost ns = Seq::new(names@.len(), |m: int| names@[m]@);
    assert(ns =~= all);
    let mut lines: Vec<String> = Vec::new();
    let mut i: usize = 0;
    while i < names.len()
        invariant
            i <= names.len(),
            ns == Seq::new(names@.len(), |m: int| names@[m]@),
            ns == all,
            lines.deep_view() == all.take(i as int).map_values(|p: Seq<char>| "            pkgs."@ + p),
        decreases names.len() - i,
    {
        let mut line = String::from_str("            pkgs.");
        line.append(names[i]);
        assert(names@[i as int]@ == all[i as int]);
        let ghost before = lines.deep_view();
        lines.push(line);
        assert(lines.deep_view() =~= before.push("            pkgs."@ + all[i as int]));
        assert(all.take(i + 1) =~= all.take(i as int).push(all[i as int]));
        i = i + 1;
        assert(lines.deep_view() =~= all.take(i as int).map_values(|p: Seq<char>| "            pkgs."@ + p));
    }
    assert(all.take(i as int) =~= all);
    join_with(&lines, "\n")
}

/// The recipe for a package of kind `pkg_type`, described by `pkg_info`,
/// fetched from `url`, whose content hash is `sha256`.
pub fn generate_nix_content(
    pkg_type: &PackageType,
    pkg_info: &PackageInfo,
    url: &str,
    sha256: &str,
    _mode_upstream: bool,
) -> (r: String)
    ensures
        r@ == fill(DEB_TEMPLATE@, recipe_fields(*pkg_info, url@, sha256@)),
{
    let inputs = build_input_list(&pkg_info.deps);
    let packages = format_inputs(&inputs);
    let lib_packages = format_library_path();
    let fields: Vec<(String, String)> = vec![
        (String::from_str("header"), String::from_str(RECIPE_HEADER)),
        (String::from_str("name"), pkg_info.name.clone()),
        (String::from_str("version"), pkg_info.version.clone()),
        (String::from_str("url"), String::from_str(url)),
        (String::from_str("sha256"), String::from_str(sha256)),
        (String::from_str("packages"), packages),
        (String::from_str("lib_packages"), lib_packages),
        (String::from_str("description"), pkg_info.description.clone()),
        (String::from_str("arch"), pkg_info.arch.clone()),
    ];
    assert(fields.deep_view() =~= recipe_fields(*pkg_info, url@, sha256@));
    match pkg_type {
        PackageType::Deb => fill_template(DEB_TEMPLATE, &fields),
    }
}

} // verus!
