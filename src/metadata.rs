//! Package metadata, read from the control fields of the archive.
use vstd::prelude::*;

use crate::text::{same_text, split, split_on, strip_prefix_text, trim, trimmed};

verus! {

/// The kind of archive a package comes in.
#[derive(Debug, PartialEq, Eq, Structural, Clone, Copy)]
pub enum PackageType {
    Deb,
}

/// What the recipe needs to know of a package.
#[derive(Debug)]
pub struct PackageInfo {
    pub name: String,
    pub version: String,
    pub deps: Vec<String>,
    pub arch: String,
    pub description: String,
}

impl PackageInfo {
    /// All fields empty.
    pub open spec fn is_blank(&self) -> bool {
        &&& self.name@.len() == 0
        &&& self.version@.len() == 0
        &&& self.deps@.len() == 0
        &&& self.arch@.len() == 0
        &&& self.description@.len() == 0
    }
}

impl Default for PackageInfo {
    fn default() -> (r: PackageInfo)
        ensures
            r.is_blank(),
    {
        PackageInfo {
            name: String::new(),
            version: String::new(),
            deps: Vec::new(),
            arch: String::new(),
            description: String::new(),
        }
    }
}

/// The platform that a Debian architecture code stands for: `amd64` and
/// `arm64` are renamed, any other code passes through.
pub open spec fn normalized_arch(code: Seq<char>) -> Seq<char> {
    if code == "amd64"@ {
        "x86_64-linux"@
    } else if code == "arm64"@ {
        "aarch64-linux"@
    } else {
        code
    }
}

/// The platform that the architecture code `code` stands for.
pub fn normalize_arch(code: &str) -> (r: String)
    ensures
        r@ == normalized_arch(code@),
{
    if same_text(code, "amd64") {
        String::from_str("x86_64-linux")
    } else if same_text(code, "arm64") {
        String::from_str("aarch64-linux")
    } else {
        String::from_str(code)
    }
}

/// The value of the last of `lines` that starts with `key`: the rest of the
/// line, trimmed.
pub open spec fn last_field(lines: Seq<Seq<char>>, key: Seq<char>) -> Option<Seq<char>>
    decreases lines.len(),
{
    if lines.len() == 0 {
        None
    } else if key.is_prefix_of(lines.last()) {
        Some(trimmed(lines.last().skip(key.len() as int)))
    } else {
        last_field(lines.drop_last(), key)
    }
}

/// The value of the control field `key` in `listing`, empty where it is absent.
pub open spec fn control_field(listing: Seq<char>, key: Seq<char>) -> Seq<char> {
    match last_field(split_on(listing, '\n'), key) {
        Some(v) => v,
        None => Seq::empty(),
    }
}

/// The package's metadata from the listing of its control fields, one
/// `Field: value` per line; where a field occurs twice the last one counts.
/// The architecture is normalized; the dependencies are left empty.
pub fn package_info_from_control(listing: &str) -> (r: PackageInfo)
    ensures
        r.name@ == control_field(listing@, "Package: "@),
        r.version@ == control_field(listing@, "Version: "@),
        r.description@ == control_field(listing@, "Description: "@),
        r.arch@ == match last_field(split_on(listing@, '\n'), "Architecture: "@) {
            Some(v) => normalized_arch(v),
            None => Seq::empty(),
        },
        r.deps@.len() == 0,
{
    let mut info = PackageInfo::default();
    let lines = split(listing, '\n');
    let ghost ls = lines.deep_view();
    let mut i: usize = 0;
    assert(ls.take(0) =~= Seq::<Seq<char>>::empty());
    while i < lines.len()
        invariant
            i <= lines.len(),
            ls == lines.deep_view(),
            ls == split_on(listing@, '\n'),
            info.deps@.len() == 0,
            info.name@ == match last_field(ls.take(i as int), "Package: "@) { Some(v) => v, None => Seq::empty() },
            info.version@ == match last_field(ls.take(i as int), "Version: "@) { Some(v) => v, None => Seq::empty() },
            info.description@ == match last_field(ls.take(i as int), "Description: "@) { Some(v) => v, None => Seq::empty() },
            info.arch@ == match last_field(ls.take(i as int), "Architecture: "@) {
                Some(v) => normalized_arch(v),
                None => Seq::empty(),
            },
        decreases lines.len() - i,
    {
        let line = lines[i].as_str();
        assert(ls.take(i + 1).drop_last() =~= ls.take(i as int));
        assert(ls.take(i + 1).last() == line@);
        if let Some(v) = strip_prefix_text(line, "Package: ") {
            info.name = trim(v.as_str());
        }
        if let Some(v) = strip_prefix_text(line, "Version: ") {
            info.version = trim(v.as_str());
        }
        if let Some(v) = strip_prefix_text(line, "Architecture: ") {
            let code = trim(v.as_str());
            info.arch = normalize_arch(code.as_str());
        }
        if let Some(v) = strip_prefix_text(line, "Description: ") {
            info.description = trim(v.as_str());
        }
        i = i + 1;
    }
    assert(ls.take(i as int) =~= ls);
    info
}

} // verus!
