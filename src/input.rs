//! What the program is given: a URL or a path of a Debian archive.
use vstd::prelude::*;

use crate::metadata::PackageType;
use crate::text::{ends_with, ends_with_text, last_piece, last_segment, starts_with};

verus! {

/// How an input argument reads.
#[derive(Debug, PartialEq, Eq, Structural, Clone, Copy)]
pub enum InputKind {
    /// Nothing was given.
    Empty,
    /// The name does not end in `.deb`.
    NotDeb,
    /// An archive to download.
    Url,
    /// An archive on this machine.
    Local,
}

/// A URL scheme that the program downloads from.
pub open spec fn is_remote(s: Seq<char>) -> bool {
    "http://"@.is_prefix_of(s) || "https://"@.is_prefix_of(s) || "ftp://"@.is_prefix_of(s)
}

/// How the input argument `s` reads.
pub fn classify_input(s: &str) -> (r: InputKind)
    ensures
        r == if s@.len() == 0 {
            InputKind::Empty
        } else if !ends_with(s@, ".deb"@) {
            InputKind::NotDeb
        } else if is_remote(s@) {
            InputKind::Url
        } else {
            InputKind::Local
        },
{
    if s.unicode_len() == 0 {
        InputKind::Empty
    } else if !ends_with_text(s, ".deb") {
        InputKind::NotDeb
    } else if starts_with(s, "http://") || starts_with(s, "https://") || starts_with(s, "ftp://") {
        InputKind::Url
    } else {
        InputKind::Local
    }
}

/// The name under which the archive at `url` is saved: the last segment of
/// its path, or a fixed name where that is empty.
pub fn download_name(url: &str) -> (r: String)
    ensures
        r@ == if last_piece(url@, '/').len() > 0 { last_piece(url@, '/') } else { "downloaded_file.deb"@ },
{
    let name = last_segment(url, '/');
    if name.unicode_len() > 0 {
        name
    } else {
        String::from_str("downloaded_file.deb")
    }
}

/// The bytes that open an `ar` archive, the container of a Debian package: `!<arch>`.
pub open spec fn ar_magic() -> Seq<u8> {
    seq![0x21u8, 0x3cu8, 0x61u8, 0x72u8, 0x63u8, 0x68u8, 0x3eu8]
}

/// The kind of package whose file begins with `head`, if it is one that the
/// program reads.
pub fn detect_package_type(head: &[u8]) -> (r: Option<PackageType>)
    ensures
        r == if ar_magic().is_prefix_of(head@) { Some(PackageType::Deb) } else { None },
{
    let magic: [u8; 7] = [0x21, 0x3c, 0x61, 0x72, 0x63, 0x68, 0x3e];
    if head.len() < 7 {
        return None;
    }
    let mut i: usize = 0;
    while i < 7
        invariant
            i <= 7,
            head@.len() >= 7,
            magic@ == ar_magic(),
            forall|k: int| 0 <= k < i ==> head@[k] == ar_magic()[k],
        decreases 7 - i,
    {
        if head[i] != magic[i] {
            return None;
        }
        i = i + 1;
    }
    Some(PackageType::Deb)
}

} // verus!
