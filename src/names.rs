//! Resolution by source-package name, for declared dependencies rather than
//! scanned libraries: knowledge-base hits on the name and its shortened
//! forms, then guessed library file names through the external name index.
use vstd::prelude::*;

use crate::config::{find_value, lookup, LibrariesConfig};
use crate::text::{chars_of, is_digit, slice_to_string, starts_with};

verus! {

/// A character of a version number.
pub open spec fn is_version_char(c: char) -> bool {
    is_digit(c) || c == '.'
}

/// Where the trailing run of digits and dots of `s` starts.
pub open spec fn version_start(s: Seq<char>) -> nat
    decreases s.len(),
{
    if s.len() > 0 && is_version_char(s.last()) {
        version_start(s.drop_last())
    } else {
        s.len()
    }
}

/// Where the name before the version ends: before the version's run, and
/// before one `-` or `.` that separates it.
pub open spec fn base_end(s: Seq<char>) -> int {
    let k = version_start(s) as int;
    if k < s.len() && s[k] == '.' {
        k
    } else if k > 0 && s[k - 1] == '-' {
        k - 1
    } else {
        k
    }
}

/// The version that ends `s`, without its separator.
pub open spec fn version_of(s: Seq<char>) -> Seq<char> {
    let k = version_start(s) as int;
    if k < s.len() && s[k] == '.' { s.skip(k + 1) } else { s.skip(k) }
}

/// `v` reads `digits(.digits)*`.
pub open spec fn well_formed_version(v: Seq<char>) -> bool {
    &&& v.len() > 0
    &&& is_digit(v[0])
    &&& is_digit(v.last())
    &&& forall|i: int| 0 <= i < v.len() - 1 && v[i] == '.' ==> #[trigger] v[i + 1] != '.'
}

/// `s` without its trailing version.
pub open spec fn without_version(s: Seq<char>) -> Seq<char> {
    s.take(base_end(s))
}

/// `s` without a leading `lib`.
pub open spec fn without_lib(s: Seq<char>) -> Seq<char> {
    if "lib"@.is_prefix_of(s) { s.skip(3) } else { s }
}

/// The shared-object file names that the source package `name` may ship:
/// for `lib<core><sep><version>`, `lib<core>.so.<version>` and
/// `lib<core>.so`; for another name that starts with `lib`, `<name>.so`;
/// for any other, none.
pub open spec fn guesses(name: Seq<char>) -> Seq<Seq<char>> {
    let base = without_version(name);
    if "lib"@.is_prefix_of(name) && base.len() > 3 && well_formed_version(version_of(name)) {
        seq![base + ".so."@ + version_of(name), base + ".so"@]
    } else if "lib"@.is_prefix_of(name) {
        seq![name + ".so"@]
    } else {
        Seq::empty()
    }
}

/// The answer for the first of `candidates` that `located` answers.
pub open spec fn first_located(candidates: Seq<Seq<char>>, located: Seq<(Seq<char>, Seq<char>)>) -> Option<Seq<char>>
    decreases candidates.len(),
{
    if candidates.len() == 0 {
        None
    } else {
        match lookup(located, candidates[0]) {
            Some(p) => Some(p),
            None => first_located(candidates.drop_first(), located),
        }
    }
}

/// The package for source package `name`: the knowledge base's entry for
/// the name, else for the name without its version, else for that without
/// `lib`; else what the external name index found (`located`) for the first
/// guessed file name that it found anything for.
pub open spec fn name_resolution(
    name: Seq<char>,
    config: LibrariesConfig,
    located: Seq<(Seq<char>, Seq<char>)>,
) -> Option<Seq<char>> {
    match config.package_of(name) {
        Some(p) => Some(p),
        None => match config.package_of(without_version(name)) {
            Some(p) => Some(p),
            None => match config.package_of(without_lib(without_version(name))) {
                Some(p) => Some(p),
                None => first_located(guesses(name), located),
            },
        },
    }
}

fn version_start_of(cs: &Vec<char>) -> (r: usize)
    ensures
        r == version_start(cs@),
{
    let mut k: usize = cs.len();
    assert(cs@.take(k as int) =~= cs@);
    while k > 0 && ('0' <= cs[k - 1] && cs[k - 1] <= '9' || cs[k - 1] == '.')
        invariant
            k <= cs.len(),
            version_start(cs@) == version_start(cs@.take(k as int)),
        decreases k,
    {
        assert(cs@.take(k as int).drop_last() =~= cs@.take(k - 1));
        k = k - 1;
    }
    proof {
        assert(cs@.take(cs.len() as int) =~= cs@);
    }
    k
}

/// `name` without its trailing version, and the version.
fn split_version(name: &str) -> (r: (String, String))
    ensures
        r.0@ == without_version(name@),
        r.1@ == version_of(name@),
{
    let cs = chars_of(name);
    let n = cs.len();
    proof {
        assert(cs@.take(n as int) =~= cs@);
    }
    let k = version_start_of(&cs);
    proof {
        lemma_version_start_bound(name@);
    }
    let (end, from) = if k < n && cs[k] == '.' {
        (k, k + 1)
    } else if k > 0 && cs[k - 1] == '-' {
        (k - 1, k)
    } else {
        (k, k)
    };
    let base = slice_to_string(name, 0, end);
    let version = slice_to_string(name, from, n);
    assert(name@.subrange(0, end as int) =~= name@.take(end as int));
    assert(name@.subrange(from as int, n as int) =~= name@.skip(from as int));
    (base, version)
}

proof fn lemma_version_start_bound(s: Seq<char>)
    ensures
        version_start(s) <= s.len(),
    decreases s.len(),
{
    if s.len() > 0 {
        lemma_version_start_bound(s.drop_last());
    }
}

fn is_well_formed_version(v: &str) -> (r: bool)
    ensures
        r == well_formed_version(v@),
{
    let cs = chars_of(v);
    let n = cs.len();
    if n == 0 || !('0' <= cs[0] && cs[0] <= '9') || !('0' <= cs[n - 1] && cs[n - 1] <= '9') {
        return false;
    }
    let mut i: usize = 0;
    while i < n - 1
        invariant
            n >= 1,
            n == cs.len(),
            cs@ == v@,
            forall|j: int| 0 <= j < i && j < n - 1 && cs@[j] == '.' ==> #[trigger] cs@[j + 1] != '.',
        decreases n - i,
    {
        if cs[i] == '.' && cs[i + 1] == '.' {
            return false;
        }
        i = i + 1;
    }
    true
}

/// The shared-object file names that the source package `name` may ship.
pub fn guess_filenames(name: &str) -> (r: Vec<String>)
    ensures
        r.deep_view() == guesses(name@),
{
    let (base, version) = split_version(name);
    let lib = starts_with(name, "lib");
    let r = if lib && base.unicode_len() > 3 && is_well_formed_version(version.as_str()) {
        let mut full = base.clone();
        full.append(".so.");
        full.append(version.as_str());
        let mut short = base;
        short.append(".so");
        vec![full, short]
    } else if lib {
        let mut one = String::from_str(name);
        one.append(".so");
        vec![one]
    } else {
        Vec::new()
    };
    assert(r.deep_view() =~= guesses(name@));
    r
}

/// `s` without a leading `lib`.
fn strip_lib(s: &str) -> (r: String)
    ensures
        r@ == without_lib(s@),
{
    if starts_with(s, "lib") {
        proof {
            reveal_strlit("lib");
        }
        let n = chars_of(s).len();
        assert(s@.subrange(3, n as int) =~= s@.skip(3));
        slice_to_string(s, 3, n)
    } else {
        String::from_str(s)
    }
}

/// The package for source package `name`, where `located` holds what the
/// external name index found for the guessed file names; `None` where no
/// strategy finds one.
pub fn resolve_by_name(name: &str, config: &LibrariesConfig, located: &Vec<(String, String)>) -> (r: Option<String>)
    ensures
        r matches Some(p) ==> name_resolution(name@, *config, located.deep_view()) == Some(p@),
        r is None ==> name_resolution(name@, *config, located.deep_view()) is None,
{
    if let Some(p) = find_value(&config.lib_to_pkg_map, name) {
        return Some(p);
    }
    let (base, _) = split_version(name);
    if let Some(p) = find_value(&config.lib_to_pkg_map, base.as_str()) {
        return Some(p);
    }
    let core = strip_lib(base.as_str());
    if let Some(p) = find_value(&config.lib_to_pkg_map, core.as_str()) {
        return Some(p);
    }
    let candidates = guess_filenames(name);
    let ghost cs = candidates.deep_view();
    let mut i: usize = 0;
    assert(cs.skip(0) =~= cs);
    assert(name_resolution(name@, *config, located.deep_view()) == first_located(cs, located.deep_view()));
    while i < candidates.len()
        invariant
            i <= candidates.len(),
            cs == candidates.deep_view(),
            name_resolution(name@, *config, located.deep_view()) == first_located(cs.skip(i as int), located.deep_view()),
        decreases candidates.len() - i,
    {
        assert(cs.skip(i as int).drop_first() =~= cs.skip(i + 1));
        if let Some(p) = find_value(located, candidates[i].as_str()) {
            return Some(p);
        }
        i = i + 1;
    }
    assert(cs.skip(i as int) =~= Seq::<Seq<char>>::empty());
    None
}

} // verus!
