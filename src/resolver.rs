//! Resolution of the shared libraries that a package's binaries require to
//! the packages that provide them.
use vstd::prelude::*;

use crate::config::{get_pkg_for_lib, is_system_lib, find_value, lookup, LibrariesConfig};
use crate::text::{lemma_take_one_more, contains_text, insert_sorted, sorted_strict, lemma_sorted_unique};

verus! {

/// What becomes of one required library.
pub enum Outcome {
    /// Nothing to resolve: a system library, or one that the package ships.
    Skipped,
    /// Provided by the package of this name.
    Resolved(Seq<char>),
    /// No strategy found a package for it.
    Missing,
}

/// How the knowledge base and the package's own files classify a library.
pub enum LibraryClass {
    /// Present on every build host.
    System,
    /// The knowledge base names the package that provides it.
    Mapped(String),
    /// The package ships a file of that name.
    Bundled,
    /// Only the external name index can say which package provides it.
    External,
}

/// The outcome for `lib`, where `located` holds the answers of the external
/// name index: a library and the package that the index found for it.
pub open spec fn outcome(
    lib: Seq<char>,
    bundled: Seq<Seq<char>>,
    config: LibrariesConfig,
    located: Seq<(Seq<char>, Seq<char>)>,
) -> Outcome {
    if config.is_system(lib) {
        Outcome::Skipped
    } else {
        match config.package_of(lib) {
            Some(p) => Outcome::Resolved(p),
            None => if bundled.contains(lib) {
                Outcome::Skipped
            } else {
                match lookup(located, lib) {
                    Some(p) => Outcome::Resolved(p),
                    None => Outcome::Missing,
                }
            },
        }
    }
}

/// Some library of `required` resolves to package `p`.
pub open spec fn produces(
    required: Seq<Seq<char>>,
    bundled: Seq<Seq<char>>,
    config: LibrariesConfig,
    located: Seq<(Seq<char>, Seq<char>)>,
    p: Seq<char>,
) -> bool {
    exists|i: int| 0 <= i < required.len() && outcome(#[trigger] required[i], bundled, config, located) == Outcome::Resolved(p)
}

/// `lib` is one of `required` and no strategy resolves it.
pub open spec fn lacks(
    required: Seq<Seq<char>>,
    bundled: Seq<Seq<char>>,
    config: LibrariesConfig,
    located: Seq<(Seq<char>, Seq<char>)>,
    lib: Seq<char>,
) -> bool {
    required.contains(lib) && outcome(lib, bundled, config, located) == Outcome::Missing
}

/// `resolved` and `missing` are the result of resolving `required`: the
/// packages found and the libraries left over, each sorted and without repeats.
pub open spec fn is_resolution(
    resolved: Seq<Seq<char>>,
    missing: Seq<Seq<char>>,
    required: Seq<Seq<char>>,
    bundled: Seq<Seq<char>>,
    config: LibrariesConfig,
    located: Seq<(Seq<char>, Seq<char>)>,
) -> bool {
    &&& sorted_strict(resolved)
    &&& sorted_strict(missing)
    &&& forall|p: Seq<char>| #[trigger] resolved.contains(p) <==> produces(required, bundled, config, located, p)
    &&& forall|l: Seq<char>| #[trigger] missing.contains(l) <==> lacks(required, bundled, config, located, l)
}

/// The packages that a package's libraries resolve to, and the libraries that
/// no strategy resolved; both sorted.
#[derive(Debug)]
pub struct Resolution {
    pub resolved: Vec<String>,
    pub missing: Vec<String>,
}

/// Classifies `lib`: system libraries first, then the knowledge base's
/// mapping, which wins over a bundled file of the same name.
pub fn classify_library(lib: &str, bundled: &Vec<String>, config: &LibrariesConfig) -> (r: LibraryClass)
    ensures
        r is System <==> config.is_system(lib@),
        r matches LibraryClass::Mapped(p) ==> !config.is_system(lib@) && config.package_of(lib@) == Some(p@),
        r is Mapped <==> !config.is_system(lib@) && config.package_of(lib@) is Some,
        r is Bundled <==> !config.is_system(lib@) && config.package_of(lib@) is None
            && bundled.deep_view().contains(lib@),
        r is External <==> !config.is_system(lib@) && config.package_of(lib@) is None
            && !bundled.deep_view().contains(lib@),
{
    if is_system_lib(config, lib) {
        LibraryClass::System
    } else {
        match get_pkg_for_lib(config, lib) {
            Some(p) => LibraryClass::Mapped(p),
            None => if contains_text(bundled, lib) {
                LibraryClass::Bundled
            } else {
                LibraryClass::External
            },
        }
    }
}

/// The required libraries that need a package: neither system libraries nor
/// satisfied by a bundled file without a mapping; sorted.
pub fn needed_libraries(required: &Vec<String>, bundled: &Vec<String>, config: &LibrariesConfig) -> (r: Vec<String>)
    ensures
        sorted_strict(r.deep_view()),
        forall|l: Seq<char>| #[trigger] r.deep_view().contains(l) <==> required.deep_view().contains(l)
            && !config.is_system(l) && (config.package_of(l) is Some || !bundled.deep_view().contains(l)),
{
    let mut r: Vec<String> = Vec::new();
    let ghost req = required.deep_view();
    let mut i: usize = 0;
    while i < required.len()
        invariant
            i <= required.len(),
            req == required.deep_view(),
            sorted_strict(r.deep_view()),
            forall|l: Seq<char>| #[trigger] r.deep_view().contains(l) <==> req.take(i as int).contains(l)
                && !config.is_system(l) && (config.package_of(l) is Some || !bundled.deep_view().contains(l)),
        decreases required.len() - i,
    {
        let class = classify_library(required[i].as_str(), bundled, config);
        let ghost before = r.deep_view();
        match class {
            LibraryClass::Mapped(_) | LibraryClass::External => {
                insert_sorted(&mut r, required[i].clone());
            },
            _ => {},
        }
        proof {
            lemma_take_one_more(req, i as int);
        }
        i = i + 1;
    }
    assert(req.take(i as int) =~= req);
    r
}

/// The required libraries that only the external name index can resolve:
/// the ones to ask it about; sorted.
pub fn pending_lookups(required: &Vec<String>, bundled: &Vec<String>, config: &LibrariesConfig) -> (r: Vec<String>)
    ensures
        sorted_strict(r.deep_view()),
        forall|l: Seq<char>| #[trigger] r.deep_view().contains(l) <==> required.deep_view().contains(l)
            && !config.is_system(l) && config.package_of(l) is None && !bundled.deep_view().contains(l),
{
    let mut r: Vec<String> = Vec::new();
    let ghost req = required.deep_view();
    let mut i: usize = 0;
    while i < required.len()
        invariant
            i <= required.len(),
            req == required.deep_view(),
            sorted_strict(r.deep_view()),
            forall|l: Seq<char>| #[trigger] r.deep_view().contains(l) <==> req.take(i as int).contains(l)
                && !config.is_system(l) && config.package_of(l) is None && !bundled.deep_view().contains(l),
        decreases required.len() - i,
    {
        let class = classify_library(required[i].as_str(), bundled, config);
        if let LibraryClass::External = class {
            insert_sorted(&mut r, required[i].clone());
        }
        proof {
            lemma_take_one_more(req, i as int);
        }
        i = i + 1;
    }
    assert(req.take(i as int) =~= req);
    r
}

/// Resolves each required library: system libraries are skipped; a library
/// that the knowledge base maps resolves to that package, bundled or not; a
/// bundled one is skipped; any other resolves to what the external name
/// index found for it (`located`), or is missing.
pub fn resolve(
    required: &Vec<String>,
    bundled: &Vec<String>,
    config: &LibrariesConfig,
    located: &Vec<(String, String)>,
) -> (r: Resolution)
    ensures
        is_resolution(
            r.resolved.deep_view(),
            r.missing.deep_view(),
            required.deep_view(),
            bundled.deep_view(),
            *config,
            located.deep_view(),
        ),
{
    let ghost req = required.deep_view();
    let ghost bun = bundled.deep_view();
    let ghost loc = located.deep_view();
    let mut resolved: Vec<String> = Vec::new();
    let mut missing: Vec<String> = Vec::new();
    let mut i: usize = 0;
    while i < required.len()
        invariant
            i <= required.len(),
            req == required.deep_view(),
            bun == bundled.deep_view(),
            loc == located.deep_view(),
            is_resolution(resolved.deep_view(), missing.deep_view(), req.take(i as int), bun, *config, loc),
        decreases required.len() - i,
    {
        let lib = required[i].as_str();
        let ghost o = outcome(req[i as int], bun, *config, loc);
        let ghost (r0, m0) = (resolved.deep_view(), missing.deep_view());
        match classify_library(lib, bundled, config) {
            LibraryClass::Mapped(p) => {
                insert_sorted(&mut resolved, p);
            },
            LibraryClass::External => {
                match find_value(located, lib) {
                    Some(p) => {
                        insert_sorted(&mut resolved, p);
                    },
                    None => {
                        insert_sorted(&mut missing, required[i].clone());
                    },
                }
            },
            _ => {},
        }
        proof {
            let t0 = req.take(i as int);
            let t1 = req.take(i + 1);
            lemma_take_one_more(req, i as int);
            assert forall|p: Seq<char>| #[trigger] resolved.deep_view().contains(p)
                <==> produces(t1, bun, *config, loc, p) by {
                if produces(t1, bun, *config, loc, p) {
                    let k = choose|k: int| 0 <= k < t1.len() && outcome(#[trigger] t1[k], bun, *config, loc) == Outcome::Resolved(p);
                    if k < i {
                        assert(t0[k] == t1[k]);
                        assert(r0.contains(p));
                    }
                }
                if r0.contains(p) {
                    let k = choose|k: int| 0 <= k < t0.len() && outcome(#[trigger] t0[k], bun, *config, loc) == Outcome::Resolved(p);
                    assert(t1[k] == t0[k]);
                }
                if o == Outcome::Resolved(p) {
                    assert(t1[i as int] == req[i as int]);
                }
            }
        }
        i = i + 1;
    }
    assert(req.take(i as int) =~= req);
    Resolution { resolved, missing }
}

/// Resolving the same libraries twice, against the same files, knowledge base
/// and index answers, gives the same packages and the same missing libraries.
pub proof fn lemma_resolve_idempotent(
    resolved1: Seq<Seq<char>>,
    missing1: Seq<Seq<char>>,
    resolved2: Seq<Seq<char>>,
    missing2: Seq<Seq<char>>,
    required: Seq<Seq<char>>,
    bundled: Seq<Seq<char>>,
    config: LibrariesConfig,
    located: Seq<(Seq<char>, Seq<char>)>,
)
    requires
        is_resolution(resolved1, missing1, required, bundled, config, located),
        is_resolution(resolved2, missing2, required, bundled, config, located),
    ensures
        resolved1 == resolved2,
        missing1 == missing2,
{
    lemma_resolve_order_independent(resolved1, missing1, resolved2, missing2, required, required, bundled, config, located);
}

/// The result does not depend on the order in which the required libraries
/// were found, nor on repeats among them: it is sorted either way.
pub proof fn lemma_resolve_order_independent(
    resolved1: Seq<Seq<char>>,
    missing1: Seq<Seq<char>>,
    resolved2: Seq<Seq<char>>,
    missing2: Seq<Seq<char>>,
    required1: Seq<Seq<char>>,
    required2: Seq<Seq<char>>,
    bundled: Seq<Seq<char>>,
    config: LibrariesConfig,
    located: Seq<(Seq<char>, Seq<char>)>,
)
    requires
        forall|l: Seq<char>| required1.contains(l) <==> required2.contains(l),
        is_resolution(resolved1, missing1, required1, bundled, config, located),
        is_resolution(resolved2, missing2, required2, bundled, config, located),
    ensures
        sorted_strict(resolved1),
        resolved1 == resolved2,
        missing1 == missing2,
{
    assert forall|p: Seq<char>| resolved1.contains(p) <==> resolved2.contains(p) by {
        if produces(required1, bundled, config, located, p) {
            let k = choose|k: int| 0 <= k < required1.len() && outcome(#[trigger] required1[k], bundled, config, located) == Outcome::Resolved(p);
            assert(required1.contains(required1[k]));
            let m = choose|m: int| 0 <= m < required2.len() && required2[m] == required1[k];
            assert(outcome(required2[m], bundled, config, located) == Outcome::Resolved(p));
        }
        if produces(required2, bundled, config, located, p) {
            let k = choose|k: int| 0 <= k < required2.len() && outcome(#[trigger] required2[k], bundled, config, located) == Outcome::Resolved(p);
            assert(required2.contains(required2[k]));
            let m = choose|m: int| 0 <= m < required1.len() && required1[m] == required2[k];
            assert(outcome(required1[m], bundled, config, located) == Outcome::Resolved(p));
        }
    }
    lemma_sorted_unique(resolved1, resolved2);
    assert forall|l: Seq<char>| missing1.contains(l) <==> missing2.contains(l) by {
        assert(missing1.contains(l) == lacks(required1, bundled, config, located, l));
        assert(missing2.contains(l) == lacks(required2, bundled, config, located, l));
    }
    lemma_sorted_unique(missing1, missing2);
}

/// A system library is never missing and contributes no package; it appears
/// among the packages only where another library resolves to a package of
/// that very name.
pub proof fn lemma_system_lib_skipped(
    resolved: Seq<Seq<char>>,
    missing: Seq<Seq<char>>,
    required: Seq<Seq<char>>,
    bundled: Seq<Seq<char>>,
    config: LibrariesConfig,
    located: Seq<(Seq<char>, Seq<char>)>,
    lib: Seq<char>,
)
    requires
        is_resolution(resolved, missing, required, bundled, config, located),
        config.is_system(lib),
    ensures
        outcome(lib, bundled, config, located) == Outcome::Skipped,
        !missing.contains(lib),
        (forall|i: int| 0 <= i < required.len()
            ==> outcome(#[trigger] required[i], bundled, config, located) != Outcome::Resolved(lib))
            ==> !resolved.contains(lib),
{
    assert(!missing.contains(lib) == !lacks(required, bundled, config, located, lib));
}

/// A required library that the knowledge base maps resolves to that package,
/// even where the package ships a file of the same name.
pub proof fn lemma_mapping_wins(
    resolved: Seq<Seq<char>>,
    missing: Seq<Seq<char>>,
    required: Seq<Seq<char>>,
    bundled: Seq<Seq<char>>,
    config: LibrariesConfig,
    located: Seq<(Seq<char>, Seq<char>)>,
    lib: Seq<char>,
    pkg: Seq<char>,
)
    requires
        is_resolution(resolved, missing, required, bundled, config, located),
        required.contains(lib),
        !config.is_system(lib),
        config.package_of(lib) == Some(pkg),
    ensures
        resolved.contains(pkg),
        !missing.contains(lib),
{
    let k = choose|k: int| 0 <= k < required.len() && required[k] == lib;
    assert(outcome(required[k], bundled, config, located) == Outcome::Resolved(pkg));
    assert(produces(required, bundled, config, located, pkg));
    assert(!lacks(required, bundled, config, located, lib));
}

/// Each required library that is not skipped ends in exactly one place:
/// among the packages, as the package it resolves to, or among the missing,
/// as itself. The two lists share no name where no library resolves to a
/// package named like a missing library.
pub proof fn lemma_resolution_partition(
    resolved: Seq<Seq<char>>,
    missing: Seq<Seq<char>>,
    required: Seq<Seq<char>>,
    bundled: Seq<Seq<char>>,
    config: LibrariesConfig,
    located: Seq<(Seq<char>, Seq<char>)>,
    lib: Seq<char>,
)
    requires
        is_resolution(resolved, missing, required, bundled, config, located),
        required.contains(lib),
        outcome(lib, bundled, config, located) != Outcome::Skipped,
    ensures
        outcome(lib, bundled, config, located) matches Outcome::Resolved(p) ==> resolved.contains(p)
            && !missing.contains(lib),
        outcome(lib, bundled, config, located) is Missing ==> missing.contains(lib),
        (forall|a: Seq<char>, b: Seq<char>| required.contains(a) && required.contains(b)
            && #[trigger] outcome(a, bundled, config, located) == Outcome::Resolved(b)
            ==> #[trigger] outcome(b, bundled, config, located) != Outcome::Missing)
            ==> forall|x: Seq<char>| !(resolved.contains(x) && #[trigger] missing.contains(x)),
{
    let k = choose|k: int| 0 <= k < required.len() && required[k] == lib;
    if let Outcome::Resolved(p) = outcome(lib, bundled, config, located) {
        assert(outcome(required[k], bundled, config, located) == Outcome::Resolved(p));
        assert(produces(required, bundled, config, located, p));
    }
    assert(missing.contains(lib) == lacks(required, bundled, config, located, lib));
    if forall|a: Seq<char>, b: Seq<char>| required.contains(a) && required.contains(b)
        && #[trigger] outcome(a, bundled, config, located) == Outcome::Resolved(b)
        ==> #[trigger] outcome(b, bundled, config, located) != Outcome::Missing {
        assert forall|x: Seq<char>| !(resolved.contains(x) && #[trigger] missing.contains(x)) by {
            if resolved.contains(x) && missing.contains(x) {
                assert(produces(required, bundled, config, located, x));
                let j = choose|j: int| 0 <= j < required.len() && outcome(#[trigger] required[j], bundled, config, located) == Outcome::Resolved(x);
                assert(required.contains(required[j]));
                assert(lacks(required, bundled, config, located, x));
            }
        }
    }
}

} // verus!
