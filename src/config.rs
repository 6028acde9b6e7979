//! The knowledge base: libraries that every build host has, and the package
//! that provides each known library.
use vstd::prelude::*;

use crate::text::same_text;

verus! {

/// File name of the knowledge base that overrides the built-in one.
pub const LIBRARIES_JSON_PATH: &'static str = "libraries.json";

/// The value paired with the first occurrence of `key` in `table`.
pub open spec fn lookup(table: Seq<(Seq<char>, Seq<char>)>, key: Seq<char>) -> Option<Seq<char>>
    decreases table.len(),
{
    if table.len() == 0 {
        None
    } else if table[0].0 == key {
        Some(table[0].1)
    } else {
        lookup(table.drop_first(), key)
    }
}

/// No key occurs twice in `table`.
pub open spec fn keys_distinct(table: Seq<(Seq<char>, Seq<char>)>) -> bool {
    forall|i: int, j: int| 0 <= i < j < table.len() ==> (#[trigger] table[i]).0 != (#[trigger] table[j]).0
}

/// The knowledge base. `lib_to_pkg_map` pairs a library's file name with the
/// name of the package that provides it; a key occurs at most once.
#[derive(Debug)]
pub struct LibrariesConfig {
    pub system_libs: Vec<String>,
    pub lib_to_pkg_map: Vec<(String, String)>,
}

impl LibrariesConfig {
    /// Each library name of the mapping occurs once.
    pub open spec fn wf(&self) -> bool {
        keys_distinct(self.lib_to_pkg_map.deep_view())
    }

    /// `lib` is assumed present on every build host.
    pub open spec fn is_system(&self, lib: Seq<char>) -> bool {
        self.system_libs.deep_view().contains(lib)
    }

    /// The package that the mapping names for `lib`.
    pub open spec fn package_of(&self, lib: Seq<char>) -> Option<Seq<char>> {
        lookup(self.lib_to_pkg_map.deep_view(), lib)
    }

    /// A knowledge base that knows nothing.
    pub fn new() -> (r: LibrariesConfig)
        ensures
            r.wf(),
            r.system_libs@.len() == 0,
            r.lib_to_pkg_map@.len() == 0,
    {
        LibrariesConfig { system_libs: Vec::new(), lib_to_pkg_map: Vec::new() }
    }

    /// Adds `lib` to the libraries that every build host has.
    pub fn add_system_lib(&mut self, lib: String)
        ensures
            final(self).system_libs.deep_view() == old(self).system_libs.deep_view().push(lib@),
            final(self).lib_to_pkg_map == old(self).lib_to_pkg_map,
    {
        self.system_libs.push(lib);
        assert(self.system_libs.deep_view() =~= old(self).system_libs.deep_view().push(lib@));
    }

    /// Maps `lib` to `pkg`, replacing what it was mapped to before.
    pub fn add_mapping(&mut self, lib: String, pkg: String)
        requires
            old(self).wf(),
        ensures
            final(self).wf(),
            final(self).system_libs == old(self).system_libs,
            forall|l: Seq<char>| #[trigger] final(self).package_of(l)
                == if l == lib@ { Some(pkg@) } else { old(self).package_of(l) },
    {
        let ghost t = self.lib_to_pkg_map.deep_view();
        let mut i: usize = 0;
        while i < self.lib_to_pkg_map.len()
            invariant
                i <= self.lib_to_pkg_map.len(),
                self.lib_to_pkg_map.deep_view() == t,
                self.system_libs == old(self).system_libs,
                t == old(self).lib_to_pkg_map.deep_view(),
                keys_distinct(t),
                forall|k: int| 0 <= k < i ==> (#[trigger] t[k]).0 != lib@,
            decreases self.lib_to_pkg_map.len() - i,
        {
            if self.lib_to_pkg_map[i].0 == lib {
                self.lib_to_pkg_map.set(i, (lib, pkg));
                let ghost nt = self.lib_to_pkg_map.deep_view();
                assert(nt =~= t.update(i as int, (lib@, pkg@)));
                proof {
                    lemma_lookup_update(t, i as int, pkg@);
                }
                return;
            }
            i = i + 1;
        }
        self.lib_to_pkg_map.push((lib, pkg));
        let ghost nt = self.lib_to_pkg_map.deep_view();
        assert(nt =~= t.push((lib@, pkg@)));
        proof {
            lemma_lookup_push(t, lib@, pkg@);
        }
    }
}

proof fn lemma_lookup_first(t: Seq<(Seq<char>, Seq<char>)>, i: int)
    requires
        0 <= i < t.len(),
        forall|j: int| 0 <= j < i ==> (#[trigger] t[j]).0 != t[i].0,
    ensures
        lookup(t, t[i].0) == Some(t[i].1),
    decreases i,
{
    if i > 0 {
        let d = t.drop_first();
        assert forall|j: int| 0 <= j < i - 1 implies (#[trigger] d[j]).0 != d[i - 1].0 by {
            assert(d[j] == t[j + 1]);
        }
        lemma_lookup_first(d, i - 1);
        assert(t[0].0 != t[i].0);
    }
}

proof fn lemma_lookup_agree(t: Seq<(Seq<char>, Seq<char>)>, u: Seq<(Seq<char>, Seq<char>)>, l: Seq<char>)
    requires
        t.len() == u.len(),
        forall|j: int| 0 <= j < t.len() ==> (#[trigger] t[j]).0 == u[j].0 && (t[j].0 == l ==> t[j].1 == u[j].1),
    ensures
        lookup(t, l) == lookup(u, l),
    decreases t.len(),
{
    if t.len() > 0 {
        let (dt, du) = (t.drop_first(), u.drop_first());
        assert forall|j: int| 0 <= j < dt.len() implies (#[trigger] dt[j]).0 == du[j].0 && (dt[j].0 == l ==> dt[j].1 == du[j].1) by {
            assert(dt[j] == t[j + 1] && du[j] == u[j + 1]);
        }
        lemma_lookup_agree(dt, du, l);
        assert(t[0].0 == u[0].0);
    }
}

proof fn lemma_lookup_push_other(t: Seq<(Seq<char>, Seq<char>)>, x: (Seq<char>, Seq<char>), l: Seq<char>)
    requires
        x.0 != l,
    ensures
        lookup(t.push(x), l) == lookup(t, l),
    decreases t.len(),
{
    if t.len() > 0 {
        lemma_lookup_push_other(t.drop_first(), x, l);
        assert(t.push(x).drop_first() =~= t.drop_first().push(x));
    } else {
        assert(t.push(x).drop_first() =~= t);
    }
}

proof fn lemma_lookup_update(t: Seq<(Seq<char>, Seq<char>)>, i: int, v: Seq<char>)
    requires
        0 <= i < t.len(),
        keys_distinct(t),
    ensures
        keys_distinct(t.update(i, (t[i].0, v))),
        forall|l: Seq<char>| #[trigger] lookup(t.update(i, (t[i].0, v)), l)
            == if l == t[i].0 { Some(v) } else { lookup(t, l) },
{
    let u = t.update(i, (t[i].0, v));
    assert forall|a: int, b: int| 0 <= a < b < u.len() implies (#[trigger] u[a]).0 != (#[trigger] u[b]).0 by {
        assert(u[a].0 == t[a].0 && u[b].0 == t[b].0);
    }
    assert forall|l: Seq<char>| #[trigger] lookup(u, l)
        == if l == t[i].0 { Some(v) } else { lookup(t, l) } by {
        if l == t[i].0 {
            lemma_lookup_first(u, i);
        } else {
            lemma_lookup_agree(t, u, l);
        }
    }
}

proof fn lemma_lookup_push(t: Seq<(Seq<char>, Seq<char>)>, k: Seq<char>, v: Seq<char>)
    requires
        keys_distinct(t),
        forall|j: int| 0 <= j < t.len() ==> (#[trigger] t[j]).0 != k,
    ensures
        keys_distinct(t.push((k, v))),
        forall|l: Seq<char>| #[trigger] lookup(t.push((k, v)), l)
            == if l == k { Some(v) } else { lookup(t, l) },
{
    let u = t.push((k, v));
    assert forall|a: int, b: int| 0 <= a < b < u.len() implies (#[trigger] u[a]).0 != (#[trigger] u[b]).0 by {
        if b == t.len() {
            assert(u[a] == t[a]);
        } else {
            assert(u[a] == t[a] && u[b] == t[b]);
        }
    }
    assert forall|l: Seq<char>| #[trigger] lookup(u, l)
        == if l == k { Some(v) } else { lookup(t, l) } by {
        if l == k {
            lemma_lookup_first(u, t.len() as int);
        } else {
            lemma_lookup_push_other(t, (k, v), l);
        }
    }
}

/// The libraries of the built-in knowledge base.
pub open spec fn default_system_libs() -> Seq<Seq<char>> {
    seq![
        "libc.so.6"@, "libm.so.6"@, "libdl.so.2"@, "libpthread.so.0"@, "librt.so.1"@,
        "libutil.so.1"@, "libresolv.so.2"@, "ld-linux-x86-64.so.2"@, "libgcc_s.so.1"@,
        "libstdc++.so.6"@,
    ]
}

/// The built-in knowledge base, used where no file overrides it: the C
/// runtime's libraries, and no mapping.
pub fn default_libraries_config() -> (r: LibrariesConfig)
    ensures
        r.wf(),
        r.system_libs.deep_view() == default_system_libs(),
        r.lib_to_pkg_map@.len() == 0,
{
    let mut r = LibrariesConfig::new();
    r.add_system_lib(String::from_str("libc.so.6"));
    r.add_system_lib(String::from_str("libm.so.6"));
    r.add_system_lib(String::from_str("libdl.so.2"));
    r.add_system_lib(String::from_str("libpthread.so.0"));
    r.add_system_lib(String::from_str("librt.so.1"));
    r.add_system_lib(String::from_str("libutil.so.1"));
    r.add_system_lib(String::from_str("libresolv.so.2"));
    r.add_system_lib(String::from_str("ld-linux-x86-64.so.2"));
    r.add_system_lib(String::from_str("libgcc_s.so.1"));
    r.add_system_lib(String::from_str("libstdc++.so.6"));
    r
}

/// The knowledge base in force: the one that was loaded, whole, where loading
/// succeeded; the built-in one otherwise.
pub fn libraries_config_or_default(loaded: Option<LibrariesConfig>) -> (r: LibrariesConfig)
    ensures
        loaded is Some ==> r == loaded->0,
        loaded is None ==> r.wf() && r.system_libs.deep_view() == default_system_libs()
            && r.lib_to_pkg_map@.len() == 0,
{
    match loaded {
        Some(c) => c,
        None => default_libraries_config(),
    }
}

/// Where a knowledge base file may be, in order of preference: the working
/// directory, its parent, and the directory `manifest_dir` of the sources.
pub fn config_path_candidates(manifest_dir: &str) -> (r: Vec<String>)
    ensures
        r.deep_view() == seq![
            LIBRARIES_JSON_PATH@,
            "../"@ + LIBRARIES_JSON_PATH@,
            manifest_dir@ + "/"@ + LIBRARIES_JSON_PATH@,
        ],
{
    let mut parent = String::from_str("../");
    parent.append(LIBRARIES_JSON_PATH);
    let mut beside = String::from_str(manifest_dir);
    beside.append("/");
    beside.append(LIBRARIES_JSON_PATH);
    let r = vec![String::from_str(LIBRARIES_JSON_PATH), parent, beside];
    assert(r.deep_view() =~= seq![
        LIBRARIES_JSON_PATH@,
        "../"@ + LIBRARIES_JSON_PATH@,
        manifest_dir@ + "/"@ + LIBRARIES_JSON_PATH@,
    ]);
    r
}

/// The first of `candidates` that exists (`present[i]` for `candidates[i]`);
/// the plain file name where none does.
pub fn choose_config_path(candidates: &Vec<String>, present: &Vec<bool>) -> (r: String)
    requires
        candidates.len() == present.len(),
    ensures
        (exists|i: int| 0 <= i < present.len() && present@[i]) ==> exists|i: int|
            0 <= i < present.len() && present@[i] && r@ == candidates[i]@
            && forall|j: int| 0 <= j < i ==> !#[trigger] present@[j],
        (forall|i: int| 0 <= i < present.len() ==> !#[trigger] present@[i]) ==> r@ == LIBRARIES_JSON_PATH@,
{
    let mut i: usize = 0;
    while i < candidates.len()
        invariant
            i <= candidates.len(),
            candidates.len() == present.len(),
            forall|j: int| 0 <= j < i ==> !#[trigger] present@[j],
        decreases candidates.len() - i,
    {
        if present[i] {
            return candidates[i].clone();
        }
        i = i + 1;
    }
    String::from_str(LIBRARIES_JSON_PATH)
}

/// Whether `lib_name` is assumed present on every build host.
pub fn is_system_lib(config: &LibrariesConfig, lib_name: &str) -> (r: bool)
    ensures
        r == config.is_system(lib_name@),
{
    let mut i: usize = 0;
    while i < config.system_libs.len()
        invariant
            i <= config.system_libs.len(),
            forall|k: int| 0 <= k < i ==> (#[trigger] config.system_libs.deep_view()[k]) != lib_name@,
        decreases config.system_libs.len() - i,
    {
        if same_text(config.system_libs[i].as_str(), lib_name) {
            assert(config.system_libs.deep_view()[i as int] == lib_name@);
            return true;
        }
        i = i + 1;
    }
    false
}

/// The package that the knowledge base maps `lib_name` to.
pub fn get_pkg_for_lib(config: &LibrariesConfig, lib_name: &str) -> (r: Option<String>)
    ensures
        r matches Some(p) ==> config.package_of(lib_name@) == Some(p@),
        r is None ==> config.package_of(lib_name@) is None,
{
    find_value(&config.lib_to_pkg_map, lib_name)
}

/// The value paired with the first occurrence of `key` in `table`.
pub fn find_value(table: &Vec<(String, String)>, key: &str) -> (r: Option<String>)
    ensures
        r matches Some(p) ==> lookup(table.deep_view(), key@) == Some(p@),
        r is None ==> lookup(table.deep_view(), key@) is None,
{
    let ghost t = table.deep_view();
    let mut i: usize = 0;
    assert(t.skip(0) =~= t);
    while i < table.len()
        invariant
            i <= table.len(),
            t == table.deep_view(),
            lookup(t, key@) == lookup(t.skip(i as int), key@),
        decreases table.len() - i,
    {
        assert(t.skip(i as int).drop_first() =~= t.skip(i + 1));
        if same_text(table[i].0.as_str(), key) {
            return Some(table[i].1.clone());
        }
        i = i + 1;
    }
    None
}

} // verus!
