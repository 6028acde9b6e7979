//! The external name index: which queries to make for a library, and how its
//! answer reads as a package name.
use vstd::prelude::*;

use crate::text::{
    chars_of, ends_with, ends_with_text, last_piece, last_segment, nonblank_lines, slice_to_string,
    trimmed_lines,
};

verus! {

/// The output suffixes that an index answer may carry after its attribute
/// path. To add one, add it here and in `strip_output_suffix`.
pub open spec fn output_suffixes() -> Seq<Seq<char>> {
    seq![".out"@, ".lib"@, ".dev"@, ".bin"@]
}

/// `c` without the first suffix of `suffixes` that ends it.
pub open spec fn strip_first_suffix(c: Seq<char>, suffixes: Seq<Seq<char>>) -> Seq<char>
    decreases suffixes.len(),
{
    if suffixes.len() == 0 {
        c
    } else if ends_with(c, suffixes[0]) {
        c.take(c.len() - suffixes[0].len())
    } else {
        strip_first_suffix(c, suffixes.drop_first())
    }
}

/// An answer line that the index puts in parentheses names an alternate
/// output rather than the package itself.
pub open spec fn is_variant(c: Seq<char>) -> bool {
    c.len() > 0 && c[0] == '('
}

/// `c` without its enclosing parentheses.
pub open spec fn unwrap_variant(c: Seq<char>) -> Seq<char> {
    let a = if c.len() > 0 && c[0] == '(' { c.drop_first() } else { c };
    if a.len() > 0 && a.last() == ')' { a.drop_last() } else { a }
}

/// The first line of `lines` that is not a variant.
pub open spec fn first_plain(lines: Seq<Seq<char>>) -> Option<Seq<char>>
    decreases lines.len(),
{
    if lines.len() == 0 {
        None
    } else if !is_variant(lines[0]) {
        Some(lines[0])
    } else {
        first_plain(lines.drop_first())
    }
}

/// The answer line to go by: the first that is not a variant, else the first
/// one, unwrapped.
pub open spec fn chosen_line(out: Seq<char>) -> Option<Seq<char>> {
    let lines = nonblank_lines(out);
    match first_plain(lines) {
        Some(c) => Some(c),
        None => if lines.len() > 0 { Some(unwrap_variant(lines[0])) } else { None },
    }
}

/// The package that the index's output `out` names: the last segment of the
/// chosen line's attribute path, after its output suffix is taken off.
pub open spec fn index_answer(out: Seq<char>) -> Option<Seq<char>> {
    match chosen_line(out) {
        Some(c) => {
            let p = last_piece(strip_first_suffix(c, output_suffixes()), '.');
            if p.len() > 0 { Some(p) } else { None }
        },
        None => None,
    }
}

/// `c` without the output suffix that ends it, if any.
pub fn strip_output_suffix(c: &str) -> (r: String)
    ensures
        r@ == strip_first_suffix(c@, output_suffixes()),
{
    let suffixes: Vec<&str> = vec![".out", ".lib", ".dev", ".bin"];
    let ghost all = output_suffixes();
    assert(suffixes@.len() == 4);
    assert(all.skip(0) =~= all);
    let mut i: usize = 0;
    while i < suffixes.len()
        invariant
            i <= suffixes.len(),
            suffixes@.len() == 4,
            suffixes@[0]@ == ".out"@,
            suffixes@[1]@ == ".lib"@,
            suffixes@[2]@ == ".dev"@,
            suffixes@[3]@ == ".bin"@,
            all == output_suffixes(),
            strip_first_suffix(c@, all) == strip_first_suffix(c@, all.skip(i as int)),
        decreases suffixes.len() - i,
    {
        assert(all.skip(i as int).drop_first() =~= all.skip(i + 1));
        assert(all.skip(i as int)[0] == suffixes@[i as int]@);
        if ends_with_text(c, suffixes[i]) {
            let n = chars_of(c).len();
            let m = chars_of(suffixes[i]).len();
            return slice_to_string(c, 0, n - m);
        }
        i = i + 1;
    }
    assert(all.skip(4) =~= Seq::<Seq<char>>::empty());
    String::from_str(c)
}

/// `c` without its enclosing parentheses.
pub fn unwrap_parens(c: &str) -> (r: String)
    ensures
        r@ == unwrap_variant(c@),
{
    let cs = chars_of(c);
    let mut a: usize = 0;
    let mut b: usize = cs.len();
    if b > 0 && cs[0] == '(' {
        a = 1;
    }
    if b > a && cs[b - 1] == ')' {
        b = b - 1;
    }
    let r = slice_to_string(c, a, b);
    proof {
        let x = if c@.len() > 0 && c@[0] == '(' { c@.drop_first() } else { c@ };
        assert(x =~= c@.subrange(a as int, cs.len() as int));
        if x.len() > 0 && x.last() == ')' {
            assert(x.drop_last() =~= c@.subrange(a as int, b as int));
        } else {
            assert(x =~= c@.subrange(a as int, b as int));
        }
    }
    r
}

/// The position of the first of `lines` that is not a variant.
fn first_plain_position(lines: &Vec<String>) -> (r: Option<usize>)
    ensures
        r matches Some(k) ==> k < lines.len() && first_plain(lines.deep_view()) == Some(lines.deep_view()[k as int]),
        r is None ==> first_plain(lines.deep_view()) is None,
{
    let ghost ls = lines.deep_view();
    let mut i: usize = 0;
    assert(ls.skip(0) =~= ls);
    while i < lines.len()
        invariant
            i <= lines.len(),
            ls == lines.deep_view(),
            first_plain(ls) == first_plain(ls.skip(i as int)),
        decreases lines.len() - i,
    {
        assert(ls.skip(i as int).drop_first() =~= ls.skip(i + 1));
        let cs = chars_of(lines[i].as_str());
        if !(cs.len() > 0 && cs[0] == '(') {
            return Some(i);
        }
        i = i + 1;
    }
    assert(ls.skip(i as int) =~= Seq::<Seq<char>>::empty());
    None
}

/// The package that the index's output names, if it names one.
pub fn package_from_index_output(out: &str) -> (r: Option<String>)
    ensures
        r matches Some(p) ==> index_answer(out@) == Some(p@),
        r is None ==> index_answer(out@) is None,
{
    let lines = trimmed_lines(out);
    let chosen = match first_plain_position(&lines) {
        Some(k) => lines[k].clone(),
        None => {
            if lines.len() == 0 {
                return None;
            }
            unwrap_parens(lines[0].as_str())
        },
    };
    assert(chosen_line(out@) == Some(chosen@));
    let base = strip_output_suffix(chosen.as_str());
    let p = last_segment(base.as_str(), '.');
    if p.unicode_len() > 0 {
        Some(p)
    } else {
        None
    }
}

/// A query to the external name index.
pub enum IndexQuery {
    /// Files at this path under a package's root, such as `/lib/libfoo.so.1`.
    AtRoot(String),
    /// Files of this name anywhere in a package.
    Anywhere(String),
}

/// What to do after an answer of the index.
pub enum IndexStep {
    /// Make this query next.
    Ask(IndexQuery),
    /// The index names this package.
    Found(String),
    /// The index knows no package for the library.
    NotFound,
}

/// The first query for `lib`: the library under `/lib` of a package.
pub fn first_index_query(lib: &str) -> (r: IndexQuery)
    ensures
        r matches IndexQuery::AtRoot(p) && p@ == "/lib/"@ + lib@,
{
    let mut p = String::from_str("/lib/");
    p.append(lib);
    IndexQuery::AtRoot(p)
}

/// The step after `query` for `lib` was answered with `out` (`succeeded`:
/// the index reported success). An answer at the root that names a package
/// settles it; otherwise the index is asked for the file name anywhere, and
/// what that answer names, if anything, settles it.
pub fn next_index_step(lib: &str, query: &IndexQuery, succeeded: bool, out: &str) -> (r: IndexStep)
    ensures
        query is AtRoot ==> (
            if succeeded && index_answer(out@) is Some {
                r matches IndexStep::Found(p) && Some(p@) == index_answer(out@)
            } else {
                r matches IndexStep::Ask(IndexQuery::Anywhere(n)) && n@ == lib@
            }),
        query is Anywhere ==> (
            match index_answer(out@) {
                Some(a) => r matches IndexStep::Found(p) && p@ == a,
                None => r is NotFound,
            }),
{
    match query {
        IndexQuery::AtRoot(_) => {
            if succeeded {
                if let Some(p) = package_from_index_output(out) {
                    return IndexStep::Found(p);
                }
            }
            IndexStep::Ask(IndexQuery::Anywhere(String::from_str(lib)))
        },
        IndexQuery::Anywhere(_) => {
            match package_from_index_output(out) {
                Some(p) => IndexStep::Found(p),
                None => IndexStep::NotFound,
            }
        },
    }
}

} // verus!
