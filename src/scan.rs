//! What the binary scanner and the external name index report, read into
//! library names and package names.
use vstd::prelude::*;

use crate::text::{
    insert_sorted, join, join_with, lemma_take_one_more, nonblank_lines, sorted_strict, starts_with,
    trimmed_lines,
};

verus! {

/// Adds the libraries that one binary requires, one per line of `listing`
/// (trimmed, blank lines left out), to the sorted set `required`.
pub fn add_needed(required: &mut Vec<String>, listing: &str)
    requires
        sorted_strict(old(required).deep_view()),
    ensures
        sorted_strict(final(required).deep_view()),
        forall|l: Seq<char>| #[trigger] final(required).deep_view().contains(l)
            <==> (old(required).deep_view().contains(l) || nonblank_lines(listing@).contains(l)),
{
    let lines = trimmed_lines(listing);
    let ghost ls = lines.deep_view();
    let ghost start = required.deep_view();
    let mut i: usize = 0;
    while i < lines.len()
        invariant
            i <= lines.len(),
            ls == lines.deep_view(),
            ls == nonblank_lines(listing@),
            sorted_strict(required.deep_view()),
            forall|l: Seq<char>| #[trigger] required.deep_view().contains(l)
                <==> (start.contains(l) || ls.take(i as int).contains(l)),
        decreases lines.len() - i,
    {
        insert_sorted(required, lines[i].clone());
        proof {
            lemma_take_one_more(ls, i as int);
        }
        i = i + 1;
    }
    assert(ls.take(i as int) =~= ls);
}

/// The first of `names` that starts with `data.tar`: the payload of a Debian
/// archive, whatever its compression.
pub fn find_data_archive(names: &Vec<String>) -> (r: Option<String>)
    ensures
        r matches Some(n) ==> exists|i: int| 0 <= i < names.len() && names[i]@ == n@
            && "data.tar"@.is_prefix_of(n@)
            && forall|j: int| 0 <= j < i ==> !"data.tar"@.is_prefix_of(#[trigger] names[j]@),
        r is None ==> forall|j: int| 0 <= j < names.len() ==> !"data.tar"@.is_prefix_of(#[trigger] names[j]@),
{
    let mut i: usize = 0;
    while i < names.len()
        invariant
            i <= names.len(),
            forall|j: int| 0 <= j < i ==> !"data.tar"@.is_prefix_of(#[trigger] names[j]@),
        decreases names.len() - i,
    {
        if starts_with(names[i].as_str(), "data.tar") {
            return Some(names[i].clone());
        }
        i = i + 1;
    }
    None
}

/// The tools of `tools` whose entry in `present` is false, in order.
pub open spec fn absent_tools(tools: Seq<Seq<char>>, present: Seq<bool>) -> Seq<Seq<char>>
    decreases tools.len(),
{
    if tools.len() == 0 {
        Seq::empty()
    } else {
        let prev = absent_tools(tools.drop_last(), present);
        if present[tools.len() - 1] {
            prev
        } else {
            prev.push(tools.last())
        }
    }
}

/// `Ok` where every tool is present (`present[i]` for `tools[i]`); else an
/// error that names the missing ones.
pub fn check_tools(tools: &Vec<String>, present: &Vec<bool>) -> (r: Result<(), String>)
    requires
        tools.len() == present.len(),
    ensures
        r is Ok <==> absent_tools(tools.deep_view(), present@).len() == 0,
        r matches Err(e) ==> e@ == "Missing required tools: "@
            + join(absent_tools(tools.deep_view(), present@), ", "@),
{
    let ghost ts = tools.deep_view();
    let mut missing: Vec<String> = Vec::new();
    let mut i: usize = 0;
    while i < tools.len()
        invariant
            i <= tools.len(),
            tools.len() == present.len(),
            ts == tools.deep_view(),
            missing.deep_view() == absent_tools(ts.take(i as int), present@),
        decreases tools.len() - i,
    {
        assert(ts.take(i + 1).drop_last() =~= ts.take(i as int));
        if !present[i] {
            missing.push(tools[i].clone());
        }
        i = i + 1;
        assert(missing.deep_view() =~= absent_tools(ts.take(i as int), present@));
    }
    assert(ts.take(i as int) =~= ts);
    if missing.len() == 0 {
        Ok(())
    } else {
        let mut e = String::from_str("Missing required tools: ");
        let list = join_with(&missing, ", ");
        e.append(list.as_str());
        Err(e)
    }
}

} // verus!
