//! Filling a text template: each `{key}` of a known key is replaced by its
//! value, in one pass from left to right; all other text stays as it is.
use vstd::prelude::*;

use crate::text::{chars_of, slice_to_string};

verus! {

/// How the key `k` is written in a template.
pub open spec fn placeholder(k: Seq<char>) -> Seq<char> {
    seq!['{'] + k + seq!['}']
}

/// The first of `fields` whose placeholder starts `t`.
pub open spec fn first_field(t: Seq<char>, fields: Seq<(Seq<char>, Seq<char>)>) -> Option<(Seq<char>, Seq<char>)>
    decreases fields.len(),
{
    if fields.len() == 0 {
        None
    } else if placeholder(fields[0].0).is_prefix_of(t) {
        Some(fields[0])
    } else {
        first_field(t, fields.drop_first())
    }
}

pub proof fn lemma_first_field_prefix(t: Seq<char>, fields: Seq<(Seq<char>, Seq<char>)>)
    ensures
        first_field(t, fields) matches Some(f) ==> placeholder(f.0).is_prefix_of(t),
    decreases fields.len(),
{
    if fields.len() > 0 {
        lemma_first_field_prefix(t, fields.drop_first());
    }
}

/// The text of template `t` with `fields` filled in.
pub open spec fn fill(t: Seq<char>, fields: Seq<(Seq<char>, Seq<char>)>) -> Seq<char>
    decreases t.len(),
{
    if t.len() == 0 {
        Seq::empty()
    } else {
        match first_field(t, fields) {
            // The placeholder starts `t`, so this test always holds.
            Some(f) => if placeholder(f.0).len() <= t.len() {
                f.1 + fill(t.skip(placeholder(f.0).len() as int), fields)
            } else {
                Seq::empty()
            },
            None => seq![t[0]] + fill(t.drop_first(), fields),
        }
    }
}

/// The characters of the placeholder of `k`.
fn placeholder_chars(k: &str) -> (r: Vec<char>)
    ensures
        r@ == placeholder(k@),
{
    let ks = chars_of(k);
    let mut r: Vec<char> = Vec::new();
    r.push('{');
    let mut i: usize = 0;
    while i < ks.len()
        invariant
            i <= ks.len(),
            ks@ == k@,
            r@ == seq!['{'] + k@.take(i as int),
        decreases ks.len() - i,
    {
        r.push(ks[i]);
        i = i + 1;
        assert(r@ =~= seq!['{'] + k@.take(i as int));
    }
    r.push('}');
    assert(r@ =~= placeholder(k@));
    r
}

/// Whether `p` occurs in `t` at `i`.
fn occurs_at(t: &Vec<char>, i: usize, p: &Vec<char>) -> (r: bool)
    requires
        i <= t.len(),
    ensures
        r == p@.is_prefix_of(t@.skip(i as int)),
{
    if p.len() > t.len() - i {
        return false;
    }
    let mut k: usize = 0;
    while k < p.len()
        invariant
            k <= p.len(),
            i + p.len() <= t.len(),
            forall|m: int| 0 <= m < k ==> p@[m] == t@[i + m],
        decreases p.len() - k,
    {
        if p[k] != t[i + k] {
            assert(t@.skip(i as int)[k as int] == t@[i + k]);
            return false;
        }
        k = k + 1;
    }
    true
}

/// The position of the first field whose placeholder occurs in `t` at `i`.
fn field_at(t: &Vec<char>, i: usize, holders: &Vec<Vec<char>>, fields: &Vec<(String, String)>) -> (r: Option<usize>)
    requires
        i <= t.len(),
        holders.len() == fields.len(),
        forall|j: int| 0 <= j < fields.len() ==> (#[trigger] holders@[j])@ == placeholder(fields.deep_view()[j].0),
    ensures
        r matches Some(j) ==> j < fields.len() && first_field(t@.skip(i as int), fields.deep_view()) == Some(fields.deep_view()[j as int]),
        r is None ==> first_field(t@.skip(i as int), fields.deep_view()) is None,
{
    let ghost fs = fields.deep_view();
    let ghost rest = t@.skip(i as int);
    let mut j: usize = 0;
    assert(fs.skip(0) =~= fs);
    while j < fields.len()
        invariant
            j <= fields.len(),
            i <= t.len(),
            rest == t@.skip(i as int),
            holders.len() == fields.len(),
            fs == fields.deep_view(),
            forall|m: int| 0 <= m < fields.len() ==> (#[trigger] holders@[m])@ == placeholder(fs[m].0),
            first_field(rest, fs) == first_field(rest, fs.skip(j as int)),
        decreases fields.len() - j,
    {
        assert(fs.skip(j as int).drop_first() =~= fs.skip(j + 1));
        assert(fs.skip(j as int)[0] == fs[j as int]);
        if occurs_at(t, i, &holders[j]) {
            return Some(j);
        }
        j = j + 1;
    }
    assert(fs.skip(j as int) =~= Seq::<(Seq<char>, Seq<char>)>::empty());
    None
}

/// The text of `template` with `fields` filled in: each placeholder `{key}`
/// becomes the value of the first field of that key.
pub fn fill_template(template: &str, fields: &Vec<(String, String)>) -> (r: String)
    ensures
        r@ == fill(template@, fields.deep_view()),
{
    let ghost fs = fields.deep_view();
    let ghost tt = template@;
    let tc = chars_of(template);
    let n = tc.len();
    let mut holders: Vec<Vec<char>> = Vec::new();
    let mut j: usize = 0;
    while j < fields.len()
        invariant
            j <= fields.len(),
            holders.len() == j,
            fs == fields.deep_view(),
            forall|m: int| 0 <= m < j ==> (#[trigger] holders@[m])@ == placeholder(fs[m].0),
        decreases fields.len() - j,
    {
        holders.push(placeholder_chars(fields[j].0.as_str()));
        j = j + 1;
    }
    let mut out = String::new();
    let mut run: usize = 0;
    let mut i: usize = 0;
    assert(tt.skip(0) =~= tt);
    while i < n
        invariant
            run <= i <= n,
            n == tt.len(),
            tc@ == tt,
            tt == template@,
            holders.len() == fields.len(),
            fs == fields.deep_view(),
            forall|m: int| 0 <= m < fields.len() ==> (#[trigger] holders@[m])@ == placeholder(fs[m].0),
            fill(tt, fs) == out@ + tt.subrange(run as int, i as int) + fill(tt.skip(i as int), fs),
        decreases n - i,
    {
        let ghost rest = tt.skip(i as int);
        match field_at(&tc, i, &holders, fields) {
            Some(k) => {
                let len = holders[k].len();
                proof {
                    lemma_first_field_prefix(rest, fs);
                    assert(rest.skip(len as int) =~= tt.skip(i + len));
                }
                let lit = slice_to_string(template, run, i);
                out.append(lit.as_str());
                out.append(fields[k].1.as_str());
                i = i + len;
                run = i;
                assert(fill(tt, fs) =~= out@ + tt.subrange(run as int, i as int) + fill(tt.skip(i as int), fs));
            },
            None => {
                assert(rest.drop_first() =~= tt.skip(i + 1));
                assert(tt.subrange(run as int, i + 1) =~= tt.subrange(run as int, i as int) + seq![tt[i as int]]);
                i = i + 1;
                assert(fill(tt, fs) =~= out@ + tt.subrange(run as int, i as int) + fill(tt.skip(i as int), fs));
            },
        }
    }
    let lit = slice_to_string(template, run, n);
    out.append(lit.as_str());
    assert(out@ =~= fill(tt, fs));
    out
}

} // verus!
