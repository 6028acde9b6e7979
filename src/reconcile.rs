//! Conflict reconciliation: where a newer and an older major version of the
//! same family were both resolved, the older family is dropped.
use vstd::prelude::*;

use crate::text::{chars_of, is_digit, sorted_strict};

verus! {

/// The pairs of mutually exclusive major versions, newer first. The rule is
/// extended by adding pairs here and in `is_superseded`.
pub open spec fn conflict_rules() -> Seq<(char, char)> {
    seq![('6', '5')]
}

/// `n` holds the major version `d` at `i`: a lone digit after a non-empty base.
pub open spec fn major_at(n: Seq<char>, i: int, d: char) -> bool {
    &&& 0 < i < n.len()
    &&& n[i] == d
    &&& !is_digit(n[i - 1])
    &&& (i + 1 == n.len() || !is_digit(n[i + 1]))
}

/// `q` is of the newer family and `p` of the older one, with the same base
/// before the major version at `i`.
pub open spec fn supersedes_at(q: Seq<char>, p: Seq<char>, i: int, newer: char, older: char) -> bool {
    &&& major_at(p, i, older)
    &&& major_at(q, i, newer)
    &&& q.take(i) == p.take(i)
}

/// Some name of `all` belongs to a newer family than `p` does.
pub open spec fn superseded(p: Seq<char>, all: Seq<Seq<char>>) -> bool {
    exists|r: int, i: int, j: int|
        0 <= r < conflict_rules().len() && 0 <= j < all.len()
            && #[trigger] supersedes_at(all[j], p, i, conflict_rules()[r].0, conflict_rules()[r].1)
}

/// The names of `s` that no name of `all` supersedes, in order.
pub open spec fn kept(s: Seq<Seq<char>>, all: Seq<Seq<char>>) -> Seq<Seq<char>>
    decreases s.len(),
{
    if s.len() == 0 {
        Seq::empty()
    } else if superseded(s.last(), all) {
        kept(s.drop_last(), all)
    } else {
        kept(s.drop_last(), all).push(s.last())
    }
}

fn has_major_at(n: &Vec<char>, i: usize, d: char) -> (r: bool)
    ensures
        r == major_at(n@, i as int, d),
{
    0 < i && i < n.len() && n[i] == d && !('0' <= n[i - 1] && n[i - 1] <= '9')
        && (i + 1 == n.len() || !('0' <= n[i + 1] && n[i + 1] <= '9'))
}

fn same_prefix(a: &Vec<char>, b: &Vec<char>, n: usize) -> (r: bool)
    requires
        n <= a.len(),
        n <= b.len(),
    ensures
        r == (a@.take(n as int) == b@.take(n as int)),
{
    let mut k: usize = 0;
    while k < n
        invariant
            k <= n <= a.len(),
            n <= b.len(),
            forall|m: int| 0 <= m < k ==> a@[m] == b@[m],
        decreases n - k,
    {
        if a[k] != b[k] {
            assert(a@.take(n as int)[k as int] != b@.take(n as int)[k as int]);
            return false;
        }
        k = k + 1;
    }
    assert(a@.take(n as int) =~= b@.take(n as int));
    true
}

/// Whether some name of `all` supersedes `p`.
pub fn is_superseded(p: &str, all: &Vec<String>) -> (r: bool)
    ensures
        r == superseded(p@, all.deep_view()),
{
    let rules: Vec<(char, char)> = vec![('6', '5')];
    let ghost av = all.deep_view();
    let pc = chars_of(p);
    let mut r: usize = 0;
    while r < rules.len()
        invariant
            r <= rules.len(),
            rules@ == conflict_rules(),
            pc@ == p@,
            av == all.deep_view(),
            forall|r2: int, i: int, j: int| 0 <= r2 < r && 0 <= j < av.len()
                ==> !#[trigger] supersedes_at(av[j], p@, i, conflict_rules()[r2].0, conflict_rules()[r2].1),
        decreases rules.len() - r,
    {
        let (newer, older) = rules[r];
        let mut i: usize = 1;
        while i < pc.len()
            invariant
                1 <= i,
                r < rules.len(),
                rules@ == conflict_rules(),
                (newer, older) == conflict_rules()[r as int],
                pc@ == p@,
                av == all.deep_view(),
                forall|i2: int, j: int| i2 < i && 0 <= j < av.len()
                    ==> !#[trigger] supersedes_at(av[j], p@, i2, newer, older),
            decreases pc.len() - i,
        {
            if has_major_at(&pc, i, older) {
                let mut j: usize = 0;
                while j < all.len()
                    invariant
                        j <= all.len(),
                        1 <= i < pc.len(),
                        major_at(p@, i as int, older),
                        r < rules.len(),
                        rules@ == conflict_rules(),
                        (newer, older) == conflict_rules()[r as int],
                        pc@ == p@,
                        av == all.deep_view(),
                        forall|j2: int| 0 <= j2 < j ==> !#[trigger] supersedes_at(av[j2], p@, i as int, newer, older),
                    decreases all.len() - j,
                {
                    let qc = chars_of(all[j].as_str());
                    assert(av[j as int] == qc@);
                    if has_major_at(&qc, i, newer) && same_prefix(&qc, &pc, i) {
                        assert(supersedes_at(av[j as int], p@, i as int, conflict_rules()[r as int].0, conflict_rules()[r as int].1));
                        return true;
                    }
                    j = j + 1;
                }
            }
            i = i + 1;
        }
        assert forall|i2: int, j: int| 0 <= j < av.len()
            implies !#[trigger] supersedes_at(av[j], p@, i2, newer, older) by {
            if i2 >= i || i2 < 1 {
                assert(!major_at(p@, i2, older));
            }
        }
        r = r + 1;
    }
    false
}

/// `resolved` without the names that a name of a newer family supersedes:
/// where both `<base>6…` and `<base>5…` occur, every `<base>5…` goes.
pub fn reconcile(resolved: &Vec<String>) -> (r: Vec<String>)
    ensures
        r.deep_view() == kept(resolved.deep_view(), resolved.deep_view()),
        forall|x: Seq<char>| #[trigger] r.deep_view().contains(x)
            <==> resolved.deep_view().contains(x) && !superseded(x, resolved.deep_view()),
        sorted_strict(resolved.deep_view()) ==> sorted_strict(r.deep_view()),
{
    let ghost all = resolved.deep_view();
    let mut r: Vec<String> = Vec::new();
    let mut i: usize = 0;
    assert(all.take(0) =~= Seq::<Seq<char>>::empty());
    while i < resolved.len()
        invariant
            i <= resolved.len(),
            all == resolved.deep_view(),
            r.deep_view() == kept(all.take(i as int), all),
            forall|x: Seq<char>| #[trigger] r.deep_view().contains(x)
                <==> all.take(i as int).contains(x) && !superseded(x, all),
            sorted_strict(all) ==> sorted_strict(r.deep_view()),
            sorted_strict(all) ==> forall|a: int| 0 <= a < r.len()
                ==> exists|k: int| 0 <= k < i && all[k] == #[trigger] r.deep_view()[a],
        decreases resolved.len() - i,
    {
        assert(all.take(i + 1).drop_last() =~= all.take(i as int));
        proof {
            crate::text::lemma_take_one_more(all, i as int);
        }
        let ghost before = r.deep_view();
        if !is_superseded(resolved[i].as_str(), resolved) {
            r.push(resolved[i].clone());
            assert(r.deep_view() =~= before.push(all[i as int]));
            proof {
                if sorted_strict(all) {
                    assert forall|a: int, b: int| 0 <= a < b < r.deep_view().len()
                        implies crate::text::lex_lt(#[trigger] r.deep_view()[a], #[trigger] r.deep_view()[b]) by {
                        if b == before.len() {
                            let k = choose|k: int| 0 <= k < i && all[k] == #[trigger] before[a];
                            assert(all[k] == before[a]);
                        } else {
                            assert(before[a] == r.deep_view()[a] && before[b] == r.deep_view()[b]);
                        }
                    }
                    assert forall|a: int| 0 <= a < r.len()
                        implies exists|k: int| 0 <= k < i + 1 && all[k] == #[trigger] r.deep_view()[a] by {
                        if a == before.len() {
                            assert(all[i as int] == r.deep_view()[a]);
                        } else {
                            assert(before[a] == r.deep_view()[a]);
                            let k = choose|k: int| 0 <= k < i && all[k] == #[trigger] before[a];
                            assert(all[k] == r.deep_view()[a]);
                        }
                    }
                }
            }
        } else {
            proof {
                if sorted_strict(all) {
                    assert forall|a: int| 0 <= a < r.len()
                        implies exists|k: int| 0 <= k < i + 1 && all[k] == #[trigger] r.deep_view()[a] by {
                        let k = choose|k: int| 0 <= k < i && all[k] == #[trigger] before[a];
                        assert(all[k] == r.deep_view()[a]);
                    }
                }
            }
        }
        assert forall|x: Seq<char>| #[trigger] r.deep_view().contains(x)
            <==> all.take(i + 1).contains(x) && !superseded(x, all) by {
            if r.deep_view().contains(x) {
                let a = choose|a: int| 0 <= a < r.deep_view().len() && r.deep_view()[a] == x;
                if a < before.len() {
                    assert(before[a] == x);
                    assert(before.contains(x));
                } else {
                    assert(x == all[i as int]);
                }
            }
            if x == all[i as int] && !superseded(x, all) {
                assert(r.deep_view()[before.len() as int] == x);
            }
            if before.contains(x) {
                let a = choose|a: int| 0 <= a < before.len() && before[a] == x;
                assert(r.deep_view()[a] == x);
            }
        }
        i = i + 1;
    }
    assert(all.take(i as int) =~= all);
    r
}

} // verus!
