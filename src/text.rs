//! Text primitives over the character view of strings: splitting into
//! pieces, trimming white space, prefixes, and the lexicographic order.
use vstd::prelude::*;

verus! {

/// `char::is_whitespace`: the characters with the Unicode `White_Space` property.
pub open spec fn is_space(c: char) -> bool {
    ||| ('\t' <= c && c <= '\r')
    ||| c == ' '
    ||| c == '\u{85}'
    ||| c == '\u{a0}'
    ||| c == '\u{1680}'
    ||| ('\u{2000}' <= c && c <= '\u{200a}')
    ||| c == '\u{2028}'
    ||| c == '\u{2029}'
    ||| c == '\u{202f}'
    ||| c == '\u{205f}'
    ||| c == '\u{3000}'
}

/// `s` without its leading white space.
pub open spec fn trim_start(s: Seq<char>) -> Seq<char>
    decreases s.len(),
{
    if s.len() > 0 && is_space(s[0]) {
        trim_start(s.drop_first())
    } else {
        s
    }
}

/// `s` without its trailing white space.
pub open spec fn trim_end(s: Seq<char>) -> Seq<char>
    decreases s.len(),
{
    if s.len() > 0 && is_space(s.last()) {
        trim_end(s.drop_last())
    } else {
        s
    }
}

/// `s` without leading and trailing white space, as `str::trim` gives it.
pub open spec fn trimmed(s: Seq<char>) -> Seq<char> {
    trim_end(trim_start(s))
}

/// The pieces of `s` between occurrences of `sep`, as `str::split` gives
/// them: one more piece than there are separators.
pub open spec fn split_on(s: Seq<char>, sep: char) -> Seq<Seq<char>>
    decreases s.len(),
{
    if s.len() == 0 {
        seq![Seq::<char>::empty()]
    } else {
        let prev = split_on(s.drop_last(), sep);
        if s.last() == sep {
            prev.push(Seq::<char>::empty())
        } else {
            prev.update(prev.len() - 1, prev.last().push(s.last()))
        }
    }
}

/// The last piece of `s` after `sep`: all of `s` where `sep` does not occur.
pub open spec fn last_piece(s: Seq<char>, sep: char) -> Seq<char> {
    split_on(s, sep).last()
}

/// An ASCII digit.
pub open spec fn is_digit(c: char) -> bool {
    '0' <= c && c <= '9'
}

/// `c` ends with `t`.
pub open spec fn ends_with(c: Seq<char>, t: Seq<char>) -> bool {
    t.len() <= c.len() && c.skip(c.len() - t.len()) == t
}

/// Strict lexicographic order on character sequences, by code point; this is
/// the order of `String`, whose bytes are UTF-8.
pub open spec fn lex_lt(a: Seq<char>, b: Seq<char>) -> bool
    decreases a.len(),
{
    if b.len() == 0 {
        false
    } else if a.len() == 0 {
        true
    } else if a[0] != b[0] {
        a[0] < b[0]
    } else {
        lex_lt(a.drop_first(), b.drop_first())
    }
}

/// Every element comes strictly before the ones after it: sorted, without repeats.
pub open spec fn sorted_strict(s: Seq<Seq<char>>) -> bool {
    forall|i: int, j: int| 0 <= i < j < s.len() ==> lex_lt(#[trigger] s[i], #[trigger] s[j])
}

/// The trimmed lines of a sequence of lines, blank ones left out.
pub open spec fn nonblank(lines: Seq<Seq<char>>) -> Seq<Seq<char>>
    decreases lines.len(),
{
    if lines.len() == 0 {
        Seq::empty()
    } else {
        let prev = nonblank(lines.drop_last());
        if trimmed(lines.last()).len() > 0 {
            prev.push(trimmed(lines.last()))
        } else {
            prev
        }
    }
}

/// The lines of `s`, trimmed, without the blank ones.
pub open spec fn nonblank_lines(s: Seq<char>) -> Seq<Seq<char>> {
    nonblank(split_on(s, '\n'))
}

/// `parts` with `sep` between each two of them.
pub open spec fn join(parts: Seq<Seq<char>>, sep: Seq<char>) -> Seq<char>
    decreases parts.len(),
{
    if parts.len() == 0 {
        Seq::empty()
    } else if parts.len() == 1 {
        parts[0]
    } else {
        join(parts.drop_last(), sep) + sep + parts.last()
    }
}

pub proof fn lemma_lex_irreflexive(a: Seq<char>)
    ensures
        !lex_lt(a, a),
    decreases a.len(),
{
    if a.len() > 0 {
        lemma_lex_irreflexive(a.drop_first());
    }
}

pub proof fn lemma_lex_transitive(a: Seq<char>, b: Seq<char>, c: Seq<char>)
    requires
        lex_lt(a, b),
        lex_lt(b, c),
    ensures
        lex_lt(a, c),
    decreases a.len(),
{
    if a.len() > 0 && b.len() > 0 && c.len() > 0 && a[0] == b[0] && b[0] == c[0] {
        lemma_lex_transitive(a.drop_first(), b.drop_first(), c.drop_first());
    }
}

pub proof fn lemma_lex_total(a: Seq<char>, b: Seq<char>)
    ensures
        a == b || lex_lt(a, b) || lex_lt(b, a),
    decreases a.len(),
{
    if a.len() > 0 && b.len() > 0 && a[0] == b[0] {
        lemma_lex_total(a.drop_first(), b.drop_first());
        if a.drop_first() == b.drop_first() {
            assert(a =~= seq![a[0]] + a.drop_first());
            assert(b =~= seq![b[0]] + b.drop_first());
        }
    } else if a.len() > 0 && b.len() > 0 {
        assert(a[0] < b[0] || b[0] < a[0]);
    } else if a.len() == 0 && b.len() == 0 {
        assert(a =~= b);
    }
}

pub proof fn lemma_lex_asymmetric(a: Seq<char>, b: Seq<char>)
    requires
        lex_lt(a, b),
    ensures
        !lex_lt(b, a),
{
    if lex_lt(b, a) {
        lemma_lex_transitive(a, b, a);
        lemma_lex_irreflexive(a);
    }
}

/// Two sorted sequences without repeats that hold the same elements are equal.
pub proof fn lemma_sorted_unique(s1: Seq<Seq<char>>, s2: Seq<Seq<char>>)
    requires
        sorted_strict(s1),
        sorted_strict(s2),
        forall|x: Seq<char>| s1.contains(x) <==> s2.contains(x),
    ensures
        s1 == s2,
    decreases s1.len(),
{
    if s1.len() == 0 {
        if s2.len() > 0 {
            assert(s2.contains(s2[0]));
        }
        assert(s1 =~= s2);
    } else {
        assert(s1.contains(s1[0]));
        let j = choose|j: int| 0 <= j < s2.len() && s2[j] == s1[0];
        assert(s2.contains(s2[0]));
        let i = choose|i: int| 0 <= i < s1.len() && s1[i] == s2[0];
        if j > 0 {
            if i == 0 {
                lemma_lex_irreflexive(s1[0]);
            } else {
                lemma_lex_asymmetric(s1[0], s1[i]);
            }
        }
        assert(s1[0] == s2[0]);
        let t1 = s1.drop_first();
        let t2 = s2.drop_first();
        assert forall|x: Seq<char>| t1.contains(x) <==> t2.contains(x) by {
            if t1.contains(x) {
                let k = choose|k: int| 0 <= k < t1.len() && t1[k] == x;
                assert(s1[0] != x) by {
                    lemma_lex_irreflexive(x);
                    assert(lex_lt(s1[0], s1[k + 1]));
                }
                assert(s1.contains(x)) by {
                    assert(s1[k + 1] == x);
                }
                let m = choose|m: int| 0 <= m < s2.len() && s2[m] == x;
                assert(m != 0);
                assert(t2[m - 1] == x);
            }
            if t2.contains(x) {
                let k = choose|k: int| 0 <= k < t2.len() && t2[k] == x;
                assert(s2[0] != x) by {
                    lemma_lex_irreflexive(x);
                    assert(lex_lt(s2[0], s2[k + 1]));
                }
                assert(s2.contains(x)) by {
                    assert(s2[k + 1] == x);
                }
                let m = choose|m: int| 0 <= m < s1.len() && s1[m] == x;
                assert(m != 0);
                assert(t1[m - 1] == x);
            }
        }
        lemma_sorted_unique(t1, t2);
        assert(s1 =~= seq![s1[0]] + t1);
        assert(s2 =~= seq![s2[0]] + t2);
    }
}

/// What the first `i + 1` elements hold: what the first `i` hold, and `s[i]`.
pub proof fn lemma_take_one_more<A>(s: Seq<A>, i: int)
    requires
        0 <= i < s.len(),
    ensures
        forall|x: A| #[trigger] s.take(i + 1).contains(x) <==> (s.take(i).contains(x) || x == s[i]),
{
    assert forall|x: A| #[trigger] s.take(i + 1).contains(x) <==> (s.take(i).contains(x) || x == s[i]) by {
        if s.take(i + 1).contains(x) {
            let k = choose|k: int| 0 <= k < i + 1 && #[trigger] s.take(i + 1)[k] == x;
            if k < i {
                assert(s.take(i)[k] == x);
            }
        }
        if s.take(i).contains(x) {
            let k = choose|k: int| 0 <= k < i && #[trigger] s.take(i)[k] == x;
            assert(s.take(i + 1)[k] == x);
        }
        if x == s[i] {
            assert(s.take(i + 1)[i] == x);
        }
    }
}

/// The characters of `s`, in order.
pub fn chars_of(s: &str) -> (r: Vec<char>)
    ensures
        r@ == s@,
{
    let mut r: Vec<char> = Vec::new();
    for c in it: s.chars()
        invariant
            r@ == it.seq().take(it.index() as int),
    {
        r.push(c);
    }
    r
}

/// Whether `c` is white space, as `char::is_whitespace` says.
pub fn is_space_char(c: char) -> (r: bool)
    ensures
        r == is_space(c),
{
    ('\t' <= c && c <= '\r') || c == ' ' || c == '\u{85}' || c == '\u{a0}' || c == '\u{1680}'
        || ('\u{2000}' <= c && c <= '\u{200a}') || c == '\u{2028}' || c == '\u{2029}'
        || c == '\u{202f}' || c == '\u{205f}' || c == '\u{3000}'
}

/// A new `String` holding the characters `from .. to` of `s`.
pub fn slice_to_string(s: &str, from: usize, to: usize) -> (r: String)
    requires
        from <= to <= s@.len(),
    ensures
        r@ == s@.subrange(from as int, to as int),
{
    String::from_str(s.substring_char(from, to))
}

/// `s` without leading and trailing white space.
pub fn trim(s: &str) -> (r: String)
    ensures
        r@ == trimmed(s@),
{
    let cs = chars_of(s);
    let n = cs.len();
    let mut a: usize = 0;
    assert(s@.skip(0) =~= s@);
    while a < n && is_space_char(cs[a])
        invariant
            a <= n,
            n == s@.len(),
            cs@ == s@,
            trim_start(s@) == trim_start(s@.skip(a as int)),
        decreases n - a,
    {
        assert(s@.skip(a as int).drop_first() =~= s@.skip(a as int + 1));
        a = a + 1;
    }
    assert(trim_start(s@) == s@.subrange(a as int, n as int)) by {
        assert(s@.skip(a as int) =~= s@.subrange(a as int, n as int));
    }
    let mut b: usize = n;
    while b > a && is_space_char(cs[b - 1])
        invariant
            a <= b <= n,
            n == s@.len(),
            cs@ == s@,
            trimmed(s@) == trim_end(s@.subrange(a as int, b as int)),
        decreases b,
    {
        assert(s@.subrange(a as int, b as int).drop_last() =~= s@.subrange(a as int, b - 1));
        b = b - 1;
    }
    slice_to_string(s, a, b)
}

/// The pieces of `s` between occurrences of `sep`.
pub fn split(s: &str, sep: char) -> (r: Vec<String>)
    ensures
        r.deep_view() == split_on(s@, sep),
{
    let cs = chars_of(s);
    let n = cs.len();
    let mut r: Vec<String> = Vec::new();
    let mut start: usize = 0;
    let mut i: usize = 0;
    assert(s@.take(0) =~= Seq::<char>::empty());
    assert(r.deep_view().push(s@.subrange(0, 0)) =~= split_on(s@.take(0), sep));
    while i < n
        invariant
            start <= i <= n,
            n == s@.len(),
            cs@ == s@,
            r.deep_view().push(s@.subrange(start as int, i as int)) == split_on(s@.take(i as int), sep),
        decreases n - i,
    {
        assert(s@.take(i + 1).drop_last() =~= s@.take(i as int));
        if cs[i] == sep {
            let piece = slice_to_string(s, start, i);
            r.push(piece);
            start = i + 1;
            assert(s@.subrange(start as int, i + 1) =~= Seq::<char>::empty());
        } else {
            assert(s@.subrange(start as int, i + 1) =~= s@.subrange(start as int, i as int).push(cs@[i as int]));
        }
        i = i + 1;
        assert(r.deep_view().push(s@.subrange(start as int, i as int)) =~= split_on(s@.take(i as int), sep));
    }
    let piece = slice_to_string(s, start, n);
    r.push(piece);
    assert(s@.take(n as int) =~= s@);
    assert(r.deep_view() =~= split_on(s@, sep));
    r
}

/// The last piece of `s` after `sep`, as `s.split(sep).last()` gives it.
pub fn last_segment(s: &str, sep: char) -> (r: String)
    ensures
        r@ == last_piece(s@, sep),
{
    let cs = chars_of(s);
    let n = cs.len();
    let mut start: usize = 0;
    let mut i: usize = 0;
    while i < n
        invariant
            start <= i <= n,
            n == s@.len(),
            cs@ == s@,
            split_on(s@.take(i as int), sep).len() >= 1,
            split_on(s@.take(i as int), sep).last() == s@.subrange(start as int, i as int),
        decreases n - i,
    {
        assert(s@.take(i + 1).drop_last() =~= s@.take(i as int));
        if cs[i] == sep {
            start = i + 1;
            assert(s@.subrange(start as int, i + 1) =~= Seq::<char>::empty());
        } else {
            assert(s@.subrange(start as int, i + 1) =~= s@.subrange(start as int, i as int).push(cs@[i as int]));
        }
        i = i + 1;
    }
    assert(s@.take(n as int) =~= s@);
    slice_to_string(s, start, n)
}

/// Whether `c` occurs in `s`.
pub fn has_char(s: &str, c: char) -> (r: bool)
    ensures
        r == s@.contains(c),
{
    let cs = chars_of(s);
    let mut i: usize = 0;
    while i < cs.len()
        invariant
            i <= cs.len(),
            cs@ == s@,
            forall|k: int| 0 <= k < i ==> cs@[k] != c,
        decreases cs.len() - i,
    {
        if cs[i] == c {
            return true;
        }
        i = i + 1;
    }
    false
}

/// Whether `p` is a prefix of `s`.
pub fn starts_with(s: &str, p: &str) -> (r: bool)
    ensures
        r == p@.is_prefix_of(s@),
{
    let cs = chars_of(s);
    let ps = chars_of(p);
    if ps.len() > cs.len() {
        return false;
    }
    let mut i: usize = 0;
    while i < ps.len()
        invariant
            i <= ps.len() <= cs.len(),
            cs@ == s@,
            ps@ == p@,
            forall|k: int| 0 <= k < i ==> ps@[k] == cs@[k],
        decreases ps.len() - i,
    {
        if ps[i] != cs[i] {
            return false;
        }
        i = i + 1;
    }
    true
}

/// Whether `a` and `b` hold the same characters.
pub fn same_text(a: &str, b: &str) -> (r: bool)
    ensures
        r == (a@ == b@),
{
    let r = starts_with(a, b) && starts_with(b, a);
    proof {
        if r {
            assert(a@ =~= b@);
        }
    }
    r
}

/// Whether `a` comes strictly before `b` in the lexicographic order.
pub fn less_than(a: &str, b: &str) -> (r: bool)
    ensures
        r == lex_lt(a@, b@),
{
    let xs = chars_of(a);
    let ys = chars_of(b);
    let mut i: usize = 0;
    assert(a@.skip(0) =~= a@);
    assert(b@.skip(0) =~= b@);
    while i < xs.len() && i < ys.len() && xs[i] == ys[i]
        invariant
            i <= xs.len(),
            i <= ys.len(),
            xs@ == a@,
            ys@ == b@,
            lex_lt(a@, b@) == lex_lt(a@.skip(i as int), b@.skip(i as int)),
        decreases xs.len() - i,
    {
        assert(a@.skip(i as int).drop_first() =~= a@.skip(i + 1));
        assert(b@.skip(i as int).drop_first() =~= b@.skip(i + 1));
        i = i + 1;
    }
    if i == ys.len() {
        false
    } else if i == xs.len() {
        true
    } else {
        xs[i] < ys[i]
    }
}

/// Adds `s` to the sorted sequence `v`, unless it is there already.
pub fn insert_sorted(v: &mut Vec<String>, s: String)
    requires
        sorted_strict(old(v).deep_view()),
    ensures
        sorted_strict(final(v).deep_view()),
        forall|x: Seq<char>| #[trigger] final(v).deep_view().contains(x)
            <==> (old(v).deep_view().contains(x) || x == s@),
{
    let ghost old_v = v.deep_view();
    let mut k: usize = 0;
    while k < v.len() && less_than(v[k].as_str(), s.as_str())
        invariant
            k <= v.len(),
            v.deep_view() == old_v,
            forall|i: int| 0 <= i < k ==> lex_lt(#[trigger] old_v[i], s@),
        decreases v.len() - k,
    {
        k = k + 1;
    }
    if k < v.len() && v[k] == s {
        assert(old_v[k as int] == s@);
        return;
    }
    proof {
        if k < old_v.len() {
            lemma_lex_total(old_v[k as int], s@);
            assert forall|m: int| k < m < old_v.len() implies lex_lt(s@, #[trigger] old_v[m]) by {
                lemma_lex_transitive(s@, old_v[k as int], old_v[m]);
            }
        }
    }
    v.insert(k, s);
    let ghost nv = v.deep_view();
    assert(nv =~= old_v.insert(k as int, s@));
    assert forall|i: int, j: int| 0 <= i < j < nv.len() implies lex_lt(#[trigger] nv[i], #[trigger] nv[j]) by {
        if j < k {
        } else if j == k {
        } else if i < k {
            assert(lex_lt(s@, old_v[j - 1]));
            lemma_lex_transitive(nv[i], s@, nv[j]);
        } else if i == k {
            if j - 1 > k {
                lemma_lex_transitive(s@, old_v[k as int], old_v[j - 1]);
            }
        } else {
        }
    }
    assert forall|x: Seq<char>| #[trigger] nv.contains(x) <==> (old_v.contains(x) || x == s@) by {
        if nv.contains(x) {
            let m = choose|m: int| 0 <= m < nv.len() && nv[m] == x;
            if m < k {
                assert(old_v[m] == x);
            } else if m > k {
                assert(old_v[m - 1] == x);
            }
        }
        if old_v.contains(x) {
            let m = choose|m: int| 0 <= m < old_v.len() && old_v[m] == x;
            if m < k {
                assert(nv[m] == x);
            } else {
                assert(nv[m + 1] == x);
            }
        }
        if x == s@ {
            assert(nv[k as int] == x);
        }
    }
}

/// Whether `v` holds a string equal to `s`.
pub fn contains_text(v: &Vec<String>, s: &str) -> (r: bool)
    ensures
        r == v.deep_view().contains(s@),
{
    let mut i: usize = 0;
    while i < v.len()
        invariant
            i <= v.len(),
            forall|k: int| 0 <= k < i ==> (#[trigger] v.deep_view()[k]) != s@,
        decreases v.len() - i,
    {
        if same_text(v[i].as_str(), s) {
            assert(v.deep_view()[i as int] == s@);
            return true;
        }
        i = i + 1;
    }
    false
}

/// The lines of `s`, trimmed, without the blank ones.
pub fn trimmed_lines(s: &str) -> (r: Vec<String>)
    ensures
        r.deep_view() == nonblank_lines(s@),
{
    let pieces = split(s, '\n');
    let ghost ps = pieces.deep_view();
    let mut r: Vec<String> = Vec::new();
    let mut i: usize = 0;
    assert(ps.take(0) =~= Seq::<Seq<char>>::empty());
    while i < pieces.len()
        invariant
            i <= pieces.len(),
            ps == pieces.deep_view(),
            r.deep_view() == nonblank(ps.take(i as int)),
        decreases pieces.len() - i,
    {
        assert(ps.take(i + 1).drop_last() =~= ps.take(i as int));
        let t = trim(pieces[i].as_str());
        if t.unicode_len() > 0 {
            r.push(t);
        }
        i = i + 1;
        assert(r.deep_view() =~= nonblank(ps.take(i as int)));
    }
    assert(ps.take(i as int) =~= ps);
    r
}

/// `parts` with `sep` between each two of them.
pub fn join_with(parts: &Vec<String>, sep: &str) -> (r: String)
    ensures
        r@ == join(parts.deep_view(), sep@),
{
    let ghost ps = parts.deep_view();
    let mut r = String::new();
    let mut i: usize = 0;
    while i < parts.len()
        invariant
            i <= parts.len(),
            ps == parts.deep_view(),
            r@ == join(ps.take(i as int), sep@),
        decreases parts.len() - i,
    {
        assert(ps.take(i + 1).drop_last() =~= ps.take(i as int));
        if i > 0 {
            r.append(sep);
        }
        r.append(parts[i].as_str());
        i = i + 1;
        assert(r@ =~= join(ps.take(i as int), sep@));
    }
    assert(ps.take(i as int) =~= ps);
    r
}

/// `s` without its prefix `p`, where `p` is a prefix of `s`.
pub fn strip_prefix_text(s: &str, p: &str) -> (r: Option<String>)
    ensures
        r matches Some(t) ==> p@.is_prefix_of(s@) && t@ == s@.skip(p@.len() as int),
        r is None ==> !p@.is_prefix_of(s@),
{
    if starts_with(s, p) {
        let n = chars_of(s).len();
        let m = chars_of(p).len();
        let t = slice_to_string(s, m, n);
        assert(s@.subrange(m as int, n as int) =~= s@.skip(p@.len() as int));
        Some(t)
    } else {
        None
    }
}

/// Whether `s` ends with `t`.
pub fn ends_with_text(s: &str, t: &str) -> (r: bool)
    ensures
        r == ends_with(s@, t@),
{
    let cs = chars_of(s);
    let ts = chars_of(t);
    if ts.len() > cs.len() {
        return false;
    }
    let off = cs.len() - ts.len();
    let mut i: usize = 0;
    while i < ts.len()
        invariant
            i <= ts.len(),
            off + ts.len() == cs.len(),
            cs@ == s@,
            ts@ == t@,
            forall|k: int| 0 <= k < i ==> ts@[k] == cs@[off + k],
        decreases ts.len() - i,
    {
        if ts[i] != cs[off + i] {
            assert(s@.skip(off as int)[i as int] != t@[i as int]);
            return false;
        }
        i = i + 1;
    }
    assert(s@.skip(off as int) =~= t@);
    true
}

} // verus!
