//! Small string utilities over the character view of `str` and `String`.

use vstd::prelude::*;

verus! {

/// Relies on `String::push`: the character is appended at the end.
#[verifier::external_body]
pub(crate) fn push_char(s: &mut String, c: char)
    ensures
        final(s)@ == old(s)@.push(c),
{
    s.push(c)
}

/// The characters of `s`, in order.
pub fn chars_of(s: &str) -> (r: Vec<char>)
    ensures
        r@ == s@,
{
    let mut r: Vec<char> = Vec::new();
    for c in it: s.chars()
        invariant
            r@ == it.seq().take(it.index() as int),
            it.seq() == s@,
    {
        r.push(c);
    }
    r
}


/// A `String` holding exactly the characters of `v`.
pub(crate) fn string_of(v: &Vec<char>) -> (r: String)
    ensures
        r@ == v@,
{
    let mut r = String::new();
    for i in 0..v.len()
        invariant
            r@ == v@.take(i as int),
    {
        push_char(&mut r, v[i]);
        assert(v@.take(i + 1) == v@.take(i as int).push(v@[i as int]));
    }
    assert(v@.take(v.len() as int) == v@);
    r
}

/// Whether the characters in `v` spell exactly `w`.
pub(crate) fn spells(v: &Vec<char>, w: &str) -> (r: bool)
    ensures
        r == (v@ == w@),
{
    let wc = chars_of(w);
    if v.len() != wc.len() {
        return false;
    }
    for i in 0..v.len()
        invariant
            v.len() == wc.len(),
            wc@ == w@,
            forall|j: int| 0 <= j < i ==> v@[j] == wc@[j],
    {
        if v[i] != wc[i] {
            return false;
        }
    }
    assert(v@ == wc@);
    true
}

/// The pieces of `s` between occurrences of `sep`, as `str::split` yields
/// them: `n` separators give `n + 1` pieces, empty ones included.
pub open spec fn split_on(s: Seq<char>, sep: char) -> Seq<Seq<char>>
    decreases s.len(),
{
    if s.len() == 0 {
        seq![Seq::empty()]
    } else {
        let r = split_on(s.drop_last(), sep);
        if s.last() == sep {
            r.push(Seq::empty())
        } else {
            r.update(r.len() - 1, r.last().push(s.last()))
        }
    }
}

/// There is always at least one piece.
pub proof fn lemma_split_on_nonempty(s: Seq<char>, sep: char)
    ensures
        split_on(s, sep).len() >= 1,
    decreases s.len(),
{
    if s.len() > 0 {
        lemma_split_on_nonempty(s.drop_last(), sep);
    }
}

/// The character views of a sequence of character vectors.
pub open spec fn views(v: Seq<Vec<char>>) -> Seq<Seq<char>> {
    v.map_values(|x: Vec<char>| x@)
}

/// Splits `s` at every `sep`.
pub(crate) fn split_chars(s: &Vec<char>, sep: char) -> (parts: Vec<Vec<char>>)
    ensures
        views(parts@) == split_on(s@, sep),
{
    let mut parts: Vec<Vec<char>> = Vec::new();
    let mut cur: Vec<char> = Vec::new();
    assert(s@.take(0) == Seq::<char>::empty());
    for i in 0..s.len()
        invariant
            views(parts@).push(cur@) == split_on(s@.take(i as int), sep),
    {
        let c = s[i];
        let ghost before = s@.take(i as int);
        assert(s@.take(i + 1).drop_last() == before);
        proof {
            lemma_split_on_nonempty(before, sep);
        }
        if c == sep {
            let ghost old_parts = views(parts@);
            let ghost old_cur = cur@;
            parts.push(cur);
            assert(views(parts@) =~= old_parts.push(old_cur));
            cur = Vec::new();
            assert(views(parts@).push(cur@) == split_on(before, sep).push(Seq::empty()));
        } else {
            let ghost old_parts = views(parts@);
            cur.push(c);
            assert(views(parts@) == old_parts);
            assert(views(parts@).push(cur@) =~= split_on(before, sep).update(
                split_on(before, sep).len() - 1,
                split_on(before, sep).last().push(c),
            ));
            assert(views(parts@).push(cur@) == split_on(before, sep).update(
                split_on(before, sep).len() - 1,
                split_on(before, sep).last().push(c),
            ));
        }
    }
    assert(s@.take(s.len() as int) == s@);
    let ghost old_parts = views(parts@);
    let ghost old_cur = cur@;
    parts.push(cur);
    assert(views(parts@) =~= old_parts.push(old_cur));
    parts
}


/// The character of the decimal digit `d`.
pub open spec fn digit_char(d: nat) -> char
    recommends
        d < 10,
{
    ((48 + d) as u8) as char
}

/// The decimal rendering of `n`, without leading zeros.
pub open spec fn decimal(n: nat) -> Seq<char>
    decreases n,
{
    if n < 10 {
        seq![digit_char(n)]
    } else {
        decimal(n / 10).push(digit_char(n % 10))
    }
}

/// Appends the decimal rendering of `n` to `s`.
pub(crate) fn push_decimal(s: &mut String, n: usize)
    ensures
        final(s)@ == old(s)@ + decimal(n as nat),
    decreases n,
{
    if n >= 10 {
        push_decimal(s, n / 10);
    }
    let d = (n % 10) as u8;
    push_char(s, (48 + d) as char);
}

/// Appends the characters of `w` to `s`.
pub(crate) fn push_str(s: &mut String, w: &str)
    ensures
        final(s)@ == old(s)@ + w@,
{
    s.append(w);
}


/// Whether `s` begins with `p`.
pub open spec fn has_prefix(s: Seq<char>, p: Seq<char>) -> bool {
    p.len() <= s.len() && s.take(p.len() as int) == p
}

/// Whether `s` ends with `p`.
pub open spec fn has_suffix(s: Seq<char>, p: Seq<char>) -> bool {
    p.len() <= s.len() && s.skip(s.len() - p.len()) == p
}

/// Whether the characters in `v` begin with `w`.
pub(crate) fn begins_with(v: &Vec<char>, w: &str) -> (r: bool)
    ensures
        r == has_prefix(v@, w@),
{
    let wc = chars_of(w);
    if wc.len() > v.len() {
        return false;
    }
    for i in 0..wc.len()
        invariant
            wc.len() <= v.len(),
            wc@ == w@,
            forall|j: int| 0 <= j < i ==> v@[j] == wc@[j],
    {
        if v[i] != wc[i] {
            assert(v@.take(wc.len() as int)[i as int] != wc@[i as int]);
            return false;
        }
    }
    assert(v@.take(wc.len() as int) =~= wc@);
    true
}

/// Whether the characters in `v` end with `w`.
pub(crate) fn finishes_with(v: &Vec<char>, w: &str) -> (r: bool)
    ensures
        r == has_suffix(v@, w@),
{
    let wc = chars_of(w);
    if wc.len() > v.len() {
        return false;
    }
    let off = v.len() - wc.len();
    for i in 0..wc.len()
        invariant
            wc.len() <= v.len(),
            off == v.len() - wc.len(),
            wc@ == w@,
            forall|j: int| 0 <= j < i ==> v@[off + j] == wc@[j],
    {
        if v[off + i] != wc[i] {
            assert(v@.skip(off as int)[i as int] != wc@[i as int]);
            return false;
        }
    }
    assert(v@.skip(off as int) =~= wc@);
    true
}

/// The characters of `v` from `start` up to `end`.
pub(crate) fn slice_string(v: &Vec<char>, start: usize, end: usize) -> (r: String)
    requires
        start <= end <= v.len(),
    ensures
        r@ == v@.subrange(start as int, end as int),
{
    let mut r = String::new();
    for k in start..end
        invariant
            start <= end <= v.len(),
            r@ == v@.subrange(start as int, k as int),
    {
        push_char(&mut r, v[k]);
        assert(v@.subrange(start as int, k + 1) == v@.subrange(start as int, k as int).push(v@[k as int]));
    }
    r
}


/// Text without the separator is a single piece.
pub proof fn lemma_split_on_single(s: Seq<char>, sep: char)
    requires
        !s.contains(sep),
    ensures
        split_on(s, sep) == seq![s],
    decreases s.len(),
{
    if s.len() > 0 {
        let p = s.drop_last();
        assert(!p.contains(sep)) by {
            if p.contains(sep) {
                let k = choose|k: int| 0 <= k < p.len() && p[k] == sep;
                assert(s[k] == sep);
            }
        }
        lemma_split_on_single(p, sep);
        assert(s.last() != sep) by {
            assert(s[s.len() - 1] == s.last());
        }
        assert(p.push(s.last()) == s);
    } else {
        assert(s == Seq::<char>::empty());
    }
}

/// Splitting at a separator joining two texts splits each of them.
pub proof fn lemma_split_on_concat(s: Seq<char>, t: Seq<char>, sep: char)
    ensures
        split_on(s + seq![sep] + t, sep) == split_on(s, sep) + split_on(t, sep),
    decreases t.len(),
{
    let u = s + seq![sep] + t;
    lemma_split_on_nonempty(s, sep);
    if t.len() == 0 {
        assert(u.drop_last() == s);
        assert(split_on(t, sep) == seq![Seq::<char>::empty()]);
        assert(split_on(u, sep) =~= split_on(s, sep) + split_on(t, sep));
    } else {
        let t1 = t.drop_last();
        assert(u.drop_last() == s + seq![sep] + t1);
        assert(u.last() == t.last());
        lemma_split_on_concat(s, t1, sep);
        lemma_split_on_nonempty(t1, sep);
        let a = split_on(s, sep);
        let b = split_on(t1, sep);
        if t.last() == sep {
            assert(split_on(u, sep) =~= a + b.push(Seq::empty()));
        } else {
            assert((a + b).update((a + b).len() - 1, (a + b).last().push(t.last())) =~= a + b.update(
                b.len() - 1,
                b.last().push(t.last()),
            ));
        }
    }
}

} // verus!
