//! Reads the version out of the assembler's `-v` banner and compares it
//! against a required minimum.

use vstd::prelude::*;
use crate::text::{
    chars_of, split_chars, split_on, lemma_split_on_nonempty, lemma_split_on_single, lemma_split_on_concat,
    push_str, decimal, digit_char,
};

verus! {

/// A version as (major, minor, micro).
pub type Version = (usize, usize, usize);

/// Whether `c` is an ASCII decimal digit.
pub open spec fn is_digit(c: char) -> bool {
    '0' <= c && c <= '9'
}

/// The numeric value of the digit character `c`.
pub open spec fn digit_value(c: char) -> nat {
    (c as u32 - '0' as u32) as nat
}

/// The value of a run of decimal digits, most significant first.
pub open spec fn digits_value(s: Seq<char>) -> nat
    decreases s.len(),
{
    if s.len() == 0 {
        0
    } else {
        digits_value(s.drop_last()) * 10 + digit_value(s.last())
    }
}

/// The digits of an unsigned number written with an optional leading `+`.
pub open spec fn unsigned_digits(s: Seq<char>) -> Seq<char> {
    if s.len() > 0 && s[0] == '+' {
        s.skip(1)
    } else {
        s
    }
}

/// The `usize` that `s` denotes, as `str::parse::<usize>` reads it: an
/// optional `+`, then one or more decimal digits whose value fits.
pub open spec fn number_of(s: Seq<char>) -> Option<nat> {
    let d = unsigned_digits(s);
    if d.len() > 0 && (forall|i: int| 0 <= i < d.len() ==> is_digit(#[trigger] d[i]))
        && digits_value(d) <= usize::MAX {
        Some(digits_value(d))
    } else {
        None
    }
}

/// Whether the two characters at `i` are `r`, `c`.
pub open spec fn rc_at(s: Seq<char>, i: int) -> bool {
    0 <= i && i + 1 < s.len() && s[i] == 'r' && s[i + 1] == 'c'
}

/// `s` up to the first occurrence of `rc`, or all of `s` if there is none.
pub open spec fn strip_rc(s: Seq<char>) -> Seq<char>
    decreases s.len(),
{
    if s.len() < 2 {
        s
    } else if rc_at(s, 0) {
        Seq::empty()
    } else {
        seq![s[0]] + strip_rc(s.skip(1))
    }
}

/// The version a banner such as `NASM version 2.14.02 compiled on ...`
/// announces: its third space-separated word, cut before any `rc`, split at
/// dots; the leading numeric parts give major, minor and micro, missing ones
/// being zero. `None` when there is no third word or no numeric major.
pub open spec fn version_of(banner: Seq<char>) -> Option<(nat, nat, nat)> {
    let words = split_on(banner, ' ');
    if words.len() < 3 {
        None
    } else {
        let parts = split_on(strip_rc(words[2]), '.');
        match number_of(parts[0]) {
            None => None,
            Some(major) => {
                let minor = if parts.len() > 1 { number_of(parts[1]) } else { None };
                let micro = if minor is Some && parts.len() > 2 { number_of(parts[2]) } else { None };
                Some((major, match minor { Some(m) => m, None => 0 }, match micro { Some(m) => m, None => 0 }))
            },
        }
    }
}

/// The error text for a banner that announces no version.
pub open spec fn invalid_version_message(banner: Seq<char>) -> Seq<char> {
    "Invalid nasm version '"@ + banner + "'"@
}

proof fn lemma_strip_rc_at(s: Seq<char>, i: int)
    requires
        0 <= i <= s.len(),
        forall|j: int| 0 <= j < i ==> !rc_at(s, j),
        i == s.len() || rc_at(s, i),
    ensures
        strip_rc(s) == s.take(i),
    decreases s.len(),
{
    if s.len() < 2 {
        assert(s.take(i) == s);
    } else if rc_at(s, 0) {
        assert(s.take(i) == Seq::<char>::empty());
    } else {
        let t = s.skip(1);
        assert forall|j: int| 0 <= j < i - 1 implies !rc_at(t, j) by {
            assert(!rc_at(s, j + 1));
        }
        if i < s.len() {
            assert(rc_at(s, i));
        }
        lemma_strip_rc_at(t, i - 1);
        assert(s.take(i) == seq![s[0]] + t.take(i - 1));
    }
}

/// Cuts `s` before the first occurrence of `rc`.
fn strip_rc_chars(s: &Vec<char>) -> (r: Vec<char>)
    ensures
        r@ == strip_rc(s@),
{
    let mut i: usize = 0;
    while i < s.len()
        invariant
            i <= s.len(),
            forall|j: int| 0 <= j < i ==> !rc_at(s@, j),
        ensures
            i <= s.len(),
            forall|j: int| 0 <= j < i ==> !rc_at(s@, j),
            i == s.len() || rc_at(s@, i as int),
        decreases s.len() - i,
    {
        if i + 1 < s.len() && s[i] == 'r' && s[i + 1] == 'c' {
            break;
        }
        i = i + 1;
    }
    let mut r: Vec<char> = Vec::new();
    for k in 0..i
        invariant
            i <= s.len(),
            r@ == s@.take(k as int),
    {
        r.push(s[k]);
        assert(s@.take(k + 1) == s@.take(k as int).push(s@[k as int]));
    }
    proof {
        lemma_strip_rc_at(s@, i as int);
    }
    r
}

/// Reads an unsigned number as `str::parse::<usize>` does.
pub fn parse_number(s: &Vec<char>) -> (r: Option<usize>)
    ensures
        match number_of(s@) {
            Some(n) => r == Some(n as usize),
            None => r is None,
        },
{
    let start: usize = if s.len() > 0 && s[0] == '+' { 1 } else { 0 };
    let ghost d = unsigned_digits(s@);
    assert(d == s@.skip(start as int));
    if start >= s.len() {
        return None;
    }
    let mut value: usize = 0;
    let mut too_big = false;
    let mut i: usize = start;
    while i < s.len()
        invariant
            start <= i <= s.len(),
            d == s@.skip(start as int),
            d == unsigned_digits(s@),
            forall|j: int| 0 <= j < i - start ==> is_digit(#[trigger] d[j]),
            too_big ==> digits_value(d.take(i - start)) > usize::MAX,
            !too_big ==> value == digits_value(d.take(i - start)),
        decreases s.len() - i,
    {
        let c = s[i];
        if !('0' <= c && c <= '9') {
            assert(s@[i as int] == d[i - start]);
            assert(!is_digit(d[i - start]));
            return None;
        }
        let ghost k = (i - start) as int;
        assert(d.take(k + 1).drop_last() == d.take(k));
        assert(d.take(k + 1).last() == c);
        let digit = (c as u32 - '0' as u32) as usize;
        if !too_big {
            if value > (usize::MAX - digit) / 10 {
                too_big = true;
            } else {
                value = value * 10 + digit;
            }
        }
        i = i + 1;
    }
    assert(d.take(d.len() as int) == d);
    if too_big {
        None
    } else {
        Some(value)
    }
}

/// Parses the version out of the assembler's `-v` banner.
///
/// `"NASM version 2.14.02 compiled on Jan 22 2019"` gives `(2, 14, 2)`,
/// `"NASM version 2.14rc2"` gives `(2, 14, 0)`.
pub fn parse_nasm_version(version: &str) -> (r: Result<Version, String>)
    ensures
        match version_of(version@) {
            Some(v) => r == Ok::<Version, String>((v.0 as usize, v.1 as usize, v.2 as usize)),
            None => r matches Err(e) && e@ == invalid_version_message(version@),
        },
{
    let chars = chars_of(version);
    let words = split_chars(&chars, ' ');
    if words.len() < 3 {
        return Err(invalid_version(version));
    }
    let word = strip_rc_chars(&words[2]);
    let parts = split_chars(&word, '.');
    proof {
        lemma_split_on_nonempty(word@, '.');
    }
    let major = match parse_number(&parts[0]) {
        Some(n) => n,
        None => return Err(invalid_version(version)),
    };
    let minor = if parts.len() > 1 { parse_number(&parts[1]) } else { None };
    let micro = if minor.is_some() && parts.len() > 2 { parse_number(&parts[2]) } else { None };
    let minor = match minor { Some(m) => m, None => 0 };
    let micro = match micro { Some(m) => m, None => 0 };
    Ok((major, minor, micro))
}

fn invalid_version(version: &str) -> (r: String)
    ensures
        r@ == invalid_version_message(version@),
{
    let mut r = String::new();
    push_str(&mut r, "Invalid nasm version '");
    push_str(&mut r, version);
    push_str(&mut r, "'");
    r
}

/// The version text `a.b.c` in decimal.
pub open spec fn version_text(a: nat, b: nat, c: nat) -> Seq<char> {
    decimal(a) + "."@ + decimal(b) + "."@ + decimal(c)
}

proof fn lemma_digit_char(k: nat)
    requires
        k < 10,
    ensures
        is_digit(digit_char(k)),
        digit_value(digit_char(k)) == k,
{
    let c = digit_char(k);
    assert(c as u32 == 48 + k);
    assert('0' as u32 == 48);
}

proof fn lemma_decimal_is_number(n: nat)
    ensures
        decimal(n).len() > 0,
        forall|i: int| 0 <= i < decimal(n).len() ==> is_digit(#[trigger] decimal(n)[i]),
        digits_value(decimal(n)) == n,
    decreases n,
{
    lemma_digit_char(n % 10);
    assert(digits_value(decimal(n)) == digits_value(decimal(n).drop_last()) * 10 + digit_value(
        decimal(n).last(),
    ));
    if n < 10 {
        assert(decimal(n).drop_last() =~= Seq::<char>::empty());
        assert(digits_value(Seq::<char>::empty()) == 0);
        assert(n % 10 == n);
    }
    if n >= 10 {
        lemma_decimal_is_number(n / 10);
        let d = decimal(n / 10);
        assert(decimal(n).drop_last() == d);
        assert(decimal(n).last() == digit_char(n % 10));
        assert((n / 10) * 10 + n % 10 == n) by (nonlinear_arith);
        assert forall|i: int| 0 <= i < decimal(n).len() implies is_digit(#[trigger] decimal(n)[i]) by {
            if i < d.len() {
                assert(decimal(n)[i] == d[i]);
            }
        }
    }
}

proof fn lemma_decimal_reads_back(n: nat)
    requires
        n <= usize::MAX,
    ensures
        number_of(decimal(n)) == Some(n),
        !decimal(n).contains('.'),
        !decimal(n).contains(' '),
        !decimal(n).contains('r'),
{
    lemma_decimal_is_number(n);
    let d = decimal(n);
    assert(is_digit(d[0]));
    assert(unsigned_digits(d) == d);
    assert forall|c: char| !is_digit(c) implies !d.contains(c) by {
        if d.contains(c) {
            let k = choose|k: int| 0 <= k < d.len() && d[k] == c;
            assert(is_digit(d[k]));
        }
    }
}

proof fn lemma_no_rc_kept(s: Seq<char>)
    requires
        !s.contains('r'),
    ensures
        strip_rc(s) == s,
{
    assert forall|j: int| 0 <= j < s.len() implies !rc_at(s, j) by {
        if rc_at(s, j) {
            assert(s.contains('r'));
        }
    }
    lemma_strip_rc_at(s, s.len() as int);
    assert(s.take(s.len() as int) == s);
}

/// A banner announcing version `a.b.c` in decimal reads back as that
/// version, whether or not more words follow it.
pub proof fn lemma_version_round_trip(a: nat, b: nat, c: nat, rest: Seq<char>)
    requires
        a <= usize::MAX,
        b <= usize::MAX,
        c <= usize::MAX,
    ensures
        version_of("NASM version "@ + version_text(a, b, c)) == Some((a, b, c)),
        version_of("NASM version "@ + version_text(a, b, c) + seq![' '] + rest) == Some((a, b, c)),
{
    reveal_strlit("NASM version ");
    reveal_strlit(".");
    lemma_decimal_reads_back(a);
    lemma_decimal_reads_back(b);
    lemma_decimal_reads_back(c);
    let x = version_text(a, b, c);
    assert(x == decimal(a) + seq!['.'] + (decimal(b) + seq!['.'] + decimal(c)));
    lemma_split_on_concat(decimal(a), decimal(b) + seq!['.'] + decimal(c), '.');
    lemma_split_on_concat(decimal(b), decimal(c), '.');
    lemma_split_on_single(decimal(a), '.');
    lemma_split_on_single(decimal(b), '.');
    lemma_split_on_single(decimal(c), '.');
    let parts = split_on(x, '.');
    assert(parts =~= seq![decimal(a), decimal(b), decimal(c)]);
    assert(!x.contains(' ') && !x.contains('r')) by {
        if x.contains(' ') || x.contains('r') {
            let k = choose|k: int| 0 <= k < x.len() && (x[k] == ' ' || x[k] == 'r');
            if k < decimal(a).len() {
                assert(decimal(a).contains(x[k]));
            } else if k == decimal(a).len() {
            } else if k < decimal(a).len() + 1 + decimal(b).len() {
                assert(decimal(b).contains(x[k]));
            } else if k == decimal(a).len() + 1 + decimal(b).len() {
            } else {
                assert(decimal(c)[k - decimal(a).len() - 2 - decimal(b).len()] == x[k]);
                assert(decimal(c).contains(x[k]));
            }
        }
    }
    lemma_no_rc_kept(x);
    let nasm = seq!['N', 'A', 'S', 'M'];
    let word = seq!['v', 'e', 'r', 's', 'i', 'o', 'n'];
    assert(!nasm.contains(' ')) by {
        if nasm.contains(' ') {
            let k = choose|k: int| 0 <= k < nasm.len() && nasm[k] == ' ';
        }
    }
    assert(!word.contains(' ')) by {
        if word.contains(' ') {
            let k = choose|k: int| 0 <= k < word.len() && word[k] == ' ';
        }
    }
    lemma_split_on_single(nasm, ' ');
    lemma_split_on_single(word, ' ');
    lemma_split_on_single(x, ' ');
    let b1 = "NASM version "@ + x;
    assert(b1 =~= nasm + seq![' '] + (word + seq![' '] + x));
    lemma_split_on_concat(nasm, word + seq![' '] + x, ' ');
    lemma_split_on_concat(word, x, ' ');
    assert(split_on(b1, ' ') =~= seq![nasm, word, x]);
    let b2 = "NASM version "@ + x + seq![' '] + rest;
    assert(b2 =~= nasm + seq![' '] + (word + seq![' '] + (x + seq![' '] + rest)));
    lemma_split_on_concat(word, x + seq![' '] + rest, ' ');
    lemma_split_on_concat(x, rest, ' ');
    lemma_split_on_concat(nasm, word + seq![' '] + (x + seq![' '] + rest), ' ');
    assert(split_on(b2, ' ') =~= seq![nasm, word, x] + split_on(rest, ' '));
    assert(split_on(b2, ' ')[2] == x);
}

} // verus!
