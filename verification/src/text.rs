//! Verified text primitives: decimal rendering and parsing, string/char
//! conversions, substring search, trimming and replacement. The persistence
//! codec, the request builders and the response renderer are built on these.

use vstd::prelude::*;
use vstd::string::StrSliceExecFns;
use vstd::string::StringExecFns;

verus! {

/// Relies on String::push: appends exactly the given character at the end.
#[verifier::external_body]
pub fn push_char(s: &mut String, c: char)
    ensures
        final(s)@ == old(s)@.push(c),
{
    s.push(c);
}

/// The characters of `s`, one vector element per `char`.
pub fn str_to_chars(s: &str) -> (r: Vec<char>)
    ensures
        r@ == s@,
{
    let n = s.unicode_len();
    let mut v: Vec<char> = Vec::new();
    let mut i: usize = 0;
    while i < n
        invariant
            i <= n,
            n == s@.len(),
            v@ == s@.take(i as int),
        decreases n - i,
    {
        let c = s.get_char(i);
        v.push(c);
        proof {
            assert(s@.take(i as int).push(s@[i as int]) =~= s@.take(i + 1 as int));
        }
        i = i + 1;
    }
    proof {
        assert(s@.take(n as int) =~= s@);
    }
    v
}

/// A string holding exactly the characters of `v`.
pub fn chars_to_string(v: &Vec<char>) -> (r: String)
    ensures
        r@ == v@,
{
    let mut s = String::new();
    let mut i: usize = 0;
    while i < v.len()
        invariant
            i <= v@.len(),
            s@ == v@.take(i as int),
        decreases v@.len() - i,
    {
        push_char(&mut s, v[i]);
        proof {
            assert(v@.take(i as int).push(v@[i as int]) =~= v@.take(i + 1 as int));
        }
        i = i + 1;
    }
    proof {
        assert(v@.take(v@.len() as int) =~= v@);
    }
    s
}

/// Decimal digit characters.
pub open spec fn is_digit(c: char) -> bool {
    48 <= c as u32 <= 57
}

/// Numeric value of a decimal digit character.
pub open spec fn digit_val(c: char) -> nat {
    (c as u32 - 48) as nat
}

/// The digit character for a value below ten.
pub open spec fn spec_digit_char(d: nat) -> char {
    if d == 0 {
        '0'
    } else if d == 1 {
        '1'
    } else if d == 2 {
        '2'
    } else if d == 3 {
        '3'
    } else if d == 4 {
        '4'
    } else if d == 5 {
        '5'
    } else if d == 6 {
        '6'
    } else if d == 7 {
        '7'
    } else if d == 8 {
        '8'
    } else {
        '9'
    }
}

/// The decimal rendering of `n`, most significant digit first, no sign and
/// no leading zero (a single `'0'` for zero).
pub open spec fn spec_dec(n: nat) -> Seq<char>
    decreases n,
{
    if n < 10 {
        seq![spec_digit_char(n)]
    } else {
        spec_dec(n / 10).push(spec_digit_char(n % 10))
    }
}

fn digit_char(d: u64) -> (c: char)
    requires
        d < 10,
    ensures
        c == spec_digit_char(d as nat),
{
    match d {
        0 => '0',
        1 => '1',
        2 => '2',
        3 => '3',
        4 => '4',
        5 => '5',
        6 => '6',
        7 => '7',
        8 => '8',
        _ => '9',
    }
}

/// The decimal rendering of `n` as a string.
pub fn u64_to_string(n: u64) -> (r: String)
    ensures
        r@ == spec_dec(n as nat),
    decreases n,
{
    if n < 10 {
        let mut s = String::new();
        push_char(&mut s, digit_char(n));
        proof {
            assert(Seq::<char>::empty().push(spec_digit_char(n as nat)) =~= seq![
                spec_digit_char(n as nat),
            ]);
        }
        s
    } else {
        let mut s = u64_to_string(n / 10);
        push_char(&mut s, digit_char(n % 10));
        s
    }
}

/// The decimal rendering of `n`, padded on the left with `'0'` to at least
/// two characters.
pub open spec fn spec_pad2(n: nat) -> Seq<char> {
    if n < 10 {
        seq!['0'] + spec_dec(n)
    } else {
        spec_dec(n)
    }
}

/// Zero-padded two-digit rendering.
pub fn pad2_string(n: u64) -> (r: String)
    ensures
        r@ == spec_pad2(n as nat),
{
    if n < 10 {
        let mut s = String::new();
        push_char(&mut s, '0');
        let rest = u64_to_string(n);
        s.append(rest.as_str());
        proof {
            assert(Seq::<char>::empty().push('0') + spec_dec(n as nat) =~= seq!['0'] + spec_dec(
                n as nat,
            ));
        }
        s
    } else {
        u64_to_string(n)
    }
}

/// Every character of a decimal rendering is a digit, the rendering is
/// non-empty, and it denotes the rendered number.
pub proof fn lemma_dec_digits(n: nat)
    ensures
        spec_dec(n).len() >= 1,
        forall|i: int| 0 <= i < spec_dec(n).len() ==> is_digit(#[trigger] spec_dec(n)[i]),
        digits_val(spec_dec(n)) == n,
    decreases n,
{
    if n < 10 {
        assert(spec_dec(n) == seq![spec_digit_char(n)]);
        assert(digits_val(spec_dec(n)) == digits_val(spec_dec(n).drop_last()) * 10 + digit_val(
            spec_dec(n).last(),
        ));
        assert(spec_dec(n).drop_last() =~= Seq::<char>::empty());
    } else {
        lemma_dec_digits(n / 10);
        let s = spec_dec(n / 10).push(spec_digit_char(n % 10));
        assert(s.drop_last() =~= spec_dec(n / 10));
        assert(digits_val(s) == digits_val(spec_dec(n / 10)) * 10 + digit_val(
            spec_digit_char(n % 10),
        ));
        assert(digit_val(spec_digit_char(n % 10)) == n % 10);
        assert((n / 10) * 10 + n % 10 == n) by (nonlinear_arith);
    }
}

/// The number denoted by a sequence of decimal digit characters, most
/// significant first; the empty sequence denotes zero.
pub open spec fn digits_val(ds: Seq<char>) -> nat
    decreases ds.len(),
{
    if ds.len() == 0 {
        0
    } else {
        digits_val(ds.drop_last()) * 10 + digit_val(ds.last())
    }
}

/// The length of the leading run of digit characters in `s`.
pub open spec fn digit_run(s: Seq<char>) -> nat
    decreases s.len(),
{
    if s.len() > 0 && is_digit(s[0]) {
        1 + digit_run(s.drop_first())
    } else {
        0
    }
}

/// The digit run of a digit sequence followed by a non-digit (or nothing)
/// covers exactly the digit sequence.
pub proof fn lemma_digit_run_concat(a: Seq<char>, rest: Seq<char>)
    requires
        forall|i: int| 0 <= i < a.len() ==> is_digit(#[trigger] a[i]),
        rest.len() > 0 ==> !is_digit(rest[0]),
    ensures
        digit_run(a + rest) == a.len(),
    decreases a.len(),
{
    if a.len() == 0 {
        assert(a + rest =~= rest);
    } else {
        assert((a + rest)[0] == a[0]);
        assert((a + rest).drop_first() =~= a.drop_first() + rest);
        lemma_digit_run_concat(a.drop_first(), rest);
    }
}

/// A digit run never exceeds the sequence it leads.
pub proof fn lemma_digit_run_le_len(s: Seq<char>)
    ensures
        digit_run(s) <= s.len(),
        forall|i: int| 0 <= i < digit_run(s) ==> is_digit(#[trigger] s[i]),
    decreases s.len(),
{
    if s.len() > 0 && is_digit(s[0]) {
        lemma_digit_run_le_len(s.drop_first());
        assert forall|i: int| 0 <= i < digit_run(s) implies is_digit(#[trigger] s[i]) by {
            if i >= 1 {
                assert(is_digit(s.drop_first()[i - 1]));
                assert(s.drop_first()[i - 1] == s[i]);
            }
        }
    }
}

/// Consume `lit` from the front of `s`: the rest of `s` on a match, nothing
/// otherwise.
pub open spec fn spec_parse_lit(s: Seq<char>, lit: Seq<char>) -> Option<Seq<char>> {
    if lit.len() <= s.len() && s.take(lit.len() as int) == lit {
        Some(s.skip(lit.len() as int))
    } else {
        None
    }
}

/// Consuming a literal from text that starts with it leaves exactly the rest.
pub proof fn lemma_parse_lit_concat(lit: Seq<char>, rest: Seq<char>)
    ensures
        spec_parse_lit(lit + rest, lit) == Some(rest),
{
    assert((lit + rest).take(lit.len() as int) =~= lit);
    assert((lit + rest).skip(lit.len() as int) =~= rest);
}

/// Consume the leading decimal number of `s`: its value and the rest of `s`,
/// or nothing when no digit leads `s` or the value exceeds `u32::MAX`.
pub open spec fn spec_parse_uint(s: Seq<char>) -> Option<(u32, Seq<char>)> {
    let k = digit_run(s) as int;
    if k == 0 {
        None
    } else if digits_val(s.take(k)) > u32::MAX {
        None
    } else {
        Some(((digits_val(s.take(k)) as u32), s.skip(k)))
    }
}

/// Consuming a number from a decimal rendering followed by a non-digit gives
/// back the rendered value and exactly the rest.
pub proof fn lemma_parse_uint_concat(n: nat, rest: Seq<char>)
    requires
        n <= u32::MAX,
        rest.len() > 0 ==> !is_digit(rest[0]),
    ensures
        spec_parse_uint(spec_dec(n) + rest) == Some(((n as u32), rest)),
{
    lemma_dec_digits(n);
    lemma_digit_run_concat(spec_dec(n), rest);
    let s = spec_dec(n) + rest;
    let k = digit_run(s) as int;
    assert(s.take(k) =~= spec_dec(n));
    assert(s.skip(k) =~= rest);
}

/// Denoted values do not shrink when digits are appended.
pub proof fn lemma_digits_val_prefix(ds: Seq<char>, m: int)
    requires
        0 <= m <= ds.len(),
    ensures
        digits_val(ds.take(m)) <= digits_val(ds),
    decreases ds.len() - m,
{
    if m == ds.len() {
        assert(ds.take(m) =~= ds);
    } else {
        lemma_digits_val_prefix(ds, m + 1);
        let t = ds.take(m + 1);
        assert(t.drop_last() =~= ds.take(m));
        assert(digits_val(t) == digits_val(ds.take(m)) * 10 + digit_val(t.last()));
        assert(digits_val(ds.take(m)) * 10 >= digits_val(ds.take(m))) by (nonlinear_arith)
            requires
                digits_val(ds.take(m)) >= 0,
        ;
    }
}

/// Decimal digit test, usable from executable code.
pub fn is_digit_char(c: char) -> (r: bool)
    ensures
        r == is_digit(c),
{
    let u = c as u32;
    48 <= u && u <= 57
}

fn digit_value(c: char) -> (r: u64)
    requires
        is_digit(c),
    ensures
        r == digit_val(c),
{
    (c as u32 - 48) as u64
}

/// Match `lit` at position `i` of `v`: the position after it, or nothing.
pub fn p_lit(v: &Vec<char>, i: usize, lit: &str) -> (r: Option<usize>)
    requires
        i <= v@.len(),
    ensures
        match r {
            Some(j) => {
                &&& i <= j <= v@.len()
                &&& j - i == lit@.len()
                &&& spec_parse_lit(v@.skip(i as int), lit@) == Some(v@.skip(j as int))
            },
            None => spec_parse_lit(v@.skip(i as int), lit@) is None,
        },
{
    let m = lit.unicode_len();
    if v.len() - i < m {
        return None;
    }
    let mut k: usize = 0;
    while k < m
        invariant
            v@.len() == v.len(),
            i + m <= v@.len(),
            k <= m,
            m == lit@.len(),
            forall|t: int| 0 <= t < k ==> v@[i + t] == lit@[t],
        decreases m - k,
    {
        if v[i + k] != lit.get_char(k) {
            proof {
                let s = v@.skip(i as int);
                assert(s.take(m as int)[k as int] == v@[i + k]);
            }
            return None;
        }
        k = k + 1;
    }
    proof {
        let s = v@.skip(i as int);
        assert(s.take(m as int) =~= lit@);
        assert(s.skip(m as int) =~= v@.skip((i + m) as int));
    }
    Some(i + m)
}

/// Consume the decimal number leading position `i` of `v`.
pub fn p_uint(v: &Vec<char>, i: usize) -> (r: Option<(u32, usize)>)
    requires
        i <= v@.len(),
    ensures
        match r {
            Some(p) => {
                &&& i < p.1 <= v@.len()
                &&& spec_parse_uint(v@.skip(i as int)) == Some((p.0, v@.skip(p.1 as int)))
            },
            None => spec_parse_uint(v@.skip(i as int)) is None,
        },
{
    let ghost s = v@.skip(i as int);
    let mut j: usize = i;
    while j < v.len() && is_digit_char(v[j])
        invariant
            i <= j <= v@.len(),
            s == v@.skip(i as int),
            digit_run(s) == (j - i) + digit_run(v@.skip(j as int)),
        decreases v@.len() - j,
    {
        proof {
            assert(v@.skip(j as int)[0] == v@[j as int]);
            assert(v@.skip(j as int).drop_first() =~= v@.skip(j + 1 as int));
        }
        j = j + 1;
    }
    proof {
        assert(digit_run(v@.skip(j as int)) == 0);
        assert(digit_run(s) == j - i);
    }
    if j == i {
        return None;
    }
    let mut val: u64 = 0;
    let mut t: usize = i;
    while t < j
        invariant
            i <= t <= j <= v@.len(),
            s == v@.skip(i as int),
            digit_run(s) == j - i,
            val == digits_val(s.take((t - i) as int)),
            val <= u32::MAX as u64,
        decreases j - t,
    {
        proof {
            lemma_digit_run_le_len(s);
            assert(s[(t - i) as int] == v@[t as int]);
        }
        let d = digit_value(v[t]);
        val = val * 10 + d;
        proof {
            let w = (t + 1 - i) as int;
            assert(s.take(w).drop_last() =~= s.take((t - i) as int));
            assert(s.take(w).last() == s[(t - i) as int]);
        }
        if val > u32::MAX as u64 {
            proof {
                let run = digit_run(s) as int;
                let w = (t + 1 - i) as int;
                lemma_digit_run_le_len(s);
                lemma_digits_val_prefix(s.take(run), w);
                assert(s.take(run).take(w) =~= s.take(w));
            }
            return None;
        }
        t = t + 1;
    }
    proof {
        let run = digit_run(s) as int;
        assert(s.take((j - i) as int) =~= s.take(run));
        assert(s.skip(run) =~= v@.skip(j as int));
    }
    Some((val as u32, j))
}

/// Whether `pat` stands in `s` beginning at `i`.
pub open spec fn matches_at(s: Seq<char>, pat: Seq<char>, i: int) -> bool {
    0 <= i && i + pat.len() <= s.len() && s.subrange(i, i + pat.len()) == pat
}

/// Whether `pat` stands anywhere in `s`.
pub open spec fn spec_contains(s: Seq<char>, pat: Seq<char>) -> bool {
    exists|i: int| matches_at(s, pat, i)
}

fn eq_at(v: &Vec<char>, i: usize, pat: &Vec<char>) -> (r: bool)
    requires
        i + pat@.len() <= v@.len(),
    ensures
        r == matches_at(v@, pat@, i as int),
{
    let mut k: usize = 0;
    while k < pat.len()
        invariant
            v@.len() == v.len(),
            pat@.len() == pat.len(),
            i + pat@.len() <= v@.len(),
            k <= pat@.len(),
            forall|t: int| 0 <= t < k ==> v@[i + t] == pat@[t],
        decreases pat@.len() - k,
    {
        if v[i + k] != pat[k] {
            proof {
                assert(v@.subrange(i as int, i + pat@.len())[k as int] == v@[i + k]);
            }
            return false;
        }
        k = k + 1;
    }
    proof {
        assert(v@.subrange(i as int, i + pat@.len()) =~= pat@);
    }
    true
}

/// Substring search.
pub fn contains_chars(v: &Vec<char>, pat: &Vec<char>) -> (r: bool)
    ensures
        r == spec_contains(v@, pat@),
{
    if pat.len() > v.len() {
        proof {
            assert forall|t: int| !matches_at(v@, pat@, t) by {}
        }
        return false;
    }
    if pat.len() == 0 {
        proof {
            assert(v@.subrange(0, 0) =~= pat@);
            assert(matches_at(v@, pat@, 0));
        }
        return true;
    }
    let mut i: usize = 0;
    while i <= v.len() - pat.len()
        invariant
            v@.len() == v.len(),
            1 <= pat@.len() <= v@.len(),
            i <= v@.len() - pat@.len() + 1,
            forall|t: int| 0 <= t < i ==> !matches_at(v@, pat@, t),
        decreases v@.len() - pat@.len() + 1 - i,
    {
        if eq_at(v, i, pat) {
            return true;
        }
        i = i + 1;
    }
    proof {
        assert forall|t: int| !matches_at(v@, pat@, t) by {
            if 0 <= t < i {
            }
        }
    }
    false
}

/// Whether `s` begins with `pat`.
pub open spec fn spec_starts_with(s: Seq<char>, pat: Seq<char>) -> bool {
    matches_at(s, pat, 0)
}

/// Prefix test.
pub fn starts_with_chars(v: &Vec<char>, pat: &Vec<char>) -> (r: bool)
    ensures
        r == spec_starts_with(v@, pat@),
{
    if pat.len() > v.len() {
        return false;
    }
    eq_at(v, 0, pat)
}

/// The whitespace characters that trimming removes.
pub open spec fn is_space(c: char) -> bool {
    c == ' ' || c == '\t' || c == '\n' || c == '\r'
}

/// `s` without its leading whitespace.
pub open spec fn spec_trim_start(s: Seq<char>) -> Seq<char>
    decreases s.len(),
{
    if s.len() > 0 && is_space(s[0]) {
        spec_trim_start(s.drop_first())
    } else {
        s
    }
}

/// `s` without its trailing whitespace.
pub open spec fn spec_trim_end(s: Seq<char>) -> Seq<char>
    decreases s.len(),
{
    if s.len() > 0 && is_space(s.last()) {
        spec_trim_end(s.drop_last())
    } else {
        s
    }
}

/// `s` without leading and trailing whitespace.
pub open spec fn spec_trim(s: Seq<char>) -> Seq<char> {
    spec_trim_end(spec_trim_start(s))
}

/// Whitespace test, usable from executable code.
pub fn is_space_char(c: char) -> (r: bool)
    ensures
        r == is_space(c),
{
    c == ' ' || c == '\t' || c == '\n' || c == '\r'
}

/// Remove leading and trailing whitespace.
pub fn trim_chars(v: &Vec<char>) -> (r: Vec<char>)
    ensures
        r@ == spec_trim(v@),
{
    let mut a: usize = 0;
    proof {
        assert(v@.skip(0) =~= v@);
    }
    while a < v.len() && is_space_char(v[a])
        invariant
            a <= v@.len(),
            spec_trim_start(v@) == spec_trim_start(v@.skip(a as int)),
        decreases v@.len() - a,
    {
        proof {
            assert(v@.skip(a as int)[0] == v@[a as int]);
            assert(v@.skip(a as int).drop_first() =~= v@.skip(a + 1 as int));
        }
        a = a + 1;
    }
    proof {
        assert(spec_trim_start(v@) == v@.skip(a as int));
    }
    let mut b: usize = v.len();
    proof {
        assert(v@.subrange(a as int, v@.len() as int) =~= v@.skip(a as int));
    }
    while b > a && is_space_char(v[b - 1])
        invariant
            a <= b <= v@.len(),
            spec_trim_end(v@.skip(a as int)) == spec_trim_end(v@.subrange(a as int, b as int)),
        decreases b,
    {
        proof {
            let sub = v@.subrange(a as int, b as int);
            assert(sub.last() == v@[b - 1]);
            assert(sub.drop_last() =~= v@.subrange(a as int, b - 1));
        }
        b = b - 1;
    }
    proof {
        assert(spec_trim_end(v@.subrange(a as int, b as int)) == v@.subrange(a as int, b as int));
    }
    let mut out: Vec<char> = Vec::new();
    let mut k: usize = a;
    while k < b
        invariant
            a <= k <= b <= v@.len(),
            out@ == v@.subrange(a as int, k as int),
        decreases b - k,
    {
        out.push(v[k]);
        proof {
            assert(v@.subrange(a as int, k as int).push(v@[k as int]) =~= v@.subrange(
                a as int,
                k + 1 as int,
            ));
        }
        k = k + 1;
    }
    out
}

/// Remove leading and trailing whitespace from a string.
pub fn trim_str(s: &str) -> (r: String)
    ensures
        r@ == spec_trim(s@),
{
    let v = str_to_chars(s);
    let t = trim_chars(&v);
    chars_to_string(&t)
}

/// `s` with every occurrence of `pat` replaced by `rep`, scanning left to
/// right without overlap; `s` itself when `pat` is empty.
pub open spec fn spec_replace_all(s: Seq<char>, pat: Seq<char>, rep: Seq<char>) -> Seq<char>
    decreases s.len(),
{
    if pat.len() == 0 {
        s
    } else if s.len() < pat.len() {
        s
    } else if s.take(pat.len() as int) == pat {
        rep + spec_replace_all(s.skip(pat.len() as int), pat, rep)
    } else {
        seq![s[0]] + spec_replace_all(s.drop_first(), pat, rep)
    }
}

/// Replace every occurrence of `pat` in `s` by `rep`.
pub fn replace_all(s: &Vec<char>, pat: &Vec<char>, rep: &Vec<char>) -> (r: Vec<char>)
    ensures
        r@ == spec_replace_all(s@, pat@, rep@),
{
    let mut out: Vec<char> = Vec::new();
    let mut i: usize = 0;
    if pat.len() == 0 {
        while i < s.len()
            invariant
                i <= s@.len(),
                out@ == s@.take(i as int),
            decreases s@.len() - i,
        {
            out.push(s[i]);
            proof {
                assert(s@.take(i as int).push(s@[i as int]) =~= s@.take(i + 1 as int));
            }
            i = i + 1;
        }
        proof {
            assert(s@.take(s@.len() as int) =~= s@);
        }
        return out;
    }
    proof {
        assert(s@.skip(0) =~= s@);
    }
    while i < s.len()
        invariant
            i <= s@.len(),
            pat@.len() >= 1,
            spec_replace_all(s@, pat@, rep@) == out@ + spec_replace_all(
                s@.skip(i as int),
                pat@,
                rep@,
            ),
        decreases s@.len() - i,
    {
        let ghost suf = s@.skip(i as int);
        if s.len() - i >= pat.len() && eq_at(s, i, pat) {
            proof {
                assert(suf.take(pat@.len() as int) =~= s@.subrange(i as int, i + pat@.len()));
                assert(suf.skip(pat@.len() as int) =~= s@.skip(i + pat@.len()));
            }
            let ghost out0 = out@;
            let mut k: usize = 0;
            while k < rep.len()
                invariant
                    k <= rep@.len(),
                    out@ == out0 + rep@.take(k as int),
                decreases rep@.len() - k,
            {
                out.push(rep[k]);
                proof {
                    assert((out0 + rep@.take(k as int)).push(rep@[k as int]) =~= out0 + rep@.take(
                        k + 1 as int,
                    ));
                }
                k = k + 1;
            }
            proof {
                assert(rep@.take(rep@.len() as int) =~= rep@);
                assert(out0 + (rep@ + spec_replace_all(s@.skip(i + pat@.len()), pat@, rep@)) =~= (
                out0 + rep@) + spec_replace_all(s@.skip(i + pat@.len()), pat@, rep@));
            }
            i = i + pat.len();
        } else {
            proof {
                if suf.len() >= pat@.len() {
                    assert(suf.take(pat@.len() as int) =~= s@.subrange(i as int, i + pat@.len()));
                }
                assert(suf[0] == s@[i as int]);
                assert(suf.drop_first() =~= s@.skip(i + 1 as int));
            }
            out.push(s[i]);
            proof {
                let old_out = out@.drop_last();
                assert(old_out.push(s@[i as int]) =~= out@);
                assert(old_out + (seq![s@[i as int]] + spec_replace_all(
                    s@.skip(i + 1 as int),
                    pat@,
                    rep@,
                )) =~= out@ + spec_replace_all(s@.skip(i + 1 as int), pat@, rep@));
            }
            i = i + 1;
        }
    }
    proof {
        assert(s@.skip(s@.len() as int) =~= Seq::<char>::empty());
        assert(out@ + spec_replace_all(Seq::<char>::empty(), pat@, rep@) =~= out@);
    }
    out
}

} // verus!
