//! Character-level text helpers: token splitting on the router's delimiter
//! set, character-sequence comparison, and the two conversions between
//! `String` and `Vec<char>` that the rest of the library builds on.

use vstd::prelude::*;

verus! {

/// The token delimiters of the routing layer: space, newline and '@'.
pub open spec fn is_delim(c: char) -> bool {
    c == ' ' || c == '\n' || c == '@'
}

/// Length of the leading run of non-delimiter characters.
pub open spec fn token_len(s: Seq<char>) -> nat
    decreases s.len(),
{
    if s.len() == 0 {
        0
    } else if is_delim(s[0]) {
        0
    } else {
        (1 + token_len(s.drop_first())) as nat
    }
}

/// The first delimiter-separated token of `s`, taken verbatim.
pub open spec fn first_token(s: Seq<char>) -> Seq<char> {
    s.take(token_len(s) as int)
}

/// The second delimiter-separated token: the characters after the first
/// delimiter, up to the next delimiter. `None` when `s` has no delimiter.
pub open spec fn second_token(s: Seq<char>) -> Option<Seq<char>> {
    if token_len(s) == s.len() {
        None
    } else {
        Some(first_token(s.skip(token_len(s) as int + 1)))
    }
}

pub proof fn lemma_token_len_le(s: Seq<char>)
    ensures
        token_len(s) <= s.len(),
    decreases s.len(),
{
    if s.len() != 0 && !is_delim(s[0]) {
        lemma_token_len_le(s.drop_first());
    }
}

/// A scan that saw no delimiter before `i` and one (or the end) at `i`
/// has found exactly the first token's length.
pub proof fn lemma_token_len_scan(s: Seq<char>, i: int)
    requires
        0 <= i <= s.len(),
        forall|j: int| 0 <= j < i ==> !is_delim(#[trigger] s[j]),
        i == s.len() || is_delim(s[i]),
    ensures
        token_len(s) == i,
    decreases i,
{
    if i == 0 {
    } else {
        assert(!is_delim(s[0]));
        lemma_token_len_scan(s.drop_first(), i - 1);
    }
}

fn delim(c: char) -> (b: bool)
    ensures
        b == is_delim(c),
{
    c == ' ' || c == '\n' || c == '@'
}

/// Index just past the token that starts at `start`: the next delimiter
/// position, or the end of the text.
pub fn scan_token_end(v: &Vec<char>, start: usize) -> (r: usize)
    requires
        start <= v@.len(),
    ensures
        r == start + token_len(v@.skip(start as int)),
        start <= r <= v@.len(),
{
    let mut i: usize = start;
    while i < v.len() && !delim(v[i])
        invariant
            start <= i <= v@.len(),
            forall|j: int| start <= j < i ==> !is_delim(#[trigger] v@[j]),
        decreases v@.len() - i,
    {
        i = i + 1;
    }
    proof {
        let s = v@.skip(start as int);
        assert(forall|j: int| 0 <= j < i - start ==> !is_delim(#[trigger] s[j]));
        lemma_token_len_scan(s, i - start);
    }
    i
}

/// Copies `v[from..to]` out into a fresh vector.
pub fn subrange_vec(v: &Vec<char>, from: usize, to: usize) -> (r: Vec<char>)
    requires
        from <= to <= v@.len(),
    ensures
        r@ == v@.subrange(from as int, to as int),
{
    let mut r: Vec<char> = Vec::new();
    let mut i: usize = from;
    while i < to
        invariant
            from <= i <= to <= v@.len(),
            r@ == v@.subrange(from as int, i as int),
        decreases to - i,
    {
        r.push(v[i]);
        proof {
            assert(r@ =~= v@.subrange(from as int, i + 1 as int));
        }
        i = i + 1;
    }
    r
}

/// The first delimiter-separated token of `v`, as the spec `first_token`.
pub fn first_token_vec(v: &Vec<char>) -> (r: Vec<char>)
    ensures
        r@ == first_token(v@),
{
    let end = scan_token_end(v, 0);
    proof {
        assert(v@.skip(0) =~= v@);
        lemma_token_len_le(v@);
        assert(v@.subrange(0, token_len(v@) as int) =~= first_token(v@));
    }
    subrange_vec(v, 0, end)
}

/// The second delimiter-separated token of `v`, as the spec `second_token`.
pub fn second_token_vec(v: &Vec<char>) -> (r: Option<Vec<char>>)
    ensures
        r is Some <==> second_token(v@) is Some,
        r matches Some(u) ==> second_token(v@) == Some(u@),
{
    let end = scan_token_end(v, 0);
    proof {
        assert(v@.skip(0) =~= v@);
        lemma_token_len_le(v@);
    }
    if end == v.len() {
        None
    } else {
        let start2 = end + 1;
        let end2 = scan_token_end(v, start2);
        let r = subrange_vec(v, start2, end2);
        proof {
            let rest = v@.skip(start2 as int);
            lemma_token_len_le(rest);
            assert(r@ =~= first_token(rest));
        }
        Some(r)
    }
}

/// Whether two character vectors hold the same characters.
pub fn chars_eq(a: &Vec<char>, b: &Vec<char>) -> (r: bool)
    ensures
        r == (a@ == b@),
{
    if a.len() != b.len() {
        return false;
    }
    let mut i: usize = 0;
    while i < a.len()
        invariant
            a@.len() == b@.len(),
            0 <= i <= a@.len(),
            forall|j: int| 0 <= j < i ==> a@[j] == b@[j],
        decreases a@.len() - i,
    {
        if a[i] != b[i] {
            return false;
        }
        i = i + 1;
    }
    proof {
        assert(a@ =~= b@);
    }
    true
}

/// Lexicographic order on character sequences, by code point.
pub open spec fn chars_le(a: Seq<char>, b: Seq<char>) -> bool
    decreases a.len(),
{
    if a.len() == 0 {
        true
    } else if b.len() == 0 {
        false
    } else if (a[0] as u32) < (b[0] as u32) {
        true
    } else if (b[0] as u32) < (a[0] as u32) {
        false
    } else {
        chars_le(a.drop_first(), b.drop_first())
    }
}

pub proof fn lemma_chars_le_total(a: Seq<char>, b: Seq<char>)
    ensures
        chars_le(a, b) || chars_le(b, a),
    decreases a.len(),
{
    if a.len() != 0 && b.len() != 0 && !((a[0] as u32) < (b[0] as u32)) && !((b[0] as u32) < (
    a[0] as u32)) {
        lemma_chars_le_total(a.drop_first(), b.drop_first());
    }
}

pub proof fn lemma_chars_le_trans(a: Seq<char>, b: Seq<char>, c: Seq<char>)
    requires
        chars_le(a, b),
        chars_le(b, c),
    ensures
        chars_le(a, c),
    decreases a.len(),
{
    if a.len() != 0 {
        if (a[0] as u32) == (b[0] as u32) && (b[0] as u32) == (c[0] as u32) {
            lemma_chars_le_trans(a.drop_first(), b.drop_first(), c.drop_first());
        }
    }
}

/// Dropping a shared (code-point equal) prefix does not change the order.
pub proof fn lemma_chars_le_skip(a: Seq<char>, b: Seq<char>, i: int)
    requires
        0 <= i <= a.len(),
        i <= b.len(),
        forall|j: int| 0 <= j < i ==> (#[trigger] a[j] as u32) == (b[j] as u32),
    ensures
        chars_le(a, b) == chars_le(a.skip(i), b.skip(i)),
    decreases i,
{
    if i == 0 {
        assert(a.skip(0) =~= a);
        assert(b.skip(0) =~= b);
    } else {
        assert((a[0] as u32) == (b[0] as u32));
        lemma_chars_le_skip(a.drop_first(), b.drop_first(), i - 1);
        assert(a.drop_first().skip(i - 1) =~= a.skip(i));
        assert(b.drop_first().skip(i - 1) =~= b.skip(i));
    }
}

/// Whether `a` reads at or before `b` in lexicographic order.
pub fn str_le(a: &String, b: &String) -> (r: bool)
    ensures
        r == chars_le(a@, b@),
{
    let av = str_chars(a.as_str());
    let bv = str_chars(b.as_str());
    let mut i: usize = 0;
    loop
        invariant
            0 <= i <= av@.len(),
            i <= bv@.len(),
            av@ == a@,
            bv@ == b@,
            forall|j: int| 0 <= j < i ==> (#[trigger] av@[j] as u32) == (bv@[j] as u32),
        decreases av@.len() - i,
    {
        proof {
            lemma_chars_le_skip(a@, b@, i as int);
        }
        if i == av.len() {
            proof {
                assert(a@.skip(i as int).len() == 0);
            }
            return true;
        }
        if i == bv.len() {
            proof {
                assert(b@.skip(i as int).len() == 0);
                assert(a@.skip(i as int).len() != 0);
            }
            return false;
        }
        let au = av[i] as u32;
        let bu = bv[i] as u32;
        proof {
            assert(a@.skip(i as int)[0] == av@[i as int]);
            assert(b@.skip(i as int)[0] == bv@[i as int]);
        }
        if au < bu {
            return true;
        }
        if bu < au {
            return false;
        }
        i = i + 1;
    }
}

/// Relies on `str::chars` and `Iterator::collect`: the characters of `s`,
/// in order.
#[verifier::external_body]
pub fn str_chars(s: &str) -> (r: Vec<char>)
    ensures
        r@ == s@,
{
    s.chars().collect()
}

/// Relies on `String::from_iter` (via `Iterator::collect`): the string made
/// of exactly the characters of `v`, in order.
#[verifier::external_body]
pub fn chars_str(v: &Vec<char>) -> (r: String)
    ensures
        r@ == v@,
{
    v.iter().collect()
}

/// Whether the characters of `v` read exactly as the string `s`.
pub fn chars_eq_str(v: &Vec<char>, s: &str) -> (r: bool)
    ensures
        r == (v@ == s@),
{
    let sv = str_chars(s);
    chars_eq(v, &sv)
}

/// Whether two string slices hold the same characters.
pub fn str_eq(a: &str, b: &str) -> (r: bool)
    ensures
        r == (a@ == b@),
{
    let av = str_chars(a);
    chars_eq_str(&av, b)
}

/// Whether `p` occurs in `s` as a contiguous run.
pub open spec fn has_sub(s: Seq<char>, p: Seq<char>) -> bool {
    exists|i: int| 0 <= i <= s.len() - p.len() && #[trigger] s.subrange(i, i + p.len()) == p
}

fn match_at(s: &Vec<char>, p: &Vec<char>, at: usize) -> (r: bool)
    requires
        at + p@.len() <= s@.len(),
    ensures
        r == (s@.subrange(at as int, at + p@.len()) == p@),
{
    let slen = s.len();
    let mut k: usize = 0;
    while k < p.len()
        invariant
            0 <= k <= p@.len(),
            at + p@.len() <= s@.len(),
            s@.len() <= usize::MAX,
            forall|j: int| 0 <= j < k ==> s@[at + j] == p@[j],
        decreases p@.len() - k,
    {
        proof {
            assert(at + k < s@.len());
        }
        if s[at + k] != p[k] {
            proof {
                assert(s@.subrange(at as int, at + p@.len())[k as int] == s@[at + k]);
            }
            return false;
        }
        k = k + 1;
    }
    proof {
        assert(s@.subrange(at as int, at + p@.len()) =~= p@);
    }
    true
}

/// Whether the characters of `s` contain those of `p` as a contiguous run.
pub fn contains_sub(s: &Vec<char>, p: &Vec<char>) -> (r: bool)
    ensures
        r == has_sub(s@, p@),
{
    if p.len() > s.len() {
        return false;
    }
    if p.len() == 0 {
        proof {
            assert(s@.subrange(0, 0 + p@.len() as int) =~= p@);
        }
        return true;
    }
    let bound = s.len() - p.len();
    let mut i: usize = 0;
    while i <= bound
        invariant
            1 <= p@.len() <= s@.len(),
            bound == s@.len() - p@.len(),
            bound < usize::MAX,
            0 <= i <= bound + 1,
            forall|j: int| 0 <= j < i ==> #[trigger] s@.subrange(j, j + p@.len()) != p@,
        decreases bound + 1 - i,
    {
        if match_at(s, p, i) {
            return true;
        }
        i = i + 1;
    }
    false
}

/// Whether `needle` occurs in `hay` as a contiguous run of characters.
pub fn str_contains(hay: &str, needle: &str) -> (r: bool)
    ensures
        r == has_sub(hay@, needle@),
{
    let hv = str_chars(hay);
    let nv = str_chars(needle);
    contains_sub(&hv, &nv)
}

/// The decimal digit characters, by value.
pub open spec fn digit_char(d: nat) -> char {
    if d == 0 {
        '0'
    } else if d == 1 {
        '1'
    } else if d == 2 {
        '2'
    } else if d == 3 {
        '3'
    } else if d == 4 {
        '4'
    } else if d == 5 {
        '5'
    } else if d == 6 {
        '6'
    } else if d == 7 {
        '7'
    } else if d == 8 {
        '8'
    } else {
        '9'
    }
}

/// The decimal rendering of a natural number, no leading zeroes.
pub open spec fn dec_str(n: nat) -> Seq<char>
    decreases n,
{
    if n < 10 {
        seq![digit_char(n)]
    } else {
        dec_str(n / 10).push(digit_char(n % 10))
    }
}

/// The decimal rendering of an integer, with a leading minus when negative.
pub open spec fn int_str(n: int) -> Seq<char> {
    if n < 0 {
        seq!['-'] + dec_str((-n) as nat)
    } else {
        dec_str(n as nat)
    }
}

fn digit(d: u64) -> (c: char)
    requires
        d < 10,
    ensures
        c == digit_char(d as nat),
{
    if d == 0 {
        '0'
    } else if d == 1 {
        '1'
    } else if d == 2 {
        '2'
    } else if d == 3 {
        '3'
    } else if d == 4 {
        '4'
    } else if d == 5 {
        '5'
    } else if d == 6 {
        '6'
    } else if d == 7 {
        '7'
    } else if d == 8 {
        '8'
    } else {
        '9'
    }
}

/// Appends the decimal rendering of `n`.
pub fn push_dec(out: &mut Vec<char>, n: u64)
    ensures
        final(out)@ == old(out)@ + dec_str(n as nat),
    decreases n,
{
    if n < 10 {
        out.push(digit(n));
        proof {
            assert(out@ =~= old(out)@ + dec_str(n as nat));
        }
    } else {
        push_dec(out, n / 10);
        out.push(digit(n % 10));
        proof {
            assert(out@ =~= old(out)@ + dec_str(n as nat));
        }
    }
}

/// Appends the decimal rendering of a signed value, minus sign included.
pub fn push_dec_i64(out: &mut Vec<char>, n: i64)
    ensures
        final(out)@ == old(out)@ + int_str(n as int),
{
    if n >= 0 {
        push_dec(out, n as u64);
    } else {
        out.push('-');
        let m: u64 = ((-(n + 1)) as u64) + 1;
        proof {
            assert(m == -(n as int));
        }
        push_dec(out, m);
        proof {
            assert(out@ =~= old(out)@ + int_str(n as int));
        }
    }
}

/// The decimal digits.
pub open spec fn is_dec_digit(c: char) -> bool {
    ||| c == '0'
    ||| c == '1'
    ||| c == '2'
    ||| c == '3'
    ||| c == '4'
    ||| c == '5'
    ||| c == '6'
    ||| c == '7'
    ||| c == '8'
    ||| c == '9'
}

/// A digit's value; meaningful on decimal digits only.
pub open spec fn digit_val(c: char) -> nat {
    if c == '0' {
        0
    } else if c == '1' {
        1
    } else if c == '2' {
        2
    } else if c == '3' {
        3
    } else if c == '4' {
        4
    } else if c == '5' {
        5
    } else if c == '6' {
        6
    } else if c == '7' {
        7
    } else if c == '8' {
        8
    } else {
        9
    }
}

/// The value of a digit run, most significant first.
pub open spec fn digits_val(s: Seq<char>) -> nat
    decreases s.len(),
{
    if s.len() == 0 {
        0
    } else {
        digits_val(s.drop_last()) * 10 + digit_val(s.last())
    }
}

pub open spec fn all_digits(s: Seq<char>) -> bool {
    forall|i: int| 0 <= i < s.len() ==> is_dec_digit(#[trigger] s[i])
}

/// What a string parses to as an unsigned byte: an optional leading plus,
/// then decimal digits whose value fits; anything else does not parse.
pub open spec fn parse_u8_spec(s: Seq<char>) -> Option<u8> {
    let t = if s.len() > 0 && s[0] == '+' {
        s.drop_first()
    } else {
        s
    };
    if t.len() == 0 || !all_digits(t) {
        None
    } else if digits_val(t) > 255 {
        None
    } else {
        Some(digits_val(t) as u8)
    }
}

fn dec_digit_val(c: char) -> (r: Option<u64>)
    ensures
        r is Some <==> is_dec_digit(c),
        r matches Some(v) ==> v == digit_val(c) && v < 10,
{
    if c == '0' {
        Some(0)
    } else if c == '1' {
        Some(1)
    } else if c == '2' {
        Some(2)
    } else if c == '3' {
        Some(3)
    } else if c == '4' {
        Some(4)
    } else if c == '5' {
        Some(5)
    } else if c == '6' {
        Some(6)
    } else if c == '7' {
        Some(7)
    } else if c == '8' {
        Some(8)
    } else if c == '9' {
        Some(9)
    } else {
        None
    }
}

/// Parses a string as an unsigned byte, with zero standing in for anything
/// that does not parse.
pub fn parse_u8_or_zero(s: &str) -> (r: u8)
    ensures
        r == (match parse_u8_spec(s@) {
            Some(v) => v,
            None => 0u8,
        }),
{
    let sv = str_chars(s);
    let start: usize = if sv.len() > 0 && sv[0] == '+' {
        1
    } else {
        0
    };
    let ghost t = if s@.len() > 0 && s@[0] == '+' {
        s@.drop_first()
    } else {
        s@
    };
    proof {
        assert(t =~= sv@.skip(start as int));
    }
    if sv.len() == start {
        return 0;
    }
    let mut acc: u64 = 0;
    let mut i: usize = start;
    while i < sv.len()
        invariant
            start <= i <= sv@.len(),
            sv@ == s@,
            t == sv@.skip(start as int),
            t == (if s@.len() > 0 && s@[0] == '+' {
                s@.drop_first()
            } else {
                s@
            }),
            start <= 1,
            forall|j: int| start <= j < i ==> is_dec_digit(#[trigger] sv@[j]),
            acc <= 2559,
            digits_val(t.take(i - start)) <= 255 ==> acc == digits_val(t.take(i - start)),
            digits_val(t.take(i - start)) > 255 ==> acc > 255,
        decreases sv@.len() - i,
    {
        match dec_digit_val(sv[i]) {
            Some(d) => {
                proof {
                    let k = i - start;
                    assert(t.take(k + 1).drop_last() =~= t.take(k));
                    assert(t.take(k + 1).last() == t[k]);
                    assert(t[k] == sv@[i as int]);
                }
                if acc > 255 {
                    acc = 256;
                } else {
                    acc = acc * 10 + d;
                }
            },
            None => {
                proof {
                    assert(!is_dec_digit(t[i - start]));
                    assert(!all_digits(t));
                }
                return 0;
            },
        }
        i = i + 1;
    }
    proof {
        assert(t.take(sv@.len() - start) =~= t);
        assert(all_digits(t)) by {
            assert forall|j: int| 0 <= j < t.len() implies is_dec_digit(#[trigger] t[j]) by {
                assert(t[j] == sv@[j + start]);
            }
        }
    }
    if acc > 255 {
        0
    } else {
        acc as u8
    }
}

} // verus!
