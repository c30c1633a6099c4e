//! Text helpers: hexadecimal and decimal rendering, substring search and
//! hexadecimal parsing, each stated over the characters involved.
use vstd::prelude::*;
use vstd::string::*;

verus! {

/// The lower-case hexadecimal digit for `d` (below 16).
pub open spec fn hex_digit(d: nat) -> char {
    if d == 0 { '0' } else if d == 1 { '1' } else if d == 2 { '2' } else if d == 3 { '3' }
    else if d == 4 { '4' } else if d == 5 { '5' } else if d == 6 { '6' } else if d == 7 { '7' }
    else if d == 8 { '8' } else if d == 9 { '9' } else if d == 10 { 'a' } else if d == 11 { 'b' }
    else if d == 12 { 'c' } else if d == 13 { 'd' } else if d == 14 { 'e' } else { 'f' }
}

/// The value of a hexadecimal digit character, if it is one.
pub open spec fn hex_value(c: char) -> Option<nat> {
    if '0' <= c && c <= '9' {
        Some((c as nat - '0' as nat) as nat)
    } else if 'a' <= c && c <= 'f' {
        Some((c as nat - 'a' as nat + 10) as nat)
    } else if 'A' <= c && c <= 'F' {
        Some((c as nat - 'A' as nat + 10) as nat)
    } else {
        None
    }
}

/// `v` in hexadecimal, without leading zeros ("0" for zero).
pub open spec fn hex_seq(v: nat) -> Seq<char>
    decreases v,
{
    if v < 16 {
        seq![hex_digit(v)]
    } else {
        hex_seq(v / 16).push(hex_digit(v % 16))
    }
}

/// `v` in decimal, without leading zeros ("0" for zero).
pub open spec fn dec_seq(v: nat) -> Seq<char>
    decreases v,
{
    if v < 10 {
        seq![hex_digit(v)]
    } else {
        dec_seq(v / 10).push(hex_digit(v % 10))
    }
}

/// The lowest `n` hexadecimal digits of `v`, zero-padded.
pub open spec fn hex_fixed(v: nat, n: nat) -> Seq<char>
    decreases n,
{
    if n == 0 {
        Seq::empty()
    } else {
        hex_fixed(v / 16, (n - 1) as nat).push(hex_digit(v % 16))
    }
}

/// `v` as `0x` followed by sixteen hexadecimal digits.
pub open spec fn hex_padded(v: nat) -> Seq<char> {
    seq!['0', 'x'] + hex_fixed(v, 16)
}

/// `v` as `0x` followed by its hexadecimal digits.
pub open spec fn hex_prefixed(v: nat) -> Seq<char> {
    seq!['0', 'x'] + hex_seq(v)
}

/// Whether `needle` occurs in `hay` at position `i`.
pub open spec fn occurs_at(hay: Seq<char>, needle: Seq<char>, i: int) -> bool {
    0 <= i && i + needle.len() <= hay.len() && hay.subrange(i, i + needle.len()) == needle
}

/// Whether `needle` occurs anywhere in `hay`.
pub open spec fn contains_seq(hay: Seq<char>, needle: Seq<char>) -> bool {
    exists|i: int| occurs_at(hay, needle, i)
}

/// Relies on `String::push`: appends one character at the end.
#[verifier::external_body]
pub(crate) fn push_char(s: &mut String, c: char)
    ensures
        final(s)@ == old(s)@.push(c),
{
    s.push(c)
}

/// Appends the characters of `t`.
pub fn push_str(s: &mut String, t: &str)
    ensures
        final(s)@ == old(s)@ + t@,
{
    s.append(t);
}

/// Appends every character of `t`, in order.
pub fn push_chars(s: &mut String, t: &Vec<char>)
    ensures
        final(s)@ == old(s)@ + t@,
{
    let ghost start = s@;
    let mut i: usize = 0;
    while i < t.len()
        invariant
            i <= t@.len(),
            s@ == start + t@.subrange(0, i as int),
        decreases t@.len() - i,
    {
        push_char(s, t[i]);
        assert(t@.subrange(0, i + 1) =~= t@.subrange(0, i as int).push(t@[i as int]));
        i = i + 1;
    }
    assert(t@.subrange(0, t@.len() as int) =~= t@);
}

/// The digit character for `d`.
pub fn digit_char(d: u64) -> (c: char)
    requires
        d < 16,
    ensures
        c == hex_digit(d as nat),
{
    match d {
        0 => '0',
        1 => '1',
        2 => '2',
        3 => '3',
        4 => '4',
        5 => '5',
        6 => '6',
        7 => '7',
        8 => '8',
        9 => '9',
        10 => 'a',
        11 => 'b',
        12 => 'c',
        13 => 'd',
        14 => 'e',
        _ => 'f',
    }
}

/// The digits of `v` in the given base (10 or 16), most significant first.
fn digits(v: u64, base: u64) -> (r: Vec<char>)
    requires
        base == 10 || base == 16,
    ensures
        base == 16 ==> r@ == hex_seq(v as nat),
        base == 10 ==> r@ == dec_seq(v as nat),
{
    let mut rev: Vec<char> = Vec::new();
    let mut n: u64 = v;
    while n >= base
        invariant
            base == 10 || base == 16,
            base == 16 ==> hex_seq(v as nat) == hex_seq(n as nat) + rev@.reverse(),
            base == 10 ==> dec_seq(v as nat) == dec_seq(n as nat) + rev@.reverse(),
        decreases n,
    {
        let d = digit_char(n % base);
        proof {
            let old_rev = rev@;
            assert(old_rev.push(d).reverse() =~= seq![d] + old_rev.reverse());
        }
        rev.push(d);
        n = n / base;
    }
    let mut r: Vec<char> = Vec::new();
    r.push(digit_char(n));
    let mut i: usize = rev.len();
    while i > 0
        invariant
            i <= rev@.len(),
            r@.len() >= 1,
            r@ == seq![hex_digit(n as nat)] + rev@.subrange(i as int, rev@.len() as int).reverse(),
        decreases i,
    {
        i = i - 1;
        let c = rev[i];
        proof {
            let a = rev@.subrange(i as int, rev@.len() as int);
            let b = rev@.subrange(i + 1, rev@.len() as int);
            assert(a =~= seq![c] + b);
            assert(a.reverse() =~= b.reverse().push(c));
        }
        r.push(c);
    }
    assert(rev@.subrange(0, rev@.len() as int) =~= rev@);
    assert(seq![hex_digit(n as nat)] =~= hex_seq(n as nat)) by {
        if base == 10 {
            assert(dec_seq(n as nat) == seq![hex_digit(n as nat)]);
        }
    };
    r
}

/// `v` in lower-case hexadecimal, without leading zeros.
pub fn hex_string(v: u64) -> (r: String)
    ensures
        r@ == hex_seq(v as nat),
{
    let d = digits(v, 16);
    let mut r = String::new();
    push_chars(&mut r, &d);
    r
}

/// `v` in decimal.
pub fn dec_string(v: u64) -> (r: String)
    ensures
        r@ == dec_seq(v as nat),
{
    let d = digits(v, 10);
    let mut r = String::new();
    push_chars(&mut r, &d);
    r
}

/// `v` as `0x` and its hexadecimal digits.
pub fn hex_prefixed_string(v: u64) -> (r: String)
    ensures
        r@ == hex_prefixed(v as nat),
{
    let d = digits(v, 16);
    let mut r = String::new();
    push_char(&mut r, '0');
    push_char(&mut r, 'x');
    push_chars(&mut r, &d);
    r
}

/// `v` as `0x` and sixteen zero-padded hexadecimal digits.
pub fn hex_padded_string(v: u64) -> (r: String)
    ensures
        r@ == hex_padded(v as nat),
{
    let mut fixed: Vec<char> = Vec::new();
    let mut i: u64 = 0;
    let mut n: u64 = v;
    while i < 16
        invariant
            i <= 16,
            hex_fixed(v as nat, 16) == hex_fixed(n as nat, (16 - i) as nat) + fixed@.reverse(),
        decreases 16 - i,
    {
        let d = digit_char(n % 16);
        proof {
            let old_fixed = fixed@;
            assert(old_fixed.push(d).reverse() =~= seq![d] + old_fixed.reverse());
            assert(hex_fixed(n as nat, (16 - i) as nat) == hex_fixed((n / 16) as nat, (16 - i - 1) as nat).push(d));
        }
        fixed.push(d);
        n = n / 16;
        i = i + 1;
    }
    assert(hex_fixed(n as nat, 0) =~= Seq::<char>::empty());
    let mut r = String::new();
    push_char(&mut r, '0');
    push_char(&mut r, 'x');
    let mut k: usize = fixed.len();
    while k > 0
        invariant
            k <= fixed@.len(),
            r@ == seq!['0', 'x'] + fixed@.subrange(k as int, fixed@.len() as int).reverse(),
        decreases k,
    {
        k = k - 1;
        let c = fixed[k];
        proof {
            let a = fixed@.subrange(k as int, fixed@.len() as int);
            let b = fixed@.subrange(k + 1, fixed@.len() as int);
            assert(a =~= seq![c] + b);
            assert(a.reverse() =~= b.reverse().push(c));
        }
        push_char(&mut r, c);
    }
    assert(fixed@.subrange(0, fixed@.len() as int) =~= fixed@);
    r
}

/// Whether `needle` occurs in `hay`.
pub fn contains(hay: &str, needle: &str) -> (r: bool)
    ensures
        r == contains_seq(hay@, needle@),
{
    let h = hay.unicode_len();
    let n = needle.unicode_len();
    if n > h {
        assert forall|i: int| !occurs_at(hay@, needle@, i) by {}
        return false;
    }
    let mut i: usize = 0;
    while i <= h - n
        invariant
            h == hay@.len(),
            n == needle@.len(),
            n <= h,
            i <= h - n + 1,
            forall|k: int| 0 <= k < i ==> !occurs_at(hay@, needle@, k),
        decreases h - n + 1 - i,
    {
        let mut j: usize = 0;
        let mut same = true;
        while j < n
            invariant
                h == hay@.len(),
                n == needle@.len(),
                i + n <= h,
                j <= n,
                same == (forall|m: int| 0 <= m < j ==> hay@[i + m] == needle@[m]),
            decreases n - j,
        {
            if hay.get_char(i + j) != needle.get_char(j) {
                same = false;
            }
            j = j + 1;
        }
        if same {
            assert(hay@.subrange(i as int, i + n) =~= needle@);
            assert(occurs_at(hay@, needle@, i as int));
            return true;
        }
        assert(!occurs_at(hay@, needle@, i as int)) by {
            if occurs_at(hay@, needle@, i as int) {
                assert forall|m: int| 0 <= m < n implies hay@[i + m] == needle@[m] by {
                    assert(hay@.subrange(i as int, i + n)[m] == hay@[i + m]);
                }
            }
        }
        i = i + 1;
    }
    false
}

/// `s` with every `0x` removed, scanning left to right.
pub open spec fn remove_0x(s: Seq<char>) -> Seq<char>
    decreases s.len(),
{
    if s.len() == 0 {
        s
    } else if s.len() >= 2 && s[0] == '0' && s[1] == 'x' {
        remove_0x(s.subrange(2, s.len() as int))
    } else {
        seq![s[0]] + remove_0x(s.subrange(1, s.len() as int))
    }
}

/// A hexadecimal number as command lines write it: every `0x` is dropped
/// and the rest must be hexadecimal digits (an optional leading `+`) whose
/// value fits in `usize`.
pub open spec fn spec_parse_hex(s: Seq<char>) -> Option<usize> {
    crate::monitor_predicate::spec_hex_after_prefix(seq!['0', 'x'] + remove_0x(s))
}

/// Parses a hexadecimal number, with or without `0x`.
pub fn parse_hex(src: &str) -> (r: Option<usize>)
    ensures
        r == spec_parse_hex(src@),
{
    let n = src.unicode_len();
    let mut out = String::new();
    push_char(&mut out, '0');
    push_char(&mut out, 'x');
    let mut i: usize = 0;
    assert(out@ =~= seq!['0', 'x']);
    assert(src@.subrange(0, n as int) =~= src@);
    while i < n
        invariant
            n == src@.len(),
            i <= n,
            seq!['0', 'x'] + remove_0x(src@) == out@ + remove_0x(src@.subrange(i as int, n as int)),
        decreases n - i,
    {
        let ghost rest = src@.subrange(i as int, n as int);
        if i + 1 < n && src.get_char(i) == '0' && src.get_char(i + 1) == 'x' {
            assert(rest.subrange(2, rest.len() as int) =~= src@.subrange(i + 2, n as int));
            i = i + 2;
        } else {
            let c = src.get_char(i);
            assert(rest.subrange(1, rest.len() as int) =~= src@.subrange(i + 1, n as int));
            assert(rest[0] == c);
            let ghost before = out@;
            push_char(&mut out, c);
            proof {
                let tail = remove_0x(src@.subrange(i + 1, n as int));
                assert(before + (seq![c] + tail) =~= before.push(c) + tail);
            }
            i = i + 1;
        }
    }
    assert(src@.subrange(n as int, n as int) =~= Seq::<char>::empty());
    assert(out@ + remove_0x(Seq::<char>::empty()) =~= out@);
    crate::monitor_predicate::hex_after_prefix(out.as_str())
}

} // verus!
