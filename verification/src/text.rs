use vstd::prelude::*;

verus! {

/// The characters of `s`, one by one.
pub fn str_to_chars(s: &str) -> (v: Vec<char>)
    ensures
        v@ == s@,
{
    let n = s.unicode_len();
    let mut v: Vec<char> = Vec::new();
    let mut i: usize = 0;
    while i < n
        invariant
            n == s@.len(),
            i <= n,
            v@ == s@.subrange(0, i as int),
        decreases n - i,
    {
        v.push(s.get_char(i));
        i = i + 1;
        proof {
            assert(v@ =~= s@.subrange(0, i as int));
        }
    }
    proof {
        assert(s@.subrange(0, n as int) =~= s@);
    }
    v
}

/// Relies on String's FromIterator over char: collecting yields a string
/// of exactly the given characters, in order.
#[verifier::external_body]
pub fn chars_to_string(v: &Vec<char>) -> (r: String)
    ensures
        r@ == v@,
{
    v.iter().collect()
}

/// The characters `v[lo..hi]`, as a string.
pub fn range_to_string(v: &Vec<char>, lo: usize, hi: usize) -> (r: String)
    requires
        lo <= hi <= v.len(),
    ensures
        r@ == v@.subrange(lo as int, hi as int),
{
    let mut sub: Vec<char> = Vec::new();
    let mut i = lo;
    while i < hi
        invariant
            lo <= i <= hi <= v.len(),
            sub@ == v@.subrange(lo as int, i as int),
        decreases hi - i,
    {
        sub.push(v[i]);
        i = i + 1;
        proof {
            assert(sub@ =~= v@.subrange(lo as int, i as int));
        }
    }
    chars_to_string(&sub)
}

/// Whether `v[lo..hi]` spells exactly `kw`.
pub fn range_eq_str(v: &Vec<char>, lo: usize, hi: usize, kw: &str) -> (r: bool)
    requires
        lo <= hi <= v.len(),
    ensures
        r == (v@.subrange(lo as int, hi as int) == kw@),
{
    let n = kw.unicode_len();
    if hi - lo != n {
        proof {
            assert(v@.subrange(lo as int, hi as int).len() != kw@.len());
        }
        return false;
    }
    let mut i: usize = 0;
    while i < n
        invariant
            n == kw@.len(),
            lo <= hi <= v.len(),
            hi - lo == n,
            i <= n,
            forall|j: int| 0 <= j < i ==> v@.subrange(lo as int, hi as int)[j] == kw@[j],
        decreases n - i,
    {
        if v[lo + i] != kw.get_char(i) {
            return false;
        }
        i = i + 1;
    }
    proof {
        assert(v@.subrange(lo as int, hi as int) =~= kw@);
    }
    true
}

/// Whether two strings hold the same characters.
pub fn str_eq(a: &str, b: &str) -> (r: bool)
    ensures
        r == (a@ == b@),
{
    let va = str_to_chars(a);
    let n = va.len();
    let r = range_eq_str(&va, 0, n, b);
    proof {
        assert(va@.subrange(0, n as int) =~= va@);
    }
    r
}

pub open spec fn spec_digit_char(d: int) -> char {
    if d == 0 {
        '0'
    } else if d == 1 {
        '1'
    } else if d == 2 {
        '2'
    } else if d == 3 {
        '3'
    } else if d == 4 {
        '4'
    } else if d == 5 {
        '5'
    } else if d == 6 {
        '6'
    } else if d == 7 {
        '7'
    } else if d == 8 {
        '8'
    } else {
        '9'
    }
}

/// The decimal digits a number is written with.
pub open spec fn dec_digits(n: int) -> Seq<char>
    decreases n,
{
    if n < 10 {
        seq![spec_digit_char(n)]
    } else {
        dec_digits(n / 10) + seq![spec_digit_char(n % 10)]
    }
}

fn digit_char(d: usize) -> (c: char)
    requires
        d < 10,
    ensures
        c == spec_digit_char(d as int),
{
    match d {
        0 => '0',
        1 => '1',
        2 => '2',
        3 => '3',
        4 => '4',
        5 => '5',
        6 => '6',
        7 => '7',
        8 => '8',
        _ => '9',
    }
}

fn dec_chars(n: usize) -> (v: Vec<char>)
    ensures
        v@ == dec_digits(n as int),
    decreases n,
{
    if n < 10 {
        let mut v: Vec<char> = Vec::new();
        v.push(digit_char(n));
        proof {
            assert(v@ =~= dec_digits(n as int));
        }
        v
    } else {
        let mut v = dec_chars(n / 10);
        v.push(digit_char(n % 10));
        proof {
            assert(v@ =~= dec_digits(n as int / 10) + seq![spec_digit_char(n as int % 10)]);
        }
        v
    }
}

/// A number written in decimal.
pub fn dec_string(n: usize) -> (s: String)
    ensures
        s@ == dec_digits(n as int),
{
    let v = dec_chars(n);
    chars_to_string(&v)
}

pub open spec fn spec_hex_digit_char(d: int) -> char {
    if d < 10 {
        spec_digit_char(d)
    } else if d == 10 {
        'a'
    } else if d == 11 {
        'b'
    } else if d == 12 {
        'c'
    } else if d == 13 {
        'd'
    } else if d == 14 {
        'e'
    } else {
        'f'
    }
}

/// The lower-case hex digits a number is written with.
pub open spec fn hex_digits(n: int) -> Seq<char>
    decreases n,
{
    if n < 16 {
        seq![spec_hex_digit_char(n)]
    } else {
        hex_digits(n / 16) + seq![spec_hex_digit_char(n % 16)]
    }
}

fn hex_digit_char(d: usize) -> (c: char)
    requires
        d < 16,
    ensures
        c == spec_hex_digit_char(d as int),
{
    if d < 10 {
        digit_char(d)
    } else {
        match d {
            10 => 'a',
            11 => 'b',
            12 => 'c',
            13 => 'd',
            14 => 'e',
            _ => 'f',
        }
    }
}

fn hex_chars(n: usize) -> (v: Vec<char>)
    ensures
        v@ == hex_digits(n as int),
    decreases n,
{
    if n < 16 {
        let mut v: Vec<char> = Vec::new();
        v.push(hex_digit_char(n));
        proof {
            assert(v@ =~= hex_digits(n as int));
        }
        v
    } else {
        let mut v = hex_chars(n / 16);
        v.push(hex_digit_char(n % 16));
        proof {
            assert(v@ =~= hex_digits(n as int / 16) + seq![spec_hex_digit_char(n as int % 16)]);
        }
        v
    }
}

/// A number written in lower-case hex.
pub fn hex_string(n: usize) -> (s: String)
    ensures
        s@ == hex_digits(n as int),
{
    let v = hex_chars(n);
    chars_to_string(&v)
}

/// `n` copies of one character.
pub open spec fn repeat_char(c: char, n: int) -> Seq<char> {
    Seq::new(if n >= 0 {
        n as nat
    } else {
        0
    }, |k: int| c)
}

pub(crate) fn repeat_string(c: char, n: usize) -> (s: String)
    ensures
        s@ == repeat_char(c, n as int),
{
    let mut v: Vec<char> = Vec::new();
    let mut i: usize = 0;
    while i < n
        invariant
            i <= n,
            v@ == repeat_char(c, i as int),
        decreases n - i,
    {
        v.push(c);
        i = i + 1;
        proof {
            assert(v@ =~= repeat_char(c, i as int));
        }
    }
    chars_to_string(&v)
}

} // verus!
