//! Byte-string helpers shared by the scanners: ASCII lowercasing, substring
//! search over byte slices, and decimal/hexadecimal rendering of offsets.

use vstd::prelude::*;
use vstd::string::StringExecFns;
use vstd::arithmetic::div_mod::*;

verus! {

/// ASCII lowercase of one byte.
pub open spec fn lower_byte(b: u8) -> u8 {
    if 65 <= b <= 90 {
        (b + 32) as u8
    } else {
        b
    }
}

/// ASCII lowercase of a byte string.
pub open spec fn lower_bytes(s: Seq<u8>) -> Seq<u8> {
    s.map_values(|b: u8| lower_byte(b))
}

/// ASCII lowercase of a byte slice.
pub fn to_lower_bytes(s: &[u8]) -> (r: Vec<u8>)
    ensures
        r@ == lower_bytes(s@),
{
    let n: usize = s.len();
    let mut r: Vec<u8> = Vec::new();
    let mut i: usize = 0;
    while i < n
        invariant
            i <= n == s@.len(),
            r@ == lower_bytes(s@.take(i as int)),
        decreases n - i,
    {
        let b: u8 = s[i];
        if 65 <= b && b <= 90 {
            r.push(b + 32);
        } else {
            r.push(b);
        }
        proof {
            assert(r@ =~= lower_bytes(s@.take(i + 1)));
        }
        i = i + 1;
    }
    proof {
        assert(s@.take(n as int) =~= s@);
    }
    r
}

/// ASCII uppercase of one byte.
pub open spec fn upper_byte(b: u8) -> u8 {
    if 97 <= b <= 122 {
        (b - 32) as u8
    } else {
        b
    }
}

/// ASCII uppercase of a byte string.
pub open spec fn upper_bytes(s: Seq<u8>) -> Seq<u8> {
    s.map_values(|b: u8| upper_byte(b))
}

/// ASCII uppercase of a byte slice.
pub fn to_upper_bytes(s: &[u8]) -> (r: Vec<u8>)
    ensures
        r@ == upper_bytes(s@),
{
    let n: usize = s.len();
    let mut r: Vec<u8> = Vec::new();
    let mut i: usize = 0;
    while i < n
        invariant
            i <= n == s@.len(),
            r@ == upper_bytes(s@.take(i as int)),
        decreases n - i,
    {
        let b: u8 = s[i];
        if 97 <= b && b <= 122 {
            r.push(b - 32);
        } else {
            r.push(b);
        }
        proof {
            assert(r@ =~= upper_bytes(s@.take(i + 1)));
        }
        i = i + 1;
    }
    proof {
        assert(s@.take(n as int) =~= s@);
    }
    r
}

/// The needle occurs in the haystack starting at position `pos`.
pub open spec fn matches_at(hay: Seq<u8>, pos: int, needle: Seq<u8>) -> bool {
    &&& 0 <= pos
    &&& pos + needle.len() <= hay.len()
    &&& hay.subrange(pos, pos + needle.len()) == needle
}

/// The needle occurs somewhere in the haystack.
pub open spec fn contains_seq(hay: Seq<u8>, needle: Seq<u8>) -> bool {
    exists|p: int| matches_at(hay, p, needle)
}

/// Whether the needle matches the haystack at position `pos`.
pub fn match_at(hay: &[u8], pos: usize, needle: &[u8]) -> (r: bool)
    requires
        pos + needle@.len() <= hay@.len(),
    ensures
        r == matches_at(hay@, pos as int, needle@),
{
    let n: usize = hay.len();
    let m: usize = needle.len();
    let mut j: usize = 0;
    while j < m
        invariant
            j <= m == needle@.len(),
            n == hay@.len(),
            pos + m <= n,
            forall|k: int| 0 <= k < j ==> hay@[pos + k] == needle@[k],
        decreases m - j,
    {
        if hay[pos + j] != needle[j] {
            proof {
                assert(hay@.subrange(pos as int, pos + needle@.len())[j as int] != needle@[
                    j as int]);
            }
            return false;
        }
        j = j + 1;
    }
    proof {
        assert(hay@.subrange(pos as int, pos + needle@.len()) =~= needle@);
    }
    true
}

/// Whether the needle matches at `pos`, false when it would run past the
/// end.
pub fn prefix_at(hay: &[u8], pos: usize, needle: &[u8]) -> (r: bool)
    ensures
        r == matches_at(hay@, pos as int, needle@),
{
    let n: usize = hay.len();
    let m: usize = needle.len();
    if pos > n || m > n - pos {
        return false;
    }
    match_at(hay, pos, needle)
}

/// Whether the needle occurs anywhere in the haystack.
pub fn contains_bytes(hay: &[u8], needle: &[u8]) -> (r: bool)
    ensures
        r == contains_seq(hay@, needle@),
{
    let n: usize = hay.len();
    let m: usize = needle.len();
    if m > n {
        proof {
            assert(forall|p: int| !matches_at(hay@, p, needle@));
        }
        return false;
    }
    if m == 0 {
        proof {
            assert(hay@.subrange(0, 0) =~= needle@);
            assert(matches_at(hay@, 0, needle@));
        }
        return true;
    }
    let mut p: usize = 0;
    while p <= n - m
        invariant
            1 <= m <= n == hay@.len(),
            m == needle@.len(),
            p <= n - m + 1,
            forall|q: int| 0 <= q < p ==> !matches_at(hay@, q, needle@),
        decreases n + 1 - m - p,
    {
        if match_at(hay, p, needle) {
            return true;
        }
        p = p + 1;
    }
    proof {
        assert(forall|q: int| q > n - m ==> !matches_at(hay@, q, needle@));
    }
    false
}

/// The character for one digit value in 0..16, upper case.
pub open spec fn digit_char(d: nat) -> char {
    if d == 0 {
        '0'
    } else if d == 1 {
        '1'
    } else if d == 2 {
        '2'
    } else if d == 3 {
        '3'
    } else if d == 4 {
        '4'
    } else if d == 5 {
        '5'
    } else if d == 6 {
        '6'
    } else if d == 7 {
        '7'
    } else if d == 8 {
        '8'
    } else if d == 9 {
        '9'
    } else if d == 10 {
        'A'
    } else if d == 11 {
        'B'
    } else if d == 12 {
        'C'
    } else if d == 13 {
        'D'
    } else if d == 14 {
        'E'
    } else {
        'F'
    }
}

/// The decimal digits of `n`, most significant first.
pub open spec fn dec_chars(n: nat) -> Seq<char>
    decreases n,
{
    if n < 10 {
        seq![digit_char(n)]
    } else {
        dec_chars(n / 10) + seq![digit_char(n % 10)]
    }
}

/// The upper-case hexadecimal digits of `n`, most significant first.
pub open spec fn hex_chars(n: nat) -> Seq<char>
    decreases n,
{
    if n < 16 {
        seq![digit_char(n)]
    } else {
        hex_chars(n / 16) + seq![digit_char(n % 16)]
    }
}

fn digit_str(d: u8) -> (r: &'static str)
    requires
        d < 16,
    ensures
        r@ =~= seq![digit_char(d as nat)],
{
    proof {
        reveal_strlit("0");
        reveal_strlit("1");
        reveal_strlit("2");
        reveal_strlit("3");
        reveal_strlit("4");
        reveal_strlit("5");
        reveal_strlit("6");
        reveal_strlit("7");
        reveal_strlit("8");
        reveal_strlit("9");
        reveal_strlit("A");
        reveal_strlit("B");
        reveal_strlit("C");
        reveal_strlit("D");
        reveal_strlit("E");
        reveal_strlit("F");
    }
    if d == 0 {
        "0"
    } else if d == 1 {
        "1"
    } else if d == 2 {
        "2"
    } else if d == 3 {
        "3"
    } else if d == 4 {
        "4"
    } else if d == 5 {
        "5"
    } else if d == 6 {
        "6"
    } else if d == 7 {
        "7"
    } else if d == 8 {
        "8"
    } else if d == 9 {
        "9"
    } else if d == 10 {
        "A"
    } else if d == 11 {
        "B"
    } else if d == 12 {
        "C"
    } else if d == 13 {
        "D"
    } else if d == 14 {
        "E"
    } else {
        "F"
    }
}

/// Decimal rendering of a number.
pub fn usize_to_dec_string(n: usize) -> (r: String)
    ensures
        r@ == dec_chars(n as nat),
    decreases n,
{
    if n < 10 {
        let s = digit_str(n as u8);
        s.to_owned()
    } else {
        proof {
            lemma_div_is_strictly_smaller(n as int, 10);
            lemma_mod_division_less_than_divisor(n as int, 10);
        }
        let mut s = usize_to_dec_string(n / 10);
        s.append(digit_str((n % 10) as u8));
        s
    }
}

/// Upper-case hexadecimal rendering of a number, without a radix prefix.
pub fn usize_to_hex_string(n: usize) -> (r: String)
    ensures
        r@ == hex_chars(n as nat),
    decreases n,
{
    if n < 16 {
        let s = digit_str(n as u8);
        s.to_owned()
    } else {
        proof {
            lemma_div_is_strictly_smaller(n as int, 16);
            lemma_mod_division_less_than_divisor(n as int, 16);
        }
        let mut s = usize_to_hex_string(n / 16);
        s.append(digit_str((n % 16) as u8));
        s
    }
}

} // verus!
