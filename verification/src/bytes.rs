//! Byte-sequence helpers shared by the bytecode matcher and the wire
//! encoding: equality and prefix tests, range overwrites, and hex text.

use vstd::prelude::*;

verus! {

/// True when `a` is a byte-for-byte prefix of `b`.
pub open spec fn spec_is_prefix(a: Seq<u8>, b: Seq<u8>) -> bool {
    a.len() <= b.len() && a == b.take(a.len() as int)
}

/// Byte-for-byte equality of two vectors.
pub fn bytes_eq(a: &Vec<u8>, b: &Vec<u8>) -> (r: bool)
    ensures
        r <==> a@ == b@,
{
    if a.len() != b.len() {
        proof {
            assert(a@.len() != b@.len());
        }
        return false;
    }
    let n = a.len();
    let mut i: usize = 0;
    while i < n
        invariant
            n == a.len() == b.len(),
            i <= n,
            forall|k: int| 0 <= k < i ==> a@[k] == b@[k],
        decreases n - i,
    {
        if a[i] != b[i] {
            return false;
        }
        i += 1;
    }
    proof {
        assert(a@ =~= b@);
    }
    true
}

/// Prefix test: does `b` start with `a`?
pub fn is_prefix_of(a: &Vec<u8>, b: &Vec<u8>) -> (r: bool)
    ensures
        r <==> spec_is_prefix(a@, b@),
{
    if a.len() > b.len() {
        return false;
    }
    let n = a.len();
    let mut i: usize = 0;
    while i < n
        invariant
            n == a.len() <= b.len(),
            i <= n,
            forall|k: int| 0 <= k < i ==> a@[k] == b@[k],
        decreases n - i,
    {
        if a[i] != b[i] {
            proof {
                assert(a@[i as int] != b@.take(a@.len() as int)[i as int]);
            }
            return false;
        }
        i += 1;
    }
    proof {
        assert(a@ =~= b@.take(a@.len() as int));
    }
    true
}

/// The sequence `code` with `data` written over it starting at `offset`;
/// positions outside the written window keep their bytes. The write is
/// only applied when it fits entirely inside `code`.
pub open spec fn spec_overwrite(code: Seq<u8>, offset: int, data: Seq<u8>) -> Seq<u8> {
    if 0 <= offset && offset + data.len() <= code.len() {
        Seq::new(code.len(), |i: int|
            if offset <= i < offset + data.len() { data[i - offset] } else { code[i] })
    } else {
        code
    }
}

/// Writes `data` into `code` at `offset` when the window fits; otherwise
/// leaves `code` unchanged.
pub fn overwrite(code: &mut Vec<u8>, offset: usize, data: &Vec<u8>) -> (changed: bool)
    ensures
        final(code)@ == spec_overwrite(old(code)@, offset as int, data@),
        changed <==> offset + data@.len() <= old(code)@.len(),
{
    if data.len() > code.len() || offset > code.len() - data.len() {
        proof {
            assert(code@ =~= spec_overwrite(code@, offset as int, data@));
        }
        return false;
    }
    let n = data.len();
    let mut i: usize = 0;
    while i < n
        invariant
            n == data.len(),
            offset + n <= code.len(),
            code@.len() == old(code)@.len(),
            i <= n,
            forall|k: int| 0 <= k < i ==> code@[offset + k] == data@[k],
            forall|k: int| 0 <= k < code@.len() && !(offset <= k < offset + i)
                ==> code@[k] == old(code)@[k],
        decreases n - i,
    {
        code.set(offset + i, data[i]);
        i += 1;
    }
    proof {
        assert(code@ =~= spec_overwrite(old(code)@, offset as int, data@));
    }
    true
}

/// Character standing for the hex digit `n` (lower case), for `n < 16`.
pub open spec fn spec_hex_char(n: int) -> char {
    if n == 0 { '0' } else if n == 1 { '1' } else if n == 2 { '2' } else if n == 3 { '3' }
    else if n == 4 { '4' } else if n == 5 { '5' } else if n == 6 { '6' } else if n == 7 { '7' }
    else if n == 8 { '8' } else if n == 9 { '9' } else if n == 10 { 'a' } else if n == 11 { 'b' }
    else if n == 12 { 'c' } else if n == 13 { 'd' } else if n == 14 { 'e' } else { 'f' }
}

/// Numeric value of a hex digit character, or 16 for any other character.
pub open spec fn spec_hex_val(c: char) -> int {
    if c == '0' { 0 } else if c == '1' { 1 } else if c == '2' { 2 } else if c == '3' { 3 }
    else if c == '4' { 4 } else if c == '5' { 5 } else if c == '6' { 6 } else if c == '7' { 7 }
    else if c == '8' { 8 } else if c == '9' { 9 } else if c == 'a' { 10 } else if c == 'b' { 11 }
    else if c == 'c' { 12 } else if c == 'd' { 13 } else if c == 'e' { 14 } else if c == 'f' { 15 }
    else if c == 'A' { 10 } else if c == 'B' { 11 } else if c == 'C' { 12 } else if c == 'D' { 13 }
    else if c == 'E' { 14 } else if c == 'F' { 15 }
    else { 16 }
}

/// Lower-case hex text of a byte sequence, two digits per byte, no prefix.
pub open spec fn spec_hex_of_bytes(b: Seq<u8>) -> Seq<char>
    decreases b.len(),
{
    if b.len() == 0 {
        Seq::empty()
    } else {
        spec_hex_of_bytes(b.drop_last())
            + seq![spec_hex_char(b.last() as int / 16), spec_hex_char(b.last() as int % 16)]
    }
}

/// Bytes denoted by hex text: defined when every character is a hex digit
/// and the length is even.
pub open spec fn spec_bytes_of_hex(s: Seq<char>) -> Option<Seq<u8>>
    decreases s.len(),
{
    if s.len() == 0 {
        Some(Seq::empty())
    } else if s.len() == 1 {
        None
    } else {
        let hi = spec_hex_val(s[s.len() - 2]);
        let lo = spec_hex_val(s.last());
        if hi < 16 && lo < 16 {
            match spec_bytes_of_hex(s.take(s.len() - 2)) {
                Some(rest) => Some(rest.push((hi * 16 + lo) as u8)),
                None => None,
            }
        } else {
            None
        }
    }
}

/// Hex digit character (lower case) of a value below 16.
pub fn hex_char(n: u8) -> (c: char)
    requires
        n < 16,
    ensures
        c == spec_hex_char(n as int),
{
    match n {
        0 => '0', 1 => '1', 2 => '2', 3 => '3', 4 => '4', 5 => '5', 6 => '6', 7 => '7',
        8 => '8', 9 => '9', 10 => 'a', 11 => 'b', 12 => 'c', 13 => 'd', 14 => 'e', _ => 'f',
    }
}

/// Value of a hex digit character; 16 marks a non-digit.
pub fn hex_val(c: char) -> (n: u8)
    ensures
        n == spec_hex_val(c),
{
    match c {
        '0' => 0, '1' => 1, '2' => 2, '3' => 3, '4' => 4, '5' => 5, '6' => 6, '7' => 7,
        '8' => 8, '9' => 9, 'a' => 10, 'b' => 11, 'c' => 12, 'd' => 13, 'e' => 14, 'f' => 15,
        'A' => 10, 'B' => 11, 'C' => 12, 'D' => 13, 'E' => 14, 'F' => 15,
        _ => 16,
    }
}

/// Renders bytes as lower-case hex characters, two per byte.
pub fn hex_chars_of_bytes(b: &Vec<u8>) -> (r: Vec<char>)
    ensures
        r@ == spec_hex_of_bytes(b@),
{
    let mut r: Vec<char> = Vec::new();
    let n = b.len();
    let mut i: usize = 0;
    while i < n
        invariant
            n == b.len(),
            i <= n,
            r@ == spec_hex_of_bytes(b@.take(i as int)),
        decreases n - i,
    {
        let byte = b[i];
        r.push(hex_char(byte / 16));
        r.push(hex_char(byte % 16));
        proof {
            assert(b@.take(i + 1).drop_last() =~= b@.take(i as int));
            assert(b@.take(i + 1).last() == b@[i as int]);
        }
        i += 1;
    }
    proof {
        assert(b@.take(n as int) =~= b@);
    }
    r
}

/// Parses hex characters into bytes; `None` when a character is not a hex
/// digit or the length is odd.
pub fn bytes_of_hex_chars(s: &Vec<char>) -> (r: Option<Vec<u8>>)
    ensures
        match r {
            Some(b) => spec_bytes_of_hex(s@) == Some(b@),
            None => spec_bytes_of_hex(s@) is None,
        },
{
    if s.len() % 2 != 0 {
        proof {
            lemma_odd_hex_none(s@);
        }
        return None;
    }
    let mut r: Vec<u8> = Vec::new();
    let n = s.len();
    let mut i: usize = 0;
    while i < n
        invariant
            n == s.len(),
            n % 2 == 0,
            i <= n,
            i % 2 == 0,
            spec_bytes_of_hex(s@.take(i as int)) == Some(r@),
        decreases n - i,
    {
        let hi = hex_val(s[i]);
        let lo = hex_val(s[i + 1]);
        if hi >= 16 || lo >= 16 {
            proof {
                lemma_bad_digit_hex_none(s@, i as int);
            }
            return None;
        }
        r.push(hi * 16 + lo);
        proof {
            assert(s@.take(i + 2).take(s@.take(i + 2).len() - 2) =~= s@.take(i as int));
            assert(s@.take(i + 2)[s@.take(i + 2).len() - 2] == s@[i as int]);
            assert(s@.take(i + 2).last() == s@[i + 1]);
        }
        i += 2;
    }
    proof {
        assert(s@.take(n as int) =~= s@);
    }
    Some(r)
}

/// Hex text of odd length denotes no byte sequence.
proof fn lemma_odd_hex_none(s: Seq<char>)
    requires
        s.len() % 2 == 1,
    ensures
        spec_bytes_of_hex(s) is None,
    decreases s.len(),
{
    if s.len() > 1 {
        assert(s.take(s.len() - 2).len() % 2 == 1);
        lemma_odd_hex_none(s.take(s.len() - 2));
    }
}

/// Hex text with a non-digit at an even position `i` (given even length)
/// denotes no byte sequence.
proof fn lemma_bad_digit_hex_none(s: Seq<char>, i: int)
    requires
        s.len() % 2 == 0,
        0 <= i,
        i + 2 <= s.len(),
        i % 2 == 0,
        spec_hex_val(s[i]) >= 16 || spec_hex_val(s[i + 1]) >= 16,
    ensures
        spec_bytes_of_hex(s) is None,
    decreases s.len(),
{
    if s.len() > i + 2 {
        assert(s.take(s.len() - 2)[i] == s[i]);
        assert(s.take(s.len() - 2)[i + 1] == s[i + 1]);
        lemma_bad_digit_hex_none(s.take(s.len() - 2), i);
    }
}

/// Hex decoding undoes hex encoding: the bytes come back unchanged.
pub proof fn lemma_hex_round_trip(b: Seq<u8>)
    ensures
        spec_bytes_of_hex(spec_hex_of_bytes(b)) == Some(b),
    decreases b.len(),
{
    if b.len() > 0 {
        lemma_hex_round_trip(b.drop_last());
        let s = spec_hex_of_bytes(b);
        assert(s.len() == spec_hex_of_bytes(b.drop_last()).len() + 2) by {
            lemma_hex_len(b);
            lemma_hex_len(b.drop_last());
        }
        assert(s.take(s.len() - 2) =~= spec_hex_of_bytes(b.drop_last()));
        assert(s[s.len() - 2] == spec_hex_char(b.last() as int / 16));
        assert(s.last() == spec_hex_char(b.last() as int % 16));
        assert(spec_hex_val(spec_hex_char(b.last() as int / 16)) == b.last() as int / 16);
        assert(spec_hex_val(spec_hex_char(b.last() as int % 16)) == b.last() as int % 16);
        assert(spec_bytes_of_hex(s) is Some);
        assert(spec_bytes_of_hex(s).unwrap() =~= b);
    } else {
        assert(spec_bytes_of_hex(spec_hex_of_bytes(b)).unwrap() =~= b);
    }
}

/// Hex text of `n` bytes holds `2 n` characters.
pub proof fn lemma_hex_len(b: Seq<u8>)
    ensures
        spec_hex_of_bytes(b).len() == 2 * b.len(),
    decreases b.len(),
{
    if b.len() > 0 {
        lemma_hex_len(b.drop_last());
    }
}

} // verus!
