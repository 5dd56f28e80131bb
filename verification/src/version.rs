//! Compiler versions: a totally ordered identifier made of a semantic
//! version and an optional commit tag, with a stable textual form
//! (`v<major>.<minor>.<patch>` or `v<major>.<minor>.<patch>+commit.<tag>`)
//! and a descending sort for version listings.

use vstd::prelude::*;
use vstd::multiset::Multiset;
use crate::bytes::{spec_hex_char, spec_hex_val, hex_char, hex_val};
use crate::strings::{chars_to_string, str_chars, push_chars, push_str_chars};

verus! {

/// A known compiler version. `commit` is the build tag after
/// `+commit.`; an empty tag means the textual form carries none.
#[derive(Debug, Clone)]
pub struct CompilerVersion {
    pub major: u32,
    pub minor: u32,
    pub patch: u32,
    pub commit: String,
}

/// Decimal digit test.
pub open spec fn spec_is_digit(c: char) -> bool {
    spec_hex_val(c) < 10
}

/// Decimal text of a nonnegative number, no leading zeros.
pub open spec fn spec_dec_of(n: int) -> Seq<char>
    recommends
        n >= 0,
    decreases n,
{
    if n < 10 {
        seq![spec_hex_char(if n < 0 { 0 } else { n })]
    } else {
        spec_dec_of(n / 10) + seq![spec_hex_char(n % 10)]
    }
}

/// Value of decimal text, folding digits from the left.
pub open spec fn spec_dec_val(s: Seq<char>) -> int
    decreases s.len(),
{
    if s.len() == 0 {
        0
    } else {
        spec_dec_val(s.drop_last()) * 10 + spec_hex_val(s.last())
    }
}

/// Every character is a decimal digit.
pub open spec fn spec_all_digits(s: Seq<char>) -> bool {
    forall|i: int| 0 <= i < s.len() ==> spec_is_digit(s[i])
}

/// Accepted numeral: one to nine digits, no leading zero.
pub open spec fn spec_is_dec(s: Seq<char>) -> bool {
    &&& 1 <= s.len() <= 9
    &&& spec_all_digits(s)
    &&& (s.len() > 1 ==> s[0] != '0')
}

/// Ten to the `k`.
pub open spec fn spec_pow10(k: int) -> int
    decreases k,
{
    if k <= 0 {
        1
    } else {
        10 * spec_pow10(k - 1)
    }
}

/// Decimal text of `n` digits denotes a value below ten to the `n`.
pub proof fn lemma_dec_val_bound(s: Seq<char>)
    requires
        spec_all_digits(s),
    ensures
        0 <= spec_dec_val(s) < spec_pow10(s.len() as int),
    decreases s.len(),
{
    if s.len() > 0 {
        assert(spec_all_digits(s.drop_last())) by {
            assert(forall|i: int| 0 <= i < s.len() - 1 ==> s.drop_last()[i] == s[i]);
        }
        lemma_dec_val_bound(s.drop_last());
        assert(spec_is_digit(s.last()));
    }
}

/// Ten-to-the is monotone in the exponent.
pub proof fn lemma_pow10_mono(a: int, b: int)
    requires
        a <= b,
    ensures
        spec_pow10(a) <= spec_pow10(b),
    decreases b,
{
    if a < b && b > 0 {
        lemma_pow10_mono(a, b - 1);
        assert(spec_pow10(b - 1) >= 1) by {
            lemma_pow10_pos(b - 1);
        }
    }
}

/// Ten-to-the is positive.
pub proof fn lemma_pow10_pos(k: int)
    ensures
        spec_pow10(k) >= 1,
    decreases k,
{
    if k > 0 {
        lemma_pow10_pos(k - 1);
    }
}

/// Decimal digits of a number, matching `spec_dec_of`.
pub fn dec_chars_of_u32(n: u32) -> (r: Vec<char>)
    ensures
        r@ == spec_dec_of(n as int),
    decreases n,
{
    if n < 10 {
        let mut r: Vec<char> = Vec::new();
        r.push(hex_char(n as u8));
        proof {
            assert(r@ =~= spec_dec_of(n as int));
        }
        r
    } else {
        let mut r = dec_chars_of_u32(n / 10);
        r.push(hex_char((n % 10) as u8));
        proof {
            assert(r@ =~= spec_dec_of(n as int));
        }
        r
    }
}

/// Parses an accepted numeral; `None` exactly when the text is not one.
pub fn parse_dec(seg: &Vec<char>) -> (r: Option<u32>)
    ensures
        match r {
            Some(x) => spec_is_dec(seg@) && x as int == spec_dec_val(seg@),
            None => !spec_is_dec(seg@),
        },
{
    let n = seg.len();
    if n == 0 || n > 9 {
        return None;
    }
    if n > 1 && seg[0] == '0' {
        return None;
    }
    let mut val: u32 = 0;
    let mut i: usize = 0;
    while i < n
        invariant
            n == seg.len() <= 9,
            i <= n,
            spec_all_digits(seg@.take(i as int)),
            val as int == spec_dec_val(seg@.take(i as int)),
        decreases n - i,
    {
        let d = hex_val(seg[i]);
        if d >= 10 {
            assert(!spec_is_digit(seg@[i as int]));
            return None;
        }
        proof {
            lemma_dec_val_bound(seg@.take(i as int));
            lemma_pow10_mono(i as int, 8);
            assert(spec_pow10(8) == 100000000) by {
                reveal_with_fuel(spec_pow10, 9);
            }
            assert(seg@.take(i + 1).drop_last() =~= seg@.take(i as int));
            assert(seg@.take(i + 1).last() == seg@[i as int]);
        }
        val = val * 10 + (d as u32);
        proof {
            assert(spec_all_digits(seg@.take(i + 1))) by {
                assert(forall|k: int| 0 <= k < i + 1
                    ==> seg@.take(i + 1)[k] == seg@.take(i as int).push(seg@[i as int])[k]);
            }
        }
        i += 1;
    }
    proof {
        assert(seg@.take(n as int) =~= seg@);
    }
    Some(val)
}

/// Canonical text of a version: leading `v`, dotted numerals, and the
/// commit tag after `+commit.` when one is present.
pub open spec fn spec_version_chars(v: CompilerVersion) -> Seq<char> {
    seq!['v'] + spec_dec_of(v.major as int) + seq!['.'] + spec_dec_of(v.minor as int)
        + seq!['.'] + spec_dec_of(v.patch as int)
        + (if v.commit@.len() > 0 { "+commit."@ + v.commit@ } else { Seq::<char>::empty() })
}

/// Bounds under which the canonical text round-trips: each numeral fits
/// the nine digits a parsed version can carry.
pub open spec fn spec_wf_version(v: CompilerVersion) -> bool {
    v.major < 1000000000 && v.minor < 1000000000 && v.patch < 1000000000
}

impl CompilerVersion {
    /// Canonical textual form, e.g. `v0.8.17+commit.8df45f5f`.
    pub fn to_version_string(&self) -> (s: String)
        ensures
            s@ == spec_version_chars(*self),
    {
        let mut out: Vec<char> = Vec::new();
        out.push('v');
        let maj = dec_chars_of_u32(self.major);
        push_chars(&mut out, &maj);
        out.push('.');
        let min = dec_chars_of_u32(self.minor);
        push_chars(&mut out, &min);
        out.push('.');
        let pat = dec_chars_of_u32(self.patch);
        push_chars(&mut out, &pat);
        if self.commit.as_str().unicode_len() > 0 {
            push_str_chars(&mut out, "+commit.");
            push_str_chars(&mut out, self.commit.as_str());
        }
        let s = chars_to_string(&out);
        proof {
            assert(s@ =~= spec_version_chars(*self));
        }
        s
    }
}

/// Index of the first occurrence of `c` in `s`, or the length of `s`.
pub open spec fn spec_first_index_of(s: Seq<char>, c: char) -> int
    decreases s.len(),
{
    if s.len() == 0 {
        0
    } else if s[0] == c {
        0
    } else {
        1 + spec_first_index_of(s.drop_first(), c)
    }
}

/// Characterizes the first index: nothing before it matches and either
/// the end was reached or the index matches.
pub proof fn lemma_first_index_char(s: Seq<char>, c: char, j: int)
    requires
        0 <= j <= s.len(),
        forall|k: int| 0 <= k < j ==> s[k] != c,
        j == s.len() || s[j] == c,
    ensures
        spec_first_index_of(s, c) == j,
    decreases s.len(),
{
    if s.len() > 0 && s[0] != c {
        assert(forall|k: int| 0 <= k < j - 1 ==> s.drop_first()[k] == s[k + 1]);
        if j == s.len() {
            lemma_first_index_char(s.drop_first(), c, j - 1);
        } else {
            assert(s.drop_first()[j - 1] == s[j]);
            lemma_first_index_char(s.drop_first(), c, j - 1);
        }
    }
}

/// Finds the first occurrence of `c`, or the length when absent.
pub fn first_index_of(s: &Vec<char>, c: char) -> (r: usize)
    ensures
        r as int == spec_first_index_of(s@, c),
        r <= s@.len(),
{
    let n = s.len();
    let mut i: usize = 0;
    while i < n
        invariant
            n == s.len(),
            i <= n,
            forall|k: int| 0 <= k < i ==> s@[k] != c,
        decreases n - i,
    {
        if s[i] == c {
            proof {
                lemma_first_index_char(s@, c, i as int);
            }
            return i;
        }
        i += 1;
    }
    proof {
        lemma_first_index_char(s@, c, n as int);
    }
    n
}

/// Copy of `v[from..to]`.
pub fn sub_chars(v: &Vec<char>, from: usize, to: usize) -> (r: Vec<char>)
    requires
        from <= to <= v@.len(),
    ensures
        r@ == v@.subrange(from as int, to as int),
{
    let mut r: Vec<char> = Vec::new();
    let mut k: usize = from;
    while k < to
        invariant
            from <= k <= to <= v@.len(),
            r@ == v@.subrange(from as int, k as int),
        decreases to - k,
    {
        r.push(v[k]);
        proof {
            assert(v@.subrange(from as int, k + 1)
                =~= v@.subrange(from as int, k as int).push(v@[k as int]));
        }
        k += 1;
    }
    r
}

/// The components denoted by version text, if it is well formed: the
/// optional leading `v` is dropped, the part before the first `+` must be
/// three accepted numerals separated by dots, and what follows the `+`
/// must be a `commit.` marker with a nonempty tag.
pub open spec fn spec_parse_version(s: Seq<char>) -> Option<(int, int, int, Seq<char>)> {
    let t = if s.len() > 0 && s[0] == 'v' { s.drop_first() } else { s };
    let p = spec_first_index_of(t, '+');
    let core = t.take(p);
    let rest = t.skip(p);
    let commit = rest.skip(8);
    if rest.len() != 0 && !(rest.len() > 8 && rest.take(8) == "+commit."@) {
        None
    } else {
        let i = spec_first_index_of(core, '.');
        if i >= core.len() {
            None
        } else {
            let seg1 = core.take(i);
            let core2 = core.skip(i + 1);
            let j = spec_first_index_of(core2, '.');
            if j >= core2.len() {
                None
            } else {
                let seg2 = core2.take(j);
                let seg3 = core2.skip(j + 1);
                if spec_is_dec(seg1) && spec_is_dec(seg2) && spec_is_dec(seg3) {
                    Some((
                        spec_dec_val(seg1),
                        spec_dec_val(seg2),
                        spec_dec_val(seg3),
                        if rest.len() == 0 { Seq::<char>::empty() } else { commit },
                    ))
                } else {
                    None
                }
            }
        }
    }
}

/// Parses version text into its components; `None` exactly when the text
/// is not a well-formed version.
pub fn parse_version(s: &str) -> (r: Option<CompilerVersion>)
    ensures
        match r {
            Some(v) => {
                &&& spec_parse_version(s@)
                    == Some((v.major as int, v.minor as int, v.patch as int, v.commit@))
                &&& spec_wf_version(v)
            },
            None => spec_parse_version(s@) is None,
        },
{
    let chars = str_chars(s);
    let ghost t0 = if s@.len() > 0 && s@[0] == 'v' { s@.drop_first() } else { s@ };
    let t: Vec<char> = if chars.len() > 0 && chars[0] == 'v' {
        sub_chars(&chars, 1, chars.len())
    } else {
        chars
    };
    proof {
        assert(t@ =~= t0);
    }
    let p = first_index_of(&t, '+');
    let core = sub_chars(&t, 0, p);
    proof {
        assert(core@ =~= t@.take(p as int));
    }
    let rest_len = t.len() - p;
    let mut commit: Vec<char> = Vec::new();
    if rest_len != 0 {
        if rest_len <= 8 {
            proof {
                assert(t@.skip(p as int).len() == rest_len);
            }
            return None;
        }
        if !(t[p] == '+' && t[p + 1] == 'c' && t[p + 2] == 'o' && t[p + 3] == 'm'
            && t[p + 4] == 'm' && t[p + 5] == 'i' && t[p + 6] == 't' && t[p + 7] == '.')
        {
            proof {
                reveal_strlit("+commit.");
                let rest = t@.skip(p as int);
                assert(rest.take(8) != "+commit."@) by {
                    if rest.take(8) == "+commit."@ {
                        assert(rest.take(8)[0] == '+' && rest.take(8)[1] == 'c'
                            && rest.take(8)[2] == 'o' && rest.take(8)[3] == 'm'
                            && rest.take(8)[4] == 'm' && rest.take(8)[5] == 'i'
                            && rest.take(8)[6] == 't' && rest.take(8)[7] == '.');
                        assert(rest[0] == t@[p as int] && rest[1] == t@[p + 1]
                            && rest[2] == t@[p + 2] && rest[3] == t@[p + 3]
                            && rest[4] == t@[p + 4] && rest[5] == t@[p + 5]
                            && rest[6] == t@[p + 6] && rest[7] == t@[p + 7]);
                    }
                };
            }
            return None;
        }
        proof {
            reveal_strlit("+commit.");
            let rest = t@.skip(p as int);
            assert(rest.take(8) =~= "+commit."@);
        }
        commit = sub_chars(&t, p + 8, t.len());
        proof {
            assert(commit@ =~= t@.skip(p as int).skip(8));
        }
    } else {
        proof {
            assert(t@.skip(p as int).len() == 0);
        }
    }
    let i = first_index_of(&core, '.');
    if i >= core.len() {
        return None;
    }
    let seg1 = sub_chars(&core, 0, i);
    let core2 = sub_chars(&core, i + 1, core.len());
    proof {
        assert(seg1@ =~= core@.take(i as int));
        assert(core2@ =~= core@.skip(i + 1));
    }
    let j = first_index_of(&core2, '.');
    if j >= core2.len() {
        return None;
    }
    let seg2 = sub_chars(&core2, 0, j);
    let seg3 = sub_chars(&core2, j + 1, core2.len());
    proof {
        assert(seg2@ =~= core2@.take(j as int));
        assert(seg3@ =~= core2@.skip(j + 1));
    }
    let major = match parse_dec(&seg1) {
        Some(x) => x,
        None => { return None; },
    };
    let minor = match parse_dec(&seg2) {
        Some(x) => x,
        None => { return None; },
    };
    let patch = match parse_dec(&seg3) {
        Some(x) => x,
        None => { return None; },
    };
    proof {
        lemma_dec_val_bound(seg1@);
        lemma_dec_val_bound(seg2@);
        lemma_dec_val_bound(seg3@);
        lemma_pow10_mono(seg1@.len() as int, 9);
        lemma_pow10_mono(seg2@.len() as int, 9);
        lemma_pow10_mono(seg3@.len() as int, 9);
        assert(spec_pow10(9) == 1000000000) by {
            reveal_with_fuel(spec_pow10, 10);
        }
    }
    let commit_s = chars_to_string(&commit);
    Some(CompilerVersion { major, minor, patch, commit: commit_s })
}

/// Lexicographic order on character sequences, by code point.
pub open spec fn spec_chars_le(a: Seq<char>, b: Seq<char>) -> bool
    decreases a.len(),
{
    if a.len() == 0 {
        true
    } else if b.len() == 0 {
        false
    } else if a[0] == b[0] {
        spec_chars_le(a.drop_first(), b.drop_first())
    } else {
        a[0] < b[0]
    }
}

/// Total order on versions: numeric components first, ties broken by the
/// commit tag, lexicographically.
pub open spec fn spec_version_le(a: CompilerVersion, b: CompilerVersion) -> bool {
    if a.major != b.major {
        a.major < b.major
    } else if a.minor != b.minor {
        a.minor < b.minor
    } else if a.patch != b.patch {
        a.patch < b.patch
    } else {
        spec_chars_le(a.commit@, b.commit@)
    }
}

/// The character order is reflexive.
pub proof fn lemma_chars_le_refl(a: Seq<char>)
    ensures
        spec_chars_le(a, a),
    decreases a.len(),
{
    if a.len() > 0 {
        lemma_chars_le_refl(a.drop_first());
    }
}

/// The version order is reflexive.
pub proof fn lemma_version_le_refl(a: CompilerVersion)
    ensures
        spec_version_le(a, a),
{
    lemma_chars_le_refl(a.commit@);
}

/// The character order relates every pair one way or the other.
pub proof fn lemma_chars_le_total(a: Seq<char>, b: Seq<char>)
    ensures
        spec_chars_le(a, b) || spec_chars_le(b, a),
    decreases a.len(),
{
    if a.len() > 0 && b.len() > 0 && a[0] == b[0] {
        lemma_chars_le_total(a.drop_first(), b.drop_first());
    }
}

/// The character order is transitive.
pub proof fn lemma_chars_le_trans(a: Seq<char>, b: Seq<char>, c: Seq<char>)
    requires
        spec_chars_le(a, b),
        spec_chars_le(b, c),
    ensures
        spec_chars_le(a, c),
    decreases a.len(),
{
    if a.len() > 0 && b.len() > 0 && c.len() > 0 && a[0] == b[0] && b[0] == c[0] {
        lemma_chars_le_trans(a.drop_first(), b.drop_first(), c.drop_first());
    }
}

/// The character order is antisymmetric: both ways round, the sequences
/// are the same.
pub proof fn lemma_chars_le_antisym(a: Seq<char>, b: Seq<char>)
    requires
        spec_chars_le(a, b),
        spec_chars_le(b, a),
    ensures
        a == b,
    decreases a.len(),
{
    if a.len() > 0 && b.len() > 0 && a[0] == b[0] {
        lemma_chars_le_antisym(a.drop_first(), b.drop_first());
        assert(a =~= seq![a[0]] + a.drop_first());
        assert(b =~= seq![b[0]] + b.drop_first());
    } else if a.len() > 0 || b.len() > 0 {
        assert(false);
    } else {
        assert(a =~= b);
    }
}

/// The version order relates every pair one way or the other.
pub proof fn lemma_version_le_total(a: CompilerVersion, b: CompilerVersion)
    ensures
        spec_version_le(a, b) || spec_version_le(b, a),
{
    lemma_chars_le_total(a.commit@, b.commit@);
}

/// The version order is transitive.
pub proof fn lemma_version_le_trans(a: CompilerVersion, b: CompilerVersion, c: CompilerVersion)
    requires
        spec_version_le(a, b),
        spec_version_le(b, c),
    ensures
        spec_version_le(a, c),
{
    if a.major == b.major && b.major == c.major && a.minor == b.minor && b.minor == c.minor
        && a.patch == b.patch && b.patch == c.patch {
        lemma_chars_le_trans(a.commit@, b.commit@, c.commit@);
    }
}

/// Decides the version order.
pub fn version_le(a: &CompilerVersion, b: &CompilerVersion) -> (r: bool)
    ensures
        r == spec_version_le(*a, *b),
{
    if a.major != b.major {
        return a.major < b.major;
    }
    if a.minor != b.minor {
        return a.minor < b.minor;
    }
    if a.patch != b.patch {
        return a.patch < b.patch;
    }
    let x = str_chars(a.commit.as_str());
    let y = str_chars(b.commit.as_str());
    proof {
        assert(x@.skip(0) =~= x@);
        assert(y@.skip(0) =~= y@);
    }
    let nx = x.len();
    let ny = y.len();
    let mut i: usize = 0;
    loop
        invariant
            a.major == b.major,
            a.minor == b.minor,
            a.patch == b.patch,
            nx == x@.len(),
            ny == y@.len(),
            i <= nx,
            i <= ny,
            x@ == a.commit@,
            y@ == b.commit@,
            spec_chars_le(a.commit@, b.commit@) == spec_chars_le(x@.skip(i as int), y@.skip(i as int)),
            spec_chars_le(b.commit@, a.commit@) == spec_chars_le(y@.skip(i as int), x@.skip(i as int)),
        decreases nx - i,
    {
        if i >= nx {
            proof {
                assert(x@.skip(i as int).len() == 0);
            }
            return true;
        }
        if i >= ny {
            proof {
                assert(y@.skip(i as int).len() == 0);
                assert(x@.skip(i as int).len() > 0);
            }
            return false;
        }
        let cx = x[i];
        let cy = y[i];
        proof {
            assert(x@.skip(i as int)[0] == x@[i as int]);
            assert(y@.skip(i as int)[0] == y@[i as int]);
            assert(x@.skip(i as int).drop_first() =~= x@.skip(i + 1));
            assert(y@.skip(i as int).drop_first() =~= y@.skip(i + 1));
        }
        if cx != cy {
            return cx < cy;
        }
        i += 1;
    }
}

/// Descending order: every later entry is no greater than any earlier one.
pub open spec fn spec_sorted_descending(s: Seq<CompilerVersion>) -> bool {
    forall|i: int, j: int| 0 <= i < j < s.len() ==> spec_version_le(s[j], s[i])
}

/// Sorts versions in descending order; the result holds exactly the
/// given versions.
pub fn sort_versions_descending(input: Vec<CompilerVersion>) -> (r: Vec<CompilerVersion>)
    ensures
        spec_sorted_descending(r@),
        r@.to_multiset() == input@.to_multiset(),
{
    broadcast use vstd::seq_lib::group_to_multiset_ensures;

    let mut pool = input;
    let mut out: Vec<CompilerVersion> = Vec::new();
    let ghost all = pool@.to_multiset();
    proof {
        assert(out@.to_multiset().add(pool@.to_multiset()) =~= all);
    }
    while pool.len() > 0
        invariant
            out@.to_multiset().add(pool@.to_multiset()) == all,
            spec_sorted_descending(out@),
            forall|a: int, b: int| 0 <= a < out@.len() && 0 <= b < pool@.len()
                ==> spec_version_le(pool@[b], out@[a]),
        decreases pool.len(),
    {
        let n = pool.len();
        let mut m: usize = 0;
        let mut k: usize = 1;
        proof {
            lemma_version_le_refl(pool@[0]);
        }
        while k < n
            invariant
                n == pool.len(),
                m < n,
                k <= n,
                forall|j: int| 0 <= j < k ==> spec_version_le(pool@[j], pool@[m as int]),
            decreases n - k,
        {
            if !version_le(&pool[k], &pool[m]) {
                proof {
                    lemma_version_le_total(pool@[k as int], pool@[m as int]);
                    assert forall|j: int| 0 <= j < k + 1
                        implies spec_version_le(pool@[j], pool@[k as int]) by {
                        if j < k {
                            lemma_version_le_trans(pool@[j], pool@[m as int], pool@[k as int]);
                        } else {
                            lemma_version_le_refl(pool@[k as int]);
                        }
                    }
                }
                m = k;
            }
            k += 1;
        }
        let ghost pool_old = pool@;
        let x = pool.remove(m);
        let ghost out_old = out@;
        out.push(x);
        proof {
            pool_old.to_multiset_ensures();
            out_old.to_multiset_ensures();
            assert(pool_old.contains(x)) by {
                assert(pool_old[m as int] == x);
            }
            assert(pool_old.to_multiset().count(x) > 0);
            assert(pool@.to_multiset() =~= pool_old.to_multiset().remove(x));
            assert(out@.to_multiset() =~= out_old.to_multiset().insert(x));
            assert(out@.to_multiset().add(pool@.to_multiset()) =~= all);
            assert forall|a: int, b: int|
                0 <= a < out@.len() && 0 <= b < pool@.len()
                implies spec_version_le(pool@[b], out@[a]) by {
                assert(pool@[b] == (if b < m { pool_old[b] } else { pool_old[b + 1] }));
                if a < out_old.len() {
                    assert(out@[a] == out_old[a]);
                } else {
                    assert(out@[a] == x);
                }
            }
            assert(spec_sorted_descending(out@)) by {
                assert forall|i: int, j: int| 0 <= i < j < out@.len()
                    implies spec_version_le(out@[j], out@[i]) by {
                    if j < out_old.len() {
                        assert(out@[i] == out_old[i] && out@[j] == out_old[j]);
                    } else {
                        assert(out@[j] == x);
                        assert(out@[i] == out_old[i]);
                    }
                }
            }
        }
    }
    proof {
        assert(pool@.to_multiset() =~= Multiset::<CompilerVersion>::empty());
        assert(out@.to_multiset() =~= all);
    }
    out
}

/// In a descending listing, equal versions stand adjacent: whatever lies
/// between two order-equivalent entries is order-equivalent to them.
pub proof fn lemma_equal_versions_adjacent(s: Seq<CompilerVersion>, i: int, k: int, j: int)
    requires
        spec_sorted_descending(s),
        0 <= i < k,
        k < j < s.len(),
        spec_version_le(s[i], s[j]),
    ensures
        spec_version_le(s[i], s[k]) && spec_version_le(s[k], s[i]),
        spec_version_le(s[j], s[k]) && spec_version_le(s[k], s[j]),
{
    lemma_version_le_trans(s[i], s[j], s[k]);
    lemma_version_le_trans(s[k], s[i], s[j]);
}

/// The decimal text of a value carries only digits, is never empty, and
/// has no leading zero unless it is the single digit `0`.
pub proof fn lemma_dec_of_digits(n: int)
    requires
        n >= 0,
    ensures
        spec_all_digits(spec_dec_of(n)),
        spec_dec_of(n).len() >= 1,
        n >= 1 ==> spec_dec_of(n)[0] != '0',
        n < 10 ==> spec_dec_of(n).len() == 1,
    decreases n,
{
    if n < 10 {
        assert(spec_is_digit(spec_hex_char(n)));
    } else {
        lemma_dec_of_digits(n / 10);
        let s = spec_dec_of(n);
        assert(s == spec_dec_of(n / 10) + seq![spec_hex_char(n % 10)]);
        assert(s[0] == spec_dec_of(n / 10)[0]);
        assert(spec_is_digit(spec_hex_char(n % 10)));
        assert forall|i: int| 0 <= i < s.len() implies spec_is_digit(s[i]) by {
            if i < spec_dec_of(n / 10).len() {
                assert(s[i] == spec_dec_of(n / 10)[i]);
            } else {
                assert(s[i] == spec_hex_char(n % 10));
            }
        }
    }
}

/// A value below ten to the `k` prints in at most `k` digits.
pub proof fn lemma_dec_of_len(n: int, k: int)
    requires
        0 <= n,
        1 <= k,
        n < spec_pow10(k),
    ensures
        spec_dec_of(n).len() <= k,
    decreases n,
{
    if n >= 10 {
        if k == 1 {
            assert(spec_pow10(1) == 10) by {
                reveal_with_fuel(spec_pow10, 2);
            }
            assert(false);
        }
        assert(spec_pow10(k) == 10 * spec_pow10(k - 1));
        lemma_dec_of_len(n / 10, k - 1);
    }
}

/// Parsing the decimal text of a value gives the value back.
pub proof fn lemma_dec_of_val(n: int)
    requires
        n >= 0,
    ensures
        spec_dec_val(spec_dec_of(n)) == n,
    decreases n,
{
    if n < 10 {
        let s = spec_dec_of(n);
        assert(s == seq![spec_hex_char(n)]);
        assert(s.len() == 1);
        assert(s.drop_last() =~= Seq::<char>::empty());
        assert(spec_dec_val(s.drop_last()) == 0);
        assert(s.last() == spec_hex_char(n));
        assert(spec_hex_val(spec_hex_char(n)) == n);
        assert(spec_dec_val(s) == spec_dec_val(s.drop_last()) * 10 + spec_hex_val(s.last()));
    } else {
        lemma_dec_of_val(n / 10);
        let s = spec_dec_of(n);
        assert(s.drop_last() =~= spec_dec_of(n / 10));
        assert(s.last() == spec_hex_char(n % 10));
        assert(spec_hex_val(spec_hex_char(n % 10)) == n % 10);
    }
}

/// The decimal text of a value below a billion is an accepted numeral
/// denoting that value.
pub proof fn lemma_dec_of_is_dec(n: int)
    requires
        0 <= n < 1000000000,
    ensures
        spec_is_dec(spec_dec_of(n)),
        spec_dec_val(spec_dec_of(n)) == n,
{
    lemma_dec_of_digits(n);
    assert(spec_pow10(9) == 1000000000) by {
        reveal_with_fuel(spec_pow10, 10);
    }
    lemma_dec_of_len(n, 9);
    lemma_dec_of_val(n);
    if n == 0 {
        assert(spec_dec_of(0).len() == 1);
    }
}

/// Stable round trip: parsing the canonical text of a well-formed
/// version yields exactly its components.
#[verifier::rlimit(100)]
pub proof fn lemma_version_round_trip(v: CompilerVersion)
    requires
        spec_wf_version(v),
    ensures
        spec_parse_version(spec_version_chars(v))
            == Some((v.major as int, v.minor as int, v.patch as int, v.commit@)),
{
    reveal_strlit("+commit.");
    let d1 = spec_dec_of(v.major as int);
    let d2 = spec_dec_of(v.minor as int);
    let d3 = spec_dec_of(v.patch as int);
    lemma_dec_of_is_dec(v.major as int);
    lemma_dec_of_is_dec(v.minor as int);
    lemma_dec_of_is_dec(v.patch as int);
    let rest: Seq<char> = if v.commit@.len() > 0 { "+commit."@ + v.commit@ } else { Seq::empty() };
    let core = d1 + seq!['.'] + d2 + seq!['.'] + d3;
    let s = spec_version_chars(v);
    let body = core + rest;
    assert(s =~= seq!['v'] + body);
    assert(s[0] == 'v');
    assert(s.drop_first() =~= body);

    let plus = core.len() as int;
    assert forall|k: int| 0 <= k < plus implies body[k] != '+' by {
        assert(body[k] == core[k]);
        if k < d1.len() {
            assert(core[k] == d1[k]);
            assert(spec_is_digit(core[k]));
        } else if k == d1.len() {
            assert(core[k] == '.');
        } else if k < d1.len() + 1 + d2.len() {
            assert(core[k] == d2[k - d1.len() - 1]);
            assert(spec_is_digit(core[k]));
        } else if k == d1.len() + 1 + d2.len() {
            assert(core[k] == '.');
        } else {
            assert(core[k] == d3[k - d1.len() - 1 - d2.len() - 1]);
            assert(spec_is_digit(core[k]));
        }
    }
    if v.commit@.len() > 0 {
        assert(body[plus] == rest[0]);
        assert(rest[0] == '+');
        lemma_first_index_char(body, '+', plus);
    } else {
        assert(body.len() == plus);
        lemma_first_index_char(body, '+', plus);
    }
    assert(spec_first_index_of(body, '+') == plus);
    assert(body.take(plus) =~= core);
    assert(body.skip(plus) =~= rest);
    if v.commit@.len() > 0 {
        assert(rest.len() == 8 + v.commit@.len());
        assert(rest.take(8) =~= "+commit."@);
        assert(rest.skip(8) =~= v.commit@);
    }

    let i1 = d1.len() as int;
    assert forall|k: int| 0 <= k < i1 implies core[k] != '.' by {
        assert(core[k] == d1[k]);
        assert(spec_is_digit(core[k]));
    }
    assert(core[i1] == '.');
    lemma_first_index_char(core, '.', i1);
    assert(core.take(i1) =~= d1);
    let core2 = core.skip(i1 + 1);
    assert(core2 =~= d2 + seq!['.'] + d3);

    let i2 = d2.len() as int;
    assert forall|k: int| 0 <= k < i2 implies core2[k] != '.' by {
        assert(core2[k] == d2[k]);
        assert(spec_is_digit(core2[k]));
    }
    assert(core2[i2] == '.');
    lemma_first_index_char(core2, '.', i2);
    assert(core2.take(i2) =~= d2);
    assert(core2.skip(i2 + 1) =~= d3);
}

} // verus!
