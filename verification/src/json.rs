//! Wire form of a response.
//!
//! `to_json_string` renders a response as the exact JSON text of the
//! public interface: `{"message":…,"status":"0"|"1","result":…|null}`,
//! with constructor arguments as `0x`-prefixed hex and the library and
//! source maps as objects. `encode_response` / `decode_response` carry
//! the same value-level encoding (status digit, hex text) both ways,
//! and decoding undoes encoding exactly.

use vstd::prelude::*;
use crate::bytes::{
    spec_hex_of_bytes, spec_bytes_of_hex, hex_chars_of_bytes,
    bytes_of_hex_chars, lemma_hex_round_trip,
};
use crate::response::{
    VerificationResponse, VerificationResult, VerificationStatus, ResultV, ResponseV,
    spec_status_matches,
};
use crate::strings::{chars_to_string, str_chars, push_chars, push_str_chars};
use crate::version::{spec_dec_of, sub_chars};

verus! {

/// Expansion of one character in JSON string text: quote, backslash and
/// the common control characters are escaped; everything else passes
/// through unchanged.
pub open spec fn spec_escape_char(c: char) -> Seq<char> {
    if c == '"' {
        seq!['\\', '"']
    } else if c == '\\' {
        seq!['\\', '\\']
    } else if c == '\n' {
        seq!['\\', 'n']
    } else if c == '\r' {
        seq!['\\', 'r']
    } else if c == '\t' {
        seq!['\\', 't']
    } else {
        seq![c]
    }
}

/// JSON string body: every character expanded.
pub open spec fn spec_escaped(s: Seq<char>) -> Seq<char>
    decreases s.len(),
{
    if s.len() == 0 {
        Seq::empty()
    } else {
        spec_escape_char(s[0]) + spec_escaped(s.drop_first())
    }
}

/// A quoted JSON string.
pub open spec fn spec_json_string(s: Seq<char>) -> Seq<char> {
    seq!['"'] + spec_escaped(s) + seq!['"']
}

/// Escaping a text one character longer appends that character's
/// expansion.
pub proof fn lemma_escaped_push(t: Seq<char>, c: char)
    ensures
        spec_escaped(t.push(c)) == spec_escaped(t) + spec_escape_char(c),
    decreases t.len(),
{
    if t.len() == 0 {
        assert(t.push(c).len() == 1);
        assert(t.push(c)[0] == c);
        assert(t.push(c).drop_first() =~= Seq::<char>::empty());
        assert(spec_escaped(t.push(c).drop_first()) == Seq::<char>::empty());
        assert(spec_escaped(t) == Seq::<char>::empty());
        assert(spec_escaped(t.push(c)) == spec_escape_char(c) + spec_escaped(t.push(c).drop_first()));
        assert(spec_escaped(t.push(c)) =~= spec_escape_char(c));
        assert(spec_escaped(t) + spec_escape_char(c) =~= spec_escape_char(c));
    } else {
        assert(t.push(c)[0] == t[0]);
        assert(t.push(c).drop_first() =~= t.drop_first().push(c));
        lemma_escaped_push(t.drop_first(), c);
        assert(spec_escaped(t.push(c))
            =~= spec_escaped(t) + spec_escape_char(c));
    }
}

/// Appends the escaped body of `s`.
pub fn push_escaped(out: &mut Vec<char>, s: &str)
    ensures
        final(out)@ == old(out)@ + spec_escaped(s@),
{
    let n = s.unicode_len();
    let mut i: usize = 0;
    proof {
        assert(s@.take(0) =~= Seq::<char>::empty());
        assert(old(out)@ + spec_escaped(s@.take(0)) =~= old(out)@);
    }
    while i < n
        invariant
            n == s@.len(),
            i <= n,
            out@ == old(out)@ + spec_escaped(s@.take(i as int)),
        decreases n - i,
    {
        let c = s.get_char(i);
        if c == '"' {
            out.push('\\');
            out.push('"');
        } else if c == '\\' {
            out.push('\\');
            out.push('\\');
        } else if c == '\n' {
            out.push('\\');
            out.push('n');
        } else if c == '\r' {
            out.push('\\');
            out.push('r');
        } else if c == '\t' {
            out.push('\\');
            out.push('t');
        } else {
            out.push(c);
        }
        proof {
            assert(s@.take(i + 1) =~= s@.take(i as int).push(s@[i as int]));
            lemma_escaped_push(s@.take(i as int), s@[i as int]);
            assert(out@ =~= old(out)@ + spec_escaped(s@.take(i + 1)));
        }
        i += 1;
    }
    proof {
        assert(s@.take(n as int) =~= s@);
    }
}

/// Appends a quoted JSON string.
pub fn push_json_string(out: &mut Vec<char>, s: &str)
    ensures
        final(out)@ == old(out)@ + spec_json_string(s@),
{
    out.push('"');
    push_escaped(out, s);
    out.push('"');
    proof {
        assert(out@ =~= old(out)@ + spec_json_string(s@));
    }
}

/// One `"key":"value"` member.
pub open spec fn spec_entry_text(p: (Seq<char>, Seq<char>)) -> Seq<char> {
    spec_json_string(p.0) + seq![':'] + spec_json_string(p.1)
}

/// Members after the first, each preceded by a comma.
pub open spec fn spec_entries_tail(ps: Seq<(Seq<char>, Seq<char>)>) -> Seq<char>
    decreases ps.len(),
{
    if ps.len() == 0 {
        Seq::empty()
    } else {
        seq![','] + spec_entry_text(ps[0]) + spec_entries_tail(ps.drop_first())
    }
}

/// The members of an object, comma-separated.
pub open spec fn spec_entries_text(ps: Seq<(Seq<char>, Seq<char>)>) -> Seq<char> {
    if ps.len() == 0 {
        Seq::empty()
    } else {
        spec_entry_text(ps[0]) + spec_entries_tail(ps.drop_first())
    }
}

/// Members one entry longer end with that entry, comma-separated from
/// the rest.
pub proof fn lemma_entries_tail_push(ps: Seq<(Seq<char>, Seq<char>)>, p: (Seq<char>, Seq<char>))
    ensures
        spec_entries_tail(ps.push(p))
            == spec_entries_tail(ps) + seq![','] + spec_entry_text(p),
    decreases ps.len(),
{
    if ps.len() == 0 {
        assert(ps.push(p).len() == 1);
        assert(ps.push(p)[0] == p);
        assert(ps.push(p).drop_first() =~= Seq::<(Seq<char>, Seq<char>)>::empty());
        assert(spec_entries_tail(ps.push(p).drop_first()) == Seq::<char>::empty());
        assert(spec_entries_tail(ps) == Seq::<char>::empty());
        assert(spec_entries_tail(ps.push(p))
            == seq![','] + spec_entry_text(p) + spec_entries_tail(ps.push(p).drop_first()));
        assert(spec_entries_tail(ps.push(p)) =~= spec_entries_tail(ps) + seq![','] + spec_entry_text(p));
    } else {
        assert(ps.push(p)[0] == ps[0]);
        assert(ps.push(p).drop_first() =~= ps.drop_first().push(p));
        lemma_entries_tail_push(ps.drop_first(), p);
        assert(spec_entries_tail(ps.push(p))
            =~= spec_entries_tail(ps) + seq![','] + spec_entry_text(p));
    }
}

/// Same, counted from the first member.
pub proof fn lemma_entries_push(ps: Seq<(Seq<char>, Seq<char>)>, p: (Seq<char>, Seq<char>))
    ensures
        spec_entries_text(ps.push(p)) == spec_entries_text(ps)
            + (if ps.len() == 0 { spec_entry_text(p) } else { seq![','] + spec_entry_text(p) }),
{
    if ps.len() == 0 {
        assert(ps.push(p)[0] == p);
        assert(ps.push(p).drop_first() =~= Seq::<(Seq<char>, Seq<char>)>::empty());
        assert(spec_entries_text(ps.push(p)) =~= spec_entry_text(p));
        assert(spec_entries_text(ps) + spec_entry_text(p) =~= spec_entry_text(p));
    } else {
        assert(ps.push(p)[0] == ps[0]);
        assert(ps.push(p).drop_first() =~= ps.drop_first().push(p));
        lemma_entries_tail_push(ps.drop_first(), p);
        assert(spec_entries_text(ps.push(p))
            =~= spec_entries_text(ps) + (seq![','] + spec_entry_text(p)));
    }
}

/// Character images of owned text pairs.
pub open spec fn spec_pair_seq_views(s: Seq<(String, String)>) -> Seq<(Seq<char>, Seq<char>)> {
    s.map_values(|p: (String, String)| (p.0@, p.1@))
}

/// Appends the members of an object built from text pairs.
pub fn push_entries(out: &mut Vec<char>, pairs: &Vec<(String, String)>)
    ensures
        final(out)@ == old(out)@ + spec_entries_text(spec_pair_seq_views(pairs@)),
{
    let ghost pv = spec_pair_seq_views(pairs@);
    let n = pairs.len();
    let mut i: usize = 0;
    proof {
        assert(pv.take(0) =~= Seq::<(Seq<char>, Seq<char>)>::empty());
        assert(old(out)@ + spec_entries_text(pv.take(0)) =~= old(out)@);
    }
    while i < n
        invariant
            n == pairs.len(),
            pv == spec_pair_seq_views(pairs@),
            i <= n,
            out@ == old(out)@ + spec_entries_text(pv.take(i as int)),
        decreases n - i,
    {
        if i > 0 {
            out.push(',');
        }
        push_json_string(out, pairs[i].0.as_str());
        out.push(':');
        push_json_string(out, pairs[i].1.as_str());
        proof {
            assert(pv[i as int] == (pairs@[i as int].0@, pairs@[i as int].1@));
            assert(pv.take(i + 1) =~= pv.take(i as int).push(pv[i as int]));
            lemma_entries_push(pv.take(i as int), pv[i as int]);
            assert(out@ =~= old(out)@ + spec_entries_text(pv.take(i + 1)));
        }
        i += 1;
    }
    proof {
        assert(pv.take(n as int) =~= pv);
    }
}

/// Decimal digits of a count.
pub fn push_dec_usize(out: &mut Vec<char>, n: usize)
    ensures
        final(out)@ == old(out)@ + spec_dec_of(n as int),
    decreases n,
{
    if n < 10 {
        out.push(crate::bytes::hex_char(n as u8));
        proof {
            assert(out@ =~= old(out)@ + spec_dec_of(n as int));
        }
    } else {
        push_dec_usize(out, n / 10);
        out.push(crate::bytes::hex_char((n % 10) as u8));
        proof {
            assert(out@ =~= old(out)@ + spec_dec_of(n as int));
        }
    }
}

/// First fields of the result object: names and versions.
pub open spec fn spec_result_fields1(v: ResultV) -> Seq<char> {
    "{\"file_name\":"@ + spec_json_string(v.file_name)
        + ",\"contract_name\":"@ + spec_json_string(v.contract_name)
        + ",\"compiler_version\":"@ + spec_json_string(v.compiler_version)
        + ",\"evm_version\":"@ + spec_json_string(v.evm_version)
}

/// Middle fields: constructor arguments as `0x` hex and the optimizer
/// flags, each `null` when absent.
pub open spec fn spec_result_fields2(v: ResultV) -> Seq<char> {
    ",\"constructor_arguments\":"@ + (match v.constructor_arguments {
        Some(b) => seq!['"', '0', 'x'] + spec_hex_of_bytes(b) + seq!['"'],
        None => "null"@,
    })
        + ",\"optimization\":"@ + (match v.optimization {
            Some(true) => "true"@,
            Some(false) => "false"@,
            None => "null"@,
        })
        + ",\"optimization_runs\":"@ + (match v.optimization_runs {
            Some(n) => spec_dec_of(n as int),
            None => "null"@,
        })
}

/// Last fields: the two maps and the ABI text.
pub open spec fn spec_result_fields3(v: ResultV) -> Seq<char> {
    ",\"contract_libraries\":{"@ + spec_entries_text(v.contract_libraries) + "}"@
        + ",\"abi\":"@ + spec_json_string(v.abi)
        + ",\"sources\":{"@ + spec_entries_text(v.sources) + "}}"@
}

/// JSON text of the result object.
pub open spec fn spec_result_json(v: ResultV) -> Seq<char> {
    spec_result_fields1(v) + spec_result_fields2(v) + spec_result_fields3(v)
}

/// JSON text of the whole response; `status` is `"0"` on success and
/// `"1"` on failure, and `result` is `null` exactly on failure.
pub open spec fn spec_response_json(v: ResponseV) -> Seq<char> {
    "{\"message\":"@ + spec_json_string(v.message)
        + ",\"status\":"@ + (if v.status == VerificationStatus::Success { "\"0\""@ } else { "\"1\""@ })
        + ",\"result\":"@ + (match v.result {
            Some(res) => spec_result_json(res),
            None => "null"@,
        })
        + "}"@
}

/// Appends the first result fields.
#[verifier::rlimit(50)]
fn push_result_fields1(out: &mut Vec<char>, res: &VerificationResult)
    ensures
        final(out)@ == old(out)@ + spec_result_fields1(res@),
{
    push_str_chars(out, "{\"file_name\":");
    push_json_string(out, res.file_name.as_str());
    push_str_chars(out, ",\"contract_name\":");
    push_json_string(out, res.contract_name.as_str());
    push_str_chars(out, ",\"compiler_version\":");
    push_json_string(out, res.compiler_version.as_str());
    push_str_chars(out, ",\"evm_version\":");
    push_json_string(out, res.evm_version.as_str());
    proof {
        assert(out@ =~= old(out)@ + spec_result_fields1(res@));
    }
}

/// Appends the middle result fields.
#[verifier::rlimit(50)]
fn push_result_fields2(out: &mut Vec<char>, res: &VerificationResult)
    ensures
        final(out)@ == old(out)@ + spec_result_fields2(res@),
{
    push_str_chars(out, ",\"constructor_arguments\":");
    match &res.constructor_arguments {
        Some(b) => {
            out.push('"');
            out.push('0');
            out.push('x');
            let hex = hex_chars_of_bytes(b);
            push_chars(out, &hex);
            out.push('"');
        },
        None => {
            push_str_chars(out, "null");
        },
    }
    push_str_chars(out, ",\"optimization\":");
    match &res.optimization {
        Some(b) => {
            if *b {
                push_str_chars(out, "true");
            } else {
                push_str_chars(out, "false");
            }
        },
        None => {
            push_str_chars(out, "null");
        },
    }
    push_str_chars(out, ",\"optimization_runs\":");
    match &res.optimization_runs {
        Some(n) => {
            push_dec_usize(out, *n);
        },
        None => {
            push_str_chars(out, "null");
        },
    }
    proof {
        assert(out@ =~= old(out)@ + spec_result_fields2(res@));
    }
}

/// Appends the last result fields.
#[verifier::rlimit(50)]
fn push_result_fields3(out: &mut Vec<char>, res: &VerificationResult)
    ensures
        final(out)@ == old(out)@ + spec_result_fields3(res@),
{
    push_str_chars(out, ",\"contract_libraries\":{");
    push_entries(out, &res.contract_libraries);
    push_str_chars(out, "}");
    push_str_chars(out, ",\"abi\":");
    push_json_string(out, res.abi.as_str());
    push_str_chars(out, ",\"sources\":{");
    push_entries(out, &res.sources);
    push_str_chars(out, "}}");
    proof {
        assert(spec_pair_seq_views(res.contract_libraries@) == res@.contract_libraries);
        assert(spec_pair_seq_views(res.sources@) == res@.sources);
        assert(out@ =~= old(out)@ + spec_result_fields3(res@));
    }
}

/// Appends the JSON text of a result object.
fn push_result_json(out: &mut Vec<char>, res: &VerificationResult)
    ensures
        final(out)@ == old(out)@ + spec_result_json(res@),
{
    push_result_fields1(out, res);
    push_result_fields2(out, res);
    push_result_fields3(out, res);
    proof {
        assert(out@ =~= old(out)@ + spec_result_json(res@));
    }
}

impl VerificationResponse {
    /// The exact JSON text of this response.
    pub fn to_json_string(&self) -> (s: String)
        ensures
            s@ == spec_response_json(self@),
    {
        let mut out: Vec<char> = Vec::new();
        push_str_chars(&mut out, "{\"message\":");
        push_json_string(&mut out, self.message.as_str());
        push_str_chars(&mut out, ",\"status\":");
        match self.status {
            VerificationStatus::Success => {
                push_str_chars(&mut out, "\"0\"");
            },
            VerificationStatus::Failed => {
                push_str_chars(&mut out, "\"1\"");
            },
        }
        push_str_chars(&mut out, ",\"result\":");
        match &self.result {
            Some(res) => {
                push_result_json(&mut out, res);
            },
            None => {
                push_str_chars(&mut out, "null");
            },
        }
        push_str_chars(&mut out, "}");
        let s = chars_to_string(&out);
        proof {
            assert(s@ =~= spec_response_json(self@));
        }
        s
    }
}

/// Copy of a text value.
pub fn copy_string(s: &String) -> (r: String)
    ensures
        r@ == s@,
{
    chars_to_string(&str_chars(s.as_str()))
}

/// Copy of a list of text pairs, pair for pair.
pub fn copy_pairs(pairs: &Vec<(String, String)>) -> (r: Vec<(String, String)>)
    ensures
        spec_pair_seq_views(r@) == spec_pair_seq_views(pairs@),
{
    let mut r: Vec<(String, String)> = Vec::new();
    let n = pairs.len();
    let mut i: usize = 0;
    while i < n
        invariant
            n == pairs.len(),
            i <= n,
            r@.len() == i,
            forall|k: int| 0 <= k < i ==> r@[k].0@ == pairs@[k].0@ && r@[k].1@ == pairs@[k].1@,
        decreases n - i,
    {
        let k = copy_string(&pairs[i].0);
        let v = copy_string(&pairs[i].1);
        r.push((k, v));
        i += 1;
    }
    proof {
        assert(spec_pair_seq_views(r@) =~= spec_pair_seq_views(pairs@));
    }
    r
}

/// The result as it stands on the wire: constructor arguments as
/// `0x`-prefixed hex text, everything else as it is.
#[derive(Debug)]
pub struct WireVerificationResult {
    pub file_name: String,
    pub contract_name: String,
    pub compiler_version: String,
    pub evm_version: String,
    pub constructor_arguments: Option<String>,
    pub optimization: Option<bool>,
    pub optimization_runs: Option<usize>,
    pub contract_libraries: Vec<(String, String)>,
    pub abi: String,
    pub sources: Vec<(String, String)>,
}

/// The response as it stands on the wire: status as the digit text
/// `"0"` or `"1"`.
#[derive(Debug)]
pub struct WireVerificationResponse {
    pub message: String,
    pub status: String,
    pub result: Option<WireVerificationResult>,
}

/// Mathematical image of a wire result.
pub ghost struct WireResultV {
    pub file_name: Seq<char>,
    pub contract_name: Seq<char>,
    pub compiler_version: Seq<char>,
    pub evm_version: Seq<char>,
    pub constructor_arguments: Option<Seq<char>>,
    pub optimization: Option<bool>,
    pub optimization_runs: Option<usize>,
    pub contract_libraries: Seq<(Seq<char>, Seq<char>)>,
    pub abi: Seq<char>,
    pub sources: Seq<(Seq<char>, Seq<char>)>,
}

/// Mathematical image of a wire response.
pub ghost struct WireResponseV {
    pub message: Seq<char>,
    pub status: Seq<char>,
    pub result: Option<WireResultV>,
}

impl View for WireVerificationResult {
    type V = WireResultV;

    open spec fn view(&self) -> WireResultV {
        WireResultV {
            file_name: self.file_name@,
            contract_name: self.contract_name@,
            compiler_version: self.compiler_version@,
            evm_version: self.evm_version@,
            constructor_arguments: match self.constructor_arguments {
                Some(s) => Some(s@),
                None => None,
            },
            optimization: self.optimization,
            optimization_runs: self.optimization_runs,
            contract_libraries: spec_pair_seq_views(self.contract_libraries@),
            abi: self.abi@,
            sources: spec_pair_seq_views(self.sources@),
        }
    }
}

impl View for WireVerificationResponse {
    type V = WireResponseV;

    open spec fn view(&self) -> WireResponseV {
        WireResponseV {
            message: self.message@,
            status: self.status@,
            result: match self.result {
                Some(r) => Some(r@),
                None => None,
            },
        }
    }
}

/// Wire image of a result: the constructor argument bytes become
/// `0x`-prefixed hex text.
pub open spec fn spec_encode_result(v: ResultV) -> WireResultV {
    WireResultV {
        file_name: v.file_name,
        contract_name: v.contract_name,
        compiler_version: v.compiler_version,
        evm_version: v.evm_version,
        constructor_arguments: match v.constructor_arguments {
            Some(b) => Some(seq!['0', 'x'] + spec_hex_of_bytes(b)),
            None => None,
        },
        optimization: v.optimization,
        optimization_runs: v.optimization_runs,
        contract_libraries: v.contract_libraries,
        abi: v.abi,
        sources: v.sources,
    }
}

/// Wire image of a response: success writes status `"0"`, failure `"1"`.
pub open spec fn spec_encode(v: ResponseV) -> WireResponseV {
    WireResponseV {
        message: v.message,
        status: if v.status == VerificationStatus::Success { seq!['0'] } else { seq!['1'] },
        result: match v.result {
            Some(res) => Some(spec_encode_result(res)),
            None => None,
        },
    }
}

/// Value a wire result denotes: the hex text must carry the `0x` prefix
/// and decode cleanly, else the wire result denotes nothing.
pub open spec fn spec_decode_result(w: WireResultV) -> Option<ResultV> {
    let args = match w.constructor_arguments {
        Some(s) => {
            if s.len() >= 2 && s[0] == '0' && s[1] == 'x' {
                match spec_bytes_of_hex(s.skip(2)) {
                    Some(b) => Some(Some(b)),
                    None => None,
                }
            } else {
                None
            }
        },
        None => Some(None),
    };
    match args {
        Some(a) => Some(ResultV {
            file_name: w.file_name,
            contract_name: w.contract_name,
            compiler_version: w.compiler_version,
            evm_version: w.evm_version,
            constructor_arguments: a,
            optimization: w.optimization,
            optimization_runs: w.optimization_runs,
            contract_libraries: w.contract_libraries,
            abi: w.abi,
            sources: w.sources,
        }),
        None => None,
    }
}

/// Value a wire response denotes: status `"0"` demands a result, status
/// `"1"` demands none, and any other status text denotes nothing.
pub open spec fn spec_decode(w: WireResponseV) -> Option<ResponseV> {
    if w.status == seq!['0'] {
        match w.result {
            Some(res) => match spec_decode_result(res) {
                Some(r) => Some(ResponseV {
                    message: w.message,
                    result: Some(r),
                    status: VerificationStatus::Success,
                }),
                None => None,
            },
            None => None,
        }
    } else if w.status == seq!['1'] {
        match w.result {
            Some(_) => None,
            None => Some(ResponseV {
                message: w.message,
                result: None,
                status: VerificationStatus::Failed,
            }),
        }
    } else {
        None
    }
}

/// Serializes a result into its wire form.
pub fn encode_result(res: &VerificationResult) -> (w: WireVerificationResult)
    ensures
        w@ == spec_encode_result(res@),
{
    let constructor_arguments = match &res.constructor_arguments {
        Some(b) => {
            let mut chars: Vec<char> = Vec::new();
            chars.push('0');
            chars.push('x');
            let hex = hex_chars_of_bytes(b);
            push_chars(&mut chars, &hex);
            proof {
                assert(chars@ =~= seq!['0', 'x'] + spec_hex_of_bytes(b@));
            }
            Some(chars_to_string(&chars))
        },
        None => None,
    };
    WireVerificationResult {
        file_name: copy_string(&res.file_name),
        contract_name: copy_string(&res.contract_name),
        compiler_version: copy_string(&res.compiler_version),
        evm_version: copy_string(&res.evm_version),
        constructor_arguments,
        optimization: res.optimization,
        optimization_runs: res.optimization_runs,
        contract_libraries: copy_pairs(&res.contract_libraries),
        abi: copy_string(&res.abi),
        sources: copy_pairs(&res.sources),
    }
}

/// Serializes a response into its wire form.
pub fn encode_response(r: &VerificationResponse) -> (w: WireVerificationResponse)
    ensures
        w@ == spec_encode(r@),
{
    let status = match r.status {
        VerificationStatus::Success => {
            let mut chars: Vec<char> = Vec::new();
            chars.push('0');
            proof {
                assert(chars@ =~= seq!['0']);
            }
            chars_to_string(&chars)
        },
        VerificationStatus::Failed => {
            let mut chars: Vec<char> = Vec::new();
            chars.push('1');
            proof {
                assert(chars@ =~= seq!['1']);
            }
            chars_to_string(&chars)
        },
    };
    let result = match &r.result {
        Some(res) => Some(encode_result(res)),
        None => None,
    };
    WireVerificationResponse {
        message: copy_string(&r.message),
        status,
        result,
    }
}

/// Deserializes a wire result; `None` exactly when it denotes nothing.
pub fn decode_result(w: WireVerificationResult) -> (r: Option<VerificationResult>)
    ensures
        match r {
            Some(x) => spec_decode_result(w@) == Some(x@),
            None => spec_decode_result(w@) is None,
        },
{
    let constructor_arguments: Option<Vec<u8>> = match &w.constructor_arguments {
        Some(s) => {
            let chars = str_chars(s.as_str());
            if chars.len() < 2 {
                return None;
            }
            let c0 = chars[0];
            let c1 = chars[1];
            if !(c0 == '0' && c1 == 'x') {
                return None;
            }
            let body = sub_chars(&chars, 2, chars.len());
            proof {
                assert(body@ =~= s@.skip(2));
            }
            match bytes_of_hex_chars(&body) {
                Some(b) => Some(b),
                None => {
                    return None;
                },
            }
        },
        None => None,
    };
    Some(VerificationResult {
        file_name: w.file_name,
        contract_name: w.contract_name,
        compiler_version: w.compiler_version,
        evm_version: w.evm_version,
        constructor_arguments,
        optimization: w.optimization,
        optimization_runs: w.optimization_runs,
        contract_libraries: w.contract_libraries,
        abi: w.abi,
        sources: w.sources,
    })
}

/// Deserializes a wire response; `None` exactly when it denotes
/// nothing — an unknown status digit, or a status at odds with the
/// presence of the result.
pub fn decode_response(w: WireVerificationResponse) -> (r: Option<VerificationResponse>)
    ensures
        match r {
            Some(x) => spec_decode(w@) == Some(x@) && crate::response::status_matches_result(x),
            None => spec_decode(w@) is None,
        },
{
    let st = str_chars(w.status.as_str());
    let is_zero = st.len() == 1 && st[0] == '0';
    let is_one = st.len() == 1 && st[0] == '1';
    proof {
        assert(is_zero <==> w.status@ == seq!['0']) by {
            if st@.len() == 1 && st@[0] == '0' {
                assert(st@ =~= seq!['0']);
            }
            if w.status@ == seq!['0'] {
                assert(st@[0] == '0');
            }
        }
        assert(is_one <==> w.status@ == seq!['1']) by {
            if st@.len() == 1 && st@[0] == '1' {
                assert(st@ =~= seq!['1']);
            }
            if w.status@ == seq!['1'] {
                assert(st@[0] == '1');
            }
        }
    }
    if is_zero {
        match w.result {
            Some(res) => match decode_result(res) {
                Some(x) => Some(VerificationResponse {
                    message: w.message,
                    result: Some(x),
                    status: VerificationStatus::Success,
                }),
                None => None,
            },
            None => None,
        }
    } else if is_one {
        match w.result {
            Some(_) => None,
            None => Some(VerificationResponse {
                message: w.message,
                result: None,
                status: VerificationStatus::Failed,
            }),
        }
    } else {
        None
    }
}

/// Round trip: decoding undoes encoding. Any response whose status and
/// result agree — as every response this library builds does — comes
/// back equal from its own wire form.
pub proof fn lemma_wire_round_trip(v: ResponseV)
    requires
        spec_status_matches(v),
    ensures
        spec_decode(spec_encode(v)) == Some(v),
{
    let w = spec_encode(v);
    match v.result {
        Some(res) => {
            assert(v.status == VerificationStatus::Success);
            assert(w.status == seq!['0']);
            let we = spec_encode_result(res);
            match res.constructor_arguments {
                Some(b) => {
                    let s = seq!['0', 'x'] + spec_hex_of_bytes(b);
                    assert(s[0] == '0' && s[1] == 'x');
                    assert(s.skip(2) =~= spec_hex_of_bytes(b));
                    lemma_hex_round_trip(b);
                    assert(spec_decode_result(we) == Some(res));
                },
                None => {
                    assert(spec_decode_result(we) == Some(res));
                },
            }
            assert(spec_decode(w) == Some(v));
        },
        None => {
            assert(v.status == VerificationStatus::Failed);
            assert(w.status == seq!['1']);
            assert(seq!['1'] != seq!['0']) by {
                assert(seq!['1'][0] == '1');
                assert(seq!['0'][0] == '0');
            }
            assert(spec_decode(w) == Some(v));
        },
    }
}

} // verus!
