//! Bytecode equivalence matcher.
//!
//! Decides whether a compiled candidate contract and the caller-supplied
//! on-chain bytecode are the same contract, tolerating the differences a
//! correct recompilation is allowed to show: the trailing metadata
//! section, library-link placeholders, immutable-variable slots, and a
//! constructor-argument suffix on the creation bytecode.

use vstd::prelude::*;
use crate::bytes::{
    bytes_eq, is_prefix_of, overwrite, spec_is_prefix, spec_overwrite,
};

verus! {

/// Byte-for-byte copy of a vector.
pub fn copy_bytes(v: &Vec<u8>) -> (r: Vec<u8>)
    ensures
        r@ == v@,
{
    let mut r: Vec<u8> = Vec::new();
    let n = v.len();
    let mut i: usize = 0;
    while i < n
        invariant
            n == v.len(),
            i <= n,
            r@ == v@.take(i as int),
        decreases n - i,
    {
        r.push(v[i]);
        proof {
            assert(v@.take(i + 1) =~= v@.take(i as int).push(v@[i as int]));
        }
        i += 1;
    }
    proof {
        assert(v@.take(n as int) =~= v@);
    }
    r
}

/// Half-open byte range `[offset, offset + length)` inside a bytecode.
#[derive(Debug, Clone, Copy)]
pub struct ByteSpan {
    pub offset: usize,
    pub length: usize,
}

/// A position in a candidate's bytecode reserved for the address of an
/// externally linked library, named after that library.
#[derive(Debug, Clone)]
pub struct LinkReference {
    pub library_name: String,
    pub span: ByteSpan,
}

/// One contract produced by a compilation, with everything the matcher
/// and the result assembly read from the compiler's output.
#[derive(Debug, Clone)]
pub struct CompiledContract {
    pub file_path: String,
    pub contract_name: String,
    pub creation_code: Vec<u8>,
    pub deployed_code: Vec<u8>,
    pub abi: String,
    pub source_map: String,
    pub creation_link_references: Vec<LinkReference>,
    pub deployed_link_references: Vec<LinkReference>,
    pub immutable_references: Vec<ByteSpan>,
}

/// The contract that matched: where it was declared, its ABI, and the
/// constructor arguments recovered from the creation bytecode suffix.
#[derive(Debug, Clone)]
pub struct VerificationSuccess {
    pub file_path: String,
    pub contract_name: String,
    pub abi: String,
    pub constructor_args: Option<Vec<u8>>,
}

/// Length of the trailing metadata section of `code`, encoded big-endian
/// in its last two bytes (the two length bytes included), or 0 when the
/// encoded length does not fit in `code`.
pub open spec fn spec_metadata_len(code: Seq<u8>) -> int {
    if code.len() >= 2 {
        let m = 2 + 256 * (code[code.len() - 2] as int) + (code.last() as int);
        if m <= code.len() { m } else { 0 }
    } else {
        0
    }
}

/// `code` with its trailing metadata section removed.
pub open spec fn spec_strip_metadata(code: Seq<u8>) -> Seq<u8> {
    code.take(code.len() - spec_metadata_len(code))
}

/// Removes the trailing metadata section, going by the length encoded in
/// the last two bytes; bytecode too short to carry that section comes
/// back unchanged.
pub fn strip_metadata(code: &Vec<u8>) -> (r: Vec<u8>)
    ensures
        r@ == spec_strip_metadata(code@),
{
    let n = code.len();
    let mut keep: usize = n;
    if n >= 2 {
        let hi = code[n - 2];
        let lo = code[n - 1];
        let m: usize = 2 + 256 * (hi as usize) + (lo as usize);
        if m <= n {
            keep = n - m;
        }
    }
    let mut r: Vec<u8> = Vec::new();
    let mut i: usize = 0;
    while i < keep
        invariant
            keep <= n == code.len(),
            i <= keep,
            r@ == code@.take(i as int),
        decreases keep - i,
    {
        r.push(code[i]);
        proof {
            assert(code@.take(i + 1) =~= code@.take(i as int).push(code@[i as int]));
        }
        i += 1;
    }
    proof {
        assert(r@ =~= spec_strip_metadata(code@));
    }
    r
}

/// Whether position `i` lies inside the span `s`.
pub open spec fn spec_in_span(s: ByteSpan, i: int) -> bool {
    s.offset <= i < s.offset + s.length
}

/// Whether position `i` lies inside any of the given spans.
pub open spec fn spec_in_spans(spans: Seq<ByteSpan>, i: int) -> bool {
    exists|j: int| 0 <= j < spans.len() && spec_in_span(spans[j], i)
}

/// `code` with every byte at a position covered by one of `spans` set to
/// zero; all other bytes keep their value.
pub open spec fn spec_masked(code: Seq<u8>, spans: Seq<ByteSpan>) -> Seq<u8> {
    Seq::new(code.len(), |i: int| if spec_in_spans(spans, i) { 0u8 } else { code[i] })
}

/// Zeroes the bytes covered by `spans`, clipping each span to the code's
/// bounds.
pub fn mask_spans(code: &Vec<u8>, spans: &Vec<ByteSpan>) -> (r: Vec<u8>)
    ensures
        r@ == spec_masked(code@, spans@),
{
    let mut r: Vec<u8> = copy_bytes(code);
    let n_spans = spans.len();
    let mut j: usize = 0;
    while j < n_spans
        invariant
            n_spans == spans.len(),
            j <= n_spans,
            r@.len() == code@.len(),
            forall|i: int| 0 <= i < code@.len() ==>
                r@[i] == (if spec_in_spans(spans@.take(j as int), i) { 0u8 } else { code@[i] }),
        decreases n_spans - j,
    {
        let s = spans[j];
        let lo = if s.offset <= r.len() { s.offset } else { r.len() };
        let width = r.len() - lo;
        let hi = if s.length <= width { lo + s.length } else { r.len() };
        proof {
            assert forall|k: int| 0 <= k < code@.len() && #[trigger] spec_in_span(s, k)
                implies lo <= k < hi by {}
            assert forall|k: int| lo <= k < hi implies #[trigger] spec_in_span(s, k) by {}
        }
        let mut i: usize = lo;
        while i < hi
            invariant
                lo <= i,
                i <= hi <= r@.len(),
                r@.len() == code@.len(),
                s == spans@[j as int],
                0 <= j < spans@.len(),
                forall|k: int| 0 <= k < code@.len() && #[trigger] spec_in_span(s, k)
                    ==> lo <= k < hi,
                forall|k: int| lo <= k < hi ==> #[trigger] spec_in_span(s, k),
                forall|k: int| 0 <= k < code@.len() ==>
                    r@[k] == (
                        if spec_in_spans(spans@.take(j as int), k) || (lo <= k < i) {
                            0u8
                        } else {
                            code@[k]
                        }),
            decreases hi - i,
        {
            r.set(i, 0);
            i += 1;
        }
        proof {
            assert forall|k: int| 0 <= k < code@.len() implies
                r@[k] == (if spec_in_spans(spans@.take(j + 1), k) { 0u8 } else { code@[k] }) by {
                if spec_in_spans(spans@.take(j + 1), k) {
                    let w = choose|w: int| 0 <= w < spans@.take(j + 1).len()
                        && #[trigger] spec_in_span(spans@.take(j + 1)[w], k);
                    if w < j {
                        assert(spec_in_spans(spans@.take(j as int), k));
                    } else {
                        assert(spec_in_span(s, k));
                    }
                } else {
                    assert(!spec_in_spans(spans@.take(j as int), k)) by {
                        if spec_in_spans(spans@.take(j as int), k) {
                            let w = choose|w: int| 0 <= w < spans@.take(j as int).len()
                                && #[trigger] spec_in_span(spans@.take(j as int)[w], k);
                            assert(spec_in_span(spans@.take(j + 1)[w], k));
                        }
                    }
                    assert(!spec_in_span(s, k)) by {
                        if spec_in_span(s, k) {
                            assert(spans@.take(j + 1)[j as int] == s);
                            assert(spec_in_spans(spans@.take(j + 1), k));
                        }
                    }
                }
            }
        }
        j += 1;
    }
    proof {
        assert(spans@.take(n_spans as int) =~= spans@);
        assert(r@ =~= spec_masked(code@, spans@));
    }
    r
}

/// Name-to-address pairs as character and byte sequences.
pub open spec fn spec_libs_views(s: Seq<(String, Vec<u8>)>) -> Seq<(Seq<char>, Seq<u8>)> {
    s.map_values(|p: (String, Vec<u8>)| (p.0@, p.1@))
}

/// First address recorded for `name` in the name-to-address list, if any.
pub open spec fn spec_lookup_address(libs: Seq<(Seq<char>, Seq<u8>)>, name: Seq<char>) -> Option<Seq<u8>>
    decreases libs.len(),
{
    if libs.len() == 0 {
        None
    } else if libs[0].0 == name {
        Some(libs[0].1)
    } else {
        spec_lookup_address(libs.drop_first(), name)
    }
}

/// `code` after one link reference is resolved: when the library has a
/// supplied address of exactly the span's width and the span lies inside
/// the code, the address bytes replace the placeholder; otherwise the
/// code is unchanged.
pub open spec fn spec_apply_link(code: Seq<u8>, l: LinkReference, libs: Seq<(Seq<char>, Seq<u8>)>) -> Seq<u8> {
    match spec_lookup_address(libs, l.library_name@) {
        Some(addr) => {
            if addr.len() == l.span.length {
                spec_overwrite(code, l.span.offset as int, addr)
            } else {
                code
            }
        },
        None => code,
    }
}

/// `code` after all link references are resolved, in order.
pub open spec fn spec_substituted(code: Seq<u8>, links: Seq<LinkReference>, libs: Seq<(Seq<char>, Seq<u8>)>) -> Seq<u8>
    decreases links.len(),
{
    if links.len() == 0 {
        code
    } else {
        spec_substituted(spec_apply_link(code, links[0], libs), links.drop_first(), libs)
    }
}

/// Looks up the first address recorded under `name`.
pub fn lookup_address(libs: &Vec<(String, Vec<u8>)>, name: &String) -> (r: Option<Vec<u8>>)
    ensures
        match r {
            Some(a) => spec_lookup_address(spec_libs_views(libs@), name@) == Some(a@),
            None => spec_lookup_address(spec_libs_views(libs@), name@) is None,
        },
{
    let ghost lv = spec_libs_views(libs@);
    proof {
        assert(lv.skip(0) =~= lv);
    }
    let n = libs.len();
    let mut i: usize = 0;
    while i < n
        invariant
            n == libs.len(),
            lv == spec_libs_views(libs@),
            i <= n,
            spec_lookup_address(lv, name@) == spec_lookup_address(lv.skip(i as int), name@),
        decreases n - i,
    {
        proof {
            assert(lv.skip(i as int)[0] == lv[i as int]);
            assert(lv[i as int] == (libs@[i as int].0@, libs@[i as int].1@));
            assert(lv.skip(i as int).drop_first() =~= lv.skip(i + 1));
        }
        if libs[i].0.eq(name) {
            let r = copy_bytes(&libs[i].1);
            proof {
                assert(r@ == libs@[i as int].1@);
            }
            return Some(r);
        }
        i += 1;
    }
    None
}

/// Replaces every library-link placeholder whose library has a supplied
/// address of the right width; placeholders of unknown libraries stay as
/// they are.
pub fn substitute_links(code: &Vec<u8>, links: &Vec<LinkReference>, libs: &Vec<(String, Vec<u8>)>) -> (r: Vec<u8>)
    ensures
        r@ == spec_substituted(code@, links@, spec_libs_views(libs@)),
{
    let ghost lv = spec_libs_views(libs@);
    let mut r: Vec<u8> = copy_bytes(code);
    proof {
        assert(links@.skip(0) =~= links@);
    }
    let n = links.len();
    let mut i: usize = 0;
    while i < n
        invariant
            n == links.len(),
            i <= n,
            lv == spec_libs_views(libs@),
            spec_substituted(code@, links@, lv)
                == spec_substituted(r@, links@.skip(i as int), lv),
        decreases n - i,
    {
        proof {
            assert(links@.skip(i as int)[0] == links@[i as int]);
            assert(links@.skip(i as int).drop_first() =~= links@.skip(i + 1));
        }
        let link = &links[i];
        match lookup_address(libs, &link.library_name) {
            Some(addr) => {
                if addr.len() == link.span.length {
                    overwrite(&mut r, link.span.offset, &addr);
                }
            },
            None => {},
        }
        i += 1;
    }
    proof {
        assert(links@.skip(n as int) =~= Seq::<LinkReference>::empty());
    }
    r
}

/// Suffix of `v` from index `i` on.
pub fn suffix_from(v: &Vec<u8>, i: usize) -> (r: Vec<u8>)
    requires
        i <= v@.len(),
    ensures
        r@ == v@.skip(i as int),
{
    let mut r: Vec<u8> = Vec::new();
    let n = v.len();
    let mut k: usize = i;
    while k < n
        invariant
            i <= k <= n == v.len(),
            r@ == v@.subrange(i as int, k as int),
        decreases n - k,
    {
        r.push(v[k]);
        proof {
            assert(v@.subrange(i as int, k + 1) =~= v@.subrange(i as int, k as int).push(v@[k as int]));
        }
        k += 1;
    }
    proof {
        assert(v@.subrange(i as int, n as int) =~= v@.skip(i as int));
    }
    r
}

/// Outcome of comparing a candidate's (link-substituted) creation code
/// against the claimed creation input. `None`: no match. `Some(None)`:
/// match with no constructor arguments. `Some(Some(a))`: match, with the
/// suffix `a` recovered as the constructor arguments.
///
/// A nonempty candidate that is an exact byte-prefix of the claimed input
/// matches, with the rest of the input taken as constructor arguments;
/// otherwise the two match when they agree after their trailing metadata
/// sections are stripped, in which case no arguments are recovered.
pub open spec fn spec_creation_outcome(candidate: Seq<u8>, claimed: Seq<u8>) -> Option<Option<Seq<u8>>> {
    if candidate.len() > 0 && spec_is_prefix(candidate, claimed) {
        let args = claimed.skip(candidate.len() as int);
        if args.len() == 0 {
            Some(None)
        } else {
            Some(Some(args))
        }
    } else if spec_strip_metadata(candidate) == spec_strip_metadata(claimed) {
        Some(None)
    } else {
        None
    }
}

/// Decides the creation-bytecode comparison and recovers constructor
/// arguments.
pub fn creation_outcome(candidate: &Vec<u8>, claimed: &Vec<u8>) -> (r: Option<Option<Vec<u8>>>)
    ensures
        match r {
            None => spec_creation_outcome(candidate@, claimed@) is None,
            Some(None) => spec_creation_outcome(candidate@, claimed@) == Some(Option::<Seq<u8>>::None),
            Some(Some(a)) => spec_creation_outcome(candidate@, claimed@) == Some(Some(a@)),
        },
{
    if candidate.len() > 0 && is_prefix_of(candidate, claimed) {
        let args = suffix_from(claimed, candidate.len());
        if args.len() == 0 {
            Some(None)
        } else {
            Some(Some(args))
        }
    } else {
        let cs = strip_metadata(candidate);
        let ds = strip_metadata(claimed);
        if bytes_eq(&cs, &ds) {
            Some(None)
        } else {
            None
        }
    }
}

/// Deployed-bytecode equivalence: both sides are masked to zero at the
/// declared immutable-reference spans, stripped of their trailing
/// metadata sections, and then compared byte for byte.
pub open spec fn spec_deployed_match(candidate: Seq<u8>, claimed: Seq<u8>, spans: Seq<ByteSpan>) -> bool {
    spec_strip_metadata(spec_masked(candidate, spans))
        == spec_strip_metadata(spec_masked(claimed, spans))
}

/// Decides the deployed-bytecode comparison.
pub fn deployed_match(candidate: &Vec<u8>, claimed: &Vec<u8>, spans: &Vec<ByteSpan>) -> (r: bool)
    ensures
        r <==> spec_deployed_match(candidate@, claimed@, spans@),
{
    let a = strip_metadata(&mask_spans(candidate, spans));
    let b = strip_metadata(&mask_spans(claimed, spans));
    bytes_eq(&a, &b)
}

/// The candidate's creation code with its library placeholders resolved.
pub open spec fn spec_candidate_creation(c: CompiledContract, libs: Seq<(Seq<char>, Seq<u8>)>) -> Seq<u8> {
    spec_substituted(c.creation_code@, c.creation_link_references@, libs)
}

/// The candidate's deployed code with its library placeholders resolved.
pub open spec fn spec_candidate_deployed(c: CompiledContract, libs: Seq<(Seq<char>, Seq<u8>)>) -> Seq<u8> {
    spec_substituted(c.deployed_code@, c.deployed_link_references@, libs)
}

/// A candidate qualifies when the deployed comparison succeeds and, if
/// creation input was supplied, the creation comparison succeeds too.
pub open spec fn spec_candidate_matches(
    c: CompiledContract,
    libs: Seq<(Seq<char>, Seq<u8>)>,
    creation: Option<Vec<u8>>,
    deployed: Seq<u8>,
) -> bool {
    &&& spec_deployed_match(spec_candidate_deployed(c, libs), deployed, c.immutable_references@)
    &&& match creation {
        Some(cl) => spec_creation_outcome(spec_candidate_creation(c, libs), cl@) is Some,
        None => true,
    }
}

/// Constructor arguments recovered for a matching candidate.
pub open spec fn spec_candidate_args(
    c: CompiledContract,
    libs: Seq<(Seq<char>, Seq<u8>)>,
    creation: Option<Vec<u8>>,
) -> Option<Seq<u8>> {
    match creation {
        Some(cl) => match spec_creation_outcome(spec_candidate_creation(c, libs), cl@) {
            Some(a) => a,
            None => None,
        },
        None => None,
    }
}

/// View of optional owned bytes.
pub open spec fn spec_opt_bytes(o: Option<Vec<u8>>) -> Option<Seq<u8>> {
    match o {
        Some(v) => Some(v@),
        None => None,
    }
}

/// Checks one candidate and, on a match, returns the recovered
/// constructor arguments.
fn check_candidate(
    c: &CompiledContract,
    libs: &Vec<(String, Vec<u8>)>,
    creation: &Option<Vec<u8>>,
    deployed: &Vec<u8>,
) -> (r: Option<Option<Vec<u8>>>)
    ensures
        r is Some <==> spec_candidate_matches(*c, spec_libs_views(libs@), *creation, deployed@),
        match r {
            Some(a) => spec_opt_bytes(a) == spec_candidate_args(*c, spec_libs_views(libs@), *creation),
            None => true,
        },
{
    let dep = substitute_links(&c.deployed_code, &c.deployed_link_references, libs);
    if !deployed_match(&dep, deployed, &c.immutable_references) {
        return None;
    }
    match creation {
        Some(cl) => {
            let cre = substitute_links(&c.creation_code, &c.creation_link_references, libs);
            match creation_outcome(&cre, cl) {
                Some(a) => Some(a),
                None => None,
            }
        },
        None => Some(None),
    }
}

/// Selects the first candidate, in the order the compiler produced them,
/// whose bytecode matches the claimed creation (when supplied) and
/// deployed bytecode, and assembles the success record for it.
pub fn find_match(
    contracts: &Vec<CompiledContract>,
    libs: &Vec<(String, Vec<u8>)>,
    creation: &Option<Vec<u8>>,
    deployed: &Vec<u8>,
) -> (r: Option<VerificationSuccess>)
    ensures
        r is Some <==> exists|i: int| 0 <= i < contracts@.len()
            && spec_candidate_matches(contracts@[i], spec_libs_views(libs@), *creation, deployed@),
        match r {
            Some(s) => exists|i: int|
                {
                    &&& 0 <= i < contracts@.len()
                    &&& #[trigger] spec_candidate_matches(
                        contracts@[i], spec_libs_views(libs@), *creation, deployed@)
                    &&& forall|k: int| 0 <= k < i
                        ==> !spec_candidate_matches(
                            contracts@[k], spec_libs_views(libs@), *creation, deployed@)
                    &&& s.file_path == contracts@[i].file_path
                    &&& s.contract_name == contracts@[i].contract_name
                    &&& s.abi == contracts@[i].abi
                    &&& spec_opt_bytes(s.constructor_args)
                        == spec_candidate_args(contracts@[i], spec_libs_views(libs@), *creation)
                },
            None => true,
        },
{
    let n = contracts.len();
    let mut i: usize = 0;
    while i < n
        invariant
            n == contracts@.len(),
            i <= n,
            forall|k: int| 0 <= k < i
                ==> !spec_candidate_matches(contracts@[k], spec_libs_views(libs@), *creation, deployed@),
        decreases n - i,
    {
        let c = &contracts[i];
        match check_candidate(c, libs, creation, deployed) {
            Some(args) => {
                return Some(VerificationSuccess {
                    file_path: c.file_path.clone(),
                    contract_name: c.contract_name.clone(),
                    abi: c.abi.clone(),
                    constructor_args: args,
                });
            },
            None => {},
        }
        i += 1;
    }
    None
}

/// Prefix rule: a nonempty candidate creation bytecode followed by a
/// nonempty suffix matches, and the suffix comes back whole as the
/// constructor arguments.
pub proof fn lemma_creation_prefix_rule(candidate: Seq<u8>, args: Seq<u8>)
    requires
        candidate.len() > 0,
        args.len() > 0,
    ensures
        spec_creation_outcome(candidate, candidate + args) == Some(Some(args)),
{
    let claimed = candidate + args;
    assert(candidate =~= claimed.take(candidate.len() as int));
    assert(claimed.skip(candidate.len() as int) =~= args);
}

/// Metadata tolerance: bytecodes that agree once their trailing metadata
/// sections are stripped are reported equal, both as deployed bytecode
/// (with no immutable spans declared) and as creation bytecode.
pub proof fn lemma_metadata_tolerance(a: Seq<u8>, b: Seq<u8>)
    requires
        spec_strip_metadata(a) == spec_strip_metadata(b),
    ensures
        spec_deployed_match(a, b, Seq::<ByteSpan>::empty()),
        spec_creation_outcome(a, b) is Some,
{
    assert(spec_masked(a, Seq::<ByteSpan>::empty()) =~= a);
    assert(spec_masked(b, Seq::<ByteSpan>::empty()) =~= b);
}

/// Immutable tolerance: deployed bytecodes of one length that differ only
/// at positions covered by the declared immutable-reference spans are
/// reported equal after masking.
pub proof fn lemma_immutable_tolerance(a: Seq<u8>, b: Seq<u8>, spans: Seq<ByteSpan>)
    requires
        a.len() == b.len(),
        forall|i: int| 0 <= i < a.len() && !spec_in_spans(spans, i) ==> a[i] == b[i],
    ensures
        spec_deployed_match(a, b, spans),
{
    assert(spec_masked(a, spans) =~= spec_masked(b, spans));
}

} // verus!
