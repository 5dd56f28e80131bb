//! Compilation input: the canonical document handed to the compiler,
//! and the two accepted request shapes that normalize into it — a flat
//! set of named files, or an already-structured standard document.
//! Normalization is pure: files are taken as given, with no path
//! rewriting. Structurally malformed request bodies never reach these
//! types; they are rejected at decode time, before normalization.

use vstd::prelude::*;
use crate::strings::chars_to_string;

verus! {

/// Optimizer settings as the compiler takes them.
#[derive(Debug)]
pub struct Optimizer {
    pub enabled: Option<bool>,
    pub runs: Option<usize>,
}

/// Compiler settings: EVM target, optimizer, and the library addresses
/// to link, grouped per source file (an empty file path stands for
/// addresses that apply to every file).
#[derive(Debug)]
pub struct Settings {
    pub evm_version: Option<String>,
    pub optimizer: Optimizer,
    pub libraries: Vec<(String, Vec<(String, String)>)>,
}

/// The canonical compiler input: ordered source files plus settings.
#[derive(Debug)]
pub struct CompilationInput {
    pub sources: Vec<(String, String)>,
    pub settings: Settings,
}

/// Flat request shape: named files and flat settings.
#[derive(Debug)]
pub struct MultiPartFiles {
    pub sources: Vec<(String, String)>,
    pub evm_version: Option<String>,
    pub optimization: Option<bool>,
    pub optimization_runs: Option<usize>,
    pub contract_libraries: Vec<(String, String)>,
}

/// Pre-structured request shape: the standard compiler document,
/// already in canonical form.
#[derive(Debug)]
pub struct StandardJson {
    pub input: CompilationInput,
}

/// Builds the canonical input from the flat shape: files are the
/// mapping literally given; the flat optimizer fields become the
/// optimizer settings; the flat library list becomes one library scope
/// under the empty file path, applying to every file.
pub fn build_from_multi_part(content: MultiPartFiles) -> (r: CompilationInput)
    ensures
        r.sources == content.sources,
        r.settings.evm_version == content.evm_version,
        r.settings.optimizer.enabled == content.optimization,
        r.settings.optimizer.runs == content.optimization_runs,
        r.settings.libraries@.len() == 1,
        r.settings.libraries@[0].0@ == Seq::<char>::empty(),
        r.settings.libraries@[0].1 == content.contract_libraries,
{
    let mut libraries: Vec<(String, Vec<(String, String)>)> = Vec::new();
    let scope = chars_to_string(&Vec::new());
    libraries.push((scope, content.contract_libraries));
    CompilationInput {
        sources: content.sources,
        settings: Settings {
            evm_version: content.evm_version,
            optimizer: Optimizer {
                enabled: content.optimization,
                runs: content.optimization_runs,
            },
            libraries,
        },
    }
}

/// Builds the canonical input from the standard document: it is taken
/// as it stands, settings and sources unchanged.
pub fn build_from_standard_json(content: StandardJson) -> (r: CompilationInput)
    ensures
        r == content.input,
{
    content.input
}

/// All library name-to-address pairs of the settings, every scope in
/// order, flattened.
pub open spec fn spec_flat_libs(scopes: Seq<(String, Vec<(String, String)>)>) -> Seq<(String, String)>
    decreases scopes.len(),
{
    if scopes.len() == 0 {
        Seq::empty()
    } else {
        scopes[0].1@ + spec_flat_libs(scopes.drop_first())
    }
}

/// Flattens the per-file library scopes into one name-to-address list.
pub fn flatten_libraries(scopes: Vec<(String, Vec<(String, String)>)>) -> (r: Vec<(String, String)>)
    ensures
        r@ == spec_flat_libs(scopes@),
{
    let mut scopes = scopes;
    let mut r: Vec<(String, String)> = Vec::new();
    let ghost all = scopes@;
    proof {
        assert(r@ + spec_flat_libs(scopes@) =~= spec_flat_libs(all));
    }
    while scopes.len() > 0
        invariant
            r@ + spec_flat_libs(scopes@) == spec_flat_libs(all),
        decreases scopes.len(),
    {
        let ghost scopes_old = scopes@;
        let scope = scopes.remove(0);
        let mut pairs = scope.1;
        proof {
            assert(scopes@ =~= scopes_old.drop_first());
            assert(spec_flat_libs(scopes_old) == pairs@ + spec_flat_libs(scopes@));
        }
        while pairs.len() > 0
            invariant
                r@ + pairs@ + spec_flat_libs(scopes@) == spec_flat_libs(all),
            decreases pairs.len(),
        {
            let ghost pairs_old = pairs@;
            let ghost r_old = r@;
            let pair = pairs.remove(0);
            r.push(pair);
            proof {
                assert(pairs@ =~= pairs_old.drop_first());
                assert(r@ =~= r_old + seq![pairs_old[0]]);
                assert(r@ + pairs@ =~= r_old + pairs_old);
                assert(r@ + pairs@ + spec_flat_libs(scopes@)
                    =~= r_old + pairs_old + spec_flat_libs(scopes@));
            }
        }
        proof {
            assert(r@ + pairs@ =~= r@);
        }
    }
    proof {
        assert(spec_flat_libs(scopes@) =~= Seq::<(String, String)>::empty());
        assert(r@ + spec_flat_libs(scopes@) =~= r@);
    }
    r
}

} // verus!
