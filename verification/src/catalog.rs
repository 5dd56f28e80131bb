//! Catalog of known compiler versions: populated once at startup from a
//! remote listing, read-only afterwards. Each version carries a download
//! descriptor used lazily when its executable is first needed. Entries
//! are kept sorted in descending version order, so the version listing
//! is strictly descending and equal versions stand adjacent.

use vstd::prelude::*;
use vstd::multiset::Multiset;
use crate::version::{
    CompilerVersion, spec_version_le, spec_version_chars, spec_parse_version,
    lemma_version_le_total, lemma_version_le_trans, lemma_version_le_refl,
    version_le, parse_version,
};

verus! {

/// Where a version's compiler executable can be obtained, and the
/// checksum the download must hash to.
#[derive(Debug, Clone)]
pub struct DownloadDescriptor {
    pub url: String,
    pub checksum: Vec<u8>,
}

/// Descending order over catalog entries, by version.
pub open spec fn spec_entries_sorted(s: Seq<(CompilerVersion, DownloadDescriptor)>) -> bool {
    forall|i: int, j: int| 0 <= i < j < s.len() ==> spec_version_le(s[j].0, s[i].0)
}

/// Sorts catalog entries in descending version order; the result holds
/// exactly the given entries.
pub fn sort_entries_descending(
    input: Vec<(CompilerVersion, DownloadDescriptor)>,
) -> (r: Vec<(CompilerVersion, DownloadDescriptor)>)
    ensures
        spec_entries_sorted(r@),
        r@.to_multiset() == input@.to_multiset(),
{
    broadcast use vstd::seq_lib::group_to_multiset_ensures;

    let mut pool = input;
    let mut out: Vec<(CompilerVersion, DownloadDescriptor)> = Vec::new();
    let ghost all = pool@.to_multiset();
    proof {
        assert(out@.to_multiset().add(pool@.to_multiset()) =~= all);
    }
    while pool.len() > 0
        invariant
            out@.to_multiset().add(pool@.to_multiset()) == all,
            spec_entries_sorted(out@),
            forall|a: int, b: int| 0 <= a < out@.len() && 0 <= b < pool@.len()
                ==> spec_version_le(pool@[b].0, out@[a].0),
        decreases pool.len(),
    {
        let n = pool.len();
        let mut m: usize = 0;
        let mut k: usize = 1;
        proof {
            lemma_version_le_refl(pool@[0].0);
        }
        while k < n
            invariant
                n == pool.len(),
                m < n,
                k <= n,
                forall|j: int| 0 <= j < k ==> spec_version_le(pool@[j].0, pool@[m as int].0),
            decreases n - k,
        {
            if !version_le(&pool[k].0, &pool[m].0) {
                proof {
                    lemma_version_le_total(pool@[k as int].0, pool@[m as int].0);
                    assert forall|j: int| 0 <= j < k + 1
                        implies spec_version_le(pool@[j].0, pool@[k as int].0) by {
                        if j < k {
                            lemma_version_le_trans(pool@[j].0, pool@[m as int].0, pool@[k as int].0);
                        } else {
                            lemma_version_le_refl(pool@[k as int].0);
                        }
                    }
                }
                m = k;
            }
            k += 1;
        }
        let ghost pool_old = pool@;
        let x = pool.remove(m);
        let ghost out_old = out@;
        out.push(x);
        proof {
            pool_old.to_multiset_ensures();
            out_old.to_multiset_ensures();
            assert(pool_old.contains(x)) by {
                assert(pool_old[m as int] == x);
            }
            assert(pool_old.to_multiset().count(x) > 0);
            assert(pool@.to_multiset() =~= pool_old.to_multiset().remove(x));
            assert(out@.to_multiset() =~= out_old.to_multiset().insert(x));
            assert(out@.to_multiset().add(pool@.to_multiset()) =~= all);
            assert forall|a: int, b: int|
                0 <= a < out@.len() && 0 <= b < pool@.len()
                implies spec_version_le(pool@[b].0, out@[a].0) by {
                assert(pool@[b] == (if b < m { pool_old[b] } else { pool_old[b + 1] }));
                if a < out_old.len() {
                    assert(out@[a] == out_old[a]);
                } else {
                    assert(out@[a] == x);
                }
            }
            assert(spec_entries_sorted(out@)) by {
                assert forall|i: int, j: int| 0 <= i < j < out@.len()
                    implies spec_version_le(out@[j].0, out@[i].0) by {
                    if j < out_old.len() {
                        assert(out@[i] == out_old[i] && out@[j] == out_old[j]);
                    } else {
                        assert(out@[j] == x);
                        assert(out@[i] == out_old[i]);
                    }
                }
            }
        }
    }
    proof {
        assert(pool@.to_multiset() =~= Multiset::<(CompilerVersion, DownloadDescriptor)>::empty());
        assert(out@.to_multiset() =~= all);
    }
    out
}

/// Whether a version carries exactly the parsed components `(m, n, p, c)`.
pub open spec fn spec_version_has_components(
    v: CompilerVersion,
    m: int,
    n: int,
    p: int,
    c: Seq<char>,
) -> bool {
    v.major as int == m && v.minor as int == n && v.patch as int == p && v.commit@ == c
}

/// The set of known compiler versions, each with its download
/// descriptor, in descending version order.
#[derive(Debug)]
pub struct VersionCatalog {
    entries: Vec<(CompilerVersion, DownloadDescriptor)>,
}

impl VersionCatalog {
    /// Catalog entries, in order.
    pub closed spec fn spec_entries(&self) -> Seq<(CompilerVersion, DownloadDescriptor)> {
        self.entries@
    }

    /// The catalog keeps its entries sorted in descending version order.
    pub open spec fn wf(&self) -> bool {
        spec_entries_sorted(self.spec_entries())
    }

    /// Builds a catalog from the fetched listing, sorting it descending.
    pub fn new(listing: Vec<(CompilerVersion, DownloadDescriptor)>) -> (r: Self)
        ensures
            r.wf(),
            r.spec_entries().to_multiset() == listing@.to_multiset(),
    {
        VersionCatalog { entries: sort_entries_descending(listing) }
    }

    /// Number of known versions.
    pub fn len(&self) -> (n: usize)
        ensures
            n == self.spec_entries().len(),
    {
        self.entries.len()
    }

    /// The version at an index.
    pub fn version_at(&self, i: usize) -> (v: &CompilerVersion)
        requires
            i < self.spec_entries().len(),
        ensures
            *v == self.spec_entries()[i as int].0,
    {
        &self.entries[i].0
    }

    /// The download descriptor at an index.
    pub fn descriptor_at(&self, i: usize) -> (d: &DownloadDescriptor)
        requires
            i < self.spec_entries().len(),
        ensures
            *d == self.spec_entries()[i as int].1,
    {
        &self.entries[i].1
    }

    /// The canonical text of every known version, in catalog order —
    /// descending, with equal versions adjacent.
    pub fn list_versions(&self) -> (r: Vec<String>)
        ensures
            r@.len() == self.spec_entries().len(),
            forall|i: int| 0 <= i < r@.len()
                ==> r@[i]@ == spec_version_chars(self.spec_entries()[i].0),
    {
        let mut r: Vec<String> = Vec::new();
        let n = self.entries.len();
        let mut i: usize = 0;
        while i < n
            invariant
                n == self.spec_entries().len(),
                i <= n,
                r@.len() == i,
                forall|k: int| 0 <= k < i
                    ==> r@[k]@ == spec_version_chars(self.spec_entries()[k].0),
            decreases n - i,
        {
            r.push(self.entries[i].0.to_version_string());
            i += 1;
        }
        r
    }

    /// Resolves a requested version string to a catalog index: the text
    /// must be a well-formed version whose components equal those of a
    /// known version exactly (a leading `v` may be left off). `None`
    /// exactly when the text is malformed or no entry carries those
    /// components; the first carrying entry wins.
    pub fn resolve(&self, requested: &str) -> (r: Option<usize>)
        ensures
            match r {
                Some(i) => {
                    &&& i < self.spec_entries().len()
                    &&& spec_parse_version(requested@) matches Some((m, n, p, c))
                        && spec_version_has_components(self.spec_entries()[i as int].0, m, n, p, c)
                        && forall|k: int| 0 <= k < i ==> !spec_version_has_components(
                            self.spec_entries()[k].0, m, n, p, c)
                },
                None => {
                    ||| spec_parse_version(requested@) is None
                    ||| (spec_parse_version(requested@) matches Some((m, n, p, c))
                        && forall|k: int| 0 <= k < self.spec_entries().len()
                            ==> !spec_version_has_components(self.spec_entries()[k].0, m, n, p, c))
                },
            },
    {
        let parsed = match parse_version(requested) {
            Some(v) => v,
            None => { return None; },
        };
        let n = self.entries.len();
        let mut i: usize = 0;
        while i < n
            invariant
                n == self.spec_entries().len(),
                i <= n,
                spec_parse_version(requested@) == Some((
                    parsed.major as int,
                    parsed.minor as int,
                    parsed.patch as int,
                    parsed.commit@,
                )),
                forall|k: int| 0 <= k < i ==> !spec_version_has_components(
                    self.spec_entries()[k].0,
                    parsed.major as int,
                    parsed.minor as int,
                    parsed.patch as int,
                    parsed.commit@,
                ),
            decreases n - i,
        {
            let v = &self.entries[i].0;
            if v.major == parsed.major && v.minor == parsed.minor && v.patch == parsed.patch
                && v.commit.eq(&parsed.commit) {
                return Some(i);
            }
            i += 1;
        }
        None
    }
}

} // verus!
