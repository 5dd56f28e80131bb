//! Compiler executable cache: one slot per catalog version, filled
//! lazily. The cache decides, per request, whether a caller can use a
//! cached executable, must wait for a download already in flight, or is
//! the one caller that starts the download. Only one download per
//! version is ever in flight; a failed download frees the slot so a
//! later request may retry. The surrounding runtime performs the actual
//! download and hands its outcome back through `complete`.

use vstd::prelude::*;

verus! {

/// State of one version's slot.
#[derive(Debug)]
pub enum CacheEntry {
    /// No executable and no download under way.
    Missing,
    /// A download is under way; its outcome will be shared by all
    /// callers that arrived while it ran.
    InFlight,
    /// The executable is cached under this local path.
    Cached(String),
}

/// What a caller must do after asking for a version's executable.
#[derive(Debug)]
pub enum CacheAction {
    /// Use the executable already cached under this path.
    UseCached(String),
    /// A download is already in flight: await its outcome; do not start
    /// another.
    AwaitInFlight,
    /// No download is in flight: this caller alone starts one and
    /// reports back through `complete`.
    StartDownload,
}

/// Outcome of a finished download.
#[derive(Debug)]
pub enum FetchOutcome {
    /// Verified and persisted under this local path.
    Fetched(String),
    /// Network failure or checksum mismatch, with its message. The slot
    /// is freed: the failure is not cached.
    FetchError(String),
}

/// Slot state after one request is admitted.
pub open spec fn spec_request_state(s: Seq<CacheEntry>, v: int) -> Seq<CacheEntry> {
    if s[v] is Missing {
        s.update(v, CacheEntry::InFlight)
    } else {
        s
    }
}

/// Whether one request for `v` in state `s` starts a download.
pub open spec fn spec_request_downloads(s: Seq<CacheEntry>, v: int) -> bool {
    s[v] is Missing
}

/// How many of `n` back-to-back requests for `v` start a download.
pub open spec fn spec_downloads_in(s: Seq<CacheEntry>, v: int, n: nat) -> int
    decreases n,
{
    if n == 0 {
        0
    } else {
        (if spec_request_downloads(s, v) { 1int } else { 0int })
            + spec_downloads_in(spec_request_state(s, v), v, (n - 1) as nat)
    }
}

/// In-memory cache of compiler executables, one slot per catalog index.
#[derive(Debug)]
pub struct CompilerCache {
    slots: Vec<CacheEntry>,
}

impl CompilerCache {
    /// Slot states, by catalog index.
    pub closed spec fn spec_slots(&self) -> Seq<CacheEntry> {
        self.slots@
    }

    /// An empty cache for `n` catalog versions.
    pub fn new(n: usize) -> (r: Self)
        ensures
            r.spec_slots().len() == n,
            forall|i: int| 0 <= i < n ==> r.spec_slots()[i] is Missing,
    {
        let mut slots: Vec<CacheEntry> = Vec::new();
        let mut i: usize = 0;
        while i < n
            invariant
                i <= n,
                slots@.len() == i,
                forall|k: int| 0 <= k < i ==> slots@[k] is Missing,
            decreases n - i,
        {
            slots.push(CacheEntry::Missing);
            i += 1;
        }
        CompilerCache { slots }
    }

    /// Admits one request for version `v` and says what the caller must
    /// do. A cached slot is returned as is; a slot with a download in
    /// flight tells the caller to wait; only a missing slot starts a
    /// download, and the slot is marked in flight so that no concurrent
    /// request starts a second one.
    pub fn request(&mut self, v: usize) -> (a: CacheAction)
        requires
            v < old(self).spec_slots().len(),
        ensures
            final(self).spec_slots() == spec_request_state(old(self).spec_slots(), v as int),
            a is StartDownload <==> spec_request_downloads(old(self).spec_slots(), v as int),
            match a {
                CacheAction::UseCached(p) => old(self).spec_slots()[v as int]
                    matches CacheEntry::Cached(q) && p@ == q@,
                CacheAction::AwaitInFlight => old(self).spec_slots()[v as int] is InFlight,
                CacheAction::StartDownload => old(self).spec_slots()[v as int] is Missing,
            },
    {
        let decided: CacheAction = match &self.slots[v] {
            CacheEntry::Missing => CacheAction::StartDownload,
            CacheEntry::InFlight => CacheAction::AwaitInFlight,
            CacheEntry::Cached(p) => {
                let chars = crate::strings::str_chars(p.as_str());
                CacheAction::UseCached(crate::strings::chars_to_string(&chars))
            },
        };
        if matches!(decided, CacheAction::StartDownload) {
            self.slots.set(v, CacheEntry::InFlight);
        } else {
            proof {
                assert(self.spec_slots() =~= spec_request_state(self.spec_slots(), v as int));
            }
        }
        decided
    }

    /// Records the shared outcome of the single download started for
    /// `v`: success caches the path every waiter will now receive;
    /// failure frees the slot, so a later request may retry — a failure
    /// is never cached.
    pub fn complete(&mut self, v: usize, outcome: FetchOutcome)
        requires
            v < old(self).spec_slots().len(),
            old(self).spec_slots()[v as int] is InFlight,
        ensures
            final(self).spec_slots().len() == old(self).spec_slots().len(),
            forall|i: int| 0 <= i < old(self).spec_slots().len() && i != v as int
                ==> final(self).spec_slots()[i] == old(self).spec_slots()[i],
            match outcome {
                FetchOutcome::Fetched(p) => final(self).spec_slots()[v as int]
                    == CacheEntry::Cached(p),
                FetchOutcome::FetchError(_) => final(self).spec_slots()[v as int] is Missing,
            },
    {
        match outcome {
            FetchOutcome::Fetched(p) => {
                self.slots.set(v, CacheEntry::Cached(p));
            },
            FetchOutcome::FetchError(_) => {
                self.slots.set(v, CacheEntry::Missing);
            },
        }
    }
}

/// Single flight: of any number of back-to-back requests for an uncached
/// version — none of whose downloads has yet completed — exactly the
/// first starts a download; every later caller waits for it. A version
/// already in flight or cached starts none.
pub proof fn lemma_single_flight(s: Seq<CacheEntry>, v: int, n: nat)
    requires
        0 <= v < s.len(),
        n > 0,
    ensures
        spec_downloads_in(s, v, n) == if s[v] is Missing { 1int } else { 0int },
    decreases n,
{
    let s1 = spec_request_state(s, v);
    assert(!(s1[v] is Missing));
    if n > 1 {
        lemma_single_flight(s1, v, (n - 1) as nat);
    } else {
        lemma_no_download_when_present(s1, v, (n - 1) as nat);
    }
}

/// A slot that is in flight or cached never starts a download, however
/// many requests arrive.
pub proof fn lemma_no_download_when_present(s: Seq<CacheEntry>, v: int, n: nat)
    requires
        0 <= v < s.len(),
        !(s[v] is Missing),
    ensures
        spec_downloads_in(s, v, n) == 0,
    decreases n,
{
    if n > 0 {
        assert(spec_request_state(s, v) == s);
        lemma_no_download_when_present(s, v, (n - 1) as nat);
    }
}

/// All waiters rendezvous on one outcome: once the single download for
/// `v` completes successfully with path `p`, every subsequent request
/// for `v` is told to use that same cached path, and none downloads.
pub proof fn lemma_waiters_share_outcome(s: Seq<CacheEntry>, v: int, p: String, n: nat)
    requires
        0 <= v < s.len(),
        s[v] == CacheEntry::Cached(p),
    ensures
        spec_downloads_in(s, v, n) == 0,
        spec_request_state(s, v) == s,
{
    lemma_no_download_when_present(s, v, n);
}

} // verus!
