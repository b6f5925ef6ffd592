//! How often, and how far apart, a physical gateway is looked for.
use vstd::prelude::*;

verus! {

/// The most probes of one search.
pub const MAX_ATTEMPTS: u32 = 5;

/// How long a settling search waits before its first probe.
pub const SETTLE_DELAY_MS: u64 = 1000;

/// How long a settling search waits between two probes.
pub const RETRY_DELAY_MS: u64 = 500;

/// A search for the physical gateway. A settling search gives the network time to come up.
#[derive(Clone, Copy, Debug, PartialEq, Eq, Structural)]
pub struct GatewaySearch {
    pub settle: bool,
    /// The number of probes that came back empty.
    pub attempt: u32,
}

/// What follows a probe.
#[derive(Clone, Copy, Debug, PartialEq, Eq, Structural)]
pub enum SearchStep {
    /// The gateway is known.
    Found,
    /// Wait, then probe again.
    Retry { delay_ms: u64 },
    /// There is no gateway.
    GiveUp,
}

impl GatewaySearch {
    /// Another probe is due.
    pub open spec fn wf(self) -> bool {
        self.attempt < MAX_ATTEMPTS
    }

    /// The wait before the first probe.
    pub open spec fn first_delay(self) -> u64 {
        if self.settle {
            SETTLE_DELAY_MS
        } else {
            0
        }
    }

    /// What follows a probe.
    pub open spec fn step(self, found: bool) -> SearchStep {
        if found {
            SearchStep::Found
        } else if self.attempt + 1 < MAX_ATTEMPTS {
            SearchStep::Retry {
                delay_ms: if self.settle {
                    RETRY_DELAY_MS
                } else {
                    0
                },
            }
        } else {
            SearchStep::GiveUp
        }
    }

    /// The search after an empty probe.
    pub open spec fn next(self) -> GatewaySearch {
        GatewaySearch { settle: self.settle, attempt: (self.attempt + 1) as u32 }
    }

    /// Starts a search.
    pub fn new(settle: bool) -> (r: GatewaySearch)
        ensures
            r == (GatewaySearch { settle, attempt: 0 }),
            r.wf(),
    {
        GatewaySearch { settle, attempt: 0 }
    }

    /// How long to wait before the first probe.
    pub fn initial_delay_ms(&self) -> (r: u64)
        ensures
            r == self.first_delay(),
    {
        if self.settle {
            SETTLE_DELAY_MS
        } else {
            0
        }
    }

    /// Takes the outcome of a probe and says what follows.
    pub fn after_probe(&mut self, found: bool) -> (r: SearchStep)
        requires
            old(self).wf(),
        ensures
            r == old(self).step(found),
            r is Retry ==> *final(self) == old(self).next() && final(self).wf(),
            !(r is Retry) ==> *final(self) == *old(self),
    {
        if found {
            return SearchStep::Found;
        }
        if self.attempt + 1 < MAX_ATTEMPTS {
            self.attempt = self.attempt + 1;
            SearchStep::Retry {
                delay_ms: if self.settle {
                    RETRY_DELAY_MS
                } else {
                    0
                },
            }
        } else {
            SearchStep::GiveUp
        }
    }
}

/// What a search comes to.
pub struct SearchRun {
    pub found: bool,
    pub probes: nat,
    pub waited_ms: nat,
}

/// What becomes of the search `s` where the probe with number `i`, counted from zero over the whole
/// search, finds the gateway if `outcomes[i]`.
pub open spec fn run_search(s: GatewaySearch, outcomes: spec_fn(int) -> bool) -> SearchRun
    decreases MAX_ATTEMPTS - s.attempt,
{
    match s.step(outcomes(s.attempt as int)) {
        SearchStep::Found => SearchRun { found: true, probes: 1, waited_ms: 0 },
        SearchStep::GiveUp => SearchRun { found: false, probes: 1, waited_ms: 0 },
        SearchStep::Retry { delay_ms } => {
            let rest: SearchRun = run_search(s.next(), outcomes);
            SearchRun {
                found: rest.found,
                probes: rest.probes + 1,
                waited_ms: rest.waited_ms + delay_ms as nat,
            }
        },
    }
}

proof fn lemma_run_search(s: GatewaySearch, outcomes: spec_fn(int) -> bool)
    requires
        s.wf(),
    ensures
        ({
            let run: SearchRun = run_search(s, outcomes);
            &&& 1 <= run.probes <= MAX_ATTEMPTS - s.attempt
            &&& run.waited_ms == (if s.settle {
                RETRY_DELAY_MS as int * (run.probes - 1)
            } else {
                0
            })
            &&& run.found <==> exists|i: int| s.attempt <= i < MAX_ATTEMPTS && #[trigger] outcomes(i)
            &&& run.found ==> outcomes(s.attempt + run.probes - 1)
            &&& forall|i: int|
                s.attempt <= i < s.attempt + run.probes - 1 ==> !#[trigger] outcomes(i)
            &&& !run.found ==> run.probes == MAX_ATTEMPTS - s.attempt
        }),
    decreases MAX_ATTEMPTS - s.attempt,
{
    let run: SearchRun = run_search(s, outcomes);
    if s.step(outcomes(s.attempt as int)) is Retry {
        lemma_run_search(s.next(), outcomes);
        let rest: SearchRun = run_search(s.next(), outcomes);
        assert(run.probes == rest.probes + 1);
        if exists|i: int| s.attempt <= i < MAX_ATTEMPTS && #[trigger] outcomes(i) {
            let i: int = choose|i: int| s.attempt <= i < MAX_ATTEMPTS && #[trigger] outcomes(i);
            assert(i >= s.next().attempt);
        }
    }
}

/// A search ends after five probes at most. It finds the gateway if and only if one of the first
/// five probes does, and stops at the first that does. A settling search waits a second, and half
/// a second more between each two probes: three seconds at most. Another does not wait.
pub proof fn law_search_bounded(settle: bool, outcomes: spec_fn(int) -> bool)
    ensures
        ({
            let s: GatewaySearch = GatewaySearch { settle, attempt: 0 };
            let run: SearchRun = run_search(s, outcomes);
            let waited: nat = s.first_delay() as nat + run.waited_ms;
            &&& 1 <= run.probes <= 5
            &&& run.found <==> exists|i: int| 0 <= i < 5 && #[trigger] outcomes(i)
            &&& run.found ==> outcomes(run.probes - 1)
            &&& forall|i: int| 0 <= i < run.probes - 1 ==> !#[trigger] outcomes(i)
            &&& !run.found ==> run.probes == 5
            &&& settle ==> waited == 1000 + 500 * (run.probes - 1) && waited <= 3000
            &&& !settle ==> waited == 0
        }),
{
    lemma_run_search(GatewaySearch { settle, attempt: 0 }, outcomes);
}

} // verus!
