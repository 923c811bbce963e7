//! Telemetry for the pattern resolution paths.
//!
//! Process-wide monotonic counters distinguish curated (known) from
//! synthesized (inferred) resolutions and accumulate inference
//! latency, plus the same split per symbol. Counters saturate at the
//! top of their range instead of wrapping, so they stay monotonic.

use vstd::prelude::*;
use vstd::string::StringExecFns;

use crate::text::str_eq;

verus! {

/// The clamp of a mathematical integer to the `u64` range.
pub open spec fn sat_u64(v: int) -> int {
    if v > u64::MAX {
        u64::MAX as int
    } else if v < 0 {
        0
    } else {
        v
    }
}

/// Saturating addition of machine counters.
fn add_sat_u64(a: u64, b: u64) -> (r: u64)
    ensures
        r == sat_u64(a + b),
{
    match a.checked_add(b) {
        Some(v) => v,
        None => u64::MAX,
    }
}

/// Resolution counters of one symbol.
#[derive(Clone, Copy, PartialEq, Eq, Structural)]
pub struct SymbolStats {
    /// Resolutions that fell back to inference.
    pub inferred: u64,
    /// Resolutions served from the curated registry.
    pub known: u64,
    /// Cumulative resolution latency, in nanoseconds.
    pub latency_ns: u64,
}

/// Process-wide telemetry: scalar counters plus per-symbol entries.
pub struct Telemetry {
    /// Resolutions served from the curated registry.
    pub known_count: u64,
    /// Resolutions that fell back to inference.
    pub inferred_count: u64,
    /// Cumulative resolution latency, in nanoseconds.
    pub total_infer_latency_ns: u64,
    /// Per-symbol counters; symbols are distinct.
    pub per_symbol: Vec<(String, SymbolStats)>,
}

/// Whether a symbol already has an entry.
pub open spec fn has_symbol(entries: Seq<(String, SymbolStats)>, symbol: Seq<char>) -> bool {
    exists|i: int| 0 <= i < entries.len() && entries[i].0@ == symbol
}

/// The entry of one resolution applied to a symbol's counters.
pub open spec fn bumped(old: SymbolStats, known: bool, latency_ns: u64) -> SymbolStats {
    SymbolStats {
        inferred: if known {
            old.inferred
        } else {
            sat_u64(old.inferred + 1) as u64
        },
        known: if known {
            sat_u64(old.known + 1) as u64
        } else {
            old.known
        },
        latency_ns: sat_u64(old.latency_ns + latency_ns) as u64,
    }
}

impl Telemetry {
    /// Symbols of the per-symbol entries are distinct.
    pub open spec fn wf(&self) -> bool {
        forall|i: int, j: int|
            0 <= i < j < self.per_symbol@.len() ==> self.per_symbol@[i].0@
                != self.per_symbol@[j].0@
    }

    /// Telemetry initialized to zero everywhere.
    pub fn new() -> (r: Telemetry)
        ensures
            r.wf(),
            r.known_count == 0,
            r.inferred_count == 0,
            r.total_infer_latency_ns == 0,
            r.per_symbol@.len() == 0,
    {
        Telemetry {
            known_count: 0,
            inferred_count: 0,
            total_infer_latency_ns: 0,
            per_symbol: Vec::new(),
        }
    }

    /// Record one resolution: bump the matching scalar counter, add
    /// the latency, and apply the same to the symbol's entry, which is
    /// created at zero when absent.
    pub fn record(&mut self, symbol: &str, known: bool, latency_ns: u64)
        requires
            old(self).wf(),
        ensures
            final(self).wf(),
            final(self).known_count == (if known {
                sat_u64(old(self).known_count + 1)
            } else {
                old(self).known_count as int
            }),
            final(self).inferred_count == (if known {
                old(self).inferred_count as int
            } else {
                sat_u64(old(self).inferred_count + 1)
            }),
            final(self).total_infer_latency_ns == sat_u64(
                old(self).total_infer_latency_ns + latency_ns,
            ),
            has_symbol(old(self).per_symbol@, symbol@) ==> {
                &&& final(self).per_symbol@.len() == old(self).per_symbol@.len()
                &&& forall|i: int|
                    0 <= i < old(self).per_symbol@.len() ==> #[trigger] final(self).per_symbol@[i]
                        == (if old(self).per_symbol@[i].0@ == symbol@ {
                        (
                            old(self).per_symbol@[i].0,
                            bumped(old(self).per_symbol@[i].1, known, latency_ns),
                        )
                    } else {
                        old(self).per_symbol@[i]
                    })
            },
            !has_symbol(old(self).per_symbol@, symbol@) ==> {
                &&& final(self).per_symbol@.len() == old(self).per_symbol@.len() + 1
                &&& forall|i: int|
                    0 <= i < old(self).per_symbol@.len() ==> #[trigger] final(self).per_symbol@[i]
                        == old(self).per_symbol@[i]
                &&& final(self).per_symbol@.last().0@ == symbol@
                &&& final(self).per_symbol@.last().1 == bumped(
                    SymbolStats { inferred: 0, known: 0, latency_ns: 0 },
                    known,
                    latency_ns,
                )
            },
    {
        if known {
            self.known_count = add_sat_u64(self.known_count, 1);
        } else {
            self.inferred_count = add_sat_u64(self.inferred_count, 1);
        }
        self.total_infer_latency_ns = add_sat_u64(self.total_infer_latency_ns, latency_ns);

        let ghost entries0 = self.per_symbol@;
        let mut i: usize = 0;
        let n: usize = self.per_symbol.len();
        while i < n
            invariant
                0 <= i <= n,
                n == self.per_symbol@.len(),
                self.per_symbol@ == entries0,
                entries0 == old(self).per_symbol@,
                forall|j: int| 0 <= j < i ==> entries0[j].0@ != symbol@,
                forall|p: int, q: int|
                    0 <= p < q < entries0.len() ==> entries0[p].0@ != entries0[q].0@,
                self.known_count == (if known {
                    sat_u64(old(self).known_count + 1)
                } else {
                    old(self).known_count as int
                }),
                self.inferred_count == (if known {
                    old(self).inferred_count as int
                } else {
                    sat_u64(old(self).inferred_count + 1)
                }),
                self.total_infer_latency_ns == sat_u64(
                    old(self).total_infer_latency_ns + latency_ns,
                ),
            decreases n - i,
        {
            if str_eq(self.per_symbol[i].0.as_str(), symbol) {
                let cur: SymbolStats = self.per_symbol[i].1;
                let name: String = self.per_symbol[i].0.clone();
                let updated: SymbolStats = SymbolStats {
                    inferred: if known {
                        cur.inferred
                    } else {
                        add_sat_u64(cur.inferred, 1)
                    },
                    known: if known {
                        add_sat_u64(cur.known, 1)
                    } else {
                        cur.known
                    },
                    latency_ns: add_sat_u64(cur.latency_ns, latency_ns),
                };
                self.per_symbol.set(i, (name, updated));
                proof {
                    assert(final(self).per_symbol@[i as int].1 == bumped(
                        entries0[i as int].1,
                        known,
                        latency_ns,
                    ));
                    assert forall|j: int|
                        0 <= j < entries0.len() && entries0[j].0@ == symbol@ implies j
                        == i as int by {
                        if j < i as int {
                            assert(entries0[j].0@ != symbol@);
                        } else if j > i as int {
                            assert(entries0[i as int].0@ != entries0[j].0@);
                        }
                    }
                }
                return ;
            }
            i = i + 1;
        }
        let fresh = bumped_fresh(known, latency_ns);
        self.per_symbol.push((String::from_str(symbol), fresh));
    }

    /// Number of symbols with a telemetry entry.
    pub fn active_symbols(&self) -> (r: usize)
        ensures
            r == self.per_symbol@.len(),
    {
        self.per_symbol.len()
    }

    /// The counters of one symbol, if any resolution touched it.
    pub fn symbol_stats(&self, symbol: &str) -> (r: Option<SymbolStats>)
        requires
            self.wf(),
        ensures
            r is Some <==> has_symbol(self.per_symbol@, symbol@),
            r matches Some(st) ==> exists|i: int|
                0 <= i < self.per_symbol@.len() && self.per_symbol@[i].0@ == symbol@
                    && #[trigger] self.per_symbol@[i].1 == st,
    {
        let mut i: usize = 0;
        let n: usize = self.per_symbol.len();
        while i < n
            invariant
                0 <= i <= n,
                n == self.per_symbol@.len(),
                forall|j: int| 0 <= j < i ==> self.per_symbol@[j].0@ != symbol@,
            decreases n - i,
        {
            if str_eq(self.per_symbol[i].0.as_str(), symbol) {
                return Some(self.per_symbol[i].1);
            }
            i = i + 1;
        }
        None
    }

    /// The mean inference latency in nanoseconds, zero before any
    /// inference.
    pub fn avg_infer_latency_ns(&self) -> (r: u64)
        ensures
            r == (if self.inferred_count > 0 {
                self.total_infer_latency_ns as int / self.inferred_count as int
            } else {
                0int
            }),
    {
        if self.inferred_count > 0 {
            self.total_infer_latency_ns / self.inferred_count
        } else {
            0
        }
    }
}

/// The counters of a new entry after its first resolution.
fn bumped_fresh(known: bool, latency_ns: u64) -> (r: SymbolStats)
    ensures
        r == bumped(SymbolStats { inferred: 0, known: 0, latency_ns: 0 }, known, latency_ns),
{
    SymbolStats {
        inferred: if known {
            0
        } else {
            1
        },
        known: if known {
            1
        } else {
            0
        },
        latency_ns,
    }
}

} // verus!
