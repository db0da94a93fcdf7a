//! Soft limits on a scan: how many entries it keeps, how much memory they are estimated to
//! take, how many issue details it records and how long it runs.
use vstd::prelude::*;
use vstd::string::StringSliceAdditionalSpecFns;

use crate::config::ScanBudgetLimits;
use crate::evidence::ScanIssue;
use crate::identity::HardlinkOwner;
use crate::model::ScanEntry;
use crate::sort::{sort_by_le, sorted_by_le};

verus! {

/// A scan limit that was reached, with what was observed.
#[derive(Debug, Clone, Copy, PartialEq, Eq, Structural)]
pub enum ScanBudgetExceeded {
    EntryCount { limit: u64, observed: u64 },
    ElapsedTime { limit_millis: u64, observed_millis: u64 },
    EstimatedMemory { limit_bytes: u64, observed_bytes: u64 },
    IssueDetails { limit: u64, observed: u64 },
}

/// The order in which exceeded limits are reported.
pub open spec fn exceeded_rank(e: ScanBudgetExceeded) -> int {
    match e {
        ScanBudgetExceeded::EntryCount { .. } => 0,
        ScanBudgetExceeded::ElapsedTime { .. } => 1,
        ScanBudgetExceeded::EstimatedMemory { .. } => 2,
        ScanBudgetExceeded::IssueDetails { .. } => 3,
    }
}

pub open spec fn exceeded_le() -> spec_fn(ScanBudgetExceeded, ScanBudgetExceeded) -> bool {
    |a: ScanBudgetExceeded, b: ScanBudgetExceeded| exceeded_rank(a) <= exceeded_rank(b)
}

fn exceeded_le_exec(a: &ScanBudgetExceeded, b: &ScanBudgetExceeded) -> (res: bool)
    ensures
        res == exceeded_le()(*a, *b),
{
    let ra: u8 = match a {
        ScanBudgetExceeded::EntryCount { .. } => 0,
        ScanBudgetExceeded::ElapsedTime { .. } => 1,
        ScanBudgetExceeded::EstimatedMemory { .. } => 2,
        ScanBudgetExceeded::IssueDetails { .. } => 3,
    };
    let rb: u8 = match b {
        ScanBudgetExceeded::EntryCount { .. } => 0,
        ScanBudgetExceeded::ElapsedTime { .. } => 1,
        ScanBudgetExceeded::EstimatedMemory { .. } => 2,
        ScanBudgetExceeded::IssueDetails { .. } => 3,
    };
    ra <= rb
}

/// A failure met while scanning, with the path it concerns.
#[derive(Debug, Clone, PartialEq, Eq)]
pub struct ScanError {
    pub path: Option<String>,
    pub message: String,
}

/// `a + b`, or the largest `u64` where that does not fit.
pub open spec fn sat_add(a: int, b: int) -> int {
    if a + b > u64::MAX {
        u64::MAX as int
    } else {
        a + b
    }
}

/// A size in bytes as a `u64`, or the largest `u64` where it does not fit.
pub open spec fn clamp_u64(n: int) -> int {
    if n > u64::MAX {
        u64::MAX as int
    } else {
        n
    }
}

/// The length in bytes of the text `s`.
pub open spec fn byte_len(s: Seq<char>) -> int {
    vstd::utf8::encode_utf8(s).len() as int
}

/// What one kept entry costs apart from its path: the entry twice over (to cover spare vector
/// capacity), a hard-link owner record, a parent link, a child count, a ready-queue slot and a
/// map node allowance.
pub open spec fn entry_fixed_bytes() -> int {
    clamp_u64(
        (2 * vstd::layout::size_of::<ScanEntry>() + vstd::layout::size_of::<HardlinkOwner>()
            + vstd::layout::size_of::<Option<usize>>() + 2 * vstd::layout::size_of::<usize>() + 64) as int,
    )
}

/// The estimated memory of keeping an entry at `path`: its fixed cost and its path twice.
pub open spec fn entry_bytes(path: Seq<char>) -> int {
    sat_add(entry_fixed_bytes(), clamp_u64(2 * byte_len(path)))
}

fn size_as_u64(n: usize) -> (res: u64)
    ensures
        res == clamp_u64(n as int),
{
    if n as u128 > u64::MAX as u128 {
        u64::MAX
    } else {
        n as u64
    }
}

fn double_sat(n: u64) -> (res: u64)
    ensures
        res == clamp_u64(2 * n),
{
    if n > u64::MAX / 2 {
        u64::MAX
    } else {
        2 * n
    }
}

/// A conservative estimate of the memory that keeping an entry at `path` takes. It is not the
/// resident size: it covers the entry, its path, and the linear bookkeeping of a scan.
pub fn estimated_entry_memory_bytes(path: &str) -> (res: u64)
    ensures
        res == entry_bytes(path@),
{
    let entry = size_as_u64(core::mem::size_of::<ScanEntry>());
    let owner = size_as_u64(core::mem::size_of::<HardlinkOwner>());
    let link = size_as_u64(core::mem::size_of::<Option<usize>>());
    let word = size_as_u64(core::mem::size_of::<usize>());
    let fixed: u128 = 2 * (entry as u128) + (owner as u128) + (link as u128) + 2 * (word as u128) + 64;
    proof {
        assert(vstd::layout::size_of::<ScanEntry>() <= u64::MAX) by {
            assert(core::mem::size_of::<ScanEntry>() as nat == vstd::layout::size_of::<ScanEntry>());
        }
    }
    let fixed64: u64 = if fixed > u64::MAX as u128 { u64::MAX } else { fixed as u64 };
    let path_bytes = size_as_u64(path.as_bytes().len());
    fixed64.saturating_add(double_sat(path_bytes))
}

/// Tracks a scan against its limits. Once a limit stops the scan, `stopped` stays set.
#[derive(Debug, Clone)]
pub struct ScanBudgetTracker {
    pub limits: ScanBudgetLimits,
    pub observed_entries: u64,
    pub estimated_memory_bytes: u64,
    pub issue_details_observed: u64,
    pub error_count: usize,
    pub stopped: bool,
    pub exceeded: Vec<ScanBudgetExceeded>,
}

impl ScanBudgetTracker {
    /// A tracker for a scan under `limits` that has seen nothing yet.
    pub fn new(limits: ScanBudgetLimits) -> (res: Self)
        ensures
            res.limits == limits,
            res.observed_entries == 0,
            res.estimated_memory_bytes == 0,
            res.issue_details_observed == 0,
            res.error_count == 0,
            !res.stopped,
            res.exceeded@.len() == 0,
    {
        ScanBudgetTracker {
            limits,
            observed_entries: 0,
            estimated_memory_bytes: 0,
            issue_details_observed: 0,
            error_count: 0,
            stopped: false,
            exceeded: Vec::new(),
        }
    }

    /// Record that the scan has run `elapsed_millis`; whether it must stop. Reaching the time
    /// limit records it, keeping the longest time observed.
    pub fn check_elapsed(&mut self, elapsed_millis: u64) -> (res: bool)
        ensures
            res == final(self).stopped,
            final(self).limits == old(self).limits,
            final(self).observed_entries == old(self).observed_entries,
            final(self).estimated_memory_bytes == old(self).estimated_memory_bytes,
            final(self).issue_details_observed == old(self).issue_details_observed,
            final(self).error_count == old(self).error_count,
            old(self).limits.elapsed_millis == 0 || elapsed_millis < old(self).limits.elapsed_millis ==> {
                &&& final(self).stopped == old(self).stopped
                &&& final(self).exceeded@ == old(self).exceeded@
            },
            old(self).limits.elapsed_millis != 0 && elapsed_millis >= old(self).limits.elapsed_millis ==> {
                &&& final(self).stopped
                &&& final(self).exceeded@ == upserted_elapsed(old(self).exceeded@, old(self).limits.elapsed_millis, elapsed_millis)
            },
    {
        if self.limits.elapsed_millis == 0 {
            return self.stopped;
        }
        if elapsed_millis >= self.limits.elapsed_millis {
            self.upsert_elapsed(elapsed_millis);
            self.stopped = true;
        }
        self.stopped
    }

    /// Count one more entry and charge its memory; whether it may be kept. Exceeding the entry
    /// or memory limit records it and stops the scan.
    pub fn retain_entry(&mut self, path: &str) -> (res: bool)
        ensures
            final(self).limits == old(self).limits,
            final(self).issue_details_observed == old(self).issue_details_observed,
            final(self).error_count == old(self).error_count,
            final(self).observed_entries == sat_add(old(self).observed_entries as int, 1),
            ({
                let observed = sat_add(old(self).observed_entries as int, 1);
                let projected = sat_add(old(self).estimated_memory_bytes as int, entry_bytes(path@));
                let limits = old(self).limits;
                if limits.entries != 0 && observed > limits.entries {
                    &&& !res
                    &&& final(self).stopped
                    &&& final(self).estimated_memory_bytes == old(self).estimated_memory_bytes
                    &&& final(self).exceeded@ == old(self).exceeded@.push(ScanBudgetExceeded::EntryCount { limit: limits.entries, observed: observed as u64 })
                } else if limits.estimated_memory_bytes != 0 && projected > limits.estimated_memory_bytes {
                    &&& !res
                    &&& final(self).stopped
                    &&& final(self).estimated_memory_bytes == old(self).estimated_memory_bytes
                    &&& final(self).exceeded@ == old(self).exceeded@.push(ScanBudgetExceeded::EstimatedMemory { limit_bytes: limits.estimated_memory_bytes, observed_bytes: projected as u64 })
                } else {
                    &&& res
                    &&& final(self).stopped == old(self).stopped
                    &&& final(self).estimated_memory_bytes == projected
                    &&& final(self).exceeded@ == old(self).exceeded@
                }
            }),
    {
        self.observed_entries = self.observed_entries.saturating_add(1);
        if self.limits.entries != 0 && self.observed_entries > self.limits.entries {
            self.exceeded.push(ScanBudgetExceeded::EntryCount { limit: self.limits.entries, observed: self.observed_entries });
            self.stopped = true;
            return false;
        }
        let projected = self.estimated_memory_bytes.saturating_add(estimated_entry_memory_bytes(path));
        if self.limits.estimated_memory_bytes != 0 && projected > self.limits.estimated_memory_bytes {
            self.exceeded.push(ScanBudgetExceeded::EstimatedMemory { limit_bytes: self.limits.estimated_memory_bytes, observed_bytes: projected });
            self.stopped = true;
            return false;
        }
        self.estimated_memory_bytes = projected;
        true
    }

    /// Count one more issue detail, and one more error where it carries one, and charge its
    /// memory; whether the detail may be kept. Past the detail limit it is dropped; exceeding
    /// the memory limit records it and stops the scan.
    pub fn record_detail(&mut self, issue: &ScanIssue, error: Option<&ScanError>) -> (res: bool)
        ensures
            final(self).limits == old(self).limits,
            final(self).observed_entries == old(self).observed_entries,
            final(self).issue_details_observed == sat_add(old(self).issue_details_observed as int, 1),
            final(self).error_count == if error is Some { if old(self).error_count == usize::MAX { usize::MAX as int } else { old(self).error_count + 1 } } else { old(self).error_count as int },
            ({
                let observed = sat_add(old(self).issue_details_observed as int, 1);
                let projected = sat_add(old(self).estimated_memory_bytes as int, detail_bytes(*issue, error));
                let limits = old(self).limits;
                if limits.issue_details != 0 && observed > limits.issue_details {
                    &&& !res
                    &&& final(self).stopped == old(self).stopped
                    &&& final(self).estimated_memory_bytes == old(self).estimated_memory_bytes
                    &&& final(self).exceeded@ == old(self).exceeded@
                } else if limits.estimated_memory_bytes != 0 && projected > limits.estimated_memory_bytes {
                    &&& !res
                    &&& final(self).stopped
                    &&& final(self).estimated_memory_bytes == old(self).estimated_memory_bytes
                    &&& final(self).exceeded@ == old(self).exceeded@.push(ScanBudgetExceeded::EstimatedMemory { limit_bytes: limits.estimated_memory_bytes, observed_bytes: projected as u64 })
                } else {
                    &&& res
                    &&& final(self).stopped == old(self).stopped
                    &&& final(self).estimated_memory_bytes == projected
                    &&& final(self).exceeded@ == old(self).exceeded@
                }
            }),
    {
        self.issue_details_observed = self.issue_details_observed.saturating_add(1);
        if error.is_some() {
            self.error_count = self.error_count.saturating_add(1);
        }
        if self.limits.issue_details != 0 && self.issue_details_observed > self.limits.issue_details {
            return false;
        }
        let bytes = issue_detail_bytes(issue, error);
        let projected = self.estimated_memory_bytes.saturating_add(bytes);
        if self.limits.estimated_memory_bytes != 0 && projected > self.limits.estimated_memory_bytes {
            self.exceeded.push(ScanBudgetExceeded::EstimatedMemory { limit_bytes: self.limits.estimated_memory_bytes, observed_bytes: projected });
            self.stopped = true;
            return false;
        }
        self.estimated_memory_bytes = projected;
        true
    }

    /// Record the time limit as exceeded at `observed_millis`, keeping the longest time seen.
    fn upsert_elapsed(&mut self, observed_millis: u64)
        ensures
            final(self).limits == old(self).limits,
            final(self).observed_entries == old(self).observed_entries,
            final(self).estimated_memory_bytes == old(self).estimated_memory_bytes,
            final(self).issue_details_observed == old(self).issue_details_observed,
            final(self).error_count == old(self).error_count,
            final(self).stopped == old(self).stopped,
            final(self).exceeded@ == upserted_elapsed(old(self).exceeded@, old(self).limits.elapsed_millis, observed_millis),
    {
        let mut i: usize = 0;
        while i < self.exceeded.len()
            invariant
                i <= self.exceeded@.len(),
                *self == *old(self),
                forall|k: int| 0 <= k < i ==> !(self.exceeded@[k] is ElapsedTime),
            decreases self.exceeded.len() - i,
        {
            if let ScanBudgetExceeded::ElapsedTime { limit_millis, observed_millis: observed } = self.exceeded[i] {
                let longest = if observed >= observed_millis { observed } else { observed_millis };
                self.exceeded.set(i, ScanBudgetExceeded::ElapsedTime { limit_millis, observed_millis: longest });
                proof {
                    assert(first_elapsed(old(self).exceeded@) == Some(i as int)) by {
                        lemma_first_elapsed(old(self).exceeded@, i as int);
                    }
                }
                return;
            }
            i = i + 1;
        }
        proof {
            lemma_no_elapsed(old(self).exceeded@);
        }
        self.exceeded.push(ScanBudgetExceeded::ElapsedTime { limit_millis: self.limits.elapsed_millis, observed_millis });
    }

    /// Close the scan's accounting: record an exceeded detail limit, and hand out every
    /// exceeded limit ordered by kind, leaving none behind.
    pub fn finish(&mut self) -> (res: Vec<ScanBudgetExceeded>)
        ensures
            final(self).exceeded@.len() == 0,
            final(self).limits == old(self).limits,
            final(self).stopped == old(self).stopped,
            final(self).observed_entries == old(self).observed_entries,
            final(self).issue_details_observed == old(self).issue_details_observed,
            sorted_by_le(res@, exceeded_le()),
            res@.to_multiset() == finished_exceeded(*old(self)).to_multiset(),
    {
        if self.limits.issue_details != 0 && self.issue_details_observed > self.limits.issue_details {
            self.exceeded.push(ScanBudgetExceeded::IssueDetails { limit: self.limits.issue_details, observed: self.issue_details_observed });
        }
        let mut taken: Vec<ScanBudgetExceeded> = Vec::new();
        std::mem::swap(&mut taken, &mut self.exceeded);
        sort_by_le(taken, exceeded_le_exec, Ghost(exceeded_le()))
    }
}

/// The exceeded limits a finished scan reports, before ordering.
pub open spec fn finished_exceeded(t: ScanBudgetTracker) -> Seq<ScanBudgetExceeded> {
    if t.limits.issue_details != 0 && t.issue_details_observed > t.limits.issue_details {
        t.exceeded@.push(ScanBudgetExceeded::IssueDetails { limit: t.limits.issue_details, observed: t.issue_details_observed })
    } else {
        t.exceeded@
    }
}

/// The position of the first recorded time limit, if any.
pub open spec fn first_elapsed(v: Seq<ScanBudgetExceeded>) -> Option<int> {
    if exists|k: int| 0 <= k < v.len() && v[k] is ElapsedTime {
        Some(choose|k: int| 0 <= k < v.len() && v[k] is ElapsedTime && forall|j: int| 0 <= j < k ==> !(v[j] is ElapsedTime))
    } else {
        None
    }
}

/// `v` with its first recorded time limit raised to `observed` where that is longer, or with a
/// time limit of `limit` at `observed` added where there is none.
pub open spec fn upserted_elapsed(v: Seq<ScanBudgetExceeded>, limit: u64, observed: u64) -> Seq<ScanBudgetExceeded> {
    match first_elapsed(v) {
        Some(i) => match v[i] {
            ScanBudgetExceeded::ElapsedTime { limit_millis, observed_millis } => v.update(i, ScanBudgetExceeded::ElapsedTime {
                limit_millis,
                observed_millis: if observed_millis >= observed { observed_millis } else { observed },
            }),
            _ => v,
        },
        None => v.push(ScanBudgetExceeded::ElapsedTime { limit_millis: limit, observed_millis: observed }),
    }
}

proof fn lemma_first_elapsed(v: Seq<ScanBudgetExceeded>, i: int)
    requires
        0 <= i < v.len(),
        v[i] is ElapsedTime,
        forall|k: int| 0 <= k < i ==> !(v[k] is ElapsedTime),
    ensures
        first_elapsed(v) == Some(i),
{
    assert(exists|k: int| 0 <= k < v.len() && v[k] is ElapsedTime);
    let c = choose|k: int| 0 <= k < v.len() && v[k] is ElapsedTime && forall|j: int| 0 <= j < k ==> !(v[j] is ElapsedTime);
    assert(c == i) by {
        if c < i {
            assert(!(v[c] is ElapsedTime));
        }
        if c > i {
            assert(!(v[i] is ElapsedTime));
        }
    }
}

proof fn lemma_no_elapsed(v: Seq<ScanBudgetExceeded>)
    requires
        forall|k: int| 0 <= k < v.len() ==> !(v[k] is ElapsedTime),
    ensures
        first_elapsed(v) is None,
{
}

/// What a kept issue detail costs: the issue and its path, and with an error, the error, its
/// path and its message.
pub open spec fn detail_bytes(issue: ScanIssue, error: Option<&ScanError>) -> int {
    let base = sat_add(clamp_u64(vstd::layout::size_of::<ScanIssue>() as int), path_bytes(issue.path));
    match error {
        Some(e) => sat_add(
            sat_add(sat_add(base, clamp_u64(vstd::layout::size_of::<ScanError>() as int)), path_bytes(e.path)),
            clamp_u64(byte_len(e.message@)),
        ),
        None => base,
    }
}

/// The length in bytes of an optional path, zero where there is none.
pub open spec fn path_bytes(path: Option<String>) -> int {
    match path {
        Some(p) => clamp_u64(byte_len(p@)),
        None => 0,
    }
}

fn optional_path_bytes(path: &Option<String>) -> (res: u64)
    ensures
        res == path_bytes(*path),
{
    match path {
        Some(p) => size_as_u64(p.as_str().as_bytes().len()),
        None => 0,
    }
}

fn issue_detail_bytes(issue: &ScanIssue, error: Option<&ScanError>) -> (res: u64)
    ensures
        res == detail_bytes(*issue, error),
{
    let mut bytes = size_as_u64(core::mem::size_of::<ScanIssue>());
    bytes = bytes.saturating_add(optional_path_bytes(&issue.path));
    if let Some(e) = error {
        bytes = bytes.saturating_add(size_as_u64(core::mem::size_of::<ScanError>()))
            .saturating_add(optional_path_bytes(&e.path))
            .saturating_add(size_as_u64(e.message.as_str().as_bytes().len()));
    }
    bytes
}

} // verus!
