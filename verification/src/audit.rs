//! Append-only audit log with bounded retention.

use crate::trusted::{now_rfc3339, random_uuid_text, utc_rfc3339_form, uuid_text_form};
use std::collections::VecDeque;
use vstd::prelude::*;

verus! {

broadcast use vstd::std_specs::vecdeque::group_vec_dequeue_axioms;

/// Severity of an audit event.
#[derive(Debug, Clone, Copy, PartialEq, Eq, Structural)]
pub enum AuditSeverity {
    Info,
    Warning,
    Critical,
}

/// Outcome of an audited action.
#[derive(Debug, Clone, Copy, PartialEq, Eq, Structural)]
pub enum AuditOutcome {
    Success,
    Denied,
    Error,
}

/// An audit log entry.
#[derive(Debug, Clone)]
pub struct AuditEntry {
    /// Random identifier of the entry.
    pub id: String,
    /// RFC 3339 time at which the entry was recorded.
    pub timestamp: String,
    pub principal: String,
    pub action: String,
    pub resource: String,
    pub outcome: AuditOutcome,
    pub severity: AuditSeverity,
    pub details: Option<serde_json::Value>,
    pub source_ip: Option<String>,
}

/// Which entries a query selects.
pub enum AuditFilter {
    /// Every entry.
    Any,
    /// Entries by the principal with this name.
    Principal(Seq<char>),
    /// Entries of this severity.
    Severity(AuditSeverity),
}

/// Whether an entry passes a filter.
pub open spec fn passes(f: AuditFilter, e: AuditEntry) -> bool {
    match f {
        AuditFilter::Any => true,
        AuditFilter::Principal(p) => e.principal@ == p,
        AuditFilter::Severity(s) => e.severity == s,
    }
}

/// The entries of `s` that pass `f`, newest first, at most `limit` of them.
pub open spec fn newest_matching(s: Seq<AuditEntry>, f: AuditFilter, limit: nat) -> Seq<AuditEntry>
    decreases s.len(),
{
    if s.len() == 0 || limit == 0 {
        Seq::empty()
    } else if passes(f, s.last()) {
        seq![s.last()] + newest_matching(s.drop_last(), f, (limit - 1) as nat)
    } else {
        newest_matching(s.drop_last(), f, limit)
    }
}

/// What the log keeps of a history: its last `max` entries.
pub open spec fn retained(s: Seq<AuditEntry>, max: nat) -> Seq<AuditEntry> {
    if s.len() > max {
        s.subrange(s.len() - max, s.len() as int)
    } else {
        s
    }
}

/// The entry records the given event; its identifier has the form of a
/// version-4 UUID and its timestamp the RFC 3339 form of a UTC time.
pub open spec fn records(
    e: AuditEntry,
    principal: Seq<char>,
    action: Seq<char>,
    resource: Seq<char>,
    outcome: AuditOutcome,
    severity: AuditSeverity,
    details: Option<serde_json::Value>,
    source_ip: Option<String>,
) -> bool {
    &&& e.principal@ == principal
    &&& e.action@ == action
    &&& e.resource@ == resource
    &&& e.outcome == outcome
    &&& e.severity == severity
    &&& e.details == details
    &&& e.source_ip == source_ip
    &&& uuid_text_form(e.id@)
    &&& utc_rfc3339_form(e.timestamp@)
}

/// The references of a result, read as the entries they point to.
pub open spec fn entries_of(r: Seq<&AuditEntry>) -> Seq<AuditEntry> {
    r.map_values(|e: &AuditEntry| *e)
}

/// The filter a query with an optional principal and severity stands for.
pub open spec fn filter_of(principal: Option<&str>, severity: Option<AuditSeverity>) -> AuditFilter {
    match principal {
        Some(p) => AuditFilter::Principal(p@),
        None => match severity {
            Some(s) => AuditFilter::Severity(s),
            None => AuditFilter::Any,
        },
    }
}

/// Append-only audit logger that keeps at most `max_entries` entries,
/// dropping the oldest.
pub struct AuditLogger {
    entries: VecDeque<AuditEntry>,
    max_entries: usize,
}

impl View for AuditLogger {
    type V = Seq<AuditEntry>;

    closed spec fn view(&self) -> Seq<AuditEntry> {
        self.entries@
    }
}

impl AuditLogger {
    /// The retention bound.
    pub closed spec fn capacity(&self) -> nat {
        self.max_entries as nat
    }

    /// An empty logger keeping at most `max_entries` entries.
    pub fn new(max_entries: usize) -> (r: Self)
        ensures
            r@ == Seq::<AuditEntry>::empty(),
            r.capacity() == max_entries,
    {
        AuditLogger { entries: VecDeque::new(), max_entries }
    }

    /// Logs a successful action (outcome `Success`, severity `Info`).
    pub fn log_success(&mut self, principal: &str, action: &str, resource: &str)
        ensures
            final(self).capacity() == old(self).capacity(),
            exists|e: AuditEntry|
                records(e, principal@, action@, resource@, AuditOutcome::Success, AuditSeverity::Info, None, None)
                    && final(self)@ == retained(old(self)@.push(e), old(self).capacity()),
    {
        self.log(principal, action, resource, AuditOutcome::Success, AuditSeverity::Info, None, None);
    }

    /// Logs a denied action (outcome `Denied`, severity `Warning`).
    pub fn log_denied(&mut self, principal: &str, action: &str, resource: &str)
        ensures
            final(self).capacity() == old(self).capacity(),
            exists|e: AuditEntry|
                records(e, principal@, action@, resource@, AuditOutcome::Denied, AuditSeverity::Warning, None, None)
                    && final(self)@ == retained(old(self)@.push(e), old(self).capacity()),
    {
        self.log(principal, action, resource, AuditOutcome::Denied, AuditSeverity::Warning, None, None);
    }

    /// Logs a critical security event (outcome `Error`, severity `Critical`)
    /// with details.
    pub fn log_critical(&mut self, principal: &str, action: &str, resource: &str, details: serde_json::Value)
        ensures
            final(self).capacity() == old(self).capacity(),
            exists|e: AuditEntry|
                records(e, principal@, action@, resource@, AuditOutcome::Error, AuditSeverity::Critical, Some(details), None)
                    && final(self)@ == retained(old(self)@.push(e), old(self).capacity()),
    {
        self.log(principal, action, resource, AuditOutcome::Error, AuditSeverity::Critical, Some(details), None);
    }

    /// Records an event: an entry stamped with a fresh identifier and the
    /// current time is appended, then the oldest entries beyond the retention
    /// bound are dropped.
    pub fn log(
        &mut self,
        principal: &str,
        action: &str,
        resource: &str,
        outcome: AuditOutcome,
        severity: AuditSeverity,
        details: Option<serde_json::Value>,
        source_ip: Option<String>,
    )
        ensures
            final(self).capacity() == old(self).capacity(),
            exists|e: AuditEntry|
                records(e, principal@, action@, resource@, outcome, severity, details, source_ip)
                    && final(self)@ == retained(old(self)@.push(e), old(self).capacity()),
    {
        let entry = AuditEntry {
            id: random_uuid_text(),
            timestamp: now_rfc3339(),
            principal: principal.to_owned(),
            action: action.to_owned(),
            resource: resource.to_owned(),
            outcome,
            severity,
            details,
            source_ip,
        };
        let ghost e = entry;
        self.append(entry);
        assert(records(e, principal@, action@, resource@, outcome, severity, details, source_ip));
    }

    /// Appends an entry, then drops the oldest entries beyond the retention
    /// bound.
    pub fn append(&mut self, entry: AuditEntry)
        ensures
            final(self).capacity() == old(self).capacity(),
            final(self)@ == retained(old(self)@.push(entry), old(self).capacity()),
    {
        let ghost full = self.entries@.push(entry);
        self.entries.push_back(entry);
        let ghost mut dropped: int = 0;
        while self.entries.len() > self.max_entries
            invariant
                self.max_entries == old(self).max_entries,
                self.entries@ == full.subrange(dropped, full.len() as int),
                0 <= dropped,
                dropped == 0 || dropped <= full.len() - self.max_entries,
            decreases self.entries@.len(),
        {
            let _ = self.entries.pop_front();
            proof {
                dropped = dropped + 1;
                assert(self.entries@ =~= full.subrange(dropped, full.len() as int));
            }
        }
        proof {
            assert(self.entries@ =~= retained(full, self.max_entries as nat));
        }
    }

    /// The entries passing the filter that the optional principal and
    /// severity describe, newest first, at most `limit` of them.
    fn select(&self, principal: Option<&str>, severity: Option<AuditSeverity>, limit: usize) -> (r: Vec<
        &AuditEntry,
    >)
        ensures
            entries_of(r@) == newest_matching(self@, filter_of(principal, severity), limit as nat),
    {
        let ghost f = filter_of(principal, severity);
        let ghost s = self@;
        let mut out: Vec<&AuditEntry> = Vec::new();
        let mut i: usize = self.entries.len();
        proof {
            assert(s.take(s.len() as int) =~= s);
            assert(entries_of(out@) + newest_matching(s, f, limit as nat) =~= newest_matching(s, f, limit as nat));
        }
        while i > 0 && out.len() < limit
            invariant
                s == self@,
                f == filter_of(principal, severity),
                i <= s.len(),
                out@.len() <= limit,
                entries_of(out@) + newest_matching(s.take(i as int), f, (limit - out@.len()) as nat)
                    == newest_matching(s, f, limit as nat),
            decreases i,
        {
            let e: &AuditEntry = &self.entries[i - 1];
            let pass = match principal {
                Some(p) => {
                    let wanted = p.to_owned();
                    let same = e.principal == wanted;
                    assert(same == (e.principal@ == p@));
                    same
                },
                None => match severity {
                    Some(sev) => e.severity == sev,
                    None => true,
                },
            };
            proof {
                let t = s.take(i as int);
                assert(t.last() == *e);
                assert(t.drop_last() =~= s.take(i - 1));
                assert(pass == passes(f, *e));
            }
            if pass {
                let ghost before = out@;
                out.push(e);
                proof {
                    assert(entries_of(out@) =~= entries_of(before) + seq![*e]);
                    let rest = newest_matching(s.take(i - 1), f, (limit - out@.len()) as nat);
                    assert(entries_of(before) + (seq![*e] + rest) =~= entries_of(out@) + rest);
                }
            }
            i -= 1;
        }
        proof {
            if i == 0 {
                assert(s.take(0).len() == 0);
            }
        }
        out
    }

    /// The most recent entries, newest first, at most `limit` of them.
    pub fn recent(&self, limit: usize) -> (r: Vec<&AuditEntry>)
        ensures
            entries_of(r@) == newest_matching(self@, AuditFilter::Any, limit as nat),
    {
        self.select(None, None, limit)
    }

    /// The most recent entries by a principal, newest first, at most `limit`.
    pub fn by_principal(&self, principal: &str, limit: usize) -> (r: Vec<&AuditEntry>)
        ensures
            entries_of(r@) == newest_matching(self@, AuditFilter::Principal(principal@), limit as nat),
    {
        self.select(Some(principal), None, limit)
    }

    /// The most recent entries of a severity, newest first, at most `limit`.
    pub fn by_severity(&self, severity: AuditSeverity, limit: usize) -> (r: Vec<&AuditEntry>)
        ensures
            entries_of(r@) == newest_matching(self@, AuditFilter::Severity(severity), limit as nat),
    {
        self.select(None, Some(severity), limit)
    }

    /// The number of entries held.
    pub fn count(&self) -> (r: usize)
        ensures
            r == self@.len(),
    {
        self.entries.len()
    }

    /// The entries held, oldest first.
    pub fn entries(&self) -> (r: Vec<&AuditEntry>)
        ensures
            entries_of(r@) == self@,
    {
        let mut out: Vec<&AuditEntry> = Vec::new();
        let mut i: usize = 0;
        while i < self.entries.len()
            invariant
                i <= self@.len(),
                entries_of(out@) == self@.take(i as int),
            decreases self@.len() - i,
        {
            let ghost before = out@;
            let item: &AuditEntry = &self.entries[i];
            out.push(item);
            proof {
                assert(*item == self@[i as int]);
                assert(entries_of(out@) =~= entries_of(before).push(*item));
                assert(self@.take(i + 1) =~= self@.take(i as int).push(self@[i as int]));
            }
            i += 1;
        }
        proof {
            assert(self@.take(self@.len() as int) =~= self@);
        }
        out
    }
}

/// Retention keeps the newest `max` entries of a history, in order: the kept
/// entries are the tail of the history, and there are `min(len, max)` of them.
pub proof fn law_retention_keeps_newest(s: Seq<AuditEntry>, max: nat)
    ensures
        retained(s, max).len() == if s.len() <= max { s.len() } else { max },
        forall|i: int|
            0 <= i < retained(s, max).len() ==> #[trigger] retained(s, max)[i] == s[s.len()
                - retained(s, max).len() + i],
{
}

/// With room for at least one entry, the newest entry after a log is the one
/// just logged.
pub proof fn law_log_then_recent(s: Seq<AuditEntry>, e: AuditEntry, max: nat)
    requires
        max > 0,
    ensures
        newest_matching(retained(s.push(e), max), AuditFilter::Any, 1) == seq![e],
{
    let r = retained(s.push(e), max);
    assert(r.last() == e);
    assert(newest_matching(r.drop_last(), AuditFilter::Any, 0) == Seq::<AuditEntry>::empty());
    assert(seq![e] + Seq::<AuditEntry>::empty() =~= seq![e]);
}

/// A query returns at most `limit` entries, each of which passes the filter
/// and is held in the log.
pub proof fn law_query_sound(s: Seq<AuditEntry>, f: AuditFilter, limit: nat)
    ensures
        newest_matching(s, f, limit).len() <= limit,
        newest_matching(s, f, limit).len() <= s.len(),
        forall|i: int|
            0 <= i < newest_matching(s, f, limit).len() ==> passes(f, #[trigger] newest_matching(s, f, limit)[i])
                && s.contains(newest_matching(s, f, limit)[i]),
    decreases s.len(),
{
    if s.len() > 0 && limit > 0 {
        let rest_limit = if passes(f, s.last()) { (limit - 1) as nat } else { limit };
        law_query_sound(s.drop_last(), f, rest_limit);
        let q = newest_matching(s, f, limit);
        let rest = newest_matching(s.drop_last(), f, rest_limit);
        assert forall|i: int| 0 <= i < q.len() implies passes(f, #[trigger] q[i]) && s.contains(q[i]) by {
            if passes(f, s.last()) {
                if i == 0 {
                    assert(q[0] == s.last());
                    assert(s[s.len() - 1] == s.last());
                } else {
                    assert(q[i] == rest[i - 1]);
                    let k = choose|k: int| 0 <= k < s.drop_last().len() && s.drop_last()[k] == rest[i - 1];
                    assert(s[k] == q[i]);
                }
            } else {
                assert(q[i] == rest[i]);
                let k = choose|k: int| 0 <= k < s.drop_last().len() && s.drop_last()[k] == rest[i];
                assert(s[k] == q[i]);
            }
        }
    }
}

/// A history replayed entry by entry through the log, starting from `start`:
/// each entry is appended and retention applied.
pub open spec fn replay(start: Seq<AuditEntry>, es: Seq<AuditEntry>, max: nat) -> Seq<AuditEntry>
    decreases es.len(),
{
    if es.len() == 0 {
        start
    } else {
        retained(replay(start, es.drop_last(), max).push(es.last()), max)
    }
}

/// Applying retention before an append changes nothing: retaining after each
/// step is the same as retaining once after the append.
pub proof fn law_retention_composes(s: Seq<AuditEntry>, e: AuditEntry, max: nat)
    ensures
        retained(retained(s, max).push(e), max) == retained(s.push(e), max),
{
    let n = s.len();
    if n > max {
        let r = s.subrange(n - max, n as int);
        assert(retained(r.push(e), max) =~= retained(s.push(e), max));
    }
}

/// Logging any sequence of entries into an empty log keeps exactly the newest
/// `max` of them, unmodified and in logging order.
pub proof fn law_replay_keeps_newest(es: Seq<AuditEntry>, max: nat)
    ensures
        replay(Seq::empty(), es, max) == retained(es, max),
        replay(Seq::empty(), es, max).len() <= max,
    decreases es.len(),
{
    if es.len() > 0 {
        law_replay_keeps_newest(es.drop_last(), max);
        law_retention_composes(es.drop_last(), es.last(), max);
        assert(es.drop_last().push(es.last()) =~= es);
    }
}

/// The number of entries of `s` that pass `f`.
pub open spec fn count_passing(s: Seq<AuditEntry>, f: AuditFilter) -> nat
    decreases s.len(),
{
    if s.len() == 0 {
        0
    } else {
        count_passing(s.drop_last(), f) + if passes(f, s.last()) { 1nat } else { 0nat }
    }
}

/// Counting splits over concatenation.
pub proof fn lemma_count_passing_concat(a: Seq<AuditEntry>, b: Seq<AuditEntry>, f: AuditFilter)
    ensures
        count_passing(a + b, f) == count_passing(a, f) + count_passing(b, f),
    decreases b.len(),
{
    if b.len() > 0 {
        lemma_count_passing_concat(a, b.drop_last(), f);
        assert((a + b).drop_last() =~= a + b.drop_last());
        assert((a + b).last() == b.last());
    } else {
        assert(a + b =~= a);
    }
}

/// A query returns as many entries as it may: the smaller of the limit and
/// the number of entries that pass the filter.
pub proof fn law_query_count(s: Seq<AuditEntry>, f: AuditFilter, limit: nat)
    ensures
        newest_matching(s, f, limit).len() == if count_passing(s, f) < limit {
            count_passing(s, f)
        } else {
            limit
        },
    decreases s.len(),
{
    if s.len() > 0 && limit > 0 {
        if passes(f, s.last()) {
            law_query_count(s.drop_last(), f, (limit - 1) as nat);
        } else {
            law_query_count(s.drop_last(), f, limit);
        }
    } else if s.len() > 0 {
        law_query_count(s.drop_last(), f, limit);
    }
}

/// A passing entry with fewer than `limit` passing entries newer than it is in
/// the result of a query: the query keeps the newest passing entries.
pub proof fn law_query_keeps_newest(s: Seq<AuditEntry>, f: AuditFilter, limit: nat, j: int)
    requires
        0 <= j < s.len(),
        passes(f, s[j]),
        count_passing(s.subrange(j + 1, s.len() as int), f) < limit,
    ensures
        newest_matching(s, f, limit).contains(s[j]),
    decreases s.len(),
{
    let n = s.len() as int;
    let r = newest_matching(s, f, limit);
    if j == n - 1 {
        assert(r[0] == s.last());
    } else {
        let t = s.drop_last();
        assert(s.subrange(j + 1, n) =~= t.subrange(j + 1, n - 1).push(s.last()));
        assert(s.subrange(j + 1, n).drop_last() =~= t.subrange(j + 1, n - 1));
        assert(t[j] == s[j]);
        if passes(f, s.last()) {
            law_query_keeps_newest(t, f, (limit - 1) as nat, j);
            let rest = newest_matching(t, f, (limit - 1) as nat);
            let k = choose|k: int| 0 <= k < rest.len() && rest[k] == s[j];
            assert(r[k + 1] == rest[k]);
        } else {
            law_query_keeps_newest(t, f, limit, j);
        }
    }
}

/// When no more than `limit` entries pass the filter, the query returns every
/// one of them.
pub proof fn law_query_complete(s: Seq<AuditEntry>, f: AuditFilter, limit: nat, j: int)
    requires
        count_passing(s, f) <= limit,
        0 <= j < s.len(),
        passes(f, s[j]),
    ensures
        newest_matching(s, f, limit).contains(s[j]),
{
    let n = s.len() as int;
    let head = s.take(j + 1);
    let tail = s.subrange(j + 1, n);
    assert(s =~= head + tail);
    lemma_count_passing_concat(head, tail, f);
    assert(head.last() == s[j]);
    assert(count_passing(head, f) >= 1);
    law_query_keeps_newest(s, f, limit, j);
}

} // verus!
