use vstd::prelude::*;
use std::collections::BTreeSet;
use vstd::std_specs::iter::IteratorSpec;
use vstd::std_specs::cmp::OrdSpec;

use crate::status::{all_ascii_digits, digits_value, law_decimal_round_trip};

verus! {

/// The character of a decimal digit.
pub open spec fn digit_char(d: nat) -> char {
    if d == 0 { '0' }
    else if d == 1 { '1' }
    else if d == 2 { '2' }
    else if d == 3 { '3' }
    else if d == 4 { '4' }
    else if d == 5 { '5' }
    else if d == 6 { '6' }
    else if d == 7 { '7' }
    else if d == 8 { '8' }
    else { '9' }
}

/// The base-ten rendering of `n`, most significant digit first, without
/// leading zeros.
pub open spec fn decimal(n: nat) -> Seq<char>
    decreases n,
{
    if n < 10 {
        seq![digit_char(n)]
    } else {
        decimal(n / 10).push(digit_char(n % 10))
    }
}

/// The text that `fmt_duration` gives for a number of seconds.
pub open spec fn duration_text(secs: nat) -> Seq<char> {
    if secs >= 3600 {
        decimal(secs / 3600) + seq!['h'] + decimal((secs / 60) % 60) + seq!['m']
    } else if secs >= 60 {
        decimal(secs / 60) + seq!['m'] + decimal(secs % 60) + seq!['s']
    } else {
        decimal(secs) + seq!['s']
    }
}

fn digit_str(d: u64) -> (s: &'static str)
    requires
        d < 10,
    ensures
        s@ == seq![digit_char(d as nat)],
{
    proof {
        reveal_strlit("0");
        reveal_strlit("1");
        reveal_strlit("2");
        reveal_strlit("3");
        reveal_strlit("4");
        reveal_strlit("5");
        reveal_strlit("6");
        reveal_strlit("7");
        reveal_strlit("8");
        reveal_strlit("9");
    }
    if d == 0 { "0" }
    else if d == 1 { "1" }
    else if d == 2 { "2" }
    else if d == 3 { "3" }
    else if d == 4 { "4" }
    else if d == 5 { "5" }
    else if d == 6 { "6" }
    else if d == 7 { "7" }
    else if d == 8 { "8" }
    else { "9" }
}

/// Appends the decimal rendering of `n` to `out`.
pub fn push_decimal(out: &mut String, n: u64)
    ensures
        final(out)@ == old(out)@ + decimal(n as nat),
    decreases n,
{
    if n >= 10 {
        push_decimal(out, n / 10);
    }
    out.append(digit_str(n % 10));
    proof {
        assert(old(out)@ + decimal(n as nat) =~= old(out)@ + (if n >= 10 { decimal((n / 10) as nat) } else { seq![] }) + seq![digit_char((n % 10) as nat)]);
    }
}

/// Renders a number of seconds compactly: `1h2m` from an hour up, `1m5s`
/// from a minute up, `5s` below that.
pub fn fmt_duration(secs: u64) -> (s: String)
    ensures
        s@ == duration_text(secs as nat),
{
    let mut out = String::new();
    if secs >= 3600 {
        push_decimal(&mut out, secs / 3600);
        out.append("h");
        push_decimal(&mut out, (secs / 60) % 60);
        out.append("m");
    } else if secs >= 60 {
        push_decimal(&mut out, secs / 60);
        out.append("m");
        push_decimal(&mut out, secs % 60);
        out.append("s");
    } else {
        push_decimal(&mut out, secs);
        out.append("s");
    }
    proof {
        reveal_strlit("h");
        reveal_strlit("m");
        reveal_strlit("s");
        assert(out@ =~= duration_text(secs as nat));
    }
    out
}


/// `m` is the least member of `s`.
pub open spec fn is_least(s: Set<u64>, m: u64) -> bool {
    s.contains(m) && forall|x: u64| s.contains(x) ==> m <= x
}

/// The least member of a non-empty set of line numbers.
pub open spec fn least(s: Set<u64>) -> u64 {
    choose|m: u64| is_least(s, m)
}

/// Every non-empty set of `u64` has a least member, and it is unique.
pub proof fn lemma_least(s: Set<u64>, x: u64)
    requires
        s.contains(x),
    ensures
        is_least(s, least(s)),
        forall|m: u64| is_least(s, m) ==> m == least(s),
    decreases x,
{
    if forall|y: u64| s.contains(y) ==> x <= y {
        assert(is_least(s, x));
    } else {
        let y = choose|y: u64| s.contains(y) && !(x <= y);
        lemma_least(s, y);
    }
}

/// The keys a `BTreeSet<u64>` yields come in strictly increasing order,
/// so the first is below every later one.
proof fn lemma_increasing_keys(keys: Seq<&u64>, j: int)
    requires
        vstd::std_specs::btree::increasing_seq(keys),
        0 < j < keys.len(),
    ensures
        *keys[0] < *keys[j],
{
    broadcast use vstd::std_specs::btree::group_btree_axioms;
    broadcast use vstd::laws_cmp::group_laws_cmp;
    assert(vstd::laws_cmp::obeys_cmp::<u64>());
    assert(vstd::laws_cmp::obeys_cmp::<&u64>());
    vstd::std_specs::btree::axiom_increasing_seq_meaning::<&u64>(keys);
    let a = keys[0];
    let b = keys[j];
    assert((&a).cmp_spec(&&b) is Less);
}

/// The abstract state of a [`Progress`]: its counters, the lines still in
/// flight, the highest line the feeder has consumed, and the precount.
pub struct ProgressView {
    pub total: u64,
    pub errors: u64,
    pub skipped: u64,
    pub inflight: Set<u64>,
    pub feeder: u64,
    pub total_probeable: Option<u64>,
}

/// The highest input line known to be fully processed: just below the
/// least line still in flight, or the feeder's line when none is.
pub open spec fn position_of(p: ProgressView) -> u64 {
    if p.inflight.is_empty() {
        p.feeder
    } else {
        let m = least(p.inflight);
        if m == 0 { 0 } else { (m - 1) as u64 }
    }
}

pub open spec fn initial_progress(start_line: u64, total_probeable: Option<u64>) -> ProgressView {
    ProgressView {
        total: 0,
        errors: 0,
        skipped: 0,
        inflight: Set::empty(),
        feeder: if start_line == 0 { 0 } else { (start_line - 1) as u64 },
        total_probeable,
    }
}

pub open spec fn after_start(p: ProgressView, line: u64) -> ProgressView {
    ProgressView { inflight: p.inflight.insert(line), feeder: line, ..p }
}

pub open spec fn after_finish(p: ProgressView, line: u64, ok: bool) -> ProgressView {
    ProgressView {
        total: p.total.wrapping_add(1),
        errors: if ok { p.errors } else { p.errors.wrapping_add(1) },
        inflight: p.inflight.remove(line),
        ..p
    }
}

pub open spec fn after_skip(p: ProgressView, line: u64) -> ProgressView {
    ProgressView {
        skipped: p.skipped.wrapping_add(1),
        feeder: line,
        ..p
    }
}

pub open spec fn after_advance(p: ProgressView, line: u64) -> ProgressView {
    ProgressView { feeder: line, ..p }
}

/// Counters and position tracking shared between the feeder, the probe
/// tasks and the periodic logger.
pub struct Progress {
    total: u64,
    errors: u64,
    skipped: u64,
    /// Lines currently being probed; completion may come out of order.
    inflight: BTreeSet<u64>,
    /// Highest input line the feeder has consumed (probed or skipped).
    feeder_progress: u64,
    /// Total probeable records, when a precount was made.
    total_probeable: Option<u64>,
}

impl View for Progress {
    type V = ProgressView;

    closed spec fn view(&self) -> ProgressView {
        ProgressView {
            total: self.total,
            errors: self.errors,
            skipped: self.skipped,
            inflight: self.inflight@,
            feeder: self.feeder_progress,
            total_probeable: self.total_probeable,
        }
    }
}

impl Progress {
    pub fn new(start_line: u64, total_probeable: Option<u64>) -> (p: Progress)
        ensures
            p@ == initial_progress(start_line, total_probeable),
    {
        Progress {
            total: 0,
            errors: 0,
            skipped: 0,
            inflight: BTreeSet::new(),
            feeder_progress: start_line.saturating_sub(1),
            total_probeable,
        }
    }

    /// Marks a line as having entered the probe pipeline.
    pub fn start_probe(&mut self, line: u64)
        ensures
            final(self)@ == after_start(old(self)@, line),
    {
        broadcast use vstd::std_specs::btree::group_btree_axioms;
        broadcast use vstd::laws_cmp::group_laws_cmp;
        self.inflight.insert(line);
        self.feeder_progress = line;
    }

    /// Marks a probe as completed; `ok` tells success from any failure.
    pub fn finish_probe(&mut self, line: u64, ok: bool)
        ensures
            final(self)@ == after_finish(old(self)@, line, ok),
    {
        broadcast use vstd::std_specs::btree::group_btree_axioms;
        broadcast use vstd::laws_cmp::group_laws_cmp;
        self.total = self.total.wrapping_add(1);
        if !ok {
            self.errors = self.errors.wrapping_add(1);
        }
        self.inflight.remove(&line);
    }

    /// Records an input line that the feeder skipped (no usable A record).
    pub fn record_skip(&mut self, line: u64)
        ensures
            final(self)@ == after_skip(old(self)@, line),
    {
        self.skipped = self.skipped.wrapping_add(1);
        self.feeder_progress = line;
    }

    /// Records that the feeder consumed a line without acting on it (lines
    /// before the start line).
    pub fn advance_feeder(&mut self, line: u64)
        ensures
            final(self)@ == after_advance(old(self)@, line),
    {
        self.feeder_progress = line;
    }

    /// The highest input line that is guaranteed fully processed; a run
    /// resumes from the line after it.
    pub fn position(&self) -> (r: u64)
        ensures
            r == position_of(self@),
    {
        broadcast use vstd::std_specs::btree::group_btree_axioms;
        broadcast use vstd::laws_cmp::group_laws_cmp;
        let mut first: Option<u64> = None;
        for x in it: self.inflight.iter()
            invariant_except_break
                it.index() == 0,
                first is None,
            invariant
                it.seq() == vstd::std_specs::btree::spec_btree_keys_iter(&self.inflight).remaining(),
            ensures
                first == (if it.seq().len() == 0 { None } else { Some(*it.seq()[0]) }),
        {
            first = Some(*x);
            break;
        }
        match first {
            Some(min) => {
                proof {
                    let keys = vstd::std_specs::btree::spec_btree_keys_iter(&self.inflight).remaining();
                    assert(keys.unref().to_set() == self.inflight@);
                    assert(keys.len() > 0);
                    assert(keys.unref()[0] == min);
                    assert(self.inflight@.contains(min)) by {
                        assert(keys.unref().contains(min));
                    }
                    assert forall|x: u64| self.inflight@.contains(x) implies min <= x by {
                        assert(keys.unref().to_set().contains(x));
                        let j = choose|j: int| 0 <= j < keys.len() && keys.unref()[j] == x;
                        if j > 0 {
                            lemma_increasing_keys(keys, j);
                        }
                    }
                    lemma_least(self.inflight@, min);
                    assert(is_least(self.inflight@, min));
                }
                min.saturating_sub(1)
            },
            None => {
                proof {
                    let keys = vstd::std_specs::btree::spec_btree_keys_iter(&self.inflight).remaining();
                    assert(keys.len() == 0);
                    assert(keys.unref().to_set() =~= Set::empty());
                }
                self.feeder_progress
            },
        }
    }

    /// The precount of probeable records, when one was made.
    pub fn total_probeable(&self) -> (r: Option<u64>)
        ensures
            r == self@.total_probeable,
    {
        self.total_probeable
    }

    /// The counters and the resume position, read together.
    pub fn snapshot(&self) -> (s: Snapshot)
        ensures
            s.total == self@.total,
            s.errors == self@.errors,
            s.skipped == self@.skipped,
            s.position == position_of(self@),
    {
        Snapshot {
            total: self.total,
            errors: self.errors,
            skipped: self.skipped,
            position: self.position(),
        }
    }

    /// Accounts for input line `line` as the feeder reads it and tells
    /// whether to probe it: lines before `start_line` are read and
    /// discarded, lines without a usable A record are skipped, and the rest
    /// enter the probe pipeline.
    pub fn feed_line(&mut self, line: u64, start_line: u64, probeable: bool) -> (probe: bool)
        ensures
            probe == admitted(line, start_line, probeable),
            final(self)@ == (if line < start_line {
                after_advance(old(self)@, line)
            } else if !probeable {
                after_skip(old(self)@, line)
            } else {
                after_start(old(self)@, line)
            }),
    {
        if line < start_line {
            self.advance_feeder(line);
            false
        } else if !probeable {
            self.record_skip(line);
            false
        } else {
            self.start_probe(line);
            true
        }
    }
}


/// The counters of a [`Progress`] together with its resume position.
pub struct Snapshot {
    pub total: u64,
    pub errors: u64,
    pub skipped: u64,
    pub position: u64,
}

/// The estimated seconds left: the records not yet done, at `rpm` records
/// per minute; none without a precount or while the rate is zero.
pub open spec fn eta_of(total_probeable: Option<u64>, done: u64, rpm: u64) -> Option<u64> {
    match total_probeable {
        Some(total) => if rpm > 0 {
            let remaining: int = if total >= done { total - done } else { 0 };
            Some((remaining * 60 / (rpm as int)) as u64)
        } else {
            None
        },
        None => None,
    }
}

/// Seconds left at the current rate, as the periodic log line shows it.
pub fn eta_seconds(total_probeable: Option<u64>, done: u64, rpm: u64) -> (r: Option<u64>)
    requires
        total_probeable matches Some(total) ==> (rpm > 0 ==> (if total >= done { total - done } else { 0int }) * 60 <= u64::MAX),
    ensures
        r == eta_of(total_probeable, done, rpm),
{
    match total_probeable {
        Some(total) => if rpm > 0 {
            let remaining = total.saturating_sub(done);
            Some(remaining * 60 / rpm)
        } else {
            None
        },
        None => None,
    }
}

/// Lines are fed in order: every line in flight is a real (1-based) input
/// line that the feeder has already consumed.
pub open spec fn fed_in_order(p: ProgressView) -> bool {
    forall|l: u64| #[trigger] p.inflight.contains(l) ==> 1 <= l <= p.feeder
}

/// The counters never report more failures than finished probes.
pub open spec fn errors_within_total(p: ProgressView) -> bool {
    p.errors <= p.total
}

proof fn lemma_least_of_subset(small: Set<u64>, big: Set<u64>, x: u64)
    requires
        small.subset_of(big),
        small.contains(x),
    ensures
        least(big) <= least(small),
        is_least(small, least(small)),
        is_least(big, least(big)),
{
    lemma_least(small, x);
    lemma_least(big, x);
}

/// The resume position is safe: it never passes the feeder, and every line
/// at or below it has left the pipeline, so everything up to it is fully
/// processed.
pub proof fn law_position_is_processed(p: ProgressView)
    requires
        fed_in_order(p),
    ensures
        position_of(p) <= p.feeder,
        forall|l: u64| p.inflight.contains(l) ==> position_of(p) < l,
{
    if !p.inflight.is_empty() {
        let x = p.inflight.choose();
        lemma_least(p.inflight, x);
        assert(p.inflight.contains(least(p.inflight)));
    }
}

/// A fresh progress is fed in order and counts nothing; resuming from the
/// line after a reported position reports that same position.
pub proof fn law_fresh_progress(start_line: u64, total_probeable: Option<u64>, p: ProgressView)
    requires
        position_of(p) < u64::MAX,
    ensures
        fed_in_order(initial_progress(start_line, total_probeable)),
        errors_within_total(initial_progress(start_line, total_probeable)),
        position_of(initial_progress((position_of(p) + 1) as u64, total_probeable)) == position_of(p),
{
}

/// Feeding lines in increasing order keeps the lines fed in order.
pub proof fn law_feeding_keeps_order(p: ProgressView, line: u64, ok: bool)
    requires
        fed_in_order(p),
    ensures
        line > p.feeder ==> fed_in_order(after_start(p, line)),
        fed_in_order(after_finish(p, line, ok)),
        line >= p.feeder ==> fed_in_order(after_skip(p, line)),
        line >= p.feeder ==> fed_in_order(after_advance(p, line)),
{
    if line > p.feeder {
        let q = after_start(p, line);
        assert forall|l: u64| #[trigger] q.inflight.contains(l) implies 1 <= l <= q.feeder by {
            if l != line {
                assert(p.inflight.contains(l));
            }
        }
    }
    let r = after_finish(p, line, ok);
    assert forall|l: u64| #[trigger] r.inflight.contains(l) implies 1 <= l <= r.feeder by {
        assert(p.inflight.contains(l));
    }
    if line >= p.feeder {
        let q = after_skip(p, line);
        assert forall|l: u64| #[trigger] q.inflight.contains(l) implies 1 <= l <= q.feeder by {
            assert(p.inflight.contains(l));
        }
        let a = after_advance(p, line);
        assert forall|l: u64| #[trigger] a.inflight.contains(l) implies 1 <= l <= a.feeder by {
            assert(p.inflight.contains(l));
        }
    }
}

/// While lines are fed in increasing order, the resume position never
/// moves backwards, whatever order the probes finish in.
pub proof fn law_position_monotone(p: ProgressView, line: u64, ok: bool)
    requires
        fed_in_order(p),
    ensures
        line > p.feeder ==> position_of(after_start(p, line)) >= position_of(p),
        position_of(after_finish(p, line, ok)) >= position_of(p),
        line >= p.feeder ==> position_of(after_skip(p, line)) >= position_of(p),
        line >= p.feeder ==> position_of(after_advance(p, line)) >= position_of(p),
{
    law_position_is_processed(p);
    if line > p.feeder {
        let q = after_start(p, line);
        assert(q.inflight.contains(line));
        lemma_least(q.inflight, line);
        if !p.inflight.is_empty() {
            let x = p.inflight.choose();
            lemma_least_of_subset(p.inflight, q.inflight, x);
            assert(q.inflight.contains(least(q.inflight)));
            if least(q.inflight) != line {
                assert(p.inflight.contains(least(q.inflight)));
            }
        }
    }
    let r = after_finish(p, line, ok);
    if !r.inflight.is_empty() {
        let x = r.inflight.choose();
        assert(r.inflight.subset_of(p.inflight));
        lemma_least_of_subset(r.inflight, p.inflight, x);
        assert(p.inflight.contains(least(p.inflight)));
    } else if !p.inflight.is_empty() {
        let x = p.inflight.choose();
        lemma_least(p.inflight, x);
        assert(p.inflight.contains(least(p.inflight)));
    }
}

/// Finishing a probe keeps the failures within the finished probes, as
/// long as the count of finished probes has not reached its limit.
pub proof fn law_errors_within_total(p: ProgressView, line: u64, ok: bool)
    requires
        errors_within_total(p),
        p.total < u64::MAX,
    ensures
        errors_within_total(after_finish(p, line, ok)),
        errors_within_total(after_start(p, line)),
        errors_within_total(after_skip(p, line)),
        errors_within_total(after_advance(p, line)),
{
}


/// Whether the feeder probes input line `line`: it comes at or after the
/// start line and holds a usable A record.
pub open spec fn admitted(line: u64, start_line: u64, probeable: bool) -> bool {
    line >= start_line && probeable
}

/// One line of the pre-pass that counts probeable records: it counts the
/// line exactly when the feeder would probe it.
pub fn precount_step(count: u64, line: u64, start_line: u64, probeable: bool) -> (r: u64)
    requires
        count < u64::MAX,
    ensures
        r == (if admitted(line, start_line, probeable) { count + 1 } else { count as int }),
{
    if line >= start_line && probeable {
        count + 1
    } else {
        count
    }
}

/// The count the pre-pass reaches over input lines `1..=flags.len()`,
/// where `flags[i]` tells whether line `i + 1` holds a usable A record.
pub open spec fn precount_of(flags: Seq<bool>, start_line: u64) -> int
    decreases flags.len(),
{
    if flags.len() == 0 {
        0
    } else {
        let line = flags.len() as u64;
        precount_of(flags.drop_last(), start_line) + if admitted(line, start_line, flags.last()) { 1int } else { 0 }
    }
}

/// The input lines among `1..=flags.len()` that the feeder probes.
pub open spec fn probed_lines(flags: Seq<bool>, start_line: u64) -> Set<u64> {
    Set::new(|l: u64| 1 <= l <= flags.len() && admitted(l, start_line, flags[l - 1]))
}

/// The pre-pass counts exactly the lines that the feeder later probes, so
/// the progress percentage and ETA measure the same records.
pub proof fn law_precount_matches_feeder(flags: Seq<bool>, start_line: u64)
    requires
        flags.len() <= u64::MAX,
    ensures
        probed_lines(flags, start_line).finite(),
        precount_of(flags, start_line) == probed_lines(flags, start_line).len(),
    decreases flags.len(),
{
    if flags.len() == 0 {
        assert(probed_lines(flags, start_line) =~= Set::empty());
    } else {
        let prev = flags.drop_last();
        law_precount_matches_feeder(prev, start_line);
        let n = flags.len() as u64;
        if admitted(n, start_line, flags.last()) {
            assert(probed_lines(flags, start_line) =~= probed_lines(prev, start_line).insert(n));
        } else {
            assert(probed_lines(flags, start_line) =~= probed_lines(prev, start_line));
        }
    }
}

/// One call on a [`Progress`], as the feeder and the probe tasks make them.
pub enum ProgressOp {
    Start(u64),
    Finish(u64, bool),
    Skip(u64),
    Advance(u64),
}

pub open spec fn apply_op(p: ProgressView, op: ProgressOp) -> ProgressView {
    match op {
        ProgressOp::Start(line) => after_start(p, line),
        ProgressOp::Finish(line, ok) => after_finish(p, line, ok),
        ProgressOp::Skip(line) => after_skip(p, line),
        ProgressOp::Advance(line) => after_advance(p, line),
    }
}

/// The feeder hands out each line after every line it handed out before.
pub open spec fn op_in_order(p: ProgressView, op: ProgressOp) -> bool {
    match op {
        ProgressOp::Start(line) => line > p.feeder,
        ProgressOp::Skip(line) => line > p.feeder,
        ProgressOp::Advance(line) => line > p.feeder,
        ProgressOp::Finish(_, _) => true,
    }
}

/// The state after the calls `ops`, made in order on `p`.
pub open spec fn run_ops(p: ProgressView, ops: Seq<ProgressOp>) -> ProgressView
    decreases ops.len(),
{
    if ops.len() == 0 {
        p
    } else {
        apply_op(run_ops(p, ops.drop_last()), ops.last())
    }
}

/// Every call of `ops` feeds lines in order at the point it is made.
pub open spec fn ops_in_order(p: ProgressView, ops: Seq<ProgressOp>) -> bool {
    forall|i: int| 0 <= i < ops.len() ==> op_in_order(#[trigger] run_ops(p, ops.take(i)), ops[i])
}

pub open spec fn count_finished(ops: Seq<ProgressOp>) -> int
    decreases ops.len(),
{
    if ops.len() == 0 { 0 } else {
        count_finished(ops.drop_last()) + if ops.last() is Finish { 1int } else { 0 }
    }
}

pub open spec fn count_failed(ops: Seq<ProgressOp>) -> int
    decreases ops.len(),
{
    if ops.len() == 0 { 0 } else {
        count_failed(ops.drop_last()) + if ops.last() matches ProgressOp::Finish(_, false) { 1int } else { 0 }
    }
}

pub open spec fn count_skipped(ops: Seq<ProgressOp>) -> int
    decreases ops.len(),
{
    if ops.len() == 0 { 0 } else {
        count_skipped(ops.drop_last()) + if ops.last() is Skip { 1int } else { 0 }
    }
}

proof fn lemma_counts_bounded(ops: Seq<ProgressOp>)
    ensures
        0 <= count_failed(ops) <= count_finished(ops) <= ops.len(),
        0 <= count_skipped(ops) <= ops.len(),
    decreases ops.len(),
{
    if ops.len() > 0 {
        lemma_counts_bounded(ops.drop_last());
    }
}

proof fn lemma_ops_in_order_prefix(p: ProgressView, ops: Seq<ProgressOp>, k: int)
    requires
        ops_in_order(p, ops),
        0 <= k <= ops.len(),
    ensures
        ops_in_order(p, ops.take(k)),
{
    assert forall|i: int| 0 <= i < ops.take(k).len() implies op_in_order(
        #[trigger] run_ops(p, ops.take(k).take(i)),
        ops.take(k)[i],
    ) by {
        assert(ops.take(k).take(i) =~= ops.take(i));
        assert(op_in_order(run_ops(p, ops.take(i)), ops[i]));
    }
}

/// The state reached from a fresh progress by calls that feed lines in
/// order keeps lines in order, holds only lines from the start line on,
/// and counts exactly the calls made (while no counter can wrap).
proof fn lemma_reachable(start_line: u64, total_probeable: Option<u64>, ops: Seq<ProgressOp>)
    requires
        ops_in_order(initial_progress(start_line, total_probeable), ops),
        ops.len() < u64::MAX,
    ensures
        fed_in_order(run_ops(initial_progress(start_line, total_probeable), ops)),
        forall|l: u64| #[trigger] run_ops(initial_progress(start_line, total_probeable), ops).inflight.contains(l)
            ==> l >= start_line,
        run_ops(initial_progress(start_line, total_probeable), ops).feeder + 1 >= start_line,
        run_ops(initial_progress(start_line, total_probeable), ops).total == count_finished(ops),
        run_ops(initial_progress(start_line, total_probeable), ops).errors == count_failed(ops),
        run_ops(initial_progress(start_line, total_probeable), ops).skipped == count_skipped(ops),
    decreases ops.len(),
{
    let p0 = initial_progress(start_line, total_probeable);
    if ops.len() > 0 {
        let prev = ops.drop_last();
        assert(prev =~= ops.take(ops.len() - 1));
        lemma_ops_in_order_prefix(p0, ops, ops.len() - 1);
        lemma_reachable(start_line, total_probeable, prev);
        lemma_counts_bounded(prev);
        let q = run_ops(p0, prev);
        assert(op_in_order(run_ops(p0, ops.take(ops.len() - 1)), ops[ops.len() - 1]));
        let last = ops.last();
        match last {
            ProgressOp::Start(line) => law_feeding_keeps_order(q, line, true),
            ProgressOp::Finish(line, ok) => law_feeding_keeps_order(q, line, ok),
            ProgressOp::Skip(line) => law_feeding_keeps_order(q, line, true),
            ProgressOp::Advance(line) => law_feeding_keeps_order(q, line, true),
        }
        let r = run_ops(p0, ops);
        assert forall|l: u64| #[trigger] r.inflight.contains(l) implies l >= start_line by {
            if !q.inflight.contains(l) {
                assert(last matches ProgressOp::Start(x) && x == l);
            }
        }
    }
}

/// From a fresh progress, whatever calls the feeder and the probe tasks
/// make (feeding lines in order, fewer calls than a counter can hold): the
/// counters count exactly the finished probes, the failed ones and the
/// skipped lines, failures never exceed finished probes, every line in
/// flight is at or after the start line, and the resume position never
/// falls below the line before the start line.
pub proof fn law_reachable_counts(start_line: u64, total_probeable: Option<u64>, ops: Seq<ProgressOp>)
    requires
        ops_in_order(initial_progress(start_line, total_probeable), ops),
        ops.len() < u64::MAX,
    ensures
        run_ops(initial_progress(start_line, total_probeable), ops).total == count_finished(ops),
        run_ops(initial_progress(start_line, total_probeable), ops).errors == count_failed(ops),
        run_ops(initial_progress(start_line, total_probeable), ops).skipped == count_skipped(ops),
        errors_within_total(run_ops(initial_progress(start_line, total_probeable), ops)),
        fed_in_order(run_ops(initial_progress(start_line, total_probeable), ops)),
        forall|l: u64| #[trigger] run_ops(initial_progress(start_line, total_probeable), ops).inflight.contains(l)
            ==> l >= start_line,
        position_of(run_ops(initial_progress(start_line, total_probeable), ops)) + 1 >= start_line,
{
    let p0 = initial_progress(start_line, total_probeable);
    lemma_reachable(start_line, total_probeable, ops);
    lemma_counts_bounded(ops);
    let q = run_ops(p0, ops);
    if !q.inflight.is_empty() {
        let x = q.inflight.choose();
        lemma_least(q.inflight, x);
        assert(q.inflight.contains(least(q.inflight)));
    }
}

/// From a fresh progress, while the feeder hands out lines in order, the
/// resume position never moves backwards: it is never lower after more
/// calls than after fewer, whatever order the probes finish in.
pub proof fn law_reachable_position_monotone(
    start_line: u64,
    total_probeable: Option<u64>,
    ops: Seq<ProgressOp>,
    i: int,
    j: int,
)
    requires
        ops_in_order(initial_progress(start_line, total_probeable), ops),
        ops.len() < u64::MAX,
        0 <= i <= j <= ops.len(),
    ensures
        position_of(run_ops(initial_progress(start_line, total_probeable), ops.take(i)))
            <= position_of(run_ops(initial_progress(start_line, total_probeable), ops.take(j))),
    decreases j - i,
{
    let p0 = initial_progress(start_line, total_probeable);
    if i < j {
        law_reachable_position_monotone(start_line, total_probeable, ops, i, j - 1);
        let k = j - 1;
        lemma_ops_in_order_prefix(p0, ops, k);
        lemma_reachable(start_line, total_probeable, ops.take(k));
        let q = run_ops(p0, ops.take(k));
        assert(ops.take(j).drop_last() =~= ops.take(k));
        assert(ops.take(j).last() == ops[k]);
        assert(op_in_order(run_ops(p0, ops.take(k)), ops[k]));
        match ops[k] {
            ProgressOp::Start(line) => law_position_monotone(q, line, true),
            ProgressOp::Finish(line, ok) => law_position_monotone(q, line, ok),
            ProgressOp::Skip(line) => law_position_monotone(q, line, true),
            ProgressOp::Advance(line) => law_position_monotone(q, line, true),
        }
    }
}


proof fn lemma_counts_from(p: ProgressView, ops: Seq<ProgressOp>)
    requires
        p.total + ops.len() < u64::MAX,
        p.errors + ops.len() < u64::MAX,
        p.skipped + ops.len() < u64::MAX,
    ensures
        run_ops(p, ops).total == p.total + count_finished(ops),
        run_ops(p, ops).errors == p.errors + count_failed(ops),
        run_ops(p, ops).skipped == p.skipped + count_skipped(ops),
    decreases ops.len(),
{
    lemma_counts_bounded(ops);
    if ops.len() > 0 {
        lemma_counts_from(p, ops.drop_last());
        lemma_counts_bounded(ops.drop_last());
    }
}

/// From any state, whatever calls are made and in whatever order (fewer
/// than a counter can hold), each counter grows by exactly the number of
/// calls that count towards it; from a fresh progress the counters are
/// exactly those numbers, and failures never exceed finished probes.
pub proof fn law_counts_any_order(p: ProgressView, start_line: u64, total_probeable: Option<u64>, ops: Seq<ProgressOp>)
    requires
        p.total + ops.len() < u64::MAX,
        p.errors + ops.len() < u64::MAX,
        p.skipped + ops.len() < u64::MAX,
    ensures
        run_ops(p, ops).total == p.total + count_finished(ops),
        run_ops(p, ops).errors == p.errors + count_failed(ops),
        run_ops(p, ops).skipped == p.skipped + count_skipped(ops),
        run_ops(initial_progress(start_line, total_probeable), ops).total == count_finished(ops),
        run_ops(initial_progress(start_line, total_probeable), ops).errors == count_failed(ops),
        run_ops(initial_progress(start_line, total_probeable), ops).skipped == count_skipped(ops),
        errors_within_total(run_ops(initial_progress(start_line, total_probeable), ops)),
{
    lemma_counts_from(p, ops);
    lemma_counts_from(initial_progress(start_line, total_probeable), ops);
    lemma_counts_bounded(ops);
}

/// A later start line never makes the pre-pass count more lines, and start
/// lines 0 and 1 both count every probeable line of the input.
pub proof fn law_precount_start_line(flags: Seq<bool>, s1: u64, s2: u64)
    requires
        s1 <= s2,
        flags.len() <= u64::MAX,
    ensures
        precount_of(flags, s1) >= precount_of(flags, s2),
        precount_of(flags, 0) == precount_of(flags, 1),
    decreases flags.len(),
{
    if flags.len() > 0 {
        law_precount_start_line(flags.drop_last(), s1, s2);
    }
}

/// Each feeder call hands the feeder its line, whether the line is probed,
/// skipped or discarded, and finishing a probe leaves the feeder alone; so
/// when nothing is in flight the resume position is the last line handed
/// out, or the line before it when that line has just entered the pipeline.
pub proof fn law_feeder_consumes_line(p: ProgressView, line: u64, ok: bool)
    ensures
        after_start(p, line).feeder == line,
        after_skip(p, line).feeder == line,
        after_advance(p, line).feeder == line,
        after_finish(p, line, ok).feeder == p.feeder,
        after_start(p, line).inflight.contains(line),
        after_skip(p, line).inflight == p.inflight,
        after_advance(p, line).inflight == p.inflight,
        !after_finish(p, line, ok).inflight.contains(line),
        p.inflight.is_empty() ==> position_of(after_skip(p, line)) == line,
        p.inflight.is_empty() ==> position_of(after_advance(p, line)) == line,
        p.inflight.is_empty() ==> position_of(after_start(p, line)) + 1 == line || (line == 0
            && position_of(after_start(p, line)) == 0),
        p.inflight == set![line] ==> position_of(after_finish(p, line, ok)) == p.feeder,
{
    if p.inflight.is_empty() {
        let q = after_start(p, line);
        assert(q.inflight =~= set![line]);
        lemma_least(q.inflight, line);
    }
    if p.inflight == set![line] {
        assert(after_finish(p, line, ok).inflight =~= Set::empty());
    }
}

/// Each call adds one to exactly the counter it concerns (while that
/// counter is below its limit) and leaves the others alone.
pub proof fn law_counter_steps(p: ProgressView, line: u64, ok: bool)
    requires
        p.total < u64::MAX,
        p.errors < u64::MAX,
        p.skipped < u64::MAX,
    ensures
        after_finish(p, line, ok).total == p.total + 1,
        after_finish(p, line, ok).errors == p.errors + (if ok { 0int } else { 1 }),
        after_finish(p, line, ok).skipped == p.skipped,
        after_skip(p, line).skipped == p.skipped + 1,
        after_skip(p, line).total == p.total && after_skip(p, line).errors == p.errors,
        after_start(p, line).total == p.total && after_start(p, line).errors == p.errors
            && after_start(p, line).skipped == p.skipped,
        after_advance(p, line).total == p.total && after_advance(p, line).errors == p.errors
            && after_advance(p, line).skipped == p.skipped,
{
}

/// Reading a rendered duration back gives the seconds it stands for: below
/// a minute, a number of seconds; below an hour, minutes and seconds (under
/// sixty) that add up to it; from an hour up, hours and minutes (under
/// sixty) that it exceeds by less than a minute.
pub proof fn law_duration_text_reads_back(secs: nat)
    ensures
        secs < 60 ==> {
            let t = duration_text(secs);
            &&& t.len() >= 2 && t.last() == 's'
            &&& all_ascii_digits(t.drop_last())
            &&& digits_value(t.drop_last()) == secs
        },
        60 <= secs < 3600 ==> exists|k: int| #![trigger duration_text(secs)[k]] {
            let t = duration_text(secs);
            let m = t.subrange(0, k);
            let sec = t.subrange(k + 1, t.len() - 1);
            &&& 0 < k < t.len() - 2
            &&& t[k] == 'm' && t.last() == 's'
            &&& all_ascii_digits(m) && all_ascii_digits(sec)
            &&& digits_value(sec) < 60
            &&& digits_value(m) * 60 + digits_value(sec) == secs
        },
        secs >= 3600 ==> exists|k: int| #![trigger duration_text(secs)[k]] {
            let t = duration_text(secs);
            let h = t.subrange(0, k);
            let m = t.subrange(k + 1, t.len() - 1);
            &&& 0 < k < t.len() - 2
            &&& t[k] == 'h' && t.last() == 'm'
            &&& all_ascii_digits(h) && all_ascii_digits(m)
            &&& digits_value(m) < 60
            &&& digits_value(h) * 3600 + digits_value(m) * 60 <= secs < digits_value(h) * 3600 + digits_value(m) * 60 + 60
        },
{
    let t = duration_text(secs);
    if secs < 60 {
        law_decimal_round_trip(secs);
        assert(t.drop_last() =~= decimal(secs));
    } else if secs < 3600 {
        let a = secs / 60;
        let b = secs % 60;
        law_decimal_round_trip(a);
        law_decimal_round_trip(b);
        let k = decimal(a).len() as int;
        assert(t.subrange(0, k) =~= decimal(a));
        assert(t.subrange(k + 1, t.len() - 1) =~= decimal(b));
        assert(t[k] == 'm');
    } else {
        let a = secs / 3600;
        let b = (secs / 60) % 60;
        law_decimal_round_trip(a);
        law_decimal_round_trip(b);
        let k = decimal(a).len() as int;
        assert(t.subrange(0, k) =~= decimal(a));
        assert(t.subrange(k + 1, t.len() - 1) =~= decimal(b));
        assert(t[k] == 'h');
        assert(a * 3600 + b * 60 <= secs < a * 3600 + b * 60 + 60) by (nonlinear_arith)
            requires
                a == secs / 3600,
                b == (secs / 60) % 60,
        {
        }
    }
}

/// The ETA is the number of whole seconds the remaining records take at
/// `rpm` records per minute: at that rate the estimate is not yet enough
/// time for them, one second more is.
pub proof fn law_eta_bounds(total: u64, done: u64, rpm: u64)
    requires
        rpm > 0,
        (if total >= done { total - done } else { 0int }) * 60 <= u64::MAX,
    ensures
        eta_of(Some(total), done, rpm) matches Some(eta) ==> {
            let remaining: int = if total >= done { total - done } else { 0 };
            &&& eta * rpm <= remaining * 60
            &&& remaining * 60 < (eta + 1) * rpm
        },
        eta_of(None, done, rpm) is None,
        eta_of(Some(total), done, 0) is None,
{
    let remaining: int = if total >= done { total - done } else { 0 };
    let q = remaining * 60 / (rpm as int);
    assert(q * rpm <= remaining * 60 < (q + 1) * rpm) by (nonlinear_arith)
        requires
            rpm > 0,
            remaining >= 0,
            q == remaining * 60 / (rpm as int),
    {
    }
    assert(0 <= q <= remaining * 60) by (nonlinear_arith)
        requires
            rpm > 0,
            remaining >= 0,
            q == remaining * 60 / (rpm as int),
    {
    }
}

} // verus!
