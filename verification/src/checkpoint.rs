//! Voting power recorded against the ledger it changed on.
//!
//! A proposal is decided on the power that existed at its snapshot ledger, not
//! the power that exists when the vote is counted. Otherwise a member could
//! acquire power after seeing how a vote is going.
//!
//! A series keeps every value it has held, oldest first, each with the ledger
//! from which it applied, so a read at a past ledger is a binary search rather
//! than a walk of the whole history.

use vstd::prelude::*;

verus! {

/// A recorded value and the ledger from which it applied.
#[derive(Clone, Copy, Debug, PartialEq, Eq, Structural)]
pub struct Checkpoint {
    pub ledger: u32,
    pub value: u128,
}

/// The history of one series, oldest entry first.
pub struct CheckpointSeries {
    entries: Vec<Checkpoint>,
}

impl View for CheckpointSeries {
    type V = Seq<Checkpoint>;

    closed spec fn view(&self) -> Seq<Checkpoint> {
        self.entries@
    }
}

/// A history is well formed when its ledgers strictly increase, so no ledger
/// holds two values, and when its length can be counted in a `u32`.
pub open spec fn series_wf(s: Seq<Checkpoint>) -> bool {
    &&& s.len() <= u32::MAX
    &&& forall|i: int, j: int| 0 <= i < j < s.len() ==> #[trigger] s[i].ledger < #[trigger] s[j].ledger
}

/// The value a history holds now: its last entry, or zero when it is empty.
pub open spec fn latest_of(s: Seq<Checkpoint>) -> u128 {
    if s.len() == 0 {
        0
    } else {
        s.last().value
    }
}

/// The value a history held at `ledger`: that of the last entry recorded at
/// or before it, or zero when there is none.
pub open spec fn value_at_of(s: Seq<Checkpoint>, ledger: u32) -> u128
    decreases s.len(),
{
    if s.len() == 0 {
        0
    } else if s.last().ledger <= ledger {
        s.last().value
    } else {
        value_at_of(s.drop_last(), ledger)
    }
}

/// The history after `value` is recorded at `now`: a second change within one
/// ledger replaces that ledger's entry rather than adding another.
pub open spec fn recorded(s: Seq<Checkpoint>, now: u32, value: u128) -> Seq<Checkpoint> {
    if s.len() > 0 && s.last().ledger == now {
        s.update(s.len() - 1, Checkpoint { ledger: now, value })
    } else {
        s.push(Checkpoint { ledger: now, value })
    }
}

/// Whether `value` may be recorded at `now`: time does not run backwards, and
/// a new entry, if one is needed, still leaves the length countable.
pub open spec fn can_record(s: Seq<Checkpoint>, now: u32) -> bool {
    &&& s.len() == 0 || s.last().ledger <= now
    &&& s.len() < u32::MAX || s.last().ledger == now
}

/// A value moved by `delta`, saturating at zero on the way down.
pub open spec fn adjusted(current: u128, delta: i128) -> int {
    if delta >= 0 {
        current + delta
    } else if current + delta >= 0 {
        current + delta
    } else {
        0
    }
}

/// Every value a history has held is at most `bound`.
pub open spec fn values_within(s: Seq<Checkpoint>, bound: u128) -> bool {
    forall|i: int| 0 <= i < s.len() ==> #[trigger] s[i].value <= bound
}

/// A history whose values stay within a bound reads within it at every ledger.
pub proof fn lemma_value_at_within(s: Seq<Checkpoint>, bound: u128, ledger: u32)
    requires
        values_within(s, bound),
    ensures
        value_at_of(s, ledger) <= bound,
        latest_of(s) <= bound,
    decreases s.len(),
{
    if s.len() > 0 {
        let t = s.drop_last();
        assert forall|i: int| 0 <= i < t.len() implies #[trigger] t[i].value <= bound by {
            assert(t[i] == s[i]);
        }
        lemma_value_at_within(t, bound, ledger);
    }
}

/// Recording a value within a bound keeps a history within it.
pub proof fn lemma_recorded_within(s: Seq<Checkpoint>, now: u32, value: u128, bound: u128)
    requires
        values_within(s, bound),
        value <= bound,
    ensures
        values_within(recorded(s, now, value), bound),
{
    let r = recorded(s, now, value);
    assert forall|i: int| 0 <= i < r.len() implies #[trigger] r[i].value <= bound by {
        if i < s.len() && !(s.len() > 0 && s.last().ledger == now && i == s.len() - 1) {
            assert(r[i] == s[i]);
        }
    }
}

/// Every entry of a history lies at or before `now`.
pub open spec fn ends_by(s: Seq<Checkpoint>, now: u32) -> bool {
    s.len() == 0 || s.last().ledger <= now
}

impl CheckpointSeries {
    /// An empty history: every read returns zero.
    pub fn new() -> (s: Self)
        ensures
            s@ == Seq::<Checkpoint>::empty(),
    {
        CheckpointSeries { entries: Vec::new() }
    }

    /// The entry at `index`, oldest first.
    pub fn entry(&self, index: u32) -> (c: Checkpoint)
        requires
            index < self@.len(),
        ensures
            c == self@[index as int],
    {
        self.entries[index as usize]
    }
}

/// Returns how many entries a series holds.
pub fn count(series: &CheckpointSeries) -> (n: u32)
    requires
        series_wf(series@),
    ensures
        n == series@.len(),
{
    series.entries.len() as u32
}

/// Returns the value of a series as it stands now.
pub fn latest(series: &CheckpointSeries) -> (v: u128)
    requires
        series_wf(series@),
    ensures
        v == latest_of(series@),
{
    let n = count(series);
    if n == 0 {
        return 0;
    }
    series.entry(n - 1).value
}

/// In a well formed history, the value at `ledger` is that of entry `k` when
/// `k` lies at or before `ledger` and every later entry lies after it.
pub proof fn lemma_value_at_is_last_before(s: Seq<Checkpoint>, ledger: u32, k: int)
    requires
        series_wf(s),
        0 <= k < s.len(),
        s[k].ledger <= ledger,
        forall|j: int| k < j < s.len() ==> s[j].ledger > ledger,
    ensures
        value_at_of(s, ledger) == s[k].value,
    decreases s.len(),
{
    if k < s.len() - 1 {
        assert(s.last() == s[s.len() - 1]);
        let t = s.drop_last();
        assert forall|i: int, j: int| 0 <= i < j < t.len() implies #[trigger] t[i].ledger < #[trigger] t[j].ledger by {
            assert(t[i] == s[i] && t[j] == s[j]);
        }
        assert forall|j: int| k < j < t.len() implies t[j].ledger > ledger by {
            assert(t[j] == s[j]);
        }
        lemma_value_at_is_last_before(t, ledger, k);
    }
}

/// In a well formed history whose first entry lies after `ledger`, the value
/// at `ledger` is zero.
pub proof fn lemma_value_at_before_first(s: Seq<Checkpoint>, ledger: u32)
    requires
        series_wf(s),
        s.len() == 0 || s[0].ledger > ledger,
    ensures
        value_at_of(s, ledger) == 0,
    decreases s.len(),
{
    if s.len() > 0 {
        if s.len() > 1 {
            assert(s[0].ledger < s[s.len() - 1].ledger);
        }
        let t = s.drop_last();
        assert forall|i: int, j: int| 0 <= i < j < t.len() implies #[trigger] t[i].ledger < #[trigger] t[j].ledger by {
            assert(t[i] == s[i] && t[j] == s[j]);
        }
        if t.len() > 0 {
            assert(t[0] == s[0]);
        }
        lemma_value_at_before_first(t, ledger);
    }
}

/// Returns the value a series held at `ledger`.
///
/// A ledger before the first entry reads as zero, which is correct: there was
/// no power then.
pub fn value_at(series: &CheckpointSeries, ledger: u32) -> (v: u128)
    requires
        series_wf(series@),
    ensures
        v == value_at_of(series@, ledger),
{
    let n = count(series);
    if n == 0 {
        return 0;
    }
    let ghost s = series@;
    // The common case, asked for by every vote on a live proposal.
    let last = series.entry(n - 1);
    if last.ledger <= ledger {
        proof {
            lemma_value_at_is_last_before(s, ledger, s.len() - 1);
        }
        return last.value;
    }
    let first = series.entry(0);
    if first.ledger > ledger {
        proof {
            lemma_value_at_before_first(s, ledger);
        }
        return 0;
    }
    // Binary search for the last entry at or before `ledger`.
    let mut low: u32 = 0;
    let mut high: u32 = n - 1;
    while low < high
        invariant
            s == series@,
            series_wf(s),
            n == s.len(),
            low <= high < n,
            s[low as int].ledger <= ledger,
            forall|j: int| high < j < n ==> s[j].ledger > ledger,
        decreases high - low,
    {
        let mid = high - (high - low) / 2;
        if series.entry(mid).ledger <= ledger {
            low = mid;
        } else {
            proof {
                assert forall|j: int| mid <= j < n implies s[j].ledger > ledger by {
                    if j > mid {
                        assert(s[mid as int].ledger < s[j].ledger);
                    }
                }
            }
            high = mid - 1;
        }
    }
    proof {
        lemma_value_at_is_last_before(s, ledger, low as int);
    }
    series.entry(low).value
}

/// Recording keeps a history well formed and keeps it ending by `now`.
pub proof fn lemma_recorded_wf(s: Seq<Checkpoint>, now: u32, value: u128)
    requires
        series_wf(s),
        can_record(s, now),
    ensures
        series_wf(recorded(s, now, value)),
        ends_by(recorded(s, now, value), now),
        latest_of(recorded(s, now, value)) == value,
        recorded(s, now, value).len() >= 1,
{
    let r = recorded(s, now, value);
    if s.len() > 0 && s.last().ledger == now {
        assert forall|i: int, j: int| 0 <= i < j < r.len() implies #[trigger] r[i].ledger < #[trigger] r[j].ledger by {
            if j == r.len() - 1 {
                assert(s[i].ledger < s[j].ledger);
            } else {
                assert(r[i] == s[i] && r[j] == s[j]);
            }
        }
    } else {
        assert forall|i: int, j: int| 0 <= i < j < r.len() implies #[trigger] r[i].ledger < #[trigger] r[j].ledger by {
            if j == r.len() - 1 {
                assert(r[i] == s[i]);
                if i < s.len() - 1 {
                    assert(s[i].ledger < s[s.len() - 1].ledger);
                }
            } else {
                assert(r[i] == s[i] && r[j] == s[j]);
            }
        }
    }
}

/// Recording at `now` changes no reading at a ledger before `now`, and every
/// reading from `now` on gives the recorded value. Once a ledger has passed,
/// what a series held at it is fixed.
pub proof fn lemma_recorded_keeps_the_past(s: Seq<Checkpoint>, now: u32, value: u128, ledger: u32)
    requires
        series_wf(s),
        can_record(s, now),
    ensures
        ledger < now ==> value_at_of(recorded(s, now, value), ledger) == value_at_of(s, ledger),
        ledger >= now ==> value_at_of(recorded(s, now, value), ledger) == value,
{
    let r = recorded(s, now, value);
    lemma_recorded_wf(s, now, value);
    if ledger >= now {
        lemma_value_at_is_last_before(r, ledger, r.len() - 1);
    } else if s.len() > 0 && s.last().ledger == now {
        assert(r.drop_last() == s.drop_last());
        assert(value_at_of(s, ledger) == value_at_of(s.drop_last(), ledger));
    } else {
        assert(r.drop_last() == s);
    }
}

/// Records a new value for a series from `now` onwards.
///
/// Several changes inside one ledger collapse into a single entry, so the
/// series never holds two values for the same ledger.
pub fn record(series: &mut CheckpointSeries, now: u32, value: u128)
    requires
        series_wf(old(series)@),
        can_record(old(series)@, now),
    ensures
        final(series)@ == recorded(old(series)@, now, value),
        series_wf(final(series)@),
        ends_by(final(series)@, now),
        latest_of(final(series)@) == value,
{
    proof {
        lemma_recorded_wf(series@, now, value);
    }
    let n = count(series);
    if n > 0 {
        let last = series.entry(n - 1);
        if last.ledger == now {
            series.entries.set((n - 1) as usize, Checkpoint { ledger: now, value });
            return;
        }
    }
    series.entries.push(Checkpoint { ledger: now, value });
}

/// Adds `delta` to a series, saturating at zero on the way down.
pub fn adjust(series: &mut CheckpointSeries, now: u32, delta: i128)
    requires
        series_wf(old(series)@),
        can_record(old(series)@, now),
        adjusted(latest_of(old(series)@), delta) <= u128::MAX,
    ensures
        final(series)@ == recorded(old(series)@, now, adjusted(latest_of(old(series)@), delta) as u128),
        series_wf(final(series)@),
        ends_by(final(series)@, now),
        latest_of(final(series)@) == adjusted(latest_of(old(series)@), delta),
{
    let current = latest(series);
    let next: u128 = if delta >= 0 {
        current + (delta as u128)
    } else {
        // The magnitude of a negative delta, computed without overflowing at
        // the most negative value.
        let magnitude: u128 = ((-(delta + 1)) as u128) + 1;
        current.saturating_sub(magnitude)
    };
    record(series, now, next);
}

} // verus!
