//! The clipboard poller's decision step.
//!
//! A background thread reads the OS clipboard at a fixed interval and
//! offers each reading to [`ClipboardMonitor::observe`], which trims it,
//! drops empty and repeated readings, and appends anything new to the
//! history.  The thread itself — the sleeps and the clipboard call — stays
//! with the caller; every decision is made here.

use vstd::prelude::*;

use crate::history::ClipboardHistory;
use crate::text::trim_text;
use crate::text::trimmed;

verus! {

/// How long, in milliseconds, the poller sleeps between clipboard reads.
pub const POLL_INTERVAL_MS: u64 = 100;

/// How much longer, in milliseconds, the poller sleeps after a failed
/// clipboard read.
pub const POLL_BACKOFF_MS: u64 = 200;

/// One attempt to read the OS clipboard, as the caller saw it.
pub enum ClipboardReading {
    /// The clipboard held this text.
    Text(String),
    /// The clipboard could not be read.
    Unavailable,
}

/// What the poller should do after one reading was examined.
#[derive(PartialEq, Eq, Structural)]
pub enum MonitorAction {
    /// The read failed: back off for an extra interval, then try again.
    Retry,
    /// Nothing new: sleep the ordinary interval.
    Idle,
    /// A new entry was appended: persist the history if that is enabled.
    Appended,
}

/// Whether a reading that trims to `t` gets past the debounce when the
/// previous entry was `last`: it must be non-empty and differ from `last`.
pub open spec fn debounce_accepts(last: Seq<char>, t: Seq<char>) -> bool {
    t.len() > 0 && t != last
}

/// The debounce state and history after one reading of raw text `raw`.
pub open spec fn debounce_step(
    last: Seq<char>,
    hist: Seq<Seq<char>>,
    raw: Seq<char>,
) -> (Seq<char>, Seq<Seq<char>>) {
    if debounce_accepts(last, trimmed(raw)) {
        (trimmed(raw), hist.push(trimmed(raw)))
    } else {
        (last, hist)
    }
}

/// The debounce state and history after a sequence of readings, oldest
/// first.
pub open spec fn debounce_run(
    last: Seq<char>,
    hist: Seq<Seq<char>>,
    inputs: Seq<Seq<char>>,
) -> (Seq<char>, Seq<Seq<char>>)
    decreases inputs.len(),
{
    if inputs.len() == 0 {
        (last, hist)
    } else {
        let (l2, h2) = debounce_step(last, hist, inputs[0]);
        debounce_run(l2, h2, inputs.drop_first())
    }
}

/// The poller's own memory: the last value it appended (or found at the
/// end of the history when it started).  It is kept here, not re-read
/// from the store, so that a lock is only taken when something new turned
/// up.
pub struct ClipboardMonitor {
    last_seen: String,
}

impl ClipboardMonitor {
    /// The last value the monitor has seen.
    pub closed spec fn view(&self) -> Seq<char> {
        self.last_seen@
    }

    /// A monitor that starts from the end of `history`: its last entry,
    /// or nothing when the history is empty.
    pub fn new(history: &ClipboardHistory) -> (m: ClipboardMonitor)
        ensures
            m@ == if history@.len() > 0 {
                history@.last()
            } else {
                Seq::<char>::empty()
            },
    {
        let items = history.get_items();
        if items.len() > 0 {
            let last = items[items.len() - 1].clone();
            proof {
                assert(items.deep_view()[items@.len() - 1] == items@[items@.len() - 1]@);
            }
            ClipboardMonitor { last_seen: last }
        } else {
            ClipboardMonitor { last_seen: String::new() }
        }
    }

    /// Examines one clipboard reading.  A failed read asks for a backoff;
    /// text that trims to nothing, or repeats the last value seen, is
    /// dropped; anything else is appended to `history` and remembered.
    pub fn observe(&mut self, reading: &ClipboardReading, history: &mut ClipboardHistory) -> (a:
        MonitorAction)
        ensures
            reading is Unavailable ==> a == MonitorAction::Retry && final(self)@ == old(self)@
                && final(history)@ == old(history)@,
            reading matches ClipboardReading::Text(s) ==> (final(self)@, final(history)@)
                == debounce_step(old(self)@, old(history)@, s@),
            reading matches ClipboardReading::Text(s) ==> (a == MonitorAction::Appended
                <==> debounce_accepts(old(self)@, trimmed(s@))),
            a != MonitorAction::Appended ==> final(self)@ == old(self)@ && final(history)@ == old(
                history,
            )@,
    {
        match reading {
            ClipboardReading::Unavailable => MonitorAction::Retry,
            ClipboardReading::Text(s) => {
                let t = trim_text(s.as_str()).to_owned();
                if t.as_str().unicode_len() == 0 {
                    MonitorAction::Idle
                } else if t == self.last_seen {
                    MonitorAction::Idle
                } else {
                    let entry = t.clone();
                    self.last_seen = t;
                    history.add_item(entry);
                    MonitorAction::Appended
                }
            },
        }
    }
}

/// Feeding a run of readings, each already trimmed, non-empty and
/// pairwise distinct, into an empty history appends every one of them,
/// in order.
pub proof fn lemma_distinct_readings_all_kept(inputs: Seq<Seq<char>>)
    requires
        forall|i: int| 0 <= i < inputs.len() ==> trimmed(#[trigger] inputs[i]) == inputs[i],
        forall|i: int| 0 <= i < inputs.len() ==> #[trigger] inputs[i].len() > 0,
        forall|i: int, j: int| 0 <= i < j < inputs.len() ==> inputs[i] != inputs[j],
    ensures
        debounce_run(Seq::<char>::empty(), Seq::<Seq<char>>::empty(), inputs).1 == inputs,
{
    lemma_fresh_readings_kept(Seq::<char>::empty(), Seq::<Seq<char>>::empty(), inputs);
    assert(Seq::<Seq<char>>::empty() + inputs =~= inputs);
}

/// Feeding a run of trimmed, non-empty readings in which each differs
/// from the one before it (and the first from `last`) appends every one
/// of them, in order.
pub proof fn lemma_fresh_readings_kept(last: Seq<char>, hist: Seq<Seq<char>>, inputs: Seq<Seq<char>>)
    requires
        forall|i: int| 0 <= i < inputs.len() ==> trimmed(#[trigger] inputs[i]) == inputs[i],
        forall|i: int| 0 <= i < inputs.len() ==> #[trigger] inputs[i].len() > 0,
        forall|i: int| 0 < i < inputs.len() ==> inputs[i - 1] != #[trigger] inputs[i],
        inputs.len() > 0 ==> inputs[0] != last,
    ensures
        debounce_run(last, hist, inputs).1 == hist + inputs,
        inputs.len() > 0 ==> debounce_run(last, hist, inputs).0 == inputs.last(),
        inputs.len() == 0 ==> debounce_run(last, hist, inputs).0 == last,
    decreases inputs.len(),
{
    if inputs.len() == 0 {
        assert(hist + inputs =~= hist);
    } else {
        let head = inputs[0];
        assert(debounce_accepts(last, trimmed(head)));
        let rest = inputs.drop_first();
        lemma_fresh_readings_kept(head, hist.push(head), rest);
        assert(hist.push(head) + rest =~= hist + inputs);
    }
}

/// A reading that trims to the last value seen leaves both the debounce
/// state and the history as they were.
pub proof fn lemma_repeat_is_no_op(last: Seq<char>, hist: Seq<Seq<char>>, raw: Seq<char>)
    requires
        trimmed(raw) == last,
    ensures
        debounce_step(last, hist, raw) == (last, hist),
{
}

/// The same value is accepted again once a different entry intervened:
/// after `a`, the run `b` then `a` (all trimmed, non-empty, `a != b`)
/// appends both.
pub proof fn lemma_no_global_dedup(a: Seq<char>, b: Seq<char>, hist: Seq<Seq<char>>)
    requires
        trimmed(a) == a,
        trimmed(b) == b,
        a.len() > 0,
        b.len() > 0,
        a != b,
    ensures
        debounce_run(a, hist, seq![b, a]).1 == hist.push(b).push(a),
{
    let inputs = seq![b, a];
    assert(inputs.drop_first() =~= seq![a]);
    assert(seq![a].drop_first() =~= Seq::<Seq<char>>::empty());
    lemma_fresh_readings_kept(a, hist, inputs);
    assert(hist + inputs =~= hist.push(b).push(a));
}

} // verus!
