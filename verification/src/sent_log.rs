//! The log of recently sent commands, against which the echo of a command
//! that the device sends back is recognised.

use std::collections::VecDeque;
use vstd::prelude::*;
use vstd::slice::slice_to_vec;

verus! {

/// How many sent commands the log remembers.
pub const SENT_LOG_CAPACITY: usize = 32;

/// The log after `payload` is recorded in `log`: the oldest entry leaves when
/// the log is full.
pub open spec fn spec_record(log: Seq<Seq<u8>>, payload: Seq<u8>) -> Seq<Seq<u8>> {
    if log.len() >= SENT_LOG_CAPACITY {
        log.drop_first().push(payload)
    } else {
        log.push(payload)
    }
}

/// The log after recording each of `payloads` in turn, from an empty log.
pub open spec fn spec_record_all(payloads: Seq<Seq<u8>>) -> Seq<Seq<u8>>
    decreases payloads.len(),
{
    if payloads.len() == 0 {
        Seq::empty()
    } else {
        spec_record(spec_record_all(payloads.drop_last()), payloads.last())
    }
}

/// The most recent `SENT_LOG_CAPACITY` of `payloads`, oldest first.
pub open spec fn most_recent(payloads: Seq<Seq<u8>>) -> Seq<Seq<u8>> {
    if payloads.len() > SENT_LOG_CAPACITY {
        payloads.skip(payloads.len() - SENT_LOG_CAPACITY)
    } else {
        payloads
    }
}

/// Bounded log of sent command payloads, oldest first.
pub struct SentLog {
    entries: VecDeque<Vec<u8>>,
}

impl View for SentLog {
    type V = Seq<Seq<u8>>;

    closed spec fn view(&self) -> Seq<Seq<u8>> {
        self.entries@.map_values(|v: Vec<u8>| v@)
    }
}

/// Whether two byte strings are equal.
pub fn bytes_equal(a: &[u8], b: &[u8]) -> (r: bool)
    ensures
        r == (a@ == b@),
{
    if a.len() != b.len() {
        return false;
    }
    let mut i: usize = 0;
    while i < a.len()
        invariant
            a@.len() == b@.len(),
            i <= a@.len(),
            forall|k: int| 0 <= k < i ==> a@[k] == b@[k],
        decreases a@.len() - i,
    {
        if a[i] != b[i] {
            return false;
        }
        i = i + 1;
    }
    assert(a@ =~= b@);
    true
}

impl SentLog {
    /// The log holds at most `SENT_LOG_CAPACITY` entries.
    pub open spec fn wf(&self) -> bool {
        self@.len() <= SENT_LOG_CAPACITY
    }

    /// An empty log.
    pub fn new() -> (r: Self)
        ensures
            r.wf(),
            r@ == Seq::<Seq<u8>>::empty(),
    {
        let r = SentLog { entries: VecDeque::with_capacity(SENT_LOG_CAPACITY) };
        assert(r@ =~= Seq::<Seq<u8>>::empty());
        r
    }

    /// Number of remembered payloads.
    pub fn len(&self) -> (n: usize)
        ensures
            n == self@.len(),
    {
        self.entries.len()
    }

    /// Remembers a payload that was just sent, forgetting the oldest one when
    /// the log is full.
    pub fn record(&mut self, payload: &[u8])
        requires
            old(self).wf(),
        ensures
            final(self).wf(),
            final(self)@ == spec_record(old(self)@, payload@),
    {
        if self.entries.len() == SENT_LOG_CAPACITY {
            let _ = self.entries.pop_front();
        }
        self.entries.push_back(slice_to_vec(payload));
        assert(self@ =~= spec_record(old(self)@, payload@));
    }

    /// Whether `payload` is one of the remembered payloads.
    pub fn contains(&self, payload: &[u8]) -> (r: bool)
        ensures
            r == self@.contains(payload@),
    {
        let n = self.entries.len();
        let mut i: usize = 0;
        while i < n
            invariant
                n == self@.len(),
                i <= n,
                forall|k: int| 0 <= k < i ==> self@[k] != payload@,
            decreases n - i,
        {
            if bytes_equal(self.entries[i].as_slice(), payload) {
                assert(self@[i as int] == payload@);
                return true;
            }
            i = i + 1;
        }
        false
    }
}

/// Recording payloads one after another leaves exactly the most recent
/// `SENT_LOG_CAPACITY` of them in the log, oldest first.
pub proof fn lemma_log_keeps_most_recent(payloads: Seq<Seq<u8>>)
    ensures
        spec_record_all(payloads) == most_recent(payloads),
    decreases payloads.len(),
{
    if payloads.len() > 0 {
        let prev = payloads.drop_last();
        lemma_log_keeps_most_recent(prev);
        let cap = SENT_LOG_CAPACITY as int;
        if prev.len() >= cap {
            assert(prev.skip(prev.len() - cap).drop_first().push(payloads.last())
                =~= payloads.skip(payloads.len() - cap));
        } else {
            assert(prev.push(payloads.last()) =~= payloads);
        }
    }
}

/// A payload just recorded is in the log.
pub proof fn lemma_recorded_is_remembered(log: Seq<Seq<u8>>, payload: Seq<u8>)
    ensures
        spec_record(log, payload).contains(payload),
{
    let r = spec_record(log, payload);
    assert(r[r.len() - 1] == payload);
}

/// The log remembers the last 32 payloads sent: after any sequence of
/// records it holds `min(n, 32)` entries, the newest last, and each of the
/// last 32 payloads is in it.
pub proof fn lemma_log_holds_last_32(payloads: Seq<Seq<u8>>)
    ensures
        spec_record_all(payloads).len() == if payloads.len() < 32 { payloads.len() } else { 32 },
        payloads.len() > 0 ==> spec_record_all(payloads).last() == payloads.last(),
        forall|i: int| payloads.len() - 32 <= i < payloads.len() && 0 <= i ==>
            spec_record_all(payloads).contains(#[trigger] payloads[i]),
{
    lemma_log_keeps_most_recent(payloads);
    let m = most_recent(payloads);
    assert forall|i: int| payloads.len() - 32 <= i < payloads.len() && 0 <= i implies
        spec_record_all(payloads).contains(#[trigger] payloads[i]) by {
        if payloads.len() > 32 {
            let k = i - (payloads.len() - 32);
            assert(m[k] == payloads[i]);
        } else {
            assert(m[i] == payloads[i]);
        }
    }
}

} // verus!
