//! The commands that wait for a reply, and how each line the device sends is
//! routed to one of them. The table is a `rustc_hash::FxHashMap` keyed by the
//! command id that travels with a tracked command.

use rustc_hash::{FxBuildHasher, FxHashMap};
use vstd::prelude::*;
use vstd::slice::slice_to_vec;

use crate::decimal::{decimal_nat, is_digit, lemma_decimal_nat_digits, lemma_parse_decimal_roundtrip, parse_u32, spec_parse_u32};
use crate::scan::{find_byte, find_either, is_byte, is_either, is_first_hit, lemma_first_hit, position_of, position_of_either};
use crate::sent_log::SentLog;

verus! {

#[verifier::external_type_specification]
#[verifier::external_body]
pub struct ExFxBuildHasher(FxBuildHasher);

/// Adds or replaces an entry (`HashMap::insert`). Trusted: std documents that
/// the key then maps to the value and that the value it replaced comes back.
/// With `u32` keys, whose `Eq` and `Hash` agree, the hasher does not matter.
#[verifier::external_body]
fn table_insert<T>(m: &mut FxHashMap<u32, T>, k: u32, v: T) -> (r: Option<T>)
    ensures
        final(m)@ == old(m)@.insert(k, v),
        match r {
            Some(prev) => old(m)@.contains_key(k) && prev == old(m)@[k],
            None => !old(m)@.contains_key(k),
        },
{
    m.insert(k, v)
}

/// Removes an entry (`HashMap::remove`). Trusted: std documents that the
/// value of the key comes back, if it was there, and the key is gone after.
#[verifier::external_body]
fn table_remove<T>(m: &mut FxHashMap<u32, T>, k: u32) -> (r: Option<T>)
    ensures
        final(m)@ == old(m)@.remove(k),
        match r {
            Some(v) => old(m)@.contains_key(k) && v == old(m)@[k],
            None => !old(m)@.contains_key(k),
        },
{
    m.remove(&k)
}

/// Number of entries (`HashMap::len`). Trusted: std documents it as the
/// number of elements.
#[verifier::external_body]
fn table_len<T>(m: &FxHashMap<u32, T>) -> (count: usize)
    ensures
        count == m@.dom().len(),
{
    m.len()
}

/// The key that the map's iteration yields first (`HashMap::iter`, then
/// `next`). Trusted: the iteration yields each key of the map; which one comes
/// first depends on the hashes and is left unsaid, only that it is a key of the
/// map, and that there is none exactly when the map is empty.
#[verifier::external_body]
fn table_first_key<T>(m: &FxHashMap<u32, T>) -> (r: Option<u32>)
    ensures
        match r {
            Some(k) => m@.contains_key(k),
            None => m@ == Map::<u32, T>::empty(),
        },
{
    m.iter().next().map(|(k, _)| *k)
}

/// Where a line from the device goes.
#[derive(Debug)]
pub enum LineRoute<T> {
    /// To the command with this id, which stops waiting; `by_id` tells
    /// whether the line named the id.
    Reply { id: u32, waiter: T, payload: Vec<u8>, by_id: bool },
    /// Nowhere.
    Dropped,
}

/// A tracked reply: after the first `#`, a command id ends at the first `:`
/// or `\r`; the reply is what follows that delimiter.
pub open spec fn tracked_reply(line: Seq<u8>) -> Option<(u32, Seq<u8>)> {
    match find_byte(line, '#' as u8) {
        None => None,
        Some(h) => {
            let rest = line.skip(h + 1);
            match find_either(rest, ':' as u8, '\r' as u8) {
                None => None,
                Some(c) => match spec_parse_u32(rest.take(c)) {
                    None => None,
                    Some(id) => Some((id, rest.skip(c + 1))),
                },
            }
        },
    }
}

/// The prompt with which the device may start a line.
pub open spec fn prompt() -> Seq<u8> {
    seq!['>' as u8, '>' as u8, '>' as u8]
}

/// The payload of an untracked line: the line without a leading `>>>` prompt
/// and one space after it.
pub open spec fn untracked_payload(line: Seq<u8>) -> Seq<u8> {
    if line.len() >= 3 && line.take(3) == prompt() {
        let p = line.skip(3);
        if p.len() > 0 && p[0] == ' ' as u8 {
            p.skip(1)
        } else {
            p
        }
    } else {
        line
    }
}

/// `r` hands `payload` to the waiting entry `id` of `before`, which is gone in
/// `after`; `named` tells whether the line named the id.
pub open spec fn delivers<T>(
    r: LineRoute<T>,
    before: Map<u32, T>,
    after: Map<u32, T>,
    id: u32,
    payload: Seq<u8>,
    named: bool,
) -> bool {
    &&& before.contains_key(id)
    &&& r matches LineRoute::Reply { id: rid, waiter, payload: p, by_id: t } && rid == id && waiter == before[id]
        && p@ == payload && t == named
    &&& after == before.remove(id)
}

/// `r` drops the line and the table is unchanged.
pub open spec fn drops<T>(r: LineRoute<T>, before: Map<u32, T>, after: Map<u32, T>) -> bool {
    r is Dropped && after == before
}

/// The commands that wait for a reply, by command id.
pub struct PendingTable<T> {
    waiting: FxHashMap<u32, T>,
}

impl<T> View for PendingTable<T> {
    type V = Map<u32, T>;

    closed spec fn view(&self) -> Map<u32, T> {
        self.waiting@
    }
}

impl<T> PendingTable<T> {
    /// The table holds finitely many entries.
    pub closed spec fn wf(&self) -> bool {
        self.waiting@.dom().finite()
    }

    /// No command waits.
    pub fn new() -> (r: Self)
        ensures
            r.wf(),
            r@ == Map::<u32, T>::empty(),
    {
        let r = PendingTable { waiting: FxHashMap::default() };
        assert(r@ =~= Map::<u32, T>::empty());
        r
    }

    /// Whether no command waits.
    pub fn is_empty(&self) -> (r: bool)
        requires
            self.wf(),
        ensures
            r == (self@ == Map::<u32, T>::empty()),
    {
        let n = table_len(&self.waiting);
        proof {
            if n == 0 {
                assert(self@.dom() =~= Set::<u32>::empty());
                assert(self@ =~= Map::<u32, T>::empty());
            } else {
                assert(self@.dom().len() > 0);
                assert(self@ != Map::<u32, T>::empty());
            }
        }
        n == 0
    }

    /// Number of waiting commands.
    pub fn len(&self) -> (n: usize)
        requires
            self.wf(),
        ensures
            n == self@.dom().len(),
    {
        table_len(&self.waiting)
    }

    /// Lets command `id` wait for its reply; what waited under the same id before comes back.
    pub fn register(&mut self, id: u32, waiter: T) -> (r: Option<T>)
        requires
            old(self).wf(),
        ensures
            final(self).wf(),
            final(self)@ == old(self)@.insert(id, waiter),
            match r {
                Some(prev) => old(self)@.contains_key(id) && prev == old(self)@[id],
                None => !old(self)@.contains_key(id),
            },
    {
        table_insert(&mut self.waiting, id, waiter)
    }

    /// Stops command `id` waiting (its time ran out), handing back what waited.
    pub fn cancel(&mut self, id: u32) -> (r: Option<T>)
        requires
            old(self).wf(),
        ensures
            final(self).wf(),
            final(self)@ == old(self)@.remove(id),
            match r {
                Some(v) => old(self)@.contains_key(id) && v == old(self)@[id],
                None => !old(self)@.contains_key(id),
            },
    {
        table_remove(&mut self.waiting, id)
    }

    /// Stops every command waiting, handing each back with its id.
    pub fn take_all(&mut self) -> (r: Vec<(u32, T)>)
        requires
            old(self).wf(),
        ensures
            final(self).wf(),
            final(self)@ == Map::<u32, T>::empty(),
            r@.len() == old(self)@.dom().len(),
            forall|i: int| 0 <= i < r@.len() ==> old(self)@.contains_key(#[trigger] r@[i].0)
                && old(self)@[r@[i].0] == r@[i].1,
            forall|k: u32| old(self)@.contains_key(k) ==> exists|i: int| 0 <= i < r@.len() && #[trigger] r@[i].0 == k,
            forall|i: int, j: int| 0 <= i < j < r@.len() ==> r@[i].0 != r@[j].0,
    {
        let mut out: Vec<(u32, T)> = Vec::new();
        let ghost start = self@;
        let n0 = table_len(&self.waiting);
        loop
            invariant
                self.wf(),
                start.dom().finite(),
                n0 == start.dom().len(),
                out@.len() + self@.dom().len() == start.dom().len(),
                forall|k: u32| #[trigger] self@.contains_key(k) ==> start.contains_key(k) && self@[k] == start[k],
                forall|i: int| 0 <= i < out@.len() ==> start.contains_key(#[trigger] out@[i].0)
                    && start[out@[i].0] == out@[i].1 && !self@.contains_key(out@[i].0),
                forall|k: u32| start.contains_key(k) ==> self@.contains_key(k) || exists|i: int|
                    0 <= i < out@.len() && #[trigger] out@[i].0 == k,
                forall|i: int, j: int| 0 <= i < j < out@.len() ==> out@[i].0 != out@[j].0,
            ensures
                self@ == Map::<u32, T>::empty(),
            decreases self@.dom().len(),
        {
            match table_first_key(&self.waiting) {
                None => {
                    break;
                },
                Some(k) => {
                    let ghost before = self@;
                    let ghost out_before = out@;
                    match table_remove(&mut self.waiting, k) {
                        Some(v) => {
                            out.push((k, v));
                            proof {
                                assert(self@ == before.remove(k));
                                assert(start[k] == v);
                                assert forall|kk: u32| #[trigger] self@.contains_key(kk) implies start.contains_key(kk)
                                    && self@[kk] == start[kk] by {
                                    assert(before.contains_key(kk));
                                }
                                assert forall|i: int| 0 <= i < out@.len() implies start.contains_key(#[trigger] out@[i].0)
                                    && start[out@[i].0] == out@[i].1 && !self@.contains_key(out@[i].0) by {
                                    if i < out_before.len() {
                                        assert(out@[i] == out_before[i]);
                                    }
                                }
                                assert(self@.dom() =~= before.dom().remove(k));
                                assert forall|kk: u32| start.contains_key(kk) implies self@.contains_key(kk)
                                    || exists|i: int| 0 <= i < out@.len() && #[trigger] out@[i].0 == kk by {
                                    if kk == k {
                                        assert(out@[out@.len() - 1].0 == kk);
                                    } else if !self@.contains_key(kk) {
                                        let i = choose|i: int| 0 <= i < out_before.len() && #[trigger] out_before[i].0 == kk;
                                        assert(out@[i].0 == kk);
                                    }
                                }
                            }
                        },
                        None => {
                            break;
                        },
                    }
                },
            }
        }
        proof {
            assert(self@.dom() =~= Set::<u32>::empty());
        }
        out
    }

    /// Routes one line from the device, as it arrived without its line end.
    /// A tracked reply goes to the command whose id it names, if that one
    /// still waits. Any other line goes to some waiting command, unless none
    /// waits or the line, without a `>>>` prompt, is the echo of a command in
    /// `sent`.
    pub fn route_line(&mut self, line: &[u8], sent: &SentLog) -> (r: LineRoute<T>)
        requires
            old(self).wf(),
        ensures
            final(self).wf(),
            match tracked_reply(line@) {
                Some((id, reply)) => if old(self)@.contains_key(id) {
                    delivers(r, old(self)@, final(self)@, id, reply, true)
                } else {
                    drops(r, old(self)@, final(self)@)
                },
                None => if old(self)@ == Map::<u32, T>::empty() || sent@.contains(untracked_payload(line@)) {
                    drops(r, old(self)@, final(self)@)
                } else {
                    exists|id: u32| delivers(r, old(self)@, final(self)@, id, untracked_payload(line@), false)
                },
            },
    {
        proof {
            assert(self@.dom().finite());
        }
        let len = line.len();
        if let Some(h) = position_of(line, '#' as u8) {
            proof {
                lemma_first_hit(line@, is_byte('#' as u8));
            }
            let rest = slice_subrange(line, h + 1, len);
            assert(rest@ =~= line@.skip(h + 1));
            if let Some(c) = position_of_either(rest, ':' as u8, '\r' as u8) {
                proof {
                    lemma_first_hit(rest@, is_either(':' as u8, '\r' as u8));
                }
                let digits = slice_subrange(rest, 0, c);
                assert(digits@ =~= rest@.take(c as int));
                if let Some(id) = parse_u32(digits) {
                    let reply = slice_subrange(rest, c + 1, rest.len());
                    assert(reply@ =~= rest@.skip(c + 1));
                    return match table_remove(&mut self.waiting, id) {
                        Some(waiter) => LineRoute::Reply { id, waiter, payload: slice_to_vec(reply), by_id: true },
                        None => {
                            assert(final(self)@ =~= old(self)@);
                            LineRoute::Dropped
                        },
                    };
                }
            }
        }
        if self.is_empty() {
            return LineRoute::Dropped;
        }
        let payload = if len >= 3 && line[0] == '>' as u8 && line[1] == '>' as u8 && line[2] == '>' as u8 {
            let p = slice_subrange(line, 3, len);
            if p.len() > 0 && p[0] == ' ' as u8 {
                slice_subrange(p, 1, p.len())
            } else {
                p
            }
        } else {
            line
        };
        proof {
            if len >= 3 && line@[0] == '>' as u8 && line@[1] == '>' as u8 && line@[2] == '>' as u8 {
                assert(line@.take(3) =~= prompt());
            } else if len >= 3 {
                assert(line@.take(3) != prompt()) by {
                    if line@.take(3) == prompt() {
                        assert(line@.take(3)[0] == '>' as u8);
                        assert(line@.take(3)[1] == '>' as u8);
                        assert(line@.take(3)[2] == '>' as u8);
                    }
                }
            }
            assert(payload@ =~= untracked_payload(line@));
        }
        if sent.contains(payload) {
            return LineRoute::Dropped;
        }
        match table_first_key(&self.waiting) {
            Some(id) => match table_remove(&mut self.waiting, id) {
                Some(waiter) => {
                    let r = LineRoute::Reply { id, waiter, payload: slice_to_vec(payload), by_id: false };
                    assert(delivers(r, old(self)@, self@, id, untracked_payload(line@), false));
                    r
                },
                None => LineRoute::Dropped,
            },
            None => LineRoute::Dropped,
        }
    }
}

/// The bytes of `s` from `start` up to `end`.
fn slice_subrange(s: &[u8], start: usize, end: usize) -> (r: &[u8])
    requires
        start <= end <= s@.len(),
    ensures
        r@ == s@.subrange(start as int, end as int),
{
    vstd::slice::slice_subrange(s, start, end)
}


/// The reply line that the device sends for tracked command `id`: any text
/// without `#`, then `#`, the id in decimal, `:`, and the reply.
pub open spec fn reply_line(prefix: Seq<u8>, id: u32, reply: Seq<u8>) -> Seq<u8> {
    prefix + seq!['#' as u8] + decimal_nat(id as nat) + seq![':' as u8] + reply
}

/// A line with text without `#`, then `#`, the decimal text of `id`, a `:` or
/// `\r`, and `reply` is a tracked reply for `id` carrying `reply` unchanged.
pub proof fn lemma_tagged_line_is_tracked(prefix: Seq<u8>, id: u32, end: u8, reply: Seq<u8>)
    requires
        !prefix.contains('#' as u8),
        end == ':' as u8 || end == '\r' as u8,
    ensures
        tracked_reply(prefix + seq!['#' as u8] + decimal_nat(id as nat) + seq![end] + reply) == Some((id, reply)),
{
    let line = prefix + seq!['#' as u8] + decimal_nat(id as nat) + seq![end] + reply;
    let digits = decimal_nat(id as nat);
    lemma_decimal_nat_digits(id as nat);
    lemma_parse_decimal_roundtrip(id);
    let h = prefix.len() as int;
    assert(line[h] == '#' as u8);
    assert forall|j: int| 0 <= j < h implies !is_byte('#' as u8)(#[trigger] line[j]) by {
        assert(line[j] == prefix[j]);
        if line[j] == '#' as u8 {
            assert(prefix.contains('#' as u8));
        }
    }
    assert(is_first_hit(line, is_byte('#' as u8), h));
    lemma_first_hit(line, is_byte('#' as u8));
    let rest = line.skip(h + 1);
    assert(rest =~= digits + seq![end] + reply);
    let c = digits.len() as int;
    assert(rest[c] == end);
    assert forall|j: int| 0 <= j < c implies !is_either(':' as u8, '\r' as u8)(#[trigger] rest[j]) by {
        assert(rest[j] == digits[j]);
        assert(is_digit(digits[j]));
    }
    assert(is_first_hit(rest, is_either(':' as u8, '\r' as u8), c));
    lemma_first_hit(rest, is_either(':' as u8, '\r' as u8));
    assert(rest.take(c) =~= digits);
    assert(rest.skip(c + 1) =~= reply);
}

/// A reply line names the id that the tracked command was framed with, and
/// carries the reply unchanged.
pub proof fn lemma_reply_line_is_tracked(prefix: Seq<u8>, id: u32, reply: Seq<u8>)
    requires
        !prefix.contains('#' as u8),
    ensures
        tracked_reply(reply_line(prefix, id, reply)) == Some((id, reply)),
{
    lemma_tagged_line_is_tracked(prefix, id, ':' as u8, reply);
}

/// A line without `#` is not a tracked reply.
pub proof fn lemma_untagged_line_is_untracked(line: Seq<u8>)
    requires
        !line.contains('#' as u8),
    ensures
        tracked_reply(line) is None,
{
    lemma_first_hit(line, is_byte('#' as u8));
    if let Some(h) = find_byte(line, '#' as u8) {
        assert(line[h] == '#' as u8);
    }
}

/// The payload of an untracked line: after the prompt `>>> ` or `>>>` the
/// rest of the line; a line that does not start with `>>>` is its own payload.
pub proof fn lemma_untracked_payload(rest: Seq<u8>, line: Seq<u8>)
    ensures
        untracked_payload(seq!['>' as u8, '>' as u8, '>' as u8, ' ' as u8] + rest) == rest,
        rest.len() == 0 || rest[0] != ' ' as u8 ==> untracked_payload(seq!['>' as u8, '>' as u8, '>' as u8] + rest)
            == rest,
        line.len() < 3 || line[0] != '>' as u8 || line[1] != '>' as u8 || line[2] != '>' as u8
            ==> untracked_payload(line) == line,
{
    let a = seq!['>' as u8, '>' as u8, '>' as u8, ' ' as u8] + rest;
    assert(a.take(3) =~= prompt());
    assert(a.skip(3).skip(1) =~= rest);
    let b = seq!['>' as u8, '>' as u8, '>' as u8] + rest;
    assert(b.take(3) =~= prompt());
    assert(b.skip(3) =~= rest);
    if line.len() >= 3 && line.take(3) == prompt() {
        assert(line[0] == line.take(3)[0]);
        assert(line[1] == line.take(3)[1]);
        assert(line[2] == line.take(3)[2]);
    }
}

/// A command registered under `id` receives the reply line for `id`: the line
/// names `id`, the table then holds the command's waiter under `id`, and
/// delivering it leaves the rest of the table as it was.
pub proof fn lemma_registered_command_gets_reply<T>(
    table: Map<u32, T>,
    id: u32,
    waiter: T,
    prefix: Seq<u8>,
    reply: Seq<u8>,
)
    requires
        !prefix.contains('#' as u8),
    ensures
        tracked_reply(reply_line(prefix, id, reply)) == Some((id, reply)),
        table.insert(id, waiter).contains_key(id),
        table.insert(id, waiter)[id] == waiter,
        table.insert(id, waiter).remove(id) == table.remove(id),
{
    lemma_reply_line_is_tracked(prefix, id, reply);
    assert(table.insert(id, waiter).remove(id) =~= table.remove(id));
}

} // verus!
