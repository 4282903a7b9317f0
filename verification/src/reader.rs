//! Splitting the byte stream that the device sends into button reports and
//! text lines, with a `bytes::BytesMut` as the receive buffer.

use bytes::BytesMut;
use vstd::prelude::*;
use vstd::slice::slice_to_vec;

use crate::buttons::{spec_from_mask, MouseButtonStates};
use crate::scan::{find_byte, is_byte, is_first_hit, lemma_first_hit, position_of};

verus! {

#[verifier::external_type_specification]
#[verifier::external_body]
pub struct ExBytesMut(BytesMut);

/// The bytes that a `BytesMut` holds.
pub uninterp spec fn bytes_mut_contents(b: BytesMut) -> Seq<u8>;

/// An empty buffer with room for `capacity` bytes (`BytesMut::with_capacity`).
/// Trusted: the crate documents that the new buffer holds no data; it panics
/// on a capacity above `isize::MAX`, which `requires` excludes.
#[verifier::external_body]
fn buffer_with_capacity(capacity: usize) -> (b: BytesMut)
    requires
        capacity <= isize::MAX,
    ensures
        bytes_mut_contents(b) == Seq::<u8>::empty(),
{
    BytesMut::with_capacity(capacity)
}

/// Appends a slice (`BytesMut::extend_from_slice`). Trusted: the crate
/// documents that the bytes are appended at the end. Growing the buffer
/// panics, as any allocation does, when the capacity it asks for passes
/// `isize::MAX`; `requires` keeps the length below that, but the spare
/// capacity that growth adds (up to doubling) is not modelled, so freedom from
/// that panic for lengths near the limit is left unsaid.
#[verifier::external_body]
fn buffer_extend(b: &mut BytesMut, extra: &[u8])
    requires
        bytes_mut_contents(*old(b)).len() + extra@.len() <= isize::MAX,
    ensures
        bytes_mut_contents(*final(b)) == bytes_mut_contents(*old(b)) + extra@,
{
    b.extend_from_slice(extra)
}

/// Splits off the first `at` bytes (`BytesMut::split_to`). Trusted: the crate
/// documents that the result holds `[0, at)` and the buffer keeps `[at, len)`;
/// it panics when `at` is past the end, which `requires` excludes.
#[verifier::external_body]
fn buffer_split_to(b: &mut BytesMut, at: usize) -> (head: BytesMut)
    requires
        at <= bytes_mut_contents(*old(b)).len(),
    ensures
        bytes_mut_contents(head) == bytes_mut_contents(*old(b)).take(at as int),
        bytes_mut_contents(*final(b)) == bytes_mut_contents(*old(b)).skip(at as int),
{
    b.split_to(at)
}

/// Keeps the first `len` bytes (`BytesMut::truncate`). Trusted: the crate
/// documents that a `len` at or past the end has no effect.
#[verifier::external_body]
fn buffer_truncate(b: &mut BytesMut, len: usize)
    ensures
        bytes_mut_contents(*final(b)) == if len <= bytes_mut_contents(*old(b)).len() {
            bytes_mut_contents(*old(b)).take(len as int)
        } else {
            bytes_mut_contents(*old(b))
        },
{
    b.truncate(len)
}

/// The buffer's bytes as a slice (`<BytesMut as Deref>::deref`). Trusted: the
/// slice is the buffer's contents.
#[verifier::external_body]
fn buffer_bytes(b: &BytesMut) -> (s: &[u8])
    ensures
        s@ == bytes_mut_contents(*b),
{
    b
}

/// What one read from the device means.
#[derive(Debug)]
pub enum ReaderEvent {
    /// A single control byte: the device reports which buttons are held.
    Buttons(MouseButtonStates),
    /// A complete, non-empty text line, without its line ending.
    Line(Vec<u8>),
}

/// A read that is a button report: one byte below 32 that is not `\r` or `\n`.
pub open spec fn is_button_report(chunk: Seq<u8>) -> bool {
    chunk.len() == 1 && chunk[0] < 32 && chunk[0] != '\r' as u8 && chunk[0] != '\n' as u8
}

/// A line without its `\n`, and without one `\r` before it.
pub open spec fn strip_line_end(raw: Seq<u8>) -> Seq<u8> {
    if raw.len() > 0 && raw.last() == '\r' as u8 {
        raw.drop_last()
    } else {
        raw
    }
}

/// The non-empty lines that `s` completes, in order, each without its line end.
pub open spec fn complete_lines(s: Seq<u8>) -> Seq<Seq<u8>>
    decreases s.len(),
{
    match find_byte(s, '\n' as u8) {
        None => Seq::empty(),
        Some(i) => {
            proof {
                lemma_first_hit(s, is_byte('\n' as u8));
            }
            let line = strip_line_end(s.take(i));
            let rest = complete_lines(s.skip(i + 1));
            if line.len() == 0 {
                rest
            } else {
                seq![line] + rest
            }
        },
    }
}

/// What stays of `s` after its last `\n`: a line that has not ended yet.
pub open spec fn unfinished_tail(s: Seq<u8>) -> Seq<u8>
    decreases s.len(),
{
    match find_byte(s, '\n' as u8) {
        None => s,
        Some(i) => {
            proof {
                lemma_first_hit(s, is_byte('\n' as u8));
            }
            unfinished_tail(s.skip(i + 1))
        },
    }
}

/// `events` are exactly the lines `lines`, in order.
pub open spec fn events_are_lines(events: Seq<ReaderEvent>, lines: Seq<Seq<u8>>) -> bool {
    &&& events.len() == lines.len()
    &&& forall|i: int|
        0 <= i < events.len() ==> (#[trigger] events[i] matches ReaderEvent::Line(v) && v@ == lines[i])
}

/// Receive buffer for the device's byte stream: it holds the start of a line
/// whose `\n` has not arrived yet.
pub struct LineReader {
    buf: BytesMut,
}

impl View for LineReader {
    type V = Seq<u8>;

    closed spec fn view(&self) -> Seq<u8> {
        bytes_mut_contents(self.buf)
    }
}

impl LineReader {
    /// The buffer never holds a complete line.
    pub open spec fn wf(&self) -> bool {
        find_byte(self@, '\n' as u8) is None
    }

    /// An empty reader.
    pub fn new() -> (r: Self)
        ensures
            r.wf(),
            r@ == Seq::<u8>::empty(),
    {
        let r = LineReader { buf: buffer_with_capacity(2048) };
        proof {
            lemma_first_hit(r@, is_byte('\n' as u8));
        }
        r
    }

    /// Number of buffered bytes.
    pub fn len(&self) -> (n: usize)
        ensures
            n == self@.len(),
    {
        buffer_bytes(&self.buf).len()
    }

    /// Handles the bytes of one read: a single control byte is a button report;
    /// anything else joins the buffer, and every line it completes comes out.
    pub fn feed(&mut self, chunk: &[u8]) -> (events: Vec<ReaderEvent>)
        requires
            old(self).wf(),
            old(self)@.len() + chunk@.len() <= isize::MAX,
        ensures
            final(self).wf(),
            is_button_report(chunk@) ==> {
                &&& final(self)@ == old(self)@
                &&& events@.len() == 1
                &&& events@[0] == ReaderEvent::Buttons(spec_from_mask(chunk@[0]))
            },
            chunk@.len() == 1 && chunk@[0] < 32 && chunk@[0] != '\r' as u8 && chunk@[0] != '\n' as u8 ==> {
                &&& final(self)@ == old(self)@
                &&& events@ == seq![ReaderEvent::Buttons(spec_from_mask(chunk@[0]))]
            },
            !is_button_report(chunk@) ==> {
                &&& final(self)@ == unfinished_tail(old(self)@ + chunk@)
                &&& events_are_lines(events@, complete_lines(old(self)@ + chunk@))
            },
    {
        let mut events: Vec<ReaderEvent> = Vec::new();
        if chunk.len() == 1 && chunk[0] < 32u8 && chunk[0] != '\r' as u8 && chunk[0] != '\n' as u8 {
            events.push(ReaderEvent::Buttons(MouseButtonStates::from_mask(chunk[0])));
            return events;
        }
        let ghost total = self@ + chunk@;
        buffer_extend(&mut self.buf, chunk);
        let ghost mut done: Seq<Seq<u8>> = Seq::empty();
        loop
            invariant
                complete_lines(total) == done + complete_lines(self@),
                unfinished_tail(total) == unfinished_tail(self@),
                events_are_lines(events@, done),
                self@.len() <= total.len(),
                total.len() <= isize::MAX,
            ensures
                find_byte(self@, '\n' as u8) is None,
            decreases self@.len(),
        {
            let found = position_of(buffer_bytes(&self.buf), '\n' as u8);
            match found {
                None => {
                    break;
                },
                Some(pos) => {
                    proof {
                        lemma_first_hit(self@, is_byte('\n' as u8));
                    }
                    let ghost before = self@;
                    let mut line = buffer_split_to(&mut self.buf, pos + 1);
                    let ghost raw = before.take(pos as int);
                    assert(bytes_mut_contents(line).drop_last() =~= raw);
                    let n = buffer_bytes(&line).len();
                    if n > 0 && buffer_bytes(&line)[n - 1] == '\n' as u8 {
                        buffer_truncate(&mut line, n - 1);
                    }
                    assert(bytes_mut_contents(line) =~= raw);
                    let m = buffer_bytes(&line).len();
                    if m > 0 && buffer_bytes(&line)[m - 1] == '\r' as u8 {
                        buffer_truncate(&mut line, m - 1);
                        assert(bytes_mut_contents(line) =~= raw.drop_last());
                    }
                    assert(bytes_mut_contents(line) == strip_line_end(raw));
                    if buffer_bytes(&line).len() > 0 {
                        let v = slice_to_vec(buffer_bytes(&line));
                        events.push(ReaderEvent::Line(v));
                        proof {
                            let prev = done;
                            done = done.push(strip_line_end(raw));
                            assert(done + complete_lines(self@) =~= prev + (seq![strip_line_end(raw)]
                                + complete_lines(self@)));
                        }
                    }
                },
            }
        }
        proof {
            lemma_first_hit(self@, is_byte('\n' as u8));
            assert(done + complete_lines(self@) =~= done);
        }
        events
    }
}

/// A read of exactly one byte below 32 other than `\r` and `\n` (0 included:
/// every button released) is a button report; a read of any other length, or
/// of a printable byte, `\r` or `\n`, is not.
pub proof fn lemma_button_report_bytes(chunk: Seq<u8>)
    ensures
        chunk.len() == 1 && chunk[0] < 32 && chunk[0] != 13 && chunk[0] != 10 ==> is_button_report(chunk),
        chunk.len() != 1 ==> !is_button_report(chunk),
        chunk.len() == 1 && (chunk[0] >= 32 || chunk[0] == 13 || chunk[0] == 10) ==> !is_button_report(chunk),
        is_button_report(seq![0u8]),
{
}

/// A first `\n` in `a` is also the first in `a + b`.
proof fn lemma_find_newline_prefix(a: Seq<u8>, b: Seq<u8>)
    ensures
        find_byte(a, '\n' as u8) matches Some(i) ==> find_byte(a + b, '\n' as u8) == Some(i),
        find_byte(a, '\n' as u8) is None ==> match find_byte(a + b, '\n' as u8) {
            Some(k) => k >= a.len() && find_byte(b, '\n' as u8) == Some(k - a.len()),
            None => find_byte(b, '\n' as u8) is None,
        },
{
    lemma_first_hit(a, is_byte('\n' as u8));
    lemma_first_hit(a + b, is_byte('\n' as u8));
    lemma_first_hit(b, is_byte('\n' as u8));
    let s = a + b;
    if let Some(i) = find_byte(a, '\n' as u8) {
        assert forall|j: int| 0 <= j < i implies !is_byte('\n' as u8)(#[trigger] s[j]) by {
            assert(s[j] == a[j]);
        }
        assert(s[i] == a[i]);
        assert(is_first_hit(s, is_byte('\n' as u8), i));
    } else {
        if let Some(k) = find_byte(s, '\n' as u8) {
            if k < a.len() {
                assert(s[k] == a[k]);
            }
            assert(b[k - a.len()] == s[k]);
            assert forall|j: int| 0 <= j < k - a.len() implies !is_byte('\n' as u8)(#[trigger] b[j]) by {
                assert(b[j] == s[j + a.len()]);
            }
            assert(is_first_hit(b, is_byte('\n' as u8), k - a.len()));
        } else {
            assert forall|j: int| 0 <= j < b.len() implies !is_byte('\n' as u8)(#[trigger] b[j]) by {
                assert(b[j] == s[j + a.len()]);
            }
        }
    }
}

/// How a stream is cut into reads does not change its lines: the lines of
/// `a + b` are the lines that `a` completes, then those that the unfinished
/// tail of `a` and `b` complete; and what stays unfinished is the same.
pub proof fn lemma_lines_split(a: Seq<u8>, b: Seq<u8>)
    ensures
        complete_lines(a + b) == complete_lines(a) + complete_lines(unfinished_tail(a) + b),
        unfinished_tail(a + b) == unfinished_tail(unfinished_tail(a) + b),
    decreases a.len(),
{
    lemma_find_newline_prefix(a, b);
    lemma_first_hit(a, is_byte('\n' as u8));
    match find_byte(a, '\n' as u8) {
        None => {
            assert(complete_lines(a) =~= Seq::<Seq<u8>>::empty());
            assert(complete_lines(a) + complete_lines(a + b) =~= complete_lines(a + b));
        },
        Some(i) => {
            let s = a + b;
            assert(s.take(i) =~= a.take(i));
            assert(s.skip(i + 1) =~= a.skip(i + 1) + b);
            lemma_lines_split(a.skip(i + 1), b);
            let line = strip_line_end(a.take(i));
            if line.len() == 0 {
            } else {
                assert(seq![line] + complete_lines(a.skip(i + 1)) + complete_lines(unfinished_tail(a) + b)
                    =~= seq![line] + (complete_lines(a.skip(i + 1)) + complete_lines(unfinished_tail(a) + b)));
            }
        },
    }
}

/// A text without line feed is one line when `\n` or `\r\n` ends it, exactly
/// as it was sent; until then it stays unfinished and gives no line. An empty
/// line gives none.
pub proof fn lemma_single_line(l: Seq<u8>)
    requires
        !l.contains('\n' as u8),
        l.len() > 0,
        l.last() != '\r' as u8,
    ensures
        complete_lines(l) == Seq::<Seq<u8>>::empty(),
        unfinished_tail(l) == l,
        complete_lines(l + seq!['\n' as u8]) == seq![l],
        complete_lines(l + seq!['\r' as u8, '\n' as u8]) == seq![l],
        unfinished_tail(l + seq!['\n' as u8]) == Seq::<u8>::empty(),
        unfinished_tail(l + seq!['\r' as u8, '\n' as u8]) == Seq::<u8>::empty(),
        complete_lines(seq!['\n' as u8]) == Seq::<Seq<u8>>::empty(),
        complete_lines(seq!['\r' as u8, '\n' as u8]) == Seq::<Seq<u8>>::empty(),
{
    let nl = '\n' as u8;
    lemma_first_hit(l, is_byte(nl));
    assert forall|j: int| 0 <= j < l.len() implies !is_byte(nl)(#[trigger] l[j]) by {
        if l[j] == nl {
            assert(l.contains(nl));
        }
    }
    let e: Seq<u8> = Seq::empty();
    lemma_first_hit(e, is_byte(nl));
    for_line_end(l, seq![nl]);
    for_line_end(l, seq!['\r' as u8, nl]);
    for_line_end(e, seq![nl]);
    for_line_end(e, seq!['\r' as u8, nl]);
    assert(e + seq![nl] =~= seq![nl]);
    assert(e + seq!['\r' as u8, nl] =~= seq!['\r' as u8, nl]);
    assert(complete_lines(e) =~= Seq::<Seq<u8>>::empty());
    assert(seq![l] + complete_lines(e) =~= seq![l]);
    let s1 = l + seq![nl];
    let s2 = l + seq!['\r' as u8, nl];
    assert(s1.skip(s1.len() as int) =~= e);
    assert(s2.skip(s2.len() as int) =~= e);
    assert(complete_lines(s1) == seq![l] + complete_lines(e));
    assert(complete_lines(s2) == seq![l] + complete_lines(e));
    assert(unfinished_tail(e) == e);
    assert(unfinished_tail(s1) == unfinished_tail(e));
    assert(unfinished_tail(s2) == unfinished_tail(e));
}

/// `l` followed by a line end `end` (`\n` or `\r\n`), where `l` has no line feed.
proof fn for_line_end(l: Seq<u8>, end: Seq<u8>)
    requires
        !l.contains('\n' as u8),
        end == seq!['\n' as u8] || end == seq!['\r' as u8, '\n' as u8],
    ensures
        ({
            let s = l + end;
            &&& find_byte(s, '\n' as u8) == Some(s.len() - 1)
            &&& s.take(s.len() - 1) == l + end.drop_last()
            &&& s.skip(s.len() as int) == Seq::<u8>::empty()
        }),
        l.len() > 0 && l.last() != '\r' as u8 ==> strip_line_end(l + end.drop_last()) == l,
        l.len() == 0 ==> strip_line_end(l + end.drop_last()).len() == 0,
{
    let nl = '\n' as u8;
    let s = l + end;
    let i = s.len() - 1;
    assert(s[i] == nl);
    assert forall|j: int| 0 <= j < i implies !is_byte(nl)(#[trigger] s[j]) by {
        if j < l.len() {
            assert(s[j] == l[j]);
            if l[j] == nl {
                assert(l.contains(nl));
            }
        } else {
            assert(s[j] == '\r' as u8);
        }
    }
    assert(is_first_hit(s, is_byte(nl), i));
    lemma_first_hit(s, is_byte(nl));
    assert(s.take(i) =~= l + end.drop_last());
    assert(s.skip(s.len() as int) =~= Seq::<u8>::empty());
    if end.len() == 2 {
        assert((l + end.drop_last()).drop_last() =~= l);
    } else {
        assert(l + end.drop_last() =~= l);
    }
    let e: Seq<u8> = Seq::empty();
    lemma_first_hit(e, is_byte(nl));
}

} // verus!
