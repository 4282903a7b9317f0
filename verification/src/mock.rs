//! The reply of the simulated device used for testing without hardware.

use vstd::prelude::*;
use vstd::string::{StrSliceExecFns, StringExecFns, StringSliceAdditionalSpecFns};
use vstd::utf8::{decode_utf8, encode_utf8, valid_utf8};

verus! {

/// The text that `String::from_utf8_lossy` reads from `bytes`.
pub uninterp spec fn utf8_lossy(bytes: Seq<u8>) -> Seq<char>;

/// The bytes read as UTF-8, each invalid sequence replaced by U+FFFD
/// (`String::from_utf8_lossy`, made owned). Trusted: std documents the
/// replacement, and that valid UTF-8 comes back as the text it encodes.
#[verifier::external_body]
fn decode_lossy(bytes: &[u8]) -> (text: String)
    ensures
        text@ == utf8_lossy(bytes@),
        valid_utf8(bytes@) ==> text@ == decode_utf8(bytes@),
{
    String::from_utf8_lossy(bytes).into_owned()
}

/// The position of the last `#` in `t`, if there is one.
pub open spec fn last_hash(t: Seq<char>) -> Option<int>
    decreases t.len(),
{
    if t.len() == 0 {
        None
    } else if t.last() == '#' {
        Some(t.len() - 1)
    } else {
        last_hash(t.drop_last())
    }
}

/// Whether `c` has the Unicode `White_Space` property, which is what
/// `char::is_whitespace` tests.
pub open spec fn is_white_space(c: char) -> bool {
    let v = c as u32;
    ||| 0x09 <= v <= 0x0d
    ||| v == 0x20
    ||| v == 0x85
    ||| v == 0xa0
    ||| v == 0x1680
    ||| 0x2000 <= v <= 0x200a
    ||| v == 0x2028
    ||| v == 0x2029
    ||| v == 0x202f
    ||| v == 0x205f
    ||| v == 0x3000
}

/// `t` without trailing white space (as `str::trim_end` leaves it).
pub open spec fn trim_end_space(t: Seq<char>) -> Seq<char>
    decreases t.len(),
{
    if t.len() > 0 && is_white_space(t.last()) {
        trim_end_space(t.drop_last())
    } else {
        t
    }
}

/// The text of the reply: `>>> OK#`, the id, `:OK\r\n`.
pub open spec fn reply_text(id: Seq<char>) -> Seq<char> {
    seq!['>', '>', '>', ' ', 'O', 'K', '#'] + id + seq![':', 'O', 'K', '\r', '\n']
}

/// What the simulated device answers to a write: the written bytes are read
/// as text (invalid UTF-8 replaced); where the text has a `#`, the reply is
/// `>>> OK#<id>:OK\r\n` with the text after the last `#`, without trailing
/// white space, as the id; otherwise there is none.
pub open spec fn spec_mock_reply(written: Seq<u8>) -> Option<Seq<u8>> {
    let t = utf8_lossy(written);
    match last_hash(t) {
        None => None,
        Some(i) => Some(encode_utf8(reply_text(trim_end_space(t.skip(i + 1))))),
    }
}

/// Whether a character is white space (`char::is_whitespace`).
pub fn is_white_space_char(c: char) -> (r: bool)
    ensures
        r == is_white_space(c),
{
    let v = c as u32;
    (0x09 <= v && v <= 0x0d) || v == 0x20 || v == 0x85 || v == 0xa0 || v == 0x1680 || (0x2000 <= v
        && v <= 0x200a) || v == 0x2028 || v == 0x2029 || v == 0x202f || v == 0x205f || v == 0x3000
}

/// The reply of the simulated device to `written`.
pub fn mock_reply(written: &[u8]) -> (r: Option<Vec<u8>>)
    ensures
        match spec_mock_reply(written@) {
            None => r is None,
            Some(reply) => r matches Some(v) && v@ == reply,
        },
{
    let text = decode_lossy(written);
    let t = text.as_str();
    let n = t.unicode_len();
    let mut i: usize = n;
    assert(t@.take(i as int) =~= t@);
    while i > 0 && t.get_char(i - 1) != '#'
        invariant
            i <= n,
            n == t@.len(),
            last_hash(t@) == last_hash(t@.take(i as int)),
        decreases i,
    {
        assert(t@.take(i as int).drop_last() =~= t@.take(i - 1));
        i = i - 1;
    }
    if i == 0 {
        assert(t@.take(0) =~= Seq::<char>::empty());
        return None;
    }
    let start = i;
    assert(last_hash(t@.take(i as int)) == Some(i - 1));
    let mut end: usize = n;
    assert(t@.subrange(start as int, end as int) =~= t@.skip(start as int));
    while end > start && is_white_space_char(t.get_char(end - 1))
        invariant
            start <= end <= n,
            n == t@.len(),
            trim_end_space(t@.skip(start as int)) == trim_end_space(t@.subrange(start as int, end as int)),
        decreases end,
    {
        assert(t@.subrange(start as int, end as int).drop_last() =~= t@.subrange(start as int, end - 1));
        end = end - 1;
    }
    let id = t.substring_char(start, end);
    assert(id@ == trim_end_space(t@.skip(start as int)));
    let head: &str = ">>> OK#";
    let tail: &str = ":OK\r\n";
    proof {
        reveal_strlit(">>> OK#");
        reveal_strlit(":OK\r\n");
    }
    let mut out = String::from_str(head);
    out.append(id);
    out.append(tail);
    assert(out@ =~= reply_text(id@));
    let bytes = out.as_str().as_bytes_vec();
    Some(bytes)
}

} // verus!
