//! The text commands the device understands, as the bytes sent for them.

use vstd::prelude::*;
use vstd::string::StringSliceAdditionalSpecFns;

use crate::buttons::MouseButton;
use crate::decimal::{decimal_int, decimal_nat, lemma_parse_decimal_int, lemma_parse_decimal_roundtrip, push_decimal_i32, push_decimal_u32, spec_parse_int, spec_parse_u32};
use crate::text::push_bytes;

verus! {

/// `km.`, the prefix of every command.
pub open spec fn km() -> Seq<u8> {
    seq!['k' as u8, 'm' as u8, '.' as u8]
}

/// The name by which commands address a button.
pub open spec fn button_name(btn: MouseButton) -> Seq<u8> {
    match btn {
        MouseButton::Left => seq!['l' as u8, 'e' as u8, 'f' as u8, 't' as u8],
        MouseButton::Right => seq!['r' as u8, 'i' as u8, 'g' as u8, 'h' as u8, 't' as u8],
        MouseButton::Middle => seq!['m' as u8, 'i' as u8, 'd' as u8, 'd' as u8, 'l' as u8, 'e' as u8],
        MouseButton::Side1 => seq!['m' as u8, 's' as u8, '1' as u8],
        MouseButton::Side2 => seq!['m' as u8, 's' as u8, '2' as u8],
    }
}

/// `(1)` for down or locked, `(0)` for up or unlocked.
pub open spec fn flag_arg(on: bool) -> Seq<u8> {
    if on {
        seq!['(' as u8, '1' as u8, ')' as u8]
    } else {
        seq!['(' as u8, '0' as u8, ')' as u8]
    }
}

/// `km.move(dx,dy)`: move the pointer by a relative amount.
pub open spec fn spec_move_command(dx: i32, dy: i32) -> Seq<u8> {
    km() + seq!['m' as u8, 'o' as u8, 'v' as u8, 'e' as u8, '(' as u8] + decimal_int(dx as int) + seq![',' as u8] + decimal_int(dy as int)
        + seq![')' as u8]
}

/// `km.wheel(delta)`: turn the scroll wheel.
pub open spec fn spec_wheel_command(delta: i32) -> Seq<u8> {
    km() + seq!['w' as u8, 'h' as u8, 'e' as u8, 'e' as u8, 'l' as u8, '(' as u8] + decimal_int(delta as int) + seq![')' as u8]
}

/// `km.<button>(1)` presses a button, `km.<button>(0)` releases it.
pub open spec fn spec_button_command(btn: MouseButton, down: bool) -> Seq<u8> {
    km() + button_name(btn) + flag_arg(down)
}

/// `km.<button>()`: a click, as a batch writes it.
pub open spec fn spec_click_command(btn: MouseButton) -> Seq<u8> {
    km() + button_name(btn) + seq!['(' as u8, ')' as u8]
}

/// `km.buttons(1)`: ask the device to report button changes.
pub open spec fn spec_buttons_report_command() -> Seq<u8> {
    km() + seq!['b' as u8, 'u' as u8, 't' as u8, 't' as u8, 'o' as u8, 'n' as u8, 's' as u8] + flag_arg(true)
}

/// Appends `km.`.
fn push_km(out: &mut Vec<u8>)
    ensures
        final(out)@ == old(out)@ + km(),
{
    out.push('k' as u8);
    out.push('m' as u8);
    out.push('.' as u8);
    assert(final(out)@ =~= old(out)@ + km());
}

/// Appends the name of a button.
pub fn push_button_name(out: &mut Vec<u8>, btn: MouseButton)
    ensures
        final(out)@ == old(out)@ + button_name(btn),
{
    match btn {
        MouseButton::Left => push_bytes(out, &['l' as u8, 'e' as u8, 'f' as u8, 't' as u8]),
        MouseButton::Right => push_bytes(out, &['r' as u8, 'i' as u8, 'g' as u8, 'h' as u8, 't' as u8]),
        MouseButton::Middle => push_bytes(out, &['m' as u8, 'i' as u8, 'd' as u8, 'd' as u8, 'l' as u8, 'e' as u8]),
        MouseButton::Side1 => push_bytes(out, &['m' as u8, 's' as u8, '1' as u8]),
        MouseButton::Side2 => push_bytes(out, &['m' as u8, 's' as u8, '2' as u8]),
    }
}

/// The command that moves the pointer by `(dx, dy)`.
pub fn move_command(dx: i32, dy: i32) -> (cmd: Vec<u8>)
    ensures
        cmd@ == spec_move_command(dx, dy),
{
    let mut out: Vec<u8> = Vec::new();
    push_km(&mut out);
    push_bytes(&mut out, &['m' as u8, 'o' as u8, 'v' as u8, 'e' as u8, '(' as u8]);
    push_decimal_i32(&mut out, dx);
    out.push(',' as u8);
    push_decimal_i32(&mut out, dy);
    out.push(')' as u8);
    assert(out@ =~= spec_move_command(dx, dy));
    out
}

/// The command that turns the scroll wheel by `delta`.
pub fn wheel_command(delta: i32) -> (cmd: Vec<u8>)
    ensures
        cmd@ == spec_wheel_command(delta),
{
    let mut out: Vec<u8> = Vec::new();
    push_km(&mut out);
    push_bytes(&mut out, &['w' as u8, 'h' as u8, 'e' as u8, 'e' as u8, 'l' as u8, '(' as u8]);
    push_decimal_i32(&mut out, delta);
    out.push(')' as u8);
    assert(out@ =~= spec_wheel_command(delta));
    out
}

/// Appends `(1)` or `(0)`.
fn push_flag_arg(out: &mut Vec<u8>, on: bool)
    ensures
        final(out)@ == old(out)@ + flag_arg(on),
{
    out.push('(' as u8);
    out.push(if on { '1' as u8 } else { '0' as u8 });
    out.push(')' as u8);
    assert(final(out)@ =~= old(out)@ + flag_arg(on));
}

/// The command that presses (`down`) or releases a button.
pub fn button_command(btn: MouseButton, down: bool) -> (cmd: Vec<u8>)
    ensures
        cmd@ == spec_button_command(btn, down),
{
    let mut out: Vec<u8> = Vec::new();
    push_km(&mut out);
    push_button_name(&mut out, btn);
    push_flag_arg(&mut out, down);
    assert(out@ =~= spec_button_command(btn, down));
    out
}

/// The command that asks the device to report button changes.
pub fn buttons_report_command() -> (cmd: Vec<u8>)
    ensures
        cmd@ == spec_buttons_report_command(),
{
    let mut out: Vec<u8> = Vec::new();
    push_km(&mut out);
    push_bytes(&mut out, &['b' as u8, 'u' as u8, 't' as u8, 't' as u8, 'o' as u8, 'n' as u8, 's' as u8]);
    push_flag_arg(&mut out, true);
    assert(out@ =~= spec_buttons_report_command());
    out
}

/// What a lock command can lock: an axis of movement or a button.
#[derive(Clone, Copy, Debug, PartialEq, Eq, Structural)]
pub enum LockTarget {
    MouseX,
    MouseY,
    Left,
    Right,
    Middle,
    Side1,
    Side2,
}

/// The short name by which lock commands address their target.
pub open spec fn lock_name(t: LockTarget) -> Seq<u8> {
    match t {
        LockTarget::MouseX => seq!['m' as u8, 'x' as u8],
        LockTarget::MouseY => seq!['m' as u8, 'y' as u8],
        LockTarget::Left => seq!['m' as u8, 'l' as u8],
        LockTarget::Right => seq!['m' as u8, 'r' as u8],
        LockTarget::Middle => seq!['m' as u8, 'm' as u8],
        LockTarget::Side1 => seq!['m' as u8, 's' as u8, '1' as u8],
        LockTarget::Side2 => seq!['m' as u8, 's' as u8, '2' as u8],
    }
}

/// `km.lock_<target>(1)` locks, `km.lock_<target>(0)` unlocks.
pub open spec fn spec_lock_command(t: LockTarget, lock: bool) -> Seq<u8> {
    km() + seq!['l' as u8, 'o' as u8, 'c' as u8, 'k' as u8, '_' as u8] + lock_name(t) + flag_arg(lock)
}

/// The command that locks or unlocks an axis or a button.
pub fn lock_command(t: LockTarget, lock: bool) -> (cmd: Vec<u8>)
    ensures
        cmd@ == spec_lock_command(t, lock),
{
    let mut out: Vec<u8> = Vec::new();
    push_km(&mut out);
    push_bytes(&mut out, &['l' as u8, 'o' as u8, 'c' as u8, 'k' as u8, '_' as u8]);
    match t {
        LockTarget::MouseX => push_bytes(&mut out, &['m' as u8, 'x' as u8]),
        LockTarget::MouseY => push_bytes(&mut out, &['m' as u8, 'y' as u8]),
        LockTarget::Left => push_bytes(&mut out, &['m' as u8, 'l' as u8]),
        LockTarget::Right => push_bytes(&mut out, &['m' as u8, 'r' as u8]),
        LockTarget::Middle => push_bytes(&mut out, &['m' as u8, 'm' as u8]),
        LockTarget::Side1 => push_bytes(&mut out, &['m' as u8, 's' as u8, '1' as u8]),
        LockTarget::Side2 => push_bytes(&mut out, &['m' as u8, 's' as u8, '2' as u8]),
    }
    push_flag_arg(&mut out, lock);
    assert(out@ =~= spec_lock_command(t, lock));
    out
}

/// A serial number with each `'` escaped as `\'`.
pub open spec fn escape_quotes(s: Seq<u8>) -> Seq<u8>
    decreases s.len(),
{
    if s.len() == 0 {
        Seq::empty()
    } else {
        escape_quotes(s.drop_last()) + if s.last() == '\'' as u8 {
            seq!['\\' as u8, '\'' as u8]
        } else {
            seq![s.last()]
        }
    }
}

/// `km.serial(0)` for an empty serial number, else `km.serial('<escaped>')`:
/// set the serial number the device reports.
pub open spec fn spec_serial_command(v: Seq<u8>) -> Seq<u8> {
    km() + seq!['s' as u8, 'e' as u8, 'r' as u8, 'i' as u8, 'a' as u8, 'l' as u8, '(' as u8] + if v.len() == 0 {
        seq!['0' as u8]
    } else {
        seq!['\'' as u8] + escape_quotes(v) + seq!['\'' as u8]
    } + seq![')' as u8]
}

/// The command that sets the serial number `v` (taken as its UTF-8 bytes; a
/// `'` byte occurs in UTF-8 only as the character `'`).
pub fn serial_command(v: &str) -> (cmd: Vec<u8>)
    ensures
        cmd@ == spec_serial_command(v.spec_bytes()),
{
    let bytes = v.as_bytes();
    let mut out: Vec<u8> = Vec::new();
    push_km(&mut out);
    push_bytes(&mut out, &['s' as u8, 'e' as u8, 'r' as u8, 'i' as u8, 'a' as u8, 'l' as u8, '(' as u8]);
    let ghost head = out@;
    if bytes.len() == 0 {
        out.push('0' as u8);
    } else {
        out.push('\'' as u8);
        let ghost open = out@;
        let mut i: usize = 0;
        while i < bytes.len()
            invariant
                i <= bytes@.len(),
                out@ == open + escape_quotes(bytes@.take(i as int)),
            decreases bytes@.len() - i,
        {
            let b = bytes[i];
            if b == '\'' as u8 {
                out.push('\\' as u8);
                out.push('\'' as u8);
            } else {
                out.push(b);
            }
            proof {
                let t = bytes@.take(i + 1);
                assert(t.drop_last() =~= bytes@.take(i as int));
                assert(t.last() == b);
            }
            i = i + 1;
            proof {
                assert(out@ =~= open + escape_quotes(bytes@.take(i as int)));
            }
        }
        assert(bytes@.take(bytes@.len() as int) =~= bytes@);
        out.push('\'' as u8);
    }
    out.push(')' as u8);
    assert(out@ =~= spec_serial_command(v.spec_bytes()));
    out
}

/// `\r\n`, which ends every command on the wire.
pub open spec fn crlf() -> Seq<u8> {
    seq!['\r' as u8, '\n' as u8]
}

/// The bytes sent for a command that waits for no reply: the command, then `\r\n`.
pub open spec fn spec_frame_untracked(payload: Seq<u8>) -> Seq<u8> {
    payload + crlf()
}

/// The bytes sent for a command that waits for a reply: the command, `#`,
/// its id in decimal, then `\r\n`.
pub open spec fn spec_frame_tracked(payload: Seq<u8>, id: u32) -> Seq<u8> {
    payload + seq!['#' as u8] + decimal_nat(id as nat) + crlf()
}

/// Appends `\r\n`.
fn push_crlf(out: &mut Vec<u8>)
    ensures
        final(out)@ == old(out)@ + crlf(),
{
    out.push('\r' as u8);
    out.push('\n' as u8);
    assert(final(out)@ =~= old(out)@ + crlf());
}

/// Frames a command that waits for no reply.
pub fn frame_untracked(payload: &[u8]) -> (wire: Vec<u8>)
    ensures
        wire@ == spec_frame_untracked(payload@),
{
    let mut out: Vec<u8> = Vec::new();
    push_bytes(&mut out, payload);
    push_crlf(&mut out);
    out
}

/// Frames a command that waits for the reply tagged with `id`.
pub fn frame_tracked(payload: &[u8], id: u32) -> (wire: Vec<u8>)
    ensures
        wire@ == spec_frame_tracked(payload@, id),
{
    let mut out: Vec<u8> = Vec::new();
    push_bytes(&mut out, payload);
    out.push('#' as u8);
    push_decimal_u32(&mut out, id);
    push_crlf(&mut out);
    assert(out@ =~= spec_frame_tracked(payload@, id));
    out
}


/// The bytes of an ASCII text.
pub open spec fn ascii(t: Seq<char>) -> Seq<u8> {
    t.map_values(|c: char| c as u8)
}

/// The wheel command is `km.wheel(`, the delta's decimal text, `)`: the text
/// between the parentheses reads back as exactly `delta`, sign included.
pub proof fn lemma_wheel_command_carries_delta(delta: i32)
    ensures
        spec_wheel_command(delta).take(9) == ascii(seq!['k', 'm', '.', 'w', 'h', 'e', 'e', 'l', '(']),
        spec_wheel_command(delta).last() == ')' as u8,
        spec_parse_int(spec_wheel_command(delta).subrange(9, spec_wheel_command(delta).len() - 1))
            == Some(delta as int),
{
    lemma_parse_decimal_int(delta as int);
    let c = spec_wheel_command(delta);
    assert(c.take(9) =~= ascii(seq!['k', 'm', '.', 'w', 'h', 'e', 'e', 'l', '(']));
    assert(c.subrange(9, c.len() - 1) =~= decimal_int(delta as int));
}

/// The move command is `km.move(`, the decimal text of `dx`, `,`, that of
/// `dy`, `)`: the two numbers read back as exactly `dx` and `dy`.
pub proof fn lemma_move_command_carries_deltas(dx: i32, dy: i32)
    ensures
        spec_move_command(dx, dy).take(8) == ascii(seq!['k', 'm', '.', 'm', 'o', 'v', 'e', '(']),
        spec_move_command(dx, dy).last() == ')' as u8,
        exists|k: int|
            8 <= k < spec_move_command(dx, dy).len() - 1 && spec_move_command(dx, dy)[k] == ',' as u8
                && spec_parse_int(#[trigger] spec_move_command(dx, dy).subrange(8, k)) == Some(dx as int)
                && spec_parse_int(spec_move_command(dx, dy).subrange(k + 1, spec_move_command(dx, dy).len() - 1))
                == Some(dy as int),
        forall|k: int|
            8 <= k < spec_move_command(dx, dy).len() - 1 && spec_move_command(dx, dy)[k] == ',' as u8 ==> {
                &&& spec_parse_int(#[trigger] spec_move_command(dx, dy).subrange(8, k)) == Some(dx as int)
                &&& spec_parse_int(spec_move_command(dx, dy).subrange(k + 1, spec_move_command(dx, dy).len() - 1))
                    == Some(dy as int)
            },
{
    lemma_parse_decimal_int(dx as int);
    lemma_parse_decimal_int(dy as int);
    let a = decimal_int(dx as int);
    let b = decimal_int(dy as int);
    let c = spec_move_command(dx, dy);
    let k0: int = 8 + a.len() as int;
    assert(c.take(8) =~= ascii(seq!['k', 'm', '.', 'm', 'o', 'v', 'e', '(']));
    assert(c.subrange(8, k0) =~= a);
    assert(c.subrange(k0 + 1, c.len() - 1) =~= b);
    assert(c[k0] == ',' as u8);
    assert forall|k: int| 8 <= k < c.len() - 1 && c[k] == ',' as u8 implies k == k0 by {
        if k < k0 {
            assert(c[k] == a[k - 8]);
        } else if k > k0 {
            assert(c[k] == b[k - k0 - 1]);
        }
    }
}

/// The text of each lock target: `mx`, `my`, `ml`, `mr`, `mm`, `ms1`, `ms2`.
pub proof fn lemma_lock_command_text(t: LockTarget, lock: bool)
    ensures
        spec_lock_command(t, lock) == ascii(seq!['k', 'm', '.', 'l', 'o', 'c', 'k', '_']) + match t {
            LockTarget::MouseX => ascii(seq!['m', 'x']),
            LockTarget::MouseY => ascii(seq!['m', 'y']),
            LockTarget::Left => ascii(seq!['m', 'l']),
            LockTarget::Right => ascii(seq!['m', 'r']),
            LockTarget::Middle => ascii(seq!['m', 'm']),
            LockTarget::Side1 => ascii(seq!['m', 's', '1']),
            LockTarget::Side2 => ascii(seq!['m', 's', '2']),
        } + ascii(seq!['(', if lock { '1' } else { '0' }, ')']),
{
    assert(spec_lock_command(t, lock) =~= ascii(seq!['k', 'm', '.', 'l', 'o', 'c', 'k', '_']) + match t {
        LockTarget::MouseX => ascii(seq!['m', 'x']),
        LockTarget::MouseY => ascii(seq!['m', 'y']),
        LockTarget::Left => ascii(seq!['m', 'l']),
        LockTarget::Right => ascii(seq!['m', 'r']),
        LockTarget::Middle => ascii(seq!['m', 'm']),
        LockTarget::Side1 => ascii(seq!['m', 's', '1']),
        LockTarget::Side2 => ascii(seq!['m', 's', '2']),
    } + ascii(seq!['(', if lock { '1' } else { '0' }, ')']));
}

/// Different lock targets, or locking and unlocking, give different commands.
pub proof fn lemma_lock_command_injective(t1: LockTarget, l1: bool, t2: LockTarget, l2: bool)
    requires
        t1 != t2 || l1 != l2,
    ensures
        spec_lock_command(t1, l1) != spec_lock_command(t2, l2),
{
    let c1 = spec_lock_command(t1, l1);
    let c2 = spec_lock_command(t2, l2);
    if c1 == c2 {
        assert(c1.len() == c2.len());
        assert(c1[9] == c2[9]);
        if c1.len() == 13 {
            assert(c1[10] == c2[10]);
            assert(c1[11] == c2[11]);
        } else {
            assert(c1[10] == c2[10]);
            assert(c1[12] == c2[12]);
        }
    }
}

/// The text of each button command: `km.left`, `km.right`, `km.middle`,
/// `km.ms1`, `km.ms2`, then `(1)` to press or `(0)` to release.
pub proof fn lemma_button_command_text(btn: MouseButton, down: bool)
    ensures
        spec_button_command(btn, down) == ascii(seq!['k', 'm', '.']) + match btn {
            MouseButton::Left => ascii(seq!['l', 'e', 'f', 't']),
            MouseButton::Right => ascii(seq!['r', 'i', 'g', 'h', 't']),
            MouseButton::Middle => ascii(seq!['m', 'i', 'd', 'd', 'l', 'e']),
            MouseButton::Side1 => ascii(seq!['m', 's', '1']),
            MouseButton::Side2 => ascii(seq!['m', 's', '2']),
        } + ascii(seq!['(', if down { '1' } else { '0' }, ')']),
        spec_click_command(btn) == ascii(seq!['k', 'm', '.']) + match btn {
            MouseButton::Left => ascii(seq!['l', 'e', 'f', 't']),
            MouseButton::Right => ascii(seq!['r', 'i', 'g', 'h', 't']),
            MouseButton::Middle => ascii(seq!['m', 'i', 'd', 'd', 'l', 'e']),
            MouseButton::Side1 => ascii(seq!['m', 's', '1']),
            MouseButton::Side2 => ascii(seq!['m', 's', '2']),
        } + ascii(seq!['(', ')']),
{
    let name = match btn {
        MouseButton::Left => ascii(seq!['l', 'e', 'f', 't']),
        MouseButton::Right => ascii(seq!['r', 'i', 'g', 'h', 't']),
        MouseButton::Middle => ascii(seq!['m', 'i', 'd', 'd', 'l', 'e']),
        MouseButton::Side1 => ascii(seq!['m', 's', '1']),
        MouseButton::Side2 => ascii(seq!['m', 's', '2']),
    };
    assert(button_name(btn) =~= name);
    assert(spec_button_command(btn, down) =~= ascii(seq!['k', 'm', '.']) + name + ascii(
        seq!['(', if down { '1' } else { '0' }, ')'],
    ));
    assert(spec_click_command(btn) =~= ascii(seq!['k', 'm', '.']) + name + ascii(seq!['(', ')']));
}

/// Commands end with carriage return and line feed; the command that turns
/// on button reports is `km.buttons(1)`.
pub proof fn lemma_fixed_texts()
    ensures
        crlf() == ascii(seq!['\r', '\n']),
        spec_buttons_report_command() == ascii(seq!['k', 'm', '.', 'b', 'u', 't', 't', 'o', 'n', 's', '(', '1', ')']),
{
    assert(crlf() =~= ascii(seq!['\r', '\n']));
    assert(spec_buttons_report_command() =~= ascii(
        seq!['k', 'm', '.', 'b', 'u', 't', 't', 'o', 'n', 's', '(', '1', ')'],
    ));
}

/// An untracked frame is the command followed by `\r\n`; a tracked frame is
/// the command, `#`, then text that reads back as the id, then `\r\n`.
pub proof fn lemma_frames(payload: Seq<u8>, id: u32)
    ensures
        spec_frame_untracked(payload).take(payload.len() as int) == payload,
        spec_frame_untracked(payload).skip(payload.len() as int) == ascii(seq!['\r', '\n']),
        spec_frame_tracked(payload, id).take(payload.len() as int) == payload,
        spec_frame_tracked(payload, id)[payload.len() as int] == '#' as u8,
        spec_frame_tracked(payload, id).skip(spec_frame_tracked(payload, id).len() - 2) == ascii(seq!['\r', '\n']),
        spec_parse_u32(spec_frame_tracked(payload, id).subrange(payload.len() as int + 1, spec_frame_tracked(payload, id).len() - 2))
            == Some(id),
{
    lemma_parse_decimal_roundtrip(id);
    let f = spec_frame_tracked(payload, id);
    let d = decimal_nat(id as nat);
    assert(spec_frame_untracked(payload).take(payload.len() as int) =~= payload);
    assert(spec_frame_untracked(payload).skip(payload.len() as int) =~= ascii(seq!['\r', '\n']));
    assert(f.take(payload.len() as int) =~= payload);
    assert(f.skip(f.len() - 2) =~= ascii(seq!['\r', '\n']));
    assert(f.subrange(payload.len() as int + 1, f.len() - 2) =~= d);
}

/// Reads back escaped text: `\'` stands for `'`; any other byte for itself.
pub open spec fn unescape_quotes(s: Seq<u8>) -> Seq<u8>
    decreases s.len(),
{
    if s.len() == 0 {
        Seq::empty()
    } else if s.len() >= 2 && s[0] == '\\' as u8 && s[1] == '\'' as u8 {
        seq!['\'' as u8] + unescape_quotes(s.skip(2))
    } else {
        seq![s[0]] + unescape_quotes(s.skip(1))
    }
}

/// Unescaping `e + rest` where `e` is the escape of one byte.
proof fn lemma_unescape_step(b: u8, rest: Seq<u8>)
    requires
        rest.len() > 0 ==> rest[0] != '\'' as u8,
    ensures
        unescape_quotes((if b == '\'' as u8 { seq!['\\' as u8, '\'' as u8] } else { seq![b] }) + rest)
            == seq![b] + unescape_quotes(rest),
{
    let e = if b == '\'' as u8 { seq!['\\' as u8, '\'' as u8] } else { seq![b] };
    let s = e + rest;
    if b == '\'' as u8 {
        assert(s.skip(2) =~= rest);
    } else {
        assert(s.skip(1) =~= rest);
        if s.len() >= 2 {
            assert(s[1] == rest[0]);
        }
    }
}

/// Escaping the serial number front to back: the escape of `v` is that of
/// its first byte, then that of the rest.
proof fn lemma_escape_front(v: Seq<u8>)
    requires
        v.len() > 0,
    ensures
        escape_quotes(v) == (if v[0] == '\'' as u8 { seq!['\\' as u8, '\'' as u8] } else { seq![v[0]] })
            + escape_quotes(v.skip(1)),
    decreases v.len(),
{
    if v.len() == 1 {
        assert(v.drop_last() =~= Seq::<u8>::empty());
        assert(v.skip(1) =~= Seq::<u8>::empty());
        assert(escape_quotes(Seq::<u8>::empty()) =~= Seq::<u8>::empty());
    } else {
        lemma_escape_front(v.drop_last());
        assert(v.drop_last().skip(1) =~= v.skip(1).drop_last());
        assert(v.skip(1).last() == v.last());
        assert(v.drop_last()[0] == v[0]);
    }
}

/// Unescaping the escaped serial number gives it back.
pub proof fn lemma_escape_roundtrip(v: Seq<u8>)
    ensures
        unescape_quotes(escape_quotes(v)) == v,
    decreases v.len(),
{
    if v.len() == 0 {
        assert(escape_quotes(v) =~= Seq::<u8>::empty());
    } else {
        lemma_escape_front(v);
        lemma_escape_roundtrip(v.skip(1));
        if v.skip(1).len() > 0 {
            lemma_escape_front(v.skip(1));
        } else {
            assert(escape_quotes(v.skip(1)) =~= Seq::<u8>::empty());
        }
        lemma_unescape_step(v[0], escape_quotes(v.skip(1)));
        assert(seq![v[0]] + v.skip(1) =~= v);
    }
}

/// The serial command is `km.serial(0)` for an empty serial number and
/// `km.serial('` + escaped text + `')` otherwise; unescaping the text between
/// the quotes gives the serial number back.
pub proof fn lemma_serial_command_text(v: Seq<u8>)
    ensures
        v.len() == 0 ==> spec_serial_command(v) == ascii(seq!['k', 'm', '.', 's', 'e', 'r', 'i', 'a', 'l', '(', '0', ')']),
        v.len() > 0 ==> {
            let c = spec_serial_command(v);
            &&& c.take(11) == ascii(seq!['k', 'm', '.', 's', 'e', 'r', 'i', 'a', 'l', '(', '\''])
            &&& c.skip(c.len() - 2) == ascii(seq!['\'', ')'])
            &&& unescape_quotes(c.subrange(11, c.len() - 2)) == v
        },
{
    let c = spec_serial_command(v);
    if v.len() == 0 {
        assert(c =~= ascii(seq!['k', 'm', '.', 's', 'e', 'r', 'i', 'a', 'l', '(', '0', ')']));
    } else {
        lemma_escape_roundtrip(v);
        assert(c.take(11) =~= ascii(seq!['k', 'm', '.', 's', 'e', 'r', 'i', 'a', 'l', '(', '\'']));
        assert(c.skip(c.len() - 2) =~= ascii(seq!['\'', ')']));
        assert(c.subrange(11, c.len() - 2) =~= escape_quotes(v));
    }
}

} // verus!
