//! Batches: several commands collected and sent as one write.

use vstd::prelude::*;

use crate::buttons::MouseButton;
use crate::commands::{button_command, crlf, move_command, push_button_name, spec_button_command, spec_click_command, spec_move_command, spec_wheel_command, wheel_command};
use crate::text::push_bytes;

verus! {

/// Appends `km.<button>()`.
fn push_click(out: &mut Vec<u8>, btn: MouseButton)
    ensures
        final(out)@ == old(out)@ + spec_click_command(btn),
{
    let ghost start = out@;
    push_bytes(out, &['k' as u8, 'm' as u8, '.' as u8]);
    push_button_name(out, btn);
    out.push('(' as u8);
    out.push(')' as u8);
    assert(out@ =~= start + spec_click_command(btn));
}

/// Appends a command and `\r\n`.
fn push_line(out: &mut Vec<u8>, cmd: &[u8])
    ensures
        final(out)@ == old(out)@ + cmd@ + crlf(),
{
    let ghost start = out@;
    push_bytes(out, cmd);
    push_bytes(out, &['\r' as u8, '\n' as u8]);
    assert(out@ =~= start + cmd@ + crlf());
}

/// The commands of a batch for the threaded device, each ended by `\r\n`.
pub struct Batch {
    buf: Vec<u8>,
}

impl View for Batch {
    type V = Seq<u8>;

    closed spec fn view(&self) -> Seq<u8> {
        self.buf@
    }
}

impl Batch {
    /// An empty batch.
    pub fn new() -> (b: Self)
        ensures
            b@ == Seq::<u8>::empty(),
    {
        Batch { buf: Vec::new() }
    }

    /// Adds a relative pointer move.
    pub fn move_rel(self, dx: i32, dy: i32) -> (b: Self)
        ensures
            b@ == self@ + spec_move_command(dx, dy) + crlf(),
    {
        let mut buf = self.buf;
        let cmd = move_command(dx, dy);
        push_line(&mut buf, cmd.as_slice());
        Batch { buf }
    }

    /// Adds a click (`km.<button>()`).
    pub fn click(self, btn: MouseButton) -> (b: Self)
        ensures
            b@ == self@ + spec_click_command(btn) + crlf(),
    {
        let mut buf = self.buf;
        let ghost start = buf@;
        push_click(&mut buf, btn);
        push_bytes(&mut buf, &['\r' as u8, '\n' as u8]);
        assert(buf@ =~= start + spec_click_command(btn) + crlf());
        Batch { buf }
    }

    /// Adds a button press.
    pub fn press(self, btn: MouseButton) -> (b: Self)
        ensures
            b@ == self@ + spec_button_command(btn, true) + crlf(),
    {
        let mut buf = self.buf;
        let cmd = button_command(btn, true);
        push_line(&mut buf, cmd.as_slice());
        Batch { buf }
    }

    /// Adds a button release, followed by an empty line.
    pub fn release(self, btn: MouseButton) -> (b: Self)
        ensures
            b@ == self@ + spec_button_command(btn, false) + crlf() + crlf(),
    {
        let mut buf = self.buf;
        let ghost start = buf@;
        let cmd = button_command(btn, false);
        push_line(&mut buf, cmd.as_slice());
        push_bytes(&mut buf, &['\r' as u8, '\n' as u8]);
        assert(buf@ =~= start + spec_button_command(btn, false) + crlf() + crlf());
        Batch { buf }
    }

    /// Adds a scroll of the wheel.
    pub fn wheel(self, delta: i32) -> (b: Self)
        ensures
            b@ == self@ + spec_wheel_command(delta) + crlf(),
    {
        let mut buf = self.buf;
        let cmd = wheel_command(delta);
        push_line(&mut buf, cmd.as_slice());
        Batch { buf }
    }

    /// The text of the batch, as it is handed to the port.
    pub fn as_bytes(&self) -> (s: &[u8])
        ensures
            s@ == self@,
    {
        self.buf.as_slice()
    }
}

/// The commands of a batch for the asynchronous device, each ended by `\r\n`.
pub struct AsyncBatch {
    buf: Vec<u8>,
}

impl View for AsyncBatch {
    type V = Seq<u8>;

    closed spec fn view(&self) -> Seq<u8> {
        self.buf@
    }
}

impl AsyncBatch {
    /// An empty batch.
    pub fn new() -> (b: Self)
        ensures
            b@ == Seq::<u8>::empty(),
    {
        AsyncBatch { buf: Vec::new() }
    }

    /// Adds a relative pointer move.
    pub fn move_rel(self, dx: i32, dy: i32) -> (b: Self)
        ensures
            b@ == self@ + spec_move_command(dx, dy) + crlf(),
    {
        let mut buf = self.buf;
        let cmd = move_command(dx, dy);
        push_line(&mut buf, cmd.as_slice());
        AsyncBatch { buf }
    }

    /// Adds a scroll of the wheel.
    pub fn wheel(self, delta: i32) -> (b: Self)
        ensures
            b@ == self@ + spec_wheel_command(delta) + crlf(),
    {
        let mut buf = self.buf;
        let cmd = wheel_command(delta);
        push_line(&mut buf, cmd.as_slice());
        AsyncBatch { buf }
    }

    /// Adds a button press.
    pub fn press(self, btn: MouseButton) -> (b: Self)
        ensures
            b@ == self@ + spec_button_command(btn, true) + crlf(),
    {
        let mut buf = self.buf;
        let cmd = button_command(btn, true);
        push_line(&mut buf, cmd.as_slice());
        AsyncBatch { buf }
    }

    /// Adds a button release.
    pub fn release(self, btn: MouseButton) -> (b: Self)
        ensures
            b@ == self@ + spec_button_command(btn, false) + crlf(),
    {
        let mut buf = self.buf;
        let cmd = button_command(btn, false);
        push_line(&mut buf, cmd.as_slice());
        AsyncBatch { buf }
    }

    /// Adds a click (`km.<button>()`).
    pub fn click(self, btn: MouseButton) -> (b: Self)
        ensures
            b@ == self@ + spec_click_command(btn) + crlf(),
    {
        let mut buf = self.buf;
        let ghost start = buf@;
        push_click(&mut buf, btn);
        push_bytes(&mut buf, &['\r' as u8, '\n' as u8]);
        assert(buf@ =~= start + spec_click_command(btn) + crlf());
        AsyncBatch { buf }
    }

    /// The text of the batch, as it is written to the port.
    pub fn as_bytes(&self) -> (s: &[u8])
        ensures
            s@ == self@,
    {
        self.buf.as_slice()
    }
}

} // verus!
