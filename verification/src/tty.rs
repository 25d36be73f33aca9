//! Terminal state: the sequences that put the terminal into and out of the
//! state that the interface draws in, and how they are written.

use vstd::prelude::*;

use crate::chrome::CLEAR_SCREEN;
use crate::text;

verus! {

// `TUI_ENTER` sets: 1049h alt-screen, 25l cursor hidden, 1l DECCKM off
// (arrows send `ESC [ A/B` not `ESC O A/B`), 7l DECAWM off (no auto-wrap at
// right margin), 1004h focus reporting on.
//
// DECCKM: Emacs and some other TUIs leave it on; a mid-session detach
// never gives them a chance to restore it, so we assert it off here.
// DECAWM: renderer clips to width anyway — this is a defensive layer.
//
// `TUI_LEAVE` mirrors enter but deliberately OMITS re-enabling DECCKM
// (`?1h`). The user's shell typically wants DECCKM off by default.
pub const TUI_ENTER: &'static str = "\x1b[?1049h\x1b[?25l\x1b[?1l\x1b[?7l\x1b[?1004h";

pub const TUI_LEAVE: &'static str = "\x1b[?25h\x1b[?7h\x1b[?1004l\x1b[?1049l";

/// Alt-screen + cursor-hide + DECCKM/DECAWM + focus reporting. Each method
/// appends to `out` what is to be written to the terminal.
pub struct AltScreen;

impl AltScreen {
    pub fn enter(out: &mut String) -> (screen: AltScreen)
        ensures
            final(out)@ == old(out)@ + TUI_ENTER@,
    {
        out.append(TUI_ENTER);
        AltScreen
    }

    /// Temporarily leave alt-screen so a child process (`shpool
    /// attach`) gets a normal terminal. Pair with `resume`.
    pub fn suspend(&self, out: &mut String)
        ensures
            final(out)@ == old(out)@ + TUI_LEAVE@,
    {
        out.append(TUI_LEAVE);
    }

    /// Re-enter alt-screen after a `suspend`.
    pub fn resume(&self, out: &mut String)
        ensures
            final(out)@ == old(out)@ + TUI_ENTER@,
    {
        out.append(TUI_ENTER);
    }
}

/// Clear the visible screen and home the cursor. Used right before
/// handing the terminal to `shpool attach` so the user's pre-launch
/// shell history doesn't flash behind the child process while it
/// boots. Scrollback is preserved (`\x1b[3J` would wipe it too).
pub fn clear_screen(out: &mut String)
    ensures
        final(out)@ == old(out)@ + CLEAR_SCREEN@,
{
    out.append(CLEAR_SCREEN);
}

/// What a write came to.
#[derive(Debug, PartialEq, Eq, Clone, Copy, Structural)]
pub enum Written {
    /// That many bytes were taken.
    Bytes(usize),
    /// A signal interrupted the write.
    Interrupted,
    /// The write failed.
    Failed,
}

/// How to go on after a write.
#[derive(Debug, PartialEq, Eq, Clone, Copy, Structural)]
pub enum Writing {
    /// Everything is written.
    Done,
    /// Write the bytes from here on.
    From(usize),
    /// Give up.
    Failed,
}

/// How to go on after a write of the bytes `[from, len)`.
pub open spec fn going_on(len: usize, from: usize, written: Written) -> Writing {
    match written {
        Written::Bytes(n) => if from + n == len {
            Writing::Done
        } else {
            Writing::From((from + n) as usize)
        },
        Written::Interrupted => Writing::From(from),
        Written::Failed => Writing::Failed,
    }
}

/// No byte is written twice, and none is left out: the next write begins
/// behind the bytes that were taken, and there is none exactly when all were.
/// An interrupted write took none; only a failure ends it early.
pub proof fn writes_leave_no_byte_out(len: usize, from: usize, taken: usize, written: Written)
    requires
        from < len,
        taken <= len - from,
    ensures
        going_on(len, from, Written::Bytes(taken)) == Writing::Done <==> taken == len - from,
        taken < len - from ==> (going_on(len, from, Written::Bytes(taken)) matches Writing::From(
            at,
        ) && at == from + taken),
        going_on(len, from, Written::Interrupted) == Writing::From(from),
        (written matches Written::Bytes(n) ==> n <= len - from) ==> (going_on(len, from, written)
            == Writing::Failed <==> written == Written::Failed),
{
}

/// How to go on after a write of the bytes `[from, len)`: a short write goes
/// on behind what was taken, an interrupted one starts over, any other
/// failure is final.
pub fn after_write(len: usize, from: usize, written: Written) -> (next: Writing)
    requires
        from < len,
        written matches Written::Bytes(n) ==> n <= len - from,
    ensures
        next == going_on(len, from, written),
        next matches Writing::From(at) ==> from <= at < len,
{
    match written {
        Written::Bytes(n) => if from + n == len {
            Writing::Done
        } else {
            Writing::From(from + n)
        },
        Written::Interrupted => Writing::From(from),
        Written::Failed => Writing::Failed,
    }
}

/// The sequence that turns the terminal's private mode `mode` on or off.
pub open spec fn mode_sequence(mode: nat, on: bool) -> Seq<char> {
    "\x1b[?"@ + text::decimal(mode) + (if on {
        "h"@
    } else {
        "l"@
    })
}

/// The sequences of several modes, one after the other.
pub open spec fn mode_sequences(modes: Seq<(nat, bool)>) -> Seq<char>
    decreases modes.len(),
{
    if modes.len() == 0 {
        Seq::empty()
    } else {
        mode_sequences(modes.drop_last()) + mode_sequence(modes.last().0, modes.last().1)
    }
}

/// The modes that the interface draws in.
pub open spec fn drawing_modes() -> Seq<(nat, bool)> {
    seq![(1049, true), (25, false), (1, false), (7, false), (1004, true)]
}

/// The modes that it leaves behind.
pub open spec fn left_modes() -> Seq<(nat, bool)> {
    seq![(25, true), (7, true), (1004, false), (1049, false)]
}

/// Leaving mirrors entering: every mode that is set on the way in is set the
/// other way on the way out, except for the cursor-key mode, which stays off.
pub proof fn leaving_mirrors_entering()
    ensures
        TUI_ENTER@ == mode_sequences(drawing_modes()),
        TUI_LEAVE@ == mode_sequences(left_modes()),
        forall|i: int|
            0 <= i < drawing_modes().len() && (#[trigger] drawing_modes()[i]).0 != 1
                ==> left_modes().contains((drawing_modes()[i].0, !drawing_modes()[i].1)),
        forall|i: int| 0 <= i < left_modes().len() ==> (#[trigger] left_modes()[i]).0 != 1,
{
    reveal_strlit("\x1b[?1049h\x1b[?25l\x1b[?1l\x1b[?7l\x1b[?1004h");
    reveal_strlit("\x1b[?25h\x1b[?7h\x1b[?1004l\x1b[?1049l");
    reveal_strlit("\x1b[?");
    reveal_strlit("h");
    reveal_strlit("l");
    reveal_with_fuel(text::decimal, 5);
    reveal_with_fuel(mode_sequences, 6);
    let e4 = drawing_modes().drop_last();
    let e3 = e4.drop_last();
    let e2 = e3.drop_last();
    let e1 = e2.drop_last();
    assert(e1.drop_last() =~= Seq::empty());
    assert(TUI_ENTER@ =~= mode_sequences(drawing_modes()));
    let l3 = left_modes().drop_last();
    let l2 = l3.drop_last();
    let l1 = l2.drop_last();
    assert(l1.drop_last() =~= Seq::empty());
    assert(TUI_LEAVE@ =~= mode_sequences(left_modes()));
    assert(left_modes()[3] == (1049nat, false));
    assert(left_modes()[0] == (25nat, true));
    assert(left_modes()[1] == (7nat, true));
    assert(left_modes()[2] == (1004nat, false));
}

/// On entering, the alternate screen, the cursor, the cursor-key mode, the
/// wrapping of lines and the reporting of focus are set, in this order; on
/// leaving, all but the cursor-key mode are set back, the screen last.
pub proof fn terminal_modes_are()
    ensures
        TUI_ENTER@ == "\x1b[?1049h\x1b[?25l\x1b[?1l\x1b[?7l\x1b[?1004h"@,
        TUI_LEAVE@ == "\x1b[?25h\x1b[?7h\x1b[?1004l\x1b[?1049l"@,
        CLEAR_SCREEN@ == "\x1b[2J\x1b[H"@,
{
}

}
