//! Input parser: bytes to a stream of decoded inputs.
//!
//! A state machine that consumes a raw byte stream and emits either
//! semantic keystrokes (`Input::Key`) or focus events (`Input::FocusGained`).
//!
//! Recognized ESC sequences:
//!   - `ESC [ A/B/C/D`          → `Key(Up/Down/Right/Left)`
//!   - `ESC [ I`                → `FocusGained` (the terminal regained focus)
//!   - `ESC [ O`                → focus lost; discarded silently
//!   - `ESC` alone at buffer end → `Key(Esc)`
//!   - `ESC` + non-bracket byte  → `Key(Esc)` + the decoded byte, so that
//!     Alt-letter and ESC-then-q still fire
//!   - `ESC [ ... <unknown>`     → `Key(Other)`

use vstd::prelude::*;

use super::keymap::Key;

verus! {

#[derive(Debug, PartialEq, Eq, Clone, Copy, Structural)]
pub enum Input {
    Key(Key),
    FocusGained,
}

/// How far into an escape sequence the parser is.
#[derive(Clone, Copy, PartialEq, Eq, Structural)]
pub enum ParserState {
    Normal,
    Esc,
    EscBracket,
}

pub struct InputParser {
    state: ParserState,
}

/// The byte of the Escape key.
pub const ESC: u8 = 0x1b;

/// A byte that ends a CSI sequence.
pub open spec fn is_csi_final(b: u8) -> bool {
    0x40 <= b <= 0x7e
}

/// What a byte outside any ESC sequence means: printable bytes are `Char`,
/// known controls have their name, unmapped control bytes are `Ctrl`, and
/// non-ASCII bytes are `Other`.
pub open spec fn byte_key(b: u8) -> Key {
    if b == 0x08 || b == 0x7f {
        Key::Backspace
    } else if b == 0x09 {
        Key::Tab
    } else if b == 0x0a || b == 0x0d {
        Key::Enter
    } else if 0x20 <= b <= 0x7e {
        Key::Char(b)
    } else if b < 0x20 {
        Key::Ctrl(b)
    } else {
        Key::Other
    }
}

/// What the final byte of a CSI sequence means as a key: the arrows have
/// names, everything else is `Other`.
pub open spec fn csi_key(b: u8) -> Key {
    if b == 'A' as u8 {
        Key::Up
    } else if b == 'B' as u8 {
        Key::Down
    } else if b == 'C' as u8 {
        Key::Right
    } else if b == 'D' as u8 {
        Key::Left
    } else {
        Key::Other
    }
}

/// What a finished CSI sequence emits.
pub open spec fn csi_inputs(b: u8) -> Seq<Input> {
    if b == 'I' as u8 {
        seq![Input::FocusGained]
    } else if b == 'O' as u8 {
        Seq::empty()
    } else {
        seq![Input::Key(csi_key(b))]
    }
}

/// One byte: the state it leads to and the inputs it emits.
pub open spec fn step(state: ParserState, b: u8) -> (ParserState, Seq<Input>) {
    match state {
        ParserState::Normal => if b == ESC {
            (ParserState::Esc, Seq::empty())
        } else {
            (ParserState::Normal, seq![Input::Key(byte_key(b))])
        },
        ParserState::Esc => if b == '[' as u8 {
            (ParserState::EscBracket, Seq::empty())
        } else {
            (ParserState::Normal, seq![Input::Key(Key::Esc), Input::Key(byte_key(b))])
        },
        ParserState::EscBracket => if is_csi_final(b) {
            (ParserState::Normal, csi_inputs(b))
        } else {
            (ParserState::EscBracket, Seq::empty())
        },
    }
}

/// The bytes one after the other.
pub open spec fn run(state: ParserState, bytes: Seq<u8>) -> (ParserState, Seq<Input>)
    decreases bytes.len(),
{
    if bytes.len() == 0 {
        (state, Seq::empty())
    } else {
        let (mid, inputs) = run(state, bytes.drop_last());
        let (end, more) = step(mid, bytes.last());
        (end, inputs + more)
    }
}

/// A whole buffer: an ESC left over at its end is a bare Escape keypress.
pub open spec fn fed(state: ParserState, bytes: Seq<u8>) -> (ParserState, Seq<Input>) {
    let (end, inputs) = run(state, bytes);
    if end == ParserState::Esc {
        (ParserState::Normal, inputs.push(Input::Key(Key::Esc)))
    } else {
        (end, inputs)
    }
}

impl View for InputParser {
    type V = ParserState;

    closed spec fn view(&self) -> ParserState {
        self.state
    }
}

impl Default for InputParser {
    /// A parser between two keys.
    fn default() -> (p: Self)
        ensures
            p@ == ParserState::Normal,
    {
        InputParser { state: ParserState::Normal }
    }
}

impl InputParser {
    pub fn new() -> (p: Self)
        ensures
            p@ == ParserState::Normal,
    {
        Self::default()
    }

    /// Consume `bytes`, pushing decoded inputs onto `out`. Parser
    /// state persists across calls so a CSI sequence split across
    /// reads (rare but possible) still parses correctly.
    pub fn feed(&mut self, bytes: &[u8], out: &mut Vec<Input>)
        ensures
            final(self)@ == fed(old(self)@, bytes@).0,
            final(out)@ == old(out)@ + fed(old(self)@, bytes@).1,
    {
        let ghost start = self.state;
        let ghost before = out@;
        assert(bytes@.take(0) =~= Seq::empty());
        assert(before + run(start, bytes@.take(0)).1 =~= before);
        for i in 0..bytes.len()
            invariant
                self.state == run(start, bytes@.take(i as int)).0,
                out@ == before + run(start, bytes@.take(i as int)).1,
        {
            let b: u8 = bytes[i];
            let ghost so_far = out@;
            let ghost state = self.state;
            proof {
                assert(bytes@.take(i + 1).drop_last() =~= bytes@.take(i as int));
                assert(bytes@.take(i + 1).last() == b);
            }
            match self.state {
                ParserState::Normal => {
                    if b == ESC {
                        self.state = ParserState::Esc;
                    } else {
                        out.push(Input::Key(decode_byte(b)));
                    }
                },
                ParserState::Esc => {
                    if b == '[' as u8 {
                        self.state = ParserState::EscBracket;
                    } else {
                        // ESC + non-bracket byte: emit both as separate
                        // keystrokes so Alt-letter chords and ESC-then-q
                        // still fire their individual actions.
                        out.push(Input::Key(Key::Esc));
                        out.push(Input::Key(decode_byte(b)));
                        self.state = ParserState::Normal;
                    }
                },
                ParserState::EscBracket => {
                    // CSI: skip param (0x30..=0x3f) and intermediate
                    // (0x20..=0x2f) bytes until a final byte terminates.
                    if 0x40 <= b && b <= 0x7e {
                        if b == 'I' as u8 {
                            out.push(Input::FocusGained);
                        } else if b != 'O' as u8 {
                            out.push(Input::Key(decode_csi(b)));
                        }
                        self.state = ParserState::Normal;
                    }
                },
            }
            assert(out@ =~= so_far + step(state, b).1);
            assert(out@ =~= before + run(start, bytes@.take(i + 1)).1);
        }
        assert(bytes@.take(bytes@.len() as int) =~= bytes@);
        if self.state == ParserState::Esc {
            let ghost so_far = out@;
            out.push(Input::Key(Key::Esc));
            self.state = ParserState::Normal;
            assert(out@ =~= before + fed(start, bytes@).1);
        }
    }
}

/// Decode a byte received in normal parser state (i.e. not inside an
/// ESC sequence) into a semantic `Key`. Maps printable bytes to `Char`,
/// known controls to their named `Key`, and unmapped control bytes to
/// `Key::Ctrl(b)`. Non-ASCII bytes (0x80..=0xff) become `Key::Other`.
pub fn decode_byte(b: u8) -> (key: Key)
    ensures
        key == byte_key(b),
{
    match b {
        0x08 | 0x7f => Key::Backspace,  // BS and DEL — terminals disagree
        0x09 => Key::Tab,
        0x0a | 0x0d => Key::Enter,  // LF and CR — both fire Enter
        0x20..=0x7e => Key::Char(b),
        // The control bytes, minus the ones above that have dedicated names
        // (BS, Tab, LF, CR).
        0x00..=0x1f => Key::Ctrl(b),
        _ => Key::Other,
    }
}

/// Decode a CSI final byte (the terminator of an `ESC [ ... <final>`
/// sequence) into a semantic `Key`.
pub fn decode_csi(final_byte: u8) -> (key: Key)
    ensures
        key == csi_key(final_byte),
{
    match final_byte {
        0x41 => Key::Up,
        0x42 => Key::Down,
        0x43 => Key::Right,
        0x44 => Key::Left,
        _ => Key::Other,
    }
}

/// Every ASCII byte means something: only a non-ASCII byte is `Other`. And a
/// byte that is `Char` or `Ctrl` is carried as it is.
pub proof fn ascii_bytes_are_recognized(b: u8)
    ensures
        byte_key(b) == Key::Other <==> b >= 0x80,
        byte_key(b) matches Key::Char(c) ==> c == b && 0x20 <= b < 0x7f,
        byte_key(b) matches Key::Ctrl(c) ==> c == b && b < 0x20,
{
}

proof fn run_of_concat(state: ParserState, a: Seq<u8>, b: Seq<u8>)
    ensures
        run(state, a + b).0 == run(run(state, a).0, b).0,
        run(state, a + b).1 == run(state, a).1 + run(run(state, a).0, b).1,
    decreases b.len(),
{
    if b.len() == 0 {
        assert(a + b =~= a);
        assert(run(state, a).1 + run(run(state, a).0, b).1 =~= run(state, a).1);
    } else {
        assert((a + b).drop_last() =~= a + b.drop_last());
        run_of_concat(state, a, b.drop_last());
        assert(run(state, a + b).1 =~= run(state, a).1 + run(run(state, a).0, b).1);
    }
}

/// Where a read happens to end makes no difference: feeding two buffers
/// decodes to the same inputs as feeding them as one, as long as the first
/// does not end in a lone ESC.
pub proof fn split_reads_decode_alike(state: ParserState, a: Seq<u8>, b: Seq<u8>)
    requires
        run(state, a).0 != ParserState::Esc,
    ensures
        fed(state, a + b).0 == fed(fed(state, a).0, b).0,
        fed(state, a + b).1 == fed(state, a).1 + fed(fed(state, a).0, b).1,
{
    run_of_concat(state, a, b);
    assert(fed(state, a + b).1 =~= fed(state, a).1 + fed(fed(state, a).0, b).1);
}

/// A buffer never leaves the parser waiting behind a lone ESC.
pub proof fn feeding_settles_escape(state: ParserState, bytes: Seq<u8>)
    ensures
        fed(state, bytes).0 != ParserState::Esc,
{
}

proof fn params_are_skipped(params: Seq<u8>)
    requires
        forall|i: int| 0 <= i < params.len() ==> !is_csi_final(#[trigger] params[i]),
    ensures
        run(ParserState::EscBracket, params) == (ParserState::EscBracket, Seq::<Input>::empty()),
    decreases params.len(),
{
    if params.len() > 0 {
        assert forall|i: int| 0 <= i < params.drop_last().len() implies !is_csi_final(
            #[trigger] params.drop_last()[i],
        ) by {
            assert(params.drop_last()[i] == params[i]);
        }
        params_are_skipped(params.drop_last());
        assert(!is_csi_final(params[params.len() - 1]));
        assert(run(ParserState::EscBracket, params).1 =~= Seq::empty());
    }
}

/// A CSI sequence decodes by its final byte alone, whatever parameters
/// stand ahead of it, and leaves the parser ready for the next key.
pub proof fn csi_sequence_decodes_by_final_byte(params: Seq<u8>, last: u8)
    requires
        forall|i: int| 0 <= i < params.len() ==> !is_csi_final(#[trigger] params[i]),
        is_csi_final(last),
    ensures
        fed(ParserState::Normal, seq![ESC, '[' as u8] + params + seq![last]) == (
            ParserState::Normal,
            csi_inputs(last),
        ),
{
    let open = seq![ESC, '[' as u8];
    let whole = open + params + seq![last];
    reveal_with_fuel(run, 3);
    assert(open.drop_last() =~= seq![ESC]);
    assert(seq![ESC].drop_last() =~= Seq::empty());
    assert(run(ParserState::Normal, open).0 == ParserState::EscBracket);
    assert(run(ParserState::Normal, open).1 =~= Seq::empty());
    run_of_concat(ParserState::Normal, open, params);
    params_are_skipped(params);
    assert(whole.drop_last() =~= open + params);
    assert(whole.last() == last);
    assert(run(ParserState::Normal, whole).1 =~= csi_inputs(last));
}

/// Each byte outside an escape sequence is one key: a printable one is its
/// character, Backspace, Tab and Enter have their names, any other control
/// byte is itself, and a byte that is not ASCII is none of these.
pub proof fn bytes_are_keys(b: u8)
    requires
        b != 0x1b,
    ensures
        fed(ParserState::Normal, seq![b]) == (
            ParserState::Normal,
            seq![
                Input::Key(
                    if b == 0x08 || b == 0x7f {
                        Key::Backspace
                    } else if b == 0x09 {
                        Key::Tab
                    } else if b == 0x0a || b == 0x0d {
                        Key::Enter
                    } else if b < 0x20 {
                        Key::Ctrl(b)
                    } else if b < 0x7f {
                        Key::Char(b)
                    } else {
                        Key::Other
                    },
                ),
            ],
        ),
{
    assert(seq![b].drop_last() =~= Seq::empty());
    assert(run(ParserState::Normal, seq![b].drop_last()).1 =~= Seq::empty());
    assert(fed(ParserState::Normal, seq![b]).1 =~= seq![Input::Key(byte_key(b))]);
}

/// A text that is pasted or typed fast comes as its characters, one after the
/// other.
pub proof fn text_comes_as_its_characters(bytes: Seq<u8>)
    requires
        forall|i: int| 0 <= i < bytes.len() ==> 0x20 <= #[trigger] bytes[i] <= 0x7e,
    ensures
        fed(ParserState::Normal, bytes).0 == ParserState::Normal,
        fed(ParserState::Normal, bytes).1.len() == bytes.len(),
        forall|i: int|
            0 <= i < bytes.len() ==> #[trigger] fed(ParserState::Normal, bytes).1[i] == Input::Key(
                Key::Char(bytes[i]),
            ),
    decreases bytes.len(),
{
    if bytes.len() > 0 {
        let rest = bytes.drop_last();
        assert forall|i: int| 0 <= i < rest.len() implies 0x20 <= #[trigger] rest[i] <= 0x7e by {
            assert(0x20 <= bytes[i] <= 0x7e);
        }
        text_comes_as_its_characters(rest);
        assert(0x20 <= bytes[bytes.len() - 1] <= 0x7e);
        let all = fed(ParserState::Normal, bytes).1;
        assert(all =~= fed(ParserState::Normal, rest).1 + seq![
            Input::Key(Key::Char(bytes.last())),
        ]);
        assert forall|i: int| 0 <= i < bytes.len() implies #[trigger] all[i] == Input::Key(
            Key::Char(bytes[i]),
        ) by {
            if i < rest.len() {
                assert(all[i] == fed(ParserState::Normal, rest).1[i]);
            }
        }
    }
}

/// An ESC with nothing behind it is the Escape key; with a byte behind it that
/// opens no sequence, it is the Escape key and then that byte's key.
pub proof fn lone_escapes_are_the_escape_key(b: u8)
    requires
        b != 0x5b,
    ensures
        fed(ParserState::Normal, seq![0x1bu8]) == (
            ParserState::Normal,
            seq![Input::Key(Key::Esc)],
        ),
        fed(ParserState::Normal, seq![0x1bu8, b]).0 == ParserState::Normal,
        fed(ParserState::Normal, seq![0x1bu8, b]).1.len() == 2,
        fed(ParserState::Normal, seq![0x1bu8, b]).1[0] == Input::Key(Key::Esc),
        b != 0x1b ==> fed(ParserState::Normal, seq![0x1bu8, b]).1[1] == fed(
            ParserState::Normal,
            seq![b],
        ).1[0],
{
    reveal_with_fuel(run, 3);
    let esc = seq![0x1bu8];
    let both = seq![0x1bu8, b];
    assert(esc.drop_last() =~= Seq::empty());
    assert(both.drop_last() =~= esc);
    assert(run(ParserState::Normal, esc).1 =~= Seq::empty());
    assert(fed(ParserState::Normal, esc).1 =~= seq![Input::Key(Key::Esc)]);
    assert(fed(ParserState::Normal, both).1 =~= seq![
        Input::Key(Key::Esc),
        Input::Key(byte_key(b)),
    ]);
    if b != 0x1b {
        bytes_are_keys(b);
        assert(seq![b].drop_last() =~= Seq::empty());
        assert(fed(ParserState::Normal, seq![b]).1 =~= seq![Input::Key(byte_key(b))]);
    }
}

/// A sequence of ESC, `[`, parameters and a final byte from `@` to `~` is the
/// arrow that the final byte names, or the news that the focus has come; that
/// it has gone is no input; any other sequence is a key without a meaning.
pub proof fn sequences_are_arrows_or_focus(params: Seq<u8>, last: u8)
    requires
        forall|i: int| 0 <= i < params.len() ==> !(0x40 <= #[trigger] params[i] <= 0x7e),
        0x40 <= last <= 0x7e,
    ensures
        fed(ParserState::Normal, seq![0x1bu8, 0x5bu8] + params + seq![last]) == (
            ParserState::Normal,
            if last == 'A' as u8 {
                seq![Input::Key(Key::Up)]
            } else if last == 'B' as u8 {
                seq![Input::Key(Key::Down)]
            } else if last == 'C' as u8 {
                seq![Input::Key(Key::Right)]
            } else if last == 'D' as u8 {
                seq![Input::Key(Key::Left)]
            } else if last == 'I' as u8 {
                seq![Input::FocusGained]
            } else if last == 'O' as u8 {
                Seq::empty()
            } else {
                seq![Input::Key(Key::Other)]
            },
        ),
{
    assert forall|i: int| 0 <= i < params.len() implies !is_csi_final(#[trigger] params[i]) by {
        assert(!(0x40 <= params[i] <= 0x7e));
    }
    csi_sequence_decodes_by_final_byte(params, last);
}

}
