//! Decoding the keyboard's scancodes, and the line editor that turns a run of
//! key presses into a line of input.

use vstd::prelude::*;
use crate::vga_buffer::{Writer, put_bytes};

verus! {

/// The scancode of the Enter key.
pub const SCANCODE_ENTER: u8 = 0x1C;

/// The scancode of the Backspace key.
pub const SCANCODE_BACKSPACE: u8 = 0x0E;

/// The scancode of the space bar.
pub const SCANCODE_SPACE: u8 = 0x39;

/// The number of bytes a line buffer holds.
pub const LINE_CAPACITY: usize = 256;

/// The character a key press stands for, on a US keyboard without Shift:
/// digits, lower-case letters and a few signs.
pub open spec fn ascii_for_scancode(scancode: u8) -> Option<char> {
    match scancode {
        0x02 => Some('1'),
        0x03 => Some('2'),
        0x04 => Some('3'),
        0x05 => Some('4'),
        0x06 => Some('5'),
        0x07 => Some('6'),
        0x08 => Some('7'),
        0x09 => Some('8'),
        0x0A => Some('9'),
        0x0B => Some('0'),
        0x10 => Some('q'),
        0x11 => Some('w'),
        0x12 => Some('e'),
        0x13 => Some('r'),
        0x14 => Some('t'),
        0x15 => Some('y'),
        0x16 => Some('u'),
        0x17 => Some('i'),
        0x18 => Some('o'),
        0x19 => Some('p'),
        0x1E => Some('a'),
        0x1F => Some('s'),
        0x20 => Some('d'),
        0x21 => Some('f'),
        0x22 => Some('g'),
        0x23 => Some('h'),
        0x24 => Some('j'),
        0x25 => Some('k'),
        0x26 => Some('l'),
        0x2C => Some('z'),
        0x2D => Some('x'),
        0x2E => Some('c'),
        0x2F => Some('v'),
        0x30 => Some('b'),
        0x31 => Some('n'),
        0x32 => Some('m'),
        0x0C => Some('-'),
        0x0D => Some('='),
        0x35 => Some('/'),
        0x34 => Some('.'),
        0x28 => Some('\''),
        _ => None,
    }
}

/// The character a key press stands for (see `ascii_for_scancode`).
pub fn scancode_to_ascii(scancode: u8) -> (c: Option<char>)
    ensures
        c == ascii_for_scancode(scancode),
{
    match scancode {
        0x02 => Some('1'),
        0x03 => Some('2'),
        0x04 => Some('3'),
        0x05 => Some('4'),
        0x06 => Some('5'),
        0x07 => Some('6'),
        0x08 => Some('7'),
        0x09 => Some('8'),
        0x0A => Some('9'),
        0x0B => Some('0'),
        0x10 => Some('q'),
        0x11 => Some('w'),
        0x12 => Some('e'),
        0x13 => Some('r'),
        0x14 => Some('t'),
        0x15 => Some('y'),
        0x16 => Some('u'),
        0x17 => Some('i'),
        0x18 => Some('o'),
        0x19 => Some('p'),
        0x1E => Some('a'),
        0x1F => Some('s'),
        0x20 => Some('d'),
        0x21 => Some('f'),
        0x22 => Some('g'),
        0x23 => Some('h'),
        0x24 => Some('j'),
        0x25 => Some('k'),
        0x26 => Some('l'),
        0x2C => Some('z'),
        0x2D => Some('x'),
        0x2E => Some('c'),
        0x2F => Some('v'),
        0x30 => Some('b'),
        0x31 => Some('n'),
        0x32 => Some('m'),
        0x0C => Some('-'),
        0x0D => Some('='),
        0x35 => Some('/'),
        0x34 => Some('.'),
        0x28 => Some('\''),
        _ => None,
    }
}

/// Whether a scancode reports a key being let go (its top bit is set).
pub fn is_key_release(scancode: u8) -> (released: bool)
    ensures
        released == (scancode >= 0x80),
{
    assert((scancode & 0x80 != 0) == (scancode >= 0x80)) by (bit_vector);
    scancode & 0x80 != 0
}

/// Whether the keyboard controller's status byte says that a scancode is
/// waiting to be read (its lowest bit is set).
pub fn key_available(status: u8) -> (available: bool)
    ensures
        available == (status % 2 == 1),
{
    assert((status & 1 != 0) == (status % 2 == 1)) by (bit_vector);
    status & 1 != 0
}

/// The scancode of the key that types `ch`, if a key does.
pub open spec fn scancode_typing(ch: char) -> Option<u8> {
    match ch {
        '1' => Some(0x02u8),
        '2' => Some(0x03u8),
        '3' => Some(0x04u8),
        '4' => Some(0x05u8),
        '5' => Some(0x06u8),
        '6' => Some(0x07u8),
        '7' => Some(0x08u8),
        '8' => Some(0x09u8),
        '9' => Some(0x0Au8),
        '0' => Some(0x0Bu8),
        'q' => Some(0x10u8),
        'w' => Some(0x11u8),
        'e' => Some(0x12u8),
        'r' => Some(0x13u8),
        't' => Some(0x14u8),
        'y' => Some(0x15u8),
        'u' => Some(0x16u8),
        'i' => Some(0x17u8),
        'o' => Some(0x18u8),
        'p' => Some(0x19u8),
        'a' => Some(0x1Eu8),
        's' => Some(0x1Fu8),
        'd' => Some(0x20u8),
        'f' => Some(0x21u8),
        'g' => Some(0x22u8),
        'h' => Some(0x23u8),
        'j' => Some(0x24u8),
        'k' => Some(0x25u8),
        'l' => Some(0x26u8),
        'z' => Some(0x2Cu8),
        'x' => Some(0x2Du8),
        'c' => Some(0x2Eu8),
        'v' => Some(0x2Fu8),
        'b' => Some(0x30u8),
        'n' => Some(0x31u8),
        'm' => Some(0x32u8),
        '-' => Some(0x0Cu8),
        '=' => Some(0x0Du8),
        '/' => Some(0x35u8),
        '.' => Some(0x34u8),
        '\'' => Some(0x28u8),
        _ => None,
    }
}

/// Whether `ch` is one of the characters the keyboard types: a lower-case
/// letter, a digit, or one of `-`, `=`, `/`, `.` and `'`.
pub open spec fn typeable(ch: char) -> bool {
    ('a' <= ch && ch <= 'z') || ('0' <= ch && ch <= '9') || ch == '-' || ch == '=' || ch == '/'
        || ch == '.' || ch == '\''
}

/// The scancode table is one to one between the key presses it knows, all
/// below 0x80, and the characters that can be typed: every lower-case letter,
/// digit and `-`, `=`, `/`, `.`, `'` has exactly one key, and no key types
/// anything else.
pub proof fn lemma_scancode_table(scancode: u8, ch: char)
    ensures
        ascii_for_scancode(scancode) matches Some(c) ==> scancode < 0x80 && typeable(c)
            && scancode_typing(c) == Some(scancode),
        typeable(ch) ==> (scancode_typing(ch) matches Some(k) && ascii_for_scancode(k) == Some(ch)),
        ascii_for_scancode(scancode) == Some(ch) <==> scancode_typing(ch) == Some(scancode),
{
}

/// The number of scancodes below `n` that type a character.
pub open spec fn typing_codes_below(n: nat) -> nat
    decreases n,
{
    if n == 0 {
        0
    } else {
        typing_codes_below((n - 1) as nat) + if ascii_for_scancode((n - 1) as u8) is Some {
            1nat
        } else {
            0nat
        }
    }
}

/// Exactly 41 scancodes type a character, all of them below 0x80.
pub proof fn lemma_scancode_count()
    ensures
        typing_codes_below(0x80) == 41,
        typing_codes_below(0x100) == 41,
{
    assert(typing_codes_below(0x10) == 12) by {
        reveal_with_fuel(typing_codes_below, 17);
    }
    assert(typing_codes_below(0x20) == 24) by {
        reveal_with_fuel(typing_codes_below, 17);
    }
    assert(typing_codes_below(0x30) == 36) by {
        reveal_with_fuel(typing_codes_below, 17);
    }
    assert(typing_codes_below(0x40) == 41) by {
        reveal_with_fuel(typing_codes_below, 17);
    }
    lemma_no_codes_between(0x40, 0x80);
    lemma_no_codes_between(0x40, 0x100);
}

/// No scancode from `lo` on types a character, for `lo` at least 0x40.
proof fn lemma_no_codes_between(lo: nat, hi: nat)
    requires
        0x40 <= lo <= hi <= 0x100,
    ensures
        typing_codes_below(hi) == typing_codes_below(lo),
    decreases hi - lo,
{
    if hi > lo {
        lemma_no_codes_between(lo, (hi - 1) as nat);
        assert(ascii_for_scancode((hi - 1) as u8) is None);
    }
}

/// The most scancodes read to empty the keyboard controller's buffer.
pub const DRAIN_ROUNDS: usize = 100;

/// Whether emptying the keyboard controller's buffer reads another scancode
/// in round `round`, given the status byte read then: while there is one
/// waiting, for at most `DRAIN_ROUNDS` rounds.
pub fn keep_draining(round: usize, status: u8) -> (more: bool)
    ensures
        more == (round < DRAIN_ROUNDS && status % 2 == 1),
{
    round < DRAIN_ROUNDS && key_available(status)
}

/// A line being typed: the bytes of the buffer and the position of the next one.
pub ghost struct LineState {
    pub bytes: Seq<u8>,
    pub pos: int,
}

/// The line before any key is pressed: all zero bytes, at position 0.
pub open spec fn empty_line() -> LineState {
    LineState { bytes: Seq::new(LINE_CAPACITY as nat, |i: int| 0u8), pos: 0 }
}

/// The line after `c` is typed: stored at the position, which moves on, while
/// there is room for it (the last byte of the buffer is never typed into).
pub open spec fn typed(s: LineState, c: u8) -> LineState {
    if s.pos < LINE_CAPACITY - 1 {
        LineState { bytes: s.bytes.update(s.pos, c), pos: s.pos + 1 }
    } else {
        s
    }
}

/// The line after a backspace: the position moves back by one, where it can;
/// the byte there stays in the buffer.
pub open spec fn erased(s: LineState) -> LineState {
    if s.pos > 0 {
        LineState { pos: s.pos - 1, ..s }
    } else {
        s
    }
}

/// A key press in a line read without echo: the line after it, and whether it
/// ended the line. Key releases, Enter, Backspace and the keys of
/// `ascii_for_scancode` count; other keys (the space bar among them) do nothing.
pub open spec fn quiet_step(s: LineState, scancode: u8) -> (LineState, bool) {
    if scancode >= 0x80 {
        (s, false)
    } else if scancode == SCANCODE_ENTER {
        (s, true)
    } else if scancode == SCANCODE_BACKSPACE {
        (erased(s), false)
    } else {
        match ascii_for_scancode(scancode) {
            Some(c) => (typed(s, c as u8), false),
            None => (s, false),
        }
    }
}

/// The character a key press types in a line read with echo: those of
/// `ascii_for_scancode`, and a space for the space bar.
pub open spec fn echo_char(scancode: u8) -> Option<char> {
    if scancode == SCANCODE_SPACE {
        Some(' ')
    } else {
        ascii_for_scancode(scancode)
    }
}

/// A key press in a line read with echo: the line after it, whether it ended
/// the line, and the bytes echoed to the screen. Enter echoes a newline;
/// Backspace, where there is a byte to erase, echoes backspace, space,
/// backspace; a typed character is echoed where it fits in the line.
pub open spec fn echo_step(s: LineState, scancode: u8) -> (LineState, bool, Seq<u8>) {
    if scancode == SCANCODE_ENTER {
        (s, true, seq![10u8])
    } else if scancode == SCANCODE_BACKSPACE {
        if s.pos > 0 {
            (erased(s), false, seq![8u8, 32u8, 8u8])
        } else {
            (s, false, Seq::empty())
        }
    } else {
        match echo_char(scancode) {
            Some(c) => if s.pos < LINE_CAPACITY - 1 {
                (typed(s, c as u8), false, seq![c as u8])
            } else {
                (s, false, Seq::empty())
            },
            None => (s, false, Seq::empty()),
        }
    }
}

/// A backspace takes back a character that was typed: the position returns to
/// where it was, and the bytes before it are as they were.
pub proof fn lemma_backspace_undoes_typing(s: LineState, c: u8)
    requires
        valid_line(s),
        s.pos < LINE_CAPACITY - 1,
    ensures
        erased(typed(s, c)).pos == s.pos,
        erased(typed(s, c)).bytes.take(s.pos) == s.bytes.take(s.pos),
{
    assert(erased(typed(s, c)).bytes.take(s.pos) =~= s.bytes.take(s.pos));
}

/// Every key press keeps a line within its buffer and never writes the
/// buffer's last byte, so a line holds at most `LINE_CAPACITY - 1` characters.
pub proof fn lemma_steps_keep_line_valid(s: LineState, scancode: u8)
    requires
        valid_line(s),
    ensures
        valid_line(quiet_step(s, scancode).0),
        valid_line(echo_step(s, scancode).0),
        quiet_step(s, scancode).0.bytes[LINE_CAPACITY - 1] == s.bytes[LINE_CAPACITY - 1],
        echo_step(s, scancode).0.bytes[LINE_CAPACITY - 1] == s.bytes[LINE_CAPACITY - 1],
{
}

/// A line of keyboard input being typed.
pub struct LineInput {
    buffer: Vec<u8>,
    pos: usize,
}

impl View for LineInput {
    type V = LineState;

    closed spec fn view(&self) -> LineState {
        LineState { bytes: self.buffer@, pos: self.pos as int }
    }
}

/// Whether a line state is one a line can be in.
pub open spec fn valid_line(s: LineState) -> bool {
    &&& s.bytes.len() == LINE_CAPACITY
    &&& 0 <= s.pos < LINE_CAPACITY
}

impl LineInput {
    /// Whether the buffer is whole and the position inside it.
    pub open spec fn wf(&self) -> bool {
        valid_line(self@)
    }

    /// A line with nothing typed yet.
    pub fn new() -> (line: LineInput)
        ensures
            line.wf(),
            line@ == empty_line(),
    {
        let mut buffer: Vec<u8> = Vec::new();
        let mut i: usize = 0;
        while i < LINE_CAPACITY
            invariant
                i <= LINE_CAPACITY,
                buffer@ =~= Seq::new(i as nat, |k: int| 0u8),
            decreases LINE_CAPACITY - i,
        {
            buffer.push(0u8);
            i = i + 1;
        }
        LineInput { buffer, pos: 0 }
    }

    /// The position of the next byte typed.
    pub fn pos(&self) -> (pos: usize)
        ensures
            pos == self@.pos,
    {
        self.pos
    }

    /// The whole buffer: what was typed, and whatever bytes backspace left behind it.
    pub fn bytes(&self) -> (bytes: &[u8])
        ensures
            bytes@ == self@.bytes,
    {
        self.buffer.as_slice()
    }

    fn type_byte(&mut self, c: u8)
        requires
            old(self).wf(),
        ensures
            final(self).wf(),
            final(self)@ == typed(old(self)@, c),
    {
        if self.pos < LINE_CAPACITY - 1 {
            self.buffer.set(self.pos, c);
            self.pos = self.pos + 1;
        }
    }

    fn erase(&mut self)
        requires
            old(self).wf(),
        ensures
            final(self).wf(),
            final(self)@ == erased(old(self)@),
    {
        if self.pos > 0 {
            self.pos = self.pos - 1;
        }
    }

    /// Takes one scancode of a line read without echo; returns whether it
    /// ended the line.
    pub fn feed_quiet(&mut self, scancode: u8) -> (done: bool)
        requires
            old(self).wf(),
        ensures
            final(self).wf(),
            (final(self)@, done) == quiet_step(old(self)@, scancode),
    {
        if is_key_release(scancode) {
            return false;
        }
        if scancode == SCANCODE_ENTER {
            true
        } else if scancode == SCANCODE_BACKSPACE {
            self.erase();
            false
        } else {
            match scancode_to_ascii(scancode) {
                Some(c) => {
                    self.type_byte(char_byte(c));
                    false
                },
                None => false,
            }
        }
    }

    /// Echoes a finished line read without echo: the bytes typed, then a newline.
    pub fn echo_quiet_line(&self, writer: &mut Writer)
        requires
            self.wf(),
            old(writer).wf(),
        ensures
            final(writer).wf(),
            final(writer)@ == put_bytes(old(writer)@, self@.bytes.take(self@.pos).push(10u8)),
    {
        let mut i: usize = 0;
        while i < self.pos
            invariant
                self.wf(),
                i <= self.pos,
                writer.wf(),
                writer@ == put_bytes(old(writer)@, self@.bytes.take(i as int)),
            decreases self.pos - i,
        {
            writer.write_byte(self.buffer[i]);
            assert(self@.bytes.take(i + 1).drop_last() =~= self@.bytes.take(i as int));
            i = i + 1;
        }
        writer.write_byte(10u8);
        assert(self@.bytes.take(self@.pos).push(10u8).drop_last() =~= self@.bytes.take(self@.pos));
    }

    /// Takes one key press of a line read with echo, echoing it on `writer`;
    /// returns whether it ended the line.
    pub fn feed_echo(&mut self, writer: &mut Writer, scancode: u8) -> (done: bool)
        requires
            old(self).wf(),
            old(writer).wf(),
        ensures
            final(self).wf(),
            final(writer).wf(),
            final(self)@ == echo_step(old(self)@, scancode).0,
            done == echo_step(old(self)@, scancode).1,
            final(writer)@ == put_bytes(old(writer)@, echo_step(old(self)@, scancode).2),
    {
        proof {
            reveal_with_fuel(put_bytes, 4);
        }
        if scancode == SCANCODE_ENTER {
            writer.write_byte(10u8);
            assert(seq![10u8].drop_last() =~= Seq::<u8>::empty());
            return true;
        }
        if scancode == SCANCODE_BACKSPACE {
            if self.pos > 0 {
                self.erase();
                writer.write_byte(8u8);
                writer.write_byte(32u8);
                writer.write_byte(8u8);
                let ghost e = seq![8u8, 32u8, 8u8];
                assert(e.drop_last() =~= seq![8u8, 32u8]);
                assert(e.drop_last().drop_last() =~= seq![8u8]);
                assert(e.drop_last().drop_last().drop_last() =~= Seq::<u8>::empty());
            }
            return false;
        }
        let c = if scancode == SCANCODE_SPACE {
            Some(' ')
        } else {
            scancode_to_ascii(scancode)
        };
        match c {
            Some(ch) => {
                if self.pos < LINE_CAPACITY - 1 {
                    let b = char_byte(ch);
                    self.type_byte(b);
                    writer.write_byte(b);
                    assert(seq![b].drop_last() =~= Seq::<u8>::empty());
                }
                false
            },
            None => false,
        }
    }
}

/// The byte of an ASCII character.
fn char_byte(c: char) -> (b: u8)
    requires
        (c as u32) < 128,
    ensures
        b == c as u8,
{
    c as u8
}

} // verus!

verus! {

/// In a line read without echo: a key that types a character stores it at the
/// position and moves on, where the line has room, keeping what came before,
/// and a backspace right after moves back again; Enter ends the line as it is;
/// a key release or the space bar changes nothing; a backspace moves back one
/// place, where it can, keeping the bytes.
pub proof fn lemma_quiet_keys(s: LineState, k: u8)
    requires
        valid_line(s),
    ensures
        ascii_for_scancode(k) matches Some(c) ==> (s.pos < LINE_CAPACITY - 1 ==> {
            let t = quiet_step(s, k).0;
            &&& !quiet_step(s, k).1
            &&& t.pos == s.pos + 1
            &&& t.bytes[s.pos] == c as u8
            &&& t.bytes.len() == s.bytes.len()
            &&& forall|i: int| 0 <= i < s.bytes.len() && i != s.pos ==> t.bytes[i] == s.bytes[i]
            &&& quiet_step(t, SCANCODE_BACKSPACE).0.pos == s.pos
        }),
        ascii_for_scancode(k) is Some && s.pos == LINE_CAPACITY - 1 ==> quiet_step(s, k) == (s, false),
        quiet_step(s, SCANCODE_ENTER) == (s, true),
        k >= 0x80 ==> quiet_step(s, k) == (s, false),
        quiet_step(s, SCANCODE_SPACE) == (s, false),
        quiet_step(s, SCANCODE_BACKSPACE).0.bytes == s.bytes,
        quiet_step(s, SCANCODE_BACKSPACE).0.pos == if s.pos > 0 {
            s.pos - 1
        } else {
            0
        },
        !quiet_step(s, SCANCODE_BACKSPACE).1,
{
}

/// In a line read with echo: a key that types a character stores it at the
/// position, moves on and echoes it, where the line has room, and otherwise
/// does nothing; the space bar types a space; Enter ends the line as it is and
/// echoes a newline; a backspace moves back one place and echoes backspace,
/// space, backspace, where there is a place to go back to.
pub proof fn lemma_echo_keys(s: LineState, k: u8)
    requires
        valid_line(s),
    ensures
        echo_char(k) matches Some(c) ==> (s.pos < LINE_CAPACITY - 1 ==> {
            let (t, done, echo) = echo_step(s, k);
            &&& !done
            &&& echo == seq![c as u8]
            &&& t.pos == s.pos + 1
            &&& t.bytes[s.pos] == c as u8
            &&& t.bytes.len() == s.bytes.len()
            &&& forall|i: int| 0 <= i < s.bytes.len() && i != s.pos ==> t.bytes[i] == s.bytes[i]
        }),
        echo_char(k) is Some && s.pos == LINE_CAPACITY - 1 ==> echo_step(s, k) == (s, false, Seq::<u8>::empty()),
        echo_char(SCANCODE_SPACE) == Some(' '),
        echo_char(k) is None && k != SCANCODE_ENTER && k != SCANCODE_BACKSPACE ==> echo_step(s, k) == (s, false, Seq::<u8>::empty()),
        echo_step(s, SCANCODE_ENTER) == (s, true, seq![10u8]),
        s.pos > 0 ==> echo_step(s, SCANCODE_BACKSPACE) == (LineState { pos: s.pos - 1, ..s }, false, seq![8u8, 32u8, 8u8]),
        s.pos == 0 ==> echo_step(s, SCANCODE_BACKSPACE) == (s, false, Seq::<u8>::empty()),
{
}

} // verus!
