//! Decoding of the input byte stream into commands.
use vstd::prelude::*;

verus! {

/// The escape byte that starts a multi-byte key sequence.
pub const ESC: u8 = 0x1b;

/// Logical keys that escape sequences stand for.
#[derive(Clone, Copy, Debug, PartialEq, Eq)]
pub enum Key {
    ArrowUp,
    ArrowDown,
    ArrowLeft,
    ArrowRight,
    PageUp,
    PageDown,
    LineHome,
    LineEnd,
    FileHome,
    FileEnd,
    Delete,
}

/// One command read from the input.
#[derive(Clone, Copy, Debug, PartialEq, Eq)]
pub enum Input {
    /// Ctrl-C: end the session.
    Quit,
    /// An ordinary byte.
    Char(u8),
    /// An escape sequence, with the key it stands for if it is recognised.
    Escape(Option<Key>),
}

/// Result of decoding the start of the input.
#[derive(Clone, Copy, Debug, PartialEq, Eq)]
pub enum Decoded {
    /// More bytes are needed to tell what the input is.
    Incomplete,
    /// The input starts with this command, which takes this many bytes.
    Complete(Input, usize),
}

/// Masks a byte down to the control code that Ctrl plus that key sends.
pub fn ctrl_mask(c: u8) -> (r: u8)
    ensures
        r == c % 32,
{
    let r = c & 0x1f;
    assert(c & 0x1f == c % 32) by (bit_vector);
    r
}

pub open spec fn is_digit(b: u8) -> bool {
    0x30 <= b <= 0x39
}

/// Key of `ESC [ <d> ~`.
pub open spec fn tilde_key(d: u8) -> Option<Key> {
    if d == 0x31 || d == 0x37 {
        Some(Key::LineHome)
    } else if d == 0x34 || d == 0x38 {
        Some(Key::LineEnd)
    } else if d == 0x33 {
        Some(Key::Delete)
    } else if d == 0x35 {
        Some(Key::PageUp)
    } else if d == 0x36 {
        Some(Key::PageDown)
    } else {
        None
    }
}

/// Key of `ESC [ <c>` for a non-digit `c`.
pub open spec fn bracket_key(c: u8) -> Option<Key> {
    if c == 0x41 {
        Some(Key::ArrowUp)
    } else if c == 0x42 {
        Some(Key::ArrowDown)
    } else if c == 0x43 {
        Some(Key::ArrowRight)
    } else if c == 0x44 {
        Some(Key::ArrowLeft)
    } else if c == 0x48 {
        Some(Key::LineHome)
    } else {
        None
    }
}

/// Key of `ESC O <c>`.
pub open spec fn o_key(c: u8) -> Option<Key> {
    if c == 0x48 {
        Some(Key::LineHome)
    } else if c == 0x46 {
        Some(Key::LineEnd)
    } else {
        None
    }
}

/// Number of bytes after the escape byte that a sequence takes, given its
/// first two.
pub open spec fn esc_seq_len(b1: u8, b2: u8) -> nat {
    if b1 == 0x5b && is_digit(b2) {
        3
    } else {
        2
    }
}

/// The key that the bytes after an escape byte stand for; `None` for an
/// unrecognised or short sequence.
pub open spec fn esc_seq_key(seq: Seq<u8>) -> Option<Key> {
    if seq.len() < 2 {
        None
    } else if seq[0] == 0x5b {
        if is_digit(seq[1]) {
            if seq.len() >= 3 && seq[2] == 0x7e {
                tilde_key(seq[1])
            } else {
                None
            }
        } else {
            bracket_key(seq[1])
        }
    } else if seq[0] == 0x4f {
        o_key(seq[1])
    } else {
        None
    }
}

/// What the start of `bytes` decodes to.
pub open spec fn decode_spec(bytes: Seq<u8>) -> Decoded {
    if bytes.len() == 0 {
        Decoded::Incomplete
    } else if bytes[0] == ESC {
        if bytes.len() < 3 {
            Decoded::Incomplete
        } else {
            let n = esc_seq_len(bytes[1], bytes[2]);
            if bytes.len() < n + 1 {
                Decoded::Incomplete
            } else {
                Decoded::Complete(Input::Escape(esc_seq_key(bytes.subrange(1, (n + 1) as int))), (n + 1) as usize)
            }
        }
    } else if bytes[0] == 3 {
        Decoded::Complete(Input::Quit, 1)
    } else {
        Decoded::Complete(Input::Char(bytes[0]), 1)
    }
}

/// Translates the bytes that follow an escape byte into a key, or `None` if
/// no valid (or implemented) sequence is there.
pub fn read_esc_seq_to_key(seq: &[u8]) -> (r: Option<Key>)
    ensures
        r == esc_seq_key(seq@),
{
    if seq.len() < 2 {
        return None;
    }
    let c = seq[0];
    if c == 0x5b {
        let c = seq[1];
        if c >= 0x30 && c <= 0x39 {
            if seq.len() >= 3 && seq[2] == 0x7e {
                if c == 0x31 || c == 0x37 {
                    Some(Key::LineHome)
                } else if c == 0x34 || c == 0x38 {
                    Some(Key::LineEnd)
                } else if c == 0x33 {
                    Some(Key::Delete)
                } else if c == 0x35 {
                    Some(Key::PageUp)
                } else if c == 0x36 {
                    Some(Key::PageDown)
                } else {
                    None
                }
            } else {
                None
            }
        } else if c == 0x41 {
            Some(Key::ArrowUp)
        } else if c == 0x42 {
            Some(Key::ArrowDown)
        } else if c == 0x43 {
            Some(Key::ArrowRight)
        } else if c == 0x44 {
            Some(Key::ArrowLeft)
        } else if c == 0x48 {
            Some(Key::LineHome)
        } else {
            None
        }
    } else if c == 0x4f {
        let c = seq[1];
        if c == 0x48 {
            Some(Key::LineHome)
        } else if c == 0x46 {
            Some(Key::LineEnd)
        } else {
            None
        }
    } else {
        None
    }
}

/// Decodes the command at the start of `bytes`, saying how many bytes it
/// takes, or that more bytes are needed.
pub fn decode_input(bytes: &[u8]) -> (r: Decoded)
    ensures
        r == decode_spec(bytes@),
{
    let n = bytes.len();
    if n == 0 {
        return Decoded::Incomplete;
    }
    let b = bytes[0];
    if b == ESC {
        if n < 3 {
            return Decoded::Incomplete;
        }
        let len: usize = if bytes[1] == 0x5b && bytes[2] >= 0x30 && bytes[2] <= 0x39 {
            3
        } else {
            2
        };
        if n < len + 1 {
            return Decoded::Incomplete;
        }
        let seq = vstd::slice::slice_subrange(bytes, 1, len + 1);
        Decoded::Complete(Input::Escape(read_esc_seq_to_key(seq)), len + 1)
    } else if b == ctrl_mask(0x63) {
        Decoded::Complete(Input::Quit, 1)
    } else {
        Decoded::Complete(Input::Char(b), 1)
    }
}

} // verus!
