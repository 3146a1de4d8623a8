//! Keys, and the bytes that each sends to a child.

use vstd::prelude::*;
use vstd::string::*;
use vstd::utf8::encode_utf8;
use crate::text::text_of;

verus! {

/// A key of the keyboard.
#[derive(Debug, Clone, Copy, PartialEq, Eq, Structural)]
pub enum KeyCode {
    Backspace,
    Enter,
    Left,
    Right,
    Up,
    Down,
    Home,
    End,
    PageUp,
    PageDown,
    Tab,
    BackTab,
    Delete,
    Insert,
    /// A function key, by its number.
    F(u8),
    /// A key that stands for a character.
    Char(char),
    Esc,
    /// Any other key.
    Other,
}

/// A key press: the key, and whether control and alt were held.
#[derive(Debug, Clone, Copy, PartialEq, Eq, Structural)]
pub struct KeyEvent {
    pub code: KeyCode,
    pub control: bool,
    pub alt: bool,
}

impl KeyEvent {
    /// A press of `code` with nothing held.
    pub fn plain(code: KeyCode) -> (r: Self)
        ensures
            r == (KeyEvent { code, control: false, alt: false }),
    {
        KeyEvent { code, control: false, alt: false }
    }
}

/// The control byte of a character: its low eight bits, moved so that `a`
/// gives 1.
pub open spec fn control_byte(c: char) -> int {
    (((c as u32) % 256) + 256 - 96) % 256
}

/// The sequence of a cursor key: `ESC O` and the letter while the child
/// uses application cursor keys, `ESC [` and the letter otherwise.
pub open spec fn cursor_sequence(letter: u8, app_cursor: bool) -> Seq<u8> {
    if app_cursor {
        seq![0x1bu8, 0x4fu8, letter]
    } else {
        seq![0x1bu8, 0x5bu8, letter]
    }
}

/// The sequence `ESC [ digits ~`.
pub open spec fn tilde_sequence(digits: Seq<u8>) -> Seq<u8> {
    seq![0x1bu8, 0x5bu8] + digits + seq![0x7eu8]
}

/// The sequence of a function key, where it has one.
pub open spec fn function_sequence(n: u8) -> Option<Seq<u8>> {
    if n == 1 {
        Some(seq![0x1bu8, 0x4fu8, 0x50u8])
    } else if n == 2 {
        Some(seq![0x1bu8, 0x4fu8, 0x51u8])
    } else if n == 3 {
        Some(seq![0x1bu8, 0x4fu8, 0x52u8])
    } else if n == 4 {
        Some(seq![0x1bu8, 0x4fu8, 0x53u8])
    } else if n == 5 {
        Some(tilde_sequence(seq![0x31u8, 0x35u8]))
    } else if n == 6 {
        Some(tilde_sequence(seq![0x31u8, 0x37u8]))
    } else if n == 7 {
        Some(tilde_sequence(seq![0x31u8, 0x38u8]))
    } else if n == 8 {
        Some(tilde_sequence(seq![0x31u8, 0x39u8]))
    } else if n == 9 {
        Some(tilde_sequence(seq![0x32u8, 0x30u8]))
    } else if n == 10 {
        Some(tilde_sequence(seq![0x32u8, 0x31u8]))
    } else if n == 11 {
        Some(tilde_sequence(seq![0x32u8, 0x33u8]))
    } else if n == 12 {
        Some(tilde_sequence(seq![0x32u8, 0x34u8]))
    } else {
        None
    }
}

/// The bytes that a key press sends to the child, where it sends any.
pub open spec fn key_bytes(key: KeyEvent, app_cursor: bool) -> Option<Seq<u8>> {
    match key.code {
        KeyCode::Char(c) => if key.control {
            if 1 <= control_byte(c) <= 26 {
                Some(seq![control_byte(c) as u8])
            } else {
                None
            }
        } else if key.alt {
            Some(seq![0x1bu8] + encode_utf8(seq![c]))
        } else {
            Some(encode_utf8(seq![c]))
        },
        KeyCode::Enter => Some(seq![0x0du8]),
        KeyCode::Backspace => Some(seq![0x7fu8]),
        KeyCode::Tab => Some(seq![0x09u8]),
        KeyCode::BackTab => Some(seq![0x1bu8, 0x5bu8, 0x5au8]),
        KeyCode::Esc => Some(seq![0x1bu8]),
        KeyCode::Up => Some(cursor_sequence(0x41, app_cursor)),
        KeyCode::Down => Some(cursor_sequence(0x42, app_cursor)),
        KeyCode::Right => Some(cursor_sequence(0x43, app_cursor)),
        KeyCode::Left => Some(cursor_sequence(0x44, app_cursor)),
        KeyCode::Home => Some(seq![0x1bu8, 0x5bu8, 0x48u8]),
        KeyCode::End => Some(seq![0x1bu8, 0x5bu8, 0x46u8]),
        KeyCode::PageUp => Some(tilde_sequence(seq![0x35u8])),
        KeyCode::PageDown => Some(tilde_sequence(seq![0x36u8])),
        KeyCode::Insert => Some(tilde_sequence(seq![0x32u8])),
        KeyCode::Delete => Some(tilde_sequence(seq![0x33u8])),
        KeyCode::F(n) => function_sequence(n),
        KeyCode::Other => None,
    }
}

fn utf8_of(c: char) -> (r: Vec<u8>)
    ensures
        r@ == encode_utf8(seq![c]),
{
    let mut chars: Vec<char> = Vec::new();
    chars.push(c);
    assert(chars@ =~= seq![c]);
    text_of(&chars).as_str().as_bytes_vec()
}

fn cursor_key(letter: u8, app_cursor: bool) -> (r: Vec<u8>)
    ensures
        r@ == cursor_sequence(letter, app_cursor),
{
    let mut out: Vec<u8> = Vec::new();
    out.push(0x1b);
    out.push(
        if app_cursor {
            0x4f
        } else {
            0x5b
        },
    );
    out.push(letter);
    assert(out@ =~= cursor_sequence(letter, app_cursor));
    out
}

fn tilde_key(first: u8, second: Option<u8>) -> (r: Vec<u8>)
    ensures
        r@ == tilde_sequence(
            match second {
                Some(s) => seq![first, s],
                None => seq![first],
            },
        ),
{
    let mut out: Vec<u8> = Vec::new();
    out.push(0x1b);
    out.push(0x5b);
    out.push(first);
    match second {
        Some(s) => {
            out.push(s);
        },
        None => {},
    }
    out.push(0x7e);
    assert(out@ =~= tilde_sequence(
        match second {
            Some(s) => seq![first, s],
            None => seq![first],
        },
    ));
    out
}

fn three(a: u8, b: u8, c: u8) -> (r: Vec<u8>)
    ensures
        r@ == seq![a, b, c],
{
    let mut out: Vec<u8> = Vec::new();
    out.push(a);
    out.push(b);
    out.push(c);
    assert(out@ =~= seq![a, b, c]);
    out
}

fn one(a: u8) -> (r: Vec<u8>)
    ensures
        r@ == seq![a],
{
    let mut out: Vec<u8> = Vec::new();
    out.push(a);
    assert(out@ =~= seq![a]);
    out
}

/// Translates a key press into the bytes to send to the child.
///
/// Gives `None` where the key is not forwarded. `app_cursor` says whether
/// the child has asked for application cursor keys.
pub fn translate_key_event(key: &KeyEvent, app_cursor: bool) -> (r: Option<Vec<u8>>)
    ensures
        match r {
            Some(bytes) => key_bytes(*key, app_cursor) == Some(bytes@),
            None => key_bytes(*key, app_cursor) is None,
        },
{
    match key.code {
        KeyCode::Char(c) => {
            if key.control {
                let ctrl = (((c as u32) % 256) + 256 - 96) % 256;
                if 1 <= ctrl && ctrl <= 26 {
                    Some(one(ctrl as u8))
                } else {
                    None
                }
            } else if key.alt {
                let mut bytes = one(0x1b);
                let mut rest = utf8_of(c);
                bytes.append(&mut rest);
                Some(bytes)
            } else {
                Some(utf8_of(c))
            }
        },
        KeyCode::Enter => Some(one(0x0d)),
        KeyCode::Backspace => Some(one(0x7f)),
        KeyCode::Tab => Some(one(0x09)),
        KeyCode::BackTab => Some(three(0x1b, 0x5b, 0x5a)),
        KeyCode::Esc => Some(one(0x1b)),
        KeyCode::Up => Some(cursor_key(0x41, app_cursor)),
        KeyCode::Down => Some(cursor_key(0x42, app_cursor)),
        KeyCode::Right => Some(cursor_key(0x43, app_cursor)),
        KeyCode::Left => Some(cursor_key(0x44, app_cursor)),
        KeyCode::Home => Some(three(0x1b, 0x5b, 0x48)),
        KeyCode::End => Some(three(0x1b, 0x5b, 0x46)),
        KeyCode::PageUp => Some(tilde_key(0x35, None)),
        KeyCode::PageDown => Some(tilde_key(0x36, None)),
        KeyCode::Insert => Some(tilde_key(0x32, None)),
        KeyCode::Delete => Some(tilde_key(0x33, None)),
        KeyCode::F(n) => {
            if n == 1 {
                Some(three(0x1b, 0x4f, 0x50))
            } else if n == 2 {
                Some(three(0x1b, 0x4f, 0x51))
            } else if n == 3 {
                Some(three(0x1b, 0x4f, 0x52))
            } else if n == 4 {
                Some(three(0x1b, 0x4f, 0x53))
            } else if n == 5 {
                Some(tilde_key(0x31, Some(0x35)))
            } else if n == 6 {
                Some(tilde_key(0x31, Some(0x37)))
            } else if n == 7 {
                Some(tilde_key(0x31, Some(0x38)))
            } else if n == 8 {
                Some(tilde_key(0x31, Some(0x39)))
            } else if n == 9 {
                Some(tilde_key(0x32, Some(0x30)))
            } else if n == 10 {
                Some(tilde_key(0x32, Some(0x31)))
            } else if n == 11 {
                Some(tilde_key(0x32, Some(0x33)))
            } else if n == 12 {
                Some(tilde_key(0x32, Some(0x34)))
            } else {
                None
            }
        },
        KeyCode::Other => None,
    }
}

} // verus!
