//! The bytes a terminal sends for a key press.

use vstd::prelude::*;
use vstd::utf8::{
    encode_scalar, has_width_1_encoding, has_width_2_encoding, has_width_3_encoding,
};

verus! {

/// A key, as the local terminal reports it.
#[derive(Clone, Copy, Debug, PartialEq, Eq, Structural)]
pub enum KeyCode {
    Char(char),
    Enter,
    Backspace,
    Tab,
    Esc,
    Up,
    Down,
    Right,
    Left,
    Home,
    End,
    PageUp,
    PageDown,
    Delete,
    Insert,
    /// A function key, F1 to F12 and beyond.
    F(u8),
    /// Any other key.
    Other,
}

/// The modifier keys held down.
#[derive(Clone, Copy, Debug, PartialEq, Eq, Structural)]
pub struct KeyModifiers {
    pub control: bool,
    pub alt: bool,
}

/// A key press.
#[derive(Clone, Copy, Debug, PartialEq, Eq, Structural)]
pub struct KeyPress {
    pub code: KeyCode,
    pub modifiers: KeyModifiers,
}

/// The control byte that Ctrl with this character sends, if any.
pub open spec fn control_byte(c: char) -> Option<u8> {
    if 'a' <= c && c <= 'z' {
        Some((c as u32 - 'a' as u32 + 1) as u8)
    } else if 'A' <= c && c <= 'Z' {
        Some((c as u32 - 'A' as u32 + 1) as u8)
    } else if c == '@' {
        Some(0x00u8)
    } else if c == '[' {
        Some(0x1bu8)
    } else if c == '\\' {
        Some(0x1cu8)
    } else if c == ']' {
        Some(0x1du8)
    } else if c == '^' {
        Some(0x1eu8)
    } else if c == '_' {
        Some(0x1fu8)
    } else if c == '?' {
        Some(0x7fu8)
    } else {
        None
    }
}

/// The sequence a function key sends: F1 to F4 as `ESC O P` to `ESC O S`,
/// F5 to F12 as `ESC [ nn ~`.
pub open spec fn function_key_bytes(n: u8) -> Option<Seq<u8>> {
    if n == 1 {
        Some(seq![0x1bu8, 0x4f, 0x50])
    } else if n == 2 {
        Some(seq![0x1bu8, 0x4f, 0x51])
    } else if n == 3 {
        Some(seq![0x1bu8, 0x4f, 0x52])
    } else if n == 4 {
        Some(seq![0x1bu8, 0x4f, 0x53])
    } else if n == 5 {
        Some(seq![0x1bu8, 0x5b, 0x31, 0x35, 0x7e])
    } else if n == 6 {
        Some(seq![0x1bu8, 0x5b, 0x31, 0x37, 0x7e])
    } else if n == 7 {
        Some(seq![0x1bu8, 0x5b, 0x31, 0x38, 0x7e])
    } else if n == 8 {
        Some(seq![0x1bu8, 0x5b, 0x31, 0x39, 0x7e])
    } else if n == 9 {
        Some(seq![0x1bu8, 0x5b, 0x32, 0x30, 0x7e])
    } else if n == 10 {
        Some(seq![0x1bu8, 0x5b, 0x32, 0x31, 0x7e])
    } else if n == 11 {
        Some(seq![0x1bu8, 0x5b, 0x32, 0x33, 0x7e])
    } else if n == 12 {
        Some(seq![0x1bu8, 0x5b, 0x32, 0x34, 0x7e])
    } else {
        None
    }
}

/// The bytes a key press sends, or `None` for a key that sends nothing.
/// Ctrl takes precedence over Alt; Alt puts `ESC` before the character.
pub open spec fn key_bytes(k: KeyPress) -> Option<Seq<u8>> {
    match k.code {
        KeyCode::Char(c) => if k.modifiers.control {
            match control_byte(c) {
                Some(b) => Some(seq![b]),
                None => None,
            }
        } else if k.modifiers.alt {
            Some(seq![0x1bu8] + encode_scalar(c as u32))
        } else {
            Some(encode_scalar(c as u32))
        },
        KeyCode::Enter => Some(seq![0x0du8]),
        KeyCode::Backspace => Some(seq![0x7fu8]),
        KeyCode::Tab => Some(seq![0x09u8]),
        KeyCode::Esc => Some(seq![0x1bu8]),
        KeyCode::Up => Some(seq![0x1bu8, 0x5b, 0x41]),
        KeyCode::Down => Some(seq![0x1bu8, 0x5b, 0x42]),
        KeyCode::Right => Some(seq![0x1bu8, 0x5b, 0x43]),
        KeyCode::Left => Some(seq![0x1bu8, 0x5b, 0x44]),
        KeyCode::Home => Some(seq![0x1bu8, 0x5b, 0x48]),
        KeyCode::End => Some(seq![0x1bu8, 0x5b, 0x46]),
        KeyCode::PageUp => Some(seq![0x1bu8, 0x5b, 0x35, 0x7e]),
        KeyCode::PageDown => Some(seq![0x1bu8, 0x5b, 0x36, 0x7e]),
        KeyCode::Delete => Some(seq![0x1bu8, 0x5b, 0x33, 0x7e]),
        KeyCode::Insert => Some(seq![0x1bu8, 0x5b, 0x32, 0x7e]),
        KeyCode::F(n) => function_key_bytes(n),
        KeyCode::Other => None,
    }
}

/// Appends the UTF-8 encoding of `c` to `out`.
fn push_utf8(out: &mut Vec<u8>, c: char)
    ensures
        final(out)@ == old(out)@ + encode_scalar(c as u32),
{
    let v = c as u32;
    if v <= 0x7f {
        out.push((v & 0x7f) as u8);
    } else if v <= 0x7ff {
        out.push(0xc0 | ((v >> 6) & 0x1f) as u8);
        out.push(0x80 | (v & 0x3f) as u8);
    } else if v <= 0xffff {
        proof {
            vstd::utf8::char_is_scalar(c);
            assert(has_width_3_encoding(v));
        }
        out.push(0xe0 | ((v >> 12) & 0x0f) as u8);
        out.push(0x80 | ((v >> 6) & 0x3f) as u8);
        out.push(0x80 | (v & 0x3f) as u8);
    } else {
        proof {
            vstd::utf8::char_is_scalar(c);
        }
        out.push(0xf0 | ((v >> 18) & 0x7) as u8);
        out.push(0x80 | ((v >> 12) & 0x3f) as u8);
        out.push(0x80 | ((v >> 6) & 0x3f) as u8);
        out.push(0x80 | (v & 0x3f) as u8);
    }
    assert(final(out)@ =~= old(out)@ + encode_scalar(c as u32));
}

fn bytes_of(s: &[u8]) -> (r: Vec<u8>)
    ensures
        r@ == s@,
{
    let mut out: Vec<u8> = Vec::with_capacity(s.len());
    let mut k: usize = 0;
    while k < s.len()
        invariant
            k <= s@.len(),
            out@ == s@.take(k as int),
        decreases s@.len() - k,
    {
        out.push(s[k]);
        k = k + 1;
        assert(out@ =~= s@.take(k as int));
    }
    assert(s@.take(s@.len() as int) =~= s@);
    out
}

/// The bytes a terminal sends to the remote for a key press, or `None` for
/// a key that sends nothing.
pub fn key_to_bytes(key: &KeyPress) -> (r: Option<Vec<u8>>)
    ensures
        match r {
            Some(v) => key_bytes(*key) == Some(v@),
            None => key_bytes(*key) is None,
        },
{
    let r = match key.code {
        KeyCode::Char(c) => {
            if key.modifiers.control {
                if 'a' <= c && c <= 'z' {
                    let b = (c as u32 - 'a' as u32 + 1) as u8;
                    Some(vec![b])
                } else if 'A' <= c && c <= 'Z' {
                    let b = (c as u32 - 'A' as u32 + 1) as u8;
                    Some(vec![b])
                } else if c == '@' {
                    Some(vec![0x00u8])
                } else if c == '[' {
                    Some(vec![0x1bu8])
                } else if c == '\\' {
                    Some(vec![0x1cu8])
                } else if c == ']' {
                    Some(vec![0x1du8])
                } else if c == '^' {
                    Some(vec![0x1eu8])
                } else if c == '_' {
                    Some(vec![0x1fu8])
                } else if c == '?' {
                    Some(vec![0x7fu8])
                } else {
                    None
                }
            } else if key.modifiers.alt {
                let mut out = vec![0x1bu8];
                push_utf8(&mut out, c);
                Some(out)
            } else {
                let mut out: Vec<u8> = Vec::new();
                push_utf8(&mut out, c);
                Some(out)
            }
        },
        KeyCode::Enter => Some(vec![0x0du8]),
        KeyCode::Backspace => Some(vec![0x7fu8]),
        KeyCode::Tab => Some(vec![0x09u8]),
        KeyCode::Esc => Some(vec![0x1bu8]),
        KeyCode::Up => Some(bytes_of(&[0x1bu8, 0x5b, 0x41])),
        KeyCode::Down => Some(bytes_of(&[0x1bu8, 0x5b, 0x42])),
        KeyCode::Right => Some(bytes_of(&[0x1bu8, 0x5b, 0x43])),
        KeyCode::Left => Some(bytes_of(&[0x1bu8, 0x5b, 0x44])),
        KeyCode::Home => Some(bytes_of(&[0x1bu8, 0x5b, 0x48])),
        KeyCode::End => Some(bytes_of(&[0x1bu8, 0x5b, 0x46])),
        KeyCode::PageUp => Some(bytes_of(&[0x1bu8, 0x5b, 0x35, 0x7e])),
        KeyCode::PageDown => Some(bytes_of(&[0x1bu8, 0x5b, 0x36, 0x7e])),
        KeyCode::Delete => Some(bytes_of(&[0x1bu8, 0x5b, 0x33, 0x7e])),
        KeyCode::Insert => Some(bytes_of(&[0x1bu8, 0x5b, 0x32, 0x7e])),
        KeyCode::F(n) => {
            if n == 1 {
                Some(bytes_of(&[0x1bu8, 0x4f, 0x50]))
            } else if n == 2 {
                Some(bytes_of(&[0x1bu8, 0x4f, 0x51]))
            } else if n == 3 {
                Some(bytes_of(&[0x1bu8, 0x4f, 0x52]))
            } else if n == 4 {
                Some(bytes_of(&[0x1bu8, 0x4f, 0x53]))
            } else if n == 5 {
                Some(bytes_of(&[0x1bu8, 0x5b, 0x31, 0x35, 0x7e]))
            } else if n == 6 {
                Some(bytes_of(&[0x1bu8, 0x5b, 0x31, 0x37, 0x7e]))
            } else if n == 7 {
                Some(bytes_of(&[0x1bu8, 0x5b, 0x31, 0x38, 0x7e]))
            } else if n == 8 {
                Some(bytes_of(&[0x1bu8, 0x5b, 0x31, 0x39, 0x7e]))
            } else if n == 9 {
                Some(bytes_of(&[0x1bu8, 0x5b, 0x32, 0x30, 0x7e]))
            } else if n == 10 {
                Some(bytes_of(&[0x1bu8, 0x5b, 0x32, 0x31, 0x7e]))
            } else if n == 11 {
                Some(bytes_of(&[0x1bu8, 0x5b, 0x32, 0x33, 0x7e]))
            } else if n == 12 {
                Some(bytes_of(&[0x1bu8, 0x5b, 0x32, 0x34, 0x7e]))
            } else {
                None
            }
        },
        KeyCode::Other => None,
    };
    proof {
        if r is Some {
            assert(key_bytes(*key) matches Some(w) && w =~= r->Some_0@);
        }
    }
    r
}

} // verus!
