use vstd::prelude::*;

verus! {

/// One RGBA pixel, eight bits per channel, alpha not premultiplied.
#[derive(Clone, Copy, Debug, PartialEq, Eq, Structural)]
pub struct Rgba {
    pub r: u8,
    pub g: u8,
    pub b: u8,
    pub a: u8,
}

/// The value of one hexadecimal digit, either case.
pub open spec fn hex_digit_spec(c: char) -> Option<u8> {
    let v = c as u32;
    if 48 <= v <= 57 {
        Some((v - 48) as u8)
    } else if 97 <= v <= 102 {
        Some((v - 87) as u8)
    } else if 65 <= v <= 70 {
        Some((v - 55) as u8)
    } else {
        None
    }
}

/// The byte written by the two hex digits at `i` and `i + 1`.
pub open spec fn hex_byte_spec(s: Seq<char>, i: int) -> u8 {
    (hex_digit_spec(s[i]).unwrap() * 16 + hex_digit_spec(s[i + 1]).unwrap()) as u8
}

/// `rrggbb` as an opaque color; `None` for anything but six hex digits.
pub open spec fn color_spec(s: Seq<char>) -> Option<Rgba> {
    if s.len() == 6 && forall|i: int| 0 <= i < 6 ==> (#[trigger] hex_digit_spec(s[i])).is_some() {
        Some(Rgba { r: hex_byte_spec(s, 0), g: hex_byte_spec(s, 2), b: hex_byte_spec(s, 4), a: 255 })
    } else {
        None
    }
}

/// The value of the hex digit `c`.
pub fn hex_digit(c: char) -> (r: Option<u8>)
    ensures
        r == hex_digit_spec(c),
        r matches Some(d) ==> d < 16,
{
    let v = c as u32;
    if 48 <= v && v <= 57 {
        Some((v - 48) as u8)
    } else if 97 <= v && v <= 102 {
        Some((v - 87) as u8)
    } else if 65 <= v && v <= 70 {
        Some((v - 55) as u8)
    } else {
        None
    }
}

fn hex_byte(s: &str, i: usize) -> (r: Option<u8>)
    requires
        i <= 4,
        s@.len() == 6,
    ensures
        r is Some <==> hex_digit_spec(s@[i as int]).is_some() && hex_digit_spec(
            s@[i + 1],
        ).is_some(),
        r is Some ==> r == Some(hex_byte_spec(s@, i as int)),
{
    let hi = hex_digit(s.get_char(i));
    let lo = hex_digit(s.get_char(i + 1));
    match (hi, lo) {
        (Some(h), Some(l)) => Some(h * 16 + l),
        _ => None,
    }
}

/// Parses a color written as six hex digits `rrggbb`; the result is opaque.
pub fn parse_color(s: &str) -> (r: Option<Rgba>)
    ensures
        r == color_spec(s@),
{
    if s.unicode_len() != 6 {
        return None;
    }
    let r = hex_byte(s, 0);
    let g = hex_byte(s, 2);
    let b = hex_byte(s, 4);
    proof {
        if r is Some && g is Some && b is Some {
            assert forall|i: int| 0 <= i < 6 implies (#[trigger] hex_digit_spec(s@[i])).is_some() by {
                assert(i == 0 || i == 1 || i == 2 || i == 3 || i == 4 || i == 5);
            }
        }
    }
    match (r, g, b) {
        (Some(r), Some(g), Some(b)) => Some(Rgba { r, g, b, a: 255 }),
        _ => {
            proof {
                let i: int = if r is None { if hex_digit_spec(s@[0]).is_none() { 0 } else { 1 } }
                    else if g is None { if hex_digit_spec(s@[2]).is_none() { 2 } else { 3 } }
                    else { if hex_digit_spec(s@[4]).is_none() { 4 } else { 5 } };
                assert(hex_digit_spec(s@[i]).is_none());
            }
            None
        },
    }
}

} // verus!
