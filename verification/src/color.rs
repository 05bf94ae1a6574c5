//! Annotation colours: a stored `#rrggbb` hex colour becomes the RGBA an annotation is drawn
//! in, at the standard highlight opacity.

use vstd::prelude::*;

use crate::text::chars_of;

verus! {

/// Amber at about 55% opacity: the highlight tint used when an annotation has no colour, or
/// one that does not parse.
pub const HIGHLIGHT_RGBA: [u8; 4] = [246, 195, 68, 140];

/// `s` without its leading `#` characters (`trim_start_matches('#')`).
pub open spec fn strip_hashes(s: Seq<char>) -> Seq<char>
    decreases s.len(),
{
    if s.len() > 0 && s[0] == '#' {
        strip_hashes(s.drop_first())
    } else {
        s
    }
}

/// The value of a hexadecimal digit (either case).
pub open spec fn hex_value(c: char) -> Option<u8> {
    if '0' <= c && c <= '9' {
        Some((c as u32 - '0' as u32) as u8)
    } else if 'a' <= c && c <= 'f' {
        Some((c as u32 - 'a' as u32 + 10) as u8)
    } else if 'A' <= c && c <= 'F' {
        Some((c as u32 - 'A' as u32 + 10) as u8)
    } else {
        None
    }
}

/// `u8::from_str_radix` on the two characters `a`, `b` in base 16: two hex digits, or `+`
/// and one hex digit.
pub open spec fn parse_hex_byte(a: char, b: char) -> Option<u8> {
    if a == '+' {
        hex_value(b)
    } else {
        match (hex_value(a), hex_value(b)) {
            (Some(x), Some(y)) => Some((x * 16 + y) as u8),
            _ => None,
        }
    }
}

/// Whether every character of `s` is ASCII.
pub open spec fn all_ascii(s: Seq<char>) -> bool {
    forall|i: int| 0 <= i < s.len() ==> (#[trigger] s[i] as u32) < 128
}

/// The RGBA a stored colour is drawn in: its three hex bytes at the highlight opacity when,
/// after any leading `#`s, it is exactly six characters making three valid base-16 bytes;
/// [`HIGHLIGHT_RGBA`] otherwise (and when there is no colour at all).
pub open spec fn rgba_spec(hex: Option<Seq<char>>) -> Seq<u8> {
    let default = seq![246u8, 195u8, 68u8, 140u8];
    match hex {
        None => default,
        Some(s) => {
            let h = strip_hashes(s);
            if h.len() == 6 && all_ascii(h) {
                match (parse_hex_byte(h[0], h[1]), parse_hex_byte(h[2], h[3]), parse_hex_byte(h[4], h[5])) {
                    (Some(r), Some(g), Some(b)) => seq![r, g, b, 140u8],
                    _ => default,
                }
            } else {
                default
            }
        },
    }
}

fn hex_value_of(c: char) -> (v: Option<u8>)
    ensures
        v == hex_value(c),
{
    if '0' <= c && c <= '9' {
        Some((c as u32 - '0' as u32) as u8)
    } else if 'a' <= c && c <= 'f' {
        Some((c as u32 - 'a' as u32 + 10) as u8)
    } else if 'A' <= c && c <= 'F' {
        Some((c as u32 - 'A' as u32 + 10) as u8)
    } else {
        None
    }
}

fn parse_hex_byte_of(a: char, b: char) -> (v: Option<u8>)
    ensures
        v == parse_hex_byte(a, b),
{
    if a == '+' {
        hex_value_of(b)
    } else {
        match (hex_value_of(a), hex_value_of(b)) {
            (Some(x), Some(y)) => Some(x * 16 + y),
            _ => None,
        }
    }
}

/// The characters of `s` after its leading `#`s.
fn strip_hashes_of(s: &str) -> (h: Vec<char>)
    ensures
        h@ == strip_hashes(s@),
{
    let c = chars_of(s);
    let mut i: usize = 0;
    proof {
        assert(c@.skip(0) =~= c@);
    }
    while i < c.len() && c[i] == '#'
        invariant
            c@ == s@,
            i <= c@.len(),
            strip_hashes(s@) == strip_hashes(c@.skip(i as int)),
        decreases c.len() - i,
    {
        proof {
            assert(c@.skip(i as int).drop_first() =~= c@.skip(i as int + 1));
        }
        i = i + 1;
    }
    let mut h: Vec<char> = Vec::new();
    let mut j: usize = i;
    while j < c.len()
        invariant
            i <= j <= c@.len(),
            h@ == c@.subrange(i as int, j as int),
        decreases c.len() - j,
    {
        proof {
            assert(c@.subrange(i as int, j + 1) =~= c@.subrange(i as int, j as int).push(c@[j as int]));
        }
        h.push(c[j]);
        j = j + 1;
    }
    proof {
        assert(c@.subrange(i as int, j as int) =~= c@.skip(i as int));
        if i < c.len() {
            assert(c@.skip(i as int)[0] == c@[i as int]);
        }
    }
    h
}

/// The RGBA an annotation's stored colour is drawn in (see [`rgba_spec`]).
#[verifier::loop_isolation(false)]
pub fn annotation_rgba(hex: Option<&str>) -> (rgba: [u8; 4])
    ensures
        rgba@ == rgba_spec(match hex { Some(s) => Some(s@), None => None }),
{
    let default: [u8; 4] = [246, 195, 68, 140];
    proof {
        assert(default@ =~= seq![246u8, 195u8, 68u8, 140u8]);
    }
    match hex {
        None => default,
        Some(s) => {
            let h = strip_hashes_of(s);
            if h.len() != 6 {
                return default;
            }
            let mut i: usize = 0;
            while i < 6
                invariant
                    default@ == seq![246u8, 195u8, 68u8, 140u8],
                    h@ == strip_hashes(s@),
                    h@.len() == 6,
                    i <= 6,
                    forall|m: int| 0 <= m < i ==> (#[trigger] h@[m] as u32) < 128,
                decreases 6 - i,
            {
                if (h[i] as u32) >= 128 {
                    proof {
                        assert(!all_ascii(h@));
                    }
                    return default;
                }
                i = i + 1;
            }
            let r = parse_hex_byte_of(h[0], h[1]);
            let g = parse_hex_byte_of(h[2], h[3]);
            let b = parse_hex_byte_of(h[4], h[5]);
            match (r, g, b) {
                (Some(r), Some(g), Some(b)) => {
                    let out: [u8; 4] = [r, g, b, 140];
                    proof {
                        assert(out@ =~= seq![r, g, b, 140u8]);
                    }
                    out
                },
                _ => default,
            }
        },
    }
}

} // verus!
