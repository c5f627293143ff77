use vstd::prelude::*;
use vstd::utf8::*;

use crate::text::{
    all_white_space, chars_of, first_line_len, is_white_space, law_trim_ignores_surrounding_white_space, lines,
    strip_cr, trim, trim_end, trim_start, trim_range,
};

verus! {

/// `b` is an ASCII hexadecimal digit, in either case.
pub open spec fn is_hex_digit(b: u8) -> bool {
    ||| 0x30 <= b <= 0x39
    ||| 0x41 <= b <= 0x46
    ||| 0x61 <= b <= 0x66
}

/// Value of the hexadecimal digit `b`.
pub open spec fn hex_digit_value(b: u8) -> int {
    if 0x30 <= b <= 0x39 {
        b - 0x30
    } else if 0x41 <= b <= 0x46 {
        b - 0x41 + 10
    } else {
        b - 0x61 + 10
    }
}

/// What `u8::from_str_radix` in base 16 gives for the two-byte text `b0 b1`:
/// an optional `+` followed by hexadecimal digits.
pub open spec fn radix16_pair(b0: u8, b1: u8) -> Option<u8> {
    if b0 == 0x2B && is_hex_digit(b1) {
        Some(hex_digit_value(b1) as u8)
    } else if is_hex_digit(b0) && is_hex_digit(b1) {
        Some((hex_digit_value(b0) * 16 + hex_digit_value(b1)) as u8)
    } else {
        None
    }
}

/// The colour that the bytes `b` of an already trimmed line spell: exactly
/// seven bytes, a `#`, then red, green and blue as two-byte base-16 numbers.
pub open spec fn parse_hex_bytes(b: Seq<u8>) -> Option<[u8; 3]> {
    if b.len() != 7 || b[0] != 0x23 {
        None
    } else {
        match (radix16_pair(b[1], b[2]), radix16_pair(b[3], b[4]), radix16_pair(b[5], b[6])) {
            (Some(r), Some(g), Some(bl)) => Some([r, g, bl]),
            _ => None,
        }
    }
}

/// The colour a palette line spells, once surrounding white space is removed.
pub open spec fn parse_hex_line(line: Seq<char>) -> Option<[u8; 3]> {
    parse_hex_bytes(encode_utf8(trim(line)))
}

/// Cutting the trimmed line into its three two-byte colour fields falls on
/// character boundaries wherever the line is long enough to be cut: seven
/// bytes that start with `#`.
pub open spec fn hex_line_splittable(line: Seq<char>) -> bool {
    let b = encode_utf8(trim(line));
    b.len() == 7 && b[0] == 0x23 ==> is_char_boundary(b, 3) && is_char_boundary(b, 5)
}

/// [`radix16_pair`] read off two characters; a character outside ASCII is
/// never a digit nor a sign.
pub open spec fn radix16_char_pair(c0: char, c1: char) -> Option<u8> {
    if (c0 as u32) < 128 && (c1 as u32) < 128 {
        radix16_pair(c0 as u8, c1 as u8)
    } else {
        None
    }
}

/// [`parse_hex_bytes`] read off characters in place of bytes.
pub open spec fn parse_hex_chars(t: Seq<char>) -> Option<[u8; 3]> {
    if t.len() != 7 || t[0] != '#' {
        None
    } else {
        match (
            radix16_char_pair(t[1], t[2]),
            radix16_char_pair(t[3], t[4]),
            radix16_char_pair(t[5], t[6]),
        ) {
            (Some(r), Some(g), Some(bl)) => Some([r, g, bl]),
            _ => None,
        }
    }
}

proof fn lemma_leading_bytes(s: u32)
    by (bit_vector)
    ensures
        s <= 0x7F ==> leading_byte_width_1(s) == s as u8,
        leading_byte_width_2(s) >= 0x80,
        leading_byte_width_3(s) >= 0x80,
        leading_byte_width_4(s) >= 0x80,
{
}

/// The first byte of a character's encoding: the character itself if it is
/// ASCII, a byte of at least 0x80 otherwise.
proof fn lemma_first_byte(c: char)
    ensures
        encode_scalar(c as u32).len() >= 1,
        (c as u32) < 128 ==> encode_scalar(c as u32)[0] == c as u8 && encode_scalar(
            c as u32,
        ).len() == 1,
        (c as u32) >= 128 ==> encode_scalar(c as u32)[0] >= 0x80,
{
    char_is_scalar(c);
    lemma_leading_bytes(c as u32);
}

/// Facts on the value of an ASCII character.
proof fn lemma_ascii_char(c: char)
    ensures
        (c as u32) < 128 ==> '\0' <= c <= '\u{7f}',
        (c as u32) < 128 && c as u8 == 0x23 ==> c == '#',
{
}

/// A character sequence with a character outside ASCII encodes to bytes of
/// which one is at least 0x80.
proof fn lemma_non_ascii_byte(t: Seq<char>, i: int) -> (j: int)
    requires
        0 <= i < t.len(),
        (t[i] as u32) >= 128,
    ensures
        0 <= j < encode_utf8(t).len(),
        encode_utf8(t)[j] >= 0x80,
    decreases i,
{
    let head = encode_scalar(t[0] as u32);
    let tail = encode_utf8(t.drop_first());
    assert(encode_utf8(t) == head + tail);
    lemma_first_byte(t[0]);
    if i == 0 {
        0
    } else {
        let j0 = lemma_non_ascii_byte(t.drop_first(), i - 1);
        head.len() + j0
    }
}

/// Reading the colour off the characters of a line gives what reading it off
/// the line's UTF-8 bytes gives.
proof fn lemma_parse_hex_chars_bytes(t: Seq<char>)
    ensures
        parse_hex_chars(t) == parse_hex_bytes(encode_utf8(t)),
{
    broadcast use is_ascii_chars_encode_utf8;

    let b = encode_utf8(t);
    if forall|k: int| 0 <= k < t.len() ==> (#[trigger] t[k] as u32) < 128 {
        assert forall|k: int| 0 <= k < t.len() implies '\0' <= #[trigger] t[k] <= '\u{7f}' by {
            assert((t[k] as u32) < 128);
            lemma_ascii_char(t[k]);
        }
        assert(is_ascii_chars(t));
        assert(t.len() == b.len());
        if t.len() == 7 {
            assert(t[0] as u8 == b[0]);
            assert((t[0] == '#') == (b[0] == 0x23));
            assert(t[1] as u8 == b[1]);
            assert(t[2] as u8 == b[2]);
            assert(t[3] as u8 == b[3]);
            assert(t[4] as u8 == b[4]);
            assert(t[5] as u8 == b[5]);
            assert(t[6] as u8 == b[6]);
        }
    } else {
        let i = choose|i: int| 0 <= i < t.len() && (#[trigger] t[i] as u32) >= 128;
        assert(parse_hex_chars(t) is None);
        if b.len() == 7 && b[0] == 0x23 {
            let head = encode_scalar(t[0] as u32);
            assert(b == head + encode_utf8(t.drop_first()));
            lemma_first_byte(t[0]);
            assert(b[0] == head[0]);
            assert((t[0] as u32) < 128);
            assert(head[0] == t[0] as u8);
            assert(t[0] as u8 == 0x23);
            lemma_ascii_char(t[0]);
            assert(t[0] == '#');
            assert(i >= 1);
            let j0 = lemma_non_ascii_byte(t.drop_first(), i - 1);
            let j = 1 + j0;
            assert(b[j] >= 0x80);
            assert(1 <= j < 7);
        }
    }
}

/// The colours of the lines of `ls` that spell one, in order; other lines
/// are skipped.
pub open spec fn palette_colors(ls: Seq<Seq<char>>) -> Seq<[u8; 3]>
    decreases ls.len(),
{
    if ls.len() == 0 {
        seq![]
    } else {
        match parse_hex_line(ls[0]) {
            Some(c) => seq![c] + palette_colors(ls.drop_first()),
            None => palette_colors(ls.drop_first()),
        }
    }
}

/// The hexadecimal digit for `v` (below 16), in upper or lower case.
pub open spec fn hex_digit_char(v: int, upper: bool) -> char {
    if v < 10 {
        (0x30 + v) as char
    } else if upper {
        (0x41 + v - 10) as char
    } else {
        (0x61 + v - 10) as char
    }
}

/// The line `#rrggbb` that writes colour `c` with two hexadecimal digits per
/// channel.
pub open spec fn hex_text(c: [u8; 3], upper: bool) -> Seq<char> {
    seq![
        '#',
        hex_digit_char(c[0] as int / 16, upper),
        hex_digit_char(c[0] as int % 16, upper),
        hex_digit_char(c[1] as int / 16, upper),
        hex_digit_char(c[1] as int % 16, upper),
        hex_digit_char(c[2] as int / 16, upper),
        hex_digit_char(c[2] as int % 16, upper),
    ]
}

proof fn lemma_hex_digit_char(v: int, upper: bool)
    requires
        0 <= v < 16,
    ensures
        (hex_digit_char(v, upper) as u32) < 128,
        is_hex_digit(hex_digit_char(v, upper) as u8),
        hex_digit_value(hex_digit_char(v, upper) as u8) == v,
        !is_white_space(hex_digit_char(v, upper)),
{
}

/// A colour written as `#rrggbb`, in either case, parses back to itself.
pub proof fn law_parse_hex_roundtrip(c: [u8; 3], upper: bool)
    ensures
        parse_hex_line(hex_text(c, upper)) == Some(c),
{
    let t = hex_text(c, upper);
    lemma_hex_digit_char(c[0] as int / 16, upper);
    lemma_hex_digit_char(c[0] as int % 16, upper);
    lemma_hex_digit_char(c[1] as int / 16, upper);
    lemma_hex_digit_char(c[1] as int % 16, upper);
    lemma_hex_digit_char(c[2] as int / 16, upper);
    lemma_hex_digit_char(c[2] as int % 16, upper);
    assert(!is_white_space(t[0]));
    assert(trim_start(t) == t);
    assert(!is_white_space(t.last()));
    assert(trim_end(t) == t);
    lemma_parse_hex_chars_bytes(t);
    assert(radix16_char_pair(t[1], t[2]) == Some(c[0]));
    assert(radix16_char_pair(t[3], t[4]) == Some(c[1]));
    assert(radix16_char_pair(t[5], t[6]) == Some(c[2]));
    assert(parse_hex_chars(t) == Some([c[0], c[1], c[2]]));
    assert([c[0], c[1], c[2]] == c);
}

/// A palette file listing the colours `cs`, one `#rrggbb` line each.
pub open spec fn palette_text(cs: Seq<[u8; 3]>, upper: bool) -> Seq<char>
    decreases cs.len(),
{
    if cs.len() == 0 {
        seq![]
    } else {
        hex_text(cs[0], upper) + seq!['\n'] + palette_text(cs.drop_first(), upper)
    }
}

proof fn lemma_first_line_len(p: Seq<char>, q: Seq<char>)
    requires
        forall|i: int| 0 <= i < p.len() ==> p[i] != '\n',
    ensures
        first_line_len(p + seq!['\n'] + q) == p.len(),
    decreases p.len(),
{
    if p.len() > 0 {
        assert((p + seq!['\n'] + q).drop_first() =~= p.drop_first() + seq!['\n'] + q);
        assert((p + seq!['\n'] + q)[0] == p[0]);
        lemma_first_line_len(p.drop_first(), q);
    } else {
        assert((p + seq!['\n'] + q)[0] == '\n');
    }
}

/// A palette file written from a list of colours reads back as that list.
pub proof fn law_palette_roundtrip(cs: Seq<[u8; 3]>, upper: bool)
    ensures
        palette_colors(lines(palette_text(cs, upper))) == cs,
    decreases cs.len(),
{
    if cs.len() > 0 {
        let h = hex_text(cs[0], upper);
        let rest = palette_text(cs.drop_first(), upper);
        let t = palette_text(cs, upper);
        assert(t == h + seq!['\n'] + rest);
        lemma_hex_digit_char(cs[0][0] as int / 16, upper);
        lemma_hex_digit_char(cs[0][0] as int % 16, upper);
        lemma_hex_digit_char(cs[0][1] as int / 16, upper);
        lemma_hex_digit_char(cs[0][1] as int % 16, upper);
        lemma_hex_digit_char(cs[0][2] as int / 16, upper);
        lemma_hex_digit_char(cs[0][2] as int % 16, upper);
        assert forall|i: int| 0 <= i < h.len() implies h[i] != '\n' by {
            assert(!is_white_space(h[i]));
        }
        lemma_first_line_len(h, rest);
        assert(t.take(7) =~= h);
        assert(t.skip(8) =~= rest);
        assert(h.last() != '\r') by {
            assert(!is_white_space(h.last()));
        }
        assert(strip_cr(h) == h);
        let ls = lines(t);
        assert(ls == seq![h] + lines(rest));
        assert(ls[0] == h);
        assert(ls.drop_first() =~= lines(rest));
        law_parse_hex_roundtrip(cs[0], upper);
        law_palette_roundtrip(cs.drop_first(), upper);
        assert(seq![cs[0]] + cs.drop_first() =~= cs);
    } else {
        assert(palette_text(cs, upper).len() == 0);
    }
}

/// A line spells a colour only if, trimmed, it is seven bytes starting with
/// `#` whose three two-byte fields are each two hexadecimal digits or `+` and
/// one digit; each channel is then the value of its field.
pub proof fn law_parse_hex_sound(line: Seq<char>, c: [u8; 3])
    requires
        parse_hex_line(line) == Some(c),
    ensures
        encode_utf8(trim(line)).len() == 7,
        encode_utf8(trim(line))[0] == 0x23,
        forall|k: int|
            0 <= k < 3 ==> {
                let b0 = #[trigger] encode_utf8(trim(line))[1 + 2 * k];
                let b1 = encode_utf8(trim(line))[2 + 2 * k];
                &&& 0x30 <= b1 <= 0x39 || 0x41 <= b1 <= 0x46 || 0x61 <= b1 <= 0x66
                &&& b0 == 0x2B || 0x30 <= b0 <= 0x39 || 0x41 <= b0 <= 0x46 || 0x61 <= b0 <= 0x66
                &&& b0 == 0x2B ==> c[k] == hex_digit_value(b1)
                &&& b0 != 0x2B ==> c[k] == 16 * hex_digit_value(b0) + hex_digit_value(b1)
            },
{
    let b = encode_utf8(trim(line));
    assert forall|k: int| 0 <= k < 3 implies {
        let b0 = #[trigger] b[1 + 2 * k];
        let b1 = b[2 + 2 * k];
        &&& 0x30 <= b1 <= 0x39 || 0x41 <= b1 <= 0x46 || 0x61 <= b1 <= 0x66
        &&& b0 == 0x2B || 0x30 <= b0 <= 0x39 || 0x41 <= b0 <= 0x46 || 0x61 <= b0 <= 0x66
        &&& b0 == 0x2B ==> c[k] == hex_digit_value(b1)
        &&& b0 != 0x2B ==> c[k] == 16 * hex_digit_value(b0) + hex_digit_value(b1)
    } by {
        if k == 0 {
        } else if k == 1 {
        } else {
        }
    }
}

/// A digit's value: `0`–`9` count from zero, `a`–`f` and `A`–`F` from ten.
pub proof fn law_hex_digit_value(b: u8)
    ensures
        0x30 <= b <= 0x39 ==> is_hex_digit(b) && hex_digit_value(b) == b - 0x30,
        0x41 <= b <= 0x46 ==> is_hex_digit(b) && hex_digit_value(b) == b - 0x41 + 10,
        0x61 <= b <= 0x66 ==> is_hex_digit(b) && hex_digit_value(b) == b - 0x61 + 10,
        !(0x30 <= b <= 0x39 || 0x41 <= b <= 0x46 || 0x61 <= b <= 0x66) ==> !is_hex_digit(b),
{
}

/// A palette holds at most one colour per line, none from lines that spell
/// none, and the colour of every line when each line spells one.
pub proof fn law_palette_colors_per_line(ls: Seq<Seq<char>>)
    ensures
        palette_colors(ls).len() <= ls.len(),
        (forall|i: int| 0 <= i < ls.len() ==> parse_hex_line(#[trigger] ls[i]) is None)
            ==> palette_colors(ls).len() == 0,
        (forall|i: int| 0 <= i < ls.len() ==> parse_hex_line(#[trigger] ls[i]) is Some) ==> (
        palette_colors(ls).len() == ls.len() && forall|i: int|
            0 <= i < ls.len() ==> Some(#[trigger] palette_colors(ls)[i]) == parse_hex_line(ls[i])),
    decreases ls.len(),
{
    if ls.len() > 0 {
        let rest = ls.drop_first();
        law_palette_colors_per_line(rest);
        assert forall|i: int| 0 <= i < rest.len() implies rest[i] == ls[i + 1] by {}
        if forall|i: int| 0 <= i < ls.len() ==> parse_hex_line(#[trigger] ls[i]) is Some {
            assert(forall|i: int| 0 <= i < rest.len() ==> parse_hex_line(#[trigger] rest[i]) is Some) by {
                assert forall|i: int| 0 <= i < rest.len() implies parse_hex_line(#[trigger] rest[i]) is Some by {
                    assert(rest[i] == ls[i + 1]);
                }
            }
            assert(parse_hex_line(ls[0]) is Some);
            let c = parse_hex_line(ls[0])->0;
            assert forall|i: int| 0 <= i < ls.len() implies Some(#[trigger] palette_colors(ls)[i]) == parse_hex_line(ls[i]) by {
                if i > 0 {
                    assert(rest[i - 1] == ls[i]);
                    assert(palette_colors(ls)[i] == palette_colors(rest)[i - 1]);
                }
            }
        }
        if forall|i: int| 0 <= i < ls.len() ==> parse_hex_line(#[trigger] ls[i]) is None {
            assert(parse_hex_line(ls[0]) is None);
            assert forall|i: int| 0 <= i < rest.len() implies parse_hex_line(#[trigger] rest[i]) is None by {
                assert(rest[i] == ls[i + 1]);
            }
        }
    }
}

/// White space around a palette line does not change the colour it spells.
pub proof fn law_parse_ignores_surrounding_white_space(w1: Seq<char>, t: Seq<char>, w2: Seq<char>)
    requires
        all_white_space(w1),
        all_white_space(w2),
    ensures
        parse_hex_line(w1 + t + w2) == parse_hex_line(t),
{
    law_trim_ignores_surrounding_white_space(w1, t, w2);
}

/// The value of the hexadecimal digit `b`, if it is one.
fn hex_digit(b: u8) -> (v: Option<u8>)
    ensures
        is_hex_digit(b) ==> v == Some(hex_digit_value(b) as u8),
        !is_hex_digit(b) ==> v is None,
{
    if 0x30 <= b && b <= 0x39 {
        Some(b - 0x30)
    } else if 0x41 <= b && b <= 0x46 {
        Some(b - 0x41 + 10)
    } else if 0x61 <= b && b <= 0x66 {
        Some(b - 0x61 + 10)
    } else {
        None
    }
}

/// The base-16 number that the two characters `c0 c1` spell, as
/// `u8::from_str_radix` reads it.
fn radix16_chars(c0: char, c1: char) -> (v: Option<u8>)
    ensures
        v == radix16_char_pair(c0, c1),
{
    let u0 = c0 as u32;
    let u1 = c1 as u32;
    if u0 >= 128 || u1 >= 128 {
        return None;
    }
    let b0 = u0 as u8;
    let b1 = u1 as u8;
    assert(b0 == c0 as u8 && b1 == c1 as u8);
    match hex_digit(b1) {
        None => None,
        Some(low) => {
            if b0 == 0x2B {
                Some(low)
            } else {
                match hex_digit(b0) {
                    None => None,
                    Some(high) => Some(high * 16 + low),
                }
            }
        },
    }
}

/// The colour that the line `cs[start..end]` spells, if any.
fn parse_hex_range(cs: &Vec<char>, start: usize, end: usize) -> (c: Option<[u8; 3]>)
    requires
        start <= end <= cs@.len(),
    ensures
        c == parse_hex_line(cs@.subrange(start as int, end as int)),
{
    let (lo, hi) = trim_range(cs, start, end);
    let ghost t = cs@.subrange(lo as int, hi as int);
    proof {
        lemma_parse_hex_chars_bytes(t);
    }
    if hi - lo != 7 || cs[lo] as u32 != 0x23 {
        proof {
            lemma_ascii_char(cs@[lo as int]);
        }
        return None;
    }
    proof {
        lemma_ascii_char(t[0]);
    }
    let r = radix16_chars(cs[lo + 1], cs[lo + 2]);
    let g = radix16_chars(cs[lo + 3], cs[lo + 4]);
    let b = radix16_chars(cs[lo + 5], cs[lo + 6]);
    match (r, g, b) {
        (Some(r), Some(g), Some(b)) => Some([r, g, b]),
        _ => None,
    }
}

/// Parses one palette line of the form `#rrggbb`, surrounding white space
/// allowed: the colour, or `None` where the line spells none.
pub fn parse_hex_str(s: &str) -> (c: Option<[u8; 3]>)
    requires
        hex_line_splittable(s@),
    ensures
        c == parse_hex_line(s@),
{
    let cs = chars_of(s);
    assert(cs@.subrange(0, cs@.len() as int) == s@);
    parse_hex_range(&cs, 0, cs.len())
}

/// A palette: its colours as 8-bit red, green and blue.
pub struct Palette(pub Vec<[u8; 3]>);

impl Palette {
    /// The palette that a palette file's text lists: one colour for each
    /// line that spells one, in the order of the lines.
    pub fn parse(content: &str) -> (p: Palette)
        requires
            forall|i: int|
                0 <= i < lines(content@).len() ==> hex_line_splittable(
                    #[trigger] lines(content@)[i],
                ),
        ensures
            p.0@ == palette_colors(lines(content@)),
    {
        let cs = chars_of(content);
        let n = cs.len();
        let mut colors: Vec<[u8; 3]> = Vec::new();
        let mut pos: usize = 0;
        assert(cs@.skip(0) =~= cs@);
        assert(colors@ + palette_colors(lines(cs@)) =~= palette_colors(lines(cs@)));
        while pos < n
            invariant
                pos <= n == cs@.len(),
                cs@ == content@,
                palette_colors(lines(cs@)) == colors@ + palette_colors(lines(cs@.skip(pos as int))),
            decreases n - pos,
        {
            let mut q = pos;
            while q < n && cs[q] as u32 != 10
                invariant
                    pos <= q <= n == cs@.len(),
                    first_line_len(cs@.skip(pos as int)) == (q - pos) + first_line_len(
                        cs@.skip(q as int),
                    ),
                decreases n - q,
            {
                assert(cs@.skip(q as int).drop_first() =~= cs@.skip(q + 1));
                q = q + 1;
            }
            let ghost t = cs@.skip(pos as int);
            let ghost k = (q - pos) as int;
            proof {
                if q < n {
                    lemma_ascii_char(cs@[q as int]);
                }
            }
            assert(first_line_len(t) == k);
            let mut end = q;
            if q < n && q > pos && cs[q - 1] as u32 == 13 {
                proof {
                    lemma_ascii_char(cs@[q - 1]);
                }
                end = q - 1;
            }
            let c = parse_hex_range(&cs, pos, end);
            let ghost old_colors = colors@;
            if let Some(color) = c {
                colors.push(color);
            }
            proof {
                let ls = lines(t);
                let line = cs@.subrange(pos as int, end as int);
                if q < n {
                    assert(strip_cr(t.take(k)) =~= line);
                    assert(t.skip(k + 1) =~= cs@.skip(q + 1));
                    assert(ls == seq![line] + lines(cs@.skip(q + 1)));
                } else {
                    assert(t =~= line);
                    assert(cs@.skip(n as int) =~= Seq::<char>::empty());
                    assert(ls == seq![line]);
                    assert(lines(cs@.skip(n as int)) == Seq::<Seq<char>>::empty());
                }
                assert(ls[0] == line);
                assert(ls.drop_first() =~= lines(cs@.skip(if q < n { q + 1 } else { n as int })));
                assert(colors@ + palette_colors(ls.drop_first()) =~= old_colors + palette_colors(ls));
            }
            pos = if q < n { q + 1 } else { n };
        }
        assert(cs@.skip(n as int) =~= Seq::<char>::empty());
        assert(colors@ =~= palette_colors(lines(cs@)));
        Palette(colors)
    }
}

} // verus!
