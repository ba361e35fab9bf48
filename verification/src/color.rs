//! Hex colors: parsing, formatting and channel-wise interpolation.

use vstd::prelude::*;

verus! {

/// Whether `c` is one of `0-9`, `a-f`, `A-F`.
pub open spec fn is_hex_digit(c: char) -> bool {
    ('0' <= c && c <= '9') || ('a' <= c && c <= 'f') || ('A' <= c && c <= 'F')
}

/// The value, 0 to 15, of a hex digit.
pub open spec fn hex_value(c: char) -> int {
    if '0' <= c && c <= '9' {
        c as u32 - '0' as u32
    } else if 'a' <= c && c <= 'f' {
        c as u32 - 'a' as u32 + 10
    } else {
        c as u32 - 'A' as u32 + 10
    }
}

/// The lower-case hex digit of a value from 0 to 15.
pub open spec fn hex_char(d: int) -> char {
    if d < 10 {
        ('0' as u32 + d) as u8 as char
    } else {
        ('a' as u32 + d - 10) as u8 as char
    }
}

/// `c` with the letters `A-F` folded to `a-f`.
pub open spec fn lower_hex(c: char) -> char {
    if 'A' <= c && c <= 'F' {
        (c as u32 + 32) as u8 as char
    } else {
        c
    }
}

/// Whether every character of `s` is a hex digit.
pub open spec fn all_hex(s: Seq<char>) -> bool {
    forall|i: int| 0 <= i < s.len() ==> is_hex_digit(#[trigger] s[i])
}

/// The byte written by the two hex digits `hi` and `lo`.
pub open spec fn hex_byte(hi: char, lo: char) -> u8 {
    (16 * hex_value(hi) + hex_value(lo)) as u8
}

/// The color that `s` denotes: three hex digits, each standing for a doubled
/// digit, or six hex digits, two per channel. Anything else denotes no color.
pub open spec fn parse_color_spec(s: Seq<char>) -> Option<(u8, u8, u8)> {
    if s.len() == 3 && all_hex(s) {
        Some((hex_byte(s[0], s[0]), hex_byte(s[1], s[1]), hex_byte(s[2], s[2])))
    } else if s.len() == 6 && all_hex(s) {
        Some((hex_byte(s[0], s[1]), hex_byte(s[2], s[3]), hex_byte(s[4], s[5])))
    } else {
        None
    }
}

/// The text `#rrggbb` of a color, in lower-case hex.
pub open spec fn color_text(c: (u8, u8, u8)) -> Seq<char> {
    seq![
        '#',
        hex_char(c.0 as int / 16),
        hex_char(c.0 as int % 16),
        hex_char(c.1 as int / 16),
        hex_char(c.1 as int % 16),
        hex_char(c.2 as int / 16),
        hex_char(c.2 as int % 16),
    ]
}

/// The point `t / 255` of the way from `a` to `b`, rounded to the nearest
/// integer.
pub open spec fn mix_spec(a: u8, b: u8, t: u8) -> int {
    (a * (255 - t) + b * t + 127) / 255
}

/// A color moved onto the scale between `shade` and `tint`: each channel is
/// interpolated between the same channel of the two ends, and the channel's
/// own value is the fraction.
pub open spec fn recolor_spec(shade: (u8, u8, u8), tint: (u8, u8, u8), c: (u8, u8, u8)) -> (
    u8,
    u8,
    u8,
) {
    (
        mix_spec(shade.0, tint.0, c.0) as u8,
        mix_spec(shade.1, tint.1, c.1) as u8,
        mix_spec(shade.2, tint.2, c.2) as u8,
    )
}

/// The value of the hex digit `c`, if it is one.
pub fn hex_digit(c: char) -> (r: Option<u8>)
    ensures
        r is Some <==> is_hex_digit(c),
        r matches Some(v) ==> v == hex_value(c),
{
    if '0' <= c && c <= '9' {
        Some((c as u32 - '0' as u32) as u8)
    } else if 'a' <= c && c <= 'f' {
        Some((c as u32 - 'a' as u32 + 10) as u8)
    } else if 'A' <= c && c <= 'F' {
        Some((c as u32 - 'A' as u32 + 10) as u8)
    } else {
        None
    }
}

/// The characters of `s`, in order.
pub fn chars_of(s: &str) -> (v: Vec<char>)
    ensures
        v@ == s@,
{
    let mut v: Vec<char> = Vec::new();
    for c in it: s.chars()
        invariant
            v@ == it.seq().take(it.index() as int),
            it.seq() == s@,
    {
        v.push(c);
    }
    v
}

/// Reads the `n` hex digits of `chars` that start at `from`; `n` is 3 or 6.
pub fn parse_color_at(chars: &Vec<char>, from: usize, n: usize) -> (r: Option<(u8, u8, u8)>)
    requires
        from + n <= chars.len(),
    ensures
        r == parse_color_spec(chars@.subrange(from as int, from + n)),
{
    let ghost s = chars@.subrange(from as int, from + n);
    if n != 3 && n != 6 {
        return None;
    }
    let mut digits: Vec<u8> = Vec::new();
    let mut i: usize = 0;
    while i < n
        invariant
            i <= n,
            from + n <= chars.len(),
            s == chars@.subrange(from as int, from + n),
            digits.len() == i,
            forall|k: int| 0 <= k < i ==> is_hex_digit(#[trigger] s[k]) && digits[k] == hex_value(s[k]),
        decreases n - i,
    {
        match hex_digit(chars[from + i]) {
            Some(v) => {
                digits.push(v);
            },
            None => {
                assert(!is_hex_digit(s[i as int]));
                return None;
            },
        }
        i += 1;
    }
    if n == 3 {
        Some((digits[0] * 17, digits[1] * 17, digits[2] * 17))
    } else {
        Some((digits[0] * 16 + digits[1], digits[2] * 16 + digits[3], digits[4] * 16 + digits[5]))
    }
}

/// Parses a color written as three or six hex digits, without a leading `#`.
pub fn parse_color(color: &str) -> (r: Option<(u8, u8, u8)>)
    ensures
        r == parse_color_spec(color@),
{
    let chars = chars_of(color);
    let n = chars.len();
    if n == 3 || n == 6 {
        assert(chars@.subrange(0, n as int) == color@);
        parse_color_at(&chars, 0, n)
    } else {
        None
    }
}

/// Interpolates from `a` to `b` at the fraction `t / 255`.
pub fn mix(a: u8, b: u8, t: u8) -> (r: u8)
    ensures
        r == mix_spec(a, b, t),
{
    assert(0 <= a * (255 - t) && 0 <= b * t && a * (255 - t) + b * t <= 255 * 255)
        by (nonlinear_arith);
    let low: u32 = a as u32 * (255 - t as u32);
    let high: u32 = b as u32 * t as u32;
    ((low + high + 127) / 255) as u8
}

/// The lower-case hex digit of `d`.
fn hex_digit_text(d: u8) -> (r: &'static str)
    requires
        d < 16,
    ensures
        r@ == seq![hex_char(d as int)],
{
    let digits = "0123456789abcdef";
    proof {
        reveal_strlit("0123456789abcdef");
    }
    let r = digits.substring_ascii(d as usize, d as usize + 1);
    assert(r@ =~= seq![hex_char(d as int)]);
    r
}

/// Writes a color as `#rrggbb`, in lower-case hex.
pub fn format_color(r: u8, g: u8, b: u8) -> (s: String)
    ensures
        s@ == color_text((r, g, b)),
{
    let mut s = String::from_str("#");
    proof {
        reveal_strlit("#");
    }
    s.append(hex_digit_text(r / 16));
    s.append(hex_digit_text(r % 16));
    s.append(hex_digit_text(g / 16));
    s.append(hex_digit_text(g % 16));
    s.append(hex_digit_text(b / 16));
    s.append(hex_digit_text(b % 16));
    assert(s@ =~= color_text((r, g, b)));
    s
}

/// The replacement text for the color `(r, g, b)` under a theme whose ends
/// are `shade` and `tint`.
pub fn recolor(shade: (u8, u8, u8), tint: (u8, u8, u8), r: u8, g: u8, b: u8) -> (s: String)
    ensures
        s@ == color_text(recolor_spec(shade, tint, (r, g, b))),
{
    format_color(mix(shade.0, tint.0, r), mix(shade.1, tint.1, g), mix(shade.2, tint.2, b))
}

/// At fraction 0 the interpolation gives its first end, at fraction 255 its
/// second.
pub proof fn lemma_mix_endpoints(a: u8, b: u8)
    ensures
        mix_spec(a, b, 0) == a,
        mix_spec(a, b, 255) == b,
{
    assert(a * (255 - 0) + b * 0 == 255 * a) by (nonlinear_arith);
    assert(a * (255 - 255) + b * 255 == 255 * b) by (nonlinear_arith);
}

/// The interpolation is the integer nearest to the exact point, and lies
/// between its two ends.
pub proof fn lemma_mix_nearest(a: u8, b: u8, t: u8)
    ensures
        -127 <= 255 * mix_spec(a, b, t) - (a * (255 - t) + b * t) <= 127,
        a <= b ==> a <= mix_spec(a, b, t) <= b,
        b <= a ==> b <= mix_spec(a, b, t) <= a,
{
    let n = a * (255 - t) + b * t;
    assert(a <= b ==> 255 * a <= n <= 255 * b) by (nonlinear_arith)
        requires
            n == a * (255 - t) + b * t,
            0 <= t <= 255,
    ;
    assert(b <= a ==> 255 * b <= n <= 255 * a) by (nonlinear_arith)
        requires
            n == a * (255 - t) + b * t,
            0 <= t <= 255,
    ;
}

/// With the ends in order, the interpolation never falls as the fraction
/// grows.
pub proof fn lemma_mix_monotonic(a: u8, b: u8, t1: u8, t2: u8)
    requires
        a <= b,
        t1 <= t2,
    ensures
        mix_spec(a, b, t1) <= mix_spec(a, b, t2),
{
    assert(a * (255 - t1) + b * t1 <= a * (255 - t2) + b * t2) by (nonlinear_arith)
        requires
            a <= b,
            t1 <= t2,
    ;
}

/// Parsing six hex digits and writing the color back gives the same digits,
/// in lower case, behind a `#`.
pub proof fn lemma_parse_then_format(s: Seq<char>)
    requires
        s.len() == 6,
        all_hex(s),
    ensures
        parse_color_spec(s) is Some,
        color_text(parse_color_spec(s)->0) == seq!['#'] + s.map_values(|c: char| lower_hex(c)),
{
    assert forall|i: int| 0 <= i < 6 implies 0 <= hex_value(#[trigger] s[i]) < 16 && hex_char(
        hex_value(s[i]),
    ) == lower_hex(s[i]) by {
        assert(is_hex_digit(s[i]));
    }
    let c = parse_color_spec(s)->0;
    assert(color_text(c) =~= seq!['#'] + s.map_values(|c: char| lower_hex(c)));
}

/// Writing a color and parsing the six digits behind the `#` gives the color
/// back.
pub proof fn lemma_format_then_parse(c: (u8, u8, u8))
    ensures
        parse_color_spec(color_text(c).subrange(1, 7)) == Some(c),
{
    let s = color_text(c).subrange(1, 7);
    assert forall|d: int| 0 <= d < 16 implies is_hex_digit(#[trigger] hex_char(d)) && hex_value(
        hex_char(d),
    ) == d by {}
    assert(all_hex(s));
}

} // verus!
