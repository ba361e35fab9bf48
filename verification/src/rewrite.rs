//! Rewriting the color tokens of a text: a `#` followed by six hex digits,
//! or by three where six do not follow.

use crate::color::{
    all_hex, chars_of, color_text, hex_digit, is_hex_digit, parse_color_at, parse_color_spec,
    recolor, recolor_spec,
};
use vstd::prelude::*;

verus! {

/// One color token of a text.
#[derive(Clone, Copy, Debug, PartialEq, Eq, Structural)]
pub struct ColorToken {
    /// Index of the token's `#`, counted in characters.
    pub start: usize,
    /// Number of hex digits behind the `#`: 3 or 6.
    pub digits: usize,
    pub red: u8,
    pub green: u8,
    pub blue: u8,
}

impl ColorToken {
    /// Index of the first character behind the token.
    pub open spec fn end(self) -> int {
        self.start + 1 + self.digits
    }
}

/// Whether the `n` characters of `s` from `from` on exist and are hex digits.
pub open spec fn hex_run(s: Seq<char>, from: int, n: int) -> bool {
    0 <= from && from + n <= s.len() && forall|k: int|
        from <= k < from + n ==> is_hex_digit(#[trigger] s[k])
}

/// The number of hex digits of the token whose `#` is at `i`: 6 where six hex
/// digits follow the `#`, 3 where only three do, and 0 where no token starts
/// at `i`.
pub open spec fn token_digits(s: Seq<char>, i: int) -> int {
    if 0 <= i < s.len() && s[i] == '#' && hex_run(s, i + 1, 3) {
        if hex_run(s, i + 4, 3) {
            6
        } else {
            3
        }
    } else {
        0
    }
}

/// Where the tokens of `s` start that a scan from `from` finds: the scan
/// takes the first token it meets, goes on behind it, and never looks inside
/// a token that it took.
pub open spec fn token_starts(s: Seq<char>, from: int) -> Seq<int>
    decreases s.len() - from,
{
    if from < 0 || from >= s.len() {
        Seq::empty()
    } else if token_digits(s, from) > 0 {
        seq![from] + token_starts(s, from + 1 + token_digits(s, from))
    } else {
        token_starts(s, from + 1)
    }
}

/// The color that the digits of the token at `i` denote.
pub open spec fn token_color(s: Seq<char>, i: int) -> (u8, u8, u8) {
    match parse_color_spec(s.subrange(i + 1, i + 1 + token_digits(s, i))) {
        Some(color) => color,
        None => (0, 0, 0),
    }
}

/// The token of `s` whose `#` is at `i`.
pub open spec fn token_at(s: Seq<char>, i: int) -> ColorToken {
    let color = token_color(s, i);
    ColorToken {
        start: i as usize,
        digits: token_digits(s, i) as usize,
        red: color.0,
        green: color.1,
        blue: color.2,
    }
}

/// The color tokens of `s`, from left to right.
pub open spec fn color_tokens(s: Seq<char>) -> Seq<ColorToken> {
    token_starts(s, 0).map_values(|i: int| token_at(s, i))
}

/// Whether `tokens` lie inside a text of `len` characters, one behind the
/// other.
pub open spec fn tokens_in_order(tokens: Seq<ColorToken>, len: int) -> bool {
    &&& forall|k: int| 0 <= k < tokens.len() ==> (#[trigger] tokens[k]).end() <= len
    &&& forall|k: int|
        0 <= k && k + 1 < tokens.len() ==> (#[trigger] tokens[k]).end() <= tokens[k + 1].start
}

/// The text made of `s` from `pos` on, with each of `tokens[k..]` replaced by
/// its entry in `replacements`.
pub open spec fn spliced(
    s: Seq<char>,
    tokens: Seq<ColorToken>,
    replacements: Seq<Seq<char>>,
    k: int,
    pos: int,
) -> Seq<char>
    decreases tokens.len() - k,
{
    if k < 0 || k >= tokens.len() {
        s.subrange(pos, s.len() as int)
    } else {
        s.subrange(pos, tokens[k].start as int) + replacements[k] + spliced(
            s,
            tokens,
            replacements,
            k + 1,
            tokens[k].end(),
        )
    }
}

/// The texts of a sequence of strings.
pub open spec fn texts(strings: Seq<String>) -> Seq<Seq<char>> {
    strings.map_values(|r: String| r@)
}

/// Whether `replacements[k]` is what `modifier` may return for the color of
/// `tokens[k]`, for every `k`.
pub open spec fn answers<F: Fn(u8, u8, u8) -> String>(
    modifier: &F,
    tokens: Seq<ColorToken>,
    replacements: Seq<String>,
) -> bool {
    &&& replacements.len() == tokens.len()
    &&& forall|k: int|
        0 <= k < tokens.len() ==> call_ensures(
            modifier,
            (tokens[k].red, tokens[k].green, tokens[k].blue),
            #[trigger] replacements[k],
        )
}

/// `s` with every color token moved onto the scale between `shade` and
/// `tint`.
pub open spec fn recolored(s: Seq<char>, shade: (u8, u8, u8), tint: (u8, u8, u8)) -> Seq<char> {
    let tokens = color_tokens(s);
    spliced(
        s,
        tokens,
        Seq::new(
            tokens.len(),
            |k: int|
                color_text(recolor_spec(shade, tint, (tokens[k].red, tokens[k].green, tokens[k].blue))),
        ),
        0,
        0,
    )
}

/// The tokens that a scan from `from` finds start at or behind `from`, each
/// at a `#` with its hex digits inside the text, and none begins before the
/// one ahead of it has ended.
pub proof fn lemma_token_starts(s: Seq<char>, from: int)
    requires
        0 <= from,
    ensures
        forall|k: int|
            0 <= k < token_starts(s, from).len() ==> {
                let i = #[trigger] token_starts(s, from)[k];
                from <= i && token_digits(s, i) > 0 && i + 1 + token_digits(s, i) <= s.len()
            },
        forall|k: int|
            0 <= k && k + 1 < token_starts(s, from).len() ==> {
                let i = #[trigger] token_starts(s, from)[k];
                i + 1 + token_digits(s, i) <= token_starts(s, from)[k + 1]
            },
    decreases s.len() - from,
{
    if from >= s.len() {
    } else if token_digits(s, from) > 0 {
        let next = from + 1 + token_digits(s, from);
        lemma_token_starts(s, next);
        let rest = token_starts(s, next);
        let all = token_starts(s, from);
        assert(all == seq![from] + rest);
        assert forall|k: int| 0 <= k < all.len() implies {
            let i = #[trigger] all[k];
            from <= i && token_digits(s, i) > 0 && i + 1 + token_digits(s, i) <= s.len()
        } by {
            if k > 0 {
                assert(all[k] == rest[k - 1]);
            }
        }
        assert forall|k: int| 0 <= k && k + 1 < all.len() implies {
            let i = #[trigger] all[k];
            i + 1 + token_digits(s, i) <= all[k + 1]
        } by {
            assert(all[k + 1] == rest[k]);
            if k > 0 {
                assert(all[k] == rest[k - 1]);
            }
        }
    } else {
        lemma_token_starts(s, from + 1);
    }
}

/// The color tokens of a text lie inside it, one behind the other, and each
/// carries the color that its digits denote.
pub proof fn lemma_color_tokens(s: Seq<char>)
    requires
        s.len() <= usize::MAX,
    ensures
        tokens_in_order(color_tokens(s), s.len() as int),
        forall|k: int|
            0 <= k < color_tokens(s).len() ==> {
                let t = #[trigger] color_tokens(s)[k];
                &&& s[t.start as int] == '#'
                &&& t.digits == token_digits(s, t.start as int)
                &&& t.digits == 3 || t.digits == 6
                &&& parse_color_spec(s.subrange(t.start + 1, t.end())) == Some(
                    (t.red, t.green, t.blue),
                )
            },
{
    lemma_token_starts(s, 0);
    let starts = token_starts(s, 0);
    let tokens = color_tokens(s);
    assert forall|k: int| 0 <= k < tokens.len() implies {
        let t = #[trigger] tokens[k];
        &&& t.start == starts[k]
        &&& s[t.start as int] == '#'
        &&& t.digits == token_digits(s, t.start as int)
        &&& t.digits == 3 || t.digits == 6
        &&& parse_color_spec(s.subrange(t.start + 1, t.end())) == Some((t.red, t.green, t.blue))
    } by {
        let i = starts[k];
        assert(tokens[k] == token_at(s, i));
        let d = token_digits(s, i);
        let digits = s.subrange(i + 1, i + 1 + d);
        assert(all_hex(digits)) by {
            assert forall|j: int| 0 <= j < digits.len() implies is_hex_digit(
                #[trigger] digits[j],
            ) by {
                assert(digits[j] == s[i + 1 + j]);
            }
        }
    }
    assert forall|k: int| 0 <= k && k + 1 < tokens.len() implies (#[trigger] tokens[k]).end()
        <= tokens[k + 1].start by {
        let i = starts[k];
        assert(tokens[k + 1].start == starts[k + 1]);
    }
}

/// The scan from `from` misses no token: wherever a token starts at or
/// behind `from`, the scan has taken it, or it lies inside a token that the
/// scan took before.
pub proof fn lemma_no_token_is_missed(s: Seq<char>, from: int, i: int)
    requires
        0 <= from <= i < s.len(),
        token_digits(s, i) > 0,
    ensures
        exists|k: int|
            0 <= k < token_starts(s, from).len() && {
                let t = #[trigger] token_starts(s, from)[k];
                t <= i < t + 1 + token_digits(s, t)
            },
    decreases s.len() - from,
{
    let all = token_starts(s, from);
    if token_digits(s, from) > 0 {
        let next = from + 1 + token_digits(s, from);
        assert(all == seq![from] + token_starts(s, next));
        if i < next {
            assert(all[0] == from);
        } else {
            lemma_no_token_is_missed(s, next, i);
            let rest = token_starts(s, next);
            let k = choose|k: int|
                0 <= k < rest.len() && {
                    let t = #[trigger] rest[k];
                    t <= i < t + 1 + token_digits(s, t)
                };
            assert(all[k + 1] == rest[k]);
        }
    } else {
        lemma_no_token_is_missed(s, from + 1, i);
    }
}

/// A text has no color token exactly if no `#` in it has three hex digits
/// behind it.
pub proof fn lemma_no_tokens_iff_no_match(s: Seq<char>)
    ensures
        color_tokens(s).len() == 0 <==> forall|i: int| token_digits(s, i) == 0,
{
    if color_tokens(s).len() == 0 {
        assert forall|i: int| token_digits(s, i) == 0 by {
            if token_digits(s, i) > 0 {
                lemma_no_token_is_missed(s, 0, i);
            }
        }
    } else {
        lemma_token_starts(s, 0);
        assert(token_digits(s, token_starts(s, 0)[0]) > 0);
    }
}

/// A text without color tokens is its own rewriting.
pub proof fn lemma_no_tokens_no_change(s: Seq<char>, replacements: Seq<Seq<char>>)
    requires
        color_tokens(s).len() == 0,
    ensures
        spliced(s, color_tokens(s), replacements, 0, 0) == s,
{
    assert(s.subrange(0, s.len() as int) =~= s);
}

/// The number of hex digits at the front of `chars[from..]`, counted up to
/// `limit`.
fn count_hex(chars: &Vec<char>, from: usize, limit: usize) -> (r: usize)
    requires
        from <= chars.len(),
    ensures
        r <= limit,
        from + r <= chars.len(),
        forall|k: int| from <= k < from + r ==> is_hex_digit(#[trigger] chars[k]),
        r < limit ==> from + r == chars.len() || !is_hex_digit(chars[from + r]),
{
    let mut r: usize = 0;
    while r < limit && from + r < chars.len()
        invariant
            r <= limit,
            from + r <= chars.len(),
            forall|k: int| from <= k < from + r ==> is_hex_digit(#[trigger] chars[k]),
        decreases limit - r,
    {
        if hex_digit(chars[from + r]).is_none() {
            return r;
        }
        r += 1;
    }
    r
}

/// The color tokens of `chars`, from left to right.
pub fn scan_color_tokens(chars: &Vec<char>) -> (tokens: Vec<ColorToken>)
    ensures
        tokens@ == color_tokens(chars@),
{
    let ghost s = chars@;
    let n = chars.len();
    let mut tokens: Vec<ColorToken> = Vec::new();
    let mut i: usize = 0;
    while i < n
        invariant
            i <= n,
            n == chars.len(),
            s == chars@,
            tokens@ + token_starts(s, i as int).map_values(|j: int| token_at(s, j))
                == color_tokens(s),
        decreases n - i,
    {
        let ghost before = tokens@;
        let ghost here = token_starts(s, i as int);
        let mut digits: usize = 0;
        if chars[i] == '#' {
            let run = count_hex(chars, i + 1, 6);
            if run >= 6 {
                digits = 6;
            } else if run >= 3 {
                digits = 3;
                assert(!hex_run(s, i + 4, 3)) by {
                    if i + 1 + run < s.len() {
                        assert(!is_hex_digit(s[i + 1 + run]));
                    }
                }
            } else {
                assert(!hex_run(s, i + 1, 3)) by {
                    if i + 1 + run < s.len() {
                        assert(!is_hex_digit(s[i + 1 + run]));
                    }
                }
            }
        }
        assert(digits == token_digits(s, i as int));
        if digits > 0 {
            let ghost text = s.subrange(i + 1, i + 1 + digits);
            assert(all_hex(text)) by {
                assert forall|j: int| 0 <= j < text.len() implies is_hex_digit(
                    #[trigger] text[j],
                ) by {
                    assert(text[j] == s[i + 1 + j]);
                }
            }
            match parse_color_at(chars, i + 1, digits) {
                Some(color) => {
                    tokens.push(
                        ColorToken {
                            start: i,
                            digits,
                            red: color.0,
                            green: color.1,
                            blue: color.2,
                        },
                    );
                },
                None => {
                    assert(false);
                },
            }
            let ghost rest = token_starts(s, i + 1 + digits);
            assert(here == seq![i as int] + rest);
            assert(tokens@ == before.push(token_at(s, i as int)));
            assert(tokens@ + rest.map_values(|j: int| token_at(s, j)) =~= before + here.map_values(
                |j: int| token_at(s, j),
            ));
            i = i + 1 + digits;
        } else {
            i = i + 1;
        }
    }
    assert(token_starts(s, i as int).len() == 0);
    assert(tokens@ + token_starts(s, i as int).map_values(|j: int| token_at(s, j)) =~= tokens@);
    tokens
}

/// The color tokens of `input`, from left to right.
pub fn find_color_tokens(input: &str) -> (tokens: Vec<ColorToken>)
    ensures
        tokens@ == color_tokens(input@),
        input@.len() <= usize::MAX,
{
    let chars = chars_of(input);
    assert(chars.len() <= usize::MAX);
    scan_color_tokens(&chars)
}

/// Copies `input` with each of `tokens` replaced by the entry of
/// `replacements` at the same index.
pub fn splice(input: &str, tokens: &Vec<ColorToken>, replacements: &Vec<String>) -> (out: String)
    requires
        tokens_in_order(tokens@, input@.len() as int),
        replacements.len() == tokens.len(),
    ensures
        out@ == spliced(input@, tokens@, texts(replacements@), 0, 0),
{
    let ghost s = input@;
    let ghost reps = texts(replacements@);
    let total = input.unicode_len();
    let mut out = String::new();
    let mut pos: usize = 0;
    let mut k: usize = 0;
    while k < tokens.len()
        invariant
            k <= tokens.len(),
            s == input@,
            total == s.len(),
            reps == texts(replacements@),
            replacements.len() == tokens.len(),
            tokens_in_order(tokens@, s.len() as int),
            pos <= s.len(),
            k < tokens.len() ==> pos <= tokens[k as int].start,
            out@ + spliced(s, tokens@, reps, k as int, pos as int) == spliced(
                s,
                tokens@,
                reps,
                0,
                0,
            ),
        decreases tokens.len() - k,
    {
        let t = tokens[k];
        let ghost before = out@;
        assert(t.end() <= s.len());
        out.append(input.substring_char(pos, t.start));
        out.append(replacements[k].as_str());
        assert(reps[k as int] == replacements[k as int]@);
        assert(out@ + spliced(s, tokens@, reps, k + 1, t.end()) =~= before + spliced(
            s,
            tokens@,
            reps,
            k as int,
            pos as int,
        ));
        pos = t.start + 1 + t.digits;
        k += 1;
    }
    out.append(input.substring_char(pos, total));
    out
}

/// Rewrites every color token of `input`: the token is replaced by what
/// `modifier` returns for its red, green and blue, and all other text is
/// copied as it stands. The replacements are not scanned again.
pub fn process_colors<F>(input: &str, modifier: &F) -> (out: String) where
    F: Fn(u8, u8, u8) -> String,

    requires
        forall|r: u8, g: u8, b: u8| call_requires(modifier, (r, g, b)),
    ensures
        exists|replacements: Seq<String>|
            answers(modifier, color_tokens(input@), replacements) && out@ == spliced(
                input@,
                color_tokens(input@),
                texts(replacements),
                0,
                0,
            ),
        (forall|i: int| token_digits(input@, i) == 0) ==> out@ == input@,
{
    let tokens = find_color_tokens(input);
    let mut replacements: Vec<String> = Vec::new();
    let mut k: usize = 0;
    while k < tokens.len()
        invariant
            k <= tokens.len(),
            replacements.len() == k,
            forall|r: u8, g: u8, b: u8| call_requires(modifier, (r, g, b)),
            forall|j: int|
                0 <= j < k ==> call_ensures(
                    modifier,
                    (tokens[j].red, tokens[j].green, tokens[j].blue),
                    #[trigger] replacements[j],
                ),
        decreases tokens.len() - k,
    {
        let t = tokens[k];
        replacements.push(modifier(t.red, t.green, t.blue));
        k += 1;
    }
    proof {
        lemma_color_tokens(input@);
        lemma_no_tokens_iff_no_match(input@);
        if tokens.len() == 0 {
            lemma_no_tokens_no_change(input@, texts(replacements@));
        }
        assert(answers(modifier, color_tokens(input@), replacements@));
    }
    splice(input, &tokens, &replacements)
}

/// Moves every color token of `text` onto the scale between `shade` and
/// `tint`.
pub fn recolor_text(text: &str, shade: (u8, u8, u8), tint: (u8, u8, u8)) -> (out: String)
    ensures
        out@ == recolored(text@, shade, tint),
{
    let modifier = |r: u8, g: u8, b: u8| -> (s: String)
        ensures
            s@ == color_text(recolor_spec(shade, tint, (r, g, b))),
        { recolor(shade, tint, r, g, b) };
    let out = process_colors(text, &modifier);
    proof {
        let tokens = color_tokens(text@);
        let replacements = choose|replacements: Seq<String>|
            answers(&modifier, tokens, replacements) && out@ == spliced(
                text@,
                tokens,
                texts(replacements),
                0,
                0,
            );
        let expected = Seq::new(
            tokens.len(),
            |k: int|
                color_text(recolor_spec(shade, tint, (tokens[k].red, tokens[k].green, tokens[k].blue))),
        );
        assert(texts(replacements) =~= expected);
    }
    out
}

} // verus!
