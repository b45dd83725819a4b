//! Parsing of the custom colors that the user types in the color picker.
use vstd::prelude::*;
use vstd::string::*;

use crate::config::ConfigColor;
use crate::text::{decimal, digit_char, digit_value, is_digit};

verus! {

/// Which custom color the user is typing.
#[derive(Debug, Clone, Copy, PartialEq, Eq, Structural)]
pub enum ColorInputKind {
    Rgb,
    Indexed,
}

impl ColorInputKind {
    /// The line that asks for a custom color of this kind.
    pub fn prompt(self) -> (r: &'static str)
        ensures
            r@ == (match self {
                ColorInputKind::Rgb => "RGB values (example: 255,128,0)"@,
                ColorInputKind::Indexed => "Palette index (0-255)"@,
            }),
    {
        match self {
            ColorInputKind::Rgb => "RGB values (example: 255,128,0)",
            ColorInputKind::Indexed => "Palette index (0-255)",
        }
    }
}

/// Whether `c` has the Unicode `White_Space` property (what
/// `char::is_whitespace` tests).
pub open spec fn is_white_space(c: char) -> bool {
    ||| c == ' '
    ||| '\t' <= c && c <= '\r'
    ||| c == '\u{85}'
    ||| c == '\u{A0}'
    ||| c == '\u{1680}'
    ||| '\u{2000}' <= c && c <= '\u{200A}'
    ||| c == '\u{2028}'
    ||| c == '\u{2029}'
    ||| c == '\u{202F}'
    ||| c == '\u{205F}'
    ||| c == '\u{3000}'
}

/// Whether `c` separates the values of a custom color.
pub open spec fn is_separator(c: char) -> bool {
    c == ',' || is_white_space(c)
}

/// The pieces of `s` between separators, empty pieces included (what
/// `str::split` with the separator test yields).
pub open spec fn split_pieces(s: Seq<char>) -> Seq<Seq<char>>
    decreases s.len(),
{
    if s.len() == 0 {
        seq![Seq::empty()]
    } else {
        let pieces = split_pieces(s.drop_last());
        if is_separator(s.last()) {
            pieces.push(Seq::empty())
        } else {
            pieces.update(pieces.len() - 1, pieces.last().push(s.last()))
        }
    }
}

/// The non-empty pieces of `s` between separators, in order.
pub open spec fn tokens(s: Seq<char>) -> Seq<Seq<char>> {
    split_pieces(s).filter(|t: Seq<char>| t.len() > 0)
}

/// The digits of a number token: the token without a leading `+`.
pub open spec fn unsigned_digits(t: Seq<char>) -> Seq<char> {
    if t.len() > 0 && t[0] == '+' {
        t.drop_first()
    } else {
        t
    }
}

/// The value of a sequence of decimal digits.
pub open spec fn digits_value(d: Seq<char>) -> nat
    decreases d.len(),
{
    if d.len() == 0 {
        0
    } else {
        digits_value(d.drop_last()) * 10 + digit_value(d.last())
    }
}

/// Whether `t` is the text of a `u8` as `str::parse::<u8>` reads it: an
/// optional `+`, then one or more decimal digits, of value at most 255.
pub open spec fn parses_as_u8(t: Seq<char>) -> bool {
    let d = unsigned_digits(t);
    &&& d.len() > 0
    &&& forall|i: int| 0 <= i < d.len() ==> is_digit(#[trigger] d[i])
    &&& digits_value(d) <= 255
}

/// The value of a token that parses as a `u8`.
pub open spec fn token_value(t: Seq<char>) -> u8 {
    digits_value(unsigned_digits(t)) as u8
}

/// The message for a value that is not a whole number from 0 to 255.
pub open spec fn bad_value_message() -> Seq<char> {
    "values must be whole numbers from 0 to 255"@
}

/// The message for an RGB color without exactly three values.
pub open spec fn rgb_shape_message() -> Seq<char> {
    "enter exactly three values: R,G,B"@
}

/// The message for an indexed color without exactly one value.
pub open spec fn indexed_shape_message() -> Seq<char> {
    "enter one palette index"@
}

/// What the custom color input `input` gives: the color, or the message that
/// the user sees.
pub open spec fn color_input_outcome(kind: ColorInputKind, input: Seq<char>) -> Result<ConfigColor, Seq<char>> {
    let toks = tokens(input);
    if exists|i: int| 0 <= i < toks.len() && !parses_as_u8(#[trigger] toks[i]) {
        Err(bad_value_message())
    } else {
        match kind {
            ColorInputKind::Rgb => if toks.len() == 3 {
                Ok(ConfigColor::Rgb(token_value(toks[0]), token_value(toks[1]), token_value(toks[2])))
            } else {
                Err(rgb_shape_message())
            },
            ColorInputKind::Indexed => if toks.len() == 1 {
                Ok(ConfigColor::Indexed(token_value(toks[0])))
            } else {
                Err(indexed_shape_message())
            },
        }
    }
}

/// Whether `c` has the Unicode `White_Space` property.
pub fn is_whitespace(c: char) -> (r: bool)
    ensures
        r == is_white_space(c),
{
    c == ' ' || ('\t' <= c && c <= '\r') || c == '\u{85}' || c == '\u{A0}' || c == '\u{1680}' || (
    '\u{2000}' <= c && c <= '\u{200A}') || c == '\u{2028}' || c == '\u{2029}' || c == '\u{202F}'
        || c == '\u{205F}' || c == '\u{3000}'
}

proof fn lemma_split_nonempty(s: Seq<char>)
    ensures
        split_pieces(s).len() >= 1,
    decreases s.len(),
{
    if s.len() > 0 {
        lemma_split_nonempty(s.drop_last());
    }
}

proof fn lemma_digits_value_monotone(d: Seq<char>, n: int)
    requires
        0 <= n <= d.len(),
    ensures
        digits_value(d.take(n)) <= digits_value(d),
    decreases d.len() - n,
{
    if n < d.len() {
        lemma_digits_value_monotone(d, n + 1);
        assert(d.take(n + 1).drop_last() =~= d.take(n));
    } else {
        assert(d.take(n) =~= d);
    }
}

/// Reads a token as `str::parse::<u8>` does.
fn parse_u8_token(t: &Vec<char>) -> (r: Option<u8>)
    ensures
        r is Some <==> parses_as_u8(t@),
        r matches Some(v) ==> v == token_value(t@),
{
    let start: usize = if t.len() > 0 && t[0] == '+' { 1 } else { 0 };
    let ghost d = unsigned_digits(t@);
    assert(d =~= t@.skip(start as int));
    if start >= t.len() {
        return None;
    }
    let mut value: u32 = 0;
    let mut i: usize = start;
    while i < t.len()
        invariant
            start <= i <= t@.len(),
            d =~= t@.skip(start as int),
            d == unsigned_digits(t@),
            d.len() > 0,
            forall|k: int| 0 <= k < i - start ==> is_digit(#[trigger] d[k]),
            value == digits_value(d.take(i - start)),
            value <= 255,
        decreases t@.len() - i,
    {
        let c = t[i];
        if !('0' <= c && c <= '9') {
            assert(!is_digit(d[i - start]));
            return None;
        }
        let ghost k = i - start;
        assert(d.take(k + 1).drop_last() =~= d.take(k));
        assert(d.take(k + 1).last() == c);
        value = value * 10 + (c as u32 - '0' as u32);
        if value > 255 {
            proof {
                lemma_digits_value_monotone(d, k + 1);
            }
            return None;
        }
        i = i + 1;
    }
    assert(d.take(i - start) =~= d);
    Some(value as u8)
}

/// The pieces as sequences of characters.
pub open spec fn piece_views(v: Seq<Vec<char>>) -> Seq<Seq<char>> {
    v.map_values(|p: Vec<char>| p@)
}

/// Reads a custom color from what the user typed: values separated by commas
/// or white space, three for an RGB color and one for an indexed color.
pub fn parse_color_input(kind: ColorInputKind, input: &str) -> (r: Result<ConfigColor, String>)
    ensures
        match r {
            Ok(color) => color_input_outcome(kind, input@) == Ok::<ConfigColor, Seq<char>>(color),
            Err(message) => color_input_outcome(kind, input@) == Err::<ConfigColor, Seq<char>>(message@),
        },
{
    let n = input.unicode_len();
    let mut done: Vec<Vec<char>> = Vec::new();
    let mut current: Vec<char> = Vec::new();
    let mut i: usize = 0;
    assert(input@.take(0) =~= Seq::<char>::empty());
    while i < n
        invariant
            n == input@.len(),
            i <= n,
            split_pieces(input@.take(i as int)) == piece_views(done@).push(current@),
        decreases n - i,
    {
        let c = input.get_char(i);
        let ghost before = split_pieces(input@.take(i as int));
        assert(input@.take(i + 1).drop_last() =~= input@.take(i as int));
        assert(input@.take(i + 1).last() == c);
        if c == ',' || is_whitespace(c) {
            let piece = current;
            done.push(piece);
            current = Vec::new();
            assert(piece_views(done@).push(current@) =~= before.push(Seq::empty()));
        } else {
            let ghost old_current = current@;
            current.push(c);
            assert(piece_views(done@).push(current@) =~= before.update(
                before.len() - 1,
                before.last().push(c),
            ));
        }
        i = i + 1;
    }
    assert(input@.take(n as int) =~= input@);
    done.push(current);
    let ghost pieces = piece_views(done@);
    assert(pieces == split_pieces(input@));
    let ghost nonempty = |t: Seq<char>| t.len() > 0;
    let mut values: Vec<u8> = Vec::new();
    let mut k: usize = 0;
    assert(pieces.take(0) =~= Seq::<Seq<char>>::empty());
    assert(pieces.take(0).filter(nonempty) =~= Seq::<Seq<char>>::empty()) by {
        reveal(Seq::filter);
    }
    while k < done.len()
        invariant
            k <= done@.len(),
            pieces == piece_views(done@),
            pieces == split_pieces(input@),
            nonempty == (|t: Seq<char>| t.len() > 0),
            values@.len() == pieces.take(k as int).filter(nonempty).len(),
            forall|j: int|
                0 <= j < values@.len() ==> parses_as_u8(#[trigger] pieces.take(k as int).filter(nonempty)[j])
                    && values@[j] == token_value(pieces.take(k as int).filter(nonempty)[j]),
        decreases done@.len() - k,
    {
        let ghost prefix = pieces.take(k as int).filter(nonempty);
        assert(pieces.take(k + 1) =~= pieces.take(k as int).push(pieces[k as int]));
        proof {
            pieces.take(k as int).lemma_filter_push(pieces[k as int], nonempty);
        }
        if done[k].len() > 0 {
            match parse_u8_token(&done[k]) {
                Some(v) => {
                    values.push(v);
                },
                None => {
                    proof {
                        let toks = tokens(input@);
                        let full = pieces.filter(nonempty);
                        assert(full == toks);
                        assert(full.contains(pieces[k as int])) by {
                            pieces.lemma_filter_contains_rev(nonempty, pieces[k as int]);
                        }
                        let m = choose|m: int| 0 <= m < full.len() && full[m] == pieces[k as int];
                        assert(!parses_as_u8(toks[m]));
                    }
                    return Err(String::from_str("values must be whole numbers from 0 to 255"));
                },
            }
        }
        k = k + 1;
    }
    assert(pieces.take(done@.len() as int) =~= pieces);
    let ghost toks = tokens(input@);
    assert(toks == pieces.filter(nonempty));
    assert(forall|j: int| 0 <= j < toks.len() ==> parses_as_u8(#[trigger] toks[j]));
    match kind {
        ColorInputKind::Rgb => {
            if values.len() == 3 {
                Ok(ConfigColor::Rgb(values[0], values[1], values[2]))
            } else {
                Err(String::from_str("enter exactly three values: R,G,B"))
            }
        },
        ColorInputKind::Indexed => {
            if values.len() == 1 {
                Ok(ConfigColor::Indexed(values[0]))
            } else {
                Err(String::from_str("enter one palette index"))
            }
        },
    }
}


proof fn lemma_digit_char(d: nat)
    requires
        d < 10,
    ensures
        is_digit(digit_char(d)),
        digit_value(digit_char(d)) == d,
        !is_separator(digit_char(d)),
        digit_char(d) != '+',
{
}

proof fn lemma_decimal_reads_back(n: nat)
    ensures
        decimal(n).len() > 0,
        forall|k: int| 0 <= k < decimal(n).len() ==> is_digit(#[trigger] decimal(n)[k]),
        forall|k: int| 0 <= k < decimal(n).len() ==> !is_separator(#[trigger] decimal(n)[k]),
        decimal(n)[0] != '+',
        digits_value(decimal(n)) == n,
    decreases n,
{
    if n < 10 {
        lemma_digit_char(n);
        assert(decimal(n) =~= seq![digit_char(n)]);
        assert(seq![digit_char(n)].drop_last() =~= Seq::<char>::empty());
        assert(decimal(n).last() == digit_char(n));
        assert(digits_value(decimal(n)) == digits_value(Seq::<char>::empty()) * 10 + digit_value(digit_char(n)));
    } else {
        lemma_decimal_reads_back(n / 10);
        lemma_digit_char(n % 10);
        let d = decimal(n);
        let front = decimal(n / 10);
        assert(d == front.push(digit_char(n % 10)));
        assert(d.drop_last() =~= front);
        assert forall|k: int| 0 <= k < d.len() implies is_digit(#[trigger] d[k]) && !is_separator(d[k]) by {
            if k < front.len() {
                assert(d[k] == front[k]);
            }
        }
        assert(d[0] == front[0]);
        assert(d.last() == digit_char(n % 10));
        assert(digits_value(d) == digits_value(front) * 10 + digit_value(digit_char(n % 10)));
        assert((n / 10) * 10 + n % 10 == n);
    }
}

proof fn lemma_split_word(w: Seq<char>)
    requires
        forall|k: int| 0 <= k < w.len() ==> !is_separator(#[trigger] w[k]),
    ensures
        split_pieces(w) == seq![w],
    decreases w.len(),
{
    if w.len() == 0 {
        assert(w =~= Seq::<char>::empty());
        assert(seq![Seq::<char>::empty()] =~= seq![w]);
    } else {
        let front = w.drop_last();
        assert forall|k: int| 0 <= k < front.len() implies !is_separator(#[trigger] front[k]) by {
            assert(front[k] == w[k]);
        }
        lemma_split_word(front);
        assert(!is_separator(w[w.len() - 1]));
        assert(front.push(w.last()) =~= w);
        assert(seq![front].update(0, front.push(w.last())) =~= seq![w]);
    }
}

proof fn lemma_split_after_comma(s: Seq<char>, w: Seq<char>)
    requires
        forall|k: int| 0 <= k < w.len() ==> !is_separator(#[trigger] w[k]),
    ensures
        split_pieces(s + seq![','] + w) == split_pieces(s).push(w),
    decreases w.len(),
{
    if w.len() == 0 {
        assert(s + seq![','] + w =~= s.push(','));
        assert((s.push(',')).drop_last() =~= s);
        assert(w =~= Seq::<char>::empty());
        assert(split_pieces(s).push(Seq::<char>::empty()) =~= split_pieces(s).push(w));
    } else {
        let front = w.drop_last();
        assert forall|k: int| 0 <= k < front.len() implies !is_separator(#[trigger] front[k]) by {
            assert(front[k] == w[k]);
        }
        lemma_split_after_comma(s, front);
        let whole = s + seq![','] + w;
        assert(whole.drop_last() =~= s + seq![','] + front);
        assert(whole.last() == w.last());
        assert(!is_separator(w[w.len() - 1]));
        let pieces = split_pieces(s).push(front);
        assert(front.push(w.last()) =~= w);
        assert(pieces.update(pieces.len() - 1, front.push(w.last())) =~= split_pieces(s).push(w));
    }
}

proof fn lemma_filter_keeps_nonempty(s: Seq<Seq<char>>)
    requires
        forall|k: int| 0 <= k < s.len() ==> (#[trigger] s[k]).len() > 0,
    ensures
        s.filter(|t: Seq<char>| t.len() > 0) == s,
    decreases s.len(),
{
    let nonempty = |t: Seq<char>| t.len() > 0;
    if s.len() == 0 {
        assert(s.filter(nonempty) =~= s) by {
            reveal(Seq::filter);
        }
    } else {
        let front = s.drop_last();
        assert forall|k: int| 0 <= k < front.len() implies (#[trigger] front[k]).len() > 0 by {
            assert(front[k] == s[k]);
        }
        lemma_filter_keeps_nonempty(front);
        front.lemma_filter_push(s.last(), nonempty);
        assert(front.push(s.last()) =~= s);
    }
}

/// Typing the three values of an RGB color as decimals separated by commas
/// gives that color.
pub proof fn law_rgb_input_round_trip(red: u8, green: u8, blue: u8)
    ensures
        color_input_outcome(
            ColorInputKind::Rgb,
            decimal(red as nat) + seq![','] + decimal(green as nat) + seq![','] + decimal(blue as nat),
        ) == Ok::<ConfigColor, Seq<char>>(ConfigColor::Rgb(red, green, blue)),
{
    let r = decimal(red as nat);
    let g = decimal(green as nat);
    let b = decimal(blue as nat);
    lemma_decimal_reads_back(red as nat);
    lemma_decimal_reads_back(green as nat);
    lemma_decimal_reads_back(blue as nat);
    lemma_split_word(r);
    lemma_split_after_comma(r, g);
    lemma_split_after_comma(r + seq![','] + g, b);
    let input = r + seq![','] + g + seq![','] + b;
    let pieces = split_pieces(input);
    assert(pieces =~= seq![r, g, b]);
    lemma_filter_keeps_nonempty(pieces);
    let toks = tokens(input);
    assert(toks == seq![r, g, b]);
    assert(unsigned_digits(r) == r);
    assert(unsigned_digits(g) == g);
    assert(unsigned_digits(b) == b);
    assert(parses_as_u8(toks[0]) && parses_as_u8(toks[1]) && parses_as_u8(toks[2]));
    assert forall|i: int| 0 <= i < toks.len() implies parses_as_u8(#[trigger] toks[i]) by {}
}

/// Typing the decimal of a palette index gives that indexed color.
pub proof fn law_indexed_input_round_trip(index: u8)
    ensures
        color_input_outcome(ColorInputKind::Indexed, decimal(index as nat))
            == Ok::<ConfigColor, Seq<char>>(ConfigColor::Indexed(index)),
{
    let d = decimal(index as nat);
    lemma_decimal_reads_back(index as nat);
    lemma_split_word(d);
    lemma_filter_keeps_nonempty(seq![d]);
    let toks = tokens(d);
    assert(toks == seq![d]);
    assert(unsigned_digits(d) == d);
    assert forall|i: int| 0 <= i < toks.len() implies parses_as_u8(#[trigger] toks[i]) by {}
}

} // verus!
