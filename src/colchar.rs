use vstd::prelude::*;
use vstd::string::{StrSliceExecFns, StringExecFns};

verus! {

/// An RGB colour with one byte per channel.
#[derive(Debug, Clone, Copy, PartialEq, Eq, Structural, Hash)]
pub struct Colour {
    pub r: u8,
    pub g: u8,
    pub b: u8,
}

/// How a character is styled in the terminal.
#[derive(Debug, Clone, Copy, PartialEq, Eq, Structural, Hash)]
pub enum Modifier {
    /// A numeric SGR code, written as `ESC [ code m`.
    Coded(u8),
    /// A 24-bit colour, written as `ESC [ 38;2;r;g;b m`.
    Colour(Colour),
    /// No styling: writes nothing.
    Plain,
}

/// A printable character together with its appearance.
#[derive(Debug, Clone, Copy, PartialEq, Eq, Structural, Hash)]
pub struct ColChar {
    pub text_char: char,
    pub modifier: Modifier,
}

/// `a / b` rounded to the nearest integer, halves rounded up (for `a >= 0`, `b > 0`).
pub open spec fn round_div(a: int, b: int) -> int {
    (2 * a + b) / (2 * b)
}

/// The sector (0 to 6) of the colour wheel that an 8-bit hue falls in.
pub open spec fn hue_sector(h: u8) -> int {
    (6 * h) / 255
}

/// The position inside its sector of an 8-bit hue, in 255ths.
pub open spec fn hue_fraction(h: u8) -> int {
    6 * h - 255 * hue_sector(h)
}

/// The RGB colour of an HSV triple whose three channels are each scaled from `0..=255`
/// to `[0, 1]`, converted by the standard formula and rounded to the nearest byte.
pub open spec fn hsv_to_rgb(h: u8, s: u8, v: u8) -> (int, int, int) {
    let f = hue_fraction(h);
    let p = round_div(v * (255 - s), 255);
    let q = round_div(v * (65025 - f * s), 65025);
    let t = round_div(v * (65025 - (255 - f) * s), 65025);
    let vv = v as int;
    let sector = hue_sector(h);
    if sector == 1 {
        (q, vv, p)
    } else if sector == 2 {
        (p, vv, t)
    } else if sector == 3 {
        (p, q, vv)
    } else if sector == 4 {
        (t, p, vv)
    } else if sector == 5 {
        (vv, p, q)
    } else {
        (vv, t, p)
    }
}

/// `num * v / den` rounded to the nearest integer, for `num <= den`.
fn scaled_round(v: u8, num: u32, den: u32) -> (r: u8)
    requires
        0 < den <= 65025,
        num <= den,
    ensures
        r == round_div(v * num, den as int),
{
    assert(v * num <= 255 * den) by (nonlinear_arith)
        requires
            num <= den,
            v <= 255,
    ;
    let a: u32 = v as u32 * num;
    let q: u32 = (2 * a + den) / (2 * den);
    assert(q <= 255) by (nonlinear_arith)
        requires
            q == (2 * a + den) / (2 * den),
            a <= 255 * den,
            den > 0,
    ;
    q as u8
}

impl Colour {
    /// Create a `Colour` from its red, green and blue channels.
    pub fn rgb(r: u8, g: u8, b: u8) -> (c: Self)
        ensures
            c.r == r,
            c.g == g,
            c.b == b,
    {
        Colour { r, g, b }
    }

    /// Create a `Colour` from hue, saturation and value, each on a `0..=255` scale.
    pub fn hsv(hue: u8, sat: u8, val: u8) -> (c: Self)
        ensures
            (c.r as int, c.g as int, c.b as int) == hsv_to_rgb(hue, sat, val),
    {
        let sector: u32 = (6 * hue as u32) / 255;
        let f: u32 = 6 * hue as u32 - 255 * sector;
        assert(f < 255) by (nonlinear_arith)
            requires
                sector == (6 * hue) / 255,
                f == 6 * hue - 255 * sector,
        ;
        assert(f * sat <= 254 * 255 && (255 - f) * sat <= 255 * 255) by (nonlinear_arith)
            requires
                f < 255,
                sat <= 255,
        ;
        let p = scaled_round(val, 255 - sat as u32, 255);
        let q = scaled_round(val, 65025 - f * sat as u32, 65025);
        let t = scaled_round(val, 65025 - (255 - f) * sat as u32, 65025);
        let (r, g, b) = if sector == 1 {
            (q, val, p)
        } else if sector == 2 {
            (p, val, t)
        } else if sector == 3 {
            (p, q, val)
        } else if sector == 4 {
            (t, p, val)
        } else if sector == 5 {
            (val, p, q)
        } else {
            (val, t, p)
        };
        Colour { r, g, b }
    }

    /// A shade of grey: all three channels equal to `v`.
    pub fn greyscale(v: u8) -> (c: Self)
        ensures
            c.r == v,
            c.g == v,
            c.b == v,
    {
        Colour { r: v, g: v, b: v }
    }
}

/// The ASCII digit for `d` in `0..10`.
pub open spec fn digit_char(d: int) -> char {
    ((d + 48) as u8) as char
}

/// The decimal digits of `n`, most significant first, without leading zeros.
pub open spec fn decimal(n: nat) -> Seq<char>
    decreases n,
{
    if n < 10 {
        seq![digit_char(n as int)]
    } else {
        decimal(n / 10).push(digit_char((n % 10) as int))
    }
}

fn digit(d: u8) -> (c: char)
    requires
        d < 10,
    ensures
        c == digit_char(d as int),
{
    (d + 48) as char
}

/// Relies on `String::push`: appends one character.
#[verifier::external_body]
pub(crate) fn push_char(s: &mut String, c: char)
    ensures
        final(s)@ == old(s)@.push(c),
{
    s.push(c)
}

/// Append the decimal digits of `n` to `s`.
pub(crate) fn push_decimal(s: &mut String, n: u64)
    ensures
        final(s)@ == old(s)@ + decimal(n as nat),
    decreases n,
{
    let ghost s0 = s@;
    if n >= 10 {
        push_decimal(s, n / 10);
    }
    push_char(s, digit((n % 10) as u8));
    assert(s@ =~= s0 + decimal(n as nat));
}

/// The escape sequence that applies a modifier; empty for `Modifier::Plain`.
pub open spec fn modifier_text(m: Modifier) -> Seq<char> {
    match m {
        Modifier::Coded(code) => seq!['\x1b', '['] + decimal(code as nat) + seq!['m'],
        Modifier::Colour(c) => seq!['\x1b', '[', '3', '8', ';', '2', ';'] + decimal(c.r as nat)
            + seq![';'] + decimal(c.g as nat) + seq![';'] + decimal(c.b as nat) + seq!['m'],
        Modifier::Plain => Seq::empty(),
    }
}

/// The text of one cell between neighbours with modifiers `prev` and `next`: the cell's
/// modifier unless `prev` already applied it, its character, and a reset unless `next`
/// continues with the same modifier.
pub open spec fn cell_text(c: ColChar, prev: Option<Modifier>, next: Option<Modifier>) -> Seq<char> {
    (if prev == Some(c.modifier) {
        Seq::empty()
    } else {
        modifier_text(c.modifier)
    }) + seq![c.text_char] + (if next == Some(c.modifier) {
        Seq::empty()
    } else {
        modifier_text(Modifier::Coded(0))
    })
}

fn push_modifier(s: &mut String, m: Modifier)
    ensures
        final(s)@ == old(s)@ + modifier_text(m),
{
    let ghost s0 = s@;
    match m {
        Modifier::Coded(code) => {
            push_char(s, '\x1b');
            push_char(s, '[');
            push_decimal(s, code as u64);
            push_char(s, 'm');
        },
        Modifier::Colour(c) => {
            push_char(s, '\x1b');
            push_char(s, '[');
            push_char(s, '3');
            push_char(s, '8');
            push_char(s, ';');
            push_char(s, '2');
            push_char(s, ';');
            push_decimal(s, c.r as u64);
            push_char(s, ';');
            push_decimal(s, c.g as u64);
            push_char(s, ';');
            push_decimal(s, c.b as u64);
            push_char(s, 'm');
        },
        Modifier::Plain => {},
    }
    assert(s@ =~= s0 + modifier_text(m));
}

impl Modifier {
    /// Clears every modifier applied before it.
    pub fn end() -> (r: Modifier)
        ensures
            r == (Modifier::Coded(0)),
    {
        Modifier::Coded(0)
    }
    /// A red foreground code.
    pub fn red() -> (r: Modifier)
        ensures
            r == (Modifier::Coded(31)),
    {
        Modifier::Coded(31)
    }
    /// A green foreground code.
    pub fn green() -> (r: Modifier)
        ensures
            r == (Modifier::Coded(32)),
    {
        Modifier::Coded(32)
    }
    /// A yellow foreground code.
    pub fn yellow() -> (r: Modifier)
        ensures
            r == (Modifier::Coded(33)),
    {
        Modifier::Coded(33)
    }
    /// A blue foreground code.
    pub fn blue() -> (r: Modifier)
        ensures
            r == (Modifier::Coded(34)),
    {
        Modifier::Coded(34)
    }
    /// A purple foreground code.
    pub fn purple() -> (r: Modifier)
        ensures
            r == (Modifier::Coded(35)),
    {
        Modifier::Coded(35)
    }
    /// A cyan foreground code.
    pub fn cyan() -> (r: Modifier)
        ensures
            r == (Modifier::Coded(36)),
    {
        Modifier::Coded(36)
    }

    /// A `Modifier::Colour` from an RGB value.
    pub fn from_rgb(r: u8, g: u8, b: u8) -> (m: Self)
        ensures
            m == Modifier::Colour(Colour { r, g, b }),
    {
        Modifier::Colour(Colour::rgb(r, g, b))
    }

    /// A `Modifier::Colour` from an HSV value.
    pub fn from_hsv(h: u8, s: u8, v: u8) -> (m: Self)
        ensures
            m matches Modifier::Colour(c) && (c.r as int, c.g as int, c.b as int) == hsv_to_rgb(h, s, v),
    {
        Modifier::Colour(Colour::hsv(h, s, v))
    }
}

impl ColChar {
    /// A solid block with no modifier.
    pub fn solid() -> (r: ColChar)
        ensures
            r == (ColChar { text_char: '\u{2588}', modifier: Modifier::Plain }),
    {
        ColChar { text_char: '\u{2588}', modifier: Modifier::Plain }
    }
    /// A light shade block with no modifier.
    pub fn background() -> (r: ColChar)
        ensures
            r == (ColChar { text_char: '\u{2591}', modifier: Modifier::Plain }),
    {
        ColChar { text_char: '\u{2591}', modifier: Modifier::Plain }
    }
    /// A space with no modifier.
    pub fn empty() -> (r: ColChar)
        ensures
            r == (ColChar { text_char: ' ', modifier: Modifier::Plain }),
    {
        ColChar { text_char: ' ', modifier: Modifier::Plain }
    }
    /// An opaque blank (punctuation space) with no modifier.
    pub fn void() -> (r: ColChar)
        ensures
            r == (ColChar { text_char: '\u{2008}', modifier: Modifier::Plain }),
    {
        ColChar { text_char: '\u{2008}', modifier: Modifier::Plain }
    }

    /// Create a `ColChar` from a character and a modifier.
    pub fn new(text_char: char, modifier: Modifier) -> (c: Self)
        ensures
            c.text_char == text_char,
            c.modifier == modifier,
    {
        ColChar { text_char, modifier }
    }

    /// The same modifier with another character.
    pub fn with_char(self, text_char: char) -> (c: Self)
        ensures
            c == (ColChar { text_char, ..self }),
    {
        ColChar { text_char, ..self }
    }

    /// The same character with another modifier.
    pub fn with_mod(self, modifier: Modifier) -> (c: Self)
        ensures
            c == (ColChar { modifier, ..self }),
    {
        ColChar { modifier, ..self }
    }

    /// The same character coloured with `colour`.
    pub fn with_colour(self, colour: Colour) -> (c: Self)
        ensures
            c == (ColChar { modifier: Modifier::Colour(colour), ..self }),
    {
        ColChar { modifier: Modifier::Colour(colour), ..self }
    }

    /// The same character coloured with an RGB value.
    pub fn with_rgb(self, r: u8, g: u8, b: u8) -> (c: Self)
        ensures
            c == (ColChar { modifier: Modifier::Colour(Colour { r, g, b }), ..self }),
    {
        ColChar { modifier: Modifier::from_rgb(r, g, b), ..self }
    }

    /// The same character coloured with an HSV value.
    pub fn with_hsv(self, h: u8, s: u8, v: u8) -> (c: Self)
        ensures
            c.text_char == self.text_char,
            c.modifier matches Modifier::Colour(col) && (col.r as int, col.g as int, col.b as int)
                == hsv_to_rgb(h, s, v),
    {
        ColChar { modifier: Modifier::from_hsv(h, s, v), ..self }
    }

    /// Append this cell's text to `s`, leaving out the modifier when `prev_mod` already
    /// applied it and the reset when `next_mod` continues with the same modifier.
    pub fn display_with_prev_and_next(
        self,
        s: &mut String,
        prev_mod: Option<Modifier>,
        next_mod: Option<Modifier>,
    )
        ensures
            final(s)@ == old(s)@ + cell_text(self, prev_mod, next_mod),
    {
        let ghost s0 = s@;
        if prev_mod != Some(self.modifier) {
            push_modifier(s, self.modifier);
        }
        push_char(s, self.text_char);
        if next_mod != Some(self.modifier) {
            push_modifier(s, Modifier::Coded(0));
        }
        assert(s@ =~= s0 + cell_text(self, prev_mod, next_mod));
    }
}

/// The comma-separated fields of `s`, with every space removed.
pub open spec fn fields(s: Seq<char>) -> Seq<Seq<char>>
    decreases s.len(),
{
    if s.len() == 0 {
        seq![Seq::empty()]
    } else {
        let r = fields(s.drop_last());
        let c = s.last();
        if c == ' ' {
            r
        } else if c == ',' {
            r.push(Seq::empty())
        } else {
            r.update(r.len() - 1, r.last().push(c))
        }
    }
}

/// `c` is an ASCII decimal digit.
pub open spec fn is_digit(c: char) -> bool {
    '0' <= c && c <= '9'
}

/// The value of a string of decimal digits.
pub open spec fn digits_value(s: Seq<char>) -> nat
    decreases s.len(),
{
    if s.len() == 0 {
        0
    } else {
        digits_value(s.drop_last()) * 10 + ((s.last() as u32 - '0' as u32) as nat)
    }
}

/// `s` without one leading `+`.
pub open spec fn unsigned_digits(s: Seq<char>) -> Seq<char> {
    if s.len() > 0 && s[0] == '+' {
        s.drop_first()
    } else {
        s
    }
}

/// Every character of `s` is a digit.
pub open spec fn all_digits(s: Seq<char>) -> bool {
    forall|i: int| 0 <= i < s.len() ==> is_digit(#[trigger] s[i])
}

/// What parsing `s` as a `u8` gives: an optional `+`, then at least one digit, with a
/// value of at most 255.
pub open spec fn parse_u8(s: Seq<char>) -> Option<u8> {
    let d = unsigned_digits(s);
    if d.len() > 0 && all_digits(d) && digits_value(d) <= 255 {
        Some(digits_value(d) as u8)
    } else {
        None
    }
}

/// The message for a colour string that does not have three fields.
pub open spec fn field_count_error(s: Seq<char>) -> Seq<char> {
    "Incorrect number of arguments in \""@ + s + "\", string must be in format r,g,b to be parsed correctly"@
}

/// The message for a colour field (spaces removed) that is not a byte value.
pub open spec fn field_value_error(field: Seq<char>) -> Seq<char> {
    "Could not parse part of argument \""@ + field + "\", make sure it's a valid number"@
}

/// The first of three fields that is not a byte value.
pub open spec fn first_bad_field(f: Seq<Seq<char>>) -> Seq<char> {
    if parse_u8(f[0]) is None {
        f[0]
    } else if parse_u8(f[1]) is None {
        f[1]
    } else {
        f[2]
    }
}

fn push_all(s: &mut String, cs: &Vec<char>)
    ensures
        final(s)@ == old(s)@ + cs@,
{
    let ghost s0 = s@;
    let mut i: usize = 0;
    while i < cs.len()
        invariant
            i <= cs@.len(),
            s@ == s0 + cs@.take(i as int),
        decreases cs@.len() - i,
    {
        push_char(s, cs[i]);
        i = i + 1;
        assert(s@ =~= s0 + cs@.take(i as int));
    }
    assert(cs@.take(i as int) =~= cs@);
}

/// The characters of `s`.
pub(crate) fn char_vec(s: &str) -> (r: Vec<char>)
    ensures
        r@ == s@,
{
    let n = s.unicode_len();
    let mut r: Vec<char> = Vec::new();
    let mut i: usize = 0;
    while i < n
        invariant
            n == s@.len(),
            i <= n,
            r@ == s@.take(i as int),
        decreases n - i,
    {
        r.push(s.get_char(i));
        i = i + 1;
        assert(r@ =~= s@.take(i as int));
    }
    assert(s@.take(i as int) =~= s@);
    r
}

fn split_fields(s: &Vec<char>) -> (r: Vec<Vec<char>>)
    ensures
        r@.len() == fields(s@).len(),
        forall|k: int| 0 <= k < r@.len() ==> (#[trigger] r@[k])@ == fields(s@)[k],
{
    let mut parts: Vec<Vec<char>> = Vec::new();
    let mut cur: Vec<char> = Vec::new();
    let mut i: usize = 0;
    assert(s@.take(0) =~= Seq::<char>::empty());
    while i < s.len()
        invariant
            i <= s@.len(),
            parts@.len() + 1 == fields(s@.take(i as int)).len(),
            forall|k: int| 0 <= k < parts@.len() ==> (#[trigger] parts@[k])@ == fields(s@.take(i as int))[k],
            cur@ == fields(s@.take(i as int)).last(),
        decreases s@.len() - i,
    {
        let c = s[i];
        let ghost before = fields(s@.take(i as int));
        proof {
            assert(s@.take(i + 1).drop_last() =~= s@.take(i as int));
        }
        if c == ',' {
            parts.push(cur);
            cur = Vec::new();
        } else if c != ' ' {
            cur.push(c);
        }
        i = i + 1;
        proof {
            let after = fields(s@.take(i as int));
            assert forall|k: int| 0 <= k < parts@.len() implies (#[trigger] parts@[k])@ == after[k] by {
                if k < before.len() - 1 {
                    assert(after[k] == before[k]);
                }
            }
        }
    }
    parts.push(cur);
    proof {
        assert(s@.take(i as int) =~= s@);
    }
    parts
}

proof fn lemma_capped_step(x: nat, d: nat)
    requires
        d < 10,
    ensures
        (if 10 * (if x < 256 { x } else { 256 }) + d < 256 { 10 * (if x < 256 { x } else { 256 }) + d } else { 256 })
            == (if 10 * x + d < 256 { 10 * x + d } else { 256 }),
{
}

fn parse_field(p: &Vec<char>) -> (r: Option<u8>)
    ensures
        r == parse_u8(p@),
{
    let start: usize = if p.len() > 0 && p[0] == '+' { 1 } else { 0 };
    let ghost d = unsigned_digits(p@);
    assert(d =~= p@.skip(start as int));
    if start >= p.len() {
        return None;
    }
    let mut value: u32 = 0;
    let mut i: usize = start;
    while i < p.len()
        invariant
            start <= i <= p@.len(),
            d == p@.skip(start as int),
            d == unsigned_digits(p@),
            forall|k: int| start <= k < i ==> is_digit(#[trigger] p@[k]),
            value == (if digits_value(p@.subrange(start as int, i as int)) < 256 {
                digits_value(p@.subrange(start as int, i as int))
            } else {
                256
            }),
        decreases p@.len() - i,
    {
        let c = p[i];
        if !('0' <= c && c <= '9') {
            assert(d[i - start] == c && !is_digit(c));

            return None;
        }
        let digit: u32 = c as u32 - '0' as u32;
        proof {
            let sub = p@.subrange(start as int, i as int);
            assert(p@.subrange(start as int, i + 1).drop_last() =~= sub);
            lemma_capped_step(digits_value(sub), digit as nat);
        }
        value = if 10 * value + digit < 256 { 10 * value + digit } else { 256 };
        i = i + 1;
    }
    assert(p@.subrange(start as int, i as int) =~= d);
    if value <= 255 {
        Some(value as u8)
    } else {
        None
    }
}

impl Colour {
    /// Parse `r,g,b` (spaces anywhere are ignored), each field a byte value.
    pub fn parse(s: &str) -> (r: Result<Colour, String>)
        ensures
            fields(s@).len() != 3 ==> (r matches Err(e) && e@ == field_count_error(s@)),
            fields(s@).len() == 3 ==> match (parse_u8(fields(s@)[0]), parse_u8(fields(s@)[1]), parse_u8(fields(s@)[2])) {
                (Some(red), Some(green), Some(blue)) => r == Ok::<Colour, String>(Colour { r: red, g: green, b: blue }),
                _ => (r matches Err(e) && e@ == field_value_error(first_bad_field(fields(s@)))),
            },
    {
        let chars = char_vec(s);
        let parts = split_fields(&chars);
        if parts.len() != 3 {
            let mut e = String::from_str("Incorrect number of arguments in \"");
            e.append(s);
            e.append("\", string must be in format r,g,b to be parsed correctly");
            return Err(e);
        }
        let red = parse_field(&parts[0]);
        let green = parse_field(&parts[1]);
        let blue = parse_field(&parts[2]);
        match (red, green, blue) {
            (Some(r), Some(g), Some(b)) => Ok(Colour { r, g, b }),
            _ => {
                let bad = if red.is_none() {
                    &parts[0]
                } else if green.is_none() {
                    &parts[1]
                } else {
                    &parts[2]
                };
                let mut e = String::from_str("Could not parse part of argument \"");
                push_all(&mut e, bad);
                e.append("\", make sure it's a valid number");
                Err(e)
            },
        }
    }
}

impl core::str::FromStr for Colour {
    type Err = String;

    /// Parse `r,g,b`, as `Colour::parse` does.
    fn from_str(s: &str) -> Result<Colour, String> {
        Colour::parse(s)
    }
}

impl core::ops::Add for Colour {
    type Output = Colour;

    /// Channel-wise sum, wrapping around past 255.
    fn add(self, rhs: Colour) -> Colour {
        Colour { r: self.r.wrapping_add(rhs.r), g: self.g.wrapping_add(rhs.g), b: self.b.wrapping_add(rhs.b) }
    }
}

/// Channel-wise sum of two colours, each channel wrapping around past 255.
pub open spec fn wrapping_sum(a: Colour, b: Colour) -> Colour {
    Colour {
        r: ((a.r + b.r) % 256) as u8,
        g: ((a.g + b.g) % 256) as u8,
        b: ((a.b + b.b) % 256) as u8,
    }
}

impl vstd::std_specs::ops::AddSpecImpl for Colour {
    open spec fn obeys_add_spec() -> bool {
        true
    }

    open spec fn add_req(self, rhs: Colour) -> bool {
        true
    }

    open spec fn add_spec(self, rhs: Colour) -> Colour {
        wrapping_sum(self, rhs)
    }
}

impl core::ops::AddAssign for Colour {
    /// Channel-wise sum in place, wrapping around past 255.
    fn add_assign(&mut self, rhs: Colour) {
        *self = *self + rhs;
    }
}

} // verus!
