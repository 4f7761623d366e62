//! An RGBA colour value with 8-bit channels, its decimal text form and its
//! hue, saturation and lightness.

use vstd::prelude::*;

verus! {

/// Number of decimal digits kept by the hue, saturation and lightness values.
pub const PRECISION_VAL: u32 = 5;

/// A colour: red, green, blue and opacity, each in `0..=255`.
#[derive(Debug, PartialEq, Eq, Clone, Copy, Structural)]
pub struct Color {
    /// red: 0-255
    pub red: u8,
    /// green: 0-255
    pub green: u8,
    /// blue: 0-255
    pub blue: u8,
    /// opacity: 0-255
    pub opacity: u8,
}

/// Why a colour could not be built.
#[derive(Debug, PartialEq, Eq, Clone, Copy, Structural)]
pub enum ColorError {
    /// The text does not hold 3, 6 or 8 characters after its optional `#`.
    WrongSize,
    /// The text has the right size but holds a character that is no hexadecimal digit.
    InvalidDigit,
    /// The value is no text at all.
    NotText,
    /// The conversion is not implemented.
    NotImplemented,
}

impl Color {
    /// A colour from its four channels.
    ///
    /// If you are using solid colors, use [`Self::new_solid`].
    pub fn new(red: u8, green: u8, blue: u8, opacity: u8) -> (c: Self)
        ensures
            c == (Color { red, green, blue, opacity }),
    {
        Color { red, green, blue, opacity }
    }

    /// A fully opaque colour from its red, green and blue channels.
    pub fn new_solid(red: u8, green: u8, blue: u8) -> (c: Self)
        ensures
            c == (Color { red, green, blue, opacity: 255 }),
    {
        Color { red, green, blue, opacity: 255 }
    }

    /// The red, green and blue channels.
    pub fn rgb(&self) -> (t: (u8, u8, u8))
        ensures
            t == (self.red, self.green, self.blue),
    {
        (self.red, self.green, self.blue)
    }

    /// The four channels in the order red, green, blue, opacity.
    pub open spec fn channels(self) -> (u8, u8, u8, u8) {
        (self.red, self.green, self.blue, self.opacity)
    }

    /// The red, green, blue and opacity channels.
    pub fn rgba(&self) -> (t: (u8, u8, u8, u8))
        ensures
            t == self.channels(),
    {
        (self.red, self.green, self.blue, self.opacity)
    }

    /// A colour from its four channels; the same as [`Self::new`].
    pub fn from_rgba(red: u8, green: u8, blue: u8, alpha: u8) -> (c: Self)
        ensures
            c == (Color { red, green, blue, opacity: alpha }),
    {
        Color { red, green, blue, opacity: alpha }
    }

    /// A fully opaque colour; the same as [`Self::new_solid`].
    pub fn from_rgb(red: u8, green: u8, blue: u8) -> (c: Self)
        ensures
            c == (Color { red, green, blue, opacity: 255 }),
    {
        Color { red, green, blue, opacity: 255 }
    }

    /// The red channel, then the blue channel twice, in decimal and
    /// separated by `, `.
    pub fn str_rgb(&self) -> (text: String)
        ensures
            text@ == rgb_text(*self),
    {
        let mut text = String::new();
        push_decimal(&mut text, self.red);
        push_separator(&mut text);
        push_decimal(&mut text, self.blue);
        push_separator(&mut text);
        push_decimal(&mut text, self.blue);
        text
    }

    /// The text of [`Self::str_rgb`], then `, ` and the opacity in decimal.
    pub fn str_rgba(&self) -> (text: String)
        ensures
            text@ == rgb_text(*self) + separator() + decimal(self.opacity as nat),
    {
        let mut text = self.str_rgb();
        push_separator(&mut text);
        push_decimal(&mut text, self.opacity);
        text
    }

    /// The same colour, fully opaque.
    pub fn to_opaque(&self) -> (c: Self)
        ensures
            c == (Color { opacity: 255, ..*self }),
    {
        Color { red: self.red, green: self.green, blue: self.blue, opacity: 255 }
    }

    /// Building a colour from hue, saturation and lightness is not implemented:
    /// the call always fails.
    pub fn from_hsl() -> (r: Result<Self, ColorError>)
        ensures
            r == Err::<Color, ColorError>(ColorError::NotImplemented),
    {
        Err(ColorError::NotImplemented)
    }

    /// Building a colour from hue, saturation, lightness and opacity is not
    /// implemented: the call always fails.
    pub fn from_hsla() -> (r: Result<Self, ColorError>)
        ensures
            r == Err::<Color, ColorError>(ColorError::NotImplemented),
    {
        Err(ColorError::NotImplemented)
    }
}

/// Whatever four channels a colour is made of, it gives them back.
pub proof fn law_channels_of_new(red: u8, green: u8, blue: u8, opacity: u8)
    ensures
        (Color { red, green, blue, opacity }).channels() == (red, green, blue, opacity),
{
}

/// The character of a decimal digit.
pub open spec fn digit_char(d: nat) -> char
    recommends
        d < 10,
{
    ('0' as u8 + d) as char
}

/// A number in decimal, without leading zeros.
pub open spec fn decimal(n: nat) -> Seq<char>
    decreases n,
{
    if n < 10 {
        seq![digit_char(n)]
    } else {
        decimal(n / 10).push(digit_char(n % 10))
    }
}

/// What stands between two channels in a text: a comma and a space.
pub open spec fn separator() -> Seq<char> {
    seq![',', ' ']
}

/// The text of the red channel, then of the blue channel twice.
pub open spec fn rgb_text(c: Color) -> Seq<char> {
    decimal(c.red as nat) + separator() + decimal(c.blue as nat) + separator() + decimal(
        c.blue as nat,
    )
}

fn digit(d: u8) -> (c: char)
    requires
        d < 10,
    ensures
        c == digit_char(d as nat),
{
    (0x30u8 + d) as char
}

fn push_decimal(text: &mut String, v: u8)
    ensures
        final(text)@ == old(text)@ + decimal(v as nat),
{
    proof {
        reveal_with_fuel(decimal, 3);
    }
    if v >= 100 {
        text.push(digit(v / 100));
    }
    if v >= 10 {
        text.push(digit((v / 10) % 10));
    }
    text.push(digit(v % 10));
}

fn push_separator(text: &mut String)
    ensures
        final(text)@ == old(text)@ + separator(),
{
    text.push(',');
    text.push(' ');
}

/// Ten to the power `n`.
pub open spec fn pow10(n: nat) -> nat
    decreases n,
{
    if n == 0 {
        1
    } else {
        10 * pow10((n - 1) as nat)
    }
}

/// How many parts a degree of hue, or the whole of saturation, lightness and
/// opacity, is divided into: ten to the power [`PRECISION_VAL`].
pub open spec fn scale() -> int {
    pow10(PRECISION_VAL as nat) as int
}

/// The integer nearest to `numerator / denominator`, a half going up.
pub open spec fn rounded(numerator: int, denominator: int) -> int
    recommends
        denominator > 0,
{
    (2 * numerator + denominator) / (2 * denominator)
}

impl Color {
    /// The largest of the red, green and blue channels.
    pub open spec fn cmax(self) -> int {
        if self.red >= self.green && self.red >= self.blue {
            self.red as int
        } else if self.green >= self.blue {
            self.green as int
        } else {
            self.blue as int
        }
    }

    /// The smallest of the red, green and blue channels.
    pub open spec fn cmin(self) -> int {
        if self.red <= self.green && self.red <= self.blue {
            self.red as int
        } else if self.green <= self.blue {
            self.green as int
        } else {
            self.blue as int
        }
    }

    /// The spread of the channels.
    pub open spec fn delta(self) -> int {
        self.cmax() - self.cmin()
    }

    /// The hue in degrees, times the spread of the channels. With the
    /// channels as fractions of 255 the hue is `60 * (((g - b) / delta) mod 6)`
    /// where red is the largest, 360 more where that is negative;
    /// `60 * ((b - r) / delta + 2)` where green is; `60 * ((r - g) / delta + 4)`
    /// where blue is. The first of these that applies is taken. A quotient
    /// of two differences of channels is the same for the channels as for
    /// their fractions of 255, and it lies between -1 and 1, so that taking
    /// it modulo 6 leaves it as it is.
    pub open spec fn hue_by_delta(self) -> int {
        let (r, g, b) = (self.red as int, self.green as int, self.blue as int);
        if self.cmax() == r {
            if g >= b {
                60 * (g - b)
            } else {
                60 * (g - b) + 360 * self.delta()
            }
        } else if self.cmax() == g {
            60 * (b - r) + 120 * self.delta()
        } else {
            60 * (r - g) + 240 * self.delta()
        }
    }

    /// The hue in parts of a degree: 0 for a grey, else the hue rounded to
    /// the nearest part.
    pub open spec fn hue_parts(self) -> int {
        if self.delta() == 0 {
            0
        } else {
            rounded(scale() * self.hue_by_delta(), self.delta())
        }
    }

    /// The lightness, `(cmax + cmin) / 2` of the channels as fractions of
    /// 255, in parts of the whole.
    pub open spec fn lightness_parts(self) -> int {
        rounded(scale() * (self.cmax() + self.cmin()), 510)
    }

    /// `1 - |2 * lightness - 1|` of the channels as fractions of 255, times
    /// 255: the lightness before it is rounded is `(cmax + cmin) / 510`.
    pub open spec fn chroma_range(self) -> int {
        let sum = self.cmax() + self.cmin();
        if sum <= 255 {
            sum
        } else {
            510 - sum
        }
    }

    /// The saturation in parts of the whole: 0 for a grey, else
    /// `delta / (1 - |2 * lightness - 1|)` of the channels as fractions of 255.
    pub open spec fn saturation_parts(self) -> int {
        if self.delta() == 0 {
            0
        } else {
            rounded(scale() * self.delta(), self.chroma_range())
        }
    }

    /// The opacity as a fraction of 255, in parts of the whole.
    pub open spec fn opacity_parts(self) -> int {
        rounded(scale() * self.opacity, 255)
    }
}

/// The scale is a hundred thousand.
pub proof fn lemma_scale()
    ensures
        scale() == 100_000,
{
    reveal_with_fuel(pow10, 6);
}

/// `numerator / denominator` rounded to `n` decimal digits, as a count of
/// units of the last digit.
fn round_to(numerator: u64, denominator: u64, n: u32) -> (parts: u64)
    requires
        0 < denominator <= 510,
        numerator <= 100_000,
        n <= 5,
    ensures
        parts == rounded(pow10(n as nat) * numerator, denominator as int),
{
    let mut precision: u64 = 1;
    let mut i: u32 = 0;
    while i < n
        invariant
            i <= n <= 5,
            precision == pow10(i as nat),
            precision <= 100_000,
        decreases n - i,
    {
        proof {
            reveal_with_fuel(pow10, 6);
        }
        precision = precision * 10;
        i = i + 1;
    }
    assert(precision * numerator <= 100_000 * 100_000) by (nonlinear_arith)
        requires
            precision <= 100_000,
            numerator <= 100_000,
    ;
    (2 * (precision * numerator) + denominator) / (2 * denominator)
}

impl Color {
    /// Hue, saturation and lightness, each rounded to [`PRECISION_VAL`]
    /// decimal digits and given as a count of units of the last digit: the
    /// hue in hundred-thousandths of a degree, below 360 degrees; saturation
    /// and lightness in hundred-thousandths, at most one whole.
    pub fn hsl(&self) -> (t: (u32, u32, u32))
        ensures
            t.0 == self.hue_parts(),
            t.1 == self.saturation_parts(),
            t.2 == self.lightness_parts(),
            t.0 < 360 * scale(),
            t.1 <= scale(),
            t.2 <= scale(),
    {
        let r = self.red as u64;
        let g = self.green as u64;
        let b = self.blue as u64;
        let cmax = if r >= g && r >= b {
            r
        } else if g >= b {
            g
        } else {
            b
        };
        let cmin = if r <= g && r <= b {
            r
        } else if g <= b {
            g
        } else {
            b
        };
        let delta = cmax - cmin;
        proof {
            lemma_scale();
            self.lemma_parts_in_range();
        }
        let hue = if delta == 0 {
            0
        } else if cmax == r {
            if g >= b {
                round_to(60 * (g - b), delta, PRECISION_VAL)
            } else {
                round_to(360 * delta - 60 * (b - g), delta, PRECISION_VAL)
            }
        } else if cmax == g {
            round_to(120 * delta + 60 * b - 60 * r, delta, PRECISION_VAL)
        } else {
            round_to(240 * delta + 60 * r - 60 * g, delta, PRECISION_VAL)
        };
        let lightness = round_to(cmax + cmin, 510, PRECISION_VAL);
        let sat = if delta == 0 {
            0
        } else if cmax + cmin <= 255 {
            round_to(delta, cmax + cmin, PRECISION_VAL)
        } else {
            round_to(delta, 510 - (cmax + cmin), PRECISION_VAL)
        };
        (hue as u32, sat as u32, lightness as u32)
    }

    /// Hue, saturation and lightness as [`Self::hsl`] gives them, and the
    /// opacity as a fraction of 255, in hundred-thousandths.
    pub fn hsla(&self) -> (t: (u32, u32, u32, u32))
        ensures
            t.0 == self.hue_parts(),
            t.1 == self.saturation_parts(),
            t.2 == self.lightness_parts(),
            t.3 == self.opacity_parts(),
            t.3 <= scale(),
    {
        let (h, s, l) = self.hsl();
        proof {
            lemma_scale();
            self.lemma_parts_in_range();
        }
        let a = round_to(self.opacity as u64, 255, PRECISION_VAL);
        (h, s, l, a as u32)
    }

    /// The hue lies in `[0, 360)` degrees; saturation, lightness and opacity
    /// in `[0, 1]`.
    pub proof fn lemma_parts_in_range(self)
        ensures
            0 <= self.hue_parts() < 360 * scale(),
            0 <= self.saturation_parts() <= scale(),
            0 <= self.lightness_parts() <= scale(),
            0 <= self.opacity_parts() <= scale(),
    {
        lemma_scale();
        let d = self.delta();
        let sum = self.cmax() + self.cmin();
        if d != 0 {
            let hn = self.hue_by_delta();
            lemma_rounded_bounds(100_000 * hn, d, 36_000_000 - 1);
            let m = self.chroma_range();
            lemma_rounded_bounds(100_000 * d, m, 100_000);
        }
        lemma_rounded_bounds(100_000 * sum, 510, 100_000);
        lemma_rounded_bounds(100_000 * self.opacity, 255, 100_000);
    }
}

/// A quotient that is at most `limit` rounds to at most `limit`.
proof fn lemma_rounded_bounds(numerator: int, denominator: int, limit: int)
    requires
        0 <= numerator,
        0 < denominator,
        2 * numerator + denominator < 2 * denominator * (limit + 1),
    ensures
        0 <= rounded(numerator, denominator) <= limit,
{
    let a = 2 * numerator + denominator;
    let d = 2 * denominator;
    assert(0 <= a / d <= limit) by (nonlinear_arith)
        requires
            0 <= a < d * (limit + 1),
            0 < d,
    ;
}

} // verus!
