//! Configuration: what the command line may ask for.
//!
//! Sizes and colour components are single-precision floats, held as their bits.

use vstd::arithmetic::power2::pow2;
use vstd::prelude::*;

use crate::float_bits::{
    finite, float_eq, float_lt, in_unit_interval, is_nan, is_nonnegative_finite,
    is_positive_finite, lt, nan, ZERO,
};
use crate::text::{quote, quoted};

verus! {

/// The command line, as it was given.
#[derive(Debug, Clone)]
pub struct Cli {
    /// Laser colour, in CSS syntax.
    pub color: String,
    /// Radius of the head dot, in pixels.
    pub dot_radius: u32,
    /// Half-width of the streak at its tail, in pixels.
    pub tail_half_width: u32,
    /// How long the trail lasts, in milliseconds.
    pub trail_ms: u64,
    /// Whether to leave the system cursor visible.
    pub keep_cursor: bool,
}

/// Red, green, blue and alpha.
pub type Rgba = (u32, u32, u32, u32);

/// A configuration that was checked.
#[derive(Debug, Clone, Copy)]
pub struct LaserConfig {
    /// Red, green and blue of the laser, sRGB-encoded.
    pub color: (u32, u32, u32),
    /// Radius of the head dot, in pixels.
    pub dot_radius: u32,
    /// Half-width of the streak at its tail, in pixels.
    pub tail_half_width: u32,
    /// How long the trail lasts, in nanoseconds.
    pub trail_duration: u128,
    /// Whether to hide the system cursor.
    pub hide_cursor: bool,
}

/// Why a command line is refused.
#[derive(Debug, Clone)]
pub enum ConfigError {
    /// The colour cannot be read, for the reason given.
    Color(String),
    /// The dot radius is not a finite number above zero.
    DotRadius,
    /// The tail half-width is not a finite number from zero on.
    TailHalfWidth,
    /// The trail lasts no time at all.
    TrailMs,
}

impl ConfigError {
    /// What the user is told, given the colour on the command line and the size at
    /// fault as it is printed.
    pub open spec fn text(self, color: Seq<char>, size: Seq<char>) -> Seq<char> {
        match self {
            ConfigError::Color(reason) => "invalid --color "@ + quoted(color) + ": "@ + reason@,
            ConfigError::DotRadius => "--dot-radius must be > 0, got "@ + size,
            ConfigError::TailHalfWidth => "--tail-half-width must be >= 0, got "@ + size,
            ConfigError::TrailMs => "--trail-ms must be > 0"@,
        }
    }

    /// What the user is told, given the colour on the command line and the size at
    /// fault as it is printed.
    pub fn message(&self, color: &str, size: &str) -> (r: String)
        ensures
            r@ == self.text(color@, size@),
    {
        match self {
            ConfigError::Color(reason) => "invalid --color ".to_owned().concat(
                quote(color).as_str(),
            ).concat(": ").concat(reason.as_str()),
            ConfigError::DotRadius => "--dot-radius must be > 0, got ".to_owned().concat(size),
            ConfigError::TailHalfWidth => "--tail-half-width must be >= 0, got ".to_owned().concat(
                size,
            ),
            ConfigError::TrailMs => "--trail-ms must be > 0".to_owned(),
        }
    }
}

/// `c` as a small letter, if it is an ASCII capital.
pub open spec fn ascii_lower(c: char) -> char {
    if 'A' <= c <= 'Z' {
        (c as u32 + 32) as char
    } else {
        c
    }
}

/// Whether `word` stands in `text` at `at`, small and capital letters alike.
pub open spec fn word_at(text: Seq<char>, word: Seq<char>, at: int) -> bool {
    &&& 0 <= at <= text.len() - word.len()
    &&& forall|i: int| 0 <= i < word.len() ==> ascii_lower(#[trigger] text[at + i]) == word[i]
}

/// Whether `word` stands anywhere in `text`.
pub open spec fn has_word(text: Seq<char>, word: Seq<char>) -> bool {
    exists|at: int| word_at(text, word, at)
}

/// Whether `text` has a minus sign right in front of a digit or a point.
pub open spec fn has_signed_number(text: Seq<char>) -> bool {
    exists|at: int| is_signed_number_at(text, at)
}

/// Whether a minus sign stands in `text` at `at`, in front of a digit or a point.
pub open spec fn is_signed_number_at(text: Seq<char>, at: int) -> bool {
    &&& 0 <= at < text.len() - 1
    &&& text[at] == '-'
    &&& '0' <= text[at + 1] <= '9' || text[at + 1] == '.'
}

/// Whether `text` has an angle in radians.
pub open spec fn has_radians(text: Seq<char>) -> bool {
    exists|at: int| is_radians_at(text, at)
}

/// Whether `rad` stands in `text` at `at`, and not as the end of `grad`.
pub open spec fn is_radians_at(text: Seq<char>, at: int) -> bool {
    &&& word_at(text, seq!['r', 'a', 'd'], at)
    &&& at == 0 || ascii_lower(text[at - 1]) != 'g'
}

/// Whether reading `text` as a colour takes nothing but elementary arithmetic,
/// which gives the same numbers everywhere: it neither converts from a Lab space,
/// which takes powers and roots, nor from radians, nor derives one colour from
/// another.
pub open spec fn is_elementary(text: Seq<char>) -> bool {
    &&& !has_word(text, seq!['l', 'a', 'b'])
    &&& !has_word(text, seq!['l', 'c', 'h'])
    &&& !has_radians(text)
    &&& !has_word(text, seq!['f', 'r', 'o', 'm'])
}

/// Whether reading `text` as a colour gives the same bits everywhere: it is
/// elementary, and no number in it can be a negative zero, whose sign clamping may
/// keep or drop.
pub open spec fn is_reproducible(text: Seq<char>) -> bool {
    is_elementary(text) && !has_signed_number(text)
}

/// Whether a component is what reading a colour can give: in the unit interval,
/// or no number.
pub open spec fn is_component(bits: u32) -> bool {
    in_unit_interval(bits) || is_nan(bits)
}

/// Whether `c` is a hexadecimal digit.
pub open spec fn is_hex_digit(c: char) -> bool {
    '0' <= c <= '9' || 'a' <= c <= 'f' || 'A' <= c <= 'F'
}

/// Number that a hexadecimal digit stands for.
pub open spec fn hex_digit(c: char) -> int {
    if c <= '9' {
        c as int - '0' as int
    } else if c <= 'F' {
        c as int - 'A' as int + 10
    } else {
        c as int - 'a' as int + 10
    }
}

/// The digits of a hexadecimal colour: what follows the hash, if there is one.
pub open spec fn hex_digits(text: Seq<char>) -> Seq<char> {
    if text.len() > 0 && text[0] == '#' {
        text.subrange(1, text.len() as int)
    } else {
        text
    }
}

/// Whether `text` is a hexadecimal colour: three or six digits, or four or eight
/// with an alpha, behind an optional hash.
pub open spec fn is_hex_color(text: Seq<char>) -> bool {
    let n = hex_digits(text).len();
    &&& n == 3 || n == 4 || n == 6 || n == 8
    &&& forall|i: int| 0 <= i < n ==> is_hex_digit(#[trigger] hex_digits(text)[i])
}

/// Component `i` of a hexadecimal colour, from 0 to 255: two digits, or one that
/// stands for itself twice.
pub open spec fn hex_byte(text: Seq<char>, i: int) -> int {
    let digits = hex_digits(text);
    if digits.len() < 6 {
        17 * hex_digit(digits[i])
    } else {
        16 * hex_digit(digits[2 * i]) + hex_digit(digits[2 * i + 1])
    }
}

/// Whether a float is a nearest one to `n / 255`.
///
/// Above zero such a float stands for `m * 2^(k - 31)`, with a significand `m` of
/// 24 bits and a `k` in `0..=8`.
pub open spec fn is_255th(bits: u32, n: int) -> bool {
    if n == 0 {
        bits == 0
    } else {
        let m = 0x80_0000 + bits as int % 0x80_0000;
        let k = bits as int / 0x80_0000 - 119;
        let unit = 255 * pow2(k as nat);
        &&& 0 <= k <= 8
        &&& -unit <= 2 * (m * unit - n * 0x8000_0000) <= unit
    }
}

/// What a colour reads as, components first to last, or why it cannot be read.
/// Only texts that are [elementary](is_elementary) have such a result, and the sign
/// of a zero in it counts for those that are [reproducible](is_reproducible) only.
pub uninterp spec fn css_color(text: Seq<char>) -> Result<(u32, u32, u32, u32), Seq<char>>;

/// Whether reading `text` as a colour can have the outcome `outcome`, on whatever
/// machine it is read.
pub uninterp spec fn css_may_read(
    text: Seq<char>,
    outcome: Result<(u32, u32, u32, u32), Seq<char>>,
) -> bool;

/// The outcome of reading a colour, an error being the characters of its reason.
pub open spec fn reading(parsed: Result<Rgba, String>) -> Result<(u32, u32, u32, u32), Seq<char>> {
    match parsed {
        Ok(c) => Ok(c),
        Err(reason) => Err(reason@),
    }
}

/// Whether two outcomes of reading a colour are the same: the same numbers, where
/// the sign of a zero does not count, or the same reason.
pub open spec fn same_reading(
    a: Result<(u32, u32, u32, u32), Seq<char>>,
    b: Result<(u32, u32, u32, u32), Seq<char>>,
) -> bool {
    match (a, b) {
        (Ok(c), Ok(d)) => float_eq(c.0, d.0) && float_eq(c.1, d.1) && float_eq(c.2, d.2)
            && float_eq(c.3, d.3),
        (Err(why), Err(reason)) => why == reason,
        _ => false,
    }
}

/// Reads a colour with `csscolorparser::parse`, takes its components with
/// `Color::to_array`, and the text of an error with its `Display`.
///
/// Claimed: the outcome is one that this very text can have. The components lie in
/// the unit interval, into which `to_array` clamps them, or are no numbers, which
/// clamping lets pass. For an elementary text every component is a number, and the
/// outcome depends on the text alone but for the sign of a zero; for a reproducible
/// one that sign does too. A hexadecimal colour is always read, each component as
/// its 255th. Left unsaid: what else of the grammar of CSS colours can be read, and
/// as what; and, of a text that is not elementary, anything more, since the powers
/// and roots in it may differ from machine to machine.
#[verifier::external_body]
fn parse_color(text: &str) -> (r: Result<Rgba, String>)
    ensures
        r matches Ok(c) ==> is_component(c.0) && is_component(c.1) && is_component(c.2)
            && is_component(c.3),
        css_may_read(text@, reading(r)),
        is_elementary(text@) ==> same_reading(css_color(text@), reading(r)),
        is_reproducible(text@) ==> css_color(text@) == reading(r),
        is_hex_color(text@) ==> r is Ok && is_255th(r->Ok_0.0, hex_byte(text@, 0)) && is_255th(
            r->Ok_0.1,
            hex_byte(text@, 1),
        ) && is_255th(r->Ok_0.2, hex_byte(text@, 2)),
{
    match csscolorparser::parse(text) {
        Ok(color) => {
            let [r, g, b, a] = color.to_array();
            Ok((r.to_bits(), g.to_bits(), b.to_bits(), a.to_bits()))
        },
        Err(error) => Err(error.to_string()),
    }
}

/// The outcome that a command line has, given what its colour reads as. The
/// colour is looked at first, then the sizes, then the time.
pub open spec fn is_outcome(
    cli: Cli,
    parsed: Result<(u32, u32, u32, u32), Seq<char>>,
    r: Result<LaserConfig, ConfigError>,
) -> bool {
    match parsed {
        Err(reason) => r matches Err(ConfigError::Color(told)) && told@ == reason,
        Ok(c) => if !is_positive_finite(cli.dot_radius) {
            r == Err::<LaserConfig, ConfigError>(ConfigError::DotRadius)
        } else if !is_nonnegative_finite(cli.tail_half_width) {
            r == Err::<LaserConfig, ConfigError>(ConfigError::TailHalfWidth)
        } else if cli.trail_ms == 0 {
            r == Err::<LaserConfig, ConfigError>(ConfigError::TrailMs)
        } else {
            r == Ok::<LaserConfig, ConfigError>(
                LaserConfig {
                    color: (c.0, c.1, c.2),
                    dot_radius: cli.dot_radius,
                    tail_half_width: cli.tail_half_width,
                    trail_duration: (cli.trail_ms * 1_000_000) as u128,
                    hide_cursor: !cli.keep_cursor,
                },
            )
        },
    }
}

/// Whether a configuration is one that the overlay can run with.
pub open spec fn is_valid(config: LaserConfig) -> bool {
    &&& is_component(config.color.0)
    &&& is_component(config.color.1)
    &&& is_component(config.color.2)
    &&& is_positive_finite(config.dot_radius)
    &&& is_nonnegative_finite(config.tail_half_width)
    &&& config.trail_duration >= 1_000_000
}

impl LaserConfig {
    /// Checks a command line whose colour reads as `parsed`.
    pub fn with_color(cli: &Cli, parsed: Result<Rgba, String>) -> (r: Result<Self, ConfigError>)
        ensures
            is_outcome(*cli, reading(parsed), r),
            r is Ok <==> parsed is Ok && 0 < cli.dot_radius < 0x7f80_0000u32 && (
            cli.tail_half_width < 0x7f80_0000u32 || cli.tail_half_width == 0x8000_0000u32)
                && cli.trail_ms > 0,
            r matches Ok(config) ==> {
                &&& config.color == ((parsed->Ok_0).0, (parsed->Ok_0).1, (parsed->Ok_0).2)
                &&& config.dot_radius == cli.dot_radius
                &&& config.tail_half_width == cli.tail_half_width
                &&& config.trail_duration == cli.trail_ms * 1_000_000
                &&& config.hide_cursor == !cli.keep_cursor
            },
    {
        let c: Rgba = match parsed {
            Ok(c) => c,
            Err(reason) => {
                return Err(ConfigError::Color(reason));
            },
        };
        if !lt(ZERO, cli.dot_radius) || !finite(cli.dot_radius) {
            return Err(ConfigError::DotRadius);
        }
        if lt(cli.tail_half_width, ZERO) || !finite(cli.tail_half_width) {
            return Err(ConfigError::TailHalfWidth);
        }
        if cli.trail_ms == 0 {
            return Err(ConfigError::TrailMs);
        }
        Ok(
            LaserConfig {
                color: (c.0, c.1, c.2),
                dot_radius: cli.dot_radius,
                tail_half_width: cli.tail_half_width,
                trail_duration: cli.trail_ms as u128 * 1_000_000,
                hide_cursor: !cli.keep_cursor,
            },
        )
    }

    /// Checks a command line.
    pub fn from_cli(cli: &Cli) -> (r: Result<Self, ConfigError>)
        ensures
            is_reproducible(cli.color@) ==> is_outcome(*cli, css_color(cli.color@), r),
            exists|parsed: Result<Rgba, String>|
                is_outcome(*cli, #[trigger] reading(parsed), r) && css_may_read(
                    cli.color@,
                    reading(parsed),
                ) && (is_elementary(cli.color@) ==> same_reading(
                    css_color(cli.color@),
                    reading(parsed),
                )),
            is_hex_color(cli.color@) ==> !(r matches Err(ConfigError::Color(_))),
            r matches Ok(config) ==> (is_elementary(cli.color@) ==> in_unit_interval(
                config.color.0,
            ) && in_unit_interval(config.color.1) && in_unit_interval(config.color.2)),
            r matches Ok(config) ==> is_valid(config) && (is_hex_color(cli.color@) ==> is_255th(
                config.color.0,
                hex_byte(cli.color@, 0),
            ) && is_255th(config.color.1, hex_byte(cli.color@, 1)) && is_255th(
                config.color.2,
                hex_byte(cli.color@, 2),
            )),
            r is Ok ==> 0 < cli.dot_radius < 0x7f80_0000u32 && (cli.tail_half_width < 0x7f80_0000u32
                || cli.tail_half_width == 0x8000_0000u32) && cli.trail_ms > 0,
            is_hex_color(cli.color@) && 0 < cli.dot_radius < 0x7f80_0000u32 && cli.tail_half_width
                < 0x7f80_0000u32 && cli.trail_ms > 0 ==> r is Ok,
            r matches Ok(config) ==> {
                &&& config.trail_duration / 1_000_000 == cli.trail_ms
                &&& config.trail_duration % 1_000_000 == 0
                &&& config.dot_radius == cli.dot_radius
                &&& config.tail_half_width == cli.tail_half_width
                &&& config.hide_cursor == !cli.keep_cursor
            },
    {
        let parsed: Result<Rgba, String> = parse_color(cli.color.as_str());
        let ghost read = parsed;
        let r: Result<Self, ConfigError> = Self::with_color(cli, parsed);
        assert(is_outcome(*cli, reading(read), r));
        r
    }
}

/// The two pieces of the sRGB transfer function.
#[derive(Debug, Clone, Copy, PartialEq, Eq, Structural)]
pub enum Segment {
    /// Near black, where light is proportional to the encoded component.
    Linear,
    /// Everywhere else, where it goes with a power of it.
    Power,
}

/// The encoded component up to which the transfer function is linear.
pub const LINEAR_END: u32 = 0x3d25_aee6;

/// The piece of the sRGB transfer function that an encoded component lies on.
pub fn srgb_segment(c: u32) -> (r: Segment)
    ensures
        r == (if !is_nan(c) && !float_lt(LINEAR_END, c) {
            Segment::Linear
        } else {
            Segment::Power
        }),
        r == Segment::Linear <==> c <= 0x3d25_aee6u32 || 0x8000_0000u32 <= c <= 0xff80_0000u32,
{
    if !nan(c) && !lt(LINEAR_END, c) {
        Segment::Linear
    } else {
        Segment::Power
    }
}

/// A command line is accepted where its colour can be read, its dot radius is a
/// finite number above zero, its tail half-width one from zero on, and its trail
/// lasts some time; and nowhere else. What is accepted is taken over as it was given:
/// the trail lasts the milliseconds that were asked for, and the cursor is hidden
/// unless it is to stay.
pub proof fn command_line_is_taken_as_given(
    cli: Cli,
    parsed: Result<(u32, u32, u32, u32), Seq<char>>,
    r: Result<LaserConfig, ConfigError>,
)
    requires
        is_outcome(cli, parsed, r),
    ensures
        r is Ok <==> parsed is Ok && 0 < cli.dot_radius < 0x7f80_0000u32 && (cli.tail_half_width
            < 0x7f80_0000u32 || cli.tail_half_width == 0x8000_0000u32) && cli.trail_ms > 0,
        r matches Ok(config) ==> {
            &&& config.trail_duration / 1_000_000 == cli.trail_ms
            &&& config.trail_duration % 1_000_000 == 0
            &&& config.color.0 == (parsed->Ok_0).0
            &&& config.color.1 == (parsed->Ok_0).1
            &&& config.color.2 == (parsed->Ok_0).2
            &&& config.dot_radius == cli.dot_radius
            &&& config.tail_half_width == cli.tail_half_width
            &&& config.hide_cursor == !cli.keep_cursor
        },
{
}

/// A refusal names what is wrong, and the first thing that is wrong: the colour, the
/// dot radius, the tail half-width, the time.
pub proof fn refusals_name_the_first_fault(
    cli: Cli,
    parsed: Result<(u32, u32, u32, u32), Seq<char>>,
    r: Result<LaserConfig, ConfigError>,
)
    requires
        is_outcome(cli, parsed, r),
    ensures
        ({
            let radius = 0 < cli.dot_radius < 0x7f80_0000u32;
            let width = cli.tail_half_width < 0x7f80_0000u32 || cli.tail_half_width
                == 0x8000_0000u32;
            &&& parsed matches Err(reason) ==> r is Err && r->Err_0 is Color && r->Err_0->0@
                == reason
            &&& parsed is Ok && !radius ==> r is Err && r->Err_0 is DotRadius
            &&& parsed is Ok && radius && !width ==> r is Err && r->Err_0 is TailHalfWidth
            &&& parsed is Ok && radius && width && cli.trail_ms == 0 ==> r is Err
                && r->Err_0 is TrailMs
        }),
{
}

/// Two accepted command lines have trails as long as each other exactly where they
/// ask for the same time, and the one that asks for more has the longer one.
pub proof fn longer_trails_last_longer(
    a: Cli,
    b: Cli,
    parsed_a: Result<(u32, u32, u32, u32), Seq<char>>,
    parsed_b: Result<(u32, u32, u32, u32), Seq<char>>,
    ra: LaserConfig,
    rb: LaserConfig,
)
    requires
        is_outcome(a, parsed_a, Ok(ra)),
        is_outcome(b, parsed_b, Ok(rb)),
    ensures
        ra.trail_duration < rb.trail_duration <==> a.trail_ms < b.trail_ms,
        rb.trail_duration - ra.trail_duration == 1_000_000 * (b.trail_ms - a.trail_ms),
{
    command_line_is_taken_as_given(a, parsed_a, Ok(ra));
    command_line_is_taken_as_given(b, parsed_b, Ok(rb));
}

/// What the user is told holds the option that is at fault, and what was given for
/// it or the reason.
pub proof fn refusals_say_what_was_given(reason: String, color: Seq<char>, size: Seq<char>)
    ensures
        ConfigError::Color(reason).text(color, size) == "invalid --color "@ + quoted(color)
            + ": "@ + reason@,
        ConfigError::DotRadius.text(color, size) == "--dot-radius must be > 0, got "@ + size,
        ConfigError::TailHalfWidth.text(color, size) == "--tail-half-width must be >= 0, got "@
            + size,
        ConfigError::TrailMs.text(color, size) == "--trail-ms must be > 0"@,
{
}

/// What is read of a colour is handed on as it is.
pub proof fn readings_are_handed_on(parsed: Result<Rgba, String>)
    ensures
        parsed matches Ok(c) ==> reading(parsed) == Ok::<(u32, u32, u32, u32), Seq<char>>(c),
        parsed matches Err(reason) ==> reading(parsed) == Err::<(u32, u32, u32, u32), Seq<char>>(
            reason@,
        ),
{
}

} // verus!
