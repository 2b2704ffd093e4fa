//! What a frame is drawn with: the surface that is picked, the size of its
//! buffer, and the uniform that the shader reads.
//!
//! Every output has a renderer of its own; all of them draw the same trail, each
//! in its own coordinates. Floats are held as their bits. The program does the
//! arithmetic on them: it moves the trail into the pixels of the output, scales
//! the sizes and pads the bounds.

use vstd::prelude::*;

use crate::config::LaserConfig;
use crate::float_bits::{
    clamp, float_clamp, float_lt, float_max, float_min, in_unit_interval, is_finite, is_nan, max,
    min, INFINITY, NEG_INFINITY, ONE, ZERO,
};
use crate::scale::Scale;
use crate::trail::MAX_SAMPLES;

verus! {

/// Number of trail entries that the shader takes.
pub const TRAIL_SAMPLES: usize = MAX_SAMPLES;

/// Number of 32-bit words of the uniform.
pub const UNIFORM_WORDS: usize = 144;

/// A texture format, as far as the choice of one goes.
#[derive(Debug, Clone, Copy, PartialEq, Eq, Structural)]
pub enum Format {
    Bgra8UnormSrgb,
    Other,
}

/// A way to composite alpha, as far as the choice of one goes.
#[derive(Debug, Clone, Copy, PartialEq, Eq, Structural)]
pub enum AlphaMode {
    PreMultiplied,
    PostMultiplied,
    Other,
}

/// The format to draw in: the first `Bgra8UnormSrgb`, else the first of all.
pub fn pick_format(formats: &[Format]) -> (r: Option<usize>)
    ensures
        r is None <==> formats@.len() == 0,
        r matches Some(i) ==> {
            &&& i < formats@.len()
            &&& formats@.contains(Format::Bgra8UnormSrgb) ==> formats@[i as int]
                == Format::Bgra8UnormSrgb && forall|j: int|
                0 <= j < i ==> #[trigger] formats@[j] != Format::Bgra8UnormSrgb
            &&& !formats@.contains(Format::Bgra8UnormSrgb) ==> i == 0
        },
{
    let mut i: usize = 0;
    while i < formats.len()
        invariant
            i <= formats@.len(),
            forall|j: int| 0 <= j < i ==> #[trigger] formats@[j] != Format::Bgra8UnormSrgb,
        decreases formats@.len() - i,
    {
        if formats[i] == Format::Bgra8UnormSrgb {
            return Some(i);
        }
        i = i + 1;
    }
    if formats.len() == 0 {
        None
    } else {
        Some(0)
    }
}

/// Whether `mode` is among `modes`.
fn offers(modes: &[AlphaMode], mode: AlphaMode) -> (r: bool)
    ensures
        r == modes@.contains(mode),
{
    let mut i: usize = 0;
    while i < modes.len()
        invariant
            i <= modes@.len(),
            forall|j: int| 0 <= j < i ==> #[trigger] modes@[j] != mode,
        decreases modes@.len() - i,
    {
        if modes[i] == mode {
            return true;
        }
        i = i + 1;
    }
    false
}

/// The way to composite alpha: premultiplied if that is offered, else
/// postmultiplied. An overlay cannot do without either.
pub fn pick_alpha_mode(modes: &[AlphaMode]) -> (r: Option<AlphaMode>)
    ensures
        r == (if modes@.contains(AlphaMode::PreMultiplied) {
            Some(AlphaMode::PreMultiplied)
        } else if modes@.contains(AlphaMode::PostMultiplied) {
            Some(AlphaMode::PostMultiplied)
        } else {
            None
        }),
{
    if offers(modes, AlphaMode::PreMultiplied) {
        Some(AlphaMode::PreMultiplied)
    } else if offers(modes, AlphaMode::PostMultiplied) {
        Some(AlphaMode::PostMultiplied)
    } else {
        None
    }
}

/// A trail entry in the pixels of an output.
#[derive(Debug, Clone, Copy)]
pub struct TrailPoint {
    pub x: u32,
    pub y: u32,
    /// Age, as a share of the time that the trail lasts.
    pub age: u32,
}

/// A box around points.
#[derive(Debug, Clone, Copy)]
pub struct Bounds {
    pub min: (u32, u32),
    pub max: (u32, u32),
}

/// The points that the shader takes: the newest ones, as many as there is room
/// for.
pub open spec fn taken(points: Seq<TrailPoint>) -> Seq<TrailPoint> {
    if points.len() > TRAIL_SAMPLES {
        points.subrange(0, TRAIL_SAMPLES as int)
    } else {
        points
    }
}

/// The smallest box around points; nothing lies in the one around none.
pub open spec fn box_around(points: Seq<TrailPoint>) -> Bounds
    decreases points.len(),
{
    if points.len() == 0 {
        empty_box()
    } else {
        let rest = box_around(points.subrange(0, points.len() - 1));
        let last = points[points.len() - 1];
        Bounds {
            min: (float_min(rest.min.0, last.x), float_min(rest.min.1, last.y)),
            max: (float_max(rest.max.0, last.x), float_max(rest.max.1, last.y)),
        }
    }
}

/// The box whose ends have changed places: nothing lies in it.
pub open spec fn empty_box() -> Bounds {
    Bounds { min: (INFINITY, INFINITY), max: (NEG_INFINITY, NEG_INFINITY) }
}

/// The smallest box around the points that the shader takes.
pub fn trail_bounds(points: &[TrailPoint]) -> (r: Bounds)
    ensures
        r == box_around(taken(points@)),
{
    let mut out: Bounds = Bounds {
        min: (INFINITY, INFINITY),
        max: (NEG_INFINITY, NEG_INFINITY),
    };
    let n: usize = if points.len() > TRAIL_SAMPLES {
        TRAIL_SAMPLES
    } else {
        points.len()
    };
    let mut i: usize = 0;
    assert(points@.subrange(0, 0) =~= Seq::<TrailPoint>::empty());
    while i < n
        invariant
            i <= n <= points@.len(),
            out == box_around(points@.subrange(0, i as int)),
        decreases n - i,
    {
        let p: TrailPoint = points[i];
        let ghost upto = points@.subrange(0, i + 1);
        assert(upto.subrange(0, upto.len() - 1) =~= points@.subrange(0, i as int));
        out = Bounds {
            min: (min(out.min.0, p.x), min(out.min.1, p.y)),
            max: (max(out.max.0, p.x), max(out.max.1, p.y)),
        };
        i = i + 1;
    }
    assert(points@.subrange(0, n as int) =~= taken(points@));
    out
}

/// The numbers of a frame that take arithmetic on floats.
#[derive(Debug, Clone, Copy)]
pub struct Metrics {
    /// Width and height of the buffer.
    pub resolution: (u32, u32),
    /// Radius of the head dot, in pixels of the buffer.
    pub dot_radius: u32,
    /// Half-width of the tail, in pixels of the buffer.
    pub tail_half_width: u32,
    /// The box around the trail, padded by the dot radius and the soft edge.
    pub padded: Bounds,
}

/// What the shader reads.
#[derive(Debug, Clone, Copy)]
pub struct LaserUniform {
    pub resolution: (u32, u32),
    pub dot_radius: u32,
    pub edge_softness: u32,
    pub tail_half_width: u32,
    pub trail_len: u32,
    pub color: (u32, u32, u32, u32),
    /// A pixel outside these bounds is nowhere near the streak.
    pub trail_bounds: Bounds,
    /// Position and age of each entry, the newest first.
    pub trail: [TrailPoint; 32],
}

/// An entry as the shader takes it, with its age held in the unit interval.
pub open spec fn shown(p: TrailPoint) -> TrailPoint {
    TrailPoint { age: float_clamp(p.age, ZERO, ONE), ..p }
}

/// A slot of the trail that holds no entry.
pub open spec fn blank() -> TrailPoint {
    TrailPoint { x: ZERO, y: ZERO, age: ZERO }
}

/// The trail as the shader takes it: the entries, then blank slots.
pub open spec fn slots(points: Seq<TrailPoint>) -> Seq<TrailPoint> {
    Seq::new(
        TRAIL_SAMPLES as nat,
        |i: int|
            if i < points.len() {
                shown(points[i])
            } else {
                blank()
            },
    )
}

impl LaserUniform {
    /// The words of the uniform, in the order and with the padding that the
    /// shader declares.
    pub open spec fn layout(self) -> Seq<u32> {
        Seq::new(
            UNIFORM_WORDS as nat,
            |i: int|
                if i < 16 {
                    self.header()[i]
                } else {
                    self.slot_word((i - 16) / 4, (i - 16) % 4)
                },
        )
    }

    /// The word at an offset in bytes.
    pub open spec fn at_offset(self, offset: int) -> u32 {
        self.layout()[offset / 4]
    }

    /// The words in front of the trail.
    pub open spec fn header(self) -> Seq<u32> {
        seq![
            self.resolution.0,
            self.resolution.1,
            self.dot_radius,
            self.edge_softness,
            self.tail_half_width,
            0,
            self.trail_len,
            0,
            self.color.0,
            self.color.1,
            self.color.2,
            self.color.3,
            self.trail_bounds.min.0,
            self.trail_bounds.min.1,
            self.trail_bounds.max.0,
            self.trail_bounds.max.1,
        ]
    }

    /// Word `k` of trail entry `i`; the last of its four words is unused.
    pub open spec fn slot_word(self, i: int, k: int) -> u32 {
        if k == 0 {
            self.trail@[i].x
        } else if k == 1 {
            self.trail@[i].y
        } else if k == 2 {
            self.trail@[i].age
        } else {
            0
        }
    }

    /// The words of the uniform.
    pub fn words(&self) -> (r: [u32; 144])
        ensures
            r@ == self.layout(),
    {
        let mut words: [u32; 144] = [0; 144];
        words[0] = self.resolution.0;
        words[1] = self.resolution.1;
        words[2] = self.dot_radius;
        words[3] = self.edge_softness;
        words[4] = self.tail_half_width;
        words[6] = self.trail_len;
        words[8] = self.color.0;
        words[9] = self.color.1;
        words[10] = self.color.2;
        words[11] = self.color.3;
        words[12] = self.trail_bounds.min.0;
        words[13] = self.trail_bounds.min.1;
        words[14] = self.trail_bounds.max.0;
        words[15] = self.trail_bounds.max.1;
        let mut i: usize = 0;
        while i < 32
            invariant
                i <= 32,
                forall|j: int| 0 <= j < 16 ==> #[trigger] words@[j] == self.header()[j],
                forall|j: int|
                    16 <= j < 16 + 4 * i ==> #[trigger] words@[j] == self.slot_word(
                        (j - 16) / 4,
                        (j - 16) % 4,
                    ),
                forall|j: int| 16 + 4 * i <= j < 144 ==> #[trigger] words@[j] == 0,
            decreases 32 - i,
        {
            let p: TrailPoint = self.trail[i];
            words[16 + 4 * i] = p.x;
            words[17 + 4 * i] = p.y;
            words[18 + 4 * i] = p.age;
            i = i + 1;
        }
        assert(words@ =~= self.layout());
        words
    }

    /// The bytes of the uniform, in the byte order of the machine.
    pub fn bytes(&self) -> (r: Vec<u8>)
        ensures
            r@ == little_endian(self.layout()) || r@ == big_endian(self.layout()),
    {
        bytes_of_words(&self.words())
    }
}

/// Byte `k` of a word, counted from the least significant one.
pub open spec fn word_byte(word: u32, k: int) -> u8 {
    if k == 0 {
        (word % 0x100) as u8
    } else if k == 1 {
        (word / 0x100 % 0x100) as u8
    } else if k == 2 {
        (word / 0x1_0000 % 0x100) as u8
    } else {
        (word / 0x100_0000) as u8
    }
}

/// The bytes of words, the least significant byte of each first.
pub open spec fn little_endian(words: Seq<u32>) -> Seq<u8> {
    Seq::new(4 * words.len(), |i: int| word_byte(words[i / 4], i % 4))
}

/// The bytes of words, the most significant byte of each first.
pub open spec fn big_endian(words: Seq<u32>) -> Seq<u8> {
    Seq::new(4 * words.len(), |i: int| word_byte(words[i / 4], 3 - i % 4))
}

/// Reinterprets words as bytes with `bytemuck::bytes_of`, and copies them.
///
/// Claimed: the bytes of the words come in order, four to a word, and those of
/// every word in the byte order of the machine. Left unsaid: which of the two
/// byte orders that is, since it differs between machines.
#[verifier::external_body]
fn bytes_of_words(words: &[u32; 144]) -> (r: Vec<u8>)
    ensures
        r@ == little_endian(words@) || r@ == big_endian(words@),
{
    bytemuck::bytes_of(words).to_vec()
}

/// What a renderer knows of its output, and how it is to look.
#[derive(Debug, Clone, Copy)]
pub struct Renderer {
    /// Size of the buffer.
    pub width: u32,
    pub height: u32,
    /// Radius of the head dot, in logical pixels.
    pub dot_radius: u32,
    /// Half-width of the tail, in logical pixels.
    pub tail_half_width: u32,
    /// Red, green and blue, linear.
    pub color: (u32, u32, u32),
    /// Origin of the output in global logical coordinates.
    pub output_origin: (i32, i32),
    /// Scale of the output.
    pub scale: Scale,
}

impl Renderer {
    /// A buffer is never empty.
    pub open spec fn wf(self) -> bool {
        self.width > 0 && self.height > 0
    }

    /// A renderer for a buffer of the given size, at least one pixel each way.
    pub fn new(
        width: u32,
        height: u32,
        output_origin: (i32, i32),
        scale: Scale,
        config: &LaserConfig,
        color: (u32, u32, u32),
    ) -> (r: Self)
        ensures
            r.wf(),
            r == (Renderer {
                width: if width == 0 {
                    1
                } else {
                    width
                },
                height: if height == 0 {
                    1
                } else {
                    height
                },
                dot_radius: config.dot_radius,
                tail_half_width: config.tail_half_width,
                color,
                output_origin,
                scale,
            }),
    {
        Renderer {
            width: if width == 0 {
                1
            } else {
                width
            },
            height: if height == 0 {
                1
            } else {
                height
            },
            dot_radius: config.dot_radius,
            tail_half_width: config.tail_half_width,
            color,
            output_origin,
            scale,
        }
    }

    /// Takes in that the compositor moved the output.
    pub fn set_output_origin(&mut self, origin: (i32, i32))
        ensures
            *final(self) == (Renderer { output_origin: origin, ..*old(self) }),
    {
        self.output_origin = origin;
    }

    /// Takes in that the output has another scale.
    pub fn set_scale(&mut self, scale: Scale)
        ensures
            *final(self) == (Renderer { scale, ..*old(self) }),
    {
        self.scale = scale;
    }

    /// Takes in another size of the buffer, and tells whether the swapchain has
    /// to be set up for it. A size that is empty, or the one at hand, is no news.
    pub fn resize(&mut self, width: u32, height: u32) -> (r: bool)
        ensures
            r == (width > 0 && height > 0 && (width != old(self).width || height != old(
                self,
            ).height)),
            *final(self) == (if r {
                Renderer { width, height, ..*old(self) }
            } else {
                *old(self)
            }),
            old(self).wf() ==> final(self).wf(),
    {
        if width == 0 || height == 0 {
            return false;
        }
        if width == self.width && height == self.height {
            return false;
        }
        self.width = width;
        self.height = height;
        true
    }

    /// Builds the uniform of a frame that draws `points`, the newest first.
    ///
    /// The soft edge is one pixel of the buffer wide. Without points nothing is
    /// drawn, whatever the padded box says.
    pub fn build_uniform(&self, points: &[TrailPoint], metrics: &Metrics) -> (r: LaserUniform)
        ensures
            r.resolution == metrics.resolution,
            r.dot_radius == metrics.dot_radius,
            r.edge_softness == ONE,
            r.tail_half_width == metrics.tail_half_width,
            r.trail_len == taken(points@).len(),
            r.color == (self.color.0, self.color.1, self.color.2, ONE),
            r.trail_bounds == (if points@.len() == 0 {
                empty_box()
            } else {
                metrics.padded
            }),
            r.trail@ == slots(points@),
            r.edge_softness == 0x3f80_0000u32,
            r.color.3 == 0x3f80_0000u32,
            r.trail_len == (if points@.len() < 32 {
                points@.len()
            } else {
                32
            }),
            forall|i: int|
                0 <= i < r.trail_len ==> (#[trigger] r.trail@[i]).x == points@[i].x && r.trail@[i].y
                    == points@[i].y,
            points@.len() == 0 ==> r.trail_bounds.min == (0x7f80_0000u32, 0x7f80_0000u32)
                && r.trail_bounds.max == (0xff80_0000u32, 0xff80_0000u32),
    {
        let mut trail: [TrailPoint; 32] = [TrailPoint { x: ZERO, y: ZERO, age: ZERO }; 32];
        let mut count: usize = 0;
        while count < points.len() && count < TRAIL_SAMPLES
            invariant
                count <= points@.len(),
                count <= TRAIL_SAMPLES,
                forall|i: int| 0 <= i < count ==> #[trigger] trail@[i] == shown(points@[i]),
                forall|i: int| count <= i < TRAIL_SAMPLES ==> #[trigger] trail@[i] == blank(),
            decreases points@.len() - count,
        {
            let p: TrailPoint = points[count];
            trail[count] = TrailPoint { x: p.x, y: p.y, age: clamp(p.age, ZERO, ONE) };
            count = count + 1;
        }
        let bounds: Bounds = if count == 0 {
            Bounds { min: (INFINITY, INFINITY), max: (NEG_INFINITY, NEG_INFINITY) }
        } else {
            metrics.padded
        };
        assert(trail@ =~= slots(points@));
        LaserUniform {
            resolution: metrics.resolution,
            dot_radius: metrics.dot_radius,
            edge_softness: ONE,
            tail_half_width: metrics.tail_half_width,
            trail_len: count as u32,
            color: (self.color.0, self.color.1, self.color.2, ONE),
            trail_bounds: bounds,
            trail,
        }
    }
}

/// Whether a position lies in a box: no end is passed on either axis.
pub open spec fn inside(x: u32, y: u32, bounds: Bounds) -> bool {
    &&& !float_lt(x, bounds.min.0)
    &&& !float_lt(bounds.max.0, x)
    &&& !float_lt(y, bounds.min.1)
    &&& !float_lt(bounds.max.1, y)
}

/// The box around points holds every one of them, and its ends are numbers.
pub proof fn box_holds_points(points: Seq<TrailPoint>)
    ensures
        !is_nan(box_around(points).min.0),
        !is_nan(box_around(points).min.1),
        !is_nan(box_around(points).max.0),
        !is_nan(box_around(points).max.1),
        forall|i: int|
            0 <= i < points.len() ==> inside(
                (#[trigger] points[i]).x,
                points[i].y,
                box_around(points),
            ),
    decreases points.len(),
{
    if points.len() > 0 {
        let front = points.subrange(0, points.len() - 1);
        box_holds_points(front);
        assert forall|i: int| 0 <= i < points.len() implies inside(
            (#[trigger] points[i]).x,
            points[i].y,
            box_around(points),
        ) by {
            if i < points.len() - 1 {
                assert(points[i] == front[i]);
            }
        }
    }
}

/// The box around points is no larger than it has to be: wherever it is not
/// still open, each of its ends is a coordinate of one of them.
pub proof fn box_is_smallest(points: Seq<TrailPoint>)
    ensures
        box_around(points).min.0 == INFINITY || exists|i: int|
            0 <= i < points.len() && (#[trigger] points[i]).x == box_around(points).min.0,
        box_around(points).min.1 == INFINITY || exists|i: int|
            0 <= i < points.len() && (#[trigger] points[i]).y == box_around(points).min.1,
        box_around(points).max.0 == NEG_INFINITY || exists|i: int|
            0 <= i < points.len() && (#[trigger] points[i]).x == box_around(points).max.0,
        box_around(points).max.1 == NEG_INFINITY || exists|i: int|
            0 <= i < points.len() && (#[trigger] points[i]).y == box_around(points).max.1,
    decreases points.len(),
{
    if points.len() > 0 {
        let n = points.len() - 1;
        let front = points.subrange(0, n);
        box_is_smallest(front);
        assert(forall|i: int| 0 <= i < n ==> #[trigger] front[i] == points[i]);
        assert(points[n] == points[points.len() - 1]);
    }
}

/// No position lies in the box of an empty trail: the shader rejects every pixel
/// until there is something to draw.
pub proof fn empty_box_rejects_everything(x: u32, y: u32)
    requires
        !is_nan(x),
        !is_nan(y),
    ensures
        !inside(x, y, empty_box()),
{
}

/// The uniform is laid out as the shader declares it. Offsets are in bytes: 0
/// resolution, 8 dot radius, 12 edge softness, 16 tail half-width, 24 trail
/// length, 32 colour, 48 and 56 the ends of the bounds, 64 the trail with 16 for
/// each entry, 576 the end.
pub proof fn layout_has_declared_offsets(u: LaserUniform)
    ensures
        4 * u.layout().len() == 576,
        u.at_offset(0) == u.resolution.0,
        u.at_offset(4) == u.resolution.1,
        u.at_offset(8) == u.dot_radius,
        u.at_offset(12) == u.edge_softness,
        u.at_offset(16) == u.tail_half_width,
        u.at_offset(24) == u.trail_len,
        u.at_offset(32) == u.color.0,
        u.at_offset(36) == u.color.1,
        u.at_offset(40) == u.color.2,
        u.at_offset(44) == u.color.3,
        u.at_offset(48) == u.trail_bounds.min.0,
        u.at_offset(52) == u.trail_bounds.min.1,
        u.at_offset(56) == u.trail_bounds.max.0,
        u.at_offset(60) == u.trail_bounds.max.1,
        forall|i: int|
            0 <= i < TRAIL_SAMPLES ==> (#[trigger] u.trail@[i]).x == u.at_offset(64 + 16 * i)
                && u.trail@[i].y == u.at_offset(68 + 16 * i) && u.trail@[i].age
                == u.at_offset(72 + 16 * i),
{
}

/// Every age that the shader gets lies in the unit interval, or is no number
/// where the age that was put in is none.
pub proof fn ages_are_shares(points: Seq<TrailPoint>, i: int)
    requires
        0 <= i < TRAIL_SAMPLES,
    ensures
        in_unit_interval(slots(points)[i].age) || i < points.len() && is_nan(points[i].age),
{
}

/// Every entry that there is room for is shown where it is, wherever that is, so
/// that a streak comes in across the edge of an output: only an age may change, and
/// only where it lies outside the unit interval. The slots behind are blank.
pub proof fn entries_are_shown_where_they_are(points: Seq<TrailPoint>, i: int)
    requires
        0 <= i < 32,
    ensures
        slots(points).len() == 32,
        i < points.len() ==> {
            let slot = slots(points)[i];
            let age = points[i].age;
            &&& slot.x == points[i].x
            &&& slot.y == points[i].y
            &&& age <= 0x3f80_0000u32 ==> slot.age == age
            &&& 0x3f80_0000u32 < age <= 0x7f80_0000u32 ==> slot.age == 0x3f80_0000u32
            &&& 0x8000_0000u32 < age <= 0xff80_0000u32 ==> slot.age == 0
            &&& !float_lt(age, 0) && !float_lt(0x3f80_0000, age) ==> slot.age == age
        },
        i >= points.len() ==> slots(points)[i].x == 0 && slots(points)[i].y == 0 && slots(
            points,
        )[i].age == 0,
{
}

/// The newest entries are taken, as many as there is room for, none left out and
/// none moved.
pub proof fn newest_entries_are_taken(points: Seq<TrailPoint>)
    ensures
        taken(points).len() == (if points.len() < 32 {
            points.len()
        } else {
            32
        }),
        forall|i: int| 0 <= i < taken(points).len() ==> #[trigger] taken(points)[i] == points[i],
{
}

/// On either axis, no point lies beyond the box around all of them, and wherever
/// one of them is a number that is not infinite, each end of the box is a coordinate
/// of one of them.
pub proof fn box_fits_the_points(points: Seq<TrailPoint>, i: int)
    requires
        0 <= i < points.len(),
    ensures
        ({
            let b = box_around(points);
            let p = points[i];
            &&& !float_lt(p.x, b.min.0) && !float_lt(b.max.0, p.x)
            &&& !float_lt(p.y, b.min.1) && !float_lt(b.max.1, p.y)
            &&& is_finite(p.x) ==> {
                &&& exists|j: int| 0 <= j < points.len() && (#[trigger] points[j]).x == b.min.0
                &&& exists|j: int| 0 <= j < points.len() && (#[trigger] points[j]).x == b.max.0
            }
            &&& is_finite(p.y) ==> {
                &&& exists|j: int| 0 <= j < points.len() && (#[trigger] points[j]).y == b.min.1
                &&& exists|j: int| 0 <= j < points.len() && (#[trigger] points[j]).y == b.max.1
            }
        }),
{
    box_holds_points(points);
    box_is_smallest(points);
    assert(inside(points[i].x, points[i].y, box_around(points)));
}

/// The box around no points runs from positive to negative infinity.
pub proof fn no_points_have_no_box(bounds: Bounds)
    ensures
        box_around(Seq::<TrailPoint>::empty()) == empty_box(),
        bounds == empty_box() <==> bounds.min == (0x7f80_0000u32, 0x7f80_0000u32) && bounds.max
            == (0xff80_0000u32, 0xff80_0000u32),
{
}

/// The words of the uniform are its fields, in the order that the shader declares
/// them, with a blank word wherever it declares padding.
pub proof fn words_are_the_fields_in_order(u: LaserUniform)
    ensures
        ({
            let w = u.layout();
            &&& w.len() == 144
            &&& w[0] == u.resolution.0 && w[1] == u.resolution.1
            &&& w[2] == u.dot_radius && w[3] == u.edge_softness
            &&& w[4] == u.tail_half_width && w[5] == 0
            &&& w[6] == u.trail_len && w[7] == 0
            &&& w[8] == u.color.0 && w[9] == u.color.1
            &&& w[10] == u.color.2 && w[11] == u.color.3
            &&& w[12] == u.trail_bounds.min.0 && w[13] == u.trail_bounds.min.1
            &&& w[14] == u.trail_bounds.max.0 && w[15] == u.trail_bounds.max.1
            &&& forall|i: int|
                0 <= i < 32 ==> {
                    &&& (#[trigger] u.trail@[i]).x == w[16 + 4 * i]
                    &&& u.trail@[i].y == w[17 + 4 * i]
                    &&& u.trail@[i].age == w[18 + 4 * i]
                    &&& w[19 + 4 * i] == 0
                }
        }),
{
}

/// Four bytes make up each word again, the least significant one first or last.
pub proof fn bytes_make_up_the_words(words: Seq<u32>, i: int)
    requires
        0 <= i < words.len(),
    ensures
        ({
            let le = little_endian(words);
            let be = big_endian(words);
            &&& le.len() == 4 * words.len() && be.len() == 4 * words.len()
            &&& le[4 * i] + 0x100 * le[4 * i + 1] + 0x1_0000 * le[4 * i + 2] + 0x100_0000 * le[4 * i
                + 3] == words[i]
            &&& be[4 * i + 3] + 0x100 * be[4 * i + 2] + 0x1_0000 * be[4 * i + 1] + 0x100_0000
                * be[4 * i] == words[i]
        }),
{
}

} // verus!
