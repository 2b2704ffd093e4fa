//! Hyprland IPC: where the request socket is, what a `cursorpos` reply says, and
//! what the poller makes of each reply.
//!
//! Hyprland answers `cursorpos` with one line, two integers in global
//! virtual-desktop coordinates with a comma between them. The poller keeps the
//! latest position, packed into one word so that it can be shared through a
//! single atomic, and counts the failures in a row.

use vstd::prelude::*;

use crate::float_bits::integer_bits;
use crate::text::{
    all_white, as_i32, chars_of, find, is_white, join_path, joined, joining_puts_one_slash,
    only_integers_are_read, parse_i32, position, position_behind, position_is_the_first, quote,
    quoted, trim, trim_range, trim_undoes_padding, trimming_cuts_white_ends, written,
    written_is_plain, written_reads_back,
};
use crate::trail::{position_of, pushed, TrailBuffer, TrailSample};

verus! {

/// The request that asks for the cursor position.
pub const CURSORPOS: &'static str = "cursorpos";

/// Number of failures in a row between two warnings.
pub const WARN_EVERY: u32 = 60;

/// What an `i32` is as an unsigned word of the same bits.
pub open spec fn unsigned(x: i32) -> int {
    if x < 0 {
        x + 0x1_0000_0000
    } else {
        x as int
    }
}

/// The `i32` whose bits a word in `0..2^32` holds.
pub open spec fn signed(n: int) -> int {
    if n >= 0x8000_0000 {
        n - 0x1_0000_0000
    } else {
        n
    }
}

/// Both coordinates in one word: `x` in the upper half, `y` in the lower one.
pub open spec fn packed(x: i32, y: i32) -> int {
    unsigned(x) * 0x1_0000_0000 + unsigned(y)
}

/// The coordinates that a word holds.
pub open spec fn unpacked(word: u64) -> (i32, i32) {
    (
        signed(word as int / 0x1_0000_0000) as i32,
        signed(word as int % 0x1_0000_0000) as i32,
    )
}

/// Puts both coordinates into one word.
pub fn pack(x: i32, y: i32) -> (r: u64)
    ensures
        r == packed(x, y),
{
    let hi: u64 = (x as u32) as u64;
    let lo: u64 = (y as u32) as u64;
    assert(x < 0 ==> x as u32 == x + 0x1_0000_0000) by (bit_vector);
    assert(y < 0 ==> y as u32 == y + 0x1_0000_0000) by (bit_vector);
    assert((hi << 32) | lo == hi * 0x1_0000_0000 + lo) by (bit_vector)
        requires
            hi < 0x1_0000_0000,
            lo < 0x1_0000_0000,
    ;
    (hi << 32) | lo
}

/// Takes both coordinates out of a word.
pub fn unpack(word: u64) -> (r: (i32, i32))
    ensures
        r == unpacked(word),
{
    let hi: u32 = (word >> 32) as u32;
    let lo: u32 = (word & 0xffff_ffff) as u32;
    assert((word >> 32) as u32 == word / 0x1_0000_0000) by (bit_vector);
    assert((word & 0xffff_ffff) as u32 == word % 0x1_0000_0000) by (bit_vector);
    assert(hi >= 0x8000_0000 ==> hi as i32 == hi - 0x1_0000_0000) by (bit_vector);
    assert(lo >= 0x8000_0000 ==> lo as i32 == lo - 0x1_0000_0000) by (bit_vector);
    (hi as i32, lo as i32)
}

/// Unpacking gives back what was packed, for every pair of coordinates.
pub proof fn unpack_undoes_pack(x: i32, y: i32)
    ensures
        0 <= packed(x, y) <= u64::MAX,
        unpacked(packed(x, y) as u64) == (x, y),
{
    let hi = unsigned(x);
    let lo = unsigned(y);
    assert((hi * 0x1_0000_0000 + lo) / 0x1_0000_0000 == hi);
    assert((hi * 0x1_0000_0000 + lo) % 0x1_0000_0000 == lo);
}

/// Latest known cursor position in global coordinates.
#[derive(Debug, Clone, Copy)]
pub struct CursorPos {
    packed: u64,
    /// Whether a position was ever stored.
    valid: bool,
}

impl View for CursorPos {
    type V = Option<(i32, i32)>;

    closed spec fn view(&self) -> Option<(i32, i32)> {
        if self.valid {
            Some(unpacked(self.packed))
        } else {
            None
        }
    }
}

impl CursorPos {
    /// A cursor that was not seen yet.
    pub fn new() -> (r: Self)
        ensures
            r@ is None,
    {
        CursorPos { packed: 0, valid: false }
    }

    /// Keeps `(x, y)` as the latest position.
    pub fn store(&mut self, x: i32, y: i32)
        ensures
            final(self)@ == Some((x, y)),
    {
        proof {
            unpack_undoes_pack(x, y);
        }
        self.packed = pack(x, y);
        self.valid = true;
    }

    /// The latest position, or `None` if there was none yet.
    pub fn get(&self) -> (r: Option<(i32, i32)>)
        ensures
            r == self@,
    {
        if !self.valid {
            return None;
        }
        Some(unpack(self.packed))
    }
}

/// Why there is no request socket to talk to.
#[derive(Debug, Clone, Copy, PartialEq, Eq, Structural)]
pub enum SocketError {
    /// `XDG_RUNTIME_DIR` is not set.
    NoRuntimeDir,
    /// `HYPRLAND_INSTANCE_SIGNATURE` is not set.
    NoSignature,
}

impl SocketError {
    /// What the poller tells the user.
    pub open spec fn text(self) -> Seq<char> {
        match self {
            SocketError::NoRuntimeDir => "XDG_RUNTIME_DIR is not set; is this a real session?"@,
            SocketError::NoSignature =>
                "HYPRLAND_INSTANCE_SIGNATURE is not set; are you running inside Hyprland?"@,
        }
    }

    /// What the poller tells the user.
    pub fn message(&self) -> (r: &'static str)
        ensures
            r@ == self.text(),
            *self is NoRuntimeDir ==> r@ == "XDG_RUNTIME_DIR is not set; is this a real session?"@,
            *self is NoSignature ==> r@
                == "HYPRLAND_INSTANCE_SIGNATURE is not set; are you running inside Hyprland?"@,
    {
        match self {
            SocketError::NoRuntimeDir => "XDG_RUNTIME_DIR is not set; is this a real session?",
            SocketError::NoSignature =>
                "HYPRLAND_INSTANCE_SIGNATURE is not set; are you running inside Hyprland?",
        }
    }
}

/// Path of the request socket of the instance `signature` under `runtime`.
pub open spec fn socket_at(runtime: Seq<char>, signature: Seq<char>) -> Seq<char> {
    joined(joined(joined(runtime, "hypr"@), signature), ".socket.sock"@)
}

/// Builds the path of the request socket from `XDG_RUNTIME_DIR` and
/// `HYPRLAND_INSTANCE_SIGNATURE`, either of which may be unset.
pub fn socket_path(runtime: Option<String>, signature: Option<String>) -> (r: Result<
    String,
    SocketError,
>)
    ensures
        match (runtime, signature) {
            (None, _) => r == Err::<String, SocketError>(SocketError::NoRuntimeDir),
            (Some(_), None) => r == Err::<String, SocketError>(SocketError::NoSignature),
            (Some(dir), Some(sig)) => r is Ok && r->Ok_0@ == socket_at(dir@, sig@),
        },
{
    let dir: String = match runtime {
        Some(dir) => dir,
        None => {
            return Err(SocketError::NoRuntimeDir);
        },
    };
    let sig: String = match signature {
        Some(sig) => sig,
        None => {
            return Err(SocketError::NoSignature);
        },
    };
    Ok(join_path(join_path(join_path(dir, "hypr"), sig.as_str()), ".socket.sock"))
}

/// The coordinates that a reply gives, if it gives any: the trimmed reply is cut
/// at its first comma, and what stands on either side, trimmed, is an `i32`.
pub open spec fn cursorpos(reply: Seq<char>) -> Option<(i32, i32)> {
    let line = trim(reply);
    let comma = position(line, ',');
    if comma < line.len() {
        match (
            as_i32(trim(line.subrange(0, comma))),
            as_i32(trim(line.subrange(comma + 1, line.len() as int))),
        ) {
            (Some(x), Some(y)) => Some((x, y)),
            _ => None,
        }
    } else {
        None
    }
}

/// Reads `"X, Y"` (or `"X,Y"`) as a pair of coordinates.
pub fn parse_cursorpos(reply: &str) -> (r: Option<(i32, i32)>)
    ensures
        r == cursorpos(reply@),
{
    let chars: Vec<char> = chars_of(reply);
    assert(chars@.subrange(0, chars@.len() as int) =~= chars@);
    let (lo, hi) = trim_range(&chars, 0, chars.len());
    let ghost line = trim(reply@);
    let comma: usize = find(&chars, lo, hi, ',');
    if comma == hi {
        return None;
    }
    assert(line.subrange(0, comma - lo) =~= chars@.subrange(lo as int, comma as int));
    assert(line.subrange(comma - lo + 1, line.len() as int) =~= chars@.subrange(
        comma + 1,
        hi as int,
    ));
    let (x_lo, x_hi) = trim_range(&chars, lo, comma);
    let x: i32 = match parse_i32(&chars, x_lo, x_hi) {
        Some(x) => x,
        None => {
            return None;
        },
    };
    let (y_lo, y_hi) = trim_range(&chars, comma + 1, hi);
    let y: i32 = match parse_i32(&chars, y_lo, y_hi) {
        Some(y) => y,
        None => {
            return None;
        },
    };
    Some((x, y))
}

/// Every pair of coordinates is read back from a reply that writes it out, with
/// any white space around either number.
pub proof fn reply_reads_back(
    x: i32,
    y: i32,
    w0: Seq<char>,
    w1: Seq<char>,
    w2: Seq<char>,
    w3: Seq<char>,
)
    requires
        all_white(w0),
        all_white(w1),
        all_white(w2),
        all_white(w3),
    ensures
        cursorpos(
            w0 + written(x as int) + w1 + seq![','] + w2 + written(y as int) + w3,
        ) == Some((x, y)),
{
    let a = written(x as int);
    let b = written(y as int);
    written_is_plain(x as int);
    written_is_plain(y as int);
    written_reads_back(x);
    written_reads_back(y);
    let left = a + w1;
    let right = w2 + b;
    let line = left + seq![','] + right;
    assert(w0 + a + w1 + seq![','] + w2 + b + w3 =~= w0 + line + w3);
    assert(line[0] == a[0]);
    assert(line[line.len() - 1] == b[b.len() - 1]);
    trim_undoes_padding(w0, line, w3);
    assert forall|i: int| 0 <= i < left.len() implies #[trigger] left[i] != ',' by {
        if i < a.len() {
            assert(left[i] == a[i]);
        } else {
            assert(left[i] == w1[i - a.len()]);
        }
    }
    position_behind(left, ',', right);
    assert(line.subrange(0, left.len() as int) =~= left);
    assert(line.subrange(left.len() as int + 1, line.len() as int) =~= right);
    let none = Seq::<char>::empty();
    assert(left =~= none + a + w1);
    trim_undoes_padding(none, a, w1);
    assert(right =~= w2 + b + none);
    trim_undoes_padding(w2, b, none);
}

/// What the poller does with one answer of the socket.
#[derive(Debug, Clone, Copy)]
pub struct PollStep {
    /// The position to push into the trail.
    pub sample: Option<(i32, i32)>,
    /// Number of failures in a row that this answer ends.
    pub recovered: Option<u32>,
    /// Whether the position differs from the one reported last.
    pub moved: bool,
    /// Whether to warn of this failure.
    pub warn: bool,
}

/// Whether the `n`-th failure in a row is worth a warning: the first one, and
/// then one in sixty.
pub open spec fn warns(n: int) -> bool {
    n == 1 || n % 60 == 0
}

/// What an answer says.
pub open spec fn told(answer: Option<&str>) -> Option<Seq<char>> {
    match answer {
        Some(reply) => Some(reply@),
        None => None,
    }
}

/// The position that an answer gives, if there is an answer and it gives one.
pub open spec fn heard(answer: Option<Seq<char>>) -> Option<(i32, i32)> {
    match answer {
        Some(reply) => cursorpos(reply),
        None => None,
    }
}

/// The trail after an answer to a query that began at `started`: a position is
/// pushed once, anything else changes nothing.
pub open spec fn seen(
    entries: Seq<TrailSample>,
    sample: Option<(i32, i32)>,
    started: u128,
    lifetime: u128,
) -> Seq<TrailSample> {
    match sample {
        Some(at) => pushed(entries, position_of(at), started, lifetime),
        None => entries,
    }
}

/// The cursor poller between two queries.
#[derive(Debug, Clone, Copy)]
pub struct Poller {
    cursor: CursorPos,
    interval_micros: u64,
    consecutive_errors: u32,
    last_logged: Option<(i32, i32)>,
}

impl Poller {
    /// The latest position.
    pub closed spec fn cursor(&self) -> Option<(i32, i32)> {
        self.cursor@
    }

    /// Time between the starts of two queries, in microseconds.
    pub closed spec fn interval(&self) -> int {
        self.interval_micros as int
    }

    /// Number of failures in a row so far.
    pub closed spec fn errors(&self) -> int {
        self.consecutive_errors as int
    }

    /// The position reported last.
    pub closed spec fn logged(&self) -> Option<(i32, i32)> {
        self.last_logged
    }

    /// Whether this is the poller `before` after an answer that gave `sample`, the
    /// report of which is due if `moved`.
    pub open spec fn polled(
        &self,
        sample: Option<(i32, i32)>,
        moved: bool,
        before: Poller,
    ) -> bool {
        match sample {
            Some(at) => {
                &&& self.errors() == 0
                &&& self.cursor() == Some(at)
                &&& self.logged() == Some(at)
                &&& moved == (before.logged() != Some(at))
            },
            None => {
                &&& self.errors() == before.errors() + 1
                &&& self.cursor() == before.cursor()
                &&& self.logged() == before.logged()
                &&& !moved
            },
        }
    }

    /// The latest position.
    pub fn position(&self) -> (r: Option<(i32, i32)>)
        ensures
            r == self.cursor(),
    {
        self.cursor.get()
    }

    /// Number of failures in a row so far.
    pub fn consecutive_errors(&self) -> (r: u32)
        ensures
            r == self.errors(),
    {
        self.consecutive_errors
    }

    /// Counts one more failure.
    ///
    /// The count is a `u32`, so there is a last failure that it can take.
    pub fn on_failure(&mut self) -> (r: PollStep)
        requires
            old(self).errors() < u32::MAX,
        ensures
            final(self).errors() == old(self).errors() + 1,
            final(self).cursor() == old(self).cursor(),
            final(self).interval() == old(self).interval(),
            final(self).logged() == old(self).logged(),
            r.sample is None,
            r.recovered is None,
            !r.moved,
            r.warn == warns(old(self).errors() + 1),
    {
        self.consecutive_errors = self.consecutive_errors + 1;
        let n: u32 = self.consecutive_errors;
        PollStep {
            sample: None,
            recovered: None,
            moved: false,
            warn: n == 1 || n % WARN_EVERY == 0,
        }
    }

    /// Takes one reply: a position ends a row of failures and becomes the latest
    /// one; anything else counts as a failure.
    pub fn on_reply(&mut self, reply: &str) -> (r: PollStep)
        requires
            cursorpos(reply@) is None ==> old(self).errors() < u32::MAX,
        ensures
            final(self).interval() == old(self).interval(),
            r.sample == cursorpos(reply@),
            match cursorpos(reply@) {
                Some(at) => {
                    &&& final(self).errors() == 0
                    &&& final(self).cursor() == Some(at)
                    &&& final(self).logged() == Some(at)
                    &&& match r.recovered {
                        Some(n) => n > 0 && n == old(self).errors(),
                        None => old(self).errors() == 0,
                    }
                    &&& r.moved == (old(self).logged() != Some(at))
                    &&& !r.warn
                },
                None => {
                    &&& final(self).errors() == old(self).errors() + 1
                    &&& final(self).cursor() == old(self).cursor()
                    &&& final(self).logged() == old(self).logged()
                    &&& r.recovered is None
                    &&& !r.moved
                    &&& r.warn == warns(old(self).errors() + 1)
                },
            },
    {
        match parse_cursorpos(reply) {
            Some((x, y)) => {
                let recovered: Option<u32> = if self.consecutive_errors > 0 {
                    Some(self.consecutive_errors)
                } else {
                    None
                };
                self.consecutive_errors = 0;
                self.cursor.store(x, y);
                let moved: bool = match self.last_logged {
                    Some((lx, ly)) => lx != x || ly != y,
                    None => true,
                };
                self.last_logged = Some((x, y));
                PollStep { sample: Some((x, y)), recovered, moved, warn: false }
            },
            None => self.on_failure(),
        }
    }

    /// One round: takes the answer to a query that began at `started`, or that
    /// there was none, and pushes a position that came with it into the trail.
    /// The trail is left out where nobody can have it.
    pub fn round(
        &mut self,
        answer: Option<&str>,
        started: u128,
        trail: Option<&mut TrailBuffer>,
    ) -> (r: PollStep)
        requires
            heard(told(answer)) is None ==> old(self).errors() < u32::MAX,
        ensures
            final(self).interval() == old(self).interval(),
            r.sample == heard(told(answer)),
            final(self).polled(r.sample, r.moved, *old(self)),
            answer is None ==> r.sample is None,
            answer matches Some(reply) ==> r.sample == cursorpos(reply@),
            match r.sample {
                Some(at) => {
                    &&& final(self).cursor() == Some(at)
                    &&& final(self).errors() == 0
                    &&& final(self).logged() == Some(at)
                    &&& r.moved == (old(self).logged() != Some(at))
                },
                None => {
                    &&& final(self).cursor() == old(self).cursor()
                    &&& final(self).errors() == old(self).errors() + 1
                    &&& final(self).logged() == old(self).logged()
                    &&& !r.moved
                },
            },
            match r.recovered {
                Some(n) => r.sample is Some && n > 0 && n == old(self).errors(),
                None => r.sample is None || old(self).errors() == 0,
            },
            r.warn == (r.sample is None && warns(old(self).errors() + 1)),
            trail matches Some(tb) ==> {
                &&& final(tb).lifetime() == tb.lifetime()
                &&& final(tb).entries() == seen(tb.entries(), r.sample, started, tb.lifetime())
                &&& r.sample is None ==> final(tb).entries() == tb.entries()
                &&& r.sample matches Some(at) ==> final(tb).entries() == pushed(
                    tb.entries(),
                    (integer_bits(at.0) as u32, integer_bits(at.1) as u32),
                    started,
                    tb.lifetime(),
                )
                &&& Polled::of(*final(self), *final(tb)) == Polled::of(*old(self), *tb).after(
                    (told(answer), started),
                    tb.lifetime(),
                )
            },
    {
        let step: PollStep = match answer {
            Some(reply) => self.on_reply(reply),
            None => self.on_failure(),
        };
        if let Some((x, y)) = step.sample {
            if let Some(tb) = trail {
                tb.push(crate::trail::position(x, y), started);
            }
        }
        step
    }

    /// How long to sleep, in nanoseconds, after a query that took `elapsed`: the
    /// rest of the interval, or not at all once it is over.
    pub fn pause(&self, elapsed: u128) -> (r: Option<u128>)
        ensures
            match r {
                Some(rest) => elapsed + rest == self.interval() * 1000,
                None => elapsed > self.interval() * 1000,
            },
    {
        let interval: u128 = self.interval_micros as u128 * 1000;
        if elapsed <= interval {
            Some(interval - elapsed)
        } else {
            None
        }
    }
}

/// Time between two queries at `poll_hz` queries a second, in microseconds; a
/// rate of zero counts as one.
pub open spec fn interval_at(poll_hz: u32) -> int {
    1_000_000int / (if poll_hz == 0 {
        1int
    } else {
        poll_hz as int
    })
}

/// What the user is told where the first query fails, for the reason given.
pub open spec fn unread_text(socket: Seq<char>, reason: Seq<char>) -> Seq<char> {
    "failed to read Hyprland socket "@ + socket + ": "@ + reason
}

/// What the user is told where the first reply gives no position.
pub open spec fn unparsed_text(reply: Seq<char>) -> Seq<char> {
    "couldn't parse Hyprland cursorpos reply (expected 'X, Y', got "@ + quoted(reply) + ")"@
}

/// What the user is told where the poller cannot start: there is no socket, the
/// first query on it fails, or its reply gives no position.
pub open spec fn refusal(
    socket: Result<String, SocketError>,
    probe: Result<String, String>,
) -> Option<Seq<char>> {
    match (socket, probe) {
        (Err(error), _) => Some(error.text()),
        (Ok(path), Err(reason)) => Some(unread_text(path@, reason@)),
        (Ok(_), Ok(reply)) => if cursorpos(reply@) is None {
            Some(unparsed_text(reply@))
        } else {
            None
        },
    }
}

/// Starts the poller from the outcome of a first query on `socket`, at time `now`:
/// the position that it gives is the first one of the trail. The trail is left out
/// where nobody can have it.
pub fn spawn(
    poll_hz: u32,
    socket: &Result<String, SocketError>,
    probe: &Result<String, String>,
    now: u128,
    trail: Option<&mut TrailBuffer>,
) -> (r: Result<Poller, String>)
    ensures
        match refusal(*socket, *probe) {
            Some(text) => r is Err && r->Err_0@ == text,
            None => {
                &&& r is Ok
                &&& r->Ok_0.cursor() == cursorpos(probe->Ok_0@)
                &&& r->Ok_0.logged() == cursorpos(probe->Ok_0@)
                &&& r->Ok_0.errors() == 0
                &&& r->Ok_0.interval() == interval_at(poll_hz)
            },
        },
        trail matches Some(tb) ==> {
            &&& final(tb).lifetime() == tb.lifetime()
            &&& final(tb).entries() == (if r is Ok {
                seen(tb.entries(), cursorpos(probe->Ok_0@), now, tb.lifetime())
            } else {
                tb.entries()
            })
            &&& r is Ok ==> final(tb).entries() == pushed(
                tb.entries(),
                (
                    integer_bits((cursorpos(probe->Ok_0@)->0).0) as u32,
                    integer_bits((cursorpos(probe->Ok_0@)->0).1) as u32,
                ),
                now,
                tb.lifetime(),
            )
        },
        r is Ok <==> socket is Ok && probe is Ok && cursorpos(probe->Ok_0@) is Some,
{
    let path: &String = match socket {
        Ok(path) => path,
        Err(error) => {
            return Err(error.message().to_owned());
        },
    };
    let reply: &String = match probe {
        Ok(reply) => reply,
        Err(reason) => {
            return Err(
                "failed to read Hyprland socket ".to_owned().concat(path.as_str()).concat(
                    ": ",
                ).concat(reason.as_str()),
            );
        },
    };
    let (x, y) = match parse_cursorpos(reply.as_str()) {
        Some(at) => at,
        None => {
            return Err(
                "couldn't parse Hyprland cursorpos reply (expected 'X, Y', got ".to_owned().concat(
                    quote(reply.as_str()).as_str(),
                ).concat(")"),
            );
        },
    };
    let mut cursor: CursorPos = CursorPos::new();
    cursor.store(x, y);
    if let Some(tb) = trail {
        tb.push(crate::trail::position(x, y), now);
    }
    let hz: u64 = if poll_hz == 0 {
        1
    } else {
        poll_hz as u64
    };
    Ok(
        Poller {
            cursor,
            interval_micros: 1_000_000 / hz,
            consecutive_errors: 0,
            last_logged: cursor.get(),
        },
    )
}

/// What polling leads to: the latest position, the number of failures in a row,
/// and the trail.
pub struct Polled {
    pub cursor: Option<(i32, i32)>,
    pub errors: int,
    pub trail: Seq<TrailSample>,
}

/// An answer, if there was one, and when its query began.
pub type Answer = (Option<Seq<char>>, u128);

impl Polled {
    /// What polling has led to so far.
    pub open spec fn of(poller: Poller, trail: TrailBuffer) -> Polled {
        Polled { cursor: poller.cursor(), errors: poller.errors(), trail: trail.entries() }
    }

    /// What one more round leads to.
    pub open spec fn after(self, answer: Answer, lifetime: u128) -> Polled {
        let sample = heard(answer.0);
        Polled {
            cursor: if sample is Some {
                sample
            } else {
                self.cursor
            },
            errors: if sample is Some {
                0
            } else {
                self.errors + 1
            },
            trail: seen(self.trail, sample, answer.1, lifetime),
        }
    }

    /// What a row of rounds leads to.
    pub open spec fn after_all(self, answers: Seq<Answer>, lifetime: u128) -> Polled
        decreases answers.len(),
    {
        if answers.len() == 0 {
            self
        } else {
            self.after_all(answers.drop_last(), lifetime).after(answers.last(), lifetime)
        }
    }
}

/// The positions that a row of answers gives, each with its time.
pub open spec fn positions(answers: Seq<Answer>) -> Seq<((i32, i32), u128)>
    decreases answers.len(),
{
    if answers.len() == 0 {
        Seq::empty()
    } else {
        let front = positions(answers.drop_last());
        match heard(answers.last().0) {
            Some(at) => front.push((at, answers.last().1)),
            None => front,
        }
    }
}

/// The trail after a row of positions, each pushed once.
pub open spec fn pushed_all(
    entries: Seq<TrailSample>,
    at: Seq<((i32, i32), u128)>,
    lifetime: u128,
) -> Seq<TrailSample>
    decreases at.len(),
{
    if at.len() == 0 {
        entries
    } else {
        pushed(
            pushed_all(entries, at.drop_last(), lifetime),
            position_of(at.last().0),
            at.last().1,
            lifetime,
        )
    }
}

/// However queries and replies fail in between, polling leads to the same as the
/// positions alone: the latest one of them is the latest position, and each of
/// them was pushed into the trail once, in order, with the time of its query.
pub proof fn polling_follows_the_positions(start: Polled, answers: Seq<Answer>, lifetime: u128)
    ensures
        start.after_all(answers, lifetime).cursor == (if positions(answers).len() > 0 {
            Some(positions(answers).last().0)
        } else {
            start.cursor
        }),
        start.after_all(answers, lifetime).trail == pushed_all(
            start.trail,
            positions(answers),
            lifetime,
        ),
    decreases answers.len(),
{
    if answers.len() > 0 {
        polling_follows_the_positions(start, answers.drop_last(), lifetime);
        if let Some(at) = heard(answers.last().0) {
            let front = positions(answers.drop_last());
            assert(front.push((at, answers.last().1)).drop_last() =~= front);
        }
    }
}

/// Rounds that give no position change neither the latest position nor the trail:
/// all that they do is count.
pub proof fn failures_only_count(start: Polled, answers: Seq<Answer>, lifetime: u128)
    requires
        forall|i: int| 0 <= i < answers.len() ==> heard((#[trigger] answers[i]).0) is None,
    ensures
        start.after_all(answers, lifetime) == (Polled {
            errors: start.errors + answers.len(),
            ..start
        }),
    decreases answers.len(),
{
    if answers.len() > 0 {
        failures_only_count(start, answers.drop_last(), lifetime);
    }
}

/// However many failures came before, a warning comes within the next sixty.
pub proof fn failures_are_warned_of(errors: nat)
    ensures
        exists|k: int| 1 <= k <= 60 && #[trigger] warns(errors + k),
{
    let k = 60 - errors as int % 60;
    assert(warns(errors + k));
}

/// The upper half of a word is one coordinate and the lower half the other, each as
/// the unsigned number of the same bits.
pub proof fn halves_are_the_coordinates(x: i32, y: i32)
    ensures
        packed(x, y) / 0x1_0000_0000 == (x as int) % 0x1_0000_0000,
        packed(x, y) % 0x1_0000_0000 == (y as int) % 0x1_0000_0000,
{
    unpack_undoes_pack(x, y);
    let hi = unsigned(x);
    let lo = unsigned(y);
    assert((hi * 0x1_0000_0000 + lo) / 0x1_0000_0000 == hi);
    assert((hi * 0x1_0000_0000 + lo) % 0x1_0000_0000 == lo);
}

/// A reply gives a position where it is two integers with a comma between them and
/// white space around either at most: the first of them is how far the cursor is to
/// the right, the second how far down.
pub proof fn two_integers_are_a_position(
    a: Seq<char>,
    b: Seq<char>,
    w0: Seq<char>,
    w1: Seq<char>,
    w2: Seq<char>,
    w3: Seq<char>,
)
    requires
        as_i32(a) is Some,
        as_i32(b) is Some,
        all_white(w0),
        all_white(w1),
        all_white(w2),
        all_white(w3),
    ensures
        cursorpos(w0 + a + w1 + seq![','] + w2 + b + w3) == Some((as_i32(a)->0, as_i32(b)->0)),
{
    only_integers_are_read(a);
    only_integers_are_read(b);
    let left = a + w1;
    let right = w2 + b;
    let line = left + seq![','] + right;
    assert(w0 + a + w1 + seq![','] + w2 + b + w3 =~= w0 + line + w3);
    assert(line[0] == a[0]);
    assert(line[line.len() - 1] == b[b.len() - 1]);
    trim_undoes_padding(w0, line, w3);
    assert forall|i: int| 0 <= i < left.len() implies #[trigger] left[i] != ',' by {
        if i < a.len() {
            assert(left[i] == a[i]);
        } else {
            assert(left[i] == w1[i - a.len()]);
        }
    }
    position_behind(left, ',', right);
    assert(line.subrange(0, left.len() as int) =~= left);
    assert(line.subrange(left.len() as int + 1, line.len() as int) =~= right);
    let none = Seq::<char>::empty();
    assert(left =~= none + a + w1);
    trim_undoes_padding(none, a, w1);
    assert(right =~= w2 + b + none);
    trim_undoes_padding(w2, b, none);
}

/// Whether a reply is two integers `a` and `b` with a comma between them and white
/// space around either.
pub open spec fn is_pair(reply: Seq<char>, a: Seq<char>, b: Seq<char>) -> bool {
    exists|w0: Seq<char>, w1: Seq<char>, w2: Seq<char>, w3: Seq<char>|
        #![trigger all_white(w0), all_white(w1), all_white(w2), all_white(w3)]
        all_white(w0) && all_white(w1) && all_white(w2) && all_white(w3) && reply == w0 + a + w1
            + seq![','] + w2 + b + w3
}

/// No other reply gives a position.
pub proof fn positions_are_two_integers(reply: Seq<char>)
    requires
        cursorpos(reply) is Some,
    ensures
        exists|a: Seq<char>, b: Seq<char>|
            #![trigger as_i32(a), as_i32(b)]
            is_pair(reply, a, b) && as_i32(a) == Some((cursorpos(reply)->0).0) && as_i32(b) == Some(
                (cursorpos(reply)->0).1,
            ),
{
    let line = trim(reply);
    trimming_cuts_white_ends(reply);
    let (w0, w3) = choose|before: Seq<char>, after: Seq<char>|
        #![trigger all_white(before), all_white(after)]
        all_white(before) && all_white(after) && reply == before + line + after;
    let comma = position(line, ',');
    position_is_the_first(line, ',');
    let left = line.subrange(0, comma);
    let right = line.subrange(comma + 1, line.len() as int);
    assert(line =~= left + seq![','] + right);
    let a = trim(left);
    let b = trim(right);
    trimming_cuts_white_ends(left);
    let (x0, x1) = choose|before: Seq<char>, after: Seq<char>|
        #![trigger all_white(before), all_white(after)]
        all_white(before) && all_white(after) && left == before + a + after;
    trimming_cuts_white_ends(right);
    let (y0, y1) = choose|before: Seq<char>, after: Seq<char>|
        #![trigger all_white(before), all_white(after)]
        all_white(before) && all_white(after) && right == before + b + after;
    let front = w0 + x0;
    let back = y1 + w3;
    assert(all_white(front)) by {
        assert forall|i: int| 0 <= i < front.len() implies is_white(#[trigger] front[i]) by {
            if i < w0.len() {
                assert(front[i] == w0[i]);
            } else {
                assert(front[i] == x0[i - w0.len()]);
            }
        }
    }
    assert(all_white(back)) by {
        assert forall|i: int| 0 <= i < back.len() implies is_white(#[trigger] back[i]) by {
            if i < y1.len() {
                assert(back[i] == y1[i]);
            } else {
                assert(back[i] == w3[i - y1.len()]);
            }
        }
    }
    assert(reply =~= front + a + x1 + seq![','] + y0 + b + back);
    assert(is_pair(reply, a, b));
}

/// What an answer gives is what its reply gives, and nothing where there is none.
pub proof fn answers_are_their_replies(reply: &str)
    ensures
        heard(told(Some(reply))) == cursorpos(reply@),
        heard(told(None)) is None,
{
}

/// The first failure in a row is warned of, then the sixtieth, and from there on
/// each that is sixty after one that was; none in between.
pub proof fn warnings_are_sixty_apart(n: int)
    requires
        n >= 1,
    ensures
        warns(1),
        1 < n < 60 ==> !warns(n),
        warns(60),
        n > 1 ==> warns(n + 60) == warns(n),
        n > 1 && warns(n) ==> forall|k: int| 0 < k < 60 ==> !#[trigger] warns(n + k),
{
}

/// As many queries as were asked for fit into a second, and no more would: the
/// interval is the longest in whole microseconds. A rate of zero counts as one.
pub proof fn queries_fill_the_second(poll_hz: u32)
    ensures
        poll_hz > 0 ==> interval_at(poll_hz) * poll_hz <= 1_000_000 < (interval_at(poll_hz) + 1)
            * poll_hz,
        interval_at(0) == 1_000_000,
{
    if poll_hz > 0 {
        let hz = poll_hz as int;
        let q = interval_at(poll_hz);
        vstd::arithmetic::div_mod::lemma_fundamental_div_mod(1_000_000, hz);
        vstd::arithmetic::div_mod::lemma_mod_bound(1_000_000, hz);
        assert(q * hz == hz * q) by (nonlinear_arith);
        assert((q + 1) * hz == hz * q + hz) by (nonlinear_arith);
    }
}

/// The request socket lies in a directory named after the instance, under `hypr` in
/// the runtime directory.
pub proof fn socket_lies_under_the_runtime_directory(runtime: Seq<char>, signature: Seq<char>)
    requires
        runtime.len() > 0,
        runtime[runtime.len() - 1] != '/',
        signature.len() > 0,
        signature[0] != '/',
        signature[signature.len() - 1] != '/',
    ensures
        socket_at(runtime, signature) == runtime + "/hypr/"@ + signature + "/.socket.sock"@,
        socket_at(runtime.push('/'), signature) == socket_at(runtime, signature),
{
    reveal_strlit("hypr");
    reveal_strlit("/hypr/");
    reveal_strlit(".socket.sock");
    reveal_strlit("/.socket.sock");
    let one = joined(runtime, "hypr"@);
    joining_puts_one_slash(runtime, "hypr"@);
    assert(one =~= runtime + seq!['/'] + "hypr"@);
    joining_puts_one_slash(runtime.push('/'), "hypr"@);
    assert(joined(runtime.push('/'), "hypr"@) =~= one);
    assert(one[one.len() - 1] == 'r');
    let two = joined(one, signature);
    joining_puts_one_slash(one, signature);
    assert(two[two.len() - 1] == signature[signature.len() - 1]);
    joining_puts_one_slash(two, ".socket.sock"@);
    assert(socket_at(runtime, signature) =~= runtime + "/hypr/"@ + signature + "/.socket.sock"@);
}

/// The poller does not start without a socket, without an answer on it, or without a
/// position in the answer, and the user is told which it is, and of what.
pub proof fn refusals_say_what_is_missing(
    error: SocketError,
    socket: String,
    reason: String,
    reply: String,
    probe: Result<String, String>,
)
    ensures
        refusal(Err(error), probe) == Some(error.text()),
        refusal(Ok(socket), Err(reason)) == Some(
            "failed to read Hyprland socket "@ + socket@ + ": "@ + reason@,
        ),
        cursorpos(reply@) is None ==> refusal(Ok(socket), Ok(reply)) == Some(
            "couldn't parse Hyprland cursorpos reply (expected 'X, Y', got "@ + quoted(reply@)
                + ")"@,
        ),
        cursorpos(reply@) is Some ==> refusal(Ok(socket), Ok(reply)) is None,
        SocketError::NoRuntimeDir.text() == "XDG_RUNTIME_DIR is not set; is this a real session?"@,
        SocketError::NoSignature.text()
            == "HYPRLAND_INSTANCE_SIGNATURE is not set; are you running inside Hyprland?"@,
{
}

/// One round of polling: a position becomes the latest one, ends a row of failures
/// and is pushed into the trail once, with the time of its query; anything else is
/// counted, and changes neither the position nor the trail.
pub proof fn rounds_follow_the_answer(m: Polled, answer: Answer, lifetime: u128)
    ensures
        ({
            let after = m.after(answer, lifetime);
            &&& answer.0 is Some && cursorpos(answer.0->0) is Some ==> {
                let at = cursorpos(answer.0->0)->0;
                &&& after.cursor == Some(at)
                &&& after.errors == 0
                &&& after.trail == pushed(
                    m.trail,
                    (integer_bits(at.0) as u32, integer_bits(at.1) as u32),
                    answer.1,
                    lifetime,
                )
            }
            &&& answer.0 is None || cursorpos(answer.0->0) is None ==> {
                &&& after.cursor == m.cursor
                &&& after.errors == m.errors + 1
                &&& after.trail == m.trail
            }
        }),
{
}

/// An instance whose name is an absolute path has its socket right there, one whose
/// name ends in a slash needs no other, and one without a name leaves `hypr` alone.
pub proof fn odd_instances_have_a_socket_too(runtime: Seq<char>, signature: Seq<char>)
    requires
        runtime.len() > 0,
        runtime[runtime.len() - 1] != '/',
    ensures
        signature.len() > 0 && signature[0] == '/' && signature[signature.len() - 1] != '/'
            ==> socket_at(runtime, signature) == signature + "/.socket.sock"@,
        signature.len() > 0 && signature[0] == '/' && signature[signature.len() - 1] == '/'
            ==> socket_at(runtime, signature) == signature + ".socket.sock"@,
        signature.len() > 0 && signature[0] != '/' && signature[signature.len() - 1] == '/'
            ==> socket_at(runtime, signature) == runtime + "/hypr/"@ + signature
            + ".socket.sock"@,
        signature.len() == 0 ==> socket_at(runtime, signature) == runtime + "/hypr/.socket.sock"@,
        socket_at(Seq::empty(), signature) == joined(
            joined("hypr"@, signature),
            ".socket.sock"@,
        ),
{
    reveal_strlit("hypr");
    reveal_strlit("/hypr/");
    reveal_strlit(".socket.sock");
    reveal_strlit("/.socket.sock");
    reveal_strlit("/hypr/.socket.sock");
    let one = joined(runtime, "hypr"@);
    joining_puts_one_slash(runtime, "hypr"@);
    joining_puts_one_slash(Seq::empty(), "hypr"@);
    assert(one =~= runtime + seq!['/'] + "hypr"@);
    assert(one[one.len() - 1] == 'r');
    let two = joined(one, signature);
    joining_puts_one_slash(one, signature);
    joining_puts_one_slash(two, ".socket.sock"@);
    if signature.len() == 0 {
        assert(two =~= one + seq!['/']);
        assert(socket_at(runtime, signature) =~= runtime + "/hypr/.socket.sock"@);
    } else if signature[0] == '/' {
        assert(socket_at(runtime, signature) =~= signature + ".socket.sock"@ || socket_at(
            runtime,
            signature,
        ) =~= signature + "/.socket.sock"@);
    } else if signature[signature.len() - 1] == '/' {
        assert(two[two.len() - 1] == '/');
        assert(socket_at(runtime, signature) =~= runtime + "/hypr/"@ + signature
            + ".socket.sock"@);
    }
}

} // verus!
