//! Motion-trail history.
//!
//! The trail holds the recent cursor positions in global virtual-desktop
//! coordinates, the newest first. It is bounded, so that the shader sees an array
//! of a fixed size, and what is older than the trail lasts is aged out.
//!
//! Times are nanoseconds on a clock that the program picks. Positions are pairs
//! of single-precision floats, as bits.

use vstd::prelude::*;

use crate::float_bits::{float_eq, from_integer, integer_bits, same};

verus! {

/// Most entries that the trail holds.
pub const MAX_SAMPLES: usize = 32;

/// One entry of the trail.
#[derive(Debug, Clone, Copy)]
pub struct TrailSample {
    /// Where the cursor was.
    pub pos: (u32, u32),
    /// When it was last seen there.
    pub timestamp: u128,
}

impl TrailSample {
    /// Time that has passed at `now` since the cursor was last seen there.
    pub fn age(&self, now: u128) -> (r: u128)
        ensures
            r == since(now, self.timestamp),
            now >= self.timestamp ==> r == now - self.timestamp,
            now < self.timestamp ==> r == 0,
    {
        if now >= self.timestamp {
            now - self.timestamp
        } else {
            0
        }
    }
}

/// Time that has passed at `now` since `then`; none if `then` is still to come.
pub open spec fn since(now: u128, then: u128) -> int {
    if now >= then {
        now - then
    } else {
        0
    }
}

/// The position of a cursor at integer coordinates.
pub open spec fn position_of(at: (i32, i32)) -> (u32, u32) {
    (integer_bits(at.0) as u32, integer_bits(at.1) as u32)
}

/// The position of a cursor at `(x, y)`.
pub fn position(x: i32, y: i32) -> (r: (u32, u32))
    ensures
        r == position_of((x, y)),
        r.0 == integer_bits(x),
        r.1 == integer_bits(y),
{
    (from_integer(x), from_integer(y))
}

/// Whether two positions are equal, each coordinate as a float.
pub open spec fn same_position(a: (u32, u32), b: (u32, u32)) -> bool {
    float_eq(a.0, b.0) && float_eq(a.1, b.1)
}

/// Whether an entry is no older than `duration` at `now`.
pub open spec fn is_fresh(sample: TrailSample, now: u128, duration: u128) -> bool {
    since(now, sample.timestamp) <= duration
}

/// The entries that are no older than `duration` at `now`, in the same order.
pub open spec fn kept(s: Seq<TrailSample>, now: u128, duration: u128) -> Seq<TrailSample>
    decreases s.len(),
{
    if s.len() == 0 {
        s
    } else {
        let front = kept(s.subrange(0, s.len() - 1), now, duration);
        if is_fresh(s[s.len() - 1], now, duration) {
            front.push(s[s.len() - 1])
        } else {
            front
        }
    }
}

/// Whether the cursor rests where the newest entry has it.
pub open spec fn rests(s: Seq<TrailSample>, pos: (u32, u32)) -> bool {
    s.len() > 0 && same_position(s[0].pos, pos)
}

/// At most the first [`MAX_SAMPLES`] entries.
pub open spec fn capped(s: Seq<TrailSample>) -> Seq<TrailSample> {
    if s.len() > MAX_SAMPLES {
        s.subrange(0, MAX_SAMPLES as int)
    } else {
        s
    }
}

/// The trail after the cursor is seen at `pos` at time `now`: a resting cursor
/// refreshes the newest entry, a moving one adds an entry in front. What is too
/// old leaves, and so does what exceeds the capacity.
pub open spec fn pushed(
    s: Seq<TrailSample>,
    pos: (u32, u32),
    now: u128,
    duration: u128,
) -> Seq<TrailSample> {
    if rests(s, pos) {
        kept(
            s.update(0, (TrailSample { pos: s[0].pos, timestamp: now })),
            now,
            duration,
        )
    } else {
        capped(kept(seq![(TrailSample { pos, timestamp: now })] + s, now, duration))
    }
}

/// Ring of recent cursor positions, the newest first.
#[derive(Debug)]
pub struct TrailBuffer {
    samples: Vec<TrailSample>,
    duration: u128,
}

/// Copies the entries that are no older than `duration` at `now`.
fn retain_fresh(samples: &Vec<TrailSample>, now: u128, duration: u128) -> (r: Vec<TrailSample>)
    ensures
        r@ == kept(samples@, now, duration),
{
    let mut out: Vec<TrailSample> = Vec::new();
    let mut i: usize = 0;
    assert(samples@.subrange(0, 0) =~= Seq::<TrailSample>::empty());
    while i < samples.len()
        invariant
            i <= samples@.len(),
            out@ == kept(samples@.subrange(0, i as int), now, duration),
        decreases samples@.len() - i,
    {
        let sample: TrailSample = samples[i];
        let ghost upto = samples@.subrange(0, i + 1);
        assert(upto.subrange(0, upto.len() - 1) =~= samples@.subrange(0, i as int));
        if sample.age(now) <= duration {
            out.push(sample);
        }
        i = i + 1;
    }
    assert(samples@.subrange(0, i as int) =~= samples@);
    out
}

impl TrailBuffer {
    #[verifier::type_invariant]
    spec fn bounded(&self) -> bool {
        self.samples@.len() <= MAX_SAMPLES
    }

    /// The entries, the newest first.
    pub closed spec fn entries(&self) -> Seq<TrailSample> {
        self.samples@
    }

    /// How long an entry lasts.
    pub closed spec fn lifetime(&self) -> u128 {
        self.duration
    }

    /// An empty trail whose entries last for `duration` nanoseconds.
    pub fn new(duration: u128) -> (r: Self)
        ensures
            r.entries() == Seq::<TrailSample>::empty(),
            r.lifetime() == duration,
    {
        TrailBuffer { samples: Vec::with_capacity(MAX_SAMPLES), duration }
    }

    /// How long an entry lasts, in nanoseconds.
    pub fn duration(&self) -> (r: u128)
        ensures
            r == self.lifetime(),
    {
        self.duration
    }

    /// Takes in that the cursor is at `pos` at time `now`.
    pub fn push(&mut self, pos: (u32, u32), now: u128)
        ensures
            final(self).entries() == pushed(old(self).entries(), pos, now, old(self).lifetime()),
            final(self).lifetime() == old(self).lifetime(),
            0 < final(self).entries().len() <= MAX_SAMPLES,
            final(self).entries()[0].timestamp == now,
            final(self).entries()[0].pos == pos || float_eq(final(self).entries()[0].pos.0, pos.0)
                && float_eq(final(self).entries()[0].pos.1, pos.1),
            ({
                let before = old(self).entries();
                let rests = before.len() > 0 && float_eq(before[0].pos.0, pos.0) && float_eq(
                    before[0].pos.1,
                    pos.1,
                );
                let fresh = (if rests {
                    before.drop_first()
                } else {
                    before
                }).filter(
                    |e: TrailSample|
                        now <= e.timestamp || now - e.timestamp <= old(self).lifetime(),
                );
                &&& final(self).entries().len() == (if fresh.len() < 32 {
                    fresh.len() + 1
                } else {
                    32
                })
                &&& forall|i: int|
                    0 < i < final(self).entries().len() ==> #[trigger] final(self).entries()[i]
                        == fresh[i - 1]
            }),
    {
        proof {
            use_type_invariant(&*self);
            head_is_latest(self.entries(), pos, now, self.lifetime());
            if rests(self.entries(), pos) {
                resting_keeps_all_that_is_fresh(self.entries(), pos, now, self.lifetime());
                push_keeps_capacity(self.entries(), pos, now, self.lifetime());
            } else {
                moving_keeps_all_that_is_fresh(self.entries(), pos, now, self.lifetime());
            }
        }
        let ghost before = self.samples@;
        if self.samples.len() > 0 {
            let head: TrailSample = self.samples[0];
            if same(head.pos.0, pos.0) && same(head.pos.1, pos.1) {
                let mut refreshed: Vec<TrailSample> = self.samples.clone();
                assert(refreshed@ =~= before);
                refreshed.set(0, TrailSample { pos: head.pos, timestamp: now });
                proof {
                    kept_is_no_longer(refreshed@, now, self.duration);
                }
                self.samples = retain_fresh(&refreshed, now, self.duration);
                return ;
            }
        }
        let mut longer: Vec<TrailSample> = self.samples.clone();
        assert(longer@ =~= before);
        longer.insert(0, TrailSample { pos, timestamp: now });
        assert(longer@ =~= seq![(TrailSample { pos, timestamp: now })] + before);
        let mut fresh: Vec<TrailSample> = retain_fresh(&longer, now, self.duration);
        if fresh.len() > MAX_SAMPLES {
            fresh.truncate(MAX_SAMPLES);
        }
        self.samples = fresh;
    }

    /// The entries; index 0 is the newest.
    pub fn samples(&self) -> (r: &[TrailSample])
        ensures
            r@ == self.entries(),
            r@.len() <= MAX_SAMPLES,
    {
        proof {
            use_type_invariant(self);
        }
        self.samples.as_slice()
    }
}

proof fn kept_is_no_longer(s: Seq<TrailSample>, now: u128, duration: u128)
    ensures
        kept(s, now, duration).len() <= s.len(),
    decreases s.len(),
{
    if s.len() > 0 {
        kept_is_no_longer(s.subrange(0, s.len() - 1), now, duration);
    }
}

/// Exactly the fresh entries are kept, none twice and none out of order: each
/// kept entry has its place in the trail before, and those places go up.
pub open spec fn is_selection(
    places: Seq<int>,
    s: Seq<TrailSample>,
    now: u128,
    duration: u128,
) -> bool {
    &&& places.len() == kept(s, now, duration).len()
    &&& forall|i: int, j: int|
        0 <= i < j < places.len() ==> #[trigger] places[i] < #[trigger] places[j]
    &&& forall|i: int|
        0 <= i < places.len() ==> 0 <= #[trigger] places[i] < s.len() && s[places[i]] == kept(
            s,
            now,
            duration,
        )[i]
    &&& forall|k: int|
        0 <= k < s.len() && is_fresh(#[trigger] s[k], now, duration) ==> places.contains(k)
}

/// What is kept is exactly what is fresh, in the order that it had.
pub proof fn kept_is_the_fresh_part(s: Seq<TrailSample>, now: u128, duration: u128)
    ensures
        forall|i: int|
            0 <= i < kept(s, now, duration).len() ==> is_fresh(
                #[trigger] kept(s, now, duration)[i],
                now,
                duration,
            ),
        exists|places: Seq<int>| is_selection(places, s, now, duration),
    decreases s.len(),
{
    if s.len() == 0 {
        assert(is_selection(Seq::<int>::empty(), s, now, duration));
    } else {
        let n = s.len() - 1;
        let front = s.subrange(0, n);
        kept_is_the_fresh_part(front, now, duration);
        let places = choose|places: Seq<int>| is_selection(places, front, now, duration);
        let wider = if is_fresh(s[n], now, duration) {
            places.push(n)
        } else {
            places
        };
        assert forall|k: int|
            0 <= k < s.len() && is_fresh(#[trigger] s[k], now, duration) implies wider.contains(
            k,
        ) by {
            if k < n {
                assert(front[k] == s[k]);
                assert(places.contains(k));
                let i = choose|i: int| 0 <= i < places.len() && places[i] == k;
                assert(wider[i] == k);
            } else {
                assert(wider[wider.len() - 1] == k);
            }
        }
        assert(is_selection(wider, s, now, duration));
    }
}

proof fn kept_starts_with_fresh_head(s: Seq<TrailSample>, now: u128, duration: u128)
    requires
        s.len() > 0,
        is_fresh(s[0], now, duration),
    ensures
        kept(s, now, duration).len() > 0,
        kept(s, now, duration)[0] == s[0],
    decreases s.len(),
{
    let front = s.subrange(0, s.len() - 1);
    if front.len() == 0 {
        assert(kept(front, now, duration) =~= Seq::<TrailSample>::empty());
    } else {
        kept_starts_with_fresh_head(front, now, duration);
    }
}

/// After every push the newest entry is the cursor as it was just seen: there is
/// such an entry, it is at the pushed position, and it has the time of the push.
pub proof fn head_is_latest(s: Seq<TrailSample>, pos: (u32, u32), now: u128, duration: u128)
    ensures
        pushed(s, pos, now, duration).len() > 0,
        pushed(s, pos, now, duration)[0].timestamp == now,
        pushed(s, pos, now, duration)[0].pos == pos || same_position(
            pushed(s, pos, now, duration)[0].pos,
            pos,
        ),
{
    if rests(s, pos) {
        kept_starts_with_fresh_head(
            s.update(0, (TrailSample { pos: s[0].pos, timestamp: now })),
            now,
            duration,
        );
    } else {
        kept_starts_with_fresh_head(
            seq![(TrailSample { pos, timestamp: now })] + s,
            now,
            duration,
        );
    }
}

/// After every push no entry is older than the trail lasts.
pub proof fn push_leaves_fresh_only(
    s: Seq<TrailSample>,
    pos: (u32, u32),
    now: u128,
    duration: u128,
)
    ensures
        forall|i: int|
            0 <= i < pushed(s, pos, now, duration).len() ==> is_fresh(
                #[trigger] pushed(s, pos, now, duration)[i],
                now,
                duration,
            ),
{
    if rests(s, pos) {
        kept_is_the_fresh_part(
            s.update(0, (TrailSample { pos: s[0].pos, timestamp: now })),
            now,
            duration,
        );
    } else {
        let longer = seq![(TrailSample { pos, timestamp: now })] + s;
        kept_is_the_fresh_part(longer, now, duration);
        assert forall|i: int| 0 <= i < pushed(s, pos, now, duration).len() implies is_fresh(
            #[trigger] pushed(s, pos, now, duration)[i],
            now,
            duration,
        ) by {
            assert(pushed(s, pos, now, duration)[i] == kept(longer, now, duration)[i]);
        }
    }
}

/// A trail within its capacity stays within it.
pub proof fn push_keeps_capacity(
    s: Seq<TrailSample>,
    pos: (u32, u32),
    now: u128,
    duration: u128,
)
    requires
        s.len() <= MAX_SAMPLES,
    ensures
        pushed(s, pos, now, duration).len() <= MAX_SAMPLES,
{
    if rests(s, pos) {
        kept_is_no_longer(
            s.update(0, (TrailSample { pos: s[0].pos, timestamp: now })),
            now,
            duration,
        );
    }
}

/// Whether the entries go back in time from the newest on.
pub open spec fn newest_first(s: Seq<TrailSample>) -> bool {
    forall|i: int, j: int|
        0 <= i < j < s.len() ==> #[trigger] s[i].timestamp >= #[trigger] s[j].timestamp
}

/// Whether the clock that gave the entries their times has not passed `now`.
pub open spec fn not_after(s: Seq<TrailSample>, now: u128) -> bool {
    forall|i: int| 0 <= i < s.len() ==> #[trigger] s[i].timestamp <= now
}

proof fn kept_of_ordered_is_prefix(s: Seq<TrailSample>, now: u128, duration: u128)
    requires
        newest_first(s),
    ensures
        kept(s, now, duration).len() <= s.len(),
        kept(s, now, duration) == s.subrange(0, kept(s, now, duration).len() as int),
    decreases s.len(),
{
    if s.len() == 0 {
        assert(s.subrange(0, 0) =~= s);
    } else {
        let n = s.len() - 1;
        let front = s.subrange(0, n);
        kept_of_ordered_is_prefix(front, now, duration);
        if is_fresh(s[n], now, duration) {
            ordered_is_all_fresh(front, now, duration, s[n]);
            assert(kept(s, now, duration) =~= s.subrange(0, s.len() as int));
        } else {
            let m = kept(front, now, duration).len() as int;
            assert(front.subrange(0, m) =~= s.subrange(0, m));
        }
    }
}

proof fn ordered_is_all_fresh(s: Seq<TrailSample>, now: u128, duration: u128, last: TrailSample)
    requires
        is_fresh(last, now, duration),
        forall|i: int| 0 <= i < s.len() ==> #[trigger] s[i].timestamp >= last.timestamp,
    ensures
        kept(s, now, duration) == s,
    decreases s.len(),
{
    if s.len() > 0 {
        let front = s.subrange(0, s.len() - 1);
        ordered_is_all_fresh(front, now, duration, last);
        assert(front.push(s[s.len() - 1]) =~= s);
    }
}

/// Under a clock that never goes back, the trail goes back in time from its
/// newest entry on, and ageing only ever cuts off its old end.
pub proof fn push_keeps_newest_first(
    s: Seq<TrailSample>,
    pos: (u32, u32),
    now: u128,
    duration: u128,
)
    requires
        newest_first(s),
        not_after(s, now),
    ensures
        newest_first(pushed(s, pos, now, duration)),
        not_after(pushed(s, pos, now, duration), now),
        pushed(s, pos, now, duration).len() <= s.len() + 1,
        forall|i: int|
            0 < i < pushed(s, pos, now, duration).len() ==> #[trigger] pushed(
                s,
                pos,
                now,
                duration,
            )[i] == (if rests(s, pos) {
                s[i]
            } else {
                s[i - 1]
            }),
{
    if rests(s, pos) {
        let t = s.update(0, (TrailSample { pos: s[0].pos, timestamp: now }));
        assert(newest_first(t));
        kept_of_ordered_is_prefix(t, now, duration);
    } else {
        let t = seq![(TrailSample { pos, timestamp: now })] + s;
        assert(newest_first(t)) by {
            assert forall|i: int, j: int| 0 <= i < j < t.len() implies #[trigger] t[i].timestamp
                >= #[trigger] t[j].timestamp by {
                assert(t[j] == s[j - 1]);
                if i > 0 {
                    assert(t[i] == s[i - 1]);
                }
            }
        }
        kept_of_ordered_is_prefix(t, now, duration);
    }
}

/// Whether no entry is at the position of the one right behind it.
pub open spec fn neighbours_differ(s: Seq<TrailSample>) -> bool {
    forall|i: int, j: int|
        0 <= i && j == i + 1 && j < s.len() ==> !same_position(
            (#[trigger] s[j]).pos,
            (#[trigger] s[i]).pos,
        )
}

/// Under a clock that never goes back, a slot is never wasted on a cursor that
/// did not move: neighbours in the trail are at different positions.
pub proof fn push_keeps_neighbours_different(
    s: Seq<TrailSample>,
    pos: (u32, u32),
    now: u128,
    duration: u128,
)
    requires
        newest_first(s),
        not_after(s, now),
        neighbours_differ(s),
    ensures
        neighbours_differ(pushed(s, pos, now, duration)),
{
    push_keeps_newest_first(s, pos, now, duration);
    head_is_latest(s, pos, now, duration);
    let after = pushed(s, pos, now, duration);
    if rests(s, pos) {
        kept_starts_with_fresh_head(
            s.update(0, (TrailSample { pos: s[0].pos, timestamp: now })),
            now,
            duration,
        );
        assert(after[0].pos == s[0].pos);
        assert forall|i: int, j: int| 0 <= i && j == i + 1 && j < after.len() implies !same_position(
            (#[trigger] after[j]).pos,
            (#[trigger] after[i]).pos,
        ) by {
            kept_is_no_longer(
                s.update(0, (TrailSample { pos: s[0].pos, timestamp: now })),
                now,
                duration,
            );
            assert(!same_position(s[j].pos, s[i].pos));
        }
    } else {
        kept_starts_with_fresh_head(
            seq![(TrailSample { pos, timestamp: now })] + s,
            now,
            duration,
        );
        assert(after[0].pos == pos);
        assert forall|i: int, j: int| 0 <= i && j == i + 1 && j < after.len() implies !same_position(
            (#[trigger] after[j]).pos,
            (#[trigger] after[i]).pos,
        ) by {
            if i == 0 {
                assert(after[1] == s[0]);
            } else {
                assert(!same_position(s[j - 1].pos, s[i - 1].pos));
            }
        }
    }
}

/// A cursor that rests takes one slot: seeing it again where it was just seen
/// adds no entry, and all that changes is the time of the newest one and what
/// ages out meanwhile.
pub proof fn resting_cursor_adds_nothing(
    s: Seq<TrailSample>,
    pos: (u32, u32),
    t1: u128,
    t2: u128,
    duration: u128,
)
    requires
        same_position(pos, pos),
    ensures
        ({
            let first = pushed(s, pos, t1, duration);
            let second = pushed(first, pos, t2, duration);
            &&& rests(first, pos)
            &&& second == kept(
                first.update(0, (TrailSample { pos: first[0].pos, timestamp: t2 })),
                t2,
                duration,
            )
            &&& second.len() <= first.len()
        }),
{
    head_is_latest(s, pos, t1, duration);
    let first = pushed(s, pos, t1, duration);
    kept_is_no_longer(
        first.update(0, (TrailSample { pos: first[0].pos, timestamp: t2 })),
        t2,
        duration,
    );
}

proof fn kept_is_filtered(
    s: Seq<TrailSample>,
    now: u128,
    duration: u128,
    keep: spec_fn(TrailSample) -> bool,
)
    requires
        forall|e: TrailSample| #[trigger] keep(e) == is_fresh(e, now, duration),
    ensures
        kept(s, now, duration) == s.filter(keep),
    decreases s.len(),
{
    reveal(Seq::filter);
    if s.len() > 0 {
        assert(s.subrange(0, s.len() - 1) =~= s.drop_last());
        kept_is_filtered(s.drop_last(), now, duration, keep);
    }
}

/// Nothing is lost too early. A cursor that moved becomes the new head, and behind
/// it stand the earlier entries that were seen no longer ago than the trail lasts,
/// all of them, unchanged and in order, as long as there is room for them; what is
/// left out then is the oldest.
pub proof fn moving_keeps_all_that_is_fresh(
    s: Seq<TrailSample>,
    pos: (u32, u32),
    now: u128,
    duration: u128,
)
    requires
        s.len() > 0 ==> !float_eq(s[0].pos.0, pos.0) || !float_eq(s[0].pos.1, pos.1),
    ensures
        ({
            let after = pushed(s, pos, now, duration);
            let fresh = s.filter(
                |e: TrailSample| now <= e.timestamp || now - e.timestamp <= duration,
            );
            &&& after.len() == (if fresh.len() < 32 {
                fresh.len() + 1
            } else {
                32
            })
            &&& after[0].pos == pos
            &&& after[0].timestamp == now
            &&& forall|i: int| 0 < i < after.len() ==> #[trigger] after[i] == fresh[i - 1]
            &&& after.len() < 32 ==> forall|k: int|
                0 <= k < s.len() && now - s[k].timestamp <= duration ==> after.contains(
                    #[trigger] s[k],
                )
        }),
{
    let head = TrailSample { pos, timestamp: now };
    let keep = |e: TrailSample| now <= e.timestamp || now - e.timestamp <= duration;
    let after = pushed(s, pos, now, duration);
    let fresh = s.filter(keep);
    kept_is_filtered(seq![head] + s, now, duration, keep);
    Seq::filter_distributes_over_add(seq![head], s, keep);
    assert(seq![head].filter(keep) =~= seq![head]) by {
        reveal_with_fuel(Seq::filter, 2);
        assert(seq![head].drop_last() =~= Seq::<TrailSample>::empty());
    }
    if after.len() < 32 {
        assert forall|k: int|
            0 <= k < s.len() && now - s[k].timestamp <= duration implies after.contains(
            #[trigger] s[k],
        ) by {
            s.lemma_filter_contains(keep, k);
            let i = choose|i: int| 0 <= i < fresh.len() && fresh[i] == s[k];
            assert(after[i + 1] == s[k]);
        }
    }
}

/// A cursor that rests refreshes the time of the head and nothing else: it stays
/// where it was, and behind it stand the other entries that were seen no longer ago
/// than the trail lasts, all of them, unchanged and in order.
pub proof fn resting_keeps_all_that_is_fresh(
    s: Seq<TrailSample>,
    pos: (u32, u32),
    now: u128,
    duration: u128,
)
    requires
        s.len() > 0,
        float_eq(s[0].pos.0, pos.0),
        float_eq(s[0].pos.1, pos.1),
    ensures
        ({
            let after = pushed(s, pos, now, duration);
            let fresh = s.drop_first().filter(
                |e: TrailSample| now <= e.timestamp || now - e.timestamp <= duration,
            );
            &&& after.len() == fresh.len() + 1
            &&& after[0].pos == s[0].pos
            &&& after[0].timestamp == now
            &&& forall|i: int| 0 < i < after.len() ==> #[trigger] after[i] == fresh[i - 1]
        }),
{
    let head = TrailSample { pos: s[0].pos, timestamp: now };
    let keep = |e: TrailSample| now <= e.timestamp || now - e.timestamp <= duration;
    let refreshed = s.update(0, head);
    assert(refreshed =~= seq![head] + s.drop_first());
    kept_is_filtered(refreshed, now, duration, keep);
    Seq::filter_distributes_over_add(seq![head], s.drop_first(), keep);
    assert(seq![head].filter(keep) =~= seq![head]) by {
        reveal_with_fuel(Seq::filter, 2);
        assert(seq![head].drop_last() =~= Seq::<TrailSample>::empty());
    }
}

/// A trail of distinct positions that all come within the time that it lasts is
/// the row of them, the latest first: a push adds one entry and takes none away.
pub proof fn quick_movement_is_all_kept(
    s: Seq<TrailSample>,
    pos: (u32, u32),
    now: u128,
    duration: u128,
)
    requires
        s.len() < 32,
        s.len() > 0 ==> !float_eq(s[0].pos.0, pos.0) || !float_eq(s[0].pos.1, pos.1),
        forall|i: int| 0 <= i < s.len() ==> now - (#[trigger] s[i]).timestamp <= duration,
    ensures
        pushed(s, pos, now, duration).len() == s.len() + 1,
        pushed(s, pos, now, duration).drop_first() == s,
{
    let keep = |e: TrailSample| now <= e.timestamp || now - e.timestamp <= duration;
    moving_keeps_all_that_is_fresh(s, pos, now, duration);
    all_kept(s, keep);
    let after = pushed(s, pos, now, duration);
    assert forall|i: int| 0 <= i < s.len() implies after.drop_first()[i] == s[i] by {
        assert(after[i + 1] == s[i]);
    }
    assert(after.drop_first() =~= s);
}

proof fn all_kept(s: Seq<TrailSample>, keep: spec_fn(TrailSample) -> bool)
    requires
        forall|i: int| 0 <= i < s.len() ==> keep(#[trigger] s[i]),
    ensures
        s.filter(keep) == s,
    decreases s.len(),
{
    reveal(Seq::filter);
    if s.len() > 0 {
        all_kept(s.drop_last(), keep);
        assert(s.drop_last().push(s.last()) =~= s);
    }
}

} // verus!
