//! Single-producer / single-consumer ring buffer core.
//!
//! A channel is a `SharedRegion` (the element slots plus the published item
//! count) together with two endpoints. Each endpoint keeps one private index:
//! the producer its write index, the consumer its read index. The count is
//! the only state both sides observe; the live items are the `count` slots
//! that start at the read index and wrap modulo the capacity.

use vstd::prelude::*;
use vstd::arithmetic::div_mod::{
    lemma_add_mod_noop_right, lemma_div_non_zero, lemma_mod_add_multiples_vanish,
    lemma_mod_division_less_than_divisor, lemma_mod_self_0, lemma_small_mod, lemma_sub_mod_noop,
};

verus! {

/// Shared state of one channel pair: `capacity` element slots and the count
/// of published items. Only the producer writes slots (inside the free
/// range); only the consumer reads them (inside the live range); both move
/// the count.
#[derive(Debug)]
pub struct SharedRegion<T> {
    slots: Vec<T>,
    count: usize,
}

/// Producer endpoint. Holds the private write index.
#[derive(Debug)]
pub struct Sender {
    index: usize,
}

/// Consumer endpoint. Holds the private read index.
#[derive(Debug)]
pub struct Receiver {
    index: usize,
}

/// Why construction was refused.
#[derive(Debug, Clone, Copy, PartialEq, Eq, Structural)]
pub enum ChannelError {
    /// The byte budget holds less than the counter word plus one slot.
    BufferTooSmall,
}

impl<T> SharedRegion<T> {
    /// Number of element slots `N`.
    pub closed spec fn capacity(self) -> int {
        self.slots@.len() as int
    }

    /// The published item count.
    pub closed spec fn live_count(self) -> int {
        self.count as int
    }

    /// Slots that may still be filled before the ring is full.
    pub open spec fn free_count(self) -> int {
        self.capacity() - self.live_count()
    }

    /// Contents of slot `i`.
    pub closed spec fn slot(self, i: int) -> T {
        self.slots@[i]
    }

    /// The shared invariant: at least one slot, and the count never exceeds
    /// the capacity.
    pub closed spec fn wf(self) -> bool {
        &&& 1 <= self.slots@.len()
        &&& self.count <= self.slots@.len()
    }

    /// The live items as seen from read position `start`: `live_count()`
    /// slots beginning at `start`, wrapping modulo the capacity.
    pub closed spec fn live_from(self, start: int) -> Seq<T> {
        Seq::new(
            self.count as nat,
            |i: int| self.slots@[(start + i) % (self.slots@.len() as int)],
        )
    }
}

impl Sender {
    /// The private write index.
    pub closed spec fn index_spec(self) -> int {
        self.index as int
    }

    /// The endpoint fits the region: its index addresses a slot.
    pub open spec fn wf_for<T>(self, region: SharedRegion<T>) -> bool {
        0 <= self.index_spec() < region.capacity()
    }

    /// Where the live range begins, derived from the write index and the
    /// count alone: the slot `live_count()` places behind the write index.
    pub open spec fn read_start<T>(self, region: SharedRegion<T>) -> int {
        (self.index_spec() + region.capacity() - region.live_count()) % region.capacity()
    }
}

impl Receiver {
    /// The private read index.
    pub closed spec fn index_spec(self) -> int {
        self.index as int
    }

    /// The endpoint fits the region: its index addresses a slot.
    pub open spec fn wf_for<T>(self, region: SharedRegion<T>) -> bool {
        0 <= self.index_spec() < region.capacity()
    }
}

/// The pair invariant: both endpoints fit the region and the gap equation
/// holds — the write index is `live_count()` slots past the read index.
pub open spec fn pair_wf<T>(s: Sender, r: Receiver, region: SharedRegion<T>) -> bool {
    &&& region.wf()
    &&& s.wf_for(region)
    &&& r.wf_for(region)
    &&& (r.index_spec() + region.live_count()) % region.capacity() == s.index_spec()
}

/// Number of bytes a caller must allocate for a channel of `capacity`
/// elements of type `T`: the slots plus the leading counter word.
pub fn channel_bufsize<T>(capacity: usize) -> (r: usize)
    requires
        capacity * vstd::layout::size_of::<T>() + vstd::layout::size_of::<usize>() <= usize::MAX,
    ensures
        r == capacity * vstd::layout::size_of::<T>() + vstd::layout::size_of::<usize>(),
{
    capacity * core::mem::size_of::<T>() + core::mem::size_of::<usize>()
}

/// Create a channel pair over a byte budget of `buffer_len` bytes: a counter
/// word followed by as many element slots as fit. Fails when not even one
/// slot fits. Every slot starts as `fill`, standing for the arbitrary bits a
/// fresh buffer holds; no slot is live until the producer publishes it.
pub fn channel<T: Copy>(buffer_len: usize, fill: T) -> (r: Result<
    (Sender, Receiver, SharedRegion<T>),
    ChannelError,
>)
    requires
        vstd::layout::size_of::<T>() > 0,
    ensures
        r is Ok <==> vstd::layout::size_of::<usize>() + vstd::layout::size_of::<T>()
            <= buffer_len,
        r is Err ==> r->Err_0 == ChannelError::BufferTooSmall,
        r is Ok ==> ({
            let (s, c, region) = r->Ok_0;
            &&& pair_wf(s, c, region)
            &&& region.capacity() == (buffer_len - vstd::layout::size_of::<usize>())
                / (vstd::layout::size_of::<T>() as int)
            &&& region.live_count() == 0
            &&& s.index_spec() == 0
            &&& c.index_spec() == 0
            &&& forall|j: int| 0 <= j < region.capacity() ==> region.slot(j) == fill
        }),
{
    let counter_sz: usize = core::mem::size_of::<usize>();
    let elem_sz: usize = core::mem::size_of::<T>();
    if buffer_len < counter_sz || buffer_len - counter_sz < elem_sz {
        return Err(ChannelError::BufferTooSmall);
    }
    let n: usize = (buffer_len - counter_sz) / elem_sz;
    proof {
        lemma_div_non_zero((buffer_len - counter_sz) as int, elem_sz as int);
    }
    let mut slots: Vec<T> = Vec::new();
    let mut i: usize = 0;
    while i < n
        invariant
            i <= n,
            slots@.len() == i as int,
            forall|j: int| 0 <= j < i ==> slots@[j] == fill,
        decreases n - i,
    {
        slots.push(fill);
        i = i + 1;
    }
    let region = SharedRegion { slots, count: 0 };
    proof {
        lemma_small_mod(0nat, n as nat);
    }
    Ok((Sender { index: 0 }, Receiver { index: 0 }, region))
}

/// `x % m` written without the operator, for `x` below `2m`: the value
/// itself, or the value less one turn of the ring.
proof fn lemma_mod_in_range(x: int, m: int)
    requires
        0 < m,
        0 <= x < 2 * m,
    ensures
        x % m == if x < m {
            x
        } else {
            x - m
        },
{
    if x < m {
        lemma_small_mod(x as nat, m as nat);
    } else {
        lemma_mod_add_multiples_vanish(x - m, m);
        lemma_small_mod((x - m) as nat, m as nat);
    }
}

/// Reducing the left summand modulo `m` does not change a sum's remainder.
proof fn lemma_mod_add_left(x: int, y: int, m: int)
    requires
        0 < m,
    ensures
        (x % m + y) % m == (x + y) % m,
{
    lemma_add_mod_noop_right(y, x, m);
}

impl Sender {
    /// Length of the largest free contiguous run starting at the write
    /// index: bounded by the end of the array and by the free capacity.
    pub open spec fn contiguous_free<T>(self, region: SharedRegion<T>) -> int {
        vstd::math::min(region.capacity() - self.index_spec(), region.free_count())
    }

    /// One contiguous fill pass: copy `items[from..]` into the free run that
    /// starts at the write index, stopping at the end of the array or at the
    /// free capacity, then publish by raising the count.
    fn send_from<T: Copy>(
        &mut self,
        region: &mut SharedRegion<T>,
        items: &Vec<T>,
        from: usize,
    ) -> (n: usize)
        requires
            old(region).wf(),
            old(self).wf_for(*old(region)),
            from <= items@.len(),
        ensures
            n == vstd::math::min(
                items@.len() - from,
                old(self).contiguous_free(*old(region)),
            ),
            final(region).wf(),
            final(region).capacity() == old(region).capacity(),
            final(region).live_count() == old(region).live_count() + n,
            final(self).wf_for(*final(region)),
            final(self).index_spec() == if old(self).index_spec() + n
                == old(region).capacity() {
                0
            } else {
                old(self).index_spec() + n
            },
            final(self).index_spec() == (old(self).index_spec() + n)
                % old(region).capacity(),
            forall|j: int|
                0 <= j < old(region).capacity() ==> final(region).slot(j) == (
                if old(self).index_spec() <= j < old(self).index_spec() + n {
                    items@[from + (j - old(self).index_spec())]
                } else {
                    old(region).slot(j)
                }),
            final(region).live_from(old(self).read_start(*old(region))) == old(region).live_from(
                old(self).read_start(*old(region)),
            ) + items@.subrange(from as int, from + n),
            final(self).read_start(*final(region)) == old(self).read_start(*old(region)),
            forall|peer: Receiver|
                #[trigger] pair_wf(*old(self), peer, *old(region)) ==> pair_wf(
                    *final(self),
                    peer,
                    *final(region),
                ),
    {
        let l: usize = region.slots.len();
        let cb: usize = region.count;
        let to_end: usize = l - self.index;
        let free: usize = l - cb;
        let seg: usize = if to_end < free {
            to_end
        } else {
            free
        };
        let ilen: usize = items.len();
        let avail: usize = ilen - from;
        let n: usize = if avail < seg {
            avail
        } else {
            seg
        };
        let mut k: usize = 0;
        while k < n
            invariant
                k <= n,
                n <= avail,
                ilen == items@.len(),
                avail == ilen - from,
                self.index + n <= l,
                region.slots@.len() == l,
                region.count == cb,
                forall|j: int|
                    self.index <= j < self.index + k ==> region.slots@[j] == items@[from + (j
                        - self.index)],
                forall|j: int|
                    0 <= j < l && !(self.index <= j < self.index + k) ==> region.slots@[j] == old(
                        region,
                    ).slots@[j],
            decreases n - k,
        {
            let idx: usize = self.index + k;
            region.slots[idx] = items[from + k];
            k = k + 1;
        }
        region.count = cb + n;
        let ghost oi: int = self.index as int;
        let ni: usize = self.index + n;
        self.index = if ni == l {
            0
        } else {
            ni
        };
        proof {
            let li: int = l as int;
            let cbi: int = cb as int;
            let nn: int = n as int;
            if ni == l {
                lemma_mod_self_0(li);
            } else {
                lemma_small_mod(ni as nat, li as nat);
            }
            let rs: int = (oi + li - cbi) % li;
            lemma_mod_division_less_than_divisor(oi + li - cbi, li);
            let new_live = region.live_from(rs);
            let old_live = old(region).live_from(rs);
            let sub = items@.subrange(from as int, from + nn);
            assert forall|i: int| 0 <= i < cbi + nn implies new_live[i] == (old_live + sub)[i] by {
                lemma_small_mod(i as nat, li as nat);
                lemma_mod_add_left(oi + li - cbi, i, li);
                lemma_mod_in_range(oi + li - cbi + i, li);
            }
            assert(new_live =~= old_live + sub);
            // The derived read origin is unchanged: index and count moved together.
            lemma_mod_add_left(oi + nn, li - cbi - nn, li);
            // Any well-formed pairing survives: the gap equation moves by `n` on both sides.
            assert forall|peer: Receiver|
                #[trigger] pair_wf(*old(self), peer, *old(region)) implies pair_wf(
                *final(self),
                peer,
                *final(region),
            ) by {
                lemma_mod_add_left(peer.index_spec() + cbi, nn, li);
            }
        }
        n
    }

    /// Attempt a single contiguous fill: write the leading `items` into the
    /// free run starting at the write index, as many as fit there. Returns
    /// `(written, free_after, was_empty_and_wrote)`; the last component is
    /// the empty-to-non-empty transition, the wake condition for a waiting
    /// consumer. A full ring writes nothing and returns `(0, 0, false)`.
    pub fn send<T: Copy>(&mut self, region: &mut SharedRegion<T>, items: &Vec<T>) -> (r: (
        usize,
        usize,
        bool,
    ))
        requires
            old(region).wf(),
            old(self).wf_for(*old(region)),
        ensures
            r.0 == vstd::math::min(
                items@.len() as int,
                old(self).contiguous_free(*old(region)),
            ),
            r.1 == final(region).free_count(),
            r.2 == (old(region).live_count() == 0 && r.0 > 0),
            final(region).wf(),
            final(region).capacity() == old(region).capacity(),
            final(region).live_count() == old(region).live_count() + r.0,
            final(self).wf_for(*final(region)),
            final(self).index_spec() == (old(self).index_spec() + r.0)
                % old(region).capacity(),
            forall|j: int|
                0 <= j < old(region).capacity() ==> final(region).slot(j) == (
                if old(self).index_spec() <= j < old(self).index_spec() + r.0 {
                    items@[j - old(self).index_spec()]
                } else {
                    old(region).slot(j)
                }),
            final(region).live_from(old(self).read_start(*old(region))) == old(region).live_from(
                old(self).read_start(*old(region)),
            ) + items@.take(r.0 as int),
            final(self).read_start(*final(region)) == old(self).read_start(*old(region)),
            forall|peer: Receiver|
                #[trigger] pair_wf(*old(self), peer, *old(region)) ==> pair_wf(
                    *final(self),
                    peer,
                    *final(region),
                ),
    {
        let cb0: usize = region.count;
        let n: usize = self.send_from(region, items, 0);
        let free_after: usize = region.slots.len() - region.count;
        (n, free_after, cb0 == 0 && n > 0)
    }

    /// Write the leading `items` using the full free capacity, in up to two
    /// contiguous passes: the second pass runs when the first was cut short
    /// by the end of the array and free room remains past the wrap. Returns
    /// `(written, free_after, was_empty_and_wrote)`, with `written` equal to
    /// the lesser of `items.len()` and the free capacity.
    pub fn send_foreach<T: Copy>(&mut self, region: &mut SharedRegion<T>, items: &Vec<T>) -> (r: (
        usize,
        usize,
        bool,
    ))
        requires
            old(region).wf(),
            old(self).wf_for(*old(region)),
        ensures
            r.0 == vstd::math::min(items@.len() as int, old(region).free_count()),
            r.1 == final(region).free_count(),
            r.2 == (old(region).live_count() == 0 && r.0 > 0),
            final(region).wf(),
            final(region).capacity() == old(region).capacity(),
            final(region).live_count() == old(region).live_count() + r.0,
            final(self).wf_for(*final(region)),
            final(self).index_spec() == (old(self).index_spec() + r.0)
                % old(region).capacity(),
            final(region).live_from(old(self).read_start(*old(region))) == old(region).live_from(
                old(self).read_start(*old(region)),
            ) + items@.take(r.0 as int),
            final(self).read_start(*final(region)) == old(self).read_start(*old(region)),
            forall|peer: Receiver|
                #[trigger] pair_wf(*old(self), peer, *old(region)) ==> pair_wf(
                    *final(self),
                    peer,
                    *final(region),
                ),
    {
        let cb0: usize = region.count;
        let n1: usize = self.send_from(region, items, 0);
        let n2: usize = if n1 < items.len() {
            self.send_from(region, items, n1)
        } else {
            0
        };
        let total: usize = n1 + n2;
        proof {
            let li: int = old(region).capacity();
            lemma_mod_add_left(old(self).index_spec() + n1, n2 as int, li);
            let s0 = items@.subrange(0, n1 as int);
            let s1 = items@.subrange(n1 as int, n1 + n2 as int);
            assert(s0 + s1 =~= items@.take(total as int));
            let rs: int = old(self).read_start(*old(region));
            let live0 = old(region).live_from(rs);
            assert(live0 + s0 + s1 =~= live0 + items@.take(total as int));
        }
        let free_after: usize = region.slots.len() - region.count;
        (total, free_after, cb0 == 0 && total > 0)
    }

    /// Free capacity as the producer sees it: `N - count`. A hint only in
    /// concurrent use — the consumer may free more slots at any moment.
    pub fn write_count<T>(&self, region: &SharedRegion<T>) -> (r: usize)
        requires
            region.wf(),
        ensures
            r == region.free_count(),
    {
        region.slots.len() - region.count
    }
}

impl Receiver {
    /// Length of the largest live contiguous run starting at the read
    /// index: bounded by the end of the array and by the live count.
    pub open spec fn contiguous_live<T>(self, region: SharedRegion<T>) -> int {
        vstd::math::min(region.capacity() - self.index_spec(), region.live_count())
    }

    /// Consume up to `max` items from the contiguous live run starting at
    /// the read index, then release them by lowering the count. Returns
    /// `(taken, live_after, was_full_and_read)`; the last component is the
    /// full-to-non-full transition, the wake condition for a waiting
    /// producer. An empty ring returns `(empty, 0, false)`.
    pub fn recv<T: Copy>(&mut self, region: &mut SharedRegion<T>, max: usize) -> (r: (
        Vec<T>,
        usize,
        bool,
    ))
        requires
            old(region).wf(),
            old(self).wf_for(*old(region)),
        ensures
            r.0@.len() == vstd::math::min(
                max as int,
                old(self).contiguous_live(*old(region)),
            ),
            r.0@ == old(region).live_from(old(self).index_spec()).take(r.0@.len() as int),
            r.1 == final(region).live_count(),
            r.2 == (old(region).live_count() >= old(region).capacity() && r.0@.len() > 0),
            final(region).wf(),
            final(region).capacity() == old(region).capacity(),
            final(region).live_count() == old(region).live_count() - r.0@.len(),
            final(self).wf_for(*final(region)),
            final(self).index_spec() == (old(self).index_spec() + r.0@.len())
                % old(region).capacity(),
            forall|j: int|
                0 <= j < old(region).capacity() ==> final(region).slot(j) == old(region).slot(j),
            final(region).live_from(final(self).index_spec()) == old(region).live_from(
                old(self).index_spec(),
            ).skip(r.0@.len() as int),
            forall|peer: Sender|
                #[trigger] pair_wf(peer, *old(self), *old(region)) ==> pair_wf(
                    peer,
                    *final(self),
                    *final(region),
                ),
    {
        let l: usize = region.slots.len();
        let cb: usize = region.count;
        let to_end: usize = l - self.index;
        let seg: usize = if to_end < cb {
            to_end
        } else {
            cb
        };
        let n: usize = if max < seg {
            max
        } else {
            seg
        };
        let mut out: Vec<T> = Vec::new();
        let mut k: usize = 0;
        while k < n
            invariant
                k <= n,
                region.slots@.len() == l,
                self.index + n <= l,
                out@.len() == k,
                forall|i: int| 0 <= i < k ==> out@[i] == region.slots@[self.index + i],
            decreases n - k,
        {
            let idx: usize = self.index + k;
            out.push(region.slots[idx]);
            k = k + 1;
        }
        region.count = cb - n;
        let ghost oi: int = self.index as int;
        let ni: usize = self.index + n;
        self.index = if ni == l {
            0
        } else {
            ni
        };
        proof {
            let li: int = l as int;
            let cbi: int = cb as int;
            let nn: int = n as int;
            if ni == l {
                lemma_mod_self_0(li);
            } else {
                lemma_small_mod(ni as nat, li as nat);
            }
            let taken = old(region).live_from(oi).take(nn);
            assert forall|i: int| 0 <= i < nn implies out@[i] == taken[i] by {
                lemma_small_mod((oi + i) as nat, li as nat);
            }
            assert(out@ =~= taken);
            let rest = old(region).live_from(oi).skip(nn);
            let new_live = region.live_from((oi + nn) % li);
            assert forall|i: int| 0 <= i < cbi - nn implies new_live[i] == rest[i] by {
                lemma_mod_add_left(oi + nn, i, li);
            }
            assert(new_live =~= rest);
            // Any well-formed pairing survives: read index and count move together.
            assert forall|peer: Sender|
                #[trigger] pair_wf(peer, *old(self), *old(region)) implies pair_wf(
                peer,
                *final(self),
                *final(region),
            ) by {
                lemma_mod_add_left(oi + nn, cbi - nn, li);
            }
        }
        (out, cb - n, cb >= l && n > 0)
    }

    /// A copy of the contiguous live run starting at the read index, the
    /// same items `recv` would consume first. Consumes nothing.
    pub fn peek<T: Copy>(&self, region: &SharedRegion<T>) -> (v: Vec<T>)
        requires
            region.wf(),
            self.wf_for(*region),
        ensures
            v@.len() == self.contiguous_live(*region),
            v@ == region.live_from(self.index_spec()).take(self.contiguous_live(*region)),
    {
        let l: usize = region.slots.len();
        let cb: usize = region.count;
        let to_end: usize = l - self.index;
        let n: usize = if to_end < cb {
            to_end
        } else {
            cb
        };
        let mut out: Vec<T> = Vec::new();
        let mut k: usize = 0;
        while k < n
            invariant
                k <= n,
                region.slots@.len() == l,
                self.index + n <= l,
                out@.len() == k,
                forall|i: int| 0 <= i < k ==> out@[i] == region.slots@[self.index + i],
            decreases n - k,
        {
            let idx: usize = self.index + k;
            out.push(region.slots[idx]);
            k = k + 1;
        }
        proof {
            let li: int = l as int;
            let oi: int = self.index as int;
            let want = region.live_from(oi).take(n as int);
            assert forall|i: int| 0 <= i < n implies out@[i] == want[i] by {
                lemma_small_mod((oi + i) as nat, li as nat);
            }
            assert(out@ =~= want);
        }
        out
    }

    /// Live item count as the consumer sees it: `count`. A hint only in
    /// concurrent use — the producer may publish more items at any moment.
    pub fn read_count<T>(&self, region: &SharedRegion<T>) -> (r: usize)
        requires
            region.wf(),
        ensures
            r == region.live_count(),
    {
        region.count
    }
}

/// The counter keeps the endpoints apart: under the pair invariant, a slot
/// the producer may fill next (offset `i` into the free range) is never a
/// slot holding a live item (offset `j` into the live range), so the two
/// sides never touch the same slot between one publication and the next.
pub proof fn lemma_ranges_disjoint<T>(
    s: Sender,
    r: Receiver,
    region: SharedRegion<T>,
    i: int,
    j: int,
)
    requires
        pair_wf(s, r, region),
        0 <= i < region.free_count(),
        0 <= j < region.live_count(),
    ensures
        (s.index_spec() + i) % region.capacity() != (r.index_spec() + j) % region.capacity(),
{
    let li: int = region.capacity();
    let c: int = region.live_count();
    lemma_mod_add_left(r.index_spec() + c, i, li);
    if (s.index_spec() + i) % li == (r.index_spec() + j) % li {
        lemma_sub_mod_noop(r.index_spec() + c + i, r.index_spec() + j, li);
        lemma_small_mod(0nat, li as nat);
        lemma_small_mod((c + i - j) as nat, li as nat);
        assert(false);
    }
}

/// The live range holds exactly the published items: seen from any start
/// position, its length is the count.
pub proof fn lemma_live_from_len<T>(region: SharedRegion<T>, start: int)
    ensures
        region.live_from(start).len() == region.live_count(),
{
}

/// Both ends describe the same live items: under the pair invariant the
/// producer's derived origin of the live range is exactly the consumer's
/// read index, so the sequence the producer appends to is the sequence the
/// consumer takes from.
pub proof fn lemma_views_agree<T>(s: Sender, r: Receiver, region: SharedRegion<T>)
    requires
        pair_wf(s, r, region),
    ensures
        s.read_start(region) == r.index_spec(),
        region.live_from(s.read_start(region)) == region.live_from(r.index_spec()),
{
    let li: int = region.capacity();
    let c: int = region.live_count();
    lemma_mod_add_left(r.index_spec() + c, li - c, li);
    lemma_mod_add_multiples_vanish(r.index_spec(), li);
    lemma_small_mod(r.index_spec() as nat, li as nat);
}

/// First-in, first-out: whatever the producer appends after the items
/// already live, the consumer meets again behind those items, unchanged and
/// in submission order — taking the old length returns the old items,
/// dropping it returns the appended ones.
pub proof fn lemma_fifo_round_trip<T>(live: Seq<T>, appended: Seq<T>)
    ensures
        (live + appended).take(live.len() as int) == live,
        (live + appended).skip(live.len() as int) == appended,
{
    assert((live + appended).take(live.len() as int) =~= live);
    assert((live + appended).skip(live.len() as int) =~= appended);
}

/// One operation on the live-items model, as the operations' own contracts
/// state it: a send appends the items it wrote (`live_from` gains them at
/// the end), a recv takes a prefix (it returns `take(n)` and leaves
/// `skip(n)`).
pub enum RingStep<T> {
    Push(Seq<T>),
    Pop(int),
}

/// The live items after one step.
pub open spec fn step_live<T>(live: Seq<T>, step: RingStep<T>) -> Seq<T> {
    match step {
        RingStep::Push(xs) => live + xs,
        RingStep::Pop(n) => live.skip(n),
    }
}

/// Every pop of the run takes no more than is live at its turn — what
/// `recv` can in fact return.
pub open spec fn run_ok<T>(live: Seq<T>, steps: Seq<RingStep<T>>) -> bool
    decreases steps.len(),
{
    steps.len() == 0 || {
        &&& (steps[0] matches RingStep::Pop(n) ==> 0 <= n <= live.len())
        &&& run_ok(step_live(live, steps[0]), steps.skip(1))
    }
}

/// The live items after a whole run.
pub open spec fn run_live<T>(live: Seq<T>, steps: Seq<RingStep<T>>) -> Seq<T>
    decreases steps.len(),
{
    if steps.len() == 0 {
        live
    } else {
        run_live(step_live(live, steps[0]), steps.skip(1))
    }
}

/// Everything the producer submitted over a run, in submission order.
pub open spec fn run_pushed<T>(steps: Seq<RingStep<T>>) -> Seq<T>
    decreases steps.len(),
{
    if steps.len() == 0 {
        Seq::empty()
    } else {
        (match steps[0] {
            RingStep::Push(xs) => xs,
            RingStep::Pop(_) => Seq::empty(),
        }) + run_pushed(steps.skip(1))
    }
}

/// Everything the consumer took over a run, in the order it came out.
pub open spec fn run_popped<T>(live: Seq<T>, steps: Seq<RingStep<T>>) -> Seq<T>
    decreases steps.len(),
{
    if steps.len() == 0 {
        Seq::empty()
    } else {
        (match steps[0] {
            RingStep::Pop(n) => live.take(n),
            RingStep::Push(_) => Seq::empty(),
        }) + run_popped(step_live(live, steps[0]), steps.skip(1))
    }
}

/// First-in, first-out over a run of any length and interleaving: what the
/// consumer took, followed by what is still live, is the initial live items
/// followed by everything the producer submitted — nothing lost, nothing
/// duplicated, nothing reordered.
pub proof fn lemma_fifo_over_run<T>(live: Seq<T>, steps: Seq<RingStep<T>>)
    requires
        run_ok(live, steps),
    ensures
        run_popped(live, steps) + run_live(live, steps) == live + run_pushed(steps),
    decreases steps.len(),
{
    if steps.len() == 0 {
        assert(run_popped(live, steps) + run_live(live, steps) =~= live + run_pushed(steps));
    } else {
        let l1 = step_live(live, steps[0]);
        let rest = steps.skip(1);
        lemma_fifo_over_run(l1, rest);
        match steps[0] {
            RingStep::Push(xs) => {
                assert(run_popped(live, steps) =~= run_popped(l1, rest));
                assert((live + xs) + run_pushed(rest) =~= live + (xs + run_pushed(rest)));
            },
            RingStep::Pop(n) => {
                assert(live.take(n) + live.skip(n) =~= live);
                assert((live.take(n) + run_popped(l1, rest)) + run_live(l1, rest) =~= live.take(n)
                    + (run_popped(l1, rest) + run_live(l1, rest)));
                assert(live.take(n) + (live.skip(n) + run_pushed(rest)) =~= (live.take(n)
                    + live.skip(n)) + run_pushed(rest));
                assert(run_pushed(steps) =~= run_pushed(rest));
            },
        }
    }
}

/// A completed run: started empty and drained empty, the consumer took
/// exactly the values the producer submitted, in submission order.
pub proof fn lemma_fifo_complete_run<T>(steps: Seq<RingStep<T>>)
    requires
        run_ok(Seq::empty(), steps),
        run_live(Seq::empty(), steps).len() == 0,
    ensures
        run_popped(Seq::empty(), steps) == run_pushed(steps),
{
    lemma_fifo_over_run(Seq::empty(), steps);
    assert(run_popped(Seq::empty(), steps) + run_live(Seq::empty(), steps) =~= run_popped(
        Seq::empty(),
        steps,
    ));
    assert(Seq::<T>::empty() + run_pushed(steps) =~= run_pushed(steps));
}

/// The capacity queries are functions of the shared state alone: repeated
/// without an intervening operation — on the same state — they answer the
/// same value.
pub proof fn lemma_queries_idempotent<T>(a: SharedRegion<T>, b: SharedRegion<T>)
    requires
        a == b,
    ensures
        a.free_count() == b.free_count(),
        a.live_count() == b.live_count(),
{
}

} // verus!
