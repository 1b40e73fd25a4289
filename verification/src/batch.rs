//! Batches of packets and two operators on them: a filter, which drops the
//! packets that a user function rejects, and a replacer, which overwrites the
//! current header of every packet with a template.
use vstd::prelude::*;

verus! {

/// A packet: its bytes, and where its current header starts.
pub struct Packet {
    pub data: Vec<u8>,
    pub header_offset: usize,
}

/// A batch of received packets, in order.
pub struct PacketBatch {
    pub packets: Vec<Packet>,
    pub capacity: i32,
}

/// Positions listed in strictly ascending order.
pub open spec fn strictly_increasing(r: Seq<usize>) -> bool {
    forall|i: int, j: int| 0 <= i < j < r.len() ==> #[trigger] r[i] < #[trigger] r[j]
}

/// Positions that can be dropped from a batch of `n` packets: ascending and in range.
pub open spec fn valid_drop(r: Seq<usize>, n: nat) -> bool {
    strictly_increasing(r) && (r.len() > 0 ==> r.last() < n)
}

/// `s` without the elements at positions `r` (removed from the last one down).
pub open spec fn drop_positions<A>(s: Seq<A>, r: Seq<usize>) -> Seq<A>
    decreases r.len(),
{
    if r.len() == 0 {
        s
    } else {
        drop_positions(s.remove(r.last() as int), r.drop_last())
    }
}

/// The elements of `s` whose verdict in `v` is true, in order.
pub open spec fn keep_where<A>(s: Seq<A>, v: Seq<bool>) -> Seq<A>
    decreases s.len(),
{
    if s.len() == 0 {
        s
    } else {
        let p = keep_where(s.drop_last(), v);
        if v[s.len() - 1] {
            p.push(s.last())
        } else {
            p
        }
    }
}

/// The positions, in ascending order, of the false verdicts among the first `n`.
pub open spec fn false_positions(v: Seq<bool>, n: int) -> Seq<usize>
    decreases n,
{
    if n <= 0 {
        Seq::empty()
    } else {
        let p = false_positions(v, n - 1);
        if !v[n - 1] {
            p.push((n - 1) as usize)
        } else {
            p
        }
    }
}

/// In a strictly ascending list of positions below `n`, the `k`-th leaves room
/// for all those after it.
proof fn lemma_gap(r: Seq<usize>, n: nat, k: int)
    requires
        valid_drop(r, n),
        0 <= k < r.len(),
    ensures
        r[k] + (r.len() - 1 - k) < n,
    decreases r.len() - k,
{
    if k < r.len() - 1 {
        lemma_gap(r, n, k + 1);
        assert(r[k] < r[k + 1]);
    }
}

/// The false positions are ascending, below `n`, and name exactly the false verdicts.
proof fn lemma_false_positions(v: Seq<bool>, n: int)
    requires
        0 <= n <= v.len(),
        n <= usize::MAX,
    ensures
        strictly_increasing(false_positions(v, n)),
        forall|i: int| 0 <= i < false_positions(v, n).len() ==> #[trigger] false_positions(v, n)[i] < n,
        false_positions(v, n).len() <= n,
    decreases n,
{
    if n > 0 {
        lemma_false_positions(v, n - 1);
        let p = false_positions(v, n - 1);
        if !v[n - 1] {
            let q = p.push((n - 1) as usize);
            assert forall|i: int, j: int| 0 <= i < j < q.len() implies #[trigger] q[i] < #[trigger] q[j] by {
                assert(q[i] == p[i]);
                if j < q.len() - 1 {
                    assert(q[j] == p[j]);
                }
            }
        }
    }
}

/// Dropping positions that all come before the last element commutes with
/// taking the last element off.
proof fn lemma_drop_before_last<A>(s: Seq<A>, r: Seq<usize>)
    requires
        s.len() > 0,
        strictly_increasing(r),
        forall|i: int| 0 <= i < r.len() ==> #[trigger] r[i] < s.len() - 1,
    ensures
        drop_positions(s, r) == drop_positions(s.drop_last(), r).push(s.last()),
    decreases r.len(),
{
    if r.len() == 0 {
        assert(s =~= s.drop_last().push(s.last()));
    } else {
        let m: int = r.last() as int;
        let s2 = s.remove(m);
        let r2 = r.drop_last();
        assert(s2.last() == s.last());
        assert(s2.drop_last() =~= s.drop_last().remove(m));
        assert forall|i: int| 0 <= i < r2.len() implies #[trigger] r2[i] < s2.len() - 1 by {
            assert(r[i] < r[r.len() - 1]);
        }
        lemma_drop_before_last(s2, r2);
    }
}

/// Dropping the positions of the false verdicts keeps those of the true ones.
pub proof fn lemma_drop_false_positions<A>(s: Seq<A>, v: Seq<bool>)
    requires
        s.len() <= v.len(),
        s.len() <= usize::MAX,
    ensures
        drop_positions(s, false_positions(v, s.len() as int)) == keep_where(s, v),
    decreases s.len(),
{
    let n: int = s.len() as int;
    if n > 0 {
        lemma_drop_false_positions(s.drop_last(), v);
        lemma_false_positions(v, n - 1);
        if !v[n - 1] {
            let r = false_positions(v, n);
            assert(r.drop_last() =~= false_positions(v, n - 1));
            assert(r.last() == (n - 1) as usize);
            assert(s.remove(n - 1) =~= s.drop_last());
            assert(drop_positions(s, r) == drop_positions(s.remove(n - 1), r.drop_last()));
        } else {
            lemma_drop_before_last(s, false_positions(v, n - 1));
        }
    }
}

/// A batch of packets that operators can be chained onto: it acts (brings
/// its packets up to date, acting the batches it is chained onto first), it is
/// done, and it drops packets by position.
pub trait Batch: Sized {
    /// The packets of the batch, in order.
    spec fn spec_packets(&self) -> Seq<Packet>;

    /// The number of packets the batch handles.
    spec fn spec_capacity(&self) -> i32;

    /// Whether the batch can act.
    spec fn ready(&self) -> bool;

    /// How acting may change the batch.
    spec fn acted(before: Self, after: Self) -> bool;

    /// How being done may change the batch.
    spec fn finished(before: Self, after: Self) -> bool;

    /// How dropping the packets at positions `idxes` changes the batch.
    spec fn dropped(before: Self, idxes: Seq<usize>, after: Self) -> bool;

    /// Brings the packets of the batch up to date.
    fn act(&mut self)
        requires
            old(self).ready(),
        ensures
            Self::acted(*old(self), *final(self)),
    ;

    /// Ends the round of the batch.
    fn done(&mut self)
        ensures
            Self::finished(*old(self), *final(self)),
    ;

    /// The number of packets the batch handles.
    fn capacity(&self) -> (c: i32)
        ensures
            c == self.spec_capacity(),
    ;

    /// The number of packets in the batch.
    fn len(&self) -> (n: usize)
        ensures
            n == self.spec_packets().len(),
    ;

    /// The packet at position `i`.
    fn packet(&self, i: usize) -> (p: &Packet)
        requires
            i < self.spec_packets().len(),
        ensures
            *p == self.spec_packets()[i as int],
    ;

    /// The packet at position `i`, for writing.
    fn packet_mut(&mut self, i: usize) -> (p: &mut Packet)
        requires
            i < old(self).spec_packets().len(),
        ensures
            *p == old(self).spec_packets()[i as int],
            final(self).spec_packets() == old(self).spec_packets().update(i as int, *final(p)),
            final(self).spec_capacity() == old(self).spec_capacity(),
    ;

    /// Drops the packets at the positions `idxes`, which must be ascending and
    /// in range; returns the number dropped, or `None` (dropping nothing)
    /// when the positions are not so.
    fn drop_packets(&mut self, idxes: &[usize]) -> (res: Option<usize>)
        ensures
            res is Some <==> valid_drop(idxes@, old(self).spec_packets().len()),
            res matches Some(n) ==> {
                &&& n == idxes@.len()
                &&& Self::dropped(*old(self), idxes@, *final(self))
                &&& final(self).spec_packets() == drop_positions(old(self).spec_packets(), idxes@)
            },
            res is None ==> final(self).spec_packets() == old(self).spec_packets(),
            final(self).spec_capacity() == old(self).spec_capacity(),
    ;
}

impl PacketBatch {
    /// A batch of the given capacity holding `packets`.
    pub fn new(capacity: i32, packets: Vec<Packet>) -> (b: PacketBatch)
        ensures
            b.capacity == capacity,
            b.packets@ == packets@,
    {
        PacketBatch { packets, capacity }
    }

    /// Drops every packet.
    pub fn clear_packets(&mut self)
        ensures
            final(self).packets@.len() == 0,
            final(self).capacity == old(self).capacity,
    {
        self.packets.clear();
    }
}

/// A batch of packets already at hand: acting and being done leave it as it is.
impl Batch for PacketBatch {
    open spec fn spec_packets(&self) -> Seq<Packet> {
        self.packets@
    }

    open spec fn spec_capacity(&self) -> i32 {
        self.capacity
    }

    open spec fn ready(&self) -> bool {
        true
    }

    open spec fn acted(before: Self, after: Self) -> bool {
        after == before
    }

    open spec fn finished(before: Self, after: Self) -> bool {
        after == before
    }

    open spec fn dropped(before: Self, idxes: Seq<usize>, after: Self) -> bool {
        &&& after.packets@ == drop_positions(before.packets@, idxes)
        &&& after.capacity == before.capacity
    }

    fn act(&mut self) {
    }

    fn done(&mut self) {
    }

    fn capacity(&self) -> (c: i32) {
        self.capacity
    }

    fn len(&self) -> (n: usize) {
        self.packets.len()
    }

    fn packet(&self, i: usize) -> (p: &Packet) {
        &self.packets[i]
    }

    fn packet_mut(&mut self, i: usize) -> (p: &mut Packet) {
        &mut self.packets[i]
    }

    fn drop_packets(&mut self, idxes: &[usize]) -> (res: Option<usize>) {
        let len: usize = idxes.len();
        if len == 0 {
            assert(drop_positions(self.packets@, idxes@) == self.packets@);
            return Some(0);
        }
        if idxes[len - 1] >= self.packets.len() {
            return None;
        }
        let mut i: usize = 1;
        while i < len
            invariant
                1 <= i <= len,
                len == idxes@.len(),
                forall|a: int, b: int| 0 <= a < b < i ==> #[trigger] idxes@[a] < #[trigger] idxes@[b],
            decreases len - i,
        {
            if idxes[i - 1] >= idxes[i] {
                assert(idxes@[i - 1] >= idxes@[i as int]);
                return None;
            }
            i = i + 1;
        }
        let ghost orig = self.packets@;
        let ghost n = orig.len();
        assert(valid_drop(idxes@, n));
        assert(idxes@.take(len as int) =~= idxes@);
        let mut k: usize = len;
        while k > 0
            invariant
                k <= len,
                len == idxes@.len(),
                valid_drop(idxes@, n),
                self.packets@.len() == n - (len - k),
                drop_positions(orig, idxes@) == drop_positions(self.packets@, idxes@.take(k as int)),
                self.capacity == old(self).capacity,
            decreases k,
        {
            proof {
                lemma_gap(idxes@, n, k - 1);
                assert(idxes@.take(k as int).drop_last() =~= idxes@.take(k - 1));
            }
            let pos: usize = idxes[k - 1];
            self.packets.remove(pos);
            k = k - 1;
        }
        assert(idxes@.take(0) =~= Seq::<usize>::empty());
        Some(len)
    }
}

/// Drops, each time it acts, the packets of the batch it is chained onto
/// that the filter rejects.
pub struct FilterBatch<V: Batch, F: Fn(&Packet) -> bool> {
    parent: V,
    filter: F,
    capacity: usize,
    remove: Vec<usize>,
}

/// Whether `v` holds, position by position, verdicts that `filter` may give on `s`.
pub open spec fn verdicts_of<F: Fn(&Packet) -> bool>(filter: F, s: Seq<Packet>, v: Seq<bool>) -> bool {
    &&& v.len() == s.len()
    &&& forall|i: int| 0 <= i < v.len() ==> filter.ensures((&s[i],), #[trigger] v[i])
}

impl<V: Batch, F: Fn(&Packet) -> bool> FilterBatch<V, F> {
    /// The batch this operator is chained onto.
    pub closed spec fn spec_parent(&self) -> V {
        self.parent
    }

    /// The filter.
    pub closed spec fn spec_filter(&self) -> F {
        self.filter
    }

    /// The capacity, taken from the batch when the operator was made.
    pub closed spec fn spec_op_capacity(&self) -> usize {
        self.capacity
    }

    /// Between two acts the list of positions to drop is empty; the capacity
    /// is that of a batch.
    pub closed spec fn wf(&self) -> bool {
        &&& self.remove@.len() == 0
        &&& self.capacity <= i32::MAX
    }

    /// A filter chained onto `parent`, with the capacity of `parent` (which
    /// must not be negative: room for that many positions is reserved).
    pub fn new(parent: V, filter: F) -> (fb: FilterBatch<V, F>)
        requires
            parent.spec_capacity() >= 0,
            parent.spec_capacity() * vstd::layout::size_of::<usize>() <= isize::MAX,
        ensures
            fb.wf(),
            fb.spec_parent() == parent,
            fb.spec_filter() == filter,
            fb.spec_op_capacity() == parent.spec_capacity() as usize,
    {
        let capacity: usize = parent.capacity() as usize;
        FilterBatch { parent, filter, capacity, remove: Vec::with_capacity(capacity) }
    }

    /// Drops every packet of the batch it is chained onto.
    pub fn clear_packets(&mut self)
        where
            V: ClearPackets,
        requires
            old(self).wf(),
        ensures
            final(self).wf(),
            final(self).spec_filter() == old(self).spec_filter(),
            final(self).spec_op_capacity() == old(self).spec_op_capacity(),
            final(self).spec_parent().spec_packets().len() == 0,
            final(self).spec_parent().spec_capacity() == old(self).spec_parent().spec_capacity(),
    {
        self.parent.clear_packets_of()
    }

    /// The batch this operator is chained onto.
    pub fn get_packet_batch(&self) -> (b: &V)
        ensures
            *b == self.spec_parent(),
    {
        &self.parent
    }
}

/// A batch whose packets can all be dropped at once.
pub trait ClearPackets: Batch {
    /// Drops every packet.
    fn clear_packets_of(&mut self)
        ensures
            final(self).spec_packets().len() == 0,
            final(self).spec_capacity() == old(self).spec_capacity(),
    ;
}

impl ClearPackets for PacketBatch {
    fn clear_packets_of(&mut self) {
        self.clear_packets()
    }
}

/// What acting a filter does: the batch it is chained onto acts first; the
/// filter then gives a verdict on each of its packets, in order; the batch
/// drops exactly the positions of the rejected ones (and is not asked to drop
/// anything when none is rejected).
pub open spec fn filter_acted<V: Batch, F: Fn(&Packet) -> bool>(filter: F, before: V, after: V) -> bool {
    exists|mid: V, v: Seq<bool>|
        {
            &&& #[trigger] V::acted(before, mid)
            &&& #[trigger] verdicts_of(filter, mid.spec_packets(), v)
            &&& after.spec_packets() == keep_where(mid.spec_packets(), v)
            &&& if false_positions(v, v.len() as int).len() == 0 {
                after == mid
            } else {
                V::dropped(mid, false_positions(v, v.len() as int), after)
            }
        }
}

impl<V: Batch, F: Fn(&Packet) -> bool> Batch for FilterBatch<V, F> {
    open spec fn spec_packets(&self) -> Seq<Packet> {
        self.spec_parent().spec_packets()
    }

    open spec fn spec_capacity(&self) -> i32 {
        self.spec_op_capacity() as i32
    }

    /// The batch it is chained onto can act, and the filter can judge any packet.
    open spec fn ready(&self) -> bool {
        &&& self.wf()
        &&& self.spec_parent().ready()
        &&& forall|p: Packet| self.spec_filter().requires((&p,))
    }

    open spec fn acted(before: Self, after: Self) -> bool {
        &&& after.wf()
        &&& after.spec_filter() == before.spec_filter()
        &&& after.spec_op_capacity() == before.spec_op_capacity()
        &&& filter_acted(before.spec_filter(), before.spec_parent(), after.spec_parent())
    }

    open spec fn finished(before: Self, after: Self) -> bool {
        &&& after.wf() == before.wf()
        &&& after.spec_filter() == before.spec_filter()
        &&& after.spec_op_capacity() == before.spec_op_capacity()
        &&& V::finished(before.spec_parent(), after.spec_parent())
    }

    open spec fn dropped(before: Self, idxes: Seq<usize>, after: Self) -> bool {
        &&& after.wf() == before.wf()
        &&& after.spec_filter() == before.spec_filter()
        &&& after.spec_op_capacity() == before.spec_op_capacity()
        &&& V::dropped(before.spec_parent(), idxes, after.spec_parent())
    }

    /// Acts the batch it is chained onto, applies the filter to each of its
    /// packets in order, and has it drop those for which the filter returns false.
    fn act(&mut self) {
        assert(old(self).filter == old(self).spec_filter());
        assert(forall|p: Packet| old(self).filter.requires((&p,)));
        self.parent.act();
        let ghost mid = self.parent;
        let ghost s = self.parent.spec_packets();
        let ghost mut v: Seq<bool> = Seq::empty();
        let n: usize = self.parent.len();
        let mut idx: usize = 0;
        while idx < n
            invariant
                n == s.len(),
                idx <= n,
                self.parent == mid,
                s == mid.spec_packets(),
                self.filter == old(self).filter,
                self.capacity == old(self).capacity,
                self.capacity <= i32::MAX,
                forall|p: Packet| old(self).filter.requires((&p,)),
                v.len() == idx,
                forall|i: int| 0 <= i < idx ==> self.filter.ensures((&s[i],), #[trigger] v[i]),
                self.remove@ == false_positions(v, idx as int),
            decreases n - idx,
        {
            let keep = (self.filter)(self.parent.packet(idx));
            proof {
                let old_v = v;
                v = v.push(keep);
                assert(v.drop_last() =~= old_v);
                lemma_false_positions_prefix(v, idx as int);
            }
            if !keep {
                self.remove.push(idx);
            }
            idx = idx + 1;
        }
        proof {
            lemma_false_positions(v, n as int);
            lemma_drop_false_positions(s, v);
        }
        if !self.remove.is_empty() {
            let dropped = self.parent.drop_packets(self.remove.as_slice());
            assert(dropped is Some);
        } else {
            assert(self.remove@ =~= Seq::<usize>::empty());
        }
        self.remove.clear();
        assert(verdicts_of(self.filter, mid.spec_packets(), v));
        assert(filter_acted(old(self).filter, old(self).parent, self.parent));
    }

    /// The batch it is chained onto is done.
    fn done(&mut self) {
        self.parent.done()
    }

    fn capacity(&self) -> (c: i32) {
        self.capacity as i32
    }

    fn len(&self) -> (n: usize) {
        self.parent.len()
    }

    fn packet(&self, i: usize) -> (p: &Packet) {
        self.parent.packet(i)
    }

    fn packet_mut(&mut self, i: usize) -> (p: &mut Packet) {
        self.parent.packet_mut(i)
    }

    fn drop_packets(&mut self, idxes: &[usize]) -> (res: Option<usize>) {
        self.parent.drop_packets(idxes)
    }
}

/// None of a filter's operations changes the capacity it took from its batch
/// when it was made.
pub proof fn lemma_filter_capacity_fixed<V: Batch, F: Fn(&Packet) -> bool>(
    before: FilterBatch<V, F>,
    after: FilterBatch<V, F>,
    idxes: Seq<usize>,
)
    requires
        FilterBatch::<V, F>::acted(before, after) || FilterBatch::<V, F>::finished(before, after)
            || FilterBatch::<V, F>::dropped(before, idxes, after),
    ensures
        after.spec_capacity() == before.spec_capacity(),
        after.spec_op_capacity() == before.spec_op_capacity(),
{
}

/// The false positions among the first `n` verdicts do not depend on the verdicts after them.
proof fn lemma_false_positions_prefix(v: Seq<bool>, n: int)
    requires
        0 <= n < v.len(),
    ensures
        false_positions(v, n) == false_positions(v.drop_last(), n),
    decreases n,
{
    if n > 0 {
        lemma_false_positions_prefix(v, n - 1);
    }
}

/// `d` with the bytes from `off` on overwritten by `t`.
pub open spec fn overwrite(d: Seq<u8>, off: int, t: Seq<u8>) -> Seq<u8> {
    Seq::new(d.len(), |k: int| if off <= k < off + t.len() { t[k - off] } else { d[k] })
}

/// Whether every packet of `s` has room for a header of `n` bytes at its header offset.
pub open spec fn headers_fit(s: Seq<Packet>, n: nat) -> bool {
    forall|i: int| 0 <= i < s.len() ==> #[trigger] s[i].header_offset + n <= s[i].data@.len()
}

/// `s` with the header of every packet overwritten by `t`.
pub open spec fn headers_replaced(before: Seq<Packet>, after: Seq<Packet>, t: Seq<u8>) -> bool {
    &&& after.len() == before.len()
    &&& forall|i: int|
        0 <= i < before.len() ==> {
            let b = #[trigger] before[i];
            let a = after[i];
            &&& a.header_offset == b.header_offset
            &&& a.data@ == overwrite(b.data@, b.header_offset as int, t)
        }
}

/// Overwrites, each time it acts, the current header of every packet of the
/// batch it is chained onto with a template.
pub struct ReplaceBatch<V: Batch> {
    parent: V,
    template: Vec<u8>,
}

impl<V: Batch> ReplaceBatch<V> {
    /// The batch this operator is chained onto.
    pub closed spec fn spec_parent(&self) -> V {
        self.parent
    }

    /// The header written into every packet.
    pub closed spec fn spec_template(&self) -> Seq<u8> {
        self.template@
    }

    /// A replacer chained onto `parent`, writing `template`.
    pub fn new(parent: V, template: Vec<u8>) -> (rb: ReplaceBatch<V>)
        ensures
            rb.spec_parent() == parent,
            rb.spec_template() == template@,
    {
        ReplaceBatch { parent, template }
    }

    /// The batch this operator is chained onto.
    pub fn get_packet_batch(&self) -> (b: &V)
        ensures
            *b == self.spec_parent(),
    {
        &self.parent
    }
}

impl<V: Batch> Batch for ReplaceBatch<V> {
    open spec fn spec_packets(&self) -> Seq<Packet> {
        self.spec_parent().spec_packets()
    }

    open spec fn spec_capacity(&self) -> i32 {
        self.spec_parent().spec_capacity()
    }

    /// The batch it is chained onto can act, and whatever acting leaves it
    /// with has room for the template at every header.
    open spec fn ready(&self) -> bool {
        &&& self.spec_parent().ready()
        &&& forall|mid: V| #[trigger]
            V::acted(self.spec_parent(), mid) ==> headers_fit(mid.spec_packets(), self.spec_template().len())
    }

    open spec fn acted(before: Self, after: Self) -> bool {
        &&& after.spec_template() == before.spec_template()
        &&& exists|mid: V|
            {
                &&& #[trigger] V::acted(before.spec_parent(), mid)
                &&& headers_replaced(mid.spec_packets(), after.spec_packets(), before.spec_template())
                &&& after.spec_capacity() == mid.spec_capacity()
            }
    }

    open spec fn finished(before: Self, after: Self) -> bool {
        &&& after.spec_template() == before.spec_template()
        &&& V::finished(before.spec_parent(), after.spec_parent())
    }

    open spec fn dropped(before: Self, idxes: Seq<usize>, after: Self) -> bool {
        &&& after.spec_template() == before.spec_template()
        &&& V::dropped(before.spec_parent(), idxes, after.spec_parent())
    }

    /// Acts the batch it is chained onto, then overwrites the header of each
    /// of its packets with the template; nothing else of the packets changes.
    fn act(&mut self) {
        self.parent.act();
        let ghost mid = self.parent;
        let ghost s = self.parent.spec_packets();
        let n: usize = self.parent.len();
        let t: usize = self.template.len();
        let mut i: usize = 0;
        while i < n
            invariant
                n == s.len(),
                s == mid.spec_packets(),
                t == self.template@.len(),
                self.template == old(self).template,
                self.parent.spec_capacity() == mid.spec_capacity(),
                i <= n,
                self.parent.spec_packets().len() == n,
                headers_fit(s, t as nat),
                forall|j: int| 0 <= j < i ==> {
                    let after = #[trigger] self.parent.spec_packets()[j];
                    &&& after.header_offset == s[j].header_offset
                    &&& after.data@ == overwrite(s[j].data@, s[j].header_offset as int, self.template@)
                },
                forall|j: int| i <= j < n ==> #[trigger] self.parent.spec_packets()[j] == s[j],
            decreases n - i,
        {
            let ghost before_packets = self.parent.spec_packets();
            let p = self.parent.packet_mut(i);
            let off: usize = p.header_offset;
            let dlen: usize = p.data.len();
            assert(off + t <= s[i as int].data@.len());
            let mut k: usize = 0;
            while k < t
                invariant
                    t == self.template@.len(),
                    k <= t,
                    off == s[i as int].header_offset,
                    off + t <= s[i as int].data@.len(),
                    dlen == s[i as int].data@.len(),
                    p.header_offset == off,
                    p.data@ == overwrite(s[i as int].data@, off as int, self.template@.take(k as int)),
                decreases t - k,
            {
                let b: u8 = self.template[k];
                p.data.set(off + k, b);
                proof {
                    assert(p.data@ =~= overwrite(
                        s[i as int].data@,
                        off as int,
                        self.template@.take(k + 1),
                    ));
                }
                k = k + 1;
            }
            assert(self.template@.take(t as int) =~= self.template@);
            i = i + 1;
        }
        assert(headers_replaced(mid.spec_packets(), self.parent.spec_packets(), self.template@));
    }

    /// The batch it is chained onto is done.
    fn done(&mut self) {
        self.parent.done()
    }

    fn capacity(&self) -> (c: i32) {
        self.parent.capacity()
    }

    fn len(&self) -> (n: usize) {
        self.parent.len()
    }

    fn packet(&self, i: usize) -> (p: &Packet) {
        self.parent.packet(i)
    }

    fn packet_mut(&mut self, i: usize) -> (p: &mut Packet) {
        self.parent.packet_mut(i)
    }

    fn drop_packets(&mut self, idxes: &[usize]) -> (res: Option<usize>) {
        self.parent.drop_packets(idxes)
    }
}

} // verus!
