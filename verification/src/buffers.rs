//! The battlefield's bookkeeping buffers: ring buffers that keep the most
//! recent bodies and stuck arrows (oldest overwritten first), and the
//! live-arrow pool with its cap.
use vstd::prelude::*;

verus! {

/// A capped ring buffer: pushes append until `cap` items are held, then
/// overwrite the oldest. A zero cap disables it. `dirty` says the contents
/// changed since the renderer last copied them.
pub struct Ring<T> {
    data: Vec<T>,
    cursor: usize,
    cap: usize,
    dirty: bool,
}

impl<T> Ring<T> {
    /// The items held, in storage order.
    pub closed spec fn items(&self) -> Seq<T> {
        self.data@
    }

    /// The slot the next overwrite goes to once full.
    pub closed spec fn next_slot(&self) -> int {
        self.cursor as int
    }

    pub closed spec fn capacity(&self) -> int {
        self.cap as int
    }

    pub closed spec fn is_dirty(&self) -> bool {
        self.dirty
    }

    /// The ring's bookkeeping is consistent.
    pub closed spec fn wf(&self) -> bool {
        &&& self.data.len() <= self.cap
        &&& (self.cap == 0 ==> self.cursor == 0)
        &&& (self.cap > 0 ==> self.cursor < self.cap)
        &&& (self.data.len() < self.cap ==> self.cursor == 0)
    }

    /// An empty ring holding up to `cap` items.
    pub fn new(cap: usize) -> (r: Self)
        ensures
            r.wf(),
            r.items().len() == 0,
            r.capacity() == cap,
            r.next_slot() == 0,
            !r.is_dirty(),
    {
        Ring { data: Vec::new(), cursor: 0, cap, dirty: false }
    }

    /// Items held; never more than the cap, and overwrites only start at
    /// the oldest slot once the ring is full.
    pub fn len(&self) -> (n: usize)
        requires
            self.wf(),
        ensures
            n == self.items().len(),
            n <= self.capacity(),
            self.capacity() > 0 ==> 0 <= self.next_slot() < self.capacity(),
            n < self.capacity() ==> self.next_slot() == 0,
    {
        self.data.len()
    }

    pub fn as_slice(&self) -> (s: &[T])
        ensures
            s@ == self.items(),
    {
        self.data.as_slice()
    }

    /// Add an item; returns the slot it took (`None` when disabled). Until
    /// full it appends; then it replaces the oldest item and the overwrite
    /// slot moves on, wrapping around.
    pub fn push(&mut self, item: T) -> (slot: Option<usize>)
        requires
            old(self).wf(),
        ensures
            final(self).wf(),
            final(self).capacity() == old(self).capacity(),
            slot matches Some(i) ==> i < old(self).capacity(),
            old(self).capacity() > 0 ==> (final(self).items(), final(self).next_slot()) == pushed(
                old(self).items(),
                old(self).next_slot(),
                old(self).capacity(),
                item,
            ),
            old(self).capacity() == 0 ==> slot is None && final(self).items() == old(self).items()
                && final(self).next_slot() == old(self).next_slot()
                && final(self).is_dirty() == old(self).is_dirty(),
            old(self).capacity() > 0 && old(self).items().len() < old(self).capacity() ==> {
                &&& slot == Some(old(self).items().len() as usize)
                &&& final(self).items() == old(self).items().push(item)
                &&& final(self).next_slot() == old(self).next_slot()
                &&& final(self).is_dirty()
            },
            old(self).capacity() > 0 && old(self).items().len() == old(self).capacity() ==> {
                &&& slot == Some(old(self).next_slot() as usize)
                &&& final(self).items() == old(self).items().update(old(self).next_slot(), item)
                &&& final(self).next_slot() == (old(self).next_slot() + 1) % old(self).capacity()
                &&& final(self).is_dirty()
            },
    {
        if self.cap == 0 {
            return None;
        }
        if self.data.len() < self.cap {
            self.data.push(item);
            self.dirty = true;
            Some(self.data.len() - 1)
        } else {
            let at = self.cursor;
            self.data.set(at, item);
            self.cursor = (at + 1) % self.cap;
            self.dirty = true;
            Some(at)
        }
    }

    /// Empty the ring (a fresh battle).
    pub fn clear(&mut self)
        requires
            old(self).wf(),
        ensures
            final(self).wf(),
            final(self).items().len() == 0,
            final(self).capacity() == old(self).capacity(),
            final(self).next_slot() == 0,
            final(self).is_dirty(),
    {
        self.data.clear();
        self.cursor = 0;
        self.dirty = true;
    }

    /// Whether the contents changed since the last call; clears the flag.
    pub fn take_dirty(&mut self) -> (was: bool)
        requires
            old(self).wf(),
        ensures
            final(self).wf(),
            was == old(self).is_dirty(),
            !final(self).is_dirty(),
            final(self).items() == old(self).items(),
            final(self).capacity() == old(self).capacity(),
            final(self).next_slot() == old(self).next_slot(),
    {
        let was = self.dirty;
        self.dirty = false;
        was
    }
}

/// Which push, among the first `n`, the item in slot `k` of a full ring of
/// capacity `cap` came from: the latest one that went to that slot.
pub open spec fn last_writer(n: int, cap: int, k: int) -> int {
    k + cap * ((n - 1 - k) / cap)
}

/// A ring of capacity `cap` holds what the pushes `xs` leave in it: all of
/// them, in order, until it is full; then, in each slot, the latest push
/// that went there, with the overwrite cursor after the last one.
pub open spec fn ring_holds<T>(items: Seq<T>, cursor: int, xs: Seq<T>, cap: int) -> bool {
    if xs.len() < cap {
        items == xs && cursor == 0
    } else {
        &&& items.len() == cap
        &&& cursor == (xs.len() as int) % cap
        &&& forall|k: int| 0 <= k < cap ==> #[trigger] items[k] == xs[last_writer(xs.len() as int, cap, k)]
    }
}

/// The items and cursor of a ring of capacity `cap` after one push.
pub open spec fn pushed<T>(items: Seq<T>, cursor: int, cap: int, item: T) -> (Seq<T>, int) {
    if items.len() < cap {
        (items.push(item), cursor)
    } else {
        (items.update(cursor, item), (cursor + 1) % cap)
    }
}

proof fn lemma_last_writer_step(n: int, cap: int, k: int)
    requires
        cap > 0,
        n >= cap,
        0 <= k < cap,
    ensures
        n - cap <= last_writer(n, cap, k) < n,
        k == n % cap ==> last_writer(n + 1, cap, k) == n,
        k != n % cap ==> last_writer(n + 1, cap, k) == last_writer(n, cap, k),
{
    let x = n - 1 - k;
    let q = x / cap;
    let r = x % cap;
    vstd::arithmetic::div_mod::lemma_fundamental_div_mod(x, cap);
    vstd::arithmetic::div_mod::lemma_mod_pos_bound(x, cap);
    assert(cap * q == q * cap) by (nonlinear_arith);
    if r + 1 < cap {
        vstd::arithmetic::div_mod::lemma_fundamental_div_mod_converse(n - k, cap, q, r + 1);
        if k == n % cap {
            vstd::arithmetic::div_mod::lemma_fundamental_div_mod(n, cap);
            assert(cap * (n / cap) == (n / cap) * cap) by (nonlinear_arith);
            vstd::arithmetic::div_mod::lemma_fundamental_div_mod_converse(n - k, cap, n / cap, 0);
            assert(false);
        }
    } else {
        assert(n - k == (q + 1) * cap + 0) by (nonlinear_arith)
            requires
                x == cap * q + r,
                r + 1 == cap,
                x == n - 1 - k,
        ;
        vstd::arithmetic::div_mod::lemma_fundamental_div_mod_converse(n - k, cap, q + 1, 0);
        assert(n == (q + 1) * cap + k);
        vstd::arithmetic::div_mod::lemma_fundamental_div_mod_converse(n, cap, q + 1, k);
        assert(cap * (q + 1) == cap * q + cap) by (nonlinear_arith);
    }
}

/// The ring always holds the most recent pushes: if it holds what the
/// pushes `xs` leave, then after one more push it holds what `xs` and
/// that push leave. (So a full ring overwrites its oldest item.)
pub proof fn law_ring_keeps_latest<T>(items: Seq<T>, cursor: int, xs: Seq<T>, cap: int, item: T)
    requires
        cap > 0,
        ring_holds(items, cursor, xs, cap),
    ensures
        ring_holds(pushed(items, cursor, cap, item).0, pushed(items, cursor, cap, item).1, xs.push(item), cap),
{
    let n = xs.len() as int;
    let ys = xs.push(item);
    let (it2, c2) = pushed(items, cursor, cap, item);
    if n + 1 < cap {
    } else if n + 1 == cap {
        assert forall|k: int| 0 <= k < cap implies #[trigger] it2[k] == ys[last_writer(n + 1, cap, k)] by {
            vstd::arithmetic::div_mod::lemma_fundamental_div_mod_converse(n + 1 - 1 - k, cap, 0, n + 1 - 1 - k);
            assert(cap * ((n + 1 - 1 - k) / cap) == 0) by (nonlinear_arith)
                requires
                    (n + 1 - 1 - k) / cap == 0,
            ;
            assert(last_writer(n + 1, cap, k) == k);
        }
        vstd::arithmetic::div_mod::lemma_fundamental_div_mod_converse(n + 1, cap, 1, 0);
    } else {
        vstd::arithmetic::div_mod::lemma_fundamental_div_mod(n, cap);
        vstd::arithmetic::div_mod::lemma_mod_pos_bound(n, cap);
        assert(cap * (n / cap) == (n / cap) * cap) by (nonlinear_arith);
        if n % cap + 1 < cap {
            vstd::arithmetic::div_mod::lemma_fundamental_div_mod_converse(n + 1, cap, n / cap, n % cap + 1);
            vstd::arithmetic::div_mod::lemma_fundamental_div_mod_converse(n % cap + 1, cap, 0, n % cap + 1);
        } else {
            assert(n + 1 == (n / cap + 1) * cap + 0) by (nonlinear_arith)
                requires
                    n == cap * (n / cap) + n % cap,
                    n % cap + 1 == cap,
            ;
            vstd::arithmetic::div_mod::lemma_fundamental_div_mod_converse(n + 1, cap, n / cap + 1, 0);
            vstd::arithmetic::div_mod::lemma_fundamental_div_mod_converse(n % cap + 1, cap, 1, 0);
        }
        assert forall|k: int| 0 <= k < cap implies #[trigger] it2[k] == ys[last_writer(n + 1, cap, k)] by {
            lemma_last_writer_step(n, cap, k);
        }
    }
}

/// Per-kind body cap (ring-buffered: the oldest bodies fade).
pub const CORPSE_CAP: usize = 25_000;

/// Fallen soldiers left where they died, per unit kind, plus the bodies
/// added since the GPU last took them (tagged with the slot they took in
/// the GPU body region, `kind * CORPSE_CAP + ring index`).
pub struct Corpses<T> {
    pub rings: Vec<Ring<T>>,
    pub pending: Vec<(u32, T)>,
}

impl<T: Copy> Corpses<T> {
    pub open spec fn wf(&self) -> bool {
        &&& self.rings.len() == 4
        &&& forall|k: int| 0 <= k < 4 ==> (#[trigger] self.rings@[k]).capacity() == CORPSE_CAP && self.rings@[k].wf()
    }

    /// No bodies yet.
    pub fn new() -> (c: Self)
        ensures
            c.wf(),
            c.pending@.len() == 0,
            forall|k: int| 0 <= k < 4 ==> (#[trigger] c.rings@[k]).items().len() == 0,
    {
        let mut rings: Vec<Ring<T>> = Vec::new();
        let mut k: usize = 0;
        while k < 4
            invariant
                k <= 4,
                rings.len() == k,
                forall|j: int| 0 <= j < k ==> (#[trigger] rings@[j]).capacity() == CORPSE_CAP && rings@[j].items().len() == 0 && rings@[j].wf(),
            decreases 4 - k,
        {
            rings.push(Ring::new(CORPSE_CAP));
            k = k + 1;
        }
        Corpses { rings, pending: Vec::new() }
    }

    /// Leave a body of `kind`: it goes into that kind's ring and onto the
    /// pending list with the slot it took.
    pub fn push(&mut self, kind: usize, inst: T)
        requires
            old(self).wf(),
            kind < 4,
        ensures
            final(self).wf(),
            forall|k: int| 0 <= k < 4 && k != kind ==> #[trigger] final(self).rings@[k] == old(self).rings@[k],
            ({
                let r = old(self).rings@[kind as int];
                let index: int = if r.items().len() < CORPSE_CAP { r.items().len() as int } else { r.next_slot() };
                &&& final(self).pending@ == old(self).pending@.push(((kind * CORPSE_CAP + index) as u32, inst))
                &&& r.items().len() < CORPSE_CAP ==> final(self).rings@[kind as int].items() == r.items().push(inst)
                &&& r.items().len() >= CORPSE_CAP ==> final(self).rings@[kind as int].items() == r.items().update(r.next_slot(), inst)
                &&& r.items().len() < CORPSE_CAP ==> final(self).rings@[kind as int].next_slot() == r.next_slot()
                &&& r.items().len() >= CORPSE_CAP ==> final(self).rings@[kind as int].next_slot() == (r.next_slot() + 1)
                    % (CORPSE_CAP as int)
                &&& final(self).rings@[kind as int].capacity() == CORPSE_CAP
            }),
    {
        let mut ring = self.rings.remove(kind);
        let _held = ring.len();
        let slot = ring.push(inst);
        let index = match slot {
            Some(i) => i,
            None => 0,
        };
        self.rings.insert(kind, ring);
        assert(index < CORPSE_CAP);
        let tag = (kind * CORPSE_CAP + index) as u32;
        self.pending.push((tag, inst));
        assert forall|k: int| 0 <= k < 4 && k != kind implies #[trigger] self.rings@[k] == old(self).rings@[k] by {}
    }

    /// Bodies of a kind on the field, at most the cap.
    pub fn len(&self, kind: usize) -> (n: usize)
        requires
            self.wf(),
            kind < 4,
        ensures
            n == self.rings@[kind as int].items().len(),
            n <= CORPSE_CAP,
    {
        self.rings[kind].len()
    }

    /// Clear the field for a fresh battle.
    pub fn clear(&mut self)
        requires
            old(self).wf(),
        ensures
            final(self).wf(),
            final(self).pending@.len() == 0,
            forall|k: int| 0 <= k < 4 ==> (#[trigger] final(self).rings@[k]).items().len() == 0,
    {
        let mut k: usize = 0;
        while k < 4
            invariant
                k <= 4,
                self.wf(),
                forall|j: int| 0 <= j < k ==> (#[trigger] self.rings@[j]).items().len() == 0,
            decreases 4 - k,
        {
            let mut ring = self.rings.remove(k);
            ring.clear();
            self.rings.insert(k, ring);
            k = k + 1;
        }
        self.pending.clear();
    }
}

/// One live arrow.
#[derive(Clone, Copy)]
pub struct ArrowRow<V> {
    pub pos: V,
    /// Position at the previous tick (rendering interpolates).
    pub pos_prev: V,
    pub vel: V,
    pub team: u8,
    /// The shooter regiment (kill attribution).
    pub group: u32,
}

/// One loosed arrow, queued by the sim for this tick.
#[derive(Clone, Copy)]
pub struct ArrowSpawn<V> {
    pub pos: V,
    pub vel: V,
    pub team: u8,
    pub group: u32,
}

/// Live-arrow pool cap: looses past it are dropped and counted.
pub const ARROW_CAP: usize = 65_536;

/// All live arrows, structure-of-arrays.
pub struct Arrows<V> {
    pos: Vec<V>,
    pos_prev: Vec<V>,
    vel: Vec<V>,
    team: Vec<u8>,
    group: Vec<u32>,
}

/// The pool row a spawn becomes: it starts where it was loosed.
pub open spec fn spawn_row<V>(s: ArrowSpawn<V>) -> ArrowRow<V> {
    ArrowRow { pos: s.pos, pos_prev: s.pos, vel: s.vel, team: s.team, group: s.group }
}

impl<V> Arrows<V> {
    /// The columns have one entry per arrow.
    pub closed spec fn wf(&self) -> bool {
        &&& self.pos_prev.len() == self.pos.len()
        &&& self.vel.len() == self.pos.len()
        &&& self.team.len() == self.pos.len()
        &&& self.group.len() == self.pos.len()
    }

    /// The arrows, row by row.
    pub closed spec fn rows(&self) -> Seq<ArrowRow<V>> {
        Seq::new(
            self.pos.len() as nat,
            |i: int|
                ArrowRow {
                    pos: self.pos@[i],
                    pos_prev: self.pos_prev@[i],
                    vel: self.vel@[i],
                    team: self.team@[i],
                    group: self.group@[i],
                },
        )
    }
}

impl<V: Copy> Arrows<V> {
    pub fn new() -> (a: Self)
        ensures
            a.wf(),
            a.rows().len() == 0,
    {
        Arrows { pos: Vec::new(), pos_prev: Vec::new(), vel: Vec::new(), team: Vec::new(), group: Vec::new() }
    }

    pub fn len(&self) -> (n: usize)
        requires
            self.wf(),
        ensures
            n == self.rows().len(),
    {
        self.pos.len()
    }

    /// Row `i`.
    pub fn get(&self, i: usize) -> (r: ArrowRow<V>)
        requires
            self.wf(),
            i < self.rows().len(),
        ensures
            r == self.rows()[i as int],
    {
        ArrowRow { pos: self.pos[i], pos_prev: self.pos_prev[i], vel: self.vel[i], team: self.team[i], group: self.group[i] }
    }

    /// Advance row `i` one tick: the old position becomes the previous one.
    pub fn set_motion(&mut self, i: usize, pos: V, vel: V)
        requires
            old(self).wf(),
            i < old(self).rows().len(),
        ensures
            final(self).wf(),
            final(self).rows() == old(self).rows().update(
                i as int,
                ArrowRow { pos, pos_prev: old(self).rows()[i as int].pos, vel, ..old(self).rows()[i as int] },
            ),
    {
        let prev = self.pos[i];
        self.pos_prev.set(i, prev);
        self.pos.set(i, pos);
        self.vel.set(i, vel);
        assert(self.rows() =~= old(self).rows().update(
            i as int,
            ArrowRow { pos, pos_prev: old(self).rows()[i as int].pos, vel, ..old(self).rows()[i as int] },
        ));
    }

    /// Remove arrow `i` by moving the last one into its place.
    pub fn swap_remove(&mut self, i: usize)
        requires
            old(self).wf(),
            i < old(self).rows().len(),
        ensures
            final(self).wf(),
            final(self).rows() == old(self).rows().update(i as int, old(self).rows().last()).drop_last(),
    {
        self.pos.swap_remove(i);
        self.pos_prev.swap_remove(i);
        self.vel.swap_remove(i);
        self.team.swap_remove(i);
        self.group.swap_remove(i);
        assert(self.rows() =~= old(self).rows().update(i as int, old(self).rows().last()).drop_last());
    }

    /// Drop every arrow (a fresh battle).
    pub fn clear(&mut self)
        ensures
            final(self).wf(),
            final(self).rows().len() == 0,
    {
        self.pos.clear();
        self.pos_prev.clear();
        self.vel.clear();
        self.team.clear();
        self.group.clear();
    }

    /// Drain this tick's looses into the pool, in order, up to the pool
    /// cap; returns how many were admitted. The rest are dropped.
    pub fn take_spawns(&mut self, spawns: &Vec<ArrowSpawn<V>>) -> (loosed: usize)
        requires
            old(self).wf(),
        ensures
            final(self).wf(),
            ({
                let room = if old(self).rows().len() < ARROW_CAP { ARROW_CAP - old(self).rows().len() } else { 0 };
                &&& loosed == if spawns.len() < room { spawns.len() as int } else { room }
                &&& final(self).rows() == old(self).rows() + spawns@.take(loosed as int).map_values(
                    |s: ArrowSpawn<V>| spawn_row(s),
                )
            }),
    {
        let ghost orig = self.rows();
        let mut loosed: usize = 0;
        let mut k: usize = 0;
        while k < spawns.len()
            invariant
                k <= spawns.len(),
                loosed <= k,
                self.wf(),
                ({
                    let room = if orig.len() < ARROW_CAP { ARROW_CAP - orig.len() } else { 0 };
                    &&& loosed == if (k as int) < room { k as int } else { room }
                }),
                self.rows() == orig + spawns@.take(loosed as int).map_values(|s: ArrowSpawn<V>| spawn_row(s)),
            decreases spawns.len() - k,
        {
            if self.pos.len() < ARROW_CAP {
                assert(self.rows().len() == orig.len() + loosed);
                assert(loosed == k);
                let s = spawns[k];
                let ghost before = self.rows();
                self.pos.push(s.pos);
                self.pos_prev.push(s.pos);
                self.vel.push(s.vel);
                self.team.push(s.team);
                self.group.push(s.group);
                loosed = loosed + 1;
                proof {
                    assert(spawns@.take(loosed as int) =~= spawns@.take(loosed - 1).push(s));
                    assert(self.rows() =~= before.push(spawn_row(s)));
                    assert(spawns@.take(loosed as int).map_values(|s: ArrowSpawn<V>| spawn_row(s))
                        =~= spawns@.take(loosed - 1).map_values(|s: ArrowSpawn<V>| spawn_row(s)).push(spawn_row(s)));
                    assert(self.rows() =~= orig + spawns@.take(loosed as int).map_values(|s: ArrowSpawn<V>| spawn_row(s)));
                }
            }
            k = k + 1;
        }
        loosed
    }
}

/// The arrow traffic of the current tick (the HUD and the battle audio
/// read it): arrows loosed, arrows come down (on a body or on the ground),
/// arrows that struck a body, and looses dropped at the pool cap so far.
#[derive(Clone, Copy, PartialEq, Eq, Structural, Debug)]
pub struct ArrowStats {
    pub loosed: usize,
    pub landed: usize,
    pub hits: usize,
    pub dropped: u64,
}

/// Start an arrow tick: this tick's looses join the pool (those past the
/// cap are dropped and counted), and the landing counters start over.
pub fn drain_spawns<V: Copy>(arrows: &mut Arrows<V>, spawns: &Vec<ArrowSpawn<V>>, stats: &mut ArrowStats)
    requires
        old(arrows).wf(),
        old(stats).dropped + spawns.len() <= u64::MAX,
    ensures
        final(arrows).wf(),
        ({
            let room = if old(arrows).rows().len() < ARROW_CAP { ARROW_CAP - old(arrows).rows().len() } else { 0 };
            let loosed = if spawns.len() < room { spawns.len() as int } else { room };
            &&& final(stats).loosed == loosed
            &&& final(stats).dropped == old(stats).dropped + (spawns.len() - loosed)
            &&& final(arrows).rows() == old(arrows).rows() + spawns@.take(loosed).map_values(
                |s: ArrowSpawn<V>| spawn_row(s),
            )
        }),
        final(stats).landed == 0,
        final(stats).hits == 0,
{
    let loosed = arrows.take_spawns(spawns);
    stats.loosed = loosed;
    stats.dropped = stats.dropped + (spawns.len() - loosed) as u64;
    stats.landed = 0;
    stats.hits = 0;
}

/// The looses of several buffers, buffer after buffer.
pub open spec fn flat<V>(ss: Seq<Vec<ArrowSpawn<V>>>) -> Seq<ArrowSpawn<V>>
    decreases ss.len(),
{
    if ss.len() == 0 {
        Seq::empty()
    } else {
        flat(ss.drop_last()) + ss.last()@
    }
}

proof fn lemma_take_extend<V>(f: Seq<ArrowSpawn<V>>, g: Seq<ArrowSpawn<V>>, loosed: int, r: int, l: int)
    requires
        0 <= r,
        loosed == if f.len() < r { f.len() as int } else { r },
        l == if g.len() < r - loosed { g.len() as int } else { r - loosed },
    ensures
        loosed + l == if f.len() + g.len() < r { (f.len() + g.len()) as int } else { r },
        (f + g).take(loosed + l).map_values(|s: ArrowSpawn<V>| spawn_row(s)) == f.take(loosed).map_values(
            |s: ArrowSpawn<V>| spawn_row(s),
        ) + g.take(l).map_values(|s: ArrowSpawn<V>| spawn_row(s)),
{
    if loosed == f.len() {
        assert((f + g).take(loosed + l) =~= f + g.take(l));
    } else {
        assert(l == 0);
        assert((f + g).take(loosed + l) =~= f.take(loosed));
        assert(g.take(l) =~= Seq::<ArrowSpawn<V>>::empty());
    }
    assert((f + g).take(loosed + l).map_values(|s: ArrowSpawn<V>| spawn_row(s)) =~= f.take(loosed).map_values(
        |s: ArrowSpawn<V>| spawn_row(s),
    ) + g.take(l).map_values(|s: ArrowSpawn<V>| spawn_row(s)));
}

/// Start an arrow tick from the per-chunk loose buffers: every buffer is
/// drained in turn into the pool (looses past the cap are dropped and
/// counted), every buffer ends empty, and the landing counters start over.
pub fn drain_chunk_spawns<V: Copy>(
    arrows: &mut Arrows<V>,
    spawns: &mut Vec<Vec<ArrowSpawn<V>>>,
    stats: &mut ArrowStats,
)
    requires
        old(arrows).wf(),
        old(stats).dropped + flat(old(spawns)@).len() <= u64::MAX,
    ensures
        final(arrows).wf(),
        final(spawns).len() == old(spawns).len(),
        forall|k: int| 0 <= k < old(spawns).len() ==> (#[trigger] final(spawns)@[k])@.len() == 0,
        ({
            let all = flat(old(spawns)@);
            let room = if old(arrows).rows().len() < ARROW_CAP { ARROW_CAP - old(arrows).rows().len() } else { 0 };
            let loosed = if all.len() < room { all.len() as int } else { room };
            &&& final(stats).loosed == loosed
            &&& final(stats).dropped == old(stats).dropped + (all.len() - loosed)
            &&& final(arrows).rows() == old(arrows).rows() + all.take(loosed).map_values(
                |s: ArrowSpawn<V>| spawn_row(s),
            )
        }),
        final(stats).landed == 0,
        final(stats).hits == 0,
{
    let ghost orig = arrows.rows();
    let ghost ss = spawns@;
    let ghost room: int = if orig.len() < ARROW_CAP { ARROW_CAP - orig.len() } else { 0 };
    let n = spawns.len();
    let mut loosed: usize = 0;
    let mut total: u64 = 0;
    let mut k: usize = 0;
    proof {
        assert(ss.take(0) =~= Seq::<Vec<ArrowSpawn<V>>>::empty());
        assert(flat(ss.take(0)).take(0) =~= Seq::<ArrowSpawn<V>>::empty());
        assert(orig + Seq::<ArrowSpawn<V>>::empty().map_values(|s: ArrowSpawn<V>| spawn_row(s)) =~= orig);
        lemma_flat_prefix_len(ss, 0, n as int);
    }
    while k < n
        invariant
            k <= n,
            n == ss.len(),
            spawns.len() == n,
            arrows.wf(),
            forall|j: int| k <= j < n ==> #[trigger] spawns@[j] == ss[j],
            forall|j: int| 0 <= j < k ==> (#[trigger] spawns@[j])@.len() == 0,
            0 <= room,
            room == if orig.len() < ARROW_CAP { ARROW_CAP - orig.len() } else { 0 },
            loosed == if flat(ss.take(k as int)).len() < room { flat(ss.take(k as int)).len() as int } else { room },
            total == flat(ss.take(k as int)).len(),
            flat(ss.take(k as int)).len() <= flat(ss).len(),
            old(stats).dropped + flat(ss).len() <= u64::MAX,
            arrows.rows() == orig + flat(ss.take(k as int)).take(loosed as int).map_values(
                |s: ArrowSpawn<V>| spawn_row(s),
            ),
        decreases n - k,
    {
        let ghost f = flat(ss.take(k as int));
        let ghost g = ss[k as int]@;
        proof {
            assert(ss.take(k + 1).drop_last() =~= ss.take(k as int));
            assert(flat(ss.take(k + 1)) == f + g);
            lemma_flat_prefix_len(ss, k + 1, n as int);
        }
        let l = arrows.take_spawns(&spawns[k]);
        proof {
            lemma_take_extend(f, g, loosed as int, room, l as int);
            assert(arrows.rows() =~= orig + (f + g).take(loosed + l).map_values(|s: ArrowSpawn<V>| spawn_row(s)));
        }
        let cnt = spawns[k].len() as u64;
        total = total + cnt;
        loosed = loosed + l;
        spawns.set(k, Vec::new());
        k = k + 1;
    }
    proof {
        assert(ss.take(n as int) =~= ss);
    }
    stats.loosed = loosed;
    stats.dropped = stats.dropped + (total - loosed as u64);
    stats.landed = 0;
    stats.hits = 0;
}

proof fn lemma_flat_prefix_len<V>(ss: Seq<Vec<ArrowSpawn<V>>>, k: int, n: int)
    requires
        0 <= k <= n,
        n == ss.len(),
    ensures
        flat(ss.take(k)).len() <= flat(ss).len(),
    decreases n - k,
{
    if k < n {
        lemma_flat_prefix_len(ss, k + 1, n);
        assert(ss.take(k + 1).drop_last() =~= ss.take(k));
    } else {
        assert(ss.take(k) =~= ss);
    }
}

/// Where an arrow's flight this tick ended.
#[derive(Clone, Copy, PartialEq, Eq, Structural, Debug)]
pub enum ArrowFate {
    /// Still in the air.
    Flying,
    /// Struck a living soldier.
    Body,
    /// Came down on the ground (its shaft stays stuck there).
    Ground,
}

/// Settle arrow `i` after its flight step: one that struck a body or the
/// ground leaves the pool (the last arrow takes its row) and is counted;
/// one still flying stays. Returns whether it left.
pub fn settle_arrow<V: Copy>(arrows: &mut Arrows<V>, i: usize, fate: ArrowFate, stats: &mut ArrowStats) -> (gone: bool)
    requires
        old(arrows).wf(),
        i < old(arrows).rows().len(),
        old(stats).landed < usize::MAX,
        old(stats).hits < usize::MAX,
    ensures
        final(arrows).wf(),
        gone == (fate != ArrowFate::Flying),
        !gone ==> final(arrows).rows() == old(arrows).rows() && *final(stats) == *old(stats),
        gone ==> final(arrows).rows() == old(arrows).rows().update(i as int, old(arrows).rows().last()).drop_last(),
        gone ==> *final(stats) == (ArrowStats {
            landed: (old(stats).landed + 1) as usize,
            hits: if fate == ArrowFate::Body { (old(stats).hits + 1) as usize } else { old(stats).hits },
            ..*old(stats)
        }),
{
    match fate {
        ArrowFate::Flying => false,
        ArrowFate::Body => {
            stats.hits = stats.hits + 1;
            stats.landed = stats.landed + 1;
            arrows.swap_remove(i);
            true
        },
        ArrowFate::Ground => {
            stats.landed = stats.landed + 1;
            arrows.swap_remove(i);
            true
        },
    }
}

/// The litter of spent arrows stuck in the ground: a ring (the oldest
/// shafts vanish once it is full).
pub type StuckArrows<T> = Ring<T>;

/// Clear every arrow buffer for a fresh battle: the live arrows, each
/// pending loose buffer, and the litter.
pub fn reset<V: Copy, T>(arrows: &mut Arrows<V>, spawns: &mut Vec<Vec<ArrowSpawn<V>>>, stuck: &mut StuckArrows<T>)
    requires
        old(stuck).wf(),
    ensures
        final(arrows).wf(),
        final(arrows).rows().len() == 0,
        final(spawns).len() == old(spawns).len(),
        forall|k: int| 0 <= k < old(spawns).len() ==> (#[trigger] final(spawns)@[k])@.len() == 0,
        final(stuck).wf(),
        final(stuck).items().len() == 0,
        final(stuck).capacity() == old(stuck).capacity(),
        final(stuck).next_slot() == 0,
        final(stuck).is_dirty(),
{
    arrows.clear();
    let n = spawns.len();
    let mut k: usize = 0;
    while k < n
        invariant
            k <= n,
            spawns.len() == n,
            forall|j: int| 0 <= j < k ==> (#[trigger] spawns@[j])@.len() == 0,
        decreases n - k,
    {
        let ghost before = spawns@;
        spawns.set(k, Vec::new());
        proof {
            assert forall|j: int| 0 <= j < k + 1 implies (#[trigger] spawns@[j])@.len() == 0 by {
                if j < k {
                    assert(spawns@[j] == before[j]);
                }
            }
        }
        k = k + 1;
    }
    stuck.clear();
}

} // verus!
