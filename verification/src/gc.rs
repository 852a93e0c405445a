//! The garbage collector: an arena of heap boxes with an explicit free list,
//! collected by marking everything bound in the active environment chain and
//! sweeping every unmarked live box.

use crate::object::{views_of_envs, EnvV, Environment, ObjRef, Object};
use vstd::prelude::*;

verus! {

broadcast use vstd::std_specs::vec::group_vec_axioms, vstd::seq::group_seq_axioms;

/// One heap box: the value it holds, its reachability mark, whether the box
/// is live, and the generation of its slot.  Freeing a box leaves the slot in
/// place with `live` false and the generation advanced, so stale handles to
/// it can be told apart from handles to whatever is allocated there next.
#[derive(Debug)]
pub struct GCBox<T> {
    pub inner: T,
    pub is_marked: bool,
    pub live: bool,
    pub gen: u64,
}

/// The collector: a slot arena of heap boxes plus the free list of dead slot
/// indices, reused by allocation from its end.
#[derive(Debug)]
pub struct GC<T> {
    pub slots: Vec<GCBox<T>>,
    pub free: Vec<usize>,
}

/// The mathematical value of one heap box holding an object.
pub ghost struct SlotV {
    pub inner: crate::object::ObjectV,
    pub is_marked: bool,
    pub live: bool,
    pub gen: u64,
}

/// The views of the heap boxes of `s`, in order.
pub open spec fn views_of_slots(s: Seq<GCBox<Object>>) -> Seq<SlotV> {
    Seq::new(
        s.len(),
        |k: int|
            SlotV {
                inner: s[k].inner@,
                is_marked: s[k].is_marked,
                live: s[k].live,
                gen: s[k].gen,
            },
    )
}

/// Whether the handle `r` is valid for `slots`: its slot exists, is live, and
/// is still in the generation the handle was made in.
pub open spec fn valid_slot(slots: Seq<SlotV>, r: ObjRef) -> bool {
    r.idx < slots.len() && slots[r.idx as int].live && slots[r.idx as int].gen == r.gen
}

/// Well-formedness of the collector: the free list names exactly the dead
/// slots, each once.
pub open spec fn gc_wf<T>(gc: &GC<T>) -> bool {
    &&& forall|i: int|
        0 <= i < gc.free@.len() ==> (#[trigger] gc.free@[i]) < gc.slots@.len()
            && !gc.slots@[gc.free@[i] as int].live
    &&& forall|i: int, j: int|
        0 <= i < j < gc.free@.len() ==> (#[trigger] gc.free@[i]) != (#[trigger] gc.free@[j])
    &&& forall|k: int|
        0 <= k < gc.slots@.len() && !(#[trigger] gc.slots@[k]).live ==> exists|i: int|
            0 <= i < gc.free@.len() && gc.free@[i] == k
}

/// Whether some binding of `store` holds the handle `r`.
pub open spec fn in_store(store: Seq<(Seq<char>, ObjRef)>, r: ObjRef) -> bool {
    exists|i: int| 0 <= i < store.len() && (#[trigger] store[i]).1 == r
}

/// Whether the handle `r` is bound somewhere in the environment chain that
/// starts at arena index `at`.
pub open spec fn bound_in_chain(envs: Seq<EnvV>, at: int, r: ObjRef) -> bool
    decreases at,
{
    if at < 0 || at >= envs.len() {
        false
    } else {
        in_store(envs[at].store, r) || (match envs[at].outer {
            Some(o) => if 0 <= o < at {
                bound_in_chain(envs, o, r)
            } else {
                false
            },
            None => false,
        })
    }
}

/// Whether slot `k` is hit by some valid handle bound in the chain starting
/// at `at`: such slots are exactly what marking from that chain marks.
pub open spec fn chain_hits(envs: Seq<EnvV>, at: int, slots: Seq<SlotV>, k: int) -> bool {
    exists|r: ObjRef|
        #[trigger] bound_in_chain(envs, at, r) && r.idx == k && valid_slot(slots, r)
}

/// The slots after marking from the chain at `at`: every slot hit by a valid
/// chain-bound handle gains the mark, everything else is unchanged.
pub open spec fn mark_chain_v(slots: Seq<SlotV>, envs: Seq<EnvV>, at: int) -> Seq<SlotV> {
    Seq::new(
        slots.len(),
        |k: int|
            if chain_hits(envs, at, slots, k) {
                SlotV { is_marked: true, ..slots[k] }
            } else {
                slots[k]
            },
    )
}

/// One slot after a sweep: a marked live slot survives with its mark cleared,
/// an unmarked live slot is freed and its generation advanced, and a dead
/// slot is left as it is.
pub open spec fn sweep_slot_v(s: SlotV) -> SlotV {
    if s.live && s.is_marked {
        SlotV { is_marked: false, ..s }
    } else if s.live {
        SlotV { live: false, gen: next_gen(s.gen), ..s }
    } else {
        s
    }
}

/// The generation after a slot is freed.
pub open spec fn next_gen(g: u64) -> u64 {
    if g < u64::MAX {
        (g + 1) as u64
    } else {
        g
    }
}

/// The slots after a sweep, each transformed by [`sweep_slot_v`].
pub open spec fn sweep_slots_v(slots: Seq<SlotV>) -> Seq<SlotV> {
    Seq::new(slots.len(), |k: int| sweep_slot_v(slots[k]))
}

/// The slot indices that a sweep of the first `n` slots frees, in ascending
/// order: the live, unmarked ones.
pub open spec fn freed_list(slots: Seq<SlotV>, n: int) -> Seq<usize>
    decreases n,
{
    if n <= 0 {
        Seq::empty()
    } else if slots[n - 1].live && !slots[n - 1].is_marked {
        freed_list(slots, n - 1).push((n - 1) as usize)
    } else {
        freed_list(slots, n - 1)
    }
}

impl<T> GCBox<T> {
    /// A fresh, unmarked, live box holding `source`.
    pub fn new(source: T) -> (b: GCBox<T>)
        ensures
            b.inner == source,
            !b.is_marked,
            b.live,
            b.gen == 0,
    {
        GCBox { inner: source, is_marked: false, live: true, gen: 0 }
    }

    /// Sets the reachability mark of this box.
    pub fn mark(&mut self)
        ensures
            final(self).inner == old(self).inner,
            final(self).is_marked,
            final(self).live == old(self).live,
            final(self).gen == old(self).gen,
    {
        self.is_marked = true;
    }
}

impl<T> GC<T> {
    /// An empty collector: no slots, nothing free.
    pub fn new() -> (gc: GC<T>)
        ensures
            gc.slots@ == Seq::<GCBox<T>>::empty(),
            gc.free@ == Seq::<usize>::empty(),
            gc_wf(&gc),
    {
        let gc = GC { slots: Vec::new(), free: Vec::new() };
        proof {
            assert(gc.slots@ =~= Seq::<GCBox<T>>::empty());
            assert(gc.free@ =~= Seq::<usize>::empty());
        }
        gc
    }

    /// Links the box `to_add` into the collector and returns its handle: the
    /// last free slot is reused in its current generation, else a new slot is
    /// appended.  Every live slot is left exactly as it was, and the handle
    /// is valid and fresh: no handle that was valid before aliases it.
    pub fn add(&mut self, to_add: GCBox<T>) -> (r: ObjRef)
        requires
            gc_wf(old(self)),
        ensures
            ({
                let pre = *old(self);
                let post = *final(self);
                &&& r.idx < post.slots@.len()
                &&& post.slots@[r.idx as int].inner == to_add.inner
                &&& post.slots@[r.idx as int].live
                &&& !post.slots@[r.idx as int].is_marked
                &&& post.slots@[r.idx as int].gen == r.gen
                &&& (r.idx as int >= pre.slots@.len() || !pre.slots@[r.idx as int].live)
                &&& if pre.free@.len() > 0 {
                    &&& r.idx == pre.free@.last()
                    &&& post.free@ == pre.free@.drop_last()
                    &&& post.slots@.len() == pre.slots@.len()
                    &&& r.gen == pre.slots@[r.idx as int].gen
                } else {
                    &&& r.idx as int == pre.slots@.len()
                    &&& post.free@ == pre.free@
                    &&& post.slots@.len() == pre.slots@.len() + 1
                    &&& r.gen == 0
                }
                &&& forall|k: int|
                    0 <= k < pre.slots@.len() && k != r.idx ==> post.slots@[k] == pre.slots@[k]
                &&& gc_wf(final(self))
            }),
    {
        let popped = self.free.pop();
        match popped {
            Some(i) => {
                let g = self.slots[i].gen;
                self.slots[i] = GCBox { inner: to_add.inner, is_marked: false, live: true, gen: g };
                proof {
                    assert forall|k: int|
                        0 <= k < self.slots@.len() && !(#[trigger] self.slots@[k]).live implies exists|
                        j: int,
                    |
                        0 <= j < self.free@.len() && self.free@[j] == k by {
                        let j = choose|j: int|
                            0 <= j < old(self).free@.len() && (#[trigger] old(self).free@[j]) == k;
                        assert(j < old(self).free@.len() - 1);
                        assert(self.free@[j] == k);
                    }
                }
                ObjRef { idx: i, gen: g }
            },
            None => {
                let i = self.slots.len();
                self.slots.push(
                    GCBox { inner: to_add.inner, is_marked: false, live: true, gen: 0 },
                );
                proof {
                    assert forall|k: int|
                        0 <= k < self.slots@.len() && !(#[trigger] self.slots@[k]).live implies exists|
                        j: int,
                    |
                        0 <= j < self.free@.len() && self.free@[j] == k by {
                        assert(k < old(self).slots@.len());
                        let j = choose|j: int|
                            0 <= j < old(self).free@.len() && (#[trigger] old(self).free@[j]) == k;
                        assert(self.free@[j] == k);
                    }
                }
                ObjRef { idx: i, gen: 0 }
            },
        }
    }
}

impl GC<Object> {
    /// Reads the object behind `r`, if `r` is still valid: its slot is live
    /// in the same generation the handle was made in.
    pub fn try_read(&self, r: ObjRef) -> (res: Option<&Object>)
        ensures
            match res {
                Some(obj) => valid_slot(views_of_slots(self.slots@), r) && obj@ == views_of_slots(
                    self.slots@,
                )[r.idx as int].inner,
                None => !valid_slot(views_of_slots(self.slots@), r),
            },
    {
        if r.idx < self.slots.len() {
            let slot = &self.slots[r.idx];
            if slot.live && slot.gen == r.gen {
                return Some(&slot.inner);
            }
        }
        None
    }

    /// Sweeps the arena: frees every live box that is not marked, advancing
    /// its slot's generation and appending its index to the free list in
    /// ascending order, and clears the mark on every surviving box.  Dead
    /// slots are untouched, so nothing is ever freed twice.
    pub fn sweep(&mut self)
        ensures
            views_of_slots(final(self).slots@) == sweep_slots_v(views_of_slots(old(self).slots@)),
            final(self).free@ == old(self).free@ + freed_list(
                views_of_slots(old(self).slots@),
                old(self).slots@.len() as int,
            ),
            gc_wf(old(self)) ==> gc_wf(final(self)),
    {
        let ghost slots0 = views_of_slots(old(self).slots@);
        let ghost free0 = old(self).free@;
        let n = self.slots.len();
        let mut k: usize = 0;
        proof {
            assert(free0 + freed_list(slots0, 0) =~= free0);
        }
        while k < n
            invariant
                n == self.slots@.len(),
                0 <= k <= n,
                slots0.len() == n,
                slots0 == views_of_slots(old(self).slots@),
                free0 == old(self).free@,
                self.free@ == free0 + freed_list(slots0, k as int),
                forall|j: int| 0 <= j < k ==> views_of_slots(self.slots@)[j] == sweep_slot_v(slots0[j]),
                forall|j: int| k <= j < n ==> views_of_slots(self.slots@)[j] == slots0[j],
                forall|j: int|
                    k <= j < n ==> (#[trigger] self.slots@[j]).inner == old(self).slots@[j].inner
                        && self.slots@[j].is_marked == old(self).slots@[j].is_marked
                        && self.slots@[j].live == old(self).slots@[j].live && self.slots@[j].gen
                        == old(self).slots@[j].gen,
            decreases n - k,
        {
            let ghost pre_slots = self.slots@;
            let live_now = self.slots[k].live;
            let marked_now = self.slots[k].is_marked;
            if live_now && marked_now {
                self.slots[k].is_marked = false;
            } else if live_now {
                self.slots[k].live = false;
                let g = self.slots[k].gen;
                if g < u64::MAX {
                    self.slots[k].gen = g + 1;
                }
                self.free.push(k);
            }
            proof {
                assert(self.slots@.len() == n);
                assert(forall|j: int| 0 <= j < n && j != k ==> self.slots@[j] == pre_slots[j]);
                assert(forall|j: int|
                    0 <= j < n && j != k ==> views_of_slots(self.slots@)[j] == views_of_slots(
                        pre_slots,
                    )[j]);
                assert(freed_list(slots0, k as int + 1) == if slots0[k as int].live
                    && !slots0[k as int].is_marked {
                    freed_list(slots0, k as int).push(k)
                } else {
                    freed_list(slots0, k as int)
                });
                if slots0[k as int].live && !slots0[k as int].is_marked {
                    assert(self.free@ =~= free0 + freed_list(slots0, k as int + 1));
                } else {
                    assert(self.free@ =~= free0 + freed_list(slots0, k as int + 1));
                }
                assert(views_of_slots(self.slots@)[k as int] == sweep_slot_v(slots0[k as int]));
                assert forall|j: int|
                    0 <= j < k + 1 implies views_of_slots(self.slots@)[j] == sweep_slot_v(
                    slots0[j],
                ) by {
                    if j < k {
                        assert(views_of_slots(self.slots@)[j] == views_of_slots(pre_slots)[j]);
                        assert(views_of_slots(pre_slots)[j] == sweep_slot_v(slots0[j]));
                    }
                }
            }
            k += 1;
        }
        proof {
            assert(views_of_slots(self.slots@) =~= sweep_slots_v(slots0));
            lemma_freed_list_members(slots0, n as int);
            let fl = freed_list(slots0, n as int);
            if gc_wf(&old(self)) {
                assert forall|i: int|
                    0 <= i < self.free@.len() implies (#[trigger] self.free@[i])
                    < self.slots@.len() && !self.slots@[self.free@[i] as int].live by {
                    if i < free0.len() {
                        let idx = free0[i] as int;
                        assert(old(self).free@[i] == free0[i]);
                        assert(!old(self).slots@[idx].live);
                        assert(slots0[idx].live == old(self).slots@[idx].live);
                        assert(views_of_slots(self.slots@)[idx] == sweep_slot_v(slots0[idx]));
                        assert(self.slots@[idx].live == views_of_slots(self.slots@)[idx].live);
                    } else {
                        let idx = fl[i - free0.len()] as int;
                        assert(self.free@[i] == fl[i - free0.len()]);
                        assert(slots0[idx].live && !slots0[idx].is_marked);
                        assert(views_of_slots(self.slots@)[idx] == sweep_slot_v(slots0[idx]));
                        assert(self.slots@[idx].live == views_of_slots(self.slots@)[idx].live);
                    }
                }
                assert forall|i: int, j: int|
                    0 <= i < j < self.free@.len() implies (#[trigger] self.free@[i]) != (
                #[trigger] self.free@[j]) by {
                    if i < free0.len() && j >= free0.len() {
                        assert(!old(self).slots@[free0[i] as int].live);
                        assert(slots0[fl[j - free0.len()] as int].live);
                        assert(slots0[free0[i] as int].live == old(self).slots@[free0[i] as int].live);
                    }
                    if i >= free0.len() {
                        lemma_freed_list_sorted(slots0, n as int);
                        assert(fl[i - free0.len()] < fl[j - free0.len()]);
                    }
                }
                assert forall|kk: int|
                    0 <= kk < self.slots@.len() && !(#[trigger] self.slots@[kk]).live implies exists|
                    i: int,
                |
                    0 <= i < self.free@.len() && self.free@[i] == kk by {
                    assert(self.slots@[kk].live == views_of_slots(self.slots@)[kk].live);
                    assert(views_of_slots(self.slots@)[kk] == sweep_slot_v(slots0[kk]));
                    if slots0[kk].live {
                        assert(!slots0[kk].is_marked);
                        let i = choose|i: int|
                            0 <= i < fl.len() && (#[trigger] fl[i]) == kk;
                        assert(self.free@[free0.len() + i] == kk);
                    } else {
                        assert(slots0[kk].live == old(self).slots@[kk].live);
                        let i = choose|i: int|
                            0 <= i < free0.len() && (#[trigger] free0[i]) == kk;
                        assert(self.free@[i] == kk);
                    }
                }
            }
        }
    }
}

impl GCBox<Object> {
    /// Marks every heap box that a valid handle bound in the environment
    /// chain of `root` points to, and touches nothing else: afterwards the
    /// slots are exactly [`mark_chain_v`] of what they were.
    pub fn mark_env(gc: &mut GC<Object>, envs: &Vec<Environment>, root: usize)
        ensures
            final(gc).free@ == old(gc).free@,
            views_of_slots(final(gc).slots@) == mark_chain_v(
                views_of_slots(old(gc).slots@),
                views_of_envs(envs@),
                root as int,
            ),
            gc_wf(old(gc)) ==> gc_wf(final(gc)),
    {
        let ghost evs = views_of_envs(envs@);
        let ghost slots0 = views_of_slots(old(gc).slots@);
        let ghost rt = root as int;
        if root >= envs.len() {
            proof {
                assert forall|k: int| 0 <= k < slots0.len() implies !chain_hits(
                    evs,
                    rt,
                    slots0,
                    k,
                ) by {
                    if chain_hits(evs, rt, slots0, k) {
                        let r = choose|r: ObjRef| #[trigger]
                            bound_in_chain(evs, rt, r) && r.idx == k && valid_slot(slots0, r);
                        assert(false);
                    }
                }
                assert(views_of_slots(gc.slots@) =~= mark_chain_v(slots0, evs, rt));
            }
            return ;
        }
        let mut cur: usize = root;
        loop
            invariant_except_break
                cur < envs@.len(),
                evs == views_of_envs(envs@),
                slots0 == views_of_slots(old(gc).slots@),
                gc.free@ == old(gc).free@,
                gc.slots@.len() == slots0.len(),
                forall|k: int|
                    0 <= k < slots0.len() ==> (#[trigger] views_of_slots(gc.slots@)[k]).inner
                        == slots0[k].inner && views_of_slots(gc.slots@)[k].live == slots0[k].live
                        && views_of_slots(gc.slots@)[k].gen == slots0[k].gen,
                forall|k: int|
                    0 <= k < slots0.len() && slots0[k].is_marked ==> (#[trigger] views_of_slots(
                        gc.slots@,
                    )[k]).is_marked,
                forall|k: int|
                    0 <= k < slots0.len() && (#[trigger] views_of_slots(gc.slots@)[k]).is_marked
                        ==> slots0[k].is_marked || chain_hits(evs, rt, slots0, k),
                forall|r: ObjRef|
                    #[trigger] bound_in_chain(evs, rt, r) && valid_slot(slots0, r) ==>
                    bound_in_chain(evs, cur as int, r) || views_of_slots(
                        gc.slots@,
                    )[r.idx as int].is_marked,
                forall|r: ObjRef|
                    #[trigger] bound_in_chain(evs, cur as int, r) ==> bound_in_chain(evs, rt, r),
            ensures
                gc.free@ == old(gc).free@,
                gc.slots@.len() == slots0.len(),
                forall|k: int|
                    0 <= k < slots0.len() ==> (#[trigger] views_of_slots(gc.slots@)[k]).inner
                        == slots0[k].inner && views_of_slots(gc.slots@)[k].live == slots0[k].live
                        && views_of_slots(gc.slots@)[k].gen == slots0[k].gen,
                forall|k: int|
                    0 <= k < slots0.len() ==> ((#[trigger] views_of_slots(gc.slots@)[k]).is_marked
                        <==> (slots0[k].is_marked || chain_hits(evs, rt, slots0, k))),
            decreases cur,
        {
            let e = &envs[cur];
            let n = e.store.len();
            let mut i: usize = 0;
            while i < n
                invariant
                    n == e.store@.len(),
                    0 <= i <= n,
                    e@ == evs[cur as int],
                    cur < evs.len(),
                    evs == views_of_envs(envs@),
                    slots0 == views_of_slots(old(gc).slots@),
                    gc.free@ == old(gc).free@,
                    gc.slots@.len() == slots0.len(),
                    forall|k: int|
                        0 <= k < slots0.len() ==> (#[trigger] views_of_slots(gc.slots@)[k]).inner
                            == slots0[k].inner && views_of_slots(gc.slots@)[k].live
                            == slots0[k].live && views_of_slots(gc.slots@)[k].gen == slots0[k].gen,
                    forall|k: int|
                        0 <= k < slots0.len() && slots0[k].is_marked ==> (
                        #[trigger] views_of_slots(gc.slots@)[k]).is_marked,
                    forall|k: int|
                        0 <= k < slots0.len() && (#[trigger] views_of_slots(
                            gc.slots@,
                        )[k]).is_marked ==> slots0[k].is_marked || chain_hits(evs, rt, slots0, k),
                    forall|r: ObjRef|
                        #[trigger] bound_in_chain(evs, rt, r) && valid_slot(slots0, r) ==>
                        bound_in_chain(evs, cur as int, r) || views_of_slots(
                            gc.slots@,
                        )[r.idx as int].is_marked,
                    forall|r: ObjRef|
                        #[trigger] bound_in_chain(evs, cur as int, r) ==> bound_in_chain(
                            evs,
                            rt,
                            r,
                        ),
                    forall|ii: int|
                        0 <= ii < i && valid_slot(slots0, (#[trigger] evs[cur as int].store[ii]).1)
                            ==> views_of_slots(
                            gc.slots@,
                        )[evs[cur as int].store[ii].1.idx as int].is_marked,
                decreases n - i,
            {
                let r = e.store[i].1;
                proof {
                    assert(evs[cur as int].store[i as int].1 == r);
                }
                if r.idx < gc.slots.len() {
                    let ghost pre_slots = gc.slots@;
                    let is_live = gc.slots[r.idx].live;
                    let g = gc.slots[r.idx].gen;
                    if is_live && g == r.gen {
                        gc.slots[r.idx].is_marked = true;
                        proof {
                            assert(forall|k: int|
                                0 <= k < slots0.len() && k != r.idx ==> views_of_slots(
                                    gc.slots@,
                                )[k] == views_of_slots(pre_slots)[k]);
                            assert(views_of_slots(pre_slots)[r.idx as int].live == slots0[r.idx as int].live);
                            assert(views_of_slots(pre_slots)[r.idx as int].gen == slots0[r.idx as int].gen);
                            assert(valid_slot(slots0, r));
                            assert(in_store(evs[cur as int].store, r));
                            assert(bound_in_chain(evs, cur as int, r));
                            assert(bound_in_chain(evs, rt, r));
                            assert(chain_hits(evs, rt, slots0, r.idx as int));
                            assert forall|k: int|
                                0 <= k < slots0.len() && slots0[k].is_marked implies (
                            #[trigger] views_of_slots(gc.slots@)[k]).is_marked by {
                                if k != r.idx {
                                    assert(views_of_slots(gc.slots@)[k] == views_of_slots(
                                        pre_slots,
                                    )[k]);
                                }
                            }
                            assert forall|k: int|
                                0 <= k < slots0.len() && (#[trigger] views_of_slots(
                                    gc.slots@,
                                )[k]).is_marked implies slots0[k].is_marked || chain_hits(
                                evs,
                                rt,
                                slots0,
                                k,
                            ) by {
                                if k != r.idx {
                                    assert(views_of_slots(gc.slots@)[k] == views_of_slots(
                                        pre_slots,
                                    )[k]);
                                }
                            }
                        }
                    } else {
                        proof {
                            assert(!valid_slot(slots0, r));
                        }
                    }
                } else {
                    proof {
                        assert(!valid_slot(slots0, r));
                    }
                }
                i += 1;
            }
            let next: Option<usize> = match e.outer {
                Some(o) => {
                    if o < cur {
                        Some(o)
                    } else {
                        None
                    }
                },
                None => None,
            };
            match next {
                Some(o) => {
                    proof {
                        assert forall|r: ObjRef| #[trigger]
                            bound_in_chain(evs, rt, r) && valid_slot(slots0, r) implies
                            bound_in_chain(evs, o as int, r) || views_of_slots(
                            gc.slots@,
                        )[r.idx as int].is_marked by {
                            if bound_in_chain(evs, cur as int, r) && !views_of_slots(
                                gc.slots@,
                            )[r.idx as int].is_marked {
                                if in_store(evs[cur as int].store, r) {
                                    let ii = choose|ii: int|
                                        0 <= ii < evs[cur as int].store.len() && (
                                        #[trigger] evs[cur as int].store[ii]).1 == r;
                                    assert(false);
                                }
                            }
                        }
                        assert forall|r: ObjRef| #[trigger]
                            bound_in_chain(evs, o as int, r) implies bound_in_chain(
                            evs,
                            rt,
                            r,
                        ) by {
                            assert(bound_in_chain(evs, cur as int, r));
                        }
                    }
                    cur = o;
                },
                None => {
                    proof {
                        assert forall|k: int|
                            0 <= k < slots0.len() implies ((#[trigger] views_of_slots(
                            gc.slots@,
                        )[k]).is_marked <==> (slots0[k].is_marked || chain_hits(
                            evs,
                            rt,
                            slots0,
                            k,
                        ))) by {
                            if chain_hits(evs, rt, slots0, k) && !views_of_slots(
                                gc.slots@,
                            )[k].is_marked {
                                let r = choose|r: ObjRef| #[trigger]
                                    bound_in_chain(evs, rt, r) && r.idx == k && valid_slot(
                                        slots0,
                                        r,
                                    );
                                assert(bound_in_chain(evs, cur as int, r));
                                assert(in_store(evs[cur as int].store, r));
                                let ii = choose|ii: int|
                                    0 <= ii < evs[cur as int].store.len() && (
                                    #[trigger] evs[cur as int].store[ii]).1 == r;
                                assert(false);
                            }
                        }
                    }
                    break ;
                },
            }
        }
        proof {
            assert(views_of_slots(gc.slots@) =~= mark_chain_v(slots0, evs, rt));
            if gc_wf(&old(gc)) {
                assert forall|i: int|
                    0 <= i < gc.free@.len() implies (#[trigger] gc.free@[i]) < gc.slots@.len()
                    && !gc.slots@[gc.free@[i] as int].live by {
                    let idx = gc.free@[i] as int;
                    assert(!old(gc).slots@[idx].live);
                    assert(slots0[idx].live == old(gc).slots@[idx].live);
                    assert(views_of_slots(gc.slots@)[idx].live == slots0[idx].live);
                    assert(gc.slots@[idx].live == views_of_slots(gc.slots@)[idx].live);
                }
                assert forall|k: int|
                    0 <= k < gc.slots@.len() && !(#[trigger] gc.slots@[k]).live implies exists|
                    i: int,
                |
                    0 <= i < gc.free@.len() && gc.free@[i] == k by {
                    assert(gc.slots@[k].live == views_of_slots(gc.slots@)[k].live);
                    assert(views_of_slots(gc.slots@)[k].live == slots0[k].live);
                    assert(slots0[k].live == old(gc).slots@[k].live);
                    let i = choose|i: int|
                        0 <= i < old(gc).free@.len() && (#[trigger] old(gc).free@[i]) == k;
                    assert(gc.free@[i] == k);
                }
            }
        }
    }
}

/// Law of collection, first half: any heap box that a valid handle bound in
/// the active environment chain points to at the moment of a collection pass
/// (a mark from that chain followed by a sweep) survives the pass, with its
/// value, slot and generation unchanged, its mark cleared.
pub proof fn lemma_collect_preserves_reachable(
    slots: Seq<SlotV>,
    envs: Seq<EnvV>,
    root: int,
    r: ObjRef,
)
    requires
        bound_in_chain(envs, root, r),
        valid_slot(slots, r),
    ensures
        ({
            let after = sweep_slots_v(mark_chain_v(slots, envs, root));
            &&& valid_slot(after, r)
            &&& after[r.idx as int].inner == slots[r.idx as int].inner
            &&& !after[r.idx as int].is_marked
        }),
{
    let k = r.idx as int;
    assert(chain_hits(envs, root, slots, k));
    let marked = mark_chain_v(slots, envs, root);
    assert(marked[k] == SlotV { is_marked: true, ..slots[k] });
    let after = sweep_slots_v(marked);
    assert(after[k] == sweep_slot_v(marked[k]));
}

/// Law of collection, second half: any live heap box that no valid handle in
/// the active chain points to, and that carries no leftover mark, is freed by
/// the pass; and a box that is already free is not freed again — the sweep
/// leaves it exactly as it is and does not list it a second time.
pub proof fn lemma_collect_frees_unreachable(
    slots: Seq<SlotV>,
    envs: Seq<EnvV>,
    root: int,
    k: int,
)
    requires
        0 <= k < slots.len(),
        slots[k].live,
        !slots[k].is_marked,
        !chain_hits(envs, root, slots, k),
    ensures
        !sweep_slots_v(mark_chain_v(slots, envs, root))[k].live,
{
    let marked = mark_chain_v(slots, envs, root);
    assert(marked[k] == slots[k]);
}

/// A dead heap box is never freed twice: a sweep leaves it untouched and
/// does not put its slot on the free list again.
pub proof fn lemma_no_double_free(slots: Seq<SlotV>, k: int)
    requires
        0 <= k < slots.len() <= usize::MAX,
        !slots[k].live,
    ensures
        sweep_slots_v(slots)[k] == slots[k],
        forall|i: int|
            0 <= i < freed_list(slots, slots.len() as int).len() ==> (#[trigger] freed_list(
                slots,
                slots.len() as int,
            )[i]) != k,
{
    lemma_freed_list_members(slots, slots.len() as int);
}

/// The freed indices of a sweep over the first `n` slots are exactly the
/// live, unmarked slot indices below `n`.
pub proof fn lemma_freed_list_members(slots: Seq<SlotV>, n: int)
    requires
        n <= slots.len(),
        n <= usize::MAX,
    ensures
        forall|i: int|
            0 <= i < freed_list(slots, n).len() ==> (#[trigger] freed_list(slots, n)[i]) < n
                && slots[freed_list(slots, n)[i] as int].live
                && !slots[freed_list(slots, n)[i] as int].is_marked,
        forall|k: int|
            0 <= k < n && (#[trigger] slots[k]).live && !slots[k].is_marked ==> exists|i: int|
                0 <= i < freed_list(slots, n).len() && freed_list(slots, n)[i] == k,
    decreases n,
{
    if n > 0 {
        lemma_freed_list_members(slots, n - 1);
        if slots[n - 1].live && !slots[n - 1].is_marked {
            assert(freed_list(slots, n) == freed_list(slots, n - 1).push((n - 1) as usize));
            assert forall|k: int|
                0 <= k < n && (#[trigger] slots[k]).live && !slots[k].is_marked implies exists|
                i: int,
            |
                0 <= i < freed_list(slots, n).len() && freed_list(slots, n)[i] == k by {
                let fl = freed_list(slots, n);
                if k == n - 1 {
                    assert(fl[fl.len() - 1] == k);
                } else {
                    let i = choose|i: int|
                        0 <= i < freed_list(slots, n - 1).len() && (#[trigger] freed_list(
                            slots,
                            n - 1,
                        )[i]) == k;
                    assert(fl[i] == k);
                }
            }
        }
    }
}

/// The freed indices of a sweep are strictly ascending.
pub proof fn lemma_freed_list_sorted(slots: Seq<SlotV>, n: int)
    requires
        n <= slots.len(),
        n <= usize::MAX,
    ensures
        forall|i: int, j: int|
            0 <= i < j < freed_list(slots, n).len() ==> (#[trigger] freed_list(slots, n)[i]) < (
            #[trigger] freed_list(slots, n)[j]),
    decreases n,
{
    if n > 0 {
        lemma_freed_list_sorted(slots, n - 1);
        lemma_freed_list_members(slots, n - 1);
        let prev = freed_list(slots, n - 1);
        let fl = freed_list(slots, n);
        if slots[n - 1].live && !slots[n - 1].is_marked {
            assert(fl == prev.push((n - 1) as usize));
            assert forall|i: int, j: int| 0 <= i < j < fl.len() implies (#[trigger] fl[i]) < (
            #[trigger] fl[j]) by {
                if j == fl.len() - 1 {
                    assert(fl[j] == n - 1);
                    assert(fl[i] == prev[i]);
                    assert(prev[i] < n - 1);
                } else {
                    assert(fl[i] == prev[i] && fl[j] == prev[j]);
                }
            }
        } else {
            assert(fl == prev);
        }
    }
}

} // verus!
