use vstd::prelude::*;

use crate::free_list::{bound_of, queued, FreeList};
use crate::mixture::{fresh_mixture, Mixture, MixtureView, DEFAULT_VOLUME_BITS};
use crate::tracker::RegisteredMixes;
use std::collections::VecDeque;

verus! {

/// Slots reserved when the arena is initialized.
pub const INITIAL_CAPACITY: usize = 240_000;

/// Bound of the free list.
pub const FREE_ID_BOUND: usize = 2000;

/// Room that a refill leaves in the free list.
pub const REFILL_MARGIN: usize = 100;

/// Handles are stored in 32 bits on host objects, so the arena never holds more slots.
pub const HANDLE_LIMIT: usize = 0xFFFF_FFFF;

/// The recoverable failures of the arena.
#[derive(Debug, Clone, Copy, PartialEq, Eq, Structural)]
pub enum ArenaError {
    /// A handle past the end of the arena.
    HandleNotFound { handle: usize },
    /// A numeric field of a host object was missing or not a number.
    FieldTypeError,
}

/// The pool of mixture slots, with the queue of handles that are free for reuse.
pub struct GasArena {
    mixtures: Vec<Mixture>,
    reserved: usize,
    next_ids: FreeList,
    /// Released handles that found the channel full, or that must queue behind
    /// such handles; they follow the channel's handles in the free list.
    spare_ids: VecDeque<usize>,
}

/// The content of each slot of a sequence.
pub open spec fn views_of(s: Seq<Mixture>) -> Seq<MixtureView> {
    s.map_values(|m: Mixture| m@)
}

/// How many default slots a refill appends to an arena of `len` slots that
/// reserved `reserved`: one batch, cut to the reserve that is left, if any,
/// and to the handle limit.
pub open spec fn refill_amount(len: nat, reserved: nat) -> nat {
    let batch = (FREE_ID_BOUND - REFILL_MARGIN) as nat;
    let want = if reserved > len && ((reserved - len) as nat) < batch {
        (reserved - len) as nat
    } else {
        batch
    };
    if len + want > HANDLE_LIMIT {
        (HANDLE_LIMIT - len) as nat
    } else {
        want
    }
}

/// `count` default slots.
pub open spec fn default_slots(count: nat) -> Seq<MixtureView> {
    Seq::new(count, |i: int| fresh_mixture(DEFAULT_VOLUME_BITS))
}

/// The handles `lo`, `lo + 1`, ..., `lo + count - 1`.
pub open spec fn handle_run(lo: nat, count: nat) -> Seq<usize> {
    Seq::new(count, |i: int| (lo + i) as usize)
}

/// Whether releasing `id`, whose handle field reads as `stored`, frees its slot:
/// the identifier is registered and the field holds its recorded handle.
pub open spec fn releases(tracker: &RegisteredMixes, id: u32, stored: Option<u32>) -> bool {
    &&& tracker.bindings().contains_key(id)
    &&& stored is Some
    &&& stored->0 as usize == tracker.bindings()[id]
}

/// Whether some registered identifier is bound to the handle.
pub open spec fn is_bound(tracker: &RegisteredMixes, h: usize) -> bool {
    exists|id: u32| #[trigger] tracker.bindings().contains_key(id) && tracker.bindings()[id] == h
}

/// Whether the slot of handle `h` is accounted for: waiting in the free list, or
/// bound to a registered identifier.
pub open spec fn accounted(arena: &GasArena, tracker: &RegisteredMixes, h: usize) -> bool {
    arena.free_ids().contains(h) || is_bound(tracker, h)
}

/// Whether the arena and the tracker agree: every registered identifier is bound
/// to a slot of its own, no bound slot is waiting in the free list, and every
/// slot is either free or bound.
pub open spec fn pool_wf(arena: &GasArena, tracker: &RegisteredMixes) -> bool {
    &&& arena.wf()
    &&& tracker.wf()
    &&& forall|h: usize| h < arena.slots().len() ==> #[trigger] accounted(arena, tracker, h)
    &&& forall|id: u32| #[trigger]
        tracker.bindings().contains_key(id) ==> tracker.bindings()[id] < arena.slots().len()
            && !arena.free_ids().contains(tracker.bindings()[id])
    &&& forall|a: u32, b: u32|
        #![trigger tracker.bindings()[a], tracker.bindings()[b]]
        tracker.bindings().contains_key(a) && tracker.bindings().contains_key(b) && a != b
            ==> tracker.bindings()[a] != tracker.bindings()[b]
}

/// How many default slots a refill appends to an arena of `len` slots that
/// reserved `reserved`.
pub fn refill_amount_of(len: usize, reserved: usize) -> (r: usize)
    requires
        len <= HANDLE_LIMIT,
    ensures
        r == refill_amount(len as nat, reserved as nat),
        len + r <= HANDLE_LIMIT,
        r <= FREE_ID_BOUND - REFILL_MARGIN,
{
    let batch = FREE_ID_BOUND - REFILL_MARGIN;
    let want = if reserved > len && reserved - len < batch {
        reserved - len
    } else {
        batch
    };
    if want > HANDLE_LIMIT - len {
        HANDLE_LIMIT - len
    } else {
        want
    }
}

impl GasArena {
    /// The content of each slot, by handle.
    pub closed spec fn slots(&self) -> Seq<MixtureView> {
        views_of(self.mixtures@)
    }

    /// The slot records themselves.
    pub closed spec fn mixture_seq(&self) -> Seq<Mixture> {
        self.mixtures@
    }

    /// The handles waiting for reuse, oldest first.
    pub closed spec fn free_ids(&self) -> Seq<usize> {
        queued(self.next_ids) + self.spare_ids@
    }

    /// The number of slots reserved at initialization.
    pub closed spec fn reserved(&self) -> nat {
        self.reserved as nat
    }

    pub closed spec fn wf(&self) -> bool {
        &&& bound_of(self.next_ids) == FREE_ID_BOUND
        &&& queued(self.next_ids).len() <= FREE_ID_BOUND
        &&& self.free_ids().no_duplicates()
        &&& forall|k: int|
            0 <= k < self.free_ids().len() ==> #[trigger] self.free_ids()[k] < self.mixtures@.len()
        &&& self.mixtures@.len() <= HANDLE_LIMIT
    }

    /// What a well-formed arena guarantees of its free list: no handle twice,
    /// each one naming a slot, and no more slots than handles can name.
    pub proof fn lemma_wf_bounds(&self)
        requires
            self.wf(),
        ensures
            self.slots().len() <= HANDLE_LIMIT,
            self.free_ids().no_duplicates(),
            forall|k: int| 0 <= k < self.free_ids().len() ==> #[trigger] self.free_ids()[k] < self.slots().len(),
    {
    }

    /// An empty arena with room reserved for many slots, and an empty free list.
    pub fn initialize() -> (r: GasArena)
        ensures
            r.wf(),
            r.slots() == Seq::<MixtureView>::empty(),
            r.free_ids() == Seq::<usize>::empty(),
            r.reserved() == INITIAL_CAPACITY,
    {
        let r = GasArena {
            mixtures: Vec::with_capacity(INITIAL_CAPACITY),
            reserved: INITIAL_CAPACITY,
            next_ids: FreeList::bounded(FREE_ID_BOUND),
            spare_ids: VecDeque::new(),
        };
        assert(r.free_ids() =~= Seq::<usize>::empty());
        assert(r.slots() =~= Seq::<MixtureView>::empty());
        r
    }

    /// The number of handles in the free list.
    fn free_len(&self) -> (r: usize)
        requires
            self.wf(),
        ensures
            r == self.free_ids().len(),
    {
        proof {
            self.lemma_free_ids_fit();
        }
        self.next_ids.len() + self.spare_ids.len()
    }

    /// Takes the oldest handle out of the free list, if there is one.
    fn take_free_id(&mut self) -> (r: Option<usize>)
        requires
            old(self).wf(),
        ensures
            final(self).wf(),
            final(self).mixture_seq() == old(self).mixture_seq(),
            final(self).reserved() == old(self).reserved(),
            old(self).free_ids().len() == 0 ==> r is None && final(self).free_ids() == old(self).free_ids(),
            old(self).free_ids().len() > 0 ==> r == Some(old(self).free_ids()[0]) && final(self).free_ids() == old(self).free_ids().drop_first(),
    {
        let ghost old_free = self.free_ids();
        let r = match self.next_ids.try_recv() {
            Some(h) => Some(h),
            None => self.spare_ids.pop_front(),
        };
        proof {
            if old_free.len() > 0 {
                assert(self.free_ids() =~= old_free.drop_first());
            } else {
                assert(self.free_ids() =~= old_free);
            }
            assert forall|k: int| 0 <= k < self.free_ids().len() implies #[trigger] self.free_ids()[k]
                < self.mixtures@.len() by {
                assert(self.free_ids()[k] == old_free[k + 1]);
            }
        }
        r
    }

    /// Puts a handle at the end of the free list. A full channel sends it, and
    /// every handle after it, to the overflow queue, so none is ever lost.
    fn give_free_id(&mut self, h: usize)
        requires
            old(self).wf(),
            h < old(self).mixture_seq().len(),
            !old(self).free_ids().contains(h),
        ensures
            final(self).wf(),
            final(self).mixture_seq() == old(self).mixture_seq(),
            final(self).reserved() == old(self).reserved(),
            final(self).free_ids() == old(self).free_ids().push(h),
    {
        let ghost old_free = self.free_ids();
        if self.spare_ids.len() == 0 {
            if !self.next_ids.try_send(h) {
                self.spare_ids.push_back(h);
            }
        } else {
            self.spare_ids.push_back(h);
        }
        assert(self.free_ids() =~= old_free.push(h));
    }

    /// Binds the host identifier `id`, which is not registered yet, to a slot
    /// whose content is a fresh mixture of the host's `initial_volume` (`None`
    /// when that field is not a number), and returns the slot's handle. The
    /// oldest handle of the free list is reused first; otherwise a new slot is
    /// appended. The tracker must have been started on this thread.
    pub fn register_mix(
        &mut self,
        tracker: &mut RegisteredMixes,
        id: u32,
        initial_volume: Option<u32>,
    ) -> (r: Result<usize, ArenaError>)
        requires
            pool_wf(old(self), old(tracker)),
            old(tracker).active(),
            !old(tracker).bindings().contains_key(id),
            initial_volume is Some && old(self).free_ids().len() == 0 ==> old(self).slots().len()
                < HANDLE_LIMIT,
        ensures
            pool_wf(final(self), final(tracker)),
            final(self).reserved() == old(self).reserved(),
            final(tracker).active(),
            initial_volume is None ==> r == Err::<usize, ArenaError>(ArenaError::FieldTypeError)
                && final(self).slots() == old(self).slots()
                && final(self).free_ids() == old(self).free_ids()
                && final(tracker).bindings() == old(tracker).bindings(),
            initial_volume is Some ==> r is Ok,
            r is Ok ==> {
                let h = r->Ok_0;
                let v = initial_volume->0;
                &&& h < final(self).slots().len()
                &&& !is_bound(old(tracker), h)
                &&& final(tracker).bindings() == old(tracker).bindings().insert(id, h)
                &&& old(self).free_ids().len() > 0 ==> h == old(self).free_ids()[0]
                    && final(self).free_ids() == old(self).free_ids().drop_first()
                    && final(self).slots() == old(self).slots().update(h as int, fresh_mixture(v))
                &&& old(self).free_ids().len() == 0 ==> h == old(self).slots().len()
                    && final(self).free_ids() == old(self).free_ids()
                    && final(self).slots() == old(self).slots().push(fresh_mixture(v))
            },
    {
        let volume = match initial_volume {
            Some(v) => v,
            None => {
                return Err(ArenaError::FieldTypeError);
            },
        };
        let ghost a0 = *self;
        let ghost t0 = *tracker;
        let ghost old_free = self.free_ids();
        let ghost old_slots = self.slots();
        let ghost old_bindings = tracker.bindings();
        let handle = match self.take_free_id() {
            Some(idx) => {
                assert(old_free.contains(idx));
                self.mixtures.set(idx, Mixture::from_vol(volume));
                assert(self.slots() =~= old_slots.update(idx as int, fresh_mixture(volume)));
                idx
            },
            None => {
                let next_idx = self.mixtures.len();
                self.mixtures.push(Mixture::from_vol(volume));
                assert(self.slots() =~= old_slots.push(fresh_mixture(volume)));
                assert forall|k: int| 0 <= k < self.free_ids().len() implies #[trigger] self.free_ids()[k]
                    < self.mixtures@.len() by {
                    assert(old_free[k] < old_slots.len());
                }
                next_idx
            },
        };
        proof {
            assert(!is_bound(&t0, handle)) by {
                if is_bound(&t0, handle) {
                    let o = choose|o: u32| #[trigger] old_bindings.contains_key(o) && old_bindings[o] == handle;
                    assert(old_bindings[o] < old_slots.len());
                    assert(!old_free.contains(old_bindings[o]));
                }
            }
            assert forall|k: int| 0 <= k < self.free_ids().len() implies self.free_ids()[k] != handle by {
                if old_free.len() > 0 {
                    assert(self.free_ids()[k] == old_free[k + 1]);
                }
            }
        }
        tracker.register_mix(id, handle);
        assert forall|a: u32, b: u32|
            #![trigger tracker.bindings()[a], tracker.bindings()[b]]
            tracker.bindings().contains_key(a) && tracker.bindings().contains_key(b) && a != b
                implies tracker.bindings()[a] != tracker.bindings()[b] by {
            if a != id && b != id {
                assert(old_bindings.contains_key(a) && old_bindings.contains_key(b));
                assert(old_bindings[a] != old_bindings[b]);
            } else if a == id {
                assert(old_bindings.contains_key(b));
            } else {
                assert(old_bindings.contains_key(a));
            }
        }
        assert forall|i: u32| #[trigger] tracker.bindings().contains_key(i) implies tracker.bindings()[i]
            < self.slots().len() && !self.free_ids().contains(tracker.bindings()[i]) by {
            if i != id {
                assert(old_bindings.contains_key(i));
                if self.free_ids().contains(old_bindings[i]) {
                    let k = choose|k: int| 0 <= k < self.free_ids().len() && self.free_ids()[k] == old_bindings[i];
                    if old_free.len() > 0 {
                        assert(old_free[k + 1] == old_bindings[i]);
                    }
                }
            }
        }
        assert forall|h: usize| h < self.slots().len() implies #[trigger] accounted(self, tracker, h) by {
            if h == handle {
                assert(tracker.bindings().contains_key(id) && tracker.bindings()[id] == h);
            } else {
                assert(h < old_slots.len());
                assert(accounted(&a0, &t0, h));
                if old_free.contains(h) {
                    let k = choose|k: int| 0 <= k < old_free.len() && old_free[k] == h;
                    if old_free.len() > 0 && old_free[0] == handle {
                        assert(self.free_ids()[k - 1] == h);
                    }
                } else {
                    let o = choose|o: u32| #[trigger] old_bindings.contains_key(o) && old_bindings[o] == h;
                    assert(tracker.bindings().contains_key(o) && tracker.bindings()[o] == h);
                }
            }
        }
        Ok(handle)
    }

    /// Releases the slot of the host identifier `id`, whose handle field reads as
    /// `stored` (`None` when the field cannot be read). The slot is released only
    /// when the identifier is registered and its field holds the handle recorded
    /// for it: the handle goes to the end of the free list and the identifier is
    /// forgotten. Anything else, an unknown identifier, one released before, a
    /// field that does not match, or a tracker that was shut down, is a silent
    /// no-op.
    pub fn unregister_mix(&mut self, tracker: &mut RegisteredMixes, id: u32, stored: Option<u32>)
        requires
            pool_wf(old(self), old(tracker)),
        ensures
            pool_wf(final(self), final(tracker)),
            final(self).slots() == old(self).slots(),
            final(self).reserved() == old(self).reserved(),
            final(tracker).active() == old(tracker).active(),
            releases(old(tracker), id, stored) ==> {
                &&& final(tracker).bindings() == old(tracker).bindings().remove(id)
                &&& final(self).free_ids() == old(self).free_ids().push(old(tracker).bindings()[id])
            },
            !old(tracker).active() ==> {
                &&& final(tracker).bindings() == old(tracker).bindings()
                &&& final(self).free_ids() == old(self).free_ids()
            },
            !releases(old(tracker), id, stored) ==> {
                &&& final(tracker).bindings() == old(tracker).bindings()
                &&& final(self).free_ids() == old(self).free_ids()
            },
    {
        proof {
            if !tracker.active() {
                tracker.lemma_inactive_binds_nothing();
            }
        }
        let recorded = tracker.handle_of(id);
        if let (Some(idx), Some(bits)) = (recorded, stored) {
            if bits as usize == idx {
                let ghost a0 = *self;
                let ghost t0 = *tracker;
                let ghost old_free = self.free_ids();
                let ghost old_bindings = tracker.bindings();
                self.give_free_id(idx);
                tracker.unregister_mix(id);
                assert forall|i: u32| #[trigger] tracker.bindings().contains_key(i) implies tracker.bindings()[i]
                    < self.slots().len() && !self.free_ids().contains(tracker.bindings()[i]) by {
                    assert(old_bindings.contains_key(i));
                    assert(old_bindings[i] != old_bindings[id]);
                    if self.free_ids().contains(old_bindings[i]) {
                        let k = choose|k: int| 0 <= k < self.free_ids().len() && self.free_ids()[k] == old_bindings[i];
                        if k < old_free.len() {
                            assert(old_free[k] == old_bindings[i]);
                        }
                    }
                }
                assert forall|h: usize| h < self.slots().len() implies #[trigger] accounted(self, tracker, h) by {
                    assert(accounted(&a0, &t0, h));
                    if h == idx {
                        assert(self.free_ids()[old_free.len() as int] == h);
                    } else if old_free.contains(h) {
                        let k = choose|k: int| 0 <= k < old_free.len() && old_free[k] == h;
                        assert(self.free_ids()[k] == h);
                    } else {
                        let o = choose|o: u32| #[trigger] old_bindings.contains_key(o) && old_bindings[o] == h;
                        assert(o != id);
                        assert(tracker.bindings().contains_key(o) && tracker.bindings()[o] == h);
                    }
                }
            }
        }
    }

    /// The work of the background grower: when the free list is empty, appends a
    /// batch of default slots (see `refill_amount`) and queues their handles for
    /// reuse; otherwise does nothing.
    pub fn refill_free_ids(&mut self)
        requires
            old(self).wf(),
        ensures
            final(self).wf(),
            final(self).reserved() == old(self).reserved(),
            old(self).free_ids().len() > 0 ==> final(self).slots() == old(self).slots()
                && final(self).free_ids() == old(self).free_ids(),
            old(self).free_ids().len() == 0 ==> {
                let n = refill_amount(old(self).slots().len(), old(self).reserved());
                &&& final(self).slots() == old(self).slots() + default_slots(n)
                &&& final(self).free_ids() == handle_run(old(self).slots().len(), n)
            },
    {
        if self.free_len() != 0 {
            return;
        }
        let cur_last = self.mixtures.len();
        let cap = refill_amount_of(cur_last, self.reserved);
        let ghost old_slots = self.slots();
        let end = cur_last + cap;
        let mut i: usize = cur_last;
        assert(self.free_ids() =~= handle_run(cur_last as nat, 0));
        while i < end
            invariant
                cur_last <= i <= end,
                end == cur_last + cap,
                end <= HANDLE_LIMIT,
                self.wf(),
                self.reserved == old(self).reserved,
                self.slots() == old_slots + default_slots((i - cur_last) as nat),
                self.mixtures@.len() == i,
                self.free_ids() == handle_run(cur_last as nat, (i - cur_last) as nat),
                old_slots.len() == cur_last,
            decreases end - i,
        {
            let fresh = Mixture::default();
            let ghost prev = self.slots();
            self.mixtures.push(fresh);
            assert(self.slots() =~= prev.push(fresh_mixture(DEFAULT_VOLUME_BITS)));
            assert(default_slots((i + 1 - cur_last) as nat) =~= default_slots(
                (i - cur_last) as nat,
            ).push(fresh_mixture(DEFAULT_VOLUME_BITS)));
            assert forall|k: int| 0 <= k < self.free_ids().len() implies #[trigger] self.free_ids()[k]
                < self.mixtures@.len() by {
            }
            assert(!self.free_ids().contains(i)) by {
                if self.free_ids().contains(i) {
                    let k = choose|k: int| 0 <= k < self.free_ids().len() && self.free_ids()[k] == i;
                }
            }
            self.give_free_id(i);
            assert(self.free_ids() =~= handle_run(cur_last as nat, (i + 1 - cur_last) as nat));
            i = i + 1;
        }
    }

    /// Ends the arena's lifetime: every slot is dropped and the free list is drained.
    pub fn shut_down(&mut self)
        requires
            old(self).wf(),
        ensures
            final(self).wf(),
            final(self).slots() == Seq::<MixtureView>::empty(),
            final(self).free_ids() == Seq::<usize>::empty(),
            final(self).reserved() == old(self).reserved(),
    {
        self.mixtures.clear();
        self.spare_ids.clear();
        while self.next_ids.len() != 0
            invariant
                bound_of(self.next_ids) == FREE_ID_BOUND,
                self.reserved == old(self).reserved,
                self.mixtures@.len() == 0,
                self.spare_ids@.len() == 0,
            decreases queued(self.next_ids).len(),
        {
            let _ = self.next_ids.try_recv();
        }
        assert(self.slots() =~= Seq::<MixtureView>::empty());
        assert(self.free_ids() =~= Seq::<usize>::empty());
    }

    /// Runs `f` on the whole sequence of slots.
    pub fn with_all_mixtures<T, F: FnOnce(&[Mixture]) -> T>(&self, f: F) -> (r: T)
        requires
            forall|s: &[Mixture]| s@ == self.mixture_seq() ==> #[trigger] f.requires((s,)),
        ensures
            exists|s: &[Mixture]| s@ == self.mixture_seq() && #[trigger] f.ensures((s,), r),
    {
        let s = self.mixtures.as_slice();
        let r = f(s);
        assert(f.ensures((s,), r));
        r
    }

    /// Runs `f` on the slot of handle `id`.
    pub fn with_gas_mixture<T, F: FnOnce(&Mixture) -> T>(&self, id: usize, f: F) -> (r: Result<
        T,
        ArenaError,
    >)
        requires
            id < self.mixture_seq().len() ==> f.requires((&self.mixture_seq()[id as int],)),
        ensures
            id >= self.mixture_seq().len() ==> r == Err::<T, ArenaError>(
                ArenaError::HandleNotFound { handle: id },
            ),
            id < self.mixture_seq().len() ==> r is Ok && f.ensures(
                (&self.mixture_seq()[id as int],),
                r->Ok_0,
            ),
    {
        if id >= self.mixtures.len() {
            return Err(ArenaError::HandleNotFound { handle: id });
        }
        Ok(f(&self.mixtures[id]))
    }

    /// Runs `f` on the slot of handle `id`, which it may change. No other slot
    /// and no free handle changes.
    pub fn with_gas_mixture_mut<T, F: FnOnce(&mut Mixture) -> T>(&mut self, id: usize, f: F) -> (r:
        Result<T, ArenaError>)
        requires
            old(self).wf(),
            id < old(self).slots().len() ==> forall|x: &mut Mixture|
                x@ == old(self).slots()[id as int] ==> #[trigger] f.requires((x,)),
        ensures
            final(self).wf(),
            final(self).free_ids() == old(self).free_ids(),
            final(self).reserved() == old(self).reserved(),
            id >= old(self).slots().len() ==> r == Err::<T, ArenaError>(
                ArenaError::HandleNotFound { handle: id },
            ) && final(self).slots() == old(self).slots(),
            id < old(self).slots().len() ==> r is Ok && exists|x: &mut Mixture|
                x@ == old(self).slots()[id as int] && final(self).slots() == old(self).slots().update(
                    id as int,
                    final(x)@,
                ) && #[trigger] f.ensures((x,), r->Ok_0),
    {
        if id >= self.mixtures.len() {
            return Err(ArenaError::HandleNotFound { handle: id });
        }
        let ghost old_mixtures = self.mixtures@;
        let e = &mut self.mixtures[id];
        let r = f(e);
        assert(views_of(self.mixtures@) =~= views_of(old_mixtures).update(id as int, final(e)@));
        let res: Result<T, ArenaError> = Ok(r);
        assert(res->Ok_0 == r);
        res
    }

    /// Runs `f` on the slots of handles `src` and `arg`, which may be equal.
    pub fn with_gas_mixtures<T, F: FnOnce(&Mixture, &Mixture) -> T>(
        &self,
        src: usize,
        arg: usize,
        f: F,
    ) -> (r: Result<T, ArenaError>)
        requires
            src < self.mixture_seq().len() && arg < self.mixture_seq().len() ==> f.requires(
                (&self.mixture_seq()[src as int], &self.mixture_seq()[arg as int]),
            ),
        ensures
            src >= self.mixture_seq().len() ==> r == Err::<T, ArenaError>(
                ArenaError::HandleNotFound { handle: src },
            ),
            src < self.mixture_seq().len() && arg >= self.mixture_seq().len() ==> r == Err::<
                T,
                ArenaError,
            >(ArenaError::HandleNotFound { handle: arg }),
            src < self.mixture_seq().len() && arg < self.mixture_seq().len() ==> r is Ok
                && f.ensures(
                (&self.mixture_seq()[src as int], &self.mixture_seq()[arg as int]),
                r->Ok_0,
            ),
    {
        if src >= self.mixtures.len() {
            return Err(ArenaError::HandleNotFound { handle: src });
        }
        if arg >= self.mixtures.len() {
            return Err(ArenaError::HandleNotFound { handle: arg });
        }
        Ok(f(&self.mixtures[src], &self.mixtures[arg]))
    }

    /// Runs `f` on the slots of handles `src` and `arg`, both of which it may
    /// change. When the two handles are equal, `f` gets the slot and a copy of
    /// its content as it was before the call; what `f` does to the copy is
    /// dropped afterwards. No other slot and no free handle changes.
    pub fn with_gas_mixtures_mut<T, F: FnOnce(&mut Mixture, &mut Mixture) -> T>(
        &mut self,
        src: usize,
        arg: usize,
        f: F,
    ) -> (r: Result<T, ArenaError>)
        requires
            old(self).wf(),
            src < old(self).slots().len() && arg < old(self).slots().len() ==> forall|
                a: &mut Mixture,
                b: &mut Mixture,
            |
                a@ == old(self).slots()[src as int] && b@ == old(self).slots()[arg as int]
                    ==> #[trigger] f.requires((a, b)),
        ensures
            final(self).wf(),
            final(self).free_ids() == old(self).free_ids(),
            final(self).reserved() == old(self).reserved(),
            src >= old(self).slots().len() ==> r == Err::<T, ArenaError>(
                ArenaError::HandleNotFound { handle: src },
            ) && final(self).slots() == old(self).slots(),
            src < old(self).slots().len() && arg >= old(self).slots().len() ==> r == Err::<
                T,
                ArenaError,
            >(ArenaError::HandleNotFound { handle: arg }) && final(self).slots() == old(self).slots(),
            src < old(self).slots().len() && arg < old(self).slots().len() && src == arg ==> r is Ok
                && exists|a: &mut Mixture, b: &mut Mixture|
                a@ == old(self).slots()[src as int] && b@ == old(self).slots()[src as int]
                    && final(self).slots() == old(self).slots().update(src as int, final(a)@)
                    && #[trigger] f.ensures((a, b), r->Ok_0),
            src < old(self).slots().len() && arg < old(self).slots().len() && src != arg ==> r is Ok
                && exists|a: &mut Mixture, b: &mut Mixture|
                a@ == old(self).slots()[src as int] && b@ == old(self).slots()[arg as int]
                    && final(self).slots() == old(self).slots().update(
                    src as int,
                    final(a)@,
                ).update(arg as int, final(b)@) && #[trigger] f.ensures((a, b), r->Ok_0),
    {
        if src >= self.mixtures.len() {
            return Err(ArenaError::HandleNotFound { handle: src });
        }
        if arg >= self.mixtures.len() {
            return Err(ArenaError::HandleNotFound { handle: arg });
        }
        let ghost old_mixtures = self.mixtures@;
        if src == arg {
            let mut copied = self.mixtures[src].duplicate();
            let e = &mut self.mixtures[src];
            let r = f(e, &mut copied);
            assert(views_of(self.mixtures@) =~= views_of(old_mixtures).update(src as int, final(e)@));
            let res: Result<T, ArenaError> = Ok(r);
            assert(res->Ok_0 == r);
            res
        } else {
            let mut src_mix = Mixture::default();
            std::mem::swap(&mut src_mix, &mut self.mixtures[src]);
            let ghost taken = self.mixtures@;
            let e = &mut self.mixtures[arg];
            let r = f(&mut src_mix, e);
            let ghost src_after = src_mix;
            assert(self.mixtures@ == taken.update(arg as int, *final(e)));
            std::mem::swap(&mut src_mix, &mut self.mixtures[src]);
            assert(views_of(self.mixtures@) =~= views_of(old_mixtures).update(
                src as int,
                src_after@,
            ).update(arg as int, final(e)@));
            let res: Result<T, ArenaError> = Ok(r);
            assert(res->Ok_0 == r);
            res
        }
    }

    /// Runs `f` on the slot of handle `src`, which it may change, and on the slot
    /// of handle `arg`, which it reads. When the two handles are equal, the
    /// second argument is a copy of the slot's content as it was before the call.
    /// No other slot and no free handle changes.
    pub(crate) fn with_gas_mixtures_custom<T, F: FnOnce(&mut Mixture, &Mixture) -> T>(
        &mut self,
        src: usize,
        arg: usize,
        f: F,
    ) -> (r: Result<T, ArenaError>)
        requires
            old(self).wf(),
            src < old(self).slots().len() && arg < old(self).slots().len() ==> forall|
                a: &mut Mixture,
                b: &Mixture,
            |
                a@ == old(self).slots()[src as int] && b@ == old(self).slots()[arg as int]
                    ==> #[trigger] f.requires((a, b)),
        ensures
            final(self).wf(),
            final(self).free_ids() == old(self).free_ids(),
            final(self).reserved() == old(self).reserved(),
            src >= old(self).slots().len() ==> r == Err::<T, ArenaError>(
                ArenaError::HandleNotFound { handle: src },
            ) && final(self).slots() == old(self).slots(),
            src < old(self).slots().len() && arg >= old(self).slots().len() ==> r == Err::<
                T,
                ArenaError,
            >(ArenaError::HandleNotFound { handle: arg }) && final(self).slots() == old(self).slots(),
            src < old(self).slots().len() && arg < old(self).slots().len() ==> r is Ok && exists|
                a: &mut Mixture,
                b: &Mixture,
            |
                a@ == old(self).slots()[src as int] && b@ == old(self).slots()[arg as int]
                    && final(self).slots() == old(self).slots().update(src as int, final(a)@)
                    && #[trigger] f.ensures((a, b), r->Ok_0),
    {
        if src >= self.mixtures.len() {
            return Err(ArenaError::HandleNotFound { handle: src });
        }
        if arg >= self.mixtures.len() {
            return Err(ArenaError::HandleNotFound { handle: arg });
        }
        let ghost old_mixtures = self.mixtures@;
        if src == arg {
            let gas_copy = self.mixtures[src].duplicate();
            let e = &mut self.mixtures[src];
            let r = f(e, &gas_copy);
            assert(views_of(self.mixtures@) =~= views_of(old_mixtures).update(src as int, final(e)@));
            let res: Result<T, ArenaError> = Ok(r);
            assert(res->Ok_0 == r);
            res
        } else {
            let mut src_mix = Mixture::default();
            std::mem::swap(&mut src_mix, &mut self.mixtures[src]);
            let r = f(&mut src_mix, &self.mixtures[arg]);
            let ghost src_after = src_mix;
            std::mem::swap(&mut src_mix, &mut self.mixtures[src]);
            assert(views_of(self.mixtures@) =~= views_of(old_mixtures).update(src as int, src_after@));
            let res: Result<T, ArenaError> = Ok(r);
            assert(res->Ok_0 == r);
            res
        }
    }

    /// The number of slots, free ones included.
    pub fn total_slots(&self) -> (r: usize)
        ensures
            r == self.slots().len(),
    {
        self.mixtures.len()
    }

    /// The number of slots whose handle is not waiting in the free list.
    pub fn active_slots(&self) -> (r: usize)
        requires
            self.wf(),
        ensures
            r == self.slots().len() - self.free_ids().len(),
    {
        proof {
            self.lemma_free_ids_fit();
        }
        self.mixtures.len() - self.free_len()
    }

    /// The free list never holds more handles than there are slots.
    pub(crate) proof fn lemma_free_ids_fit(&self)
        requires
            self.wf(),
        ensures
            self.free_ids().len() <= self.slots().len(),
    {
        let q = self.free_ids();
        let n = self.mixtures@.len() as usize;
        q.unique_seq_to_set();
        let range = <usize as vstd::set_lib::FiniteRange>::range_set(0, n);
        vstd::set_lib::range_set_properties::<usize>(0, n);
        assert(q.to_set().subset_of(range)) by {
            assert forall|x: usize| q.to_set().contains(x) implies range.contains(x) by {
                let k = choose|k: int| 0 <= k < q.len() && q[k] == x;
                assert(q[k] < self.mixtures@.len());
            }
        }
        vstd::set_lib::lemma_len_subset(q.to_set(), range);
    }
}

} // verus!
