//! A pool of gas mixture slots addressed by small integer handles, with a
//! bounded free list that recycles released handles and a record of which host
//! objects are bound to a slot.
use vstd::prelude::*;

pub mod arena;
pub mod free_list;
pub mod mixture;
pub mod tracker;

pub use arena::{ArenaError, GasArena};
pub use mixture::Mixture;
pub use tracker::RegisteredMixes;

use arena::{accounted, default_slots, handle_run, pool_wf, refill_amount};

verus! {

/// The bit pattern under which a handle is stored in a host object's number
/// field. It is never read as a quantity.
pub fn handle_to_bits(handle: usize) -> (r: u32)
    requires
        handle <= u32::MAX,
    ensures
        r as usize == handle,
{
    handle as u32
}

/// The handle that a host object's number field holds, read back from the
/// field's bit pattern.
pub fn handle_from_bits(bits: u32) -> (r: usize)
    ensures
        r == bits as usize,
{
    bits as usize
}

/// A handle stored as bits and read back is the same handle.
pub proof fn lemma_handle_bits_round_trip(handle: usize)
    requires
        handle <= u32::MAX,
    ensures
        (handle as u32) as usize == handle,
{
}

/// The handle held by a host object's pointer field: the field's bit pattern,
/// or `FieldTypeError` when the field is not a number.
pub open spec fn pointed_handle(pointer: Option<u32>) -> Result<usize, ArenaError> {
    match pointer {
        Some(bits) => Ok(bits as usize),
        None => Err(ArenaError::FieldTypeError),
    }
}

fn read_pointer(pointer: Option<u32>) -> (r: Result<usize, ArenaError>)
    ensures
        r == pointed_handle(pointer),
{
    match pointer {
        Some(bits) => Ok(handle_from_bits(bits)),
        None => Err(ArenaError::FieldTypeError),
    }
}

/// Runs `f` on the slot that a host object points to; `pointer` is the bit
/// pattern of its pointer field, `None` when that field is not a number.
pub fn with_mix<T, F: FnOnce(&Mixture) -> T>(arena: &GasArena, pointer: Option<u32>, f: F) -> (r:
    Result<T, ArenaError>)
    requires
        pointer is Some && (pointer->0 as int) < arena.mixture_seq().len() ==> f.requires(
            (&arena.mixture_seq()[pointer->0 as int],),
        ),
    ensures
        pointer is None ==> r == Err::<T, ArenaError>(ArenaError::FieldTypeError),
        pointer is Some && (pointer->0 as int) >= arena.mixture_seq().len() ==> r == Err::<
            T,
            ArenaError,
        >(ArenaError::HandleNotFound { handle: pointer->0 as usize }),
        pointer is Some && (pointer->0 as int) < arena.mixture_seq().len() ==> r is Ok
            && f.ensures((&arena.mixture_seq()[pointer->0 as int],), r->Ok_0),
{
    let id = read_pointer(pointer)?;
    arena.with_gas_mixture(id, f)
}

/// As `with_mix`, but `f` may change the slot. No other slot changes.
pub fn with_mix_mut<T, F: FnOnce(&mut Mixture) -> T>(
    arena: &mut GasArena,
    pointer: Option<u32>,
    f: F,
) -> (r: Result<T, ArenaError>)
    requires
        old(arena).wf(),
        pointer is Some && (pointer->0 as int) < old(arena).slots().len() ==> forall|
            x: &mut Mixture,
        | x@ == old(arena).slots()[pointer->0 as int] ==> #[trigger] f.requires((x,)),
    ensures
        final(arena).wf(),
        final(arena).free_ids() == old(arena).free_ids(),
        pointer is None ==> r == Err::<T, ArenaError>(ArenaError::FieldTypeError)
            && final(arena).slots() == old(arena).slots(),
        pointer is Some && (pointer->0 as int) >= old(arena).slots().len() ==> r == Err::<
            T,
            ArenaError,
        >(ArenaError::HandleNotFound { handle: pointer->0 as usize })
            && final(arena).slots() == old(arena).slots(),
        pointer is Some && (pointer->0 as int) < old(arena).slots().len() ==> r is Ok && exists|
            x: &mut Mixture,
        |
            x@ == old(arena).slots()[pointer->0 as int] && final(arena).slots() == old(
                arena,
            ).slots().update(pointer->0 as int, final(x)@) && #[trigger] f.ensures((x,), r->Ok_0),
{
    let id = read_pointer(pointer)?;
    arena.with_gas_mixture_mut(id, f)
}

/// As `with_mix`, on the slots that two host objects point to, which may be the same.
pub fn with_mixes<T, F: FnOnce(&Mixture, &Mixture) -> T>(
    arena: &GasArena,
    src_pointer: Option<u32>,
    arg_pointer: Option<u32>,
    f: F,
) -> (r: Result<T, ArenaError>)
    requires
        src_pointer is Some && arg_pointer is Some && (src_pointer->0 as int)
            < arena.mixture_seq().len() && (arg_pointer->0 as int) < arena.mixture_seq().len()
            ==> f.requires(
            (
                &arena.mixture_seq()[src_pointer->0 as int],
                &arena.mixture_seq()[arg_pointer->0 as int],
            ),
        ),
    ensures
        src_pointer is None || arg_pointer is None ==> r == Err::<T, ArenaError>(
            ArenaError::FieldTypeError,
        ),
        src_pointer is Some && arg_pointer is Some ==> {
            let s = src_pointer->0 as int;
            let a = arg_pointer->0 as int;
            let n = arena.mixture_seq().len();
            &&& s >= n ==> r == Err::<T, ArenaError>(ArenaError::HandleNotFound { handle: s as usize })
            &&& s < n && a >= n ==> r == Err::<T, ArenaError>(
                ArenaError::HandleNotFound { handle: a as usize },
            )
            &&& s < n && a < n ==> r is Ok && f.ensures(
                (&arena.mixture_seq()[s], &arena.mixture_seq()[a]),
                r->Ok_0,
            )
        },
{
    let src = read_pointer(src_pointer)?;
    let arg = read_pointer(arg_pointer)?;
    arena.with_gas_mixtures(src, arg, f)
}

/// As `with_mix_mut`, on the slots that two host objects point to. When both
/// point to the same slot, `f` gets that slot and a copy of its content; changes
/// to the copy are dropped. No other slot changes.
pub fn with_mixes_mut<T, F: FnOnce(&mut Mixture, &mut Mixture) -> T>(
    arena: &mut GasArena,
    src_pointer: Option<u32>,
    arg_pointer: Option<u32>,
    f: F,
) -> (r: Result<T, ArenaError>)
    requires
        old(arena).wf(),
        src_pointer is Some && arg_pointer is Some && (src_pointer->0 as int) < old(
            arena,
        ).slots().len() && (arg_pointer->0 as int) < old(arena).slots().len() ==> forall|
            a: &mut Mixture,
            b: &mut Mixture,
        |
            a@ == old(arena).slots()[src_pointer->0 as int] && b@ == old(
                arena,
            ).slots()[arg_pointer->0 as int] ==> #[trigger] f.requires((a, b)),
    ensures
        final(arena).wf(),
        final(arena).free_ids() == old(arena).free_ids(),
        src_pointer is None || arg_pointer is None ==> r == Err::<T, ArenaError>(
            ArenaError::FieldTypeError,
        ) && final(arena).slots() == old(arena).slots(),
        src_pointer is Some && arg_pointer is Some ==> {
            let s = src_pointer->0 as int;
            let a = arg_pointer->0 as int;
            let pre = old(arena).slots();
            let post = final(arena).slots();
            &&& s >= pre.len() ==> r == Err::<T, ArenaError>(
                ArenaError::HandleNotFound { handle: s as usize },
            ) && post == pre
            &&& s < pre.len() && a >= pre.len() ==> r == Err::<T, ArenaError>(
                ArenaError::HandleNotFound { handle: a as usize },
            ) && post == pre
            &&& s < pre.len() && a < pre.len() && s == a ==> r is Ok && exists|
                x: &mut Mixture,
                y: &mut Mixture,
            |
                x@ == pre[s] && y@ == pre[s] && post == pre.update(s, final(x)@)
                    && #[trigger] f.ensures((x, y), r->Ok_0)
            &&& s < pre.len() && a < pre.len() && s != a ==> r is Ok && exists|
                x: &mut Mixture,
                y: &mut Mixture,
            |
                x@ == pre[s] && y@ == pre[a] && post == pre.update(s, final(x)@).update(
                    a,
                    final(y)@,
                ) && #[trigger] f.ensures((x, y), r->Ok_0)
        },
{
    let src = read_pointer(src_pointer)?;
    let arg = read_pointer(arg_pointer)?;
    arena.with_gas_mixtures_mut(src, arg, f)
}

/// Runs `f` on the slot that the first host object points to, which it may
/// change, and on the slot that the second points to, which it reads. When both
/// point to the same slot, the second argument is a copy of its content. No
/// other slot changes.
pub fn with_mixes_custom<T, F: FnOnce(&mut Mixture, &Mixture) -> T>(
    arena: &mut GasArena,
    src_pointer: Option<u32>,
    arg_pointer: Option<u32>,
    f: F,
) -> (r: Result<T, ArenaError>)
    requires
        old(arena).wf(),
        src_pointer is Some && arg_pointer is Some && (src_pointer->0 as int) < old(
            arena,
        ).slots().len() && (arg_pointer->0 as int) < old(arena).slots().len() ==> forall|
            a: &mut Mixture,
            b: &Mixture,
        |
            a@ == old(arena).slots()[src_pointer->0 as int] && b@ == old(
                arena,
            ).slots()[arg_pointer->0 as int] ==> #[trigger] f.requires((a, b)),
    ensures
        final(arena).wf(),
        final(arena).free_ids() == old(arena).free_ids(),
        src_pointer is None || arg_pointer is None ==> r == Err::<T, ArenaError>(
            ArenaError::FieldTypeError,
        ) && final(arena).slots() == old(arena).slots(),
        src_pointer is Some && arg_pointer is Some ==> {
            let s = src_pointer->0 as int;
            let a = arg_pointer->0 as int;
            let pre = old(arena).slots();
            let post = final(arena).slots();
            &&& s >= pre.len() ==> r == Err::<T, ArenaError>(
                ArenaError::HandleNotFound { handle: s as usize },
            ) && post == pre
            &&& s < pre.len() && a >= pre.len() ==> r == Err::<T, ArenaError>(
                ArenaError::HandleNotFound { handle: a as usize },
            ) && post == pre
            &&& s < pre.len() && a < pre.len() ==> r is Ok && exists|x: &mut Mixture, y: &Mixture|
                x@ == pre[s] && y@ == pre[a] && post == pre.update(s, final(x)@)
                    && #[trigger] f.ensures((x, y), r->Ok_0)
        },
{
    let src = read_pointer(src_pointer)?;
    let arg = read_pointer(arg_pointer)?;
    arena.with_gas_mixtures_custom(src, arg, f)
}

/// The number of slots in use: all slots but those waiting in the free list.
pub fn amt_gases(arena: &GasArena) -> (r: usize)
    requires
        arena.wf(),
    ensures
        r == arena.slots().len() - arena.free_ids().len(),
        r <= arena.slots().len(),
{
    arena.active_slots()
}

/// The number of slots, free ones included.
pub fn tot_gases(arena: &GasArena) -> (r: usize)
    ensures
        r == arena.slots().len(),
{
    arena.total_slots()
}

/// The slots in use never outnumber the slots: the free list holds at most as
/// many handles as there are slots.
pub proof fn lemma_active_within_total(arena: &GasArena)
    requires
        arena.wf(),
    ensures
        arena.free_ids().len() <= arena.slots().len(),
{
    arena.lemma_free_ids_fit();
}

/// A registered identifier is bound to exactly one handle: a slot of the arena
/// that no other registered identifier is bound to and that is not waiting in
/// the free list.
pub proof fn lemma_registered_handle_unique(arena: &GasArena, tracker: &RegisteredMixes, id: u32)
    requires
        pool_wf(arena, tracker),
        tracker.bindings().contains_key(id),
    ensures
        tracker.bindings()[id] < arena.slots().len(),
        !arena.free_ids().contains(tracker.bindings()[id]),
        forall|other: u32|
            #[trigger] tracker.bindings().contains_key(other) && other != id ==> tracker.bindings()[other]
                != tracker.bindings()[id],
{
}


/// A refill keeps the arena and the tracker in agreement: the new slots all wait
/// in the free list, and every bound slot stays bound and out of it.
pub proof fn lemma_refill_keeps_pool(before: &GasArena, after: &GasArena, tracker: &RegisteredMixes)
    requires
        pool_wf(before, tracker),
        after.wf(),
        before.free_ids().len() > 0 ==> after.slots() == before.slots() && after.free_ids()
            == before.free_ids(),
        before.free_ids().len() == 0 ==> {
            let n = refill_amount(before.slots().len(), before.reserved());
            &&& after.slots() == before.slots() + default_slots(n)
            &&& after.free_ids() == handle_run(before.slots().len(), n)
        },
    ensures
        pool_wf(after, tracker),
{
    let n0 = before.slots().len();
    after.lemma_wf_bounds();
    assert(after.slots().len() >= n0);
    assert forall|id: u32| #[trigger] tracker.bindings().contains_key(id) implies tracker.bindings()[id]
        < after.slots().len() && !after.free_ids().contains(tracker.bindings()[id]) by {
        if before.free_ids().len() == 0 && after.free_ids().contains(tracker.bindings()[id]) {
            let k = choose|k: int| 0 <= k < after.free_ids().len() && after.free_ids()[k] == tracker.bindings()[id];
            assert(after.free_ids()[k] == (n0 + k) as usize);
        }
    }
    assert forall|h: usize| h < after.slots().len() implies #[trigger] accounted(after, tracker, h) by {
        if h < n0 {
            assert(accounted(before, tracker, h));
            if before.free_ids().len() == 0 {
                assert(!before.free_ids().contains(h));
            }
        } else {
            assert(after.free_ids()[h - n0] == h);
        }
    }
}

/// The slots in use are exactly the live registrations: the number of slots
/// minus the number of free handles is the number of registered identifiers.
pub proof fn lemma_active_equals_registrations(arena: &GasArena, tracker: &RegisteredMixes)
    requires
        pool_wf(arena, tracker),
    ensures
        arena.slots().len() - arena.free_ids().len() == tracker.bindings().len(),
{
    let b = tracker.bindings();
    let q = arena.free_ids();
    let n = arena.slots().len() as usize;
    arena.lemma_wf_bounds();
    tracker.lemma_bindings_finite();
    q.unique_seq_to_set();
    let free_set = q.to_set();
    let handle_of = |id: u32| b[id];
    let bound_set = b.dom().map(handle_of);
    assert(vstd::relations::injective_on(handle_of, b.dom())) by {
        assert forall|x: u32, y: u32| b.dom().contains(x) && b.dom().contains(y) && #[trigger] handle_of(x)
            == #[trigger] handle_of(y) implies x == y by {
            if x != y {
                assert(b[x] != b[y]);
            }
        }
    }
    vstd::set_lib::lemma_map_size(b.dom(), bound_set, handle_of);
    let range = <usize as vstd::set_lib::FiniteRange>::range_set(0, n);
    vstd::set_lib::range_set_properties::<usize>(0, n);
    assert(free_set.disjoint(bound_set)) by {
        assert forall|h: usize| free_set.contains(h) implies !bound_set.contains(h) by {
            if bound_set.contains(h) {
                let id = choose|id: u32| b.dom().contains(id) && handle_of(id) == h;
                assert(b.contains_key(id));
            }
        }
    }
    assert(free_set + bound_set =~= range) by {
        assert forall|h: usize| range.contains(h) implies (free_set + bound_set).contains(h) by {
            assert(accounted(arena, tracker, h));
            if !q.contains(h) {
                let id = choose|id: u32| #[trigger] b.contains_key(id) && b[id] == h;
                assert(bound_set.contains(handle_of(id)));
            }
        }
        assert forall|h: usize| (free_set + bound_set).contains(h) implies range.contains(h) by {
            if free_set.contains(h) {
                let k = choose|k: int| 0 <= k < q.len() && q[k] == h;
            } else {
                let id = choose|id: u32| b.dom().contains(id) && handle_of(id) == h;
                assert(b.contains_key(id));
            }
        }
    }
    vstd::set_lib::lemma_set_disjoint_lens(free_set, bound_set);
}
} // verus!
