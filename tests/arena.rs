use auxmos_arena::arena::{refill_amount_of, FREE_ID_BOUND, REFILL_MARGIN};
use auxmos_arena::mixture::DEFAULT_VOLUME_BITS;
use auxmos_arena::{
    amt_gases, handle_from_bits, handle_to_bits, tot_gases, with_mix, with_mix_mut, with_mixes,
    with_mixes_custom, with_mixes_mut, ArenaError, GasArena, Mixture, RegisteredMixes,
};

fn vol(v: f32) -> Option<u32> {
    Some(v.to_bits())
}

fn started() -> (GasArena, RegisteredMixes) {
    let arena = GasArena::initialize();
    let mut tracker = RegisteredMixes::uninitialized();
    tracker.initialize();
    (arena, tracker)
}

#[test]
fn scenario_first_registration_gets_handle_zero() {
    let (mut arena, mut tracker) = started();
    assert_eq!(arena.register_mix(&mut tracker, 11, vol(5.0)), Ok(0));
    assert_eq!(amt_gases(&arena), 1);
    assert!(tot_gases(&arena) >= 1);
    assert!(tracker.is_registered_mix(11));
    // the background grower keeps the count of slots in use
    arena.refill_free_ids();
    assert_eq!(amt_gases(&arena), 1);
    assert_eq!(tot_gases(&arena), 1 + FREE_ID_BOUND - REFILL_MARGIN);
}

#[test]
fn scenario_unregister_returns_handle() {
    let (mut arena, mut tracker) = started();
    assert_eq!(arena.register_mix(&mut tracker, 11, vol(5.0)), Ok(0));
    arena.unregister_mix(&mut tracker, 11, Some(handle_to_bits(0)));
    assert_eq!(amt_gases(&arena), 0);
    assert_eq!(tot_gases(&arena), 1);
    assert!(!tracker.is_registered_mix(11));
}

#[test]
fn scenario_reuse_resets_content() {
    let (mut arena, mut tracker) = started();
    assert_eq!(arena.register_mix(&mut tracker, 11, vol(5.0)), Ok(0));
    with_mix_mut(&mut arena, Some(0), |m: &mut Mixture| m.push_moles(42)).unwrap();
    arena.unregister_mix(&mut tracker, 11, Some(0));
    assert_eq!(arena.register_mix(&mut tracker, 12, vol(3.0)), Ok(0));
    let (v, n) = with_mix(&arena, Some(0), |m: &Mixture| (m.volume(), m.moles().len())).unwrap();
    assert_eq!(v, 3.0f32.to_bits());
    assert_eq!(n, 0);
    assert_eq!(amt_gases(&arena), 1);
}

#[test]
fn scenario_burst_of_registrations_all_distinct() {
    let (mut arena, mut tracker) = started();
    let count: u32 = 2 * (FREE_ID_BOUND as u32) + 7;
    let mut seen = std::collections::HashSet::new();
    for id in 0..count {
        let h = arena.register_mix(&mut tracker, id, vol(2.0)).unwrap();
        assert!(seen.insert(h));
        if id % 3 == 0 {
            arena.refill_free_ids();
        }
    }
    assert_eq!(seen.len(), count as usize);
    assert_eq!(amt_gases(&arena), count as usize);
    assert!(amt_gases(&arena) <= tot_gases(&arena));
}

#[test]
fn refill_uses_free_list_first() {
    let (mut arena, mut tracker) = started();
    arena.refill_free_ids();
    assert_eq!(amt_gases(&arena), 0);
    assert_eq!(tot_gases(&arena), 1900);
    assert_eq!(arena.register_mix(&mut tracker, 1, vol(1.0)), Ok(0));
    assert_eq!(arena.register_mix(&mut tracker, 2, vol(1.0)), Ok(1));
    // a second refill while handles are still free does nothing
    arena.refill_free_ids();
    assert_eq!(tot_gases(&arena), 1900);
    let v = with_mix(&arena, Some(5), |m: &Mixture| m.volume()).unwrap();
    assert_eq!(v, DEFAULT_VOLUME_BITS);
    assert_eq!(f32::from_bits(DEFAULT_VOLUME_BITS), 2500.0);
}

#[test]
fn refill_amount_is_capped_by_reserve() {
    assert_eq!(refill_amount_of(0, 240_000), 1900);
    assert_eq!(refill_amount_of(239_950, 240_000), 50);
    assert_eq!(refill_amount_of(240_000, 240_000), 1900);
    assert_eq!(refill_amount_of(0xFFFF_FFFF - 10, 240_000), 10);
}

#[test]
fn volume_not_a_number_is_field_type_error() {
    let (mut arena, mut tracker) = started();
    assert_eq!(arena.register_mix(&mut tracker, 3, None), Err(ArenaError::FieldTypeError));
    assert_eq!(tot_gases(&arena), 0);
    assert!(!tracker.is_registered_mix(3));
}

#[test]
fn unknown_handle_is_not_found() {
    let (mut arena, mut tracker) = started();
    arena.register_mix(&mut tracker, 1, vol(1.0)).unwrap();
    assert_eq!(with_mix(&arena, Some(7), |m: &Mixture| m.volume()), Err(ArenaError::HandleNotFound { handle: 7 }));
    assert_eq!(with_mix(&arena, None, |m: &Mixture| m.volume()), Err(ArenaError::FieldTypeError));
    assert_eq!(
        with_mixes(&arena, Some(0), Some(9), |a: &Mixture, b: &Mixture| a.volume() == b.volume()),
        Err(ArenaError::HandleNotFound { handle: 9 })
    );
    assert_eq!(
        with_mixes_mut(&mut arena, Some(4), Some(0), |_a: &mut Mixture, _b: &mut Mixture| ()),
        Err(ArenaError::HandleNotFound { handle: 4 })
    );
    assert_eq!(
        with_mixes_custom(&mut arena, Some(0), None, |_a: &mut Mixture, _b: &Mixture| ()),
        Err(ArenaError::FieldTypeError)
    );
    assert_eq!(
        arena.with_gas_mixture(1, |m: &Mixture| m.volume()),
        Err(ArenaError::HandleNotFound { handle: 1 })
    );
}

#[test]
fn aliased_mut_pair_gets_equal_copies() {
    let (mut arena, mut tracker) = started();
    arena.register_mix(&mut tracker, 1, vol(4.0)).unwrap();
    with_mix_mut(&mut arena, Some(0), |m: &mut Mixture| m.push_moles(9)).unwrap();
    let same = with_mixes_mut(&mut arena, Some(0), Some(0), |a: &mut Mixture, b: &mut Mixture| {
        let equal = a.volume() == b.volume() && a.moles() == b.moles();
        b.push_moles(77);
        b.clear_with_vol(1);
        equal
    })
    .unwrap();
    assert!(same);
    let (v, moles) = with_mix(&arena, Some(0), |m: &Mixture| (m.volume(), m.moles().clone())).unwrap();
    assert_eq!(v, 4.0f32.to_bits());
    assert_eq!(moles, vec![9]);
}

#[test]
fn distinct_mut_pair_changes_both() {
    let (mut arena, mut tracker) = started();
    arena.register_mix(&mut tracker, 1, vol(4.0)).unwrap();
    arena.register_mix(&mut tracker, 2, vol(6.0)).unwrap();
    with_mixes_mut(&mut arena, Some(0), Some(1), |a: &mut Mixture, b: &mut Mixture| {
        a.push_moles(1);
        b.push_moles(2);
    })
    .unwrap();
    with_mixes_custom(&mut arena, Some(1), Some(0), |a: &mut Mixture, b: &Mixture| {
        a.push_moles(b.moles()[0]);
    })
    .unwrap();
    let r = with_mixes(&arena, Some(0), Some(1), |a: &Mixture, b: &Mixture| {
        (a.moles().clone(), b.moles().clone(), b.volume())
    })
    .unwrap();
    assert_eq!(r, (vec![1], vec![2, 1], 6.0f32.to_bits()));
    let total = arena.with_all_mixtures(|all: &[Mixture]| all.len());
    assert_eq!(total, 2);
}

#[test]
fn aliased_custom_pair_reads_copy() {
    let (mut arena, mut tracker) = started();
    arena.register_mix(&mut tracker, 1, vol(4.0)).unwrap();
    with_mixes_custom(&mut arena, Some(0), Some(0), |a: &mut Mixture, b: &Mixture| {
        a.push_moles(5);
        assert_eq!(b.moles().len(), 0);
    })
    .unwrap();
    let n = with_mix(&arena, Some(0), |m: &Mixture| m.moles().len()).unwrap();
    assert_eq!(n, 1);
}

#[test]
fn unregister_after_shutdown_is_noop() {
    let (mut arena, mut tracker) = started();
    arena.register_mix(&mut tracker, 1, vol(4.0)).unwrap();
    arena.refill_free_ids();
    arena.shut_down();
    tracker.shut_down();
    assert_eq!(tot_gases(&arena), 0);
    assert_eq!(amt_gases(&arena), 0);
    arena.unregister_mix(&mut tracker, 1, Some(0));
    assert_eq!(amt_gases(&arena), 0);
    assert!(!tracker.is_registered_mix(1));
}

#[test]
fn double_unregister_is_noop() {
    let (mut arena, mut tracker) = started();
    arena.register_mix(&mut tracker, 1, vol(4.0)).unwrap();
    arena.unregister_mix(&mut tracker, 1, Some(0));
    arena.unregister_mix(&mut tracker, 1, Some(0));
    arena.unregister_mix(&mut tracker, 99, Some(0));
    assert_eq!(tot_gases(&arena), 1);
    assert_eq!(amt_gases(&arena), 0);
    assert_eq!(arena.register_mix(&mut tracker, 2, vol(4.0)), Ok(0));
    assert_eq!(arena.register_mix(&mut tracker, 3, vol(4.0)), Ok(1));
}

#[test]
fn tracker_lifecycle() {
    let mut tracker = RegisteredMixes::uninitialized();
    assert!(!tracker.is_active());
    assert!(!tracker.is_registered_mix(1));
    tracker.unregister_mix(1);
    tracker.initialize();
    assert!(tracker.is_active());
    tracker.register_mix(1, 4);
    assert!(tracker.is_registered_mix(1));
    tracker.shut_down();
    assert!(!tracker.is_active());
    assert!(!tracker.is_registered_mix(1));
}

#[test]
fn releases_beyond_channel_bound_are_kept() {
    let (mut arena, mut tracker) = started();
    let count: u32 = FREE_ID_BOUND as u32 + 150;
    for id in 0..count {
        assert_eq!(arena.register_mix(&mut tracker, id, vol(1.0)), Ok(id as usize));
    }
    for id in 0..count {
        arena.unregister_mix(&mut tracker, id, Some(id));
    }
    assert_eq!(amt_gases(&arena), 0);
    assert_eq!(tot_gases(&arena), count as usize);
    // a refill does nothing while handles are free
    arena.refill_free_ids();
    assert_eq!(tot_gases(&arena), count as usize);
    for id in 0..count {
        assert_eq!(arena.register_mix(&mut tracker, 10_000 + id, vol(1.0)), Ok(id as usize));
    }
    assert_eq!(amt_gases(&arena), count as usize);
    assert_eq!(tot_gases(&arena), count as usize);
}

#[test]
fn release_after_overflow_keeps_order() {
    let (mut arena, mut tracker) = started();
    let count: u32 = FREE_ID_BOUND as u32 + 2;
    for id in 0..count {
        arena.register_mix(&mut tracker, id, vol(1.0)).unwrap();
    }
    // released newest first: the channel fills and the last two overflow, and
    // the first handle released is the first reused
    for id in (0..count).rev() {
        arena.unregister_mix(&mut tracker, id, Some(id));
    }
    assert_eq!(arena.register_mix(&mut tracker, 50_000, vol(1.0)), Ok(count as usize - 1));
    assert_eq!(amt_gases(&arena), 1);
}

#[test]
fn handle_bits_round_trip() {
    assert_eq!(handle_from_bits(handle_to_bits(0)), 0);
    assert_eq!(handle_to_bits(1), 1);
    assert_eq!(handle_from_bits(handle_to_bits(123_456)), 123_456);
    let stored = f32::from_bits(handle_to_bits(7));
    assert_eq!(handle_from_bits(stored.to_bits()), 7);
}

#[test]
fn mixture_reset_and_duplicate() {
    let mut m = Mixture::from_vol(10);
    m.push_moles(3);
    let d = m.duplicate();
    m.clear_with_vol(20);
    assert_eq!(m.volume(), 20);
    assert!(m.moles().is_empty());
    assert_eq!(d.volume(), 10);
    assert_eq!(d.moles(), &vec![3]);
    assert_eq!(Mixture::default().volume(), DEFAULT_VOLUME_BITS);
}

#[test]
fn mismatched_pointer_does_not_release() {
    let (mut arena, mut tracker) = started();
    assert_eq!(arena.register_mix(&mut tracker, 1, vol(4.0)), Ok(0));
    assert_eq!(arena.register_mix(&mut tracker, 2, vol(4.0)), Ok(1));
    arena.unregister_mix(&mut tracker, 1, Some(1));
    arena.unregister_mix(&mut tracker, 1, None);
    assert!(tracker.is_registered_mix(1));
    assert_eq!(amt_gases(&arena), 2);
    assert_eq!(tracker.handle_of(1), Some(0));
    arena.unregister_mix(&mut tracker, 1, Some(0));
    assert_eq!(tracker.handle_of(1), None);
    assert_eq!(amt_gases(&arena), 1);
}
