use std::collections::HashSet;
use std::time::{Duration, SystemTime, UNIX_EPOCH};

use maelstrom::unique_ids::{
    gen_at, gen_from_millis, gen_sync, node_bits, Clock, Generate, Id, IdSource, Source, SystemClock,
    ID_EPOCH_MILLIS,
};

/// A clock that always reads the same millisecond after the id epoch.
struct ConstantClock(u64);

impl Clock for ConstantClock {
    fn now(&self) -> SystemTime {
        UNIX_EPOCH + Duration::from_millis(ID_EPOCH_MILLIS + self.0)
    }
}

/// A clock that reads before the id epoch.
struct EarlyClock;

impl Clock for EarlyClock {
    fn now(&self) -> SystemTime {
        UNIX_EPOCH + Duration::from_millis(ID_EPOCH_MILLIS - 1)
    }
}

/// A node number source that always answers the same number.
struct FixedId(u8);

impl IdSource for FixedId {
    fn get(&self) -> u8 {
        self.0
    }
}

#[test]
fn two_calls_with_default_sources_returns_unique_ids() {
    let mut state = Source::new(SystemClock, FixedId(node_bits(4242)));
    let id1 = gen_sync(&mut state, Generate::default()).unwrap().id;
    let id2 = gen_sync(&mut state, Generate::default()).unwrap().id;
    assert_ne!(id1, id2);
}

#[test]
fn max_calls_per_millisecond_are_unique() {
    let mut state = Source::new(ConstantClock(42), FixedId(5));
    let ids: HashSet<Id> = (0..256)
        .map(|_| gen_sync(&mut state, Generate::default()).unwrap().id)
        .collect();
    assert_eq!(ids.len(), 256);
}

#[test]
fn no_id_on_the_257th_call_in_a_millisecond() {
    let mut state = Source::new(ConstantClock(42), FixedId(5));
    for _ in 0..256 {
        assert!(gen_sync(&mut state, Generate::default()).is_some());
    }
    assert!(gen_sync(&mut state, Generate::default()).is_none());
}

#[test]
fn id_packs_timestamp_node_and_count() {
    assert_eq!(Id::new(42, 5, 3).value(), (42 << 14) | (5 << 8) | 3);
    assert_eq!(Id::new(0, 0, 0).value(), 0);
    assert_eq!(Id::new((1 << 42) - 1, 63, 255).value(), (1 << 56) - 1);
}

#[test]
fn ids_count_within_a_millisecond_and_restart_after() {
    let mut state = Source::new(ConstantClock(0), FixedId(1));
    assert_eq!(gen_at(&mut state, Generate::default(), 42, 1).id.value(), (42 << 14) | (1 << 8));
    assert_eq!(gen_at(&mut state, Generate::default(), 42, 1).id.value(), (42 << 14) | (1 << 8) | 1);
    assert_eq!(gen_at(&mut state, Generate::default(), 43, 1).id.value(), (43 << 14) | (1 << 8));
}

#[test]
fn later_milliseconds_give_larger_ids() {
    assert!(Id::new(43, 0, 0).value() > Id::new(42, 63, 255).value());
}

#[test]
fn no_id_before_the_epoch_or_for_a_wide_node_number() {
    let mut early = Source::new(EarlyClock, FixedId(1));
    assert!(gen_sync(&mut early, Generate::default()).is_none());
    let mut wide = Source::new(ConstantClock(42), FixedId(64));
    assert!(gen_sync(&mut wide, Generate::default()).is_none());
}

#[test]
fn node_bits_keep_the_low_six_bits() {
    assert_eq!(node_bits(0), 0);
    assert_eq!(node_bits(63), 63);
    assert_eq!(node_bits(64), 0);
    assert_eq!(node_bits(12345), (12345 % 64) as u8);
}

#[test]
fn gen_from_millis_counts_from_the_id_epoch() {
    let mut state = Source::new(ConstantClock(0), FixedId(1));
    let ms = ID_EPOCH_MILLIS as u128 + 42;
    let ok = gen_from_millis(&mut state, Generate::default(), ms, 1).unwrap();
    assert_eq!(ok.id.value(), (42 << 14) | (1 << 8));
    assert!(gen_from_millis(&mut state, Generate::default(), ID_EPOCH_MILLIS as u128 - 1, 1).is_none());
    assert!(gen_from_millis(&mut state, Generate::default(), ms, 64).is_none());
    assert!(gen_from_millis(&mut state, Generate::default(), ID_EPOCH_MILLIS as u128 + (1 << 42), 1).is_none());
}
