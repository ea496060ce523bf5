//! The smaller helpers: run conditions, tab names, search filtering, the
//! one-entry cache, the borrow-chained list, the password gate, event
//! queues and decimal rendering.

use bindings_core::component::{EventStream, PasswordLock};
use bindings_core::bindings::RunWhen;
use bindings_core::search_selector::{valid_result, SingleCache};
use bindings_core::single_linked_list::SingleLinkedList;
use bindings_core::tabs::TabType;
use bindings_core::text::{i64_to_string, u64_to_string};

#[test]
fn run_when_labels_and_order() {
    assert_eq!(RunWhen::OnTrue.get_str(), "on true");
    assert_eq!(RunWhen::OnFalse.get_str(), "on false");
    assert_eq!(RunWhen::WhileTrue.get_str(), "while true");
    assert_eq!(RunWhen::WhileFalse.get_str(), "while false");
    assert_eq!(
        RunWhen::enumerate(),
        vec![
            RunWhen::OnTrue,
            RunWhen::OnFalse,
            RunWhen::WhileTrue,
            RunWhen::WhileFalse
        ]
    );
}

#[test]
fn tab_names_cover_every_tab() {
    let all = TabType::all();
    assert_eq!(all.len(), 10);
    assert_eq!(TabType::Constants.name(), "constants");
    assert_eq!(TabType::DriverConstants.name(), "driver constants");
    assert_eq!(TabType::ManageSteams.name(), "manage streams");
    assert_eq!(TabType::Profiles.name(), "manage profiles");
    assert_eq!(TabType::Syncing.name(), "syncing");
}

#[test]
fn valid_result_lowercases_the_candidate() {
    // Fails if lowercasing returned its input unchanged.
    assert!(valid_result("Shoot The Ball", "shoot ball"));
    assert!(valid_result("SHOOT", "shoot"));
    assert!(!valid_result("shoot", "SHOOT"));
}

#[test]
fn valid_result_needs_every_word() {
    assert!(valid_result("arm up slow", "arm slow"));
    assert!(!valid_result("arm up slow", "arm fast"));
    // Fails if whitespace splitting returned the whole filter as one word.
    assert!(valid_result("ba", "  a   b  "));
    assert!(valid_result("anything", ""));
}

#[test]
fn single_cache_hits_and_expires() {
    let mut cache: SingleCache<String, usize> = SingleCache {
        last_key: None,
        value: 0,
        read: false,
    };
    let v = *cache.get(&"abc".to_string(), || 3);
    assert_eq!(v, 3);
    // A hit keeps the cached value instead of recomputing.
    let v = *cache.get(&"abc".to_string(), || 99);
    assert_eq!(v, 3);
    // A read entry survives one update.
    cache.update();
    assert!(cache.last_key.is_some());
    // An unread entry expires on the next update.
    cache.update();
    assert!(cache.last_key.is_none());
    let v = *cache.get(&"abc".to_string(), || 99);
    assert_eq!(v, 99);
}

#[test]
fn linked_list_collects_in_insertion_order() {
    let l0 = SingleLinkedList::new();
    let l1 = l0.snoc(1u32);
    let l2 = l1.snoc(2u32);
    let l3 = l2.snoc(3u32);
    assert_eq!(l3.to_vec(), vec![1, 2, 3]);
    assert_eq!(l1.to_vec(), vec![1]);
    let empty: Vec<u32> = SingleLinkedList::<u32>::new().to_vec();
    assert!(empty.is_empty());
}

#[test]
fn password_lock_opens_only_on_the_password() {
    let mut lock = PasswordLock::new(42u8);
    assert!(lock.locked);
    lock.password_typed = "guess".to_string();
    assert!(!lock.try_unlock());
    assert!(lock.locked);
    lock.password_typed = "theyWillNeverKnow!".to_string();
    assert!(lock.try_unlock());
    assert!(!lock.locked);
    assert!(lock.password_typed.is_empty());
    lock.lock();
    assert!(lock.locked);
}

#[test]
fn event_stream_queues_and_drains_in_order() {
    let mut q: EventStream<u32> = EventStream::new();
    q.add_event(1);
    q.add_event(2);
    q.add_event(3);
    assert_eq!(q.drain(), vec![1, 2, 3]);
    assert!(q.drain().is_empty());
}

#[test]
fn decimal_rendering_matches_expectations() {
    assert_eq!(u64_to_string(0), "0");
    assert_eq!(u64_to_string(7), "7");
    assert_eq!(u64_to_string(10), "10");
    assert_eq!(u64_to_string(255), "255");
    assert_eq!(u64_to_string(1000), "1000");
    assert_eq!(i64_to_string(-1), "-1");
    assert_eq!(i64_to_string(-315), "-315");
    assert_eq!(i64_to_string(12), "12");
}

#[test]
fn checkingimnotstupid() {
    assert_eq!(0.01.to_string(), "0.01")
}
