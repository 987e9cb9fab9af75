use kv_cache::clock::later_of;
use kv_cache::clock::Clock;
use kv_cache::store::Storage;

#[test]
fn fresh_store_holds_nothing() {
    let mut s = Storage::new();
    assert_eq!(s.get(b"missing"), None);
    assert_eq!(s.get_at(b"missing", 0), None);
    assert_eq!(s.get_at(b"", 5), None);
}

#[test]
fn set_then_get_yields_value() {
    let mut s = Storage::new();
    s.set(b"k".to_vec(), b"v".to_vec());
    assert_eq!(s.get(b"k"), Some(b"v".to_vec()));
    assert_eq!(s.get_at(b"k", 0), Some(b"v".to_vec()));
    assert_eq!(s.get_at(b"k", u128::MAX), Some(b"v".to_vec()));
}

#[test]
fn set_overwrites_in_place() {
    let mut s = Storage::new();
    s.set(b"k".to_vec(), b"one".to_vec());
    s.set(b"k".to_vec(), b"two".to_vec());
    assert_eq!(s.get_at(b"k", 0), Some(b"two".to_vec()));
}

#[test]
fn keys_are_told_apart_byte_for_byte() {
    let mut s = Storage::new();
    s.set(b"a".to_vec(), b"1".to_vec());
    s.set(b"ab".to_vec(), b"2".to_vec());
    s.set(b"".to_vec(), b"3".to_vec());
    assert_eq!(s.get_at(b"a", 0), Some(b"1".to_vec()));
    assert_eq!(s.get_at(b"ab", 0), Some(b"2".to_vec()));
    assert_eq!(s.get_at(b"", 0), Some(b"3".to_vec()));
    assert_eq!(s.get_at(b"A", 0), None);
    assert_eq!(s.get_at(b"b", 0), None);
}

#[test]
fn value_lives_until_its_deadline() {
    let mut s = Storage::new();
    s.set_ex_at(b"k".to_vec(), b"v".to_vec(), 100, 1000);
    assert_eq!(s.get_at(b"k", 1000), Some(b"v".to_vec()));
    assert_eq!(s.get_at(b"k", 1099), Some(b"v".to_vec()));
    assert_eq!(s.get_at(b"k", 1100), None);
}

#[test]
fn eviction_is_final() {
    let mut s = Storage::new();
    s.set_ex_at(b"k".to_vec(), b"v".to_vec(), 100, 1000);
    assert_eq!(s.get_at(b"k", 5000), None);
    assert_eq!(s.get_at(b"k", 5001), None);
    // The key was dropped, not hidden: it is absent at every time.
    assert_eq!(s.get_at(b"k", 1000), None);
    assert_eq!(s.get_at(b"k", 0), None);
}

#[test]
fn read_before_the_write_time_finds_the_value() {
    let mut s = Storage::new();
    s.set_ex_at(b"k".to_vec(), b"v".to_vec(), 10, 1000);
    assert_eq!(s.get_at(b"k", 3), Some(b"v".to_vec()));
}

#[test]
fn zero_ttl_is_gone_at_once() {
    let mut s = Storage::new();
    s.set_ex_at(b"k".to_vec(), b"v".to_vec(), 0, 42);
    assert_eq!(s.get_at(b"k", 42), None);
    assert_eq!(s.get_at(b"k", 42), None);
}

#[test]
fn zero_ttl_is_gone_at_once_on_the_clock() {
    let mut s = Storage::new();
    s.set_ex(b"k".to_vec(), b"v".to_vec(), 0);
    assert_eq!(s.get(b"k"), None);
    assert_eq!(s.get(b"k"), None);
}

#[test]
fn long_ttl_is_read_on_the_clock() {
    let mut s = Storage::new();
    s.set_ex(b"k".to_vec(), b"v".to_vec(), 3_600_000);
    assert_eq!(s.get(b"k"), Some(b"v".to_vec()));
}

#[test]
fn plain_set_clears_the_deadline() {
    let mut s = Storage::new();
    s.set_ex_at(b"k".to_vec(), b"v1".to_vec(), 100, 1000);
    s.set(b"k".to_vec(), b"v2".to_vec());
    assert_eq!(s.get_at(b"k", 1100), Some(b"v2".to_vec()));
    assert_eq!(s.get_at(b"k", u128::MAX), Some(b"v2".to_vec()));
}

#[test]
fn timed_set_replaces_a_plain_one() {
    let mut s = Storage::new();
    s.set(b"k".to_vec(), b"v1".to_vec());
    s.set_ex_at(b"k".to_vec(), b"v2".to_vec(), 5, 10);
    assert_eq!(s.get_at(b"k", 14), Some(b"v2".to_vec()));
    assert_eq!(s.get_at(b"k", 15), None);
}

#[test]
fn later_timed_set_moves_the_deadline() {
    let mut s = Storage::new();
    s.set_ex_at(b"k".to_vec(), b"v1".to_vec(), 5, 10);
    s.set_ex_at(b"k".to_vec(), b"v2".to_vec(), 50, 12);
    assert_eq!(s.get_at(b"k", 20), Some(b"v2".to_vec()));
    assert_eq!(s.get_at(b"k", 62), None);
}

#[test]
fn deadline_beyond_the_largest_time_is_never_reached() {
    let mut s = Storage::new();
    s.set_ex_at(b"k".to_vec(), b"v".to_vec(), u64::MAX, u128::MAX);
    assert_eq!(s.get_at(b"k", u128::MAX), Some(b"v".to_vec()));
    s.set_ex_at(b"j".to_vec(), b"w".to_vec(), 1, u128::MAX - 1);
    assert_eq!(s.get_at(b"j", u128::MAX - 1), Some(b"w".to_vec()));
    assert_eq!(s.get_at(b"j", u128::MAX), None);
}

#[test]
fn expiry_of_one_key_leaves_the_others() {
    let mut s = Storage::new();
    s.set(b"a".to_vec(), b"1".to_vec());
    s.set_ex_at(b"b".to_vec(), b"2".to_vec(), 10, 0);
    s.set_ex_at(b"c".to_vec(), b"3".to_vec(), 20, 0);
    assert_eq!(s.get_at(b"b", 10), None);
    assert_eq!(s.get_at(b"a", 10), Some(b"1".to_vec()));
    assert_eq!(s.get_at(b"c", 10), Some(b"3".to_vec()));
    assert_eq!(s.get_at(b"c", 20), None);
    assert_eq!(s.get_at(b"a", 20), Some(b"1".to_vec()));
}

#[test]
fn store_clock_does_not_go_back() {
    let mut s = Storage::new();
    let a = s.now();
    let b = s.now();
    let c = s.now();
    assert!(a <= b);
    assert!(b <= c);
}

#[test]
fn clock_does_not_go_back() {
    let mut c = Clock::new();
    let a = c.now_ms();
    let b = c.now_ms();
    assert!(a <= b);
    // A clock just made has run for far less than a day.
    assert!(b < 86_400_000);
}

#[test]
fn later_of_picks_the_later() {
    assert_eq!(later_of(5, 7), 7);
    assert_eq!(later_of(7, 5), 7);
    assert_eq!(later_of(0, 0), 0);
    assert_eq!(later_of(u128::MAX, 1), u128::MAX);
}
