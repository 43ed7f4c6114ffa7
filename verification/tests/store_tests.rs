use rtrs::object::ObjectKind;
use rtrs::object::ObjectStore;
use rtrs::object::ObjectValue;
use rtrs::object::StoreError;
use rtrs::pin::MockPin;
use rtrs::selftest::ChildObject1;
use rtrs::selftest::CounterTask;

#[test]
fn store_insert_get_round_trip() {
    let mut s = ObjectStore::new();
    assert!(s.insert("beeper".to_string(), ObjectValue::Child(ChildObject1::new(42))).is_ok());
    let g = s.checkout("beeper").unwrap();
    let v = s.value_ref(&g);
    assert_eq!(v.kind_of(), ObjectKind::Child);
    match v {
        ObjectValue::Child(c) => {
            assert_eq!(c.beep(), "ChildObject1::beep 42".to_string());
        }
        _ => panic!("wrong object type"),
    }
    s.checkin(g);
}

#[test]
fn store_duplicate_insert_refused() {
    let mut s = ObjectStore::new();
    assert!(s.insert("led".to_string(), ObjectValue::Pin(MockPin::new())).is_ok());
    let r = s.insert("led".to_string(), ObjectValue::Pin(MockPin::new()));
    assert_eq!(r, Err(StoreError::DuplicateKey));
}

#[test]
fn store_double_checkout_rejected() {
    let mut s = ObjectStore::new();
    assert!(s.insert("led".to_string(), ObjectValue::Pin(MockPin::new())).is_ok());
    let g = s.checkout("led").unwrap();
    match s.checkout("led") {
        Err(StoreError::Borrowed) => {}
        _ => panic!("second checkout must be rejected"),
    }
    s.checkin(g);
    let g2 = s.checkout("led").unwrap();
    s.checkin(g2);
}

#[test]
fn store_missing_key_reported() {
    let mut s = ObjectStore::new();
    match s.checkout("nothing") {
        Err(StoreError::NoSuchKey) => {}
        _ => panic!("missing key must be reported"),
    }
    match s.remove("nothing") {
        Err(StoreError::NoSuchKey) => {}
        _ => panic!("missing key must be reported"),
    }
}

#[test]
fn store_remove_round_trip() {
    let mut s = ObjectStore::new();
    assert!(s.insert("task".to_string(), ObjectValue::Counter(CounterTask::new(3))).is_ok());
    let v = s.remove("task").unwrap();
    assert_eq!(v.kind_of(), ObjectKind::Counter);
    match s.remove("task") {
        Err(StoreError::NoSuchKey) => {}
        _ => panic!("removed key must be gone"),
    }
}

#[test]
fn store_borrowed_remove_refused() {
    let mut s = ObjectStore::new();
    assert!(s.insert("led".to_string(), ObjectValue::Pin(MockPin::new())).is_ok());
    let g = s.checkout("led").unwrap();
    match s.remove("led") {
        Err(StoreError::Borrowed) => {}
        _ => panic!("removal of a checked-out entry must be refused"),
    }
    s.checkin(g);
    assert!(s.remove("led").is_ok());
}

#[test]
fn store_keys_snapshot_in_order() {
    let mut s = ObjectStore::new();
    assert!(s.insert("alpha".to_string(), ObjectValue::Pin(MockPin::new())).is_ok());
    assert!(s.insert("beta".to_string(), ObjectValue::Counter(CounterTask::new(1))).is_ok());
    let ks = s.keys();
    assert_eq!(ks, vec!["alpha".to_string(), "beta".to_string()]);
}

#[test]
fn store_counter_polls_through_guard() {
    let mut s = ObjectStore::new();
    assert!(s.insert("task".to_string(), ObjectValue::Counter(CounterTask::new(2))).is_ok());
    let g = s.checkout("task").unwrap();
    let c = s.counter_mut(&g);
    assert_eq!(c.poll(), None);
    assert_eq!(c.poll(), None);
    assert_eq!(c.poll(), Some(0));
    s.checkin(g);
}

#[test]
fn store_typed_retrieval_fails_loudly_on_mismatch() {
    let mut s = ObjectStore::new();
    assert!(s.insert("led".to_string(), ObjectValue::Pin(MockPin::new())).is_ok());
    assert!(s.insert("term".to_string(), ObjectValue::Tty(rtrs::tty::Tty::new())).is_ok());
    let g = s.checkout("led").unwrap();
    match s.try_tty(&g) {
        Err(StoreError::TypeMismatch) => {}
        _ => panic!("a pin is not a terminal"),
    }
    s.checkin(g);
    let g2 = s.checkout("term").unwrap();
    assert!(s.try_tty(&g2).is_ok());
    s.checkin(g2);
}
