use gotham_core::state::{State, StateError, StateValue};

#[test]
fn round_trip_insert_then_borrow() {
    let mut state = State::new("req-1".to_string());
    state.put(1, StateValue::Text("hello".to_string()));
    match state.try_borrow_text(1) {
        Ok(s) => assert_eq!(s, "hello"),
        Err(_) => panic!("stored text must be retrievable"),
    }
}

#[test]
fn round_trip_every_kind() {
    let mut state = State::new("req-2".to_string());
    state.put(10, StateValue::Number(42));
    state.put(11, StateValue::Flag(true));
    state.put(12, StateValue::Bytes(vec![1, 2, 3]));
    assert_eq!(state.try_borrow_number(10), Ok(42));
    assert_eq!(state.try_borrow_flag(11), Ok(true));
    match state.try_borrow_bytes(12) {
        Ok(b) => assert_eq!(b, &vec![1, 2, 3]),
        Err(_) => panic!("stored bytes must be retrievable"),
    }
}

#[test]
fn absent_key_reports_absent_not_default() {
    let state = State::new("req-3".to_string());
    assert_eq!(state.try_borrow_number(7), Err(StateError::Absent));
    assert!(state.try_borrow_text(7).is_err());
    assert!(!state.has(7));
}

#[test]
fn wrong_kind_reports_mismatch_not_corruption() {
    let mut state = State::new("req-4".to_string());
    state.put(5, StateValue::Text("abc".to_string()));
    assert_eq!(state.try_borrow_number(5), Err(StateError::KindMismatch));
    match state.try_borrow_text(5) {
        Ok(s) => assert_eq!(s, "abc"),
        Err(_) => panic!("the slot itself must stay intact"),
    }
}

#[test]
fn insert_replaces_existing_slot() {
    let mut state = State::new("req-5".to_string());
    state.put(5, StateValue::Number(1));
    state.put(5, StateValue::Number(2));
    assert_eq!(state.try_borrow_number(5), Ok(2));
    state.put(5, StateValue::Flag(false));
    assert_eq!(state.try_borrow_number(5), Err(StateError::KindMismatch));
    assert_eq!(state.try_borrow_flag(5), Ok(false));
}

#[test]
fn take_removes_the_slot() {
    let mut state = State::new("req-6".to_string());
    state.put(8, StateValue::Number(99));
    match state.take(8) {
        Ok(StateValue::Number(n)) => assert_eq!(n, 99),
        _ => panic!("take must hand back the stored value"),
    }
    assert_eq!(state.try_borrow_number(8), Err(StateError::Absent));
    assert_eq!(state.take(8).err(), Some(StateError::Absent));
}

#[test]
fn request_id_is_read_only_and_survives_puts() {
    let mut state = State::new("req-7".to_string());
    state.put(1, StateValue::Number(5));
    state.put(2, StateValue::Text("x".to_string()));
    let _ = state.take(1);
    assert_eq!(state.request_id(), "req-7");
}
