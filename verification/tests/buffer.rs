use ledger_parser_combinators::buffer::{absent, present, BoundedVec};

#[test]
fn new_buffer_is_empty() {
    let buffer: BoundedVec<u32, 3> = BoundedVec::new();
    assert_eq!(buffer.len(), 0);
    assert_eq!(buffer.capacity(), 3);
    assert!(buffer.is_empty());
    assert!(!buffer.is_full());
}

#[test]
fn push_keeps_order() {
    let mut buffer: BoundedVec<u32, 3> = BoundedVec::new();
    buffer.push(10);
    buffer.push(20);
    assert_eq!(buffer.len(), 2);
    assert_eq!(*buffer.get(0), 10);
    assert_eq!(*buffer.get(1), 20);
    assert!(!buffer.is_full());
    buffer.push(30);
    assert!(buffer.is_full());
    assert_eq!(*buffer.get(2), 30);
}

#[test]
fn try_push_hands_back_what_does_not_fit() {
    let mut buffer: BoundedVec<String, 1> = BoundedVec::new();
    assert_eq!(buffer.try_push("a".to_string()), Ok(()));
    assert_eq!(buffer.try_push("b".to_string()), Err("b".to_string()));
    assert_eq!(buffer.len(), 1);
    assert_eq!(buffer.get(0), "a");
}

#[test]
fn buffer_of_no_capacity_is_full() {
    let mut buffer: BoundedVec<u8, 0> = BoundedVec::new();
    assert!(buffer.is_full());
    assert!(buffer.is_empty());
    assert_eq!(buffer.try_push(1), Err(1));
    assert_eq!(buffer.pop(), None);
    assert!(matches!(buffer.into_array(), Ok([])));
}

#[test]
fn pop_returns_the_newest_item() {
    let mut buffer: BoundedVec<u8, 4> = BoundedVec::new();
    assert_eq!(buffer.pop(), None);
    buffer.push(1);
    buffer.push(2);
    assert_eq!(buffer.pop(), Some(2));
    assert_eq!(buffer.len(), 1);
    buffer.push(3);
    assert_eq!(buffer.pop(), Some(3));
    assert_eq!(buffer.pop(), Some(1));
    assert_eq!(buffer.pop(), None);
    assert!(buffer.is_empty());
}

#[test]
fn take_leaves_the_buffer_empty() {
    let mut buffer: BoundedVec<u8, 4> = BoundedVec::new();
    buffer.push(1);
    buffer.push(2);
    let contents = buffer.take();
    assert_eq!(contents.len(), 2);
    assert_eq!(*contents.get(1), 2);
    assert_eq!(buffer.len(), 0);
    buffer.push(9);
    assert_eq!(*buffer.get(0), 9);
}

#[test]
fn into_array_of_a_full_buffer() {
    let mut buffer: BoundedVec<String, 2> = BoundedVec::new();
    buffer.push("x".to_string());
    buffer.push("y".to_string());
    match buffer.into_array() {
        Ok(array) => assert_eq!(array, ["x".to_string(), "y".to_string()]),
        Err(_) => panic!("a full buffer is an array"),
    }
}

#[test]
fn into_array_hands_back_a_buffer_that_is_not_full() {
    let mut buffer: BoundedVec<u8, 3> = BoundedVec::new();
    buffer.push(5);
    match buffer.into_array() {
        Ok(_) => panic!("a buffer with room is no array"),
        Err(same) => {
            assert_eq!(same.len(), 1);
            assert_eq!(*same.get(0), 5);
        }
    }
}

#[test]
fn slots_are_absent_or_present() {
    assert_eq!(absent::<u8>(0), None);
    assert_eq!(absent::<u8>(17), None);
    assert_eq!(present(Some(4_u8)), 4);
}
