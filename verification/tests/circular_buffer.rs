use os1::util::circular_buffer::CircularBuffer;

#[test]
fn test_pop_empty() {
    let mut buffer: CircularBuffer<i32, 4> = CircularBuffer::new();
    assert_eq!(buffer.pop_front(), None);
}

#[test]
fn test_buffer_full() {
    let mut buffer: CircularBuffer<i32, 4> = CircularBuffer::new();
    buffer.push_back(1).unwrap();
    buffer.push_back(2).unwrap();
    buffer.push_back(3).unwrap();
    buffer.push_back(4).unwrap();

    assert_eq!(buffer.push_back(5).is_err(), true);
}

#[test]
fn test_buffer() {
    let mut buffer: CircularBuffer<i32, 4> = CircularBuffer::new();

    buffer.push_back(1).unwrap();
    buffer.push_back(2).unwrap();
    assert_eq!(buffer.pop_front(), Some(1));

    buffer.push_back(3).unwrap();
    buffer.push_back(4).unwrap();
    assert_eq!(buffer.pop_front(), Some(2));
    assert_eq!(buffer.pop_front(), Some(3));
    assert_eq!(buffer.pop_front(), Some(4));
    assert_eq!(buffer.pop_front(), None);
}

#[test]
fn saturation_is_sticky() {
    let mut buffer: CircularBuffer<i32, 3> = CircularBuffer::new();
    buffer.push_back(1).unwrap();
    buffer.push_back(2).unwrap();
    buffer.push_back(3).unwrap();
    assert!(buffer.is_saturated());

    // Once the buffer has been full, pushes keep failing even after
    // elements are popped.
    assert_eq!(buffer.pop_front(), Some(1));
    assert!(buffer.push_back(4).is_err());
    assert!(buffer.is_saturated());

    assert_eq!(buffer.pop_front(), Some(2));
    assert_eq!(buffer.pop_front(), Some(3));
    assert_eq!(buffer.pop_front(), None);
}

#[test]
fn capacity_one() {
    let mut buffer: CircularBuffer<u8, 1> = CircularBuffer::new();
    assert!(!buffer.is_saturated());
    buffer.push_back(7).unwrap();
    assert!(buffer.is_saturated());
    assert!(buffer.push_back(8).is_err());
    assert_eq!(buffer.pop_front(), Some(7));
    assert_eq!(buffer.pop_front(), None);
}
