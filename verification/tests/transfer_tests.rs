use rustle::transfer::{ReceiveError, ReceiveProgress, CHUNK_SIZE};

#[test]
fn chunks_until_complete() {
    let mut p = ReceiveProgress::new(20000);
    assert!(!p.is_complete());
    assert_eq!(p.next_read_len(), 8192);
    assert_eq!(p.record_read(8192), Ok(()));
    assert_eq!(p.next_read_len(), 8192);
    assert_eq!(p.record_read(100), Ok(()));
    assert_eq!(p.received(), 8292);
    assert_eq!(p.next_read_len(), 8192);
    assert_eq!(p.record_read(8192), Ok(()));
    assert_eq!(p.next_read_len(), 20000 - 16484);
    assert_eq!(p.record_read(20000 - 16484), Ok(()));
    assert!(p.is_complete());
    assert_eq!(p.received(), 20000);
    assert_eq!(CHUNK_SIZE, 8192);
}

#[test]
fn empty_file_is_complete_at_once() {
    let p = ReceiveProgress::new(0);
    assert!(p.is_complete());
}

#[test]
fn closed_connection_is_an_error() {
    let mut p = ReceiveProgress::new(10);
    assert_eq!(p.next_read_len(), 10);
    assert_eq!(p.record_read(0), Err(ReceiveError::ConnectionClosed));
    assert_eq!(p.received(), 0);
    assert_eq!(ReceiveError::ConnectionClosed.message(), "Connection closed prematurely");
}
