use grow_a_cache::connection::{ConnPhase, Connection, ConnectionRegistry, DataState};
use grow_a_cache::request::Protocol;
use grow_a_cache::token::{OpType, TokenAllocator};

#[test]
fn test_data_state_creation() {
    let reading = DataState::reading();
    assert!(matches!(reading, DataState::Reading { filled: 0 }));

    let reading_with = DataState::reading_with(100);
    assert!(matches!(reading_with, DataState::Reading { filled: 100 }));

    let writing = DataState::writing(5, 200);
    assert!(matches!(
        writing,
        DataState::Writing {
            buf_idx: 5,
            written: 0,
            total: 200
        }
    ));
}

#[test]
fn test_conn_phase_transitions() {
    let mut phase = ConnPhase::Accepting;
    assert!(!phase.is_established());

    phase = ConnPhase::established();
    assert!(phase.is_established());
    assert!(phase.data_state().is_some());

    phase = ConnPhase::Closing;
    assert!(phase.is_closing());
}

#[test]
fn test_connection_state_transitions() {
    let mut conn = Connection::new(42, Protocol::Memcached);

    assert!(conn.is_reading());
    assert!(!conn.is_writing());

    conn.start_writing(1, 100);
    assert!(conn.is_writing());
    assert!(!conn.is_reading());
    assert_eq!(conn.write_state(), Some((1, 0, 100)));

    // Advance write partially
    assert!(!conn.advance_write(50));
    assert_eq!(conn.write_state(), Some((1, 50, 100)));

    // Complete write
    assert!(conn.advance_write(50));

    conn.start_reading();
    assert!(conn.is_reading());

    conn.close();
    assert!(matches!(conn.phase, ConnPhase::Closing));
}

#[test]
fn test_connection_accepting_to_established() {
    let mut conn = Connection::new_accepting(42, Protocol::Resp);
    assert!(matches!(conn.phase, ConnPhase::Accepting));

    conn.establish();
    assert!(conn.is_reading());
}

#[test]
fn test_connection_registry() {
    let mut registry = ConnectionRegistry::new(2);

    let c1 = Connection::new(10, Protocol::Memcached);
    let c2 = Connection::new(11, Protocol::Resp);
    let c3 = Connection::new(12, Protocol::Memcached);

    let id1 = registry.insert(c1).unwrap();
    let id2 = registry.insert(c2).unwrap();

    // At capacity
    assert!(registry.insert(c3).is_none());

    assert_eq!(registry.len(), 2);
    assert_eq!(registry.get(id1).unwrap().fd, 10);
    assert_eq!(registry.get(id2).unwrap().protocol, Protocol::Resp);

    registry.remove(id1);
    assert!(!registry.contains(id1));
    assert_eq!(registry.len(), 1);
}

#[test]
fn test_token_allocator() {
    let mut alloc = TokenAllocator::new(16);

    let t1 = alloc.alloc_token(OpType::Accept);
    let t2 = alloc.alloc_token(OpType::Read { conn_id: 1 });

    assert_eq!(alloc.len(), 2);

    // Verify we can retrieve operations
    assert!(matches!(alloc.get(t1), Some(OpType::Accept)));
    assert!(matches!(alloc.get(t2), Some(OpType::Read { conn_id: 1 })));

    // Free and verify
    alloc.free(t1);
    assert!(alloc.get(t1).is_none());
    assert_eq!(alloc.len(), 1);

    // Allocate reuses slot
    let t3 = alloc.alloc_token(OpType::Accept);
    assert_eq!(t3, t1); // Slab reuses slots
}
