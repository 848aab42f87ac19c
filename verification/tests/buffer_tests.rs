use grow_a_cache::buffer::{BufferChain, BufferPool, ChainError};

#[test]
fn test_buffer_pool_basic() {
    let mut pool = BufferPool::new(4, 1024);

    assert_eq!(pool.capacity(), 4);
    assert_eq!(pool.available(), 4);
    assert_eq!(pool.buffer_size(), 1024);

    // Allocate all buffers
    let b0 = pool.alloc_buf().unwrap();
    let b1 = pool.alloc_buf().unwrap();
    let b2 = pool.alloc_buf().unwrap();
    let b3 = pool.alloc_buf().unwrap();

    assert_eq!(pool.available(), 0);
    assert!(pool.alloc_buf().is_none());

    // Free and reallocate
    pool.free(b1);
    assert_eq!(pool.available(), 1);

    let b4 = pool.alloc_buf().unwrap();
    assert_eq!(b4, b1); // LIFO reuse

    // Write and read
    pool.get_mut(b0)[0] = 42;
    assert_eq!(pool.get(b0)[0], 42);

    pool.free(b0);
    pool.free(b2);
    pool.free(b3);
    pool.free(b4);
    assert_eq!(pool.available(), 4);
}

#[test]
fn test_buffer_chain_single_buffer() {
    let mut pool = BufferPool::new(4, 1024);
    let mut chain = BufferChain::new(pool.buffer_size());

    // Append small data (fits in one buffer)
    let data = b"hello world";
    chain.append(data, &mut pool).unwrap();

    assert_eq!(chain.len(), 11);
    assert_eq!(chain.buffer_count(), 1);
    assert_eq!(pool.available(), 3);

    // Read back
    let result = chain.as_contiguous(&pool);
    assert_eq!(&result[..], data);

    // Release
    chain.release(&mut pool);
    assert_eq!(pool.available(), 4);
    assert_eq!(chain.len(), 0);
}

#[test]
fn test_buffer_chain_multi_buffer() {
    let mut pool = BufferPool::new(10, 100); // Small buffers for testing
    let mut chain = BufferChain::new(pool.buffer_size());

    // Append data that spans 3 buffers (250 bytes)
    let data: Vec<u8> = (0..250u8).collect();
    chain.append(&data, &mut pool).unwrap();

    assert_eq!(chain.len(), 250);
    assert_eq!(chain.buffer_count(), 3); // 100 + 100 + 50
    assert_eq!(pool.available(), 7);

    // Read back
    let result = chain.as_contiguous(&pool);
    assert_eq!(&result[..], &data[..]);

    // Test chunks
    let chunks = chain.chunks(&pool);
    assert_eq!(chunks.len(), 3);
    assert_eq!(chunks[0].len(), 100);
    assert_eq!(chunks[1].len(), 100);
    assert_eq!(chunks[2].len(), 50);

    // Release
    chain.release(&mut pool);
    assert_eq!(pool.available(), 10);
}

#[test]
fn test_buffer_chain_append_incremental() {
    let mut pool = BufferPool::new(10, 100);
    let mut chain = BufferChain::new(pool.buffer_size());

    // Append in multiple small chunks
    chain.append(b"hello ", &mut pool).unwrap();
    chain.append(b"world", &mut pool).unwrap();

    assert_eq!(chain.len(), 11);
    assert_eq!(chain.buffer_count(), 1);

    let result = chain.as_contiguous(&pool);
    assert_eq!(&result[..], b"hello world");

    chain.release(&mut pool);
}

#[test]
fn test_buffer_chain_pool_exhausted() {
    let mut pool = BufferPool::new(2, 100);
    let mut chain = BufferChain::new(pool.buffer_size());

    // Fill the pool
    let data = vec![0u8; 200];
    chain.append(&data, &mut pool).unwrap();
    assert_eq!(pool.available(), 0);

    // Try to append more - should fail
    let result = chain.append(&[0u8; 10], &mut pool);
    assert_eq!(result, Err(ChainError::PoolExhausted));

    chain.release(&mut pool);
}

#[test]
fn test_buffer_chain_first_n_bytes() {
    let mut pool = BufferPool::new(4, 100);
    let mut chain = BufferChain::new(pool.buffer_size());

    let data = b"HEADER:value data here";
    chain.append(data, &mut pool).unwrap();

    // Can get first N bytes efficiently
    let header = chain.first_n_bytes(7, &pool).unwrap();
    assert_eq!(header, b"HEADER:");

    // Returns None if not enough data
    assert!(chain.first_n_bytes(100, &pool).is_none());

    chain.release(&mut pool);
}

#[test]
fn test_buffer_chain_clear_reuse() {
    let mut pool = BufferPool::new(4, 100);
    let mut chain = BufferChain::new(pool.buffer_size());

    chain.append(b"first request", &mut pool).unwrap();
    assert_eq!(chain.buffer_count(), 1);
    let first_buf = chain.buffer_indices()[0];

    // Clear without releasing
    chain.clear();
    assert_eq!(chain.len(), 0);
    assert_eq!(chain.buffer_count(), 1); // Buffer still allocated

    // Reuse for next request
    chain.append(b"second request", &mut pool).unwrap();
    assert_eq!(chain.buffer_indices()[0], first_buf); // Same buffer

    chain.release(&mut pool);
}

#[test]
fn test_large_value_round_trips_through_chain() {
    // A value larger than one buffer round-trips byte for byte.
    let mut pool = BufferPool::new(32, 64);
    let mut chain = BufferChain::new(pool.buffer_size());
    let data: Vec<u8> = (0..1000).map(|i| (i * 7 % 251) as u8).collect();
    chain.append(&data, &mut pool).unwrap();
    assert_eq!(chain.len(), data.len());
    assert!(chain.buffer_count() > 1);
    assert_eq!(chain.assemble(&pool), data);
    // Scatter-gather ranges cover the same bytes from any resume offset.
    let mut gathered = Vec::new();
    for (idx, start, end) in chain.io_slices(&pool, 100) {
        gathered.extend_from_slice(&pool.get(idx)[start..end]);
    }
    assert_eq!(gathered, &data[100..]);
    chain.release(&mut pool);
    assert_eq!(pool.available(), 32);
}
