use transfer_plan::buffers::{get_buffer, return_buffer, BufferPool};

#[test]
fn a_fresh_buffer_is_of_zeros() {
    let mut pool = BufferPool::new();
    assert_eq!(get_buffer(&mut pool, 4), vec![0u8; 4]);
}

#[test]
fn a_returned_buffer_comes_back_as_it_is() {
    let mut pool = BufferPool::new();
    return_buffer(&mut pool, vec![1, 2, 3]);
    assert_eq!(get_buffer(&mut pool, 3), vec![1, 2, 3]);
    assert_eq!(get_buffer(&mut pool, 3), vec![0, 0, 0]);
}

#[test]
fn a_buffer_of_another_size_is_dropped() {
    let mut pool = BufferPool::new();
    return_buffer(&mut pool, vec![1, 2, 3]);
    assert_eq!(get_buffer(&mut pool, 2), vec![0, 0]);
    assert_eq!(get_buffer(&mut pool, 3), vec![0, 0, 0]);
}

#[test]
fn a_full_pool_takes_no_more() {
    let mut pool = BufferPool::new();
    for n in 0..12u8 {
        return_buffer(&mut pool, vec![n]);
    }
    assert_eq!(get_buffer(&mut pool, 1), vec![9]);
    for n in (0..9u8).rev() {
        assert_eq!(get_buffer(&mut pool, 1), vec![n]);
    }
    assert_eq!(get_buffer(&mut pool, 1), vec![0]);
}
