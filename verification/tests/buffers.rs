use falling_sand::swap_buf;
use falling_sand::swap_buffer::SwapBuffer;

#[test]
fn swap_exchanges_read_and_write() {
    let mut b = SwapBuffer::from_arr(vec![1u32, 2, 3], 3);
    b.w = vec![4, 5, 6];
    b.swap();
    assert_eq!(b.r, vec![4, 5, 6]);
    assert_eq!(b.w, vec![1, 2, 3]);
}

#[test]
fn swap_is_its_own_inverse() {
    let mut b = SwapBuffer::from_arr(vec![10u32, 20], 2);
    b.w = vec![30, 40];
    let r0 = b.r.clone();
    let w0 = b.w.clone();
    b.swap();
    b.swap();
    assert_eq!(b.r, r0);
    assert_eq!(b.w, w0);
}

#[test]
fn swap_preserves_contents() {
    let mut b = SwapBuffer::from_arr(vec![7u32, 8, 9], 3);
    b.w = vec![1, 2, 3];
    let mut before: Vec<u32> = b.r.iter().chain(b.w.iter()).copied().collect();
    b.swap();
    let mut after: Vec<u32> = b.r.iter().chain(b.w.iter()).copied().collect();
    before.sort();
    after.sort();
    assert_eq!(before, after);
}

#[test]
fn from_arr_clones_into_both_buffers() {
    let b = SwapBuffer::from_arr(vec![5u8, 6], 2);
    assert_eq!(b.r, vec![5, 6]);
    assert_eq!(b.w, vec![5, 6]);
    assert_eq!(b.width, 2);
}

#[test]
fn swap_cells_touches_only_the_read_buffer() {
    let mut b = SwapBuffer::from_arr(vec![1u32, 2, 3], 3);
    b.swap_cells(0, 2);
    assert_eq!(b.r, vec![3, 2, 1]);
    assert_eq!(b.w, vec![1, 2, 3]);
}

#[test]
fn swap_cells_w_touches_only_the_write_buffer() {
    let mut b = SwapBuffer::from_arr(vec![1u32, 2, 3], 3);
    b.swap_cells_w(1, 2);
    assert_eq!(b.r, vec![1, 2, 3]);
    assert_eq!(b.w, vec![1, 3, 2]);
}

#[test]
fn plain_swap_buffer_new_and_swap() {
    let mut b: swap_buf::SwapBuffer<u8> = swap_buf::SwapBuffer::new(4);
    assert_eq!(b.read.len(), 4);
    assert_eq!(b.write.len(), 4);
    b.write = vec![9, 9, 9, 9];
    b.swap();
    assert_eq!(b.read, vec![9, 9, 9, 9]);
    assert_eq!(b.write, vec![0, 0, 0, 0]);
}
