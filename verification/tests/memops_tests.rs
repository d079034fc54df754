use batch_os::memops::{clear_bss, memcpy, memmove, memset};

#[test]
fn memset_fills_low_byte() {
    let mut m = vec![0u8; 8];
    assert_eq!(memset(&mut m, 2, 0x1FF, 3), 2);
    assert_eq!(m, vec![0, 0, 0xFF, 0xFF, 0xFF, 0, 0, 0]);
    assert_eq!(memset(&mut m, 0, -1, 0), 0);
    assert_eq!(m, vec![0, 0, 0xFF, 0xFF, 0xFF, 0, 0, 0]);
}

#[test]
fn memcpy_copies_disjoint_ranges() {
    let mut m = vec![1u8, 2, 3, 4, 0, 0, 0, 0];
    assert_eq!(memcpy(&mut m, 4, 0, 4), 4);
    assert_eq!(m, vec![1, 2, 3, 4, 1, 2, 3, 4]);
}

#[test]
fn memmove_forward_overlap() {
    let mut m = vec![1u8, 2, 3, 4, 5, 6];
    assert_eq!(memmove(&mut m, 0, 2, 4), 0);
    assert_eq!(m, vec![3, 4, 5, 6, 5, 6]);
}

#[test]
fn memmove_backward_overlap() {
    let mut m = vec![1u8, 2, 3, 4, 5, 6];
    assert_eq!(memmove(&mut m, 2, 0, 4), 2);
    assert_eq!(m, vec![1, 2, 1, 2, 3, 4]);
}

#[test]
fn memmove_same_place_and_empty() {
    let mut m = vec![9u8, 8, 7];
    memmove(&mut m, 1, 1, 2);
    assert_eq!(m, vec![9, 8, 7]);
    memmove(&mut m, 0, 2, 0);
    assert_eq!(m, vec![9, 8, 7]);
}

#[test]
fn clear_bss_zeroes_range() {
    let mut m = vec![5u8; 6];
    clear_bss(&mut m, 1, 4);
    assert_eq!(m, vec![5, 0, 0, 0, 5, 5]);
    clear_bss(&mut m, 3, 3);
    assert_eq!(m, vec![5, 0, 0, 0, 5, 5]);
}

#[test]
fn memcpy_forward_over_its_own_source_repeats() {
    let mut m = vec![1u8, 2, 3, 4, 5, 6];
    assert_eq!(memcpy(&mut m, 2, 0, 4), 2);
    assert_eq!(m, vec![1, 2, 1, 2, 1, 2]);
    let mut m = vec![1u8, 2, 3, 4, 5, 6];
    memcpy(&mut m, 0, 2, 4);
    assert_eq!(m, vec![3, 4, 5, 6, 5, 6]);
}
