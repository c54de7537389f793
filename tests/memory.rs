use universal_machine::segmented_memory::{MemoryError, SegmentedMemory};

#[test]
fn new_memory_holds_program() {
    let mem = SegmentedMemory::new(&vec![1, 2, 3]);
    assert_eq!(mem.fetch_instruction(0), Ok(1));
    assert_eq!(mem.fetch_instruction(2), Ok(3));
    assert_eq!(mem.fetch_instruction(3), Err(MemoryError::OutOfRange));
    assert_eq!(mem.read_word(0, 1), Ok(2));
    assert_eq!(mem.read_word(1, 0), Err(MemoryError::UnknownSegment));
}

#[test]
fn ids_are_issued_in_order_and_recycled_lifo() {
    let mut mem = SegmentedMemory::new(&vec![]);
    assert_eq!(mem.map_new_segment(1), 1);
    assert_eq!(mem.map_new_segment(1), 2);
    assert_eq!(mem.map_new_segment(1), 3);
    assert_eq!(mem.unmap_segment(1), Ok(()));
    assert_eq!(mem.unmap_segment(3), Ok(()));
    assert_eq!(mem.map_new_segment(1), 3);
    assert_eq!(mem.map_new_segment(1), 1);
    assert_eq!(mem.map_new_segment(1), 4);
}

#[test]
fn live_and_recycled_stay_apart() {
    let mut mem = SegmentedMemory::new(&vec![]);
    assert_eq!(mem.map_new_segment(2), 1);
    assert_eq!(mem.map_new_segment(2), 2);
    assert_eq!(mem.unmap_segment(2), Ok(()));
    // a recycled id is not live
    assert_eq!(mem.read_word(2, 0), Err(MemoryError::UnknownSegment));
    assert_eq!(mem.unmap_segment(2), Err(MemoryError::UnknownSegment));
    // a live id is not handed out again
    assert_eq!(mem.map_new_segment(2), 2);
    assert_eq!(mem.map_new_segment(2), 3);
    assert_eq!(mem.read_word(1, 1), Ok(0));
}

#[test]
fn read_after_write() {
    let mut mem = SegmentedMemory::new(&vec![0]);
    let id = mem.map_new_segment(5);
    assert_eq!(mem.write_word(id, 4, 0xDEAD_BEEF), Ok(()));
    assert_eq!(mem.read_word(id, 4), Ok(0xDEAD_BEEF));
    assert_eq!(mem.read_word(id, 3), Ok(0));
    assert_eq!(mem.write_word(0, 0, 7), Ok(()));
    assert_eq!(mem.fetch_instruction(0), Ok(7));
}

#[test]
fn write_errors() {
    let mut mem = SegmentedMemory::new(&vec![0]);
    let id = mem.map_new_segment(2);
    assert_eq!(mem.write_word(id, 2, 1), Err(MemoryError::OutOfRange));
    assert_eq!(mem.write_word(id + 1, 0, 1), Err(MemoryError::UnknownSegment));
    assert_eq!(mem.read_word(id, 0), Ok(0));
}

#[test]
fn free_then_allocate_gives_zeroed_segment() {
    let mut mem = SegmentedMemory::new(&vec![0]);
    let id = mem.map_new_segment(3);
    assert_eq!(mem.write_word(id, 0, 11), Ok(()));
    assert_eq!(mem.write_word(id, 2, 22), Ok(()));
    assert_eq!(mem.unmap_segment(id), Ok(()));
    assert_eq!(mem.map_new_segment(4), id);
    for k in 0..4 {
        assert_eq!(mem.read_word(id, k), Ok(0));
    }
    assert_eq!(mem.read_word(id, 4), Err(MemoryError::OutOfRange));
}

#[test]
fn zero_length_segment() {
    let mut mem = SegmentedMemory::new(&vec![0]);
    let id = mem.map_new_segment(0);
    assert_eq!(mem.read_word(id, 0), Err(MemoryError::OutOfRange));
}

#[test]
fn segment_zero_cannot_be_freed() {
    let mut mem = SegmentedMemory::new(&vec![0]);
    assert_eq!(mem.unmap_segment(0), Err(MemoryError::UnknownSegment));
    assert_eq!(mem.fetch_instruction(0), Ok(0));
}

#[test]
fn load_program_copies_and_detaches() {
    let mut mem = SegmentedMemory::new(&vec![9]);
    let id = mem.map_new_segment(2);
    assert_eq!(mem.write_word(id, 0, 5), Ok(()));
    assert_eq!(mem.write_word(id, 1, 6), Ok(()));
    assert_eq!(mem.load_segment_zero(id), Ok(()));
    assert_eq!(mem.fetch_instruction(0), Ok(5));
    assert_eq!(mem.fetch_instruction(1), Ok(6));
    assert_eq!(mem.write_word(id, 0, 100), Ok(()));
    assert_eq!(mem.fetch_instruction(0), Ok(5));
    assert_eq!(mem.read_word(id, 0), Ok(100));
}

#[test]
fn load_program_from_zero_is_no_op() {
    let mut mem = SegmentedMemory::new(&vec![1, 2]);
    assert_eq!(mem.load_segment_zero(0), Ok(()));
    assert_eq!(mem.fetch_instruction(1), Ok(2));
    assert_eq!(mem.load_segment_zero(7), Err(MemoryError::UnknownSegment));
    assert_eq!(mem.fetch_instruction(0), Ok(1));
}

#[test]
fn can_allocate_on_fresh_memory() {
    let mem = SegmentedMemory::new(&vec![]);
    assert!(mem.can_allocate());
}
