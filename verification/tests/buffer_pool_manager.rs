use std::sync::mpsc::channel;

use takadb::buffer::buffer_pool_manager::{BufferPoolManager, FrameHeader, INVALID_PAGE_ID};
use takadb::constants::PAGE_SIZE;

#[test]
fn frame_header_starts_empty() {
    let frame = FrameHeader::new(3);
    assert_eq!(frame.frame_id, 3);
    assert_eq!(frame.page_id, INVALID_PAGE_ID);
    assert_eq!(frame.pin_count, 0);
    assert!(!frame.is_dirty);
    assert!(frame.get_data().iter().all(|&b| b == 0));
}

#[test]
fn frame_header_reset_clears_state() {
    let mut frame = FrameHeader::new(1);
    frame.page_id = 9;
    frame.pin_count = 4;
    frame.is_dirty = true;
    frame.get_mut_data()[0] = 42;
    assert_eq!(frame.get_data()[0], 42);
    frame.reset();
    assert_eq!(frame.page_id, 9);
    assert_eq!(frame.frame_id, 1);
    assert_eq!(frame.pin_count, 0);
    assert!(!frame.is_dirty);
    assert_eq!(frame.get_data()[0], 0);
}

#[test]
fn new_pool_hands_out_page_numbers() {
    let mut bpm = BufferPoolManager::new(3);
    assert_eq!(bpm.new_page(), 0);
    assert_eq!(bpm.new_page(), 1);
    assert_eq!(bpm.new_page(), 2);
    assert_eq!(bpm.get_pin_count(0), None);
    assert_eq!(bpm.size(), 3);
}

#[test]
fn miss_takes_last_free_frame_then_hits() {
    let mut bpm = BufferPoolManager::new(3);
    assert!(bpm.can_fetch(10));
    let (guard, load) = bpm.checked_read_page(10).unwrap();
    assert_eq!(guard.page_id, 10);
    assert_eq!(guard.frame_id, 2);
    assert!(!guard.is_valid);
    assert!(load);
    assert!(bpm.is_resident(10));
    assert_eq!(bpm.get_pin_count(10), Some(1));
    assert_eq!(guard.get_page_id(&bpm), 10);
    assert!(!guard.is_dirty(&bpm));

    let mut page = vec![0u8; PAGE_SIZE];
    page[0..4].copy_from_slice(b"test");
    bpm.fill_frame(guard.frame_id, &page);
    assert_eq!(&guard.get_data(&bpm)[0..4], b"test");

    let (again, load_again) = bpm.checked_read_page(10).unwrap();
    assert_eq!(again.frame_id, 2);
    assert!(!load_again);
    assert_eq!(bpm.get_pin_count(10), Some(2));
    assert_eq!(&again.get_data(&bpm)[0..4], b"test");
}

#[test]
fn full_pool_without_evictable_frames_refuses() {
    let mut bpm = BufferPoolManager::new(2);
    let (a, _) = bpm.checked_read_page(1).unwrap();
    let (b, _) = bpm.checked_write_page(2).unwrap();
    assert_eq!(a.frame_id, 1);
    assert_eq!(b.frame_id, 0);
    assert!(bpm.checked_read_page(3).is_none());
    assert!(!bpm.is_resident(3));
    assert_eq!(bpm.get_pin_count(1), Some(1));
    assert_eq!(bpm.get_pin_count(2), Some(1));
}

#[test]
fn guards_start_invalid_so_drop_keeps_pins() {
    let mut bpm = BufferPoolManager::new(1);
    let (mut guard, _) = bpm.checked_read_page(5).unwrap();
    guard.drop(&mut bpm);
    assert_eq!(bpm.get_pin_count(5), Some(1));
    assert!(!guard.is_valid);
}

#[test]
fn last_unpin_makes_frame_evictable_and_reusable() {
    let mut bpm = BufferPoolManager::new(1);
    let (mut guard, _) = bpm.checked_write_page(5).unwrap();
    guard.is_valid = true;
    guard.get_mut_data(&mut bpm)[0] = 7;
    guard.drop(&mut bpm);
    assert!(!guard.is_valid);
    assert_eq!(bpm.get_pin_count(5), Some(0));

    let (other, load) = bpm.checked_read_page(6).unwrap();
    assert!(load);
    assert_eq!(other.frame_id, 0);
    assert!(!bpm.is_resident(5));
    assert!(bpm.is_resident(6));
    assert_eq!(bpm.get_pin_count(6), Some(1));
    // the evicted frame keeps its bytes until new ones are filled in
    assert_eq!(other.get_data(&bpm)[0], 7);
}

#[test]
fn write_guard_stays_valid_while_other_pins_remain() {
    let mut bpm = BufferPoolManager::new(2);
    let (mut first, _) = bpm.checked_write_page(8).unwrap();
    let (_second, _) = bpm.checked_read_page(8).unwrap();
    assert_eq!(bpm.get_pin_count(8), Some(2));
    first.is_valid = true;
    first.drop(&mut bpm);
    assert!(first.is_valid);
    assert_eq!(bpm.get_pin_count(8), Some(1));
}

#[test]
fn read_guard_drop_always_invalidates() {
    let mut bpm = BufferPoolManager::new(2);
    let (mut first, _) = bpm.checked_read_page(8).unwrap();
    let (_second, _) = bpm.checked_read_page(8).unwrap();
    first.is_valid = true;
    first.drop(&mut bpm);
    assert!(!first.is_valid);
    assert_eq!(bpm.get_pin_count(8), Some(1));
}

#[test]
fn flush_builds_a_write_request() {
    let mut bpm = BufferPoolManager::new(1);
    let (guard, _) = bpm.checked_write_page(4).unwrap();
    guard.get_mut_data(&mut bpm)[1] = 9;
    let (send, recv) = channel::<Vec<u8>>();
    let request = guard.flush(&bpm, send);
    let (is_write, data, page_id, callback) = request.into_parts();
    assert!(is_write);
    assert_eq!(page_id, 4);
    assert_eq!(data.len(), PAGE_SIZE);
    assert_eq!(data[1], 9);
    callback.send(data).unwrap();
    assert_eq!(recv.recv().unwrap()[1], 9);
}

#[test]
fn can_fetch_refuses_frames_beyond_replacer_range() {
    // the replacer covers NUM_NEW_PAGES frame ids; a larger pool's last free
    // frame lies outside it
    let bpm = BufferPoolManager::new(20);
    assert!(!bpm.can_fetch(1));
    let small = BufferPoolManager::new(16);
    assert!(small.can_fetch(1));
}

#[test]
fn pinned_page_survives_other_fetches() {
    let mut bpm = BufferPoolManager::new(2);
    let (pinned, _) = bpm.checked_write_page(1).unwrap();
    pinned.get_mut_data(&mut bpm)[0] = 11;
    let (mut released, _) = bpm.checked_read_page(2).unwrap();
    released.is_valid = true;
    released.drop(&mut bpm);

    let (third, load) = bpm.checked_read_page(3).unwrap();
    assert!(load);
    assert_eq!(third.frame_id, released.frame_id);
    assert!(!bpm.is_resident(2));
    assert!(bpm.is_resident(1));
    assert_eq!(pinned.get_page_id(&bpm), 1);
    assert_eq!(pinned.get_data(&bpm)[0], 11);
    // nothing is evictable any more
    assert!(bpm.checked_read_page(4).is_none());
}

#[test]
fn page_table_maps_each_page_to_its_own_frame() {
    let mut bpm = BufferPoolManager::new(3);
    let (a, _) = bpm.checked_read_page(100).unwrap();
    let (b, _) = bpm.checked_read_page(200).unwrap();
    let (c, _) = bpm.checked_read_page(300).unwrap();
    assert_ne!(a.frame_id, b.frame_id);
    assert_ne!(b.frame_id, c.frame_id);
    assert_ne!(a.frame_id, c.frame_id);
    assert_eq!(bpm.frame(a.frame_id).page_id, 100);
    assert_eq!(bpm.frame(b.frame_id).page_id, 200);
    assert_eq!(bpm.frame(c.frame_id).page_id, 300);
}

#[test]
fn page_numbers_come_in_sequence() {
    let mut bpm = BufferPoolManager::new(2);
    for expected in 0..10 {
        assert_eq!(bpm.new_page(), expected);
    }
    assert_eq!(bpm.num_frames(), 2);
    assert_eq!(bpm.get_pin_count(3), None);
}
