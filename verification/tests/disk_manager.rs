use takadb::constants::{NUM_NEW_PAGES, PAGE_SIZE};
use takadb::storage::disk::disk_manager::{Allocation, DiskManager};

#[test]
fn test_new() {
    let dm = DiskManager::new(0);
    assert_eq!(dm.num_flushes(), 0, "There should be 0 num_flushes when initialized.");
    assert_eq!(dm.num_writes(), 0);
    assert_eq!(dm.num_deletes(), 0);
    assert_eq!(dm.page_count(), 0);
    assert_eq!(dm.file_size(), 0);
}

#[test]
fn test_allocate() {
    let mut dm = DiskManager::new(0);
    assert_eq!(dm.allocate_page(), Allocation::Grow(NUM_NEW_PAGES * PAGE_SIZE));
    let offset = dm.complete_growth();
    assert_eq!(offset, 0, "Offset is 0 as this is the first page on disk");
    assert_eq!(dm.file_size(), NUM_NEW_PAGES * PAGE_SIZE);
    // the remaining new slots are handed out from the end
    assert_eq!(dm.allocate_page(), Allocation::Slot((NUM_NEW_PAGES - 1) * PAGE_SIZE));
    assert_eq!(dm.allocate_page(), Allocation::Slot((NUM_NEW_PAGES - 2) * PAGE_SIZE));
}

#[test]
fn growth_starts_at_existing_file_end() {
    let mut dm = DiskManager::new(100);
    assert_eq!(dm.allocate_page(), Allocation::Grow(100 + NUM_NEW_PAGES * PAGE_SIZE));
    assert_eq!(dm.complete_growth(), 100);
    assert_eq!(dm.allocate_page(), Allocation::Slot(100 + (NUM_NEW_PAGES - 1) * PAGE_SIZE));
}

#[test]
fn get_offset_assigns_and_remembers() {
    let mut dm = DiskManager::new(0);
    assert_eq!(dm.get_offset(1), Allocation::Grow(NUM_NEW_PAGES * PAGE_SIZE));
    assert!(!dm.contains_page(1));
    assert_eq!(dm.complete_growth_for_page(1), 0);
    assert!(dm.contains_page(1));
    assert_eq!(dm.page_count(), 1);
    assert_eq!(dm.get_offset(1), Allocation::Slot(0));
    let second = dm.get_offset(2);
    assert_eq!(second, Allocation::Slot((NUM_NEW_PAGES - 1) * PAGE_SIZE));
    assert_eq!(dm.page_count(), 2);
    assert_eq!(dm.get_offset(2), second);
    assert_eq!(dm.get_offset(1), Allocation::Slot(0));
}

#[test]
fn every_page_gets_its_own_slot() {
    let mut dm = DiskManager::new(0);
    let mut offsets: Vec<usize> = Vec::new();
    for page in 0..(2 * NUM_NEW_PAGES + 3) {
        assert!(dm.can_place(page));
        let offset = match dm.get_offset(page) {
            Allocation::Slot(o) => o,
            Allocation::Grow(_) => dm.complete_growth_for_page(page),
        };
        assert!(offset + PAGE_SIZE <= dm.file_size());
        for other in &offsets {
            assert!(offset + PAGE_SIZE <= *other || *other + PAGE_SIZE <= offset);
        }
        offsets.push(offset);
    }
    assert_eq!(dm.file_size(), 3 * NUM_NEW_PAGES * PAGE_SIZE);
    assert_eq!(dm.page_count(), 2 * NUM_NEW_PAGES + 3);
}

#[test]
fn write_size_check() {
    assert!(DiskManager::write_fits(PAGE_SIZE));
    assert!(DiskManager::write_fits(0));
    assert!(!DiskManager::write_fits(PAGE_SIZE + 1));
}

#[test]
fn counters_count() {
    let mut dm = DiskManager::new(0);
    dm.record_write();
    dm.record_flush();
    dm.record_write();
    assert_eq!(dm.num_writes(), 2);
    assert_eq!(dm.num_flushes(), 1);
}

#[test]
fn zero_fill_clears_buffer() {
    let mut buffer = vec![1u8; PAGE_SIZE];
    DiskManager::zero_fill(&mut buffer);
    assert!(buffer.iter().all(|&b| b == 0));
    assert_eq!(buffer.len(), PAGE_SIZE);
}

#[test]
fn allocate_page_never_repeats_and_stays_aligned() {
    let mut dm = DiskManager::new(2 * PAGE_SIZE);
    let mut handed_out: Vec<usize> = Vec::new();
    for _ in 0..(2 * NUM_NEW_PAGES + 1) {
        assert!(dm.can_allocate());
        let offset = match dm.allocate_page() {
            Allocation::Slot(o) => o,
            Allocation::Grow(_) => dm.complete_growth(),
        };
        assert_eq!(offset % PAGE_SIZE, 0);
        assert!(offset + PAGE_SIZE <= dm.file_size());
        assert!(!handed_out.contains(&offset));
        handed_out.push(offset);
    }
    assert_eq!(dm.file_size() % PAGE_SIZE, 0);
}
