use std::sync::mpsc::channel;

use takadb::storage::disk::disk_scheduler::DiskRequest;
use takadb::storage::page::page_guard::{ReadPageGuard, WritePageGuard};

#[test]
fn request_keeps_its_parts() {
    let (send, recv) = channel::<Vec<u8>>();
    let request = DiskRequest::new(false, vec![1, 2, 3], 11, send);
    let (is_write, data, page_id, callback) = request.into_parts();
    assert!(!is_write);
    assert_eq!(data, vec![1, 2, 3]);
    assert_eq!(page_id, 11);
    callback.send(vec![4]).unwrap();
    assert_eq!(recv.recv().unwrap(), vec![4]);
}

#[test]
fn guards_are_built_invalid() {
    let read = ReadPageGuard::new(3, 1);
    assert_eq!((read.page_id, read.frame_id, read.is_valid), (3, 1, false));
    let write = WritePageGuard::new(4, 2);
    assert_eq!((write.page_id, write.frame_id, write.is_valid), (4, 2, false));
}
