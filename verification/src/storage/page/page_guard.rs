use std::sync::mpsc::Sender;

use vstd::prelude::*;

use crate::buffer::buffer_pool_manager::BufferPoolManager;
use crate::constants::PAGE_SIZE;
use crate::storage::disk::disk_scheduler::DiskRequest;

verus! {

/// A shared handle on a page held in a buffer frame. While valid, the frame
/// counts the guard among its pins.
pub struct ReadPageGuard {
    pub page_id: usize,
    pub frame_id: usize,
    pub is_valid: bool,
}

impl ReadPageGuard {
    /// A guard on `page_id` held in frame `frame_id`; it starts out not valid.
    pub fn new(page_id: usize, frame_id: usize) -> (guard: Self)
        ensures
            guard == (ReadPageGuard { page_id, frame_id, is_valid: false }),
    {
        Self { page_id, frame_id, is_valid: false }
    }

    /// The bytes of the guarded frame.
    pub fn get_data<'a>(&self, bpm: &'a BufferPoolManager) -> (data: &'a [u8; PAGE_SIZE])
        requires
            self.frame_id < bpm@.frames.len(),
        ensures
            *data == bpm@.frames[self.frame_id as int].data,
    {
        bpm.frame(self.frame_id).get_data()
    }

    /// The page the guarded frame holds now.
    pub fn get_page_id(&self, bpm: &BufferPoolManager) -> (page_id: usize)
        requires
            self.frame_id < bpm@.frames.len(),
        ensures
            page_id == bpm@.frames[self.frame_id as int].page_id,
    {
        bpm.frame(self.frame_id).page_id
    }

    /// Whether the guarded frame is marked dirty.
    pub fn is_dirty(&self, bpm: &BufferPoolManager) -> (dirty: bool)
        requires
            self.frame_id < bpm@.frames.len(),
        ensures
            dirty == bpm@.frames[self.frame_id as int].is_dirty,
    {
        bpm.frame(self.frame_id).is_dirty
    }

    /// A write request that stores the guarded frame's bytes as the page it
    /// holds, answering on `callback`.
    pub fn flush(&self, bpm: &BufferPoolManager, callback: Sender<Vec<u8>>) -> (request: DiskRequest)
        requires
            self.frame_id < bpm@.frames.len(),
        ensures
            request.spec_is_write(),
            request.spec_data() == bpm@.frames[self.frame_id as int].data@,
            request.spec_page_id() == bpm@.frames[self.frame_id as int].page_id,
            request.spec_callback() == callback,
    {
        let data = vstd::slice::slice_to_vec(self.get_data(bpm).as_slice());
        DiskRequest::new(true, data, self.get_page_id(bpm), callback)
    }

    /// Gives up the guard: a valid guard releases its pin on the frame (see
    /// `BufferPoolManager::unpin_frame`); the guard is no longer valid.
    pub fn drop(&mut self, bpm: &mut BufferPoolManager)
        requires
            old(bpm).wf(),
            old(self).is_valid ==> old(bpm)@.can_unpin(old(self).frame_id),
        ensures
            final(bpm).wf(),
            final(bpm)@ == if old(self).is_valid {
                old(bpm)@.after_unpin(old(self).frame_id)
            } else {
                old(bpm)@
            },
            *final(self) == (ReadPageGuard { is_valid: false, ..*old(self) }),
    {
        if self.is_valid {
            bpm.unpin_frame(self.frame_id);
        }
        self.is_valid = false;
    }
}

/// An exclusive handle on a page held in a buffer frame. While valid, the
/// frame counts the guard among its pins.
pub struct WritePageGuard {
    pub page_id: usize,
    pub frame_id: usize,
    pub is_valid: bool,
}

impl WritePageGuard {
    /// A guard on `page_id` held in frame `frame_id`; it starts out not valid.
    pub fn new(page_id: usize, frame_id: usize) -> (guard: Self)
        ensures
            guard == (WritePageGuard { page_id, frame_id, is_valid: false }),
    {
        Self { page_id, frame_id, is_valid: false }
    }

    /// The bytes of the guarded frame, for reading.
    pub fn get_data<'a>(&self, bpm: &'a BufferPoolManager) -> (data: &'a [u8; PAGE_SIZE])
        requires
            self.frame_id < bpm@.frames.len(),
        ensures
            *data == bpm@.frames[self.frame_id as int].data,
    {
        bpm.frame(self.frame_id).get_data()
    }

    /// The bytes of the guarded frame, for writing; nothing else changes.
    pub fn get_mut_data<'a>(&self, bpm: &'a mut BufferPoolManager) -> (data: &'a mut [u8; PAGE_SIZE])
        requires
            old(bpm).wf(),
            self.frame_id < old(bpm)@.frames.len(),
        ensures
            *data == old(bpm)@.frames[self.frame_id as int].data,
            final(bpm)@ == old(bpm)@.with_frame_data(self.frame_id, *final(data)),
            old(bpm)@.with_frame_data(self.frame_id, *final(data)).wf() && final(bpm).wf(),
    {
        bpm.frame_data_mut(self.frame_id)
    }

    /// The page the guarded frame holds now.
    pub fn get_page_id(&self, bpm: &BufferPoolManager) -> (page_id: usize)
        requires
            self.frame_id < bpm@.frames.len(),
        ensures
            page_id == bpm@.frames[self.frame_id as int].page_id,
    {
        bpm.frame(self.frame_id).page_id
    }

    /// Whether the guarded frame is marked dirty.
    pub fn is_dirty(&self, bpm: &BufferPoolManager) -> (dirty: bool)
        requires
            self.frame_id < bpm@.frames.len(),
        ensures
            dirty == bpm@.frames[self.frame_id as int].is_dirty,
    {
        bpm.frame(self.frame_id).is_dirty
    }

    /// A write request that stores the guarded frame's bytes as the page it
    /// holds, answering on `callback`.
    pub fn flush(&self, bpm: &BufferPoolManager, callback: Sender<Vec<u8>>) -> (request: DiskRequest)
        requires
            self.frame_id < bpm@.frames.len(),
        ensures
            request.spec_is_write(),
            request.spec_data() == bpm@.frames[self.frame_id as int].data@,
            request.spec_page_id() == bpm@.frames[self.frame_id as int].page_id,
            request.spec_callback() == callback,
    {
        let data = vstd::slice::slice_to_vec(self.get_data(bpm).as_slice());
        DiskRequest::new(true, data, self.get_page_id(bpm), callback)
    }

    /// Gives up the guard: a valid guard releases its pin on the frame (see
    /// `BufferPoolManager::unpin_frame`) and stops being valid once that was
    /// the frame's last pin.
    pub fn drop(&mut self, bpm: &mut BufferPoolManager)
        requires
            old(bpm).wf(),
            old(self).is_valid ==> old(bpm)@.can_unpin(old(self).frame_id),
        ensures
            final(bpm).wf(),
            final(bpm)@ == if old(self).is_valid {
                old(bpm)@.after_unpin(old(self).frame_id)
            } else {
                old(bpm)@
            },
            *final(self) == (WritePageGuard {
                is_valid: old(self).is_valid && old(bpm)@.frames[old(self).frame_id as int].pin_count != 1,
                ..*old(self)
            }),
    {
        if self.is_valid {
            let old_pin = bpm.unpin_frame(self.frame_id);
            if old_pin == 1 {
                self.is_valid = false;
            }
        }
    }
}

} // verus!
