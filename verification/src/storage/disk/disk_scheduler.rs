use std::sync::mpsc::Sender;

use vstd::prelude::*;

verus! {

/// The sending half of a standard channel, carried through requests as an
/// opaque value.
#[verifier::external_type_specification]
#[verifier::external_body]
#[verifier::reject_recursive_types(T)]
pub struct ExSender<T>(Sender<T>);

/// A request to the disk worker: write `data` to page `page_id`, or read the
/// page into `data`; the worker answers on `callback` with the bytes.
pub struct DiskRequest {
    is_write: bool,
    data: Vec<u8>,
    page_id: usize,
    callback: Sender<Vec<u8>>,
}

impl DiskRequest {
    /// Whether the request writes (rather than reads) the page.
    pub closed spec fn spec_is_write(&self) -> bool {
        self.is_write
    }

    /// The bytes written, or the buffer read into.
    pub closed spec fn spec_data(&self) -> Seq<u8> {
        self.data@
    }

    /// The page the request is about.
    pub closed spec fn spec_page_id(&self) -> usize {
        self.page_id
    }

    /// Where the worker sends its answer.
    pub closed spec fn spec_callback(&self) -> Sender<Vec<u8>> {
        self.callback
    }

    /// Builds a request from its parts.
    pub fn new(is_write: bool, data: Vec<u8>, page_id: usize, callback: Sender<Vec<u8>>) -> (r: Self)
        ensures
            r.spec_is_write() == is_write,
            r.spec_data() == data@,
            r.spec_page_id() == page_id,
            r.spec_callback() == callback,
    {
        Self { is_write, data, page_id, callback }
    }

    /// Takes a request apart: whether it writes, its bytes, its page, and
    /// where to answer.
    pub fn into_parts(self) -> (parts: (bool, Vec<u8>, usize, Sender<Vec<u8>>))
        ensures
            parts.0 == self.spec_is_write(),
            parts.1@ == self.spec_data(),
            parts.2 == self.spec_page_id(),
            parts.3 == self.spec_callback(),
    {
        (self.is_write, self.data, self.page_id, self.callback)
    }
}

} // verus!
