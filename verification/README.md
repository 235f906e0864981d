# takadb

The core of a small database storage engine, written in Verus and verified.

- `src/buffer/lru_k_replacer.rs` — an LRU-K page replacer over a map of frame
  entries; its abstract state is `ReplacerView`, and eviction is specified as
  choosing a frame that no evictable frame ranks before.
- `src/buffer/buffer_pool_manager.rs` — frames, page table, free list and
  replacer; fetching a page is specified against `BpmView`, whose invariant
  ties the page table, the free list and the replacer together.
- `src/storage/disk/disk_manager.rs` — the bookkeeping of the paged database
  file: which slot each page occupies, the free slots, growth of the file.
- `src/storage/disk/disk_scheduler.rs` — disk requests.
- `src/storage/page/page_guard.rs` — read and write guards on buffered pages.
- `src/util.rs` — fixed-width string packing.

`app/` holds what Verus does not check: the database file, the disk worker
thread and its channels, and a buffer pool that loads misses through them.
