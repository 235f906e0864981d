pub mod page_guard;
