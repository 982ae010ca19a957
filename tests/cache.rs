use std::sync::mpsc::channel;
use soupdb::cache::{LockType, PageLock, PageTable, WorkingMemory};
use soupdb::page::PAGE_SIZE;

fn check_page_index(cache: &mut PageTable, id: u64, expected_index: u64) -> Option<PageLock> {
    cache.tick();
    let result = cache.page_index(id, LockType::Read);
    match &result {
        Some(lock) => assert_eq!(expected_index, lock.index()),
        None => panic!("expected page index for page {} not found", id),
    }
    result
}

fn check_memory_index(cache: &mut WorkingMemory, id: u64, expected_index: u64) -> Option<PageLock> {
    let result = cache.page_index(id);
    match &result {
        Some(lock) => assert_eq!(expected_index, lock.index()),
        None => panic!("expected page index for page {} not found", id),
    }
    result
}

#[test]
fn cache_test_page_cache() {
    let mut cache = PageTable::new(PAGE_SIZE * 3);

    // adding a page to working memory: cache now contains that page
    assert!(!cache.contains_page(&0));
    check_page_index(&mut cache, 0, 0);
    assert!(cache.contains_page(&0));
    check_page_index(&mut cache, 0, 0);

    // adding another page takes up the next slot, and doesn't evict the
    // previously added page
    assert!(!cache.contains_page(&2));
    check_page_index(&mut cache, 2, 1);
    assert!(cache.contains_page(&0));
    assert!(cache.contains_page(&2));
    check_page_index(&mut cache, 2, 1);
    check_page_index(&mut cache, 0, 0);
    assert!(cache.contains_page(&0));
    assert!(cache.contains_page(&2));

    // adding one more page results in all three pages loaded
    check_page_index(&mut cache, 1, 2);
    check_page_index(&mut cache, 1, 2);
    assert!(cache.contains_page(&0));
    assert!(cache.contains_page(&1));
    assert!(cache.contains_page(&2));

    // adding a new page ejects the first page loaded and overwrites it
    check_page_index(&mut cache, 3, 0);
    assert!(cache.contains_page(&1));
    assert!(cache.contains_page(&2));
    assert!(cache.contains_page(&3));
    assert!(!cache.contains_page(&0));
}

#[test]
fn test_page_lock() {
    let mut cache = PageTable::new(PAGE_SIZE * 3);
    {
        // page 5 is added and its lock held...
        let _lock = check_page_index(&mut cache, 5, 0).unwrap();
        assert!(cache.contains_page(&5));
        // ...so it can't be overwritten, however many other pages are cached
        check_page_index(&mut cache, 6, 1);
        check_page_index(&mut cache, 7, 2);
        check_page_index(&mut cache, 8, 1);
        check_page_index(&mut cache, 9, 2);
        check_page_index(&mut cache, 10, 1);
        assert!(cache.contains_page(&5));
    }
    // after the drop page 5 enters the LRU, still cached
    assert!(cache.contains_page(&5));
    check_page_index(&mut cache, 7, 2);
    check_page_index(&mut cache, 8, 1);
    // contains_page also makes page 5 the most recently used
    assert!(cache.contains_page(&5));
    check_page_index(&mut cache, 4, 2);
    check_page_index(&mut cache, 6, 1);
    assert!(cache.contains_page(&5));
    check_page_index(&mut cache, 7, 2);
    check_page_index(&mut cache, 8, 1);
    // finally evicted here
    check_page_index(&mut cache, 6, 0);
    assert!(!cache.contains_page(&5));
}

#[test]
fn test_lru_page_lock() {
    let mut cache = WorkingMemory::new(PAGE_SIZE * 3);
    {
        let _lock = check_memory_index(&mut cache, 5, 0).unwrap();
        assert!(cache.contains_page(&5));
        check_memory_index(&mut cache, 6, 1);
        check_memory_index(&mut cache, 7, 2);
        check_memory_index(&mut cache, 8, 1);
        assert!(cache.contains_page(&5));
    }
    assert!(cache.contains_page(&5));
    check_memory_index(&mut cache, 7, 2);
    check_memory_index(&mut cache, 8, 1);
    check_memory_index(&mut cache, 6, 0);
    assert!(!cache.contains_page(&5));
}

#[test]
fn test_get_page() {
    let mut working_memory = WorkingMemory::new(PAGE_SIZE * 3);

    // the result buffer holds what the reader wrote
    {
        let reader = |buf: &mut [u8]| buf[0] = 5;
        let (_lock, buf) = working_memory.get_page(0, reader).unwrap().unwrap();
        assert_eq!(buf[0], 5);
        assert_eq!(buf[1], 0);
    }
    {
        let reader = |buf: &mut [u8]| buf[0] = 8;
        let (_lock, buf) = working_memory.get_page(1, reader).unwrap().unwrap();
        assert_eq!(buf[0], 8);
        assert_eq!(buf[1], 0);
    }

    // these readers are not used because the pages are still cached
    {
        let reader = |_buf: &mut [u8]| panic!("reading when page should be cached");
        let (_lock, buf) = working_memory.get_page(0, reader).unwrap().unwrap();
        assert_eq!(buf[0], 5);
        assert_eq!(buf[1], 0);
    }
    {
        let reader = |_buf: &mut [u8]| panic!("reading when page should be cached");
        let (_lock, buf) = working_memory.get_page(1, reader).unwrap().unwrap();
        assert_eq!(buf[0], 8);
        assert_eq!(buf[1], 0);
    }
}

#[test]
fn get_page_when_all_slots_are_pinned() {
    let mut memory = WorkingMemory::new(PAGE_SIZE * 2);
    let first = memory.get_page(1, |buf: &mut [u8]| buf[0] = 1).unwrap().map(|(lock, _)| lock);
    let second = memory.get_page(2, |buf: &mut [u8]| buf[0] = 2).unwrap().map(|(lock, _)| lock);
    assert!(first.is_some() && second.is_some());
    assert_eq!(PAGE_SIZE as usize, memory.get_page(1, |_: &mut [u8]| {}).unwrap().unwrap().1.len());
    // both slots locked: a third page cannot be loaded
    assert!(memory.get_page(3, |_: &mut [u8]| panic!("no slot to fill")).unwrap().is_none());
    drop(first);
    // the release frees page 1's slot for eviction
    let (lock, buf) = memory.get_page(3, |buf: &mut [u8]| buf[0] = 3).unwrap().unwrap();
    assert_eq!(3, buf[0]);
    assert_eq!(0, lock.index());
    assert_eq!(3, lock.page_id());
    assert_eq!(LockType::Read, lock.lock_type());
    drop(lock);
    assert!(!memory.contains_page(&1));
    assert!(memory.contains_page(&2));
    assert!(memory.contains_page(&3));
}

#[test]
fn test_get_lock() {
    let mut cache = PageTable::new(PAGE_SIZE * 3);
    let (mut sender, receiver) = channel();
    let (mut sender2, receiver2) = channel();
    let (mut sender3, receiver3) = channel();

    {
        cache.request_lock(&0, &LockType::Read, &mut sender);
        let result = receiver.try_recv();
        assert!(result.is_ok());
    }

    {
        cache.request_lock(&0, &LockType::Read, &mut sender);
        let page0_1 = receiver.try_recv();
        assert!(page0_1.is_ok());

        cache.request_lock(&0, &LockType::Read, &mut sender);
        let page0_2 = receiver.try_recv();
        assert!(page0_2.is_ok());

        cache.request_lock(&1, &LockType::Read, &mut sender);
        let page1_1 = receiver.try_recv();
        assert!(page1_1.is_ok());

        cache.request_lock(&2, &LockType::Read, &mut sender);
        let page2_1 = receiver.try_recv();
        assert!(page2_1.is_ok());

        // too many cached pages; can't get this one immediately
        cache.request_lock(&3, &LockType::Read, &mut sender2);
        let r = receiver2.try_recv();
        assert!(r.is_err());

        // this one is still cached so we can get additional read locks
        cache.request_lock(&0, &LockType::Read, &mut sender);
        let page0_3 = receiver.try_recv();
        assert!(page0_3.is_ok());

        // can't get a write lock while there are active read locks
        cache.request_lock(&0, &LockType::Write, &mut sender);
        let result = receiver.try_recv();
        assert!(result.is_err());

        // after the drops the write lock is granted
        std::mem::drop(page0_1);
        std::mem::drop(page0_2);
        std::mem::drop(page0_3);
        // all references to another page are dropped too, since the page 3
        // request is still pending
        std::mem::drop(page1_1);

        // first writer succeeds; a second concurrent writer waits
        cache.request_lock(&0, &LockType::Write, &mut sender3);
        assert_eq!(cache.active_readers(&0), 0);
        assert_eq!(cache.active_writers(&0), 1);
        let result = receiver3.try_recv();
        assert!(result.is_err());
        let page0_w1 = receiver.try_recv();
        assert!(page0_w1.is_ok());

        // no concurrent read lock either
        cache.request_lock(&0, &LockType::Read, &mut sender);
        let page0_4 = receiver.try_recv();
        assert!(page0_4.is_err());
        drop(page2_1);
    }
}

#[test]
fn queued_requests_are_granted_in_order() {
    let mut cache = PageTable::new(PAGE_SIZE * 2);
    let (mut readers, reader_rx) = channel();
    let (mut writer, writer_rx) = channel();
    let (mut late, late_rx) = channel();

    cache.request_lock(&7, &LockType::Read, &mut readers);
    let r1 = reader_rx.try_recv().unwrap();
    // a write behind an active reader waits
    cache.request_lock(&7, &LockType::Write, &mut writer);
    assert!(writer_rx.try_recv().is_err());
    // a read arriving while the write waits queues behind it
    cache.request_lock(&7, &LockType::Read, &mut late);
    assert!(late_rx.try_recv().is_err());
    assert_eq!(1, cache.active_readers(&7));

    drop(r1);
    cache.tick();
    let w = writer_rx.try_recv().unwrap();
    assert_eq!(LockType::Write, w.lock_type());
    assert_eq!(7, w.page_id());
    assert!(late_rx.try_recv().is_err());
    assert_eq!(1, cache.active_writers(&7));

    drop(w);
    cache.tick();
    let r2 = late_rx.try_recv().unwrap();
    assert_eq!(LockType::Read, r2.lock_type());
    assert_eq!(1, cache.active_readers(&7));
    assert_eq!(0, cache.active_writers(&7));
}

#[test]
fn page_index_refuses_conflicting_locks() {
    let mut cache = PageTable::new(PAGE_SIZE);
    let w = cache.page_index(4, LockType::Write).unwrap();
    assert!(cache.page_index(4, LockType::Read).is_none());
    assert!(cache.page_index(5, LockType::Read).is_none());
    drop(w);
    cache.tick();
    let r = cache.page_index(4, LockType::Read).unwrap();
    assert_eq!(0, r.index());
    assert!(cache.page_index(4, LockType::Write).is_none());
    drop(r);
    // no slots at all
    let mut empty = PageTable::new(PAGE_SIZE - 1);
    assert!(empty.page_index(1, LockType::Read).is_none());
    assert!(!empty.contains_page(&1));
}

#[test]
fn read_waits_behind_a_queued_write() {
    let mut cache = PageTable::new(PAGE_SIZE * 2);
    let (mut readers, reader_rx) = channel();
    let (mut writer, writer_rx) = channel();
    cache.request_lock(&3, &LockType::Read, &mut readers);
    let r = reader_rx.try_recv().unwrap();
    cache.request_lock(&3, &LockType::Write, &mut writer);
    assert!(writer_rx.try_recv().is_err());
    // a write waits at the head of page 3's queue: no read jumps it
    assert!(cache.page_index(3, LockType::Read).is_none());
    // other pages are unaffected
    let other = cache.page_index(4, LockType::Read).unwrap();
    assert_eq!(1, other.index());
    drop(r);
    cache.tick();
    assert!(writer_rx.try_recv().is_ok());
}

#[test]
fn apply_releases_handles_notices_in_order() {
    let mut cache = PageTable::new(PAGE_SIZE * 2);
    let a = cache.page_index(1, LockType::Read).unwrap();
    let b = cache.page_index(1, LockType::Read).unwrap();
    assert_eq!(2, cache.active_readers(&1));
    // a notice for a page holding no lock is ignored
    cache.apply_releases(&vec![1, 9], LockType::Read);
    assert_eq!(1, cache.active_readers(&1));
    assert_eq!(0, cache.active_readers(&9));
    std::mem::forget(a);
    std::mem::forget(b);
}
