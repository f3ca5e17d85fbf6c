use lib::memory::{Page, VirtualMemory};

const PAGE_SIZE: usize = 16;

#[test]
fn test_allocate_full_single_page() -> Result<(), &'static str> {
    let mut mem: VirtualMemory<PAGE_SIZE> = VirtualMemory::with_capacity(1);

    let inserted = String::from("sixteencharacter");
    let addr = mem.allocate(inserted.as_bytes());

    assert_eq!(1, mem.page_count());
    assert_eq!(0, addr);

    let page = mem.page(addr).ok_or("page not found")?;
    let Page::Header { size, next, data } = page else {
        return Err("expected header page");
    };
    assert_eq!(inserted.len(), *size);
    assert!(next.is_none());
    assert_eq!(inserted.as_bytes(), data);

    Ok(())
}

#[test]
fn test_allocate_partial_single_page() -> Result<(), &'static str> {
    let mut mem: VirtualMemory<PAGE_SIZE> = VirtualMemory::with_capacity(1);

    let inserted = String::from("partial");
    let addr = mem.allocate(inserted.as_bytes());

    assert_eq!(1, mem.page_count());
    assert_eq!(0, addr);

    let page = mem.page(addr).ok_or("page not found")?;
    let Page::Header { size, next, data } = page else {
        return Err("expected header page");
    };
    assert_eq!(inserted.len(), *size);
    assert!(next.is_none());
    assert_eq!(inserted.as_bytes(), &data[0..*size]);

    Ok(())
}

#[test]
fn test_allocate_full_single_non_start_page() -> Result<(), &'static str> {
    let mut mem: VirtualMemory<PAGE_SIZE> = VirtualMemory::with_capacity(2);

    let _ = mem.allocate("start".as_bytes());

    let inserted = String::from("sixteencharacter");
    let addr = mem.allocate(inserted.as_bytes());

    assert_eq!(2, mem.page_count());
    assert_eq!(1, addr);

    let page = mem.page(addr).ok_or("page not found")?;
    let Page::Header { size, next, data } = page else {
        return Err("expected header page");
    };
    assert_eq!(inserted.len(), *size);
    assert!(next.is_none());
    assert_eq!(inserted.as_bytes(), data);

    Ok(())
}

#[test]
fn test_allocate_full_multiple_continuous_pages() -> Result<(), &'static str> {
    let mut mem: VirtualMemory<PAGE_SIZE> = VirtualMemory::with_capacity(2);

    let first = String::from("sixteencharacter");
    let second = first.clone();
    let inserted = first.clone() + &second;
    let addr = mem.allocate((first.clone() + &second).as_bytes());

    assert_eq!(2, mem.page_count());
    assert_eq!(0, addr);

    let page = mem.page(addr).ok_or("page not found")?;
    let Page::Header { size, next, data } = page else {
        return Err("expected header page");
    };
    assert_eq!(inserted.len(), *size);
    assert_eq!(Some(1_usize), *next);
    assert_eq!(first.as_bytes(), data);

    let addr = next.ok_or("invalid next address")?;
    let page = mem.page(addr).ok_or("page not found")?;
    let Page::Body { next, data } = page else {
        return Err("expected body page");
    };
    assert!(next.is_none());
    assert_eq!(second.as_bytes(), data);

    Ok(())
}

#[test]
fn test_allocate_partial_multiple_continuous_pages() -> Result<(), &'static str> {
    let mut mem: VirtualMemory<PAGE_SIZE> = VirtualMemory::with_capacity(2);

    let first = String::from("sixteencharacter");
    let second = String::from("sixteen");
    let inserted = first.clone() + &second;
    let addr = mem.allocate(inserted.as_bytes());

    assert_eq!(2, mem.page_count());
    assert_eq!(0, addr);

    let page = mem.page(addr).ok_or("page not found")?;
    let Page::Header { size, next, data } = page else {
        return Err("expected header page");
    };
    assert_eq!(inserted.len(), *size);
    assert_eq!(Some(1_usize), *next);
    assert_eq!(first.as_bytes(), data);

    let addr = next.ok_or("invalid next address")?;
    let page = mem.page(addr).ok_or("page not found")?;
    let Page::Body { next, data } = page else {
        return Err("expected body page");
    };
    assert!(next.is_none());
    assert_eq!(second.as_bytes(), &data[0..*size - PAGE_SIZE]);

    Ok(())
}

#[test]
fn test_allocate_partial_multiple_segmented_pages() -> Result<(), &'static str> {
    let mut mem: VirtualMemory<PAGE_SIZE> = VirtualMemory::with_capacity(3);

    let start = mem.allocate("start".as_bytes());
    _ = mem.allocate("middle".as_bytes());
    mem.deallocate(start);

    let first = String::from("sixteencharacter");
    let second = String::from("sixteen");
    let inserted = first.clone() + &second;
    let addr = mem.allocate(inserted.as_bytes());

    assert_eq!(3, mem.page_count());
    assert_eq!(0, addr);

    let page = mem.page(addr).ok_or("page not found")?;
    let Page::Header { size, next, data } = page else {
        return Err("expected header page");
    };
    assert_eq!(inserted.len(), *size);
    assert_eq!(Some(2_usize), *next);
    assert_eq!(first.as_bytes(), data);

    let addr = next.ok_or("invalid next address")?;
    let page = mem.page(addr).ok_or("page not found")?;
    let Page::Body { next, data } = page else {
        return Err("expected body page");
    };
    assert!(next.is_none());
    assert_eq!(second.as_bytes(), &data[0..*size - PAGE_SIZE]);

    Ok(())
}

#[test]
fn test_deallocate_single_page() -> Result<(), &'static str> {
    let mut mem: VirtualMemory<PAGE_SIZE> = VirtualMemory::with_capacity(2);
    let addr = mem.allocate("sixteencharacter".as_bytes());

    mem.deallocate(addr);
    assert_eq!(1, mem.page_count());
    assert!(
        mem.page(addr).is_some_and(|p| p.is_empty()),
        "expected page to be empty"
    );

    Ok(())
}

#[test]
fn test_deref_single_page() {
    let mut mem: VirtualMemory<PAGE_SIZE> = VirtualMemory::with_capacity(2);

    let inserted = String::from("sixteencharacter");
    let addr = mem.allocate(inserted.as_bytes());

    let data = mem.deref(addr);
    assert_eq!(inserted.as_bytes(), data);
}

#[test]
fn test_deref_multiple_continuous_pages() {
    let mut mem: VirtualMemory<PAGE_SIZE> = VirtualMemory::with_capacity(2);

    let inserted = String::from("sixteencharactersixteencharacter");
    let addr = mem.allocate(inserted.as_bytes());

    let data = mem.deref(addr);
    assert_eq!(inserted.as_bytes(), data);
}

#[test]
fn test_deref_multiple_segmented_pages() {
    let mut mem: VirtualMemory<PAGE_SIZE> = VirtualMemory::with_capacity(2);

    let start = mem.allocate("start".as_bytes());
    _ = mem.allocate("middle".as_bytes());
    mem.deallocate(start);

    let inserted = String::from("sixteencharacter");
    let addr = mem.allocate(inserted.as_bytes());

    let data = mem.deref(addr);
    assert_eq!(inserted.as_bytes(), data);
}

#[test]
fn deref_after_reallocation_reads_new_value() {
    let mut mem: VirtualMemory<4> = VirtualMemory::new();
    let a = mem.allocate(b"abcdefghij");
    assert_eq!(3, mem.page_count());
    mem.deallocate(a);
    let b = mem.allocate(b"xyz");
    assert_eq!(0, b);
    assert_eq!(b"xyz".to_vec(), mem.deref(b));
    let c = mem.allocate(b"12345");
    assert_eq!(1, c);
    assert_eq!(b"12345".to_vec(), mem.deref(c));
}

#[test]
fn allocate_empty_value_takes_no_page() {
    let mut mem: VirtualMemory<4> = VirtualMemory::new();
    let a = mem.allocate(b"");
    assert_eq!(0, a);
    assert_eq!(0, mem.page_count());
}

#[test]
fn deref_unaffected_by_other_allocations_and_deallocations() {
    let mut mem: VirtualMemory<4> = VirtualMemory::new();
    let a = mem.allocate(b"first value");
    let b = mem.allocate(b"second");
    let c = mem.allocate(b"third one here");
    assert_eq!(b"first value".to_vec(), mem.deref(a));
    mem.deallocate(b);
    assert_eq!(b"first value".to_vec(), mem.deref(a));
    assert_eq!(b"third one here".to_vec(), mem.deref(c));
    let d = mem.allocate(b"fourth");
    assert_eq!(b"fourth".to_vec(), mem.deref(d));
    assert_eq!(b"first value".to_vec(), mem.deref(a));
    assert_eq!(b"third one here".to_vec(), mem.deref(c));
}
