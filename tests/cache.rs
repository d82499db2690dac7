use gradients::{shallow_copy, Buffer, CacheError, Device, ElemType, HostBackend, Layout, Ownership, PassToken};

fn device(id: u64) -> Device<HostBackend> {
    Device::new(id, HostBackend::new(1 << 20))
}

fn allocations(d: &Device<HostBackend>) -> u64 {
    d.backend().allocation_count()
}

fn pass(d: &mut Device<HostBackend>, sizes: &[usize]) -> Vec<Buffer> {
    sizes.iter().map(|&n| d.get_or_alloc(n, ElemType::U8).unwrap()).collect()
}

#[test]
fn full_reuse_replay() {
    let mut d = device(0);
    let sizes = [7, 300, 1, 64, 64, 9];
    let first = pass(&mut d, &sizes);
    assert_eq!(allocations(&d), 6);
    d.reset();
    let second = pass(&mut d, &sizes);
    assert_eq!(allocations(&d), 6);
    assert_eq!(first, second);
    assert_eq!(d.counter(), 6);
    assert_eq!(d.slot_count(), 6);
}

#[test]
fn full_reuse_replay_with_pass_token() {
    let mut d = device(4);
    let token = d.begin_pass();
    let first = pass(&mut d, &[16, 32]);
    d.end_pass(token).unwrap();
    let second = pass(&mut d, &[16, 32]);
    assert_eq!(first, second);
    assert_eq!(allocations(&d), 2);
}

#[test]
fn partial_invalidation() {
    let mut d = device(0);
    let first = pass(&mut d, &[100, 100, 50]);
    d.reset();
    let second = pass(&mut d, &[100, 200, 50]);
    assert_eq!(allocations(&d), 4);
    assert_eq!(first[0], second[0]);
    assert_eq!(first[2], second[2]);
    assert_ne!(first[1].handle, second[1].handle);
    assert_eq!(d.slot(1).unwrap().layout, Layout { len: 200, elem: ElemType::U8 });
    assert_eq!(d.backend().bytes_in_use(), 350);
}

#[test]
fn element_type_change_allocates() {
    let mut d = device(0);
    let a = d.get_or_alloc(4, ElemType::U8).unwrap();
    d.reset();
    let b = d.get_or_alloc(4, ElemType::I8).unwrap();
    assert_ne!(a.handle, b.handle);
    assert_eq!(allocations(&d), 2);
    assert_eq!(d.read(&b).unwrap().len(), 4);
}

#[test]
fn replaced_slot_leaves_old_alias_stale() {
    let mut d = device(2);
    let a = d.get_or_alloc(10, ElemType::U8).unwrap();
    let alias = shallow_copy(&a);
    d.reset();
    let _b = d.get_or_alloc(20, ElemType::U8).unwrap();
    assert_eq!(d.read(&alias), Err(CacheError::StaleBuffer { device: 2, handle: a.handle }));
    assert_eq!(d.read(&a), Err(CacheError::StaleBuffer { device: 2, handle: a.handle }));
}

#[test]
fn shallow_copy_transparency() {
    let kinds = [
        ElemType::U8,
        ElemType::I8,
        ElemType::U16,
        ElemType::I16,
        ElemType::U32,
        ElemType::I32,
        ElemType::U64,
        ElemType::I64,
        ElemType::Float32,
        ElemType::Float64,
    ];
    let mut d = device(1);
    for (i, &elem) in kinds.iter().enumerate() {
        let b = d.get_or_alloc(3, elem).unwrap();
        let a = shallow_copy(&b);
        assert_eq!(a.ownership, Ownership::Alias);
        let n = b.layout.bytes().unwrap();
        let first: Vec<u8> = (0..n).map(|k| (k + i) as u8).collect();
        d.write(&b, &first).unwrap();
        assert_eq!(d.read(&a).unwrap(), first);
        let second: Vec<u8> = (0..n).map(|k| (200 - k) as u8).collect();
        d.write(&a, &second).unwrap();
        assert_eq!(d.read(&b).unwrap(), second);
    }
}

#[test]
fn float_bytes_survive_round_trip() {
    let mut d = device(1);
    let b = d.get_or_alloc(2, ElemType::Float32).unwrap();
    let values = [1.5f32, -0.25f32];
    let bytes: Vec<u8> = values.iter().flat_map(|v| v.to_le_bytes()).collect();
    d.write(&b, &bytes).unwrap();
    let back = d.read(&shallow_copy(&b)).unwrap();
    let read: Vec<f32> = back.chunks(4).map(|c| f32::from_le_bytes([c[0], c[1], c[2], c[3]])).collect();
    assert_eq!(read, values.to_vec());
}

#[test]
fn nested_pass_isolation() {
    let mut d = device(0);
    let outer = pass(&mut d, &[8, 16]);
    let token = d.begin_pass();
    assert_eq!(token, PassToken { device: 0, start: 2 });
    let inner_first = pass(&mut d, &[4, 4, 4]);
    d.end_pass(token).unwrap();
    assert_eq!(d.counter(), 2);
    let inner_second = pass(&mut d, &[4, 4, 32]);
    d.end_pass(token).unwrap();
    assert_eq!(d.counter(), 2);
    assert_eq!(inner_first[0], inner_second[0]);
    assert_eq!(inner_first[1], inner_second[1]);
    assert_eq!(d.slot(0).unwrap().handle, outer[0].handle);
    assert_eq!(d.slot(1).unwrap().handle, outer[1].handle);
    assert_eq!(d.read(&outer[0]).unwrap().len(), 8);
    assert_eq!(d.read(&outer[1]).unwrap().len(), 16);
    assert_eq!(allocations(&d), 6);
}

#[test]
fn cross_device_rejection() {
    let mut a = device(1);
    let mut b = device(2);
    let buf = a.get_or_alloc(4, ElemType::U8).unwrap();
    let misuse = CacheError::CrossDeviceMisuse { expected: 2, found: 1 };
    assert_eq!(b.read(&buf), Err(misuse));
    assert_eq!(b.write(&buf, &[1, 2, 3, 4]), Err(misuse));
    assert_eq!(b.shallow_or_clone(&buf), Err(misuse));
    assert_eq!(b.end_pass(a.begin_pass()), Err(misuse));
    assert_eq!(allocations(&b), 0);
    assert_eq!(b.counter(), 0);
    assert_eq!(a.read(&buf).unwrap(), vec![0, 0, 0, 0]);
}

#[test]
fn end_to_end_scenario() {
    let mut d = device(0);
    let first = pass(&mut d, &[100, 100, 50]);
    assert_eq!(allocations(&d), 3);
    assert_eq!(d.slot_count(), 3);
    for i in 0..3 {
        assert_eq!(d.slot(i).unwrap().handle, first[i].handle);
    }
    let token = PassToken { device: 0, start: 0 };
    d.end_pass(token).unwrap();
    assert_eq!(d.counter(), 0);
    let second = pass(&mut d, &[100, 100, 50]);
    assert_eq!(allocations(&d), 3);
    assert_eq!(first, second);
    d.end_pass(token).unwrap();
    let third = pass(&mut d, &[100, 200, 50]);
    assert_eq!(allocations(&d), 4);
    assert_eq!(third[0], second[0]);
    assert_eq!(third[2], second[2]);
    assert_ne!(third[1].handle, second[1].handle);
    assert_eq!(d.slot(1).unwrap().handle, third[1].handle);
}

#[test]
fn allocation_failure() {
    let mut d = Device::new(9, HostBackend::new(100));
    let a = d.get_or_alloc(60, ElemType::U8).unwrap();
    let err = d.get_or_alloc(50, ElemType::U8);
    assert_eq!(
        err,
        Err(CacheError::AllocationFailure { device: 9, layout: Layout { len: 50, elem: ElemType::U8 } })
    );
    assert_eq!(d.counter(), 1);
    assert_eq!(d.slot_count(), 1);
    assert_eq!(d.read(&a).unwrap().len(), 60);
    let huge = d.get_or_alloc(usize::MAX, ElemType::U64);
    assert!(matches!(huge, Err(CacheError::AllocationFailure { device: 9, .. })));
}

#[test]
fn write_of_wrong_length() {
    let mut d = device(0);
    let b = d.get_or_alloc(2, ElemType::U16).unwrap();
    assert_eq!(
        d.write(&b, &[1, 2, 3]),
        Err(CacheError::LengthMismatch { layout: Layout { len: 2, elem: ElemType::U16 }, given: 3 })
    );
    assert_eq!(d.read(&b).unwrap(), vec![0, 0, 0, 0]);
}

#[test]
fn token_out_of_range() {
    let mut d = device(3);
    let token = PassToken { device: 3, start: 5 };
    assert_eq!(d.end_pass(token), Err(CacheError::TokenOutOfRange { device: 3, start: 5 }));
    assert_eq!(d.counter(), 0);
}

#[test]
fn shallow_or_clone_aliases_cached_buffers() {
    let mut d = device(0);
    let b = d.get_or_alloc(3, ElemType::U8).unwrap();
    d.write(&b, &[1, 2, 3]).unwrap();
    let c = d.shallow_or_clone(&b).unwrap();
    assert_eq!(c.handle, b.handle);
    assert_eq!(c.ownership, Ownership::Alias);
    assert_eq!(allocations(&d), 1);
}

#[test]
fn shallow_or_clone_copies_owned_buffers() {
    let mut d = device(0);
    let b = d.alloc_owned(3, ElemType::U8).unwrap();
    assert_eq!(b.ownership, Ownership::Owned);
    assert_eq!(d.counter(), 0);
    d.write(&b, &[1, 2, 3]).unwrap();
    let c = d.shallow_or_clone(&b).unwrap();
    assert_ne!(c.handle, b.handle);
    assert_eq!(c.ownership, Ownership::Owned);
    assert_eq!(d.read(&c).unwrap(), vec![1, 2, 3]);
    d.write(&b, &[9, 9, 9]).unwrap();
    assert_eq!(d.read(&c).unwrap(), vec![1, 2, 3]);
    assert_eq!(allocations(&d), 2);
}

#[test]
fn element_widths() {
    assert_eq!(ElemType::U8.size(), 1);
    assert_eq!(ElemType::I16.size(), 2);
    assert_eq!(ElemType::Float32.size(), 4);
    assert_eq!(ElemType::U64.size(), 8);
    assert_eq!(Layout { len: 3, elem: ElemType::U32 }.bytes(), Some(12));
    assert_eq!(Layout { len: usize::MAX, elem: ElemType::U16 }.bytes(), None);
    let mut d = device(0);
    let b = d.get_or_alloc(3, ElemType::Float64).unwrap();
    assert_eq!(d.read(&b).unwrap().len(), 24);
}

#[test]
fn host_backend_counts_live_bytes() {
    let mut d = device(0);
    pass(&mut d, &[10, 20]);
    assert_eq!(d.backend().bytes_in_use(), 30);
    d.reset();
    pass(&mut d, &[5, 20, 7]);
    assert_eq!(d.backend().bytes_in_use(), 32);
    assert_eq!(allocations(&d), 4);
}

#[test]
fn capacity_is_a_hard_bound() {
    let mut d = Device::new(0, HostBackend::new(10));
    let a = d.get_or_alloc(4, ElemType::U8).unwrap();
    let b = d.get_or_alloc(6, ElemType::U8).unwrap();
    assert_ne!(a.handle, b.handle);
    assert_eq!(d.backend().bytes_in_use(), 10);
    d.reset();
    assert_eq!(d.get_or_alloc(4, ElemType::U8), Ok(a));
    assert!(d.get_or_alloc(7, ElemType::U8).is_err());
    assert_eq!(d.slot(1).unwrap().handle, b.handle);
    assert_eq!(d.counter(), 1);
}

#[test]
fn empty_buffers_are_cached_too() {
    let mut d = device(0);
    let a = d.get_or_alloc(0, ElemType::U32).unwrap();
    d.reset();
    let b = d.get_or_alloc(0, ElemType::U32).unwrap();
    assert_eq!(a, b);
    assert_eq!(d.read(&a).unwrap(), Vec::<u8>::new());
    assert_eq!(allocations(&d), 1);
}

#[test]
fn slot_outside_table() {
    let d = device(0);
    assert_eq!(d.slot(0), None);
    assert_eq!(d.id(), 0);
}

#[test]
fn size_mismatch_is_reported_before_the_request() {
    let mut d = device(0);
    assert!(!d.size_mismatch(100, ElemType::U8));
    pass(&mut d, &[100, 100, 50]);
    d.reset();
    assert!(!d.size_mismatch(100, ElemType::U8));
    assert!(d.size_mismatch(100, ElemType::U16));
    d.get_or_alloc(100, ElemType::U8).unwrap();
    assert!(d.size_mismatch(200, ElemType::U8));
    d.get_or_alloc(200, ElemType::U8).unwrap();
    assert!(!d.size_mismatch(50, ElemType::U8));
}
