use gradients::{Batch, BatchError, CacheError, Device, ElemType, HostBackend, Layout};

#[test]
fn batches_with_remainder() {
    let mut d = Device::new(0, HostBackend::new(4096));
    d.get_or_alloc(3, ElemType::U8).unwrap();
    let x: Vec<u8> = (0..10).collect();
    let y: Vec<u8> = (100..105).collect();
    let batch = Batch::new(&d, 2, 5, 2, 1, x, y, ElemType::U8, ElemType::U8);
    let mut it = batch.iter(&d).unwrap();

    let (x0, y0) = it.next(&mut d).unwrap().unwrap();
    assert_eq!((x0.rows, x0.cols, y0.rows, y0.cols), (2, 2, 2, 1));
    assert_eq!(d.read(&x0.buf).unwrap(), vec![0, 1, 2, 3]);
    assert_eq!(d.read(&y0.buf).unwrap(), vec![100, 101]);
    assert_eq!(d.counter(), 3);

    let (x1, y1) = it.next(&mut d).unwrap().unwrap();
    assert_eq!(x1.buf, x0.buf);
    assert_eq!(y1.buf, y0.buf);
    assert_eq!(d.read(&x1.buf).unwrap(), vec![4, 5, 6, 7]);
    assert_eq!(d.read(&y1.buf).unwrap(), vec![102, 103]);

    let (x2, y2) = it.next(&mut d).unwrap().unwrap();
    assert_eq!(x2.rows, 1);
    assert_eq!(x2.buf.layout, Layout { len: 2, elem: ElemType::U8 });
    assert_eq!(d.read(&x2.buf).unwrap(), vec![8, 9]);
    assert_eq!(d.read(&y2.buf).unwrap(), vec![104]);

    assert_eq!(it.next(&mut d), Ok(None));
    assert_eq!(d.counter(), 1);
    assert_eq!(d.backend().allocation_count(), 5);
}

#[test]
fn batches_without_remainder() {
    let mut d = Device::new(0, HostBackend::new(4096));
    let x: Vec<u8> = (0..4).collect();
    let y: Vec<u8> = (0..4).collect();
    let batch = Batch::new(&d, 2, 4, 1, 1, x, y, ElemType::U8, ElemType::U8);
    let mut it = batch.iter(&d).unwrap();
    assert!(it.next(&mut d).unwrap().is_some());
    assert!(it.next(&mut d).unwrap().is_some());
    assert_eq!(it.next(&mut d), Ok(None));
    assert_eq!(d.backend().allocation_count(), 2);
}

#[test]
fn batches_of_floats() {
    let mut d = Device::new(0, HostBackend::new(4096));
    let xs = [0.5f32, 1.0, 1.5, 2.0];
    let ys = [1.0f32, 2.0, 3.0, 4.0];
    let x: Vec<u8> = xs.iter().flat_map(|v| v.to_le_bytes()).collect();
    let y: Vec<u8> = ys.iter().flat_map(|v| v.to_le_bytes()).collect();
    let batch = Batch::new(&d, 3, 4, 1, 1, x, y, ElemType::Float32, ElemType::Float32);
    let mut it = batch.iter(&d).unwrap();
    let (_, y0) = it.next(&mut d).unwrap().unwrap();
    let bytes = d.read(&y0.buf).unwrap();
    assert_eq!(bytes.len(), 12);
    assert_eq!(f32::from_le_bytes([bytes[8], bytes[9], bytes[10], bytes[11]]), 3.0);
    let (x1, _) = it.next(&mut d).unwrap().unwrap();
    let bytes = d.read(&x1.buf).unwrap();
    assert_eq!(f32::from_le_bytes([bytes[0], bytes[1], bytes[2], bytes[3]]), 2.0);
}

#[test]
fn batch_size_larger_than_samples() {
    let d = Device::new(0, HostBackend::new(64));
    let batch = Batch::new(&d, 6, 5, 1, 1, vec![0; 5], vec![0; 5], ElemType::U8, ElemType::U8);
    assert_eq!(batch.iter(&d).err(), Some(BatchError::InvalidBatchSize { batch_size: 6, samples: 5 }));
    let batch = Batch::new(&d, 0, 5, 1, 1, vec![0; 5], vec![0; 5], ElemType::U8, ElemType::U8);
    assert_eq!(batch.iter(&d).err(), Some(BatchError::InvalidBatchSize { batch_size: 0, samples: 5 }));
}

#[test]
fn batch_data_too_short() {
    let d = Device::new(0, HostBackend::new(64));
    let batch = Batch::new(&d, 2, 4, 1, 1, vec![0; 15], vec![0; 16], ElemType::U32, ElemType::U32);
    assert_eq!(batch.iter(&d).err(), Some(BatchError::ShortData));
}

#[test]
fn batch_on_other_device() {
    let a = Device::new(1, HostBackend::new(64));
    let mut b = Device::new(2, HostBackend::new(64));
    let batch = Batch::new(&a, 1, 1, 1, 1, vec![0], vec![0], ElemType::U8, ElemType::U8);
    assert_eq!(batch.iter(&b).err(), Some(BatchError::WrongDevice { expected: 2, found: 1 }));
    let mut it = batch.iter(&a).unwrap();
    assert_eq!(it.next(&mut b), Err(CacheError::CrossDeviceMisuse { expected: 2, found: 1 }));
    assert_eq!(b.backend().allocation_count(), 0);
}

#[test]
fn second_epoch_allocates_nothing() {
    let mut d = Device::new(0, HostBackend::new(4096));
    let batch = Batch::new(&d, 2, 4, 3, 1, (0..12).collect(), (0..4).collect(), ElemType::U8, ElemType::U8);
    let mut first = Vec::new();
    let mut it = batch.iter(&d).unwrap();
    while let Some((x, y)) = it.next(&mut d).unwrap() {
        first.push((x.buf, y.buf));
    }
    assert_eq!(first.len(), 2);
    assert_eq!(first[0], first[1]);
    assert_eq!(d.backend().allocation_count(), 2);
    assert_eq!(it.next(&mut d), Ok(None));

    let mut it = batch.iter(&d).unwrap();
    let mut second = Vec::new();
    while let Some((x, y)) = it.next(&mut d).unwrap() {
        second.push((x.buf, y.buf));
    }
    assert_eq!(first, second);
    assert_eq!(d.backend().allocation_count(), 2);
    assert_eq!(d.counter(), 0);
}

#[test]
fn remainder_allocates_only_changed_slots() {
    let mut d = Device::new(0, HostBackend::new(4096));
    let batch = Batch::new(&d, 2, 3, 1, 0, vec![10, 11, 12], vec![], ElemType::U8, ElemType::U8);
    let mut it = batch.iter(&d).unwrap();
    let (x0, y0) = it.next(&mut d).unwrap().unwrap();
    assert_eq!(d.backend().allocation_count(), 2);
    let (x1, y1) = it.next(&mut d).unwrap().unwrap();
    assert_eq!(x1.rows, 1);
    assert_ne!(x1.buf.handle, x0.buf.handle);
    assert_eq!(y1.buf, y0.buf);
    assert_eq!(d.backend().allocation_count(), 3);
    assert_eq!(d.read(&x1.buf).unwrap(), vec![12]);
}

#[test]
fn batches_keep_outer_slots() {
    let mut d = Device::new(0, HostBackend::new(4096));
    let outer = d.get_or_alloc(3, ElemType::U8).unwrap();
    d.write(&outer, &[7, 8, 9]).unwrap();
    let batch = Batch::new(&d, 1, 3, 1, 1, vec![1, 2, 3], vec![4, 5, 6], ElemType::U8, ElemType::U8);
    let mut it = batch.iter(&d).unwrap();
    while it.next(&mut d).unwrap().is_some() {
        assert_eq!(d.counter(), 3);
    }
    assert_eq!(d.counter(), 1);
    assert_eq!(d.slot(0).unwrap().handle, outer.handle);
    assert_eq!(d.read(&outer).unwrap(), vec![7, 8, 9]);
    assert_eq!(d.backend().allocation_count(), 3);
}

#[test]
fn batch_pass_replays_the_same_slots() {
    let mut d = Device::new(0, HostBackend::new(4096));
    let batch = Batch::new(&d, 1, 3, 100, 100, vec![0; 300], vec![1; 300], ElemType::U8, ElemType::U8);
    let mut it = batch.iter(&d).unwrap();
    let (x0, y0) = it.next(&mut d).unwrap().unwrap();
    let z0 = d.get_or_alloc(50, ElemType::U8).unwrap();
    assert_eq!(d.backend().allocation_count(), 3);
    for i in 0..3 {
        assert!(d.slot(i).is_some());
    }
    let (x1, y1) = it.next(&mut d).unwrap().unwrap();
    let z1 = d.get_or_alloc(50, ElemType::U8).unwrap();
    assert_eq!((x1.buf, y1.buf, z1), (x0.buf, y0.buf, z0));
    assert_eq!(d.backend().allocation_count(), 3);
    let (x2, _) = it.next(&mut d).unwrap().unwrap();
    let z2 = d.get_or_alloc(200, ElemType::U8).unwrap();
    assert_eq!(x2.buf, x0.buf);
    assert_ne!(z2.handle, z0.handle);
    assert_eq!(d.backend().allocation_count(), 4);
}
