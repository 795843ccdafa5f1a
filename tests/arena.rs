use arena::slab::Slab;
use arena::{Arena, Handle, SliceHandle};

#[test]
fn bulk_insert_of_nothing_on_empty_arena() {
    let mut a: Arena<u32> = Arena::new();
    let s = a.insert_all(vec![]);
    assert_eq!(s.len, 0);
    assert!(a.get_slice(s).is_empty());
    assert_eq!(a.len(), 0);
    assert!(a.is_empty());
}

#[test]
fn thirty_two_single_inserts_fill_first_block() {
    let mut a: Arena<u32> = Arena::new();
    for i in 0..32u32 {
        let h = a.insert(i);
        assert_eq!(h, Handle { slab: 0, index: i as usize });
    }
    assert_eq!(a.slab_count(), 1);
    assert_eq!(a.slab_capacity(0), 32);
    assert_eq!(a.slab_len(0), 32);
    let h = a.insert(32);
    assert_eq!(h, Handle { slab: 1, index: 0 });
    assert_eq!(a.slab_count(), 2);
    assert_eq!(a.slab_capacity(1), 64);
    assert_eq!(a.len(), 33);
    assert_eq!(*a.get(h), 32);
}

#[test]
fn ten_value_bulk_insert_on_empty_arena() {
    let mut a: Arena<u32> = Arena::new();
    let values: Vec<u32> = (0..10).collect();
    let s = a.insert_all(values.clone());
    assert_eq!(s, SliceHandle { slab: 0, start: 0, len: 10 });
    assert_eq!(a.get_slice(s), &values[..]);
    assert_eq!(a.len(), 10);
    assert_eq!(a.slab_count(), 1);
    assert_eq!(a.slab_capacity(0), 32);
}

#[test]
fn bulk_insert_across_block_boundary_relocates() {
    let mut a: Arena<u32> = Arena::new();
    let singles: Vec<Handle> = (0..20u32).map(|i| a.insert(i)).collect();
    assert_eq!(a.slab_len(0), 20);
    let values: Vec<u32> = (100..150).collect();
    let s = a.insert_all(values.clone());
    assert_eq!(s, SliceHandle { slab: 1, start: 0, len: 50 });
    assert_eq!(a.get_slice(s), &values[..]);
    assert_eq!(a.slab_capacity(1), 64);
    assert_eq!(a.slab_len(1), 50);
    assert_eq!(a.len(), 70);
    // the first block is back to what it held before the call
    assert_eq!(a.slab_len(0), 20);
    for (i, h) in singles.iter().enumerate() {
        assert_eq!(*h, Handle { slab: 0, index: i });
        assert_eq!(*a.get(*h), i as u32);
    }
}

#[test]
fn earlier_reference_survives_relocation() {
    let mut a: Arena<String> = Arena::new();
    let mut handles = Vec::new();
    for i in 0..6 {
        handles.push(a.insert(format!("v{}", i)));
    }
    let fifth = handles[5];
    assert_eq!(a.get(fifth), "v5");
    for i in 6..25 {
        a.insert(format!("v{}", i));
    }
    let bulk: Vec<String> = (0..40).map(|i| format!("b{}", i)).collect();
    let s = a.insert_all(bulk.clone());
    assert_eq!(s.slab, 1);
    assert_eq!(a.get_slice(s), &bulk[..]);
    assert_eq!(a.get(fifth), "v5");
    assert_eq!(fifth, Handle { slab: 0, index: 5 });
}

#[test]
fn len_counts_every_inserted_value() {
    let mut a: Arena<u64> = Arena::new();
    let mut expected: usize = 0;
    for round in 0..40u64 {
        a.insert(round);
        expected += 1;
        let n = (round % 7) as usize;
        let values: Vec<u64> = (0..n as u64).collect();
        a.insert_all(values);
        expected += n;
        assert_eq!(a.len(), expected);
    }
    let total: usize = (0..a.slab_count()).map(|i| a.slab_len(i)).sum();
    assert_eq!(total, expected);
}

#[test]
fn results_read_in_call_order_give_insertion_order() {
    let mut a: Arena<u32> = Arena::new();
    let mut singles = Vec::new();
    let mut slices = Vec::new();
    let mut order = Vec::new();
    let mut next: u32 = 0;
    for round in 0..30u32 {
        singles.push((order.len(), a.insert(next)));
        order.push(next);
        next += 1;
        let n = (round * 5) % 23;
        let values: Vec<u32> = (next..next + n).collect();
        next += n;
        slices.push((order.len(), a.insert_all(values.clone())));
        order.extend(values);
    }
    let mut read: Vec<(usize, Vec<u32>)> = Vec::new();
    for (at, h) in &singles {
        read.push((*at, vec![*a.get(*h)]));
    }
    for (at, s) in &slices {
        read.push((*at, a.get_slice(*s).to_vec()));
    }
    read.sort_by_key(|(at, _)| *at);
    let joined: Vec<u32> = read.into_iter().flat_map(|(_, v)| v).collect();
    assert_eq!(joined, order);
}

#[test]
fn block_capacities_double() {
    let mut a: Arena<u32> = Arena::new();
    for i in 0..(32 + 64 + 128 + 1) {
        a.insert(i);
    }
    assert_eq!(a.slab_count(), 4);
    assert_eq!(a.slab_capacity(0), 32);
    assert_eq!(a.slab_capacity(1), 64);
    assert_eq!(a.slab_capacity(2), 128);
    assert_eq!(a.slab_capacity(3), 256);
    assert_eq!(a.slab_len(3), 1);
}

#[test]
fn single_insert_uses_earlier_block_with_room() {
    let mut a: Arena<u32> = Arena::new();
    for i in 0..30 {
        a.insert(i);
    }
    // does not fit in block 0: all five go to block 1, block 0 keeps its room
    let s = a.insert_all(vec![1, 2, 3, 4, 5]);
    assert_eq!(s, SliceHandle { slab: 1, start: 0, len: 5 });
    assert_eq!(a.slab_len(0), 30);
    let h = a.insert(99);
    assert_eq!(h, Handle { slab: 0, index: 30 });
    // the bulk insert tries the last block with room first
    let s = a.insert_all(vec![7, 8]);
    assert_eq!(s, SliceHandle { slab: 1, start: 5, len: 2 });
}

#[test]
fn oversized_bulk_insert_gets_a_block_that_fits() {
    let mut a: Arena<u32> = Arena::new();
    let values: Vec<u32> = (0..100).collect();
    let s = a.insert_all(values.clone());
    assert_eq!(s, SliceHandle { slab: 0, start: 0, len: 100 });
    assert_eq!(a.slab_capacity(0), 100);
    assert_eq!(a.get_slice(s), &values[..]);
    let h = a.insert(5);
    assert_eq!(h, Handle { slab: 1, index: 0 });
    assert_eq!(a.slab_capacity(1), 64);
}

#[test]
fn slab_push_and_fullness() {
    let mut s: Slab<u8> = Slab::new(2);
    assert_eq!(s.len(), 0);
    assert_eq!(s.capacity(), 2);
    assert!(!s.is_full());
    assert_eq!(s.push(7), 0);
    assert_eq!(s.push(8), 1);
    assert!(s.is_full());
    assert_eq!(*s.get(1), 8);
}

#[test]
fn slab_extend_appends_in_order() {
    let mut s: Slab<u8> = Slab::new(5);
    s.push(1);
    s.extend(vec![2, 3, 4]);
    assert_eq!(s.len(), 4);
    assert_eq!(s.get_slice(0, 4), &[1, 2, 3, 4]);
    assert_eq!(s.get_slice(1, 2), &[2, 3]);
}

#[test]
fn slab_split_off_extend_moves_tail() {
    let mut a: Slab<u8> = Slab::new(4);
    a.extend(vec![1, 2, 3, 4]);
    let mut b: Slab<u8> = Slab::new(8);
    a.split_off_extend(1, &mut b);
    assert_eq!(a.len(), 1);
    assert_eq!(a.get_slice(0, 1), &[1]);
    assert_eq!(b.len(), 3);
    assert_eq!(b.get_slice(0, 3), &[2, 3, 4]);
    assert_eq!(b.capacity(), 8);
    assert!(!a.is_full());
}

#[test]
fn arena_ref_forwards_to_arena() {
    let mut a: Arena<u32> = Arena::new();
    {
        let mut r = arena::ArenaRef::new(&mut a);
        assert!(r.is_empty());
        let h = r.insert(4);
        assert_eq!(h, Handle { slab: 0, index: 0 });
        let mut inner = r.as_ref();
        let s = inner.insert_all(vec![5, 6]);
        assert_eq!(s, SliceHandle { slab: 0, start: 1, len: 2 });
        assert_eq!(inner.len(), 3);
        assert_eq!(r.len(), 3);
    }
    assert_eq!(a.len(), 3);
    assert_eq!(a.get_slice(SliceHandle { slab: 0, start: 0, len: 3 }), &[4, 5, 6]);
}
