use free_list::{FreeList, Idx};

#[test]
fn free_list_smoke_test() {
    let mut free_list: FreeList<&str> = FreeList::default();

    let hello = free_list.allocate("hello");
    assert_eq!(hello, Idx::from_raw(0));

    let world = free_list.allocate("world");
    assert_eq!(world, Idx::from_raw(1));

    assert_eq!(*free_list.index(hello), "hello");
    assert_eq!(*free_list.index(world), "world");

    free_list.dealloc(hello);

    let goodbye = free_list.allocate("goodbye");
    assert_eq!(goodbye, Idx::from_raw(0));

    free_list.dealloc(goodbye);
    free_list.dealloc(world);

    let a = free_list.allocate("a");
    let b = free_list.allocate("b");
    let c = free_list.allocate("c");
    assert_eq!(a, Idx::from_raw(1));
    assert_eq!(b, Idx::from_raw(0));
    assert_eq!(c, Idx::from_raw(2));
}

#[test]
fn sequential_growth_on_empty_arena() {
    let mut arena: FreeList<u32> = FreeList::default();
    for n in 0..100u32 {
        let idx = arena.allocate(n * 3);
        assert_eq!(idx.to_raw(), n as usize);
    }
    for n in 0..100u32 {
        assert_eq!(*arena.index(Idx::from_raw(n as usize)), n * 3);
    }
}

#[test]
fn freed_slots_come_back_last_in_first_out() {
    let mut arena: FreeList<String> = FreeList::default();
    let idxs: Vec<Idx<String>> = (0..6).map(|n| arena.allocate(format!("v{}", n))).collect();
    let order = [4usize, 1, 5, 2];
    for &k in order.iter() {
        arena.dealloc(idxs[k]);
    }
    let reused: Vec<usize> = (0..4).map(|n| arena.allocate(format!("w{}", n)).to_raw()).collect();
    assert_eq!(reused, vec![2, 5, 1, 4]);
    let grown = arena.allocate("x".to_string());
    assert_eq!(grown.to_raw(), 6);
}

#[test]
fn lookup_after_allocate_gives_the_value() {
    let mut arena: FreeList<Vec<i64>> = FreeList::default();
    let first = arena.allocate(vec![1, 2, 3]);
    assert_eq!(*arena.index(first), vec![1, 2, 3]);
    arena.dealloc(first);
    let second = arena.allocate(vec![-7]);
    assert_eq!(second, first);
    assert_eq!(*arena.index(second), vec![-7]);
}

#[test]
fn dealloc_hands_back_the_stored_value() {
    let mut arena: FreeList<String> = FreeList::default();
    let a = arena.allocate("alpha".to_string());
    let b = arena.allocate("beta".to_string());
    assert_eq!(arena.dealloc(b), "beta");
    assert_eq!(arena.dealloc(a), "alpha");
    let c = arena.allocate("gamma".to_string());
    assert_eq!(c.to_raw(), 0);
    assert_eq!(*arena.index(c), "gamma");
}

#[test]
fn index_mut_writes_into_the_slot() {
    let mut arena: FreeList<u64> = FreeList::default();
    let a = arena.allocate(10);
    let b = arena.allocate(20);
    *arena.index_mut(a) += 5;
    *arena.index_mut(b) = 99;
    assert_eq!(*arena.index(a), 15);
    assert_eq!(*arena.index(b), 99);
    assert_eq!(arena.dealloc(a), 15);
}

#[test]
fn handles_compare_by_position() {
    let x: Idx<u8> = Idx::from_raw(7);
    let y: Idx<u8> = Idx::from_raw(7);
    let z: Idx<u8> = Idx::from_raw(8);
    assert_eq!(x, y);
    assert_ne!(x, z);
    assert_eq!(x.to_raw(), 7);
    let copied = x;
    assert_eq!(copied.clone(), x);
}
