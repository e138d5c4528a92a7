use aqua_dex::crit_view::{CritMap, CritMapView};
use aqua_dex::market::DT;
use aqua_dex::node::{AnyNode, CritMapHeader, LeafNode, OwnedNode};
use aqua_dex::records::Order;
use aqua_dex::slab::{SlabPageAlloc, PAGE_TABLE_SIZE};
use aqua_dex::slab_vec::{DataNode, SlabVec, SlotVec};
use bytemuck::cast_slice_mut;

#[test]
fn simulate_slab_page_alloc() {
    let size = PAGE_TABLE_SIZE;
    println!("Total Size: {} Bytes", size);

    let mut aligned_pgs = vec![0u64; 1_000_000];
    let bytes_pgs: &mut [u8] = cast_slice_mut(aligned_pgs.as_mut_slice());

    println!("Begin Allocation");
    let address = bytes_pgs.as_ptr() as usize;
    let mut pt = SlabPageAlloc::new(bytes_pgs, address);
    assert!(pt.allocate::<SlabVec, DataNode>(0, 10).is_ok());
    assert!(pt.allocate::<CritMapHeader, AnyNode>(1, 100).is_ok());

    let mut slv = SlabVec::new();
    pt.header_mut::<SlabVec>(0, &slv);

    for i in 0..10 {
        let j: u64 = i as u64;
        pt.index_mut::<DataNode>(0, slv.next_index() as usize, &DataNode::new([j * 2, j + 1]));
        println!("Set0 {}", i);
    }

    for i in 0..slv.len() {
        let data: DataNode = pt.index::<DataNode>(0, i as usize);
        println!("Get0 {} {} {}", i, data.data()[0], data.data()[1]);
        assert_eq!(data.data(), [i as u64 * 2, i as u64 + 1]);
    }

    let mut cm = CritMap { slab: &mut pt, type_id: 1, capacity: 100 };

    for k in 0u32..10u32 {
        let s = format!("Hello, {}!", k);
        let node = LeafNode::new(CritMap::str_hash(s), k as u32);
        assert!(cm.insert_leaf(&node).is_ok());
    }

    let s1 = format!("Hello, {}!", 3);
    assert_eq!(cm.remove_by_key(CritMap::bytes_hash(s1.as_bytes())).unwrap().data(), 3);
    let s2 = format!("Hello, {}!", 8);
    assert_eq!(cm.remove_by_key(CritMap::str_hash(s2)).unwrap().data(), 8);

    let leafs: Vec<LeafNode> = cm.traverse();
    for i in leafs.iter() {
        let istr: String = i.key().to_string();
        println!("Leaf ID: {} {}", istr, i.data().to_string());
    }
    assert_eq!(leafs.len(), 8);
    assert_eq!(cm.capacity(), 100);
}

fn map_slab() -> SlabPageAlloc {
    let mut slab = SlabPageAlloc::new(&vec![0u8; 226 + 2 * 16384], 65536);
    assert!(slab.allocate::<CritMapHeader, AnyNode>(1, 100).is_ok());
    slab
}

#[test]
fn new_leaves_take_the_next_slots() {
    let mut slab = map_slab();
    let mut cm = CritMap { slab: &mut slab, type_id: 1, capacity: 100 };
    assert!(matches!(cm.insert_leaf(&LeafNode::new(0, 10)), Ok((0, None))));
    assert_eq!(cm.find_min(), cm.find_max());
    assert!(matches!(cm.insert_leaf(&LeafNode::new(2, 12)), Ok((1, None))));
    // A branch has taken slot 2.
    assert!(matches!(cm.insert_leaf(&LeafNode::new(1, 11)), Ok((3, None))));
    assert_eq!(cm.find_by_key(1), Some(3));
    assert_ne!(cm.find_min(), cm.find_max());
    let listed: Vec<(u128, u32)> = cm.traverse().iter().map(|l| (l.key(), l.data())).collect();
    assert_eq!(listed, vec![(0, 10), (1, 11), (2, 12)]);
    for k in 0..3 {
        assert!(cm.get_key(k).is_some());
    }
}

#[test]
fn replaced_leaf_keeps_its_slot() {
    let mut slab = map_slab();
    let mut cm = CritMap { slab: &mut slab, type_id: 1, capacity: 100 };
    cm.insert_leaf(&LeafNode::new(1, 10)).unwrap();
    cm.insert_leaf(&LeafNode::new(2, 20)).unwrap();
    let (h, replaced) = cm.insert_leaf(&LeafNode::new(2, 30)).unwrap();
    assert_eq!(h, 1);
    assert_eq!(replaced.unwrap().data(), 20);
    assert_eq!(cm.get_key(2).unwrap().data(), 30);
}

#[test]
fn freed_slots_come_back_last_in_first_out() {
    let mut slab = map_slab();
    let mut cm = CritMap { slab: &mut slab, type_id: 1, capacity: 100 };
    let leaf = AnyNode::Leaf(LeafNode::new(7, 7));
    for h in 0..4 {
        assert_eq!(cm.insert(&leaf), Ok(h));
    }
    assert!(cm.remove(1).is_some());
    assert!(cm.remove(3).is_some());
    assert!(cm.remove(3).is_none());
    assert_eq!(cm.insert(&leaf), Ok(3));
    assert_eq!(cm.insert(&leaf), Ok(1));
    assert_eq!(cm.insert(&leaf), Ok(4));
    cm.clear();
    assert!(cm.is_empty() && cm.traverse().is_empty());
    assert_eq!((cm.find_min(), cm.find_max()), (None, None));
    assert_eq!(cm.capacity(), 100);
    assert!(matches!(cm.insert_leaf(&LeafNode::new(5, 5)), Ok((0, None))));
}

#[test]
fn order_slots_come_back_last_in_first_out() {
    let mut slab = SlabPageAlloc::new(&vec![0u8; 226 + 6 * 16384], 65536);
    slab.allocate::<CritMapHeader, OwnedNode>(0, 100).unwrap();
    slab.allocate::<CritMapHeader, OwnedNode>(1, 100).unwrap();
    slab.allocate::<SlotVec, Order>(2, 100).unwrap();
    slab.allocate::<SlotVec, Order>(3, 100).unwrap();
    for i in 0..3 {
        assert_eq!(Order::next_index(&mut slab, DT::BidOrder), i);
    }
    Order::free_index(&mut slab, DT::BidOrder, 1);
    Order::free_index(&mut slab, DT::BidOrder, 0);
    assert_eq!(slab.header::<SlotVec>(2).free_top(), 1);
    for i in [0, 1, 3] {
        assert_eq!(Order::next_index(&mut slab, DT::BidOrder), i);
    }
    assert_eq!(Order::next_index(&mut slab, DT::AskOrder), 0);
}

#[test]
fn items_fill_their_pages() {
    let mut slab = SlabPageAlloc::new(&vec![0u8; 226 + 16 * 16384], 65536);
    // 510 nodes of 32 bytes go on a page behind the header.
    assert_eq!(slab.allocate::<CritMapHeader, AnyNode>(0, 400), Ok(1));
    assert_eq!(slab.allocate::<CritMapHeader, AnyNode>(1, 511), Ok(2));
    // 963 items of 17 bytes go on a page behind a header of 4.
    assert_eq!(slab.allocate::<SlabVec, DataNode>(2, 963), Ok(1));
    assert_eq!(slab.allocate::<SlabVec, DataNode>(3, 964), Ok(2));
    assert_eq!(slab.allocate::<SlabVec, DataNode>(3, 1), Err(()));
}

#[test]
fn nodes_that_clear_left_can_be_removed() {
    let mut slab = map_slab();
    let mut cm = CritMap { slab: &mut slab, type_id: 1, capacity: 100 };
    let leaf = AnyNode::Leaf(LeafNode::new(7, 7));
    for h in 0..4 {
        assert_eq!(cm.insert(&leaf), Ok(h));
    }
    cm.clear();
    assert!(cm.contains(2));
    assert!(cm.remove(2).is_some());
    assert!(!cm.contains(2));
    assert_eq!(cm.insert(&leaf), Ok(2));
}
