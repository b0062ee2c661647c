use apfmalloc::independent_collections::range_mapping::{
    AddressRange, Node, NodeInner, PageInfo, PageRangeMapping,
};

fn info(index: usize) -> PageInfo {
    PageInfo { desc: Some(0x1000 * index), size_class_index: index }
}

#[test]
fn empty_mapping_knows_nothing() {
    let mapping = PageRangeMapping::new();
    assert_eq!(mapping.get_page_info(0), None);
    assert_eq!(mapping.get_page_info(0x1234), None);
    assert_eq!(mapping.node_count(), 0);
}

#[test]
fn one_address_is_found() {
    let mut mapping = PageRangeMapping::new();
    mapping.update_page_map(None, 0x5000, Some(0x77), 3);
    let expected = PageInfo { desc: Some(0x77), size_class_index: 3 };
    assert_eq!(mapping.get_page_info(0x5000), Some(expected));
    assert_eq!(mapping.get_page_info(0x4fff), None);
    assert_eq!(mapping.get_page_info(0x5001), None);
}

#[test]
fn a_superblock_is_found_at_every_address() {
    let mut mapping = PageRangeMapping::new();
    mapping.update_page_map(Some(0x2000), 0x10000, None, 5);
    let expected = PageInfo { desc: None, size_class_index: 5 };
    assert_eq!(mapping.get_page_info(0x10000), Some(expected));
    assert_eq!(mapping.get_page_info(0x10fff), Some(expected));
    assert_eq!(mapping.get_page_info(0x11fff), Some(expected));
    assert_eq!(mapping.get_page_info(0x12000), None);
    assert_eq!(mapping.get_page_info(0xffff), None);
}

#[test]
fn two_ranges_are_both_found() {
    let mut mapping = PageRangeMapping::new();
    mapping.update_page_map(Some(0x1000), 0x30000, Some(1), 1);
    mapping.update_page_map(Some(0x1000), 0x10000, Some(2), 2);
    assert_eq!(
        mapping.get_page_info(0x30fff),
        Some(PageInfo { desc: Some(1), size_class_index: 1 })
    );
    assert_eq!(
        mapping.get_page_info(0x10000),
        Some(PageInfo { desc: Some(2), size_class_index: 2 })
    );
    assert_eq!(mapping.get_page_info(0x20000), None);
    assert_eq!(mapping.get_page_info(0x31000), None);
    // the leaf, the leaf that joined, and the first leaf at its new place
    assert_eq!(mapping.node_count(), 3);
    assert_eq!(
        mapping.node(0),
        Node {
            range: AddressRange { start: 0x10000, end: 0x30fff },
            inner: NodeInner::Children { less: 1, more: 2 },
        }
    );
}

#[test]
fn a_third_range_outside_the_root_is_found() {
    let mut mapping = PageRangeMapping::new();
    mapping.set_page_info_for_ptr(10, info(1));
    mapping.set_page_info_for_ptr(30, info(2));
    mapping.set_page_info_for_ptr(50, info(3));
    assert_eq!(mapping.get_page_info(10), Some(info(1)));
    assert_eq!(mapping.get_page_info(30), Some(info(2)));
    assert_eq!(mapping.get_page_info(50), Some(info(3)));
    assert_eq!(mapping.get_page_info(40), None);
    assert_eq!(mapping.get_page_info(51), None);
    // the range joins below the greater child of the root, and the root is widened by it
    assert_eq!(
        mapping.node(0),
        Node {
            range: AddressRange { start: 10, end: 50 },
            inner: NodeInner::Children { less: 2, more: 1 },
        }
    );
    assert_eq!(
        mapping.node(1),
        Node {
            range: AddressRange { start: 30, end: 50 },
            inner: NodeInner::Children { less: 4, more: 3 },
        }
    );
}

#[test]
fn a_third_range_between_the_two_is_found() {
    let mut mapping = PageRangeMapping::new();
    mapping.set_page_info_for_ptr(10, info(1));
    mapping.set_page_info_for_ptr(30, info(2));
    mapping.set_page_info_for_ptr(20, info(3));
    assert_eq!(mapping.get_page_info(10), Some(info(1)));
    assert_eq!(mapping.get_page_info(30), Some(info(2)));
    // the old root holds 20 and is searched first; the search goes on into the new leaf
    assert_eq!(mapping.get_page_info(20), Some(info(3)));
    assert_eq!(mapping.get_page_info(19), None);
    assert_eq!(mapping.get_page_info(21), None);
    assert_eq!(mapping.node_count(), 5);
}

#[test]
fn three_addresses_in_every_order() {
    let orders = [[1usize, 2, 3], [1, 3, 2], [2, 1, 3], [2, 3, 1], [3, 1, 2], [3, 2, 1]];
    for order in orders {
        let mut mapping = PageRangeMapping::new();
        mapping.init_with_capacity(8);
        for index in order {
            mapping.update_page_map(None, 0x1000 * index, None, index);
        }
        for index in 1..=3usize {
            assert_eq!(
                mapping.get_page_info(0x1000 * index),
                Some(PageInfo { desc: None, size_class_index: index })
            );
            assert_eq!(mapping.get_page_info(0x1000 * index + 1), None);
            assert_eq!(mapping.get_page_info(0x1000 * index - 1), None);
        }
    }
}

#[test]
fn three_superblocks_are_found_at_every_address() {
    let mut mapping = PageRangeMapping::new();
    mapping.update_page_map(Some(0x1000), 0x10000, Some(1), 1);
    mapping.update_page_map(Some(0x1000), 0x30000, Some(2), 2);
    mapping.update_page_map(Some(0x1000), 0x50000, Some(3), 3);
    for (start, index) in [(0x10000usize, 1usize), (0x30000, 2), (0x50000, 3)] {
        let expected = Some(PageInfo { desc: Some(index), size_class_index: index });
        assert_eq!(mapping.get_page_info(start), expected);
        assert_eq!(mapping.get_page_info(start + 0x800), expected);
        assert_eq!(mapping.get_page_info(start + 0xfff), expected);
        assert_eq!(mapping.get_page_info(start + 0x1000), None);
        assert_eq!(mapping.get_page_info(start - 1), None);
    }
}

#[test]
fn many_ranges_in_a_scattered_order() {
    let mut mapping = PageRangeMapping::new();
    let count = 200usize;
    // 37 and 200 share no factor, so every index from 0 to 199 comes once
    for step in 0..count {
        let index = (step * 37) % count;
        mapping.update_page_map(Some(0x1000), 0x100000 + index * 0x3000, Some(index), index % 40);
        assert_eq!(mapping.node_count(), 2 * step + 1);
    }
    for index in 0..count {
        let start = 0x100000 + index * 0x3000;
        let expected = Some(PageInfo { desc: Some(index), size_class_index: index % 40 });
        assert_eq!(mapping.get_page_info(start), expected);
        assert_eq!(mapping.get_page_info(start + 0xfff), expected);
        assert_eq!(mapping.get_page_info(start + 0x1000), None);
        assert_eq!(mapping.get_page_info(start + 0x2fff), None);
    }
    assert_eq!(mapping.get_page_info(0xfffff), None);
}

#[test]
fn every_inner_range_is_the_least_that_holds_its_children() {
    let mut mapping = PageRangeMapping::new();
    for index in [5usize, 1, 9, 3, 7, 2, 8, 4, 6] {
        mapping.set_page_info_for_ptr(index * 100, info(index));
    }
    for at in 0..mapping.node_count() {
        let node = mapping.node(at);
        if let NodeInner::Children { less, more } = node.inner {
            let (lesser, greater) = (mapping.node(less), mapping.node(more));
            assert_eq!(node.range, lesser.range.widened_by(&greater.range));
        }
    }
    assert_eq!(mapping.node(0).range, AddressRange { start: 100, end: 900 });
}

#[test]
fn a_range_that_shares_addresses_leaves_the_rest_alone() {
    let mut mapping = PageRangeMapping::new();
    mapping.update_page_map(Some(0x1000), 0x10000, Some(1), 1);
    mapping.update_page_map(Some(0x2000), 0x10000, Some(2), 2);
    // where the two share an address, it is mapped to one of them
    let shared = mapping.get_page_info(0x10800).unwrap();
    assert!(shared.size_class_index == 1 || shared.size_class_index == 2);
    // where only the second holds it, to the second; elsewhere to nothing
    assert_eq!(
        mapping.get_page_info(0x11800),
        Some(PageInfo { desc: Some(2), size_class_index: 2 })
    );
    assert_eq!(mapping.get_page_info(0x12000), None);
}

#[test]
fn init_with_capacity_empties_the_mapping() {
    let mut mapping = PageRangeMapping::new();
    mapping.init_with_capacity(16);
    assert_eq!(mapping.node_count(), 0);
    mapping.set_page_info_for_ptr(10, info(1));
    assert_eq!(mapping.get_page_info(10), Some(info(1)));
    mapping.init_with_capacity(4);
    assert_eq!(mapping.get_page_info(10), None);
    assert_eq!(mapping.node_count(), 0);
}

#[test]
fn create_range_node_leaves_the_tree_alone() {
    let mut mapping = PageRangeMapping::new();
    mapping.set_page_info_for_ptr(10, info(1));
    let leaf = mapping.create_range_node(AddressRange { start: 40, end: 49 }, info(4));
    assert_eq!(leaf, 1);
    assert_eq!(mapping.node_count(), 2);
    assert_eq!(mapping.get_page_info(45), None);
    assert_eq!(mapping.get_page_info(10), Some(info(1)));
}

#[test]
fn parent_node_spans_both_children() {
    let low = Node { range: AddressRange { start: 1, end: 4 }, inner: NodeInner::Info(info(1)) };
    let high = Node { range: AddressRange { start: 8, end: 9 }, inner: NodeInner::Info(info(2)) };
    assert_eq!(
        low.create_parent_node(0, &high, 1),
        Node {
            range: AddressRange { start: 1, end: 9 },
            inner: NodeInner::Children { less: 0, more: 1 },
        }
    );
    assert_eq!(
        high.create_parent_node(1, &low, 0),
        Node {
            range: AddressRange { start: 1, end: 9 },
            inner: NodeInner::Children { less: 0, more: 1 },
        }
    );
}

#[test]
fn find_info_for_ptr_searches_from_a_node() {
    let mut mapping = PageRangeMapping::new();
    mapping.set_page_info_for_ptr(10, info(1));
    mapping.set_page_info_for_ptr(30, info(2));
    let root = mapping.node(0);
    assert_eq!(root.find_info_for_ptr(&mapping, 30), Some(info(2)));
    assert_eq!(root.find_info_for_ptr(&mapping, 20), None);
    let leaf = mapping.node(1);
    assert_eq!(leaf.find_info_for_ptr(&mapping, 30), Some(info(2)));
    assert_eq!(leaf.find_info_for_ptr(&mapping, 10), None);
}

#[test]
fn page_info_default_and_set_ptr() {
    let mut page = PageInfo::default();
    assert_eq!(page, PageInfo { desc: None, size_class_index: 0 });
    page.set_ptr(Some(0x40), 7);
    assert_eq!(page, PageInfo { desc: Some(0x40), size_class_index: 7 });
    assert!(AddressRange { start: 3, end: 5 }.contains(5));
    assert!(!AddressRange { start: 3, end: 5 }.contains(6));
    assert!(!AddressRange { start: 5, end: 3 }.contains(4));
    assert_eq!(
        AddressRange { start: 3, end: 5 }.widened_by(&AddressRange { start: 9, end: 9 }),
        AddressRange { start: 3, end: 9 }
    );
    assert_eq!(
        AddressRange { start: 3, end: 5 }.widened_by(&AddressRange { start: 1, end: 4 }),
        AddressRange { start: 1, end: 5 }
    );
}
