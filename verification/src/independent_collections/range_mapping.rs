//! The page-range mapping: which descriptor and which size class own an
//! address.
//!
//! Ranges of addresses are registered one by one, each with its page
//! information. They are kept as the leaves of a binary tree. Every inner
//! node carries the least range that holds the ranges of its two children,
//! so a search can turn back at any node whose range does not hold the
//! address.
//! The nodes live in an arena, and a node names its children by their
//! places in the arena. The tree is not balanced: it is written when a
//! superblock is first mapped, and read on every free.
//!
//! Registering a range changes what is found inside that range and nothing
//! else. A range that shares no address with an earlier one is found at
//! every address of its own, wherever in the tree it has joined.
//!
//! # The way down
//!
//! A new leaf joins at the end of a way down from the root. From an inner
//! node the way goes on into the lesser child where that child's range
//! strictly holds the new range. It ends at the lesser child where the new
//! range lies wholly before it, at the greater child where the new range
//! lies wholly after it, and else at the node itself. There is no way on
//! into the greater child: the test for it would ask whether the end of the
//! new range lies after itself, which is never so. The tree therefore
//! leans to the lesser side, and a search may have to try both children of
//! a node. That costs time, not answers; a better way down is wanted.

use vstd::prelude::*;

verus! {

/// The addresses from `start` to `end`, both included; none where `end` is
/// below `start`.
#[derive(Clone, Copy, Debug, PartialEq, Eq)]
pub struct AddressRange {
    pub start: usize,
    pub end: usize,
}

/// The least range that holds both `a` and `b`, going by their ends.
pub open spec fn hull(a: AddressRange, b: AddressRange) -> AddressRange {
    AddressRange {
        start: if a.start <= b.start {
            a.start
        } else {
            b.start
        },
        end: if a.end >= b.end {
            a.end
        } else {
            b.end
        },
    }
}

impl AddressRange {
    pub open spec fn spec_contains(&self, address: usize) -> bool {
        self.start <= address <= self.end
    }

    /// The least range that holds both this range and `other`.
    pub fn widened_by(&self, other: &AddressRange) -> (wider: AddressRange)
        ensures
            wider == hull(*self, *other),
    {
        AddressRange {
            start: if self.start <= other.start {
                self.start
            } else {
                other.start
            },
            end: if self.end >= other.end {
                self.end
            } else {
                other.end
            },
        }
    }

    /// Whether `address` lies in the range.
    #[verifier::when_used_as_spec(spec_contains)]
    pub fn contains(&self, address: usize) -> (inside: bool)
        ensures
            inside == self.spec_contains(address),
    {
        self.start <= address && address <= self.end
    }
}

/// What is known of a range of pages: the address of the descriptor of its
/// superblock, if it has one, and the index of its size class.
#[derive(Clone, Copy, Debug, PartialEq, Eq)]
pub struct PageInfo {
    pub desc: Option<usize>,
    pub size_class_index: usize,
}

impl PageInfo {
    /// Sets the descriptor and the size class.
    pub fn set_ptr(&mut self, desc: Option<usize>, size_class_index: usize)
        ensures
            *final(self) == (PageInfo { desc, size_class_index }),
    {
        self.desc = desc;
        self.size_class_index = size_class_index;
    }
}

impl Default for PageInfo {
    /// No descriptor, and the size class 0.
    fn default() -> (info: PageInfo)
        ensures
            info == (PageInfo { desc: None, size_class_index: 0 }),
    {
        PageInfo { desc: None, size_class_index: 0 }
    }
}

/// A leaf holds the page information of its range. An inner node names its
/// two children by their places in the arena.
#[derive(Clone, Copy, Debug, PartialEq, Eq)]
pub enum NodeInner {
    Info(PageInfo),
    Children { less: usize, more: usize },
}

/// A node of the tree.
#[derive(Clone, Copy, Debug, PartialEq, Eq)]
pub struct Node {
    pub range: AddressRange,
    pub inner: NodeInner,
}

/// The node that takes `current` and `new` as its children: its range is
/// the least that holds both, and `new` is its lesser child where it ends
/// before `current` starts, else its greater.
pub open spec fn parent_of(new: Node, new_at: usize, current: Node, current_at: usize) -> Node {
    Node {
        range: hull(new.range, current.range),
        inner: if new.range.end < current.range.start {
            NodeInner::Children { less: new_at, more: current_at }
        } else {
            NodeInner::Children { less: current_at, more: new_at }
        },
    }
}

/// The first of two finds that found something.
pub open spec fn first_of(first: Option<PageInfo>, second: Option<PageInfo>) -> Option<PageInfo> {
    if first is Some {
        first
    } else {
        second
    }
}

/// The arena and the root of the tree.
pub struct PageMapView {
    /// The place of the root; `None` while nothing is registered.
    pub head: Option<usize>,
    /// The nodes, each at its place.
    pub nodes: Seq<Node>,
    /// A rank for each node, above the ranks of its children: following
    /// the children from any node comes to an end.
    pub ranks: Seq<nat>,
    /// For each node the place of the node that names it as a child, if
    /// there is one: no node is the child of two.
    pub parents: Seq<Option<usize>>,
}

impl PageMapView {
    /// The mapping without nodes.
    pub open spec fn empty() -> PageMapView {
        PageMapView {
            head: None,
            nodes: Seq::empty(),
            ranks: Seq::empty(),
            parents: Seq::empty(),
        }
    }

    /// The children of `node` are places of the arena.
    pub open spec fn holds_children(self, node: Node) -> bool {
        node.inner matches NodeInner::Children { less, more } ==> less < self.nodes.len() && more
            < self.nodes.len()
    }

    /// A number above the ranks of the children of `node`; zero for a leaf.
    pub open spec fn reach(self, node: Node) -> nat {
        match node.inner {
            NodeInner::Info(_) => 0,
            NodeInner::Children { less, more } => if self.holds_children(node) {
                if self.ranks[less as int] >= self.ranks[more as int] {
                    self.ranks[less as int] + 1
                } else {
                    self.ranks[more as int] + 1
                }
            } else {
                0
            },
        }
    }

    /// The node at the place `at` is in order: its children are two
    /// different places of the arena, it ranks above them, it is the one
    /// node that names them, and its range is the least that holds
    /// theirs.
    pub open spec fn in_order(self, at: int) -> bool {
        let node = self.nodes[at];
        &&& self.holds_children(node)
        &&& self.reach(node) <= self.ranks[at]
        &&& node.inner matches NodeInner::Children { less, more } ==> {
            &&& less != more
            &&& self.parents[less as int] == Some(at as usize)
            &&& self.parents[more as int] == Some(at as usize)
            &&& node.range == hull(self.nodes[less as int].range, self.nodes[more as int].range)
        }
    }

    /// Every node is in order, and the root is a place of the arena that
    /// no node names as a child.
    pub open spec fn wf(self) -> bool {
        &&& self.ranks.len() == self.nodes.len()
        &&& self.parents.len() == self.nodes.len()
        &&& self.head matches Some(head) ==> head < self.nodes.len() && self.parents[head as int]
            is None
        &&& forall|i: int| 0 <= i < self.nodes.len() ==> #[trigger] self.in_order(i)
    }

    /// What a search for `address` finds from `node` on: nothing outside
    /// the range of the node; in a leaf its page information; in an inner
    /// node what the search finds from the lesser child on, and where that
    /// is nothing, what it finds from the greater child on.
    pub open spec fn find_from(self, node: Node, address: usize) -> Option<PageInfo>
        decreases self.reach(node),
    {
        if !node.range.contains(address) {
            None
        } else {
            match node.inner {
                NodeInner::Info(info) => Some(info),
                NodeInner::Children { less, more } => {
                    if !self.holds_children(node) {
                        None
                    } else {
                        let less_node = self.nodes[less as int];
                        let more_node = self.nodes[more as int];
                        first_of(
                            if self.reach(less_node) < self.reach(node) {
                                self.find_from(less_node, address)
                            } else {
                                None
                            },
                            if self.reach(more_node) < self.reach(node) {
                                self.find_from(more_node, address)
                            } else {
                                None
                            },
                        )
                    }
                },
            }
        }
    }

    /// The page information of `address`: what a search finds from the
    /// root on.
    pub open spec fn lookup(self, address: usize) -> Option<PageInfo> {
        match self.head {
            Some(head) => self.find_from(self.nodes[head as int], address),
            None => None,
        }
    }

    /// The mapping with one more leaf in the arena, not yet part of the
    /// tree.
    pub open spec fn with_leaf(self, range: AddressRange, info: PageInfo) -> PageMapView {
        PageMapView {
            head: self.head,
            nodes: self.nodes.push(Node { range, inner: NodeInner::Info(info) }),
            ranks: self.ranks.push(0),
            parents: self.parents.push(None),
        }
    }

    /// The last node of the arena is a leaf that is not yet part of the
    /// tree: it is neither the root nor a child of any node.
    pub open spec fn last_is_fresh(self) -> bool {
        &&& self.nodes.len() >= 1
        &&& self.nodes.last().inner is Info
        &&& self.parents.len() == self.nodes.len()
        &&& self.parents.last() is None
        &&& self.head matches Some(head) ==> head + 1 < self.nodes.len()
        &&& forall|i: int|
            0 <= i < self.nodes.len() ==> ((#[trigger] self.nodes[i]).inner matches NodeInner::Children {
                less,
                more,
            } ==> less + 1 < self.nodes.len() && more + 1 < self.nodes.len())
    }

    /// The arena of `after` holds the nodes that one more registration
    /// adds to the arena of `self`: the new leaf, and an inner node above
    /// it unless the tree was empty. `after` has a root.
    pub open spec fn grows_to(self, after: PageMapView) -> bool {
        &&& after.head is Some
        &&& after.nodes.len() == self.nodes.len() + (if self.head is Some {
            2int
        } else {
            1int
        })
    }

    /// `after` is `self` with `range` registered under `info`. Outside the
    /// range, every address is mapped as before. Inside it, every address
    /// is mapped: to `info`, or as it was mapped before where `range`
    /// shares it with an earlier range. So a range that shares no address
    /// with an earlier one is mapped to `info` throughout.
    pub open spec fn registers(self, after: PageMapView, range: AddressRange, info: PageInfo) -> bool {
        &&& forall|address: usize|
            !range.contains(address) ==> #[trigger] after.lookup(address) == self.lookup(address)
        &&& forall|address: usize|
            range.contains(address) ==> (#[trigger] after.lookup(address)) is Some && (
            after.lookup(address) == Some(info) || after.lookup(address) == self.lookup(address))
    }
}

/// In a well-formed arena, what a search finds from a node of the arena on
/// does not depend on the range of the node where the node is an inner
/// one: it is the first find of its two children.
pub proof fn lemma_find_is_first(mapping: PageMapView, at: int, address: usize)
    requires
        mapping.wf(),
        0 <= at < mapping.nodes.len(),
    ensures
        mapping.nodes[at].inner matches NodeInner::Children { less, more } ==> mapping.find_from(
            mapping.nodes[at],
            address,
        ) == first_of(
            mapping.find_from(mapping.nodes[less as int], address),
            mapping.find_from(mapping.nodes[more as int], address),
        ),
        mapping.nodes[at].inner matches NodeInner::Info(info) ==> mapping.find_from(
            mapping.nodes[at],
            address,
        ) == (if mapping.nodes[at].range.contains(address) {
            Some(info)
        } else {
            None
        }),
{
    assert(mapping.in_order(at));
    if let NodeInner::Children { less, more } = mapping.nodes[at].inner {
        assert(mapping.in_order(less as int));
        assert(mapping.in_order(more as int));
    }
}

/// A leaf at the end of the arena that is not part of the tree changes no
/// search.
proof fn lemma_with_leaf_find(
    mapping: PageMapView,
    range: AddressRange,
    info: PageInfo,
    at: int,
    address: usize,
)
    requires
        mapping.wf(),
        0 <= at < mapping.nodes.len(),
    ensures
        mapping.with_leaf(range, info).find_from(mapping.nodes[at], address) == mapping.find_from(
            mapping.nodes[at],
            address,
        ),
        mapping.with_leaf(range, info).reach(mapping.nodes[at]) == mapping.reach(mapping.nodes[at]),
    decreases mapping.ranks[at],
{
    let longer = mapping.with_leaf(range, info);
    assert(mapping.in_order(at));
    if let NodeInner::Children { less, more } = mapping.nodes[at].inner {
        assert(mapping.in_order(less as int));
        assert(mapping.in_order(more as int));
        lemma_with_leaf_find(mapping, range, info, less as int, address);
        lemma_with_leaf_find(mapping, range, info, more as int, address);
        assert(longer.nodes[less as int] == mapping.nodes[less as int]);
        assert(longer.nodes[more as int] == mapping.nodes[more as int]);
    }
}

/// A leaf at the end of the arena that is not part of the tree leaves the
/// arena well formed, with that leaf fresh, and every address mapped as
/// before.
pub proof fn lemma_with_leaf(mapping: PageMapView, range: AddressRange, info: PageInfo)
    requires
        mapping.wf(),
    ensures
        mapping.with_leaf(range, info).wf(),
        mapping.with_leaf(range, info).last_is_fresh(),
        forall|address: usize| #[trigger]
            mapping.with_leaf(range, info).lookup(address) == mapping.lookup(address),
{
    let longer = mapping.with_leaf(range, info);
    assert forall|i: int| 0 <= i < longer.nodes.len() implies #[trigger] longer.in_order(i) by {
        if i < mapping.nodes.len() {
            assert(mapping.in_order(i));
            assert(longer.nodes[i] == mapping.nodes[i]);
        }
    }
    assert forall|i: int| 0 <= i < longer.nodes.len() implies ((#[trigger] longer.nodes[i]).inner matches NodeInner::Children {
        less,
        more,
    } ==> less + 1 < longer.nodes.len() && more + 1 < longer.nodes.len()) by {
        if i < mapping.nodes.len() {
            assert(mapping.in_order(i));
            assert(longer.nodes[i] == mapping.nodes[i]);
        }
    }
    assert forall|address: usize| #[trigger]
        longer.lookup(address) == mapping.lookup(address) by {
        if let Some(head) = mapping.head {
            lemma_with_leaf_find(mapping, range, info, head as int, address);
            assert(longer.nodes[head as int] == mapping.nodes[head as int]);
        }
    }
}

/// The ranks after the fresh leaf has joined at the place `at`: the leaf
/// ranks lowest, the node that moves to the end of the arena keeps its
/// place among the ranks, and its old place ranks just above it.
spec fn joined_ranks(before: PageMapView, at: usize) -> Seq<nat> {
    let leaf = before.nodes.len() - 1;
    let moved = before.nodes.len() as int;
    Seq::new(
        before.nodes.len() + 1,
        |i: int|
            if i == leaf {
                0nat
            } else if i == moved {
                2 * before.ranks[at as int] + 1
            } else {
                2 * before.ranks[i] + 2
            },
    )
}

/// The parents after the fresh leaf has joined at the place `at`: the
/// leaf and the node that moves to the end of the arena are named by the
/// place `at`, and the children of the node that moves by its new place.
spec fn joined_parents(before: PageMapView, at: usize) -> Seq<Option<usize>> {
    let leaf = before.nodes.len() - 1;
    let moved = before.nodes.len() as int;
    Seq::new(
        before.nodes.len() + 1,
        |i: int|
            if i == leaf || i == moved {
                Some(at)
            } else if before.parents[i] == Some(at) {
                Some(moved as usize)
            } else {
                before.parents[i]
            },
    )
}

/// `after` is `before` with its fresh leaf joined at the place `at`, and
/// with the ranges of the nodes at the places `widened`, which lead from
/// the root down to `at`, widened by the range of the leaf.
spec fn joined(before: PageMapView, after: PageMapView, widened: Set<usize>, at: usize) -> bool {
    let leaf = (before.nodes.len() - 1) as usize;
    let moved = before.nodes.len() as usize;
    let new = before.nodes[leaf as int];
    &&& before.wf()
    &&& before.last_is_fresh()
    &&& before.nodes.len() < usize::MAX
    &&& before.head is Some
    &&& at < leaf
    &&& !widened.contains(at)
    &&& leads_down(before, widened, at)
    &&& before.head == Some(at) || widened.contains(before.head->0)
    &&& forall|w: usize| #[trigger] widened.contains(w) ==> step_down(before, widened, at, w)
    &&& after.head == before.head
    &&& after.nodes.len() == before.nodes.len() + 1
    &&& after.ranks == joined_ranks(before, at)
    &&& after.parents == joined_parents(before, at)
    &&& after.nodes[leaf as int] == new
    &&& after.nodes[moved as int] == before.nodes[at as int]
    &&& after.nodes[at as int] == parent_of(new, leaf, before.nodes[at as int], moved)
    &&& forall|i: int|
        0 <= i < leaf && i != at ==> (#[trigger] after.nodes[i]) == widened_node(
            before,
            widened,
            i,
        )
}

/// The node at the place `i` with its range widened by the range of the
/// fresh leaf where `i` is one of `widened`.
spec fn widened_node(before: PageMapView, widened: Set<usize>, i: int) -> Node {
    if widened.contains(i as usize) {
        Node { range: hull(before.nodes[i].range, before.nodes.last().range), ..before.nodes[i] }
    } else {
        before.nodes[i]
    }
}

/// The place `w` is the root, or a child of one of `widened`.
spec fn leads_down(before: PageMapView, widened: Set<usize>, w: usize) -> bool {
    before.head == Some(w) || (before.parents[w as int] matches Some(parent) && widened.contains(
        parent,
    ))
}

/// The place `w` is a step of the way down to `at`: an inner node before
/// the fresh leaf that is reached from the root through `widened`, and one
/// of whose children is the next step or `at` itself.
spec fn step_down(before: PageMapView, widened: Set<usize>, at: usize, w: usize) -> bool {
    &&& w + 1 < before.nodes.len()
    &&& leads_down(before, widened, w)
    &&& before.nodes[w as int].inner matches NodeInner::Children { less, more } && (less == at
        || more == at || widened.contains(less) || widened.contains(more))
}

/// A place that no step of the way down names as a child, and that is not
/// the root, is neither a step of the way down nor its end.
proof fn lemma_off_the_way(before: PageMapView, widened: Set<usize>, at: usize, parent: int, child: usize)
    requires
        before.wf(),
        leads_down(before, widened, at),
        forall|w: usize| #[trigger] widened.contains(w) ==> step_down(before, widened, at, w),
        0 <= parent < before.nodes.len(),
        !widened.contains(parent as usize),
        before.nodes[parent].inner matches NodeInner::Children { less, more } && (child == less
            || child == more),
    ensures
        child != at,
        !widened.contains(child),
{
    assert(before.in_order(parent));
    assert(before.parents[child as int] == Some(parent as usize));
    if widened.contains(child) {
        assert(step_down(before, widened, at, child));
    }
}

/// The arena is well formed after the fresh leaf has joined.
proof fn lemma_joined_wf(before: PageMapView, after: PageMapView, widened: Set<usize>, at: usize)
    requires
        joined(before, after, widened, at),
    ensures
        after.wf(),
{
    let leaf = (before.nodes.len() - 1) as usize;
    let moved = before.nodes.len() as usize;
    let new = before.nodes[leaf as int];
    let current = before.nodes[at as int];
    let head = before.head->0;
    assert(before.in_order(at as int));
    assert(current == before.nodes[at as int]);
    assert forall|i: int| 0 <= i < after.nodes.len() implies #[trigger] after.in_order(i) by {
        if i == leaf {
            assert(before.nodes.last() == new);
        } else if i == at {
            assert(after.nodes[i].inner == (NodeInner::Children { less: leaf, more: moved })
                || after.nodes[i].inner == (NodeInner::Children { less: moved, more: leaf }));
        } else if i == moved {
            if let NodeInner::Children { less, more } = current.inner {
                assert(before.in_order(less as int));
                assert(before.in_order(more as int));
                lemma_off_the_way(before, widened, at, at as int, less);
                lemma_off_the_way(before, widened, at, at as int, more);
                assert(after.nodes[less as int] == widened_node(before, widened, less as int));
                assert(after.nodes[more as int] == widened_node(before, widened, more as int));
            }
        } else {
            let node = before.nodes[i];
            assert(before.in_order(i));
            assert(after.nodes[i] == widened_node(before, widened, i));
            if let NodeInner::Children { less, more } = node.inner {
                assert(before.in_order(less as int));
                assert(before.in_order(more as int));
                assert(less + 1 < before.nodes.len() && more + 1 < before.nodes.len());
                if less != at {
                    assert(after.nodes[less as int] == widened_node(before, widened, less as int));
                }
                if more != at {
                    assert(after.nodes[more as int] == widened_node(before, widened, more as int));
                }
                if !widened.contains(i as usize) {
                    lemma_off_the_way(before, widened, at, i, less);
                    lemma_off_the_way(before, widened, at, i, more);
                }
            }
        }
    }
    assert(before.parents[head as int] is None);
}

/// What a search finds from any node of the arena on, after the fresh
/// leaf has joined: what it found before, or, inside the range of the
/// leaf, the page information of the leaf.
proof fn lemma_joined_find(
    before: PageMapView,
    after: PageMapView,
    widened: Set<usize>,
    at: usize,
    i: int,
    address: usize,
)
    requires
        joined(before, after, widened, at),
        after.wf(),
        0 <= i < before.nodes.len(),
    ensures
        ({
            let found = after.find_from(after.nodes[i], address);
            let new = before.nodes.last();
            found == before.find_from(before.nodes[i], address) || (new.range.contains(address)
                && found == Some(new.inner->Info_0))
        }),
        i == at ==> ({
            let found = after.find_from(after.nodes[before.nodes.len() as int], address);
            found == before.find_from(before.nodes[i], address) || (before.nodes.last().range.contains(
                address,
            ) && found == Some(before.nodes.last().inner->Info_0))
        }),
    decreases before.ranks[i],
{
    let leaf = (before.nodes.len() - 1) as usize;
    let moved = before.nodes.len() as usize;
    let new = before.nodes[leaf as int];
    let node = before.nodes[i];
    assert(before.in_order(i));
    lemma_find_is_first(before, i, address);
    lemma_find_is_first(after, i, address);
    lemma_find_is_first(after, leaf as int, address);
    lemma_find_is_first(after, moved as int, address);
    if i != at && i != leaf {
        assert(after.nodes[i] == widened_node(before, widened, i));
    }
    if let NodeInner::Children { less, more } = node.inner {
        assert(before.in_order(less as int));
        assert(before.in_order(more as int));
        lemma_joined_find(before, after, widened, at, less as int, address);
        lemma_joined_find(before, after, widened, at, more as int, address);
        if i == at {
            lemma_off_the_way(before, widened, at, at as int, less);
            lemma_off_the_way(before, widened, at, at as int, more);
        }
    }
}

/// Inside the range of the fresh leaf, a search finds something from
/// every step of the way down on, and from its end.
proof fn lemma_joined_found(
    before: PageMapView,
    after: PageMapView,
    widened: Set<usize>,
    at: usize,
    w: usize,
    address: usize,
)
    requires
        joined(before, after, widened, at),
        after.wf(),
        w == at || widened.contains(w),
        before.nodes.last().range.contains(address),
    ensures
        after.find_from(after.nodes[w as int], address) is Some,
    decreases before.ranks[w as int],
{
    let leaf = (before.nodes.len() - 1) as usize;
    let moved = before.nodes.len() as usize;
    lemma_find_is_first(after, w as int, address);
    lemma_find_is_first(after, leaf as int, address);
    if w != at {
        assert(step_down(before, widened, at, w));
        assert(before.in_order(w as int));
        assert(after.nodes[w as int] == widened_node(before, widened, w as int));
        if let NodeInner::Children { less, more } = before.nodes[w as int].inner {
            if less == at || widened.contains(less) {
                lemma_joined_found(before, after, widened, at, less, address);
            } else {
                lemma_joined_found(before, after, widened, at, more, address);
            }
        }
    }
}

/// The fresh leaf is registered once it has joined.
proof fn lemma_joined_registers(
    before: PageMapView,
    after: PageMapView,
    widened: Set<usize>,
    at: usize,
)
    requires
        joined(before, after, widened, at),
    ensures
        after.wf(),
        before.registers(after, before.nodes.last().range, before.nodes.last().inner->Info_0),
{
    lemma_joined_wf(before, after, widened, at);
    let head = before.head->0;
    let new = before.nodes.last();
    assert forall|address: usize| !new.range.contains(address) implies #[trigger] after.lookup(
        address,
    ) == before.lookup(address) by {
        lemma_joined_find(before, after, widened, at, head as int, address);
    }
    assert forall|address: usize| new.range.contains(address) implies (#[trigger] after.lookup(
        address,
    )) is Some && (after.lookup(address) == Some(new.inner->Info_0) || after.lookup(address)
        == before.lookup(address)) by {
        lemma_joined_find(before, after, widened, at, head as int, address);
        lemma_joined_found(before, after, widened, at, head, address);
    }
}

impl Node {
    /// The node that takes this node, at the place `own`, and `other`, at
    /// the place `other_at`, as its children.
    pub fn create_parent_node(&self, own: usize, other: &Node, other_at: usize) -> (parent: Node)
        ensures
            parent == parent_of(*self, own, *other, other_at),
    {
        let inner = if self.range.end < other.range.start {
            NodeInner::Children { less: own, more: other_at }
        } else {
            NodeInner::Children { less: other_at, more: own }
        };
        Node { range: self.range.widened_by(&other.range), inner }
    }

    /// What a search for `address` finds from this node on, in the arena
    /// of `mapping`.
    pub fn find_info_for_ptr(&self, mapping: &PageRangeMapping, address: usize) -> (info: Option<
        PageInfo,
    >)
        requires
            mapping.wf(),
            mapping@.holds_children(*self),
        ensures
            info == mapping@.find_from(*self, address),
    {
        self.find_info(mapping, address)
    }

    fn find_info(&self, mapping: &PageRangeMapping, address: usize) -> (info: Option<PageInfo>)
        requires
            mapping.wf(),
            mapping@.holds_children(*self),
        ensures
            info == mapping@.find_from(*self, address),
        decreases mapping@.reach(*self),
    {
        if self.range.contains(address) {
            match self.inner {
                NodeInner::Info(info) => Some(info),
                NodeInner::Children { less, more } => {
                    proof {
                        assert(mapping@.in_order(less as int));
                        assert(mapping@.in_order(more as int));
                    }
                    let less_node = mapping.node(less);
                    let found = if less_node.range.contains(address) {
                        less_node.find_info(mapping, address)
                    } else {
                        None
                    };
                    match found {
                        Some(info) => Some(info),
                        None => {
                            let more_node = mapping.node(more);
                            if more_node.range.contains(address) {
                                more_node.find_info(mapping, address)
                            } else {
                                None
                            }
                        },
                    }
                },
            }
        } else {
            None
        }
    }
}

/// The page-range mapping.
pub struct PageRangeMapping {
    head: Option<usize>,
    memory_array: Vec<Node>,
    ranks: Ghost<Seq<nat>>,
    parents: Ghost<Seq<Option<usize>>>,
}

impl View for PageRangeMapping {
    type V = PageMapView;

    closed spec fn view(&self) -> PageMapView {
        PageMapView {
            head: self.head,
            nodes: self.memory_array@,
            ranks: self.ranks@,
            parents: self.parents@,
        }
    }
}

impl PageRangeMapping {
    /// The arena is well formed.
    pub open spec fn wf(&self) -> bool {
        self@.wf()
    }

    /// A mapping in which nothing is registered: no address is mapped.
    pub fn new() -> (mapping: PageRangeMapping)
        ensures
            mapping.wf(),
            mapping@ == PageMapView::empty(),
            forall|address: usize| mapping@.lookup(address) is None,
    {
        PageRangeMapping {
            head: None,
            memory_array: Vec::new(),
            ranks: Ghost(Seq::empty()),
            parents: Ghost(Seq::empty()),
        }
    }

    /// Empties the mapping and makes room for `capacity` nodes.
    pub fn init_with_capacity(&mut self, capacity: usize)
        ensures
            final(self).wf(),
            final(self)@ == PageMapView::empty(),
            forall|address: usize| final(self)@.lookup(address) is None,
    {
        self.head = None;
        self.memory_array = Vec::with_capacity(capacity);
        self.ranks = Ghost(Seq::empty());
        self.parents = Ghost(Seq::empty());
    }

    /// The node at the place `at`.
    pub fn node(&self, at: usize) -> (node: Node)
        requires
            at < self@.nodes.len(),
        ensures
            node == self@.nodes[at as int],
    {
        self.memory_array[at]
    }

    /// The number of nodes in the arena.
    pub fn node_count(&self) -> (count: usize)
        ensures
            count == self@.nodes.len(),
    {
        self.memory_array.len()
    }

    /// Puts a leaf with `range` and `info` at the end of the arena, and
    /// returns its place. The leaf is not yet part of the tree: every
    /// address is mapped as before.
    pub fn create_range_node(&mut self, range: AddressRange, info: PageInfo) -> (leaf: usize)
        requires
            old(self).wf(),
        ensures
            final(self).wf(),
            final(self)@ == old(self)@.with_leaf(range, info),
            final(self)@.last_is_fresh(),
            leaf == old(self)@.nodes.len(),
            forall|address: usize| #[trigger]
                final(self)@.lookup(address) == old(self)@.lookup(address),
    {
        let node = Node { range, inner: NodeInner::Info(info) };
        let leaf = self.memory_array.len();
        self.memory_array.push(node);
        proof {
            self.ranks@ = self.ranks@.push(0);
            self.parents@ = self.parents@.push(None);
            lemma_with_leaf(old(self)@, range, info);
        }
        leaf
    }

    /// The page information of `address`; `None` where it is not mapped.
    pub fn get_page_info(&self, address: usize) -> (info: Option<PageInfo>)
        requires
            self.wf(),
        ensures
            info == self@.lookup(address),
    {
        match self.head {
            None => None,
            Some(head) => {
                proof {
                    assert(self@.in_order(head as int));
                }
                let root = self.node(head);
                root.find_info_for_ptr(self, address)
            },
        }
    }

    /// Joins the leaf at the place `leaf`, the last of the arena, to the
    /// tree, and widens by its range the range of every node on the way
    /// down to it.
    fn insert_node(&mut self, leaf: usize)
        requires
            old(self).wf(),
            old(self)@.last_is_fresh(),
            leaf + 1 == old(self)@.nodes.len(),
            leaf + 2 <= usize::MAX,
        ensures
            final(self).wf(),
            old(self)@.registers(
                final(self)@,
                old(self)@.nodes[leaf as int].range,
                old(self)@.nodes[leaf as int].inner->Info_0,
            ),
            final(self)@.head is Some,
            final(self)@.nodes.len() == old(self)@.nodes.len() + (if old(self)@.head is Some {
                1int
            } else {
                0int
            }),
    {
        let ghost before = self@;
        let new = self.memory_array[leaf];
        let range = new.range;
        let head = match self.head {
            None => {
                self.head = Some(leaf);
                proof {
                    let after = self@;
                    assert(before.in_order(leaf as int));
                    assert forall|i: int| 0 <= i < after.nodes.len() implies #[trigger] after.in_order(
                        i,
                    ) by {
                        assert(before.in_order(i));
                    }
                    assert(before.parents[leaf as int] == before.parents.last());
                    lemma_find_is_first(after, leaf as int, 0);
                }
                return ;
            },
            Some(head) => head,
        };
        let ghost mut widened: Set<usize> = Set::empty();
        let mut at = head;
        loop
            invariant
                before.wf(),
                before.last_is_fresh(),
                before.head == Some(head),
                leaf + 1 == before.nodes.len(),
                range == before.nodes[leaf as int].range,
                self.head == before.head,
                self.ranks@ == before.ranks,
                self.parents@ == before.parents,
                self.memory_array@.len() == before.nodes.len(),
                at < leaf,
                !widened.contains(at),
                leads_down(before, widened, at),
                at == head || widened.contains(head),
                forall|w: usize| #[trigger] widened.contains(w) ==> step_down(before, widened, at, w),
                forall|w: usize| #[trigger]
                    widened.contains(w) ==> before.ranks[w as int] > before.ranks[at as int],
                forall|i: int|
                    0 <= i < before.nodes.len() ==> #[trigger] self.memory_array@[i]
                        == widened_node(before, widened, i),
            decreases before.ranks[at as int],
        {
            let current = self.memory_array[at];
            proof {
                assert(before.in_order(at as int));
                assert(current == before.nodes[at as int]);
            }
            match current.inner {
                NodeInner::Info(_) => {
                    break ;
                },
                NodeInner::Children { less, more } => {
                    proof {
                        assert(before.in_order(less as int));
                        assert(before.in_order(more as int));
                        assert(less + 1 < before.nodes.len() && more + 1 < before.nodes.len());
                    }
                    let less_range = self.memory_array[less].range;
                    let more_range = self.memory_array[more].range;
                    let (next, last) = if range.end < less_range.start {
                        (less, true)
                    } else if less_range.start < range.start && less_range.end > range.end {
                        (less, false)
                    } else if range.start > more_range.end {
                        (more, true)
                    } else {
                        break ;
                    };
                    let ghost passed = widened;
                    self.memory_array[at] = Node {
                        range: current.range.widened_by(&range),
                        inner: current.inner,
                    };
                    proof {
                        widened = passed.insert(at);
                        assert forall|w: usize| #[trigger] widened.contains(w) implies step_down(
                            before,
                            widened,
                            next,
                            w,
                        ) by {
                            if w != at {
                                assert(step_down(before, passed, at, w));
                            }
                        }
                    }
                    at = next;
                    if last {
                        break ;
                    }
                },
            }
        }
        let current = self.memory_array[at];
        let moved = self.memory_array.len();
        let parent = new.create_parent_node(leaf, &current, moved);
        self.memory_array.push(current);
        self.memory_array[at] = parent;
        proof {
            self.ranks@ = joined_ranks(before, at);
            self.parents@ = joined_parents(before, at);
            let after = self@;
            assert(before.nodes.last() == before.nodes[leaf as int]);
            assert(joined(before, after, widened, at));
            lemma_joined_registers(before, after, widened, at);
        }
    }

    /// Registers the one address `address` with `info`. Every other
    /// address is mapped as before; `address` is mapped to `info`, unless
    /// it was mapped already, and then to `info` or as before.
    pub fn set_page_info_for_ptr(&mut self, address: usize, info: PageInfo)
        requires
            old(self).wf(),
            old(self)@.nodes.len() + 2 <= usize::MAX,
        ensures
            final(self).wf(),
            old(self)@.registers(
                final(self)@,
                AddressRange { start: address, end: address },
                info,
            ),
            old(self)@.grows_to(final(self)@),
    {
        let range = AddressRange { start: address, end: address };
        let leaf = self.create_range_node(range, info);
        self.insert_node(leaf);
    }

    /// Registers a range of addresses with the descriptor `desc` and the
    /// size class `size_class_index`: the one address `address` where no
    /// superblock size is given, else the `superblock_size` addresses from
    /// `address` on.
    ///
    /// Every address outside the range is mapped as before. Every address
    /// inside it is mapped to the new page information, unless an earlier
    /// range holds it too, and then to the new page information or as
    /// before.
    pub fn update_page_map(
        &mut self,
        superblock_size: Option<usize>,
        address: usize,
        desc: Option<usize>,
        size_class_index: usize,
    )
        requires
            old(self).wf(),
            old(self)@.nodes.len() + 2 <= usize::MAX,
            superblock_size matches Some(size) ==> {
                &&& size % crate::mem_info::PAGE == 0
                &&& 1 <= address + size <= usize::MAX + 1
            },
        ensures
            final(self).wf(),
            old(self)@.registers(
                final(self)@,
                registered_range(superblock_size, address),
                PageInfo { desc, size_class_index },
            ),
            old(self)@.grows_to(final(self)@),
    {
        let mut info = PageInfo::default();
        info.set_ptr(desc, size_class_index);
        match superblock_size {
            None => {
                self.set_page_info_for_ptr(address, info);
            },
            Some(size) => {
                let end: usize = if size == 0 {
                    address - 1
                } else {
                    address + (size - 1)
                };
                let range = AddressRange { start: address, end };
                let leaf = self.create_range_node(range, info);
                self.insert_node(leaf);
            },
        }
    }
}

/// The range that is registered for `address`: the one address where no
/// superblock size is given, else the `superblock_size` addresses from
/// `address` on.
pub open spec fn registered_range(superblock_size: Option<usize>, address: usize) -> AddressRange {
    match superblock_size {
        None => AddressRange { start: address, end: address },
        Some(size) => AddressRange { start: address, end: (address + size - 1) as usize },
    }
}

/// The page information under which `address` was registered last among
/// `entries`, which are ranges with their page information in the order of
/// their registration; `None` where no range holds the address.
pub open spec fn mapped_by(entries: Seq<(AddressRange, PageInfo)>, address: usize) -> Option<
    PageInfo,
>
    decreases entries.len(),
{
    if entries.len() == 0 {
        None
    } else if entries.last().0.contains(address) {
        Some(entries.last().1)
    } else {
        mapped_by(entries.drop_last(), address)
    }
}

/// No two ranges of `entries` share an address.
pub open spec fn share_no_address(entries: Seq<(AddressRange, PageInfo)>) -> bool {
    forall|i: int, j: int, address: usize|
        0 <= i < j < entries.len() ==> !(#[trigger] entries[i].0.contains(address)
            && #[trigger] entries[j].0.contains(address))
}

/// An address that no range of `entries` holds is registered under
/// nothing.
proof fn lemma_mapped_by_none(entries: Seq<(AddressRange, PageInfo)>, address: usize)
    requires
        forall|i: int| 0 <= i < entries.len() ==> !(#[trigger] entries[i]).0.contains(address),
    ensures
        mapped_by(entries, address) is None,
    decreases entries.len(),
{
    if entries.len() > 0 {
        assert(!entries[entries.len() - 1].0.contains(address));
        lemma_mapped_by_none(entries.drop_last(), address);
    }
}

/// Ranges that share no address, registered one after the other in a
/// mapping that was empty, in whatever order: every address of every range
/// is mapped to the page information of that range, and every other
/// address to nothing.
///
/// `states` are the mapping before the first registration, after each
/// one, and `entries` the ranges with their page information.
pub proof fn lemma_disjoint_registrations(
    states: Seq<PageMapView>,
    entries: Seq<(AddressRange, PageInfo)>,
    address: usize,
)
    requires
        states.len() == entries.len() + 1,
        forall|a: usize| states[0].lookup(a) is None,
        forall|k: int|
            0 <= k < entries.len() ==> (#[trigger] states[k]).registers(
                states[k + 1],
                entries[k].0,
                entries[k].1,
            ),
        share_no_address(entries),
    ensures
        states.last().lookup(address) == mapped_by(entries, address),
        forall|j: int|
            0 <= j < entries.len() && (#[trigger] entries[j]).0.contains(address)
                ==> states.last().lookup(address) == Some(entries[j].1),
        (forall|j: int| 0 <= j < entries.len() ==> !(#[trigger] entries[j]).0.contains(address))
            ==> states.last().lookup(address) is None,
    decreases entries.len(),
{
    if entries.len() > 0 {
        let n = entries.len() - 1;
        let earlier = entries.drop_last();
        let before = states.drop_last();
        assert forall|k: int| 0 <= k < earlier.len() implies (#[trigger] before[k]).registers(
            before[k + 1],
            earlier[k].0,
            earlier[k].1,
        ) by {
            assert(states[k].registers(states[k + 1], entries[k].0, entries[k].1));
        }
        assert(share_no_address(earlier)) by {
            assert forall|i: int, j: int, a: usize| 0 <= i < j < earlier.len() implies !(
            #[trigger] earlier[i].0.contains(a) && #[trigger] earlier[j].0.contains(a)) by {
                assert(!(entries[i].0.contains(a) && entries[j].0.contains(a)));
            }
        }
        assert(before[0] == states[0]);
        lemma_disjoint_registrations(before, earlier, address);
        assert(before.last() == states[n]);
        assert(states[n].registers(states[n + 1], entries[n].0, entries[n].1));
        assert(states.last() == states[n + 1]);
        if entries[n].0.contains(address) {
            assert forall|i: int| 0 <= i < earlier.len() implies !(#[trigger] earlier[i]).0.contains(
                address,
            ) by {
                assert(!(entries[i].0.contains(address) && entries[n].0.contains(address)));
            }
            lemma_mapped_by_none(earlier, address);
            assert(states[n + 1].lookup(address) is Some);
        } else {
            assert(states[n + 1].lookup(address) == states[n].lookup(address));
        }
        assert forall|j: int|
            0 <= j < entries.len() && (#[trigger] entries[j]).0.contains(
                address,
            ) implies states.last().lookup(address) == Some(entries[j].1) by {
            if j < n {
                assert(earlier[j] == entries[j]);
                assert(!(entries[j].0.contains(address) && entries[n].0.contains(address)));
            }
        }
        if forall|j: int| 0 <= j < entries.len() ==> !(#[trigger] entries[j]).0.contains(address) {
            assert forall|j: int| 0 <= j < earlier.len() implies !(#[trigger] earlier[j]).0.contains(
                address,
            ) by {
                assert(earlier[j] == entries[j]);
            }
        }
    }
}

} // verus!
