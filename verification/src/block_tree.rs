//! The normalized block tree.
//!
//! A raw block tree comes straight from the external content source. Before
//! rendering it is normalized: a root node representing the page is added,
//! and adjacent blocks that are list items of the same list kind are grouped
//! under one list node.

use vstd::prelude::*;

use crate::notion::Block;
use crate::notion::BlockVariants;

verus! {

/// A node on the normalized block tree.
#[derive(Debug)]
pub struct BlockTree {
    /// Variant of this node.
    pub variant: BlockTreeNodeVariants,

    /// Child nodes of this node on the block tree.
    pub children: Vec<BlockTree>,
}

impl BlockTree {
    /// Create a new block tree node that represents the root of a page.
    pub fn new_page_root() -> (r: Self)
        ensures
            r.variant is PageRoot,
            r.children@.len() == 0,
    {
        Self { variant: BlockTreeNodeVariants::PageRoot, children: Vec::new() }
    }

    /// Create a new block tree node that represents a block in the document.
    pub fn new_block(block: Block) -> (r: Self)
        ensures
            r.variant == BlockTreeNodeVariants::Block(block),
            r.children@.len() == 0,
    {
        Self { variant: BlockTreeNodeVariants::Block(block), children: Vec::new() }
    }

    /// Create a new block tree node that represents a bulleted list.
    pub fn new_bulleted_list() -> (r: Self)
        ensures
            r.variant is BulletedList,
            r.children@.len() == 0,
    {
        Self { variant: BlockTreeNodeVariants::BulletedList, children: Vec::new() }
    }

    /// Create a new block tree node that represents a numbered list.
    pub fn new_numbered_list() -> (r: Self)
        ensures
            r.variant is NumberedList,
            r.children@.len() == 0,
    {
        Self { variant: BlockTreeNodeVariants::NumberedList, children: Vec::new() }
    }

    /// Get the block contained in this block tree node, if any.
    pub fn block(&self) -> (r: Option<&Block>)
        ensures
            match r {
                Option::Some(b) => self.variant == BlockTreeNodeVariants::Block(*b),
                Option::None => !(self.variant is Block),
            },
    {
        if let BlockTreeNodeVariants::Block(block) = &self.variant {
            Some(block)
        } else {
            None
        }
    }

    /// Get the block contained in this block tree node, if any.
    pub fn block_mut(&mut self) -> (r: Option<&mut Block>)
        ensures
            match r {
                Option::Some(b) => old(self).variant == BlockTreeNodeVariants::Block(*b)
                    && final(self).variant == BlockTreeNodeVariants::Block(*final(b))
                    && final(self).children == old(self).children,
                Option::None => !(old(self).variant is Block) && *final(self) == *old(self),
            },
    {
        if let BlockTreeNodeVariants::Block(block) = &mut self.variant {
            Some(block)
        } else {
            None
        }
    }
}

/// Variants of a normalized block tree node.
#[derive(Debug)]
pub enum BlockTreeNodeVariants {
    /// Node that represents a page.
    PageRoot,
    /// Node that represents a single block in the document.
    Block(Block),
    /// Node that represents a bulleted list in the document.
    BulletedList,
    /// Node that represents a numbered list in the document.
    NumberedList,
}

impl BlockTreeNodeVariants {
    /// Determine whether this block tree node variant is the page root.
    pub fn is_page_root(&self) -> (r: bool)
        ensures
            r == (self is PageRoot),
    {
        matches!(self, Self::PageRoot)
    }

    /// Determine whether this block tree node variant is a block node.
    pub fn is_block(&self) -> (r: bool)
        ensures
            r == (self is Block),
    {
        matches!(self, Self::Block(_))
    }

    /// Determine whether this block tree node variant is a bulleted list
    /// node.
    pub fn is_bulleted_list(&self) -> (r: bool)
        ensures
            r == (self is BulletedList),
    {
        matches!(self, Self::BulletedList)
    }

    /// Determine whether this block tree node variant is a numbered list
    /// node.
    pub fn is_numbered_list(&self) -> (r: bool)
        ensures
            r == (self is NumberedList),
    {
        matches!(self, Self::NumberedList)
    }
}

/// A node in the raw block tree, as built directly from the responses of
/// the external content source.
#[derive(Debug)]
pub struct RawBlockTree {
    /// Block contained in the node.
    pub block: Block,

    /// Child nodes of this raw block tree node.
    pub children: Vec<RawBlockTree>,
}

impl RawBlockTree {
    /// Create a new raw block tree node with no children.
    pub fn new(block: Block) -> (r: Self)
        ensures
            r.block == block,
            r.children@.len() == 0,
    {
        Self { block, children: Vec::new() }
    }
}

/// Whether a block is a list item, and of which list kind; two adjacent
/// list items of the same kind are grouped under one list node. `false`
/// stands for a bulleted and `true` for a numbered list item.
pub open spec fn list_kind_of(b: Block) -> Option<bool> {
    match b.variant {
        BlockVariants::BulletedListItem(item) => Option::Some(false),
        BlockVariants::NumberedListItem(item) => Option::Some(true),
        _ => Option::None,
    }
}

/// The node variant that groups list items of the given kind: a numbered
/// list when `is_numbered` is true, a bulleted list otherwise.
pub open spec fn list_variant_of(is_numbered: bool) -> BlockTreeNodeVariants {
    if is_numbered {
        BlockTreeNodeVariants::NumberedList
    } else {
        BlockTreeNodeVariants::BulletedList
    }
}

/// The length of the maximal leading run of list items of the given kind.
pub open spec fn run_len(raw: Seq<RawBlockTree>, is_numbered: bool) -> nat
    decreases raw.len(),
{
    if raw.len() == 0 || list_kind_of(raw[0].block) != Option::Some(is_numbered) {
        0
    } else {
        run_len(raw.subrange(1, raw.len() as int), is_numbered) + 1
    }
}

/// Whether `t` is the normalization of the raw tree `r`: a block node
/// holding `r`'s block, whose children are the normalization of `r`'s
/// children.
pub open spec fn is_normalized_node(r: RawBlockTree, t: BlockTree) -> bool
    decreases r, 0int, 0int,
{
    &&& t.variant == BlockTreeNodeVariants::Block(r.block)
    &&& is_normalized_forest(r.children@, t.children@)
}

/// Whether the first `n` trees of `raw`, each normalized, are exactly the
/// nodes of `out`, in order.
pub open spec fn are_normalized_prefix(raw: Seq<RawBlockTree>, n: int, out: Seq<BlockTree>) -> bool
    decreases raw, 0int, n,
{
    if n <= 0 {
        out.len() == 0
    } else {
        &&& n <= raw.len()
        &&& out.len() == n
        &&& is_normalized_node(raw[n - 1], out[n - 1])
        &&& are_normalized_prefix(raw, n - 1, out.drop_last())
    }
}

/// Whether `out` is the normalization of the raw forest `raw`. Each raw tree
/// appears exactly once, in order: a tree whose block is not a list item
/// becomes one block node, and each maximal run of adjacent list items of
/// one kind is wrapped under exactly one list node holding the items'
/// normalizations in order. The same holds recursively below every node.
pub open spec fn is_normalized_forest(raw: Seq<RawBlockTree>, out: Seq<BlockTree>) -> bool
    decreases raw, 1int, 0int,
    via is_normalized_forest_decreases
{
    if raw.len() == 0 {
        out.len() == 0
    } else {
        match list_kind_of(raw[0].block) {
            Option::None => {
                &&& out.len() > 0
                &&& is_normalized_node(raw[0], out[0])
                &&& is_normalized_forest(raw.subrange(1, raw.len() as int), out.drop_first())
            },
            Option::Some(is_numbered) => {
                let n = run_len(raw, is_numbered) as int;
                &&& out.len() > 0
                &&& out[0].variant == list_variant_of(is_numbered)
                &&& are_normalized_prefix(raw, n, out[0].children@)
                &&& is_normalized_forest(raw.subrange(n, raw.len() as int), out.drop_first())
            },
        }
    }
}

/// The leading run is never longer than the sequence itself.
proof fn lemma_run_len_bound(s: Seq<RawBlockTree>, is_numbered: bool)
    ensures
        run_len(s, is_numbered) <= s.len(),
    decreases s.len(),
{
    if s.len() != 0 && list_kind_of(s[0].block) == Option::Some(is_numbered) {
        lemma_run_len_bound(s.subrange(1, s.len() as int), is_numbered);
    }
}

#[via_fn]
proof fn is_normalized_forest_decreases(raw: Seq<RawBlockTree>, out: Seq<BlockTree>) {
    if raw.len() > 0 {
        match list_kind_of(raw[0].block) {
            Option::Some(is_numbered) => {
                lemma_run_len_bound(raw, is_numbered);
            },
            Option::None => {},
        }
    }
}

/// A leading run of exactly `n` items of the given kind, followed by
/// nothing or by a block of another kind, has run length exactly `n`.
proof fn lemma_run_len_exact(s: Seq<RawBlockTree>, is_numbered: bool, n: int)
    requires
        0 <= n <= s.len(),
        forall|j: int|
            0 <= j < n ==> list_kind_of((#[trigger] s[j]).block) == Option::Some(is_numbered),
        n < s.len() ==> list_kind_of(s[n].block) != Option::Some(is_numbered),
    ensures
        run_len(s, is_numbered) == n,
    decreases n,
{
    if n == 0 {
        assert(run_len(s, is_numbered) == 0);
    } else {
        let s1 = s.subrange(1, s.len() as int);
        assert forall|j: int|
            0 <= j < n - 1 implies list_kind_of((#[trigger] s1[j]).block) == Option::Some(
            is_numbered,
        ) by {
            assert(s1[j] == s[j + 1]);
        }
        if n - 1 < s1.len() {
            assert(s1[n - 1] == s[n]);
        }
        lemma_run_len_exact(s1, is_numbered, n - 1);
    }
}

/// The list kind of a block, decided in executable code.
fn block_list_kind(b: &Block) -> (r: Option<bool>)
    ensures
        r == list_kind_of(*b),
{
    match &b.variant {
        BlockVariants::BulletedListItem(_) => Some(false),
        BlockVariants::NumberedListItem(_) => Some(true),
        _ => None,
    }
}

/// Whether the next raw tree continues a run of list items of the given
/// kind.
fn run_continues(rest: &Vec<RawBlockTree>, is_numbered: bool) -> (r: bool)
    ensures
        r == (rest@.len() > 0 && list_kind_of(rest@[0].block) == Option::Some(is_numbered)),
{
    if rest.len() == 0 {
        false
    } else {
        match block_list_kind(&rest[0].block) {
            Some(b) => b == is_numbered,
            None => false,
        }
    }
}

/// Normalize raw block trees into a block tree: the nodes become children
/// of a fresh page root, with adjacent list items of the same kind grouped,
/// recursively, and the blocks' depth-first order kept.
pub fn normalize(raw: Vec<RawBlockTree>) -> (r: BlockTree)
    ensures
        r.variant is PageRoot,
        is_normalized_forest(raw@, r.children@),
{
    let mut root = BlockTree::new_page_root();
    normalize_as_children(raw, &mut root);
    proof {
        assert(root.children@.skip(0) =~= root.children@);
    }
    root
}

/// Attach the normalization of the given raw trees as children of `root`,
/// after the children `root` already has, which stay as they are.
#[verifier::loop_isolation(false)]
#[verifier::rlimit(100)]
pub fn normalize_as_children(raw: Vec<RawBlockTree>, root: &mut BlockTree)
    ensures
        final(root).variant == old(root).variant,
        final(root).children@.len() >= old(root).children@.len(),
        final(root).children@.take(old(root).children@.len() as int) == old(root).children@,
        is_normalized_forest(
            raw@,
            final(root).children@.skip(old(root).children@.len() as int),
        ),
    decreases raw@,
{
    let ghost entry = raw@;
    let ghost base = old(root).children@;
    let mut rest = raw;
    let mut consumed: usize = 0;
    let total: usize = rest.len();
    proof {
        assert(entry.len() == total as int);
        assert(rest@ =~= entry.skip(0));
        assert(root.children@.take(base.len() as int) =~= base);
    }
    while rest.len() > 0
        invariant
            rest@ == entry.skip(consumed as int),
            entry.len() <= usize::MAX,
            consumed <= entry.len(),
            root.variant == old(root).variant,
            root.children@.len() >= base.len(),
            root.children@.take(base.len() as int) == base,
            forall|t: Seq<BlockTree>|
                #[trigger] is_normalized_forest(entry.skip(consumed as int), t)
                    ==> is_normalized_forest(
                    entry,
                    root.children@.skip(base.len() as int) + t,
                ),
        decreases rest.len(),
    {
        let ghost c0 = consumed as int;
        let ghost emitted0 = root.children@.skip(base.len() as int);
        proof {
            assert(entry.skip(c0).len() > 0);
        }
        let raw_tree = rest.remove(0);
        proof {
            assert(raw_tree == entry[c0]);
            assert(entry.skip(c0).drop_first() =~= entry.skip(c0 + 1));
        }
        let kind = block_list_kind(&raw_tree.block);
        let mut tree = BlockTree::new_block(raw_tree.block);
        normalize_as_children(raw_tree.children, &mut tree);
        proof {
            assert(tree.children@.skip(0) =~= tree.children@);
            assert(is_normalized_node(entry[c0], tree));
        }
        consumed = consumed + 1;
        match kind {
            None => {
                root.children.push(tree);
                proof {
                    assert(root.children@.take(base.len() as int) =~= base);
                    assert(root.children@.skip(base.len() as int) =~= emitted0.push(tree));
                    assert forall|t: Seq<BlockTree>|
                        #[trigger] is_normalized_forest(
                            entry.skip(consumed as int),
                            t,
                        ) implies is_normalized_forest(
                        entry,
                        root.children@.skip(base.len() as int) + t,
                    ) by {
                        let s = entry.skip(c0);
                        let out1 = seq![tree] + t;
                        assert(s[0] == entry[c0]);
                        assert(out1[0] == tree);
                        assert(out1.drop_first() =~= t);
                        assert(s.subrange(1, s.len() as int) =~= entry.skip(consumed as int));
                        assert(is_normalized_forest(s, out1));
                        assert(is_normalized_forest(entry, emitted0 + out1));
                        assert(emitted0 + out1 =~= root.children@.skip(base.len() as int) + t);
                    }
                }
            },
            Some(is_numbered) => {
                let ghost gstart = c0;
                let mut list_node = if is_numbered {
                    BlockTree::new_numbered_list()
                } else {
                    BlockTree::new_bulleted_list()
                };
                list_node.children.push(tree);
                proof {
                    assert(list_node.children@ =~= seq![tree]);
                    assert(list_node.children@.drop_last() =~= Seq::<BlockTree>::empty());
                    assert(entry.skip(gstart)[0] == entry[gstart]);
                    assert(are_normalized_prefix(entry.skip(gstart), 0, Seq::<BlockTree>::empty()));
                    assert(are_normalized_prefix(entry.skip(gstart), 1, list_node.children@));
                }
                while run_continues(&rest, is_numbered)
                    invariant
                        rest@ == entry.skip(consumed as int),
                        entry.len() <= usize::MAX,
                        gstart < consumed as int <= entry.len(),
                        list_node.variant == list_variant_of(is_numbered),
                        list_node.children@.len() == consumed as int - gstart,
                        are_normalized_prefix(
                            entry.skip(gstart),
                            consumed as int - gstart,
                            list_node.children@,
                        ),
                        forall|j: int|
                            gstart <= j < consumed as int ==> list_kind_of(
                                (#[trigger] entry[j]).block,
                            ) == Option::Some(is_numbered),
                    decreases rest.len(),
                {
                    let ghost cc = consumed as int;
                    proof {
                        assert(entry.skip(cc)[0] == entry[cc]);
                    }
                    let raw_next = rest.remove(0);
                    proof {
                        assert(raw_next == entry[cc]);
                        assert(entry.skip(cc).drop_first() =~= entry.skip(cc + 1));
                    }
                    let mut item = BlockTree::new_block(raw_next.block);
                    normalize_as_children(raw_next.children, &mut item);
                    proof {
                        assert(item.children@.skip(0) =~= item.children@);
                        assert(is_normalized_node(entry[cc], item));
                    }
                    let ghost lc0 = list_node.children@;
                    list_node.children.push(item);
                    consumed = consumed + 1;
                    proof {
                        let s = entry.skip(gstart);
                        let m = consumed as int - gstart;
                        assert(s[m - 1] == entry[consumed as int - 1]);
                        assert(list_node.children@ =~= lc0.push(item));
                        assert(list_node.children@.drop_last() =~= lc0);
                        assert(are_normalized_prefix(s, m, list_node.children@));
                    }
                }
                root.children.push(list_node);
                proof {
                    let s = entry.skip(gstart);
                    let n = consumed as int - gstart;
                    assert forall|j: int|
                        0 <= j < n implies list_kind_of((#[trigger] s[j]).block) == Option::Some(
                        is_numbered,
                    ) by {
                        assert(s[j] == entry[gstart + j]);
                    }
                    if n < s.len() {
                        assert(s[n] == entry[consumed as int]);
                        assert(entry.skip(consumed as int)[0] == entry[consumed as int]);
                        assert(list_kind_of(s[n].block) != Option::Some(is_numbered));
                    }
                    lemma_run_len_exact(s, is_numbered, n);
                    assert(root.children@.take(base.len() as int) =~= base);
                    assert(root.children@.skip(base.len() as int) =~= emitted0.push(list_node));
                    assert forall|t: Seq<BlockTree>|
                        #[trigger] is_normalized_forest(
                            entry.skip(consumed as int),
                            t,
                        ) implies is_normalized_forest(
                        entry,
                        root.children@.skip(base.len() as int) + t,
                    ) by {
                        let out1 = seq![list_node] + t;
                        assert(out1[0] == list_node);
                        assert(out1.drop_first() =~= t);
                        assert(s[0] == entry[gstart]);
                        assert(s.subrange(n, s.len() as int) =~= entry.skip(consumed as int));
                        assert(is_normalized_forest(s, out1));
                        assert(is_normalized_forest(entry, emitted0 + out1));
                        assert(emitted0 + out1 =~= root.children@.skip(base.len() as int) + t);
                    }
                }
            },
        }
    }
    proof {
        assert(entry.skip(consumed as int) =~= Seq::<RawBlockTree>::empty());
        assert(is_normalized_forest(entry.skip(consumed as int), Seq::<BlockTree>::empty()));
        assert(root.children@.skip(base.len() as int) + Seq::<BlockTree>::empty()
            =~= root.children@.skip(base.len() as int));
    }
}

} // verus!
