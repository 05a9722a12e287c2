//! Bounded block-tree materialization.
//!
//! Fetching children is I/O, so the walk is a state machine: the caller asks
//! which block to fetch children for, performs the request, and hands the
//! result back; every insertion decision is made and proved here. The pure
//! function [`expand_list`] says what the finished walk yields, given the
//! children each fetched block turned out to have.

use vstd::prelude::*;

use crate::notion::{is_children_marker, Block};

verus! {

/// One element of an expanded tree, up to string identity: a real block, or
/// the synthetic `children` marker with its id text.
pub enum BlockItem {
    Real(Block),
    Marker(Seq<char>),
}

/// The id of the marker that follows a parent block.
pub open spec fn marker_id(parent: Seq<char>) -> Seq<char> {
    parent + "::children"@
}

/// How a block reads as a tree element.
pub open spec fn block_item(b: Block) -> BlockItem {
    if is_children_marker(b) {
        BlockItem::Marker(b.id@)
    } else {
        BlockItem::Real(b)
    }
}

/// The tree elements of a block sequence.
pub open spec fn items_view(s: Seq<Block>) -> Seq<BlockItem> {
    s.map_values(|b: Block| block_item(b))
}

/// The expansion of one block with remaining budget `d`: the block itself,
/// then, when it has children, budget remains and its children are recorded,
/// its marker and those children expanded with budget `d - 1`.
pub open spec fn expand_one(b: Block, d: nat, m: Map<Seq<char>, Seq<Block>>) -> Seq<BlockItem>
    decreases d, 0nat, 0nat,
{
    seq![block_item(b)] + (if b.has_children && d > 0 && m.dom().contains(b.id@) {
        seq![BlockItem::Marker(marker_id(b.id@))] + expand_list(m[b.id@], (d - 1) as nat, m)
    } else {
        Seq::empty()
    })
}

/// The expansion of a block list, in order.
pub open spec fn expand_list(bs: Seq<Block>, d: nat, m: Map<Seq<char>, Seq<Block>>) -> Seq<
    BlockItem,
>
    decreases d, bs.len(), 1nat,
{
    if bs.len() == 0 {
        Seq::empty()
    } else {
        expand_one(bs[0], d, m) + expand_list(bs.drop_first(), d, m)
    }
}

/// The expansion of pending (block, budget) pairs, in order.
pub open spec fn expand_pairs(ps: Seq<(Block, usize)>, m: Map<Seq<char>, Seq<Block>>) -> Seq<
    BlockItem,
>
    decreases ps.len(),
{
    if ps.len() == 0 {
        Seq::empty()
    } else {
        expand_one(ps[0].0, ps[0].1 as nat, m) + expand_pairs(ps.drop_first(), m)
    }
}

/// Blocks paired with one budget.
pub open spec fn pairs_with(bs: Seq<Block>, d: usize) -> Seq<(Block, usize)> {
    bs.map_values(|b: Block| (b, d))
}

/// Expanding blocks all paired with one budget is expanding the list.
pub proof fn lemma_pairs_expand(bs: Seq<Block>, d: usize, m: Map<Seq<char>, Seq<Block>>)
    ensures
        expand_pairs(pairs_with(bs, d), m) == expand_list(bs, d as nat, m),
    decreases bs.len(),
{
    if bs.len() > 0 {
        lemma_pairs_expand(bs.drop_first(), d, m);
        assert(pairs_with(bs, d).drop_first() =~= pairs_with(bs.drop_first(), d));
        assert(pairs_with(bs, d)[0] == (bs[0], d));
    }
}

/// Expansion distributes over concatenation of pending pairs.
pub proof fn lemma_expand_pairs_append(
    a: Seq<(Block, usize)>,
    b: Seq<(Block, usize)>,
    m: Map<Seq<char>, Seq<Block>>,
)
    ensures
        expand_pairs(a + b, m) == expand_pairs(a, m) + expand_pairs(b, m),
    decreases a.len(),
{
    if a.len() == 0 {
        assert(a + b =~= b);
        assert(expand_pairs(a, m) + expand_pairs(b, m) =~= expand_pairs(b, m));
    } else {
        lemma_expand_pairs_append(a.drop_first(), b, m);
        assert((a + b).drop_first() =~= a.drop_first() + b);
        assert((a + b)[0] == a[0]);
        assert(expand_one(a[0].0, a[0].1 as nat, m) + (expand_pairs(a.drop_first(), m)
            + expand_pairs(b, m)) =~= (expand_one(a[0].0, a[0].1 as nat, m) + expand_pairs(
            a.drop_first(),
            m,
        )) + expand_pairs(b, m));
    }
}

/// A budget of zero expands to the list itself: a flat walk, no markers.
pub proof fn lemma_expand_depth_zero(bs: Seq<Block>, m: Map<Seq<char>, Seq<Block>>)
    ensures
        expand_list(bs, 0, m) == items_view(bs),
    decreases bs.len(),
{
    if bs.len() == 0 {
        assert(expand_list(bs, 0, m) =~= items_view(bs));
    } else {
        lemma_expand_depth_zero(bs.drop_first(), m);
        assert(expand_one(bs[0], 0, m) =~= seq![block_item(bs[0])]);
        assert(items_view(bs.drop_first()) =~= items_view(bs).drop_first());
        assert(expand_list(bs, 0, m) =~= items_view(bs));
    }
}

/// No block in the list is itself a `children` marker.
pub open spec fn all_real(bs: Seq<Block>) -> bool {
    forall|i: int| 0 <= i < bs.len() ==> !is_children_marker(#[trigger] bs[i])
}

/// Every fetched children list is free of marker-typed blocks.
pub open spec fn oracle_real(m: Map<Seq<char>, Seq<Block>>) -> bool {
    forall|id: Seq<char>| #[trigger] m.dom().contains(id) ==> all_real(m[id])
}

/// The shape of a well-formed expansion: every `children` marker immediately
/// follows a real block and carries that block's marker id; the sequence
/// never starts with a marker.
pub open spec fn markers_follow_parents(s: Seq<BlockItem>) -> bool {
    &&& forall|i: int|
        0 <= i < s.len() && (#[trigger] s[i]) is Marker ==> i >= 1 && s[i - 1] is Real && s[i]
            ->Marker_0 == marker_id(s[i - 1]->Real_0.id@)
    &&& s.len() > 0 ==> s[0] is Real
}

/// Concatenation preserves the shape.
proof fn lemma_markers_append(a: Seq<BlockItem>, b: Seq<BlockItem>)
    requires
        markers_follow_parents(a),
        markers_follow_parents(b),
    ensures
        markers_follow_parents(a + b),
{
    let s = a + b;
    assert forall|i: int| 0 <= i < s.len() && (#[trigger] s[i]) is Marker implies i >= 1 && s[i
        - 1] is Real && s[i]->Marker_0 == marker_id(s[i - 1]->Real_0.id@) by {
        if i < a.len() {
            assert(s[i] == a[i]);
            assert(s[i - 1] == a[i - 1]);
        } else if i == a.len() {
            assert(s[i] == b[0]);
        } else {
            assert(s[i] == b[i - a.len()]);
            assert(s[i - 1] == b[i - a.len() - 1]);
        }
    }
    if s.len() > 0 {
        if a.len() > 0 {
            assert(s[0] == a[0]);
        } else {
            assert(s[0] == b[0]);
        }
    }
}

/// Every children marker in an expansion immediately follows the real block
/// whose children it introduces, provided neither the roots nor any fetched
/// children list holds a marker-typed block.
pub proof fn lemma_expansion_shape(bs: Seq<Block>, d: nat, m: Map<Seq<char>, Seq<Block>>)
    requires
        all_real(bs),
        oracle_real(m),
    ensures
        markers_follow_parents(expand_list(bs, d, m)),
    decreases d, bs.len(), 1nat,
{
    if bs.len() > 0 {
        lemma_expansion_shape_one(bs[0], d, m);
        assert(all_real(bs.drop_first())) by {
            assert(forall|i: int|
                0 <= i < bs.drop_first().len() ==> bs.drop_first()[i] == bs[i + 1]);
        }
        lemma_expansion_shape(bs.drop_first(), d, m);
        lemma_markers_append(expand_one(bs[0], d, m), expand_list(bs.drop_first(), d, m));
    }
}

proof fn lemma_expansion_shape_one(b: Block, d: nat, m: Map<Seq<char>, Seq<Block>>)
    requires
        !is_children_marker(b),
        oracle_real(m),
    ensures
        markers_follow_parents(expand_one(b, d, m)),
    decreases d, 0nat, 0nat,
{
    let s = expand_one(b, d, m);
    assert(block_item(b) is Real);
    if b.has_children && d > 0 && m.dom().contains(b.id@) {
        lemma_expansion_shape(m[b.id@], (d - 1) as nat, m);
        let tail = expand_list(m[b.id@], (d - 1) as nat, m);
        assert forall|i: int| 0 <= i < s.len() && (#[trigger] s[i]) is Marker implies i >= 1 && s[i
            - 1] is Real && s[i]->Marker_0 == marker_id(s[i - 1]->Real_0.id@) by {
            if i == 1 {
                assert(s[0] == block_item(b));
                assert(s[1] == BlockItem::Marker(marker_id(b.id@)));
            } else if i >= 2 {
                assert(s[i] == tail[i - 2]);
                if i >= 3 {
                    assert(s[i - 1] == tail[i - 3]);
                } else {
                    assert(s[i - 1] == BlockItem::Marker(marker_id(b.id@)));
                    assert(tail[0] is Marker);
                }
            }
        }
    } else {
        assert(s =~= seq![block_item(b)]);
    }
}

/// Appending the marker suffix is injective.
pub proof fn lemma_marker_id_injective(a: Seq<char>, b: Seq<char>)
    requires
        marker_id(a) == marker_id(b),
    ensures
        a == b,
{
    reveal_strlit("::children");
    assert(marker_id(a).len() == a.len() + "::children"@.len());
    assert(marker_id(b).len() == b.len() + "::children"@.len());
    assert(a.len() == b.len());
    assert forall|i: int| 0 <= i < a.len() implies a[i] == b[i] by {
        assert(marker_id(a)[i] == a[i]);
        assert(marker_id(b)[i] == b[i]);
    }
    assert(a =~= b);
}

/// The tree walk in progress: finished output in front, pending blocks with
/// their remaining budgets behind, and, as ghosts, the children recorded from
/// every fetch, the starting point, whether every fetched id was fresh, and
/// whether every block handed in was free of marker-typed blocks.
pub struct BlockFetcher {
    pub done: Vec<Block>,
    pub todo: Vec<(Block, usize)>,
    pub oracle: Ghost<Map<Seq<char>, Seq<Block>>>,
    pub init_roots: Ghost<Seq<Block>>,
    pub init_depth: Ghost<nat>,
    pub clean: Ghost<bool>,
    pub sources_real: Ghost<bool>,
}

impl BlockFetcher {
    /// The walk's promise: however the remaining fetches come out, output so
    /// far plus the expansion of what is pending equals the expansion of the
    /// starting point (as long as no id was fetched twice).
    pub open spec fn wf(&self) -> bool {
        self.clean@ ==> forall|n: Map<Seq<char>, Seq<Block>>|
            #[trigger] self.oracle@.submap_of(n) ==> items_view(self.done@) + expand_pairs(
                self.todo@,
                n,
            ) == expand_list(self.init_roots@, self.init_depth@, n)
    }

    /// The marker bookkeeping: when every fetched id was fresh and no handed-in
    /// block was marker-typed, the markers in the output carry the ids of
    /// fetched blocks and are pairwise distinct — no parent ever gets two.
    pub open spec fn markers_ok(&self) -> bool {
        self.clean@ && self.sources_real@ ==> {
            &&& forall|t: int|
                0 <= t < self.todo@.len() ==> !is_children_marker((#[trigger] self.todo@[t]).0)
            &&& forall|p: int|
                0 <= p < self.done@.len() && is_children_marker(#[trigger] self.done@[p])
                    ==> exists|x: Seq<char>|
                    self.oracle@.dom().contains(x) && self.done@[p].id@ == marker_id(x)
            &&& forall|p: int, q: int|
                0 <= p < q < self.done@.len() && is_children_marker(#[trigger] self.done@[p])
                    && is_children_marker(#[trigger] self.done@[q]) ==> self.done@[p].id@
                    != self.done@[q].id@
        }
    }

    /// Whether the next pending block needs its children fetched.
    pub open spec fn needs_fetch(&self) -> bool {
        self.todo@.len() > 0 && self.todo@[0].0.has_children && self.todo@[0].1 > 0
    }

    /// Starts a walk from the given root children and depth budget.
    pub fn new(roots: Vec<Block>, depth: usize) -> (r: Self)
        ensures
            r.wf(),
            r.markers_ok(),
            r.done@ == Seq::<Block>::empty(),
            r.todo@ == pairs_with(r.init_roots@, depth),
            r.oracle@ == Map::<Seq<char>, Seq<Block>>::empty(),
            r.init_roots@.len() == r.todo@.len(),
            r.init_depth@ == depth as nat,
            r.clean@ == true,
            r.sources_real@ == all_real(r.init_roots@),
    {
        let ghost roots0 = roots@;
        let mut rest = roots;
        let mut todo: Vec<(Block, usize)> = Vec::new();
        while rest.len() > 0
            invariant
                pairs_with(rest@, depth) + todo@ == pairs_with(roots0, depth),
            decreases rest@.len(),
        {
            let b = rest.pop().unwrap();
            todo.insert(0, (b, depth));
            proof {
                assert(pairs_with(rest@, depth) + todo@ =~= pairs_with(roots0, depth));
            }
        }
        proof {
            assert(pairs_with(rest@, depth) + todo@ =~= todo@);
        }
        let r = BlockFetcher {
            done: Vec::new(),
            todo,
            oracle: Ghost(Map::empty()),
            init_roots: Ghost(roots0),
            init_depth: Ghost(depth as nat),
            clean: Ghost(true),
            sources_real: Ghost(all_real(roots0)),
        };
        proof {
            assert forall|n: Map<Seq<char>, Seq<Block>>| #[trigger]
                r.oracle@.submap_of(n) implies items_view(r.done@) + expand_pairs(r.todo@, n)
                == expand_list(r.init_roots@, r.init_depth@, n) by {
                lemma_pairs_expand(roots0, depth, n);
                assert(items_view(r.done@) + expand_pairs(r.todo@, n) =~= expand_pairs(
                    r.todo@,
                    n,
                ));
            }
            if r.clean@ && r.sources_real@ {
                assert(forall|t: int|
                    0 <= t < r.todo@.len() ==> (#[trigger] r.todo@[t]).0 == roots0[t]);
            }
        }
        r
    }

    /// Whether the walk is finished.
    pub fn is_done(&self) -> (r: bool)
        ensures
            r == (self.todo@.len() == 0),
    {
        self.todo.len() == 0
    }

    /// The id whose children the caller must fetch next, if the next pending
    /// block needs them.
    pub fn next_fetch(&self) -> (r: Option<String>)
        ensures
            match r {
                Some(id) => self.needs_fetch() && id@ == self.todo@[0].0.id@,
                None => !self.needs_fetch(),
            },
    {
        if self.todo.len() > 0 {
            let head = &self.todo[0];
            if head.0.has_children && head.1 > 0 {
                Some(head.0.id.clone())
            } else {
                None
            }
        } else {
            None
        }
    }

    /// Moves the next pending block to the output unchanged (it needs no
    /// fetch).
    pub fn advance(&mut self)
        requires
            old(self).wf(),
            old(self).markers_ok(),
            old(self).todo@.len() > 0,
            !old(self).needs_fetch(),
        ensures
            final(self).wf(),
            final(self).markers_ok(),
            final(self).done@ == old(self).done@.push(old(self).todo@[0].0),
            final(self).todo@ == old(self).todo@.drop_first(),
            final(self).oracle@ == old(self).oracle@,
            final(self).init_roots@ == old(self).init_roots@,
            final(self).init_depth@ == old(self).init_depth@,
            final(self).clean@ == old(self).clean@,
            final(self).sources_real@ == old(self).sources_real@,
    {
        let ghost pre = *self;
        let pair = self.todo.remove(0);
        self.done.push(pair.0);
        proof {
            assert(self.todo@ =~= pre.todo@.drop_first());
            if pre.clean@ {
                assert forall|n: Map<Seq<char>, Seq<Block>>| #[trigger]
                    self.oracle@.submap_of(n) implies items_view(self.done@) + expand_pairs(
                    self.todo@,
                    n,
                ) == expand_list(self.init_roots@, self.init_depth@, n) by {
                    assert(pre.oracle@.submap_of(n));
                    let head = pre.todo@[0];
                    assert(expand_one(head.0, head.1 as nat, n) =~= seq![block_item(head.0)]);
                    assert(items_view(self.done@) + expand_pairs(self.todo@, n) =~= items_view(
                        pre.done@,
                    ) + expand_pairs(pre.todo@, n));
                }
            }
            if pre.clean@ && pre.sources_real@ {
                assert(!is_children_marker(pre.todo@[0].0));
                assert(forall|t: int|
                    0 <= t < self.todo@.len() ==> (#[trigger] self.todo@[t]) == pre.todo@[t + 1]);
                assert(forall|p: int|
                    0 <= p < pre.done@.len() ==> #[trigger] self.done@[p] == pre.done@[p]);
                assert(self.done@.last() == pre.todo@[0].0);
                assert forall|p: int|
                    0 <= p < self.done@.len() && is_children_marker(
                        #[trigger] self.done@[p],
                    ) implies exists|x: Seq<char>|
                    self.oracle@.dom().contains(x) && self.done@[p].id@ == marker_id(x) by {
                    assert(p < pre.done@.len());
                    assert(is_children_marker(pre.done@[p]));
                }
            }
        }
    }

    /// Hands the walk the children fetched for the next pending block: the
    /// block and its marker go to the output, the children join the front of
    /// the pending list with one budget less.
    pub fn supply_children(&mut self, children: Vec<Block>)
        requires
            old(self).wf(),
            old(self).markers_ok(),
            old(self).needs_fetch(),
        ensures
            final(self).wf(),
            final(self).markers_ok(),
            items_view(final(self).done@) == items_view(old(self).done@) + seq![
                block_item(old(self).todo@[0].0),
                BlockItem::Marker(marker_id(old(self).todo@[0].0.id@)),
            ],
            final(self).todo@ == pairs_with(children@, (old(self).todo@[0].1 - 1) as usize) + old(
                self,
            ).todo@.drop_first(),
            final(self).oracle@ == old(self).oracle@.insert(old(self).todo@[0].0.id@, children@),
            final(self).init_roots@ == old(self).init_roots@,
            final(self).init_depth@ == old(self).init_depth@,
            final(self).clean@ == (old(self).clean@ && !old(self).oracle@.dom().contains(
                old(self).todo@[0].0.id@,
            )),
            final(self).sources_real@ == (old(self).sources_real@ && all_real(children@)),
    {
        let ghost pre = *self;
        let ghost cs = children@;
        let pair = self.todo.remove(0);
        let depth_left = pair.1;
        let marker = Block::children_marker(pair.0.id.as_str());
        self.done.push(pair.0);
        self.done.push(marker);
        let mut rest = children;
        while rest.len() > 0
            invariant
                pairs_with(rest@, (depth_left - 1) as usize) + self.todo@ == pairs_with(
                    cs,
                    (depth_left - 1) as usize,
                ) + pre.todo@.drop_first(),
                depth_left == pre.todo@[0].1,
                pre.todo@.len() > 0,
                depth_left > 0,
                self.done@ == pre.done@.push(pre.todo@[0].0).push(marker),
                self.oracle == pre.oracle,
                self.init_roots == pre.init_roots,
                self.init_depth == pre.init_depth,
                self.clean == pre.clean,
                self.sources_real == pre.sources_real,
            decreases rest@.len(),
        {
            let b = rest.pop().unwrap();
            self.todo.insert(0, (b, depth_left - 1));
            proof {
                assert(pairs_with(rest@, (depth_left - 1) as usize) + self.todo@ =~= pairs_with(
                    cs,
                    (depth_left - 1) as usize,
                ) + pre.todo@.drop_first());
            }
        }
        proof {
            assert(self.todo@ =~= pairs_with(cs, (depth_left - 1) as usize)
                + pre.todo@.drop_first());
        }
        let ghost head = pre.todo@[0];
        let ghost head_id = head.0.id@;
        proof {
            self.oracle@ = pre.oracle@.insert(head_id, cs);
            self.clean@ = pre.clean@ && !pre.oracle@.dom().contains(head_id);
            self.sources_real@ = pre.sources_real@ && all_real(cs);
            assert(is_children_marker(marker));
            assert(items_view(self.done@) =~= items_view(pre.done@) + seq![
                block_item(head.0),
                BlockItem::Marker(marker_id(head_id)),
            ]);
            if self.clean@ {
                assert(pre.oracle@.submap_of(self.oracle@));
                assert forall|n: Map<Seq<char>, Seq<Block>>| #[trigger]
                    self.oracle@.submap_of(n) implies items_view(self.done@) + expand_pairs(
                    self.todo@,
                    n,
                ) == expand_list(self.init_roots@, self.init_depth@, n) by {
                    vstd::map_lib::lemma_submap_of_trans(pre.oracle@, self.oracle@, n);
                    assert(pre.oracle@.submap_of(n));
                    assert(items_view(pre.done@) + expand_pairs(pre.todo@, n) == expand_list(
                        pre.init_roots@,
                        pre.init_depth@,
                        n,
                    ));
                    assert(self.oracle@.dom().contains(head_id));
                    assert(self.oracle@[head_id] == cs);
                    assert(n.dom().contains(head_id));
                    assert(n[head_id] =~= cs);
                    let d = head.1 as nat;
                    assert(expand_one(head.0, d, n) == seq![block_item(head.0)] + (seq![
                        BlockItem::Marker(marker_id(head_id)),
                    ] + expand_list(cs, (d - 1) as nat, n)));
                    lemma_pairs_expand(cs, (depth_left - 1) as usize, n);
                    lemma_expand_pairs_append(
                        pairs_with(cs, (depth_left - 1) as usize),
                        pre.todo@.drop_first(),
                        n,
                    );
                    assert(expand_pairs(pre.todo@, n) == expand_one(head.0, d, n) + expand_pairs(
                        pre.todo@.drop_first(),
                        n,
                    ));
                    assert(items_view(self.done@) + expand_pairs(self.todo@, n) =~= items_view(
                        pre.done@,
                    ) + expand_pairs(pre.todo@, n));
                }
            }
            if self.clean@ && self.sources_real@ {
                assert(pre.clean@ && pre.sources_real@);
                assert(!pre.oracle@.dom().contains(head_id));
                assert(!is_children_marker(head.0));
                let kids = pairs_with(cs, (depth_left - 1) as usize);
                assert forall|t: int|
                    0 <= t < self.todo@.len() implies !is_children_marker(
                    (#[trigger] self.todo@[t]).0,
                ) by {
                    if t < cs.len() {
                        assert(self.todo@[t] == kids[t]);
                        assert(self.todo@[t].0 == cs[t]);
                    } else {
                        assert(self.todo@[t] == pre.todo@.drop_first()[t - cs.len() as int]);
                        assert(self.todo@[t] == pre.todo@[t - cs.len() as int + 1]);
                    }
                }
                let nd = self.done@;
                assert(nd.len() == pre.done@.len() + 2);
                assert(forall|p: int| 0 <= p < pre.done@.len() ==> #[trigger] nd[p] == pre.done@[p]);
                assert(nd[nd.len() - 2] == head.0);
                assert(nd[nd.len() - 1] == marker);
                assert(marker.id@ == marker_id(head_id));
                assert forall|p: int|
                    0 <= p < nd.len() && is_children_marker(#[trigger] nd[p]) implies exists|
                    x: Seq<char>,
                |
                    self.oracle@.dom().contains(x) && nd[p].id@ == marker_id(x) by {
                    if p < pre.done@.len() {
                        let x = choose|x: Seq<char>|
                            pre.oracle@.dom().contains(x) && pre.done@[p].id@ == marker_id(x);
                        assert(self.oracle@.dom().contains(x) && nd[p].id@ == marker_id(x));
                    } else if p == nd.len() - 1 {
                        assert(self.oracle@.dom().contains(head_id));
                        assert(self.oracle@.dom().contains(head_id) && nd[p].id@ == marker_id(
                            head_id,
                        ));
                    } else {
                        assert(!is_children_marker(nd[p]));
                    }
                }
                assert forall|p: int, q: int|
                    0 <= p < q < nd.len() && is_children_marker(#[trigger] nd[p])
                        && is_children_marker(#[trigger] nd[q]) implies nd[p].id@ != nd[q].id@ by {
                    if q < pre.done@.len() {
                    } else if q == nd.len() - 1 && p < pre.done@.len() {
                        let x = choose|x: Seq<char>|
                            pre.oracle@.dom().contains(x) && pre.done@[p].id@ == marker_id(x);
                        if nd[p].id@ == nd[q].id@ {
                            assert(marker_id(x) == marker_id(head_id));
                            lemma_marker_id_injective(x, head_id);
                            assert(pre.oracle@.dom().contains(head_id));
                        }
                    } else {
                        assert(!is_children_marker(nd[nd.len() - 2]));
                    }
                }
            }
        }
    }

    /// Ends the walk, yielding the flattened tree.
    ///
    /// When every fetched id was fresh, the output is exactly the expansion of
    /// the starting point under the recorded children; when additionally no
    /// handed-in block was marker-typed, the markers are pairwise distinct —
    /// no parent block ever gets a second `children` marker.
    pub fn finish(self) -> (r: Vec<Block>)
        requires
            self.wf(),
            self.markers_ok(),
            self.todo@.len() == 0,
        ensures
            r@ == self.done@,
            self.clean@ ==> items_view(r@) == expand_list(
                self.init_roots@,
                self.init_depth@,
                self.oracle@,
            ),
            self.clean@ && self.sources_real@ ==> forall|p: int, q: int|
                0 <= p < q < r@.len() && is_children_marker(#[trigger] r@[p])
                    && is_children_marker(#[trigger] r@[q]) ==> r@[p].id@ != r@[q].id@,
    {
        proof {
            if self.clean@ {
                assert(self.oracle@.submap_of(self.oracle@));
                assert(items_view(self.done@) + expand_pairs(self.todo@, self.oracle@)
                    =~= items_view(self.done@));
            }
        }
        self.done
    }
}

} // verus!
