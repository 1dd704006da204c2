use crate::debug::{DbgNode, DbgPos};
use std::collections::BTreeMap;
use vstd::prelude::*;

verus! {

/// What collecting debug information reads of a cell of code: its
/// representation hash as hex text and the cells it references, in order.
#[derive(Debug)]
pub struct CellTree {
    pub hash: String,
    pub references: Vec<CellTree>,
}

/// The hashes of a tree of cells, each cell before the cells it references.
pub open spec fn tree_hashes(t: CellTree) -> Seq<Seq<char>>
    decreases t, 1int,
{
    seq![t.hash@] + forest_hashes(t.references@)
}

/// The hashes of a run of trees of cells, one tree after another.
pub open spec fn forest_hashes(ts: Seq<CellTree>) -> Seq<Seq<char>>
    decreases ts, 0int,
{
    if ts.len() == 0 {
        Seq::empty()
    } else {
        forest_hashes(ts.drop_last()) + tree_hashes(ts.last())
    }
}


/// Every cell of `t` has a debug node at the same place in `n`: a node
/// has at least as many children as its cell has references.
pub open spec fn tree_fits(t: CellTree, n: DbgNode) -> bool
    decreases t, 1int,
{
    &&& t.references@.len() <= n.children@.len()
    &&& forest_fits(t.references@, n.children@)
}

/// Each tree of `ts` fits the node at the same index of `ns`.
pub open spec fn forest_fits(ts: Seq<CellTree>, ns: Seq<DbgNode>) -> bool
    decreases ts, 0int,
{
    if ts.len() == 0 {
        true
    } else {
        &&& ts.len() <= ns.len()
        &&& forest_fits(ts.drop_last(), ns)
        &&& tree_fits(ts.last(), ns[ts.len() - 1])
    }
}

/// The debug information of a tree of cells: each cell's hash mapped to
/// the positions of its node.
pub open spec fn tree_info(t: CellTree, n: DbgNode) -> Map<String, Map<usize, DbgPos>>
    decreases t, 1int,
{
    Map::empty().insert(t.hash, n.offsets@).union_prefer_right(
        forest_info(t.references@, n.children@),
    )
}

/// The debug information of a run of trees of cells with their nodes.
pub open spec fn forest_info(ts: Seq<CellTree>, ns: Seq<DbgNode>) -> Map<
    String,
    Map<usize, DbgPos>,
>
    decreases ts, 0int,
{
    if ts.len() == 0 {
        Map::empty()
    } else {
        forest_info(ts.drop_last(), ns).union_prefer_right(
            tree_info(ts.last(), ns[ts.len() - 1]),
        )
    }
}

/// Inserts `value` under `key` into a map that holds no key with the same
/// text (`BTreeMap::insert`).
#[verifier::external_body]
fn insert_new_key(
    map: &mut BTreeMap<String, BTreeMap<usize, DbgPos>>,
    key: String,
    value: BTreeMap<usize, DbgPos>,
) -> (res: Option<BTreeMap<usize, DbgPos>>)
    requires
        forall|k: String| #[trigger] old(map)@.contains_key(k) ==> k@ != key@,
    ensures
        final(map)@ == old(map)@.insert(key, value),
        res is None,
{
    map.insert(key, value)
}

/// The texts of the keys of `m`.
pub open spec fn key_texts(m: Map<String, BTreeMap<usize, DbgPos>>) -> Set<Seq<char>> {
    Set::new(|h: Seq<char>| exists|k: String| m.contains_key(k) && k@ == h)
}

/// The information with each node's positions taken as a map.
pub open spec fn info_view(m: Map<String, BTreeMap<usize, DbgPos>>) -> Map<
    String,
    Map<usize, DbgPos>,
> {
    m.map_values(|b: BTreeMap<usize, DbgPos>| b@)
}

proof fn lemma_forest_take(ts: Seq<CellTree>, ns: Seq<DbgNode>, i: int)
    requires
        0 <= i < ts.len(),
    ensures
        forest_hashes(ts.take(i + 1)) == forest_hashes(ts.take(i)) + tree_hashes(ts[i]),
        forest_info(ts.take(i + 1), ns) == forest_info(ts.take(i), ns).union_prefer_right(
            tree_info(ts[i], ns[i]),
        ),
{
    assert(ts.take(i + 1).drop_last() =~= ts.take(i));
    assert(ts.take(i + 1).last() == ts[i]);
}

proof fn lemma_forest_prefix(ts: Seq<CellTree>, k: int)
    requires
        0 <= k <= ts.len(),
    ensures
        forest_hashes(ts.take(k)).is_prefix_of(forest_hashes(ts)),
    decreases ts.len() - k,
{
    if k == ts.len() {
        assert(ts.take(k) =~= ts);
    } else {
        lemma_forest_prefix(ts, k + 1);
        lemma_forest_take(ts, Seq::empty(), k);
    }
}

proof fn lemma_concat_to_set(a: Seq<Seq<char>>, b: Seq<Seq<char>>)
    ensures
        (a + b).to_set() == a.to_set() + b.to_set(),
{
    assert forall|h: Seq<char>| (a + b).to_set().contains(h) <==> (a.to_set() + b.to_set()).contains(
        h,
    ) by {
        if (a + b).to_set().contains(h) {
            let j = choose|j: int| 0 <= j < (a + b).len() && (a + b)[j] == h;
            if j < a.len() {
                assert(a[j] == h);
            } else {
                assert(b[j - a.len()] == h);
            }
        }
        if a.to_set().contains(h) {
            let j = choose|j: int| 0 <= j < a.len() && a[j] == h;
            assert((a + b)[j] == h);
        }
        if b.to_set().contains(h) {
            let j = choose|j: int| 0 <= j < b.len() && b[j] == h;
            assert((a + b)[a.len() + j] == h);
        }
    }
    assert((a + b).to_set() =~= a.to_set() + b.to_set());
}

proof fn lemma_forest_fits(ts: Seq<CellTree>, ns: Seq<DbgNode>, i: int)
    requires
        forest_fits(ts, ns),
        0 <= i < ts.len(),
    ensures
        tree_fits(ts[i], ns[i]),
        ts.len() <= ns.len(),
    decreases ts.len(),
{
    if i < ts.len() - 1 {
        lemma_forest_fits(ts.drop_last(), ns, i);
    }
}

/// Debug information of a whole program: the positions of each cell's
/// instructions, by the cell's hash.
#[derive(Debug)]
pub struct DbgInfo {
    pub map: BTreeMap<String, BTreeMap<usize, DbgPos>>,
}

impl DbgInfo {
    /// No information.
    pub fn new() -> (res: Self)
        ensures
            res.map@ == Map::<String, BTreeMap<usize, DbgPos>>::empty(),
    {
        DbgInfo { map: BTreeMap::new() }
    }

    /// The debug information of the cell tree `cell` whose debug nodes are
    /// `node`: each cell's hash mapped to its node's positions. Each cell
    /// has a node, and no two cells of the tree have the same hash.
    pub fn from(cell: &CellTree, node: &DbgNode) -> (res: Self)
        requires
            tree_fits(*cell, *node),
            tree_hashes(*cell).no_duplicates(),
        ensures
            info_view(res.map@) == tree_info(*cell, *node),
    {
        let mut info = DbgInfo { map: BTreeMap::new() };
        info.collect(cell, node);
        assert(info_view(info.map@) =~= tree_info(*cell, *node));
        info
    }

    fn collect(&mut self, cell: &CellTree, dbg: &DbgNode)
        requires
            tree_fits(*cell, *dbg),
            tree_hashes(*cell).no_duplicates(),
            forall|h: Seq<char>| key_texts(old(self).map@).contains(h) ==> !tree_hashes(
                *cell,
            ).contains(h),
        ensures
            info_view(final(self).map@) == info_view(old(self).map@).union_prefer_right(
                tree_info(*cell, *dbg),
            ),
            key_texts(final(self).map@) == key_texts(old(self).map@) + tree_hashes(
                *cell,
            ).to_set(),
        decreases cell,
    {
        let ghost refs = cell.references@;
        let ghost kids = dbg.children@;
        let ghost own = tree_hashes(*cell);
        let hash = cell.hash.clone();
        proof {
            assert(own[0] == cell.hash@);
            assert forall|k: String| #[trigger] self.map@.contains_key(k) implies k@ != hash@ by {
                assert(key_texts(self.map@).contains(k@));
                assert(own.contains(hash@));
            }
        }
        let res = insert_new_key(&mut self.map, hash, dbg.offsets.clone());
        assert(res.is_none());
        let ghost base = self.map@;
        proof {
            assert(key_texts(base) =~= key_texts(old(self).map@).insert(cell.hash@));
            assert(info_view(base) =~= info_view(old(self).map@).union_prefer_right(
                Map::empty().insert(cell.hash, dbg.offsets@),
            ));
            assert(refs.take(0) =~= Seq::<CellTree>::empty());
        }
        let mut i: usize = 0;
        while i < cell.references.len()
            invariant
                i <= refs.len(),
                refs == cell.references@,
                kids == dbg.children@,
                own == tree_hashes(*cell),
                own == seq![cell.hash@] + forest_hashes(refs),
                own.no_duplicates(),
                tree_fits(*cell, *dbg),
                forall|h: Seq<char>| key_texts(old(self).map@).contains(h) ==> !own.contains(h),
                info_view(self.map@) == info_view(base).union_prefer_right(
                    forest_info(refs.take(i as int), kids),
                ),
                key_texts(self.map@) == key_texts(base) + forest_hashes(refs.take(i as int)).to_set(),
                key_texts(base) == key_texts(old(self).map@).insert(cell.hash@),
                info_view(base) == info_view(old(self).map@).union_prefer_right(
                    Map::empty().insert(cell.hash, dbg.offsets@),
                ),
            decreases refs.len() - i,
        {
            proof {
                lemma_forest_fits(refs, kids, i as int);
                lemma_forest_take(refs, kids, i as int);
                lemma_forest_prefix(refs, i + 1);
                let pre = forest_hashes(refs.take(i as int));
                let sub = tree_hashes(refs[i as int]);
                let whole = forest_hashes(refs);
                assert(forest_hashes(refs.take(i + 1)) == pre + sub);
                assert((pre + sub).is_prefix_of(whole));
                assert forall|a: int| 0 <= a < sub.len() implies whole[pre.len() + a] == sub[a] by {
                    assert((pre + sub)[pre.len() + a] == sub[a]);
                }
                assert forall|a: int| 0 <= a < pre.len() implies whole[a] == pre[a] by {
                    assert((pre + sub)[a] == pre[a]);
                }
                assert(sub.no_duplicates()) by {
                    assert forall|a: int, b: int| 0 <= a < b < sub.len() implies sub[a] != sub[b] by {
                        assert(whole[pre.len() + a] == sub[a]);
                        assert(whole[pre.len() + b] == sub[b]);
                        assert(own[1 + pre.len() + a] == sub[a]);
                        assert(own[1 + pre.len() + b] == sub[b]);
                    }
                }
                assert forall|h: Seq<char>| key_texts(self.map@).contains(h) implies !sub.contains(h) by {
                    if sub.contains(h) {
                        let b = choose|b: int| 0 <= b < sub.len() && sub[b] == h;
                        assert(own[1 + pre.len() + b] == h);
                        assert(whole[pre.len() + b] == h);
                        if key_texts(old(self).map@).contains(h) {
                            assert(own.contains(h));
                        } else if h == cell.hash@ {
                            assert(own[0] == h);
                        } else {
                            assert(pre.to_set().contains(h));
                            let a = choose|a: int| 0 <= a < pre.len() && pre[a] == h;
                            assert(whole[a] == h);
                            assert(own[1 + a] == h);
                        }
                    }
                }
            }
            self.collect(&cell.references[i], &dbg.children[i]);
            proof {
                lemma_concat_to_set(forest_hashes(refs.take(i as int)), tree_hashes(refs[i as int]));
                assert(key_texts(self.map@) =~= key_texts(base) + forest_hashes(
                    refs.take(i + 1),
                ).to_set());
                assert(info_view(self.map@) =~= info_view(base).union_prefer_right(
                    forest_info(refs.take(i + 1), kids),
                ));
            }
            i = i + 1;
        }
        proof {
            assert(refs.take(refs.len() as int) =~= refs);
            let forest = forest_hashes(refs);
            assert forall|h: Seq<char>| own.to_set().contains(h) <==> (h == cell.hash@
                || forest.to_set().contains(h)) by {
                if own.to_set().contains(h) {
                    let a = choose|a: int| 0 <= a < own.len() && own[a] == h;
                    if a > 0 {
                        assert(forest[a - 1] == h);
                    }
                }
                if forest.to_set().contains(h) {
                    let a = choose|a: int| 0 <= a < forest.len() && forest[a] == h;
                    assert(own[a + 1] == h);
                }
                if h == cell.hash@ {
                    assert(own[0] == h);
                }
            }
            assert(key_texts(self.map@) =~= key_texts(old(self).map@) + own.to_set());
            assert(info_view(self.map@) =~= info_view(old(self).map@).union_prefer_right(
                tree_info(*cell, *dbg),
            ));
        }
    }
}

} // verus!
