use std::collections::BTreeMap;
use crate::text::{decimal, push_decimal, push_str};
use vstd::prelude::*;
use vstd::laws_cmp::obeys_cmp;
use vstd::std_specs::btree::increasing_seq;
use vstd::std_specs::cmp::OrdSpec;

verus! {

/// A source position: the file a line came from and its number there.
#[derive(Debug, PartialEq)]
pub struct DbgPos {
    pub filename: String,
    pub line: usize,
}

/// A source position taken by value.
pub ghost struct DbgPosView {
    pub filename: Seq<char>,
    pub line: usize,
}

impl View for DbgPos {
    type V = DbgPosView;

    open spec fn view(&self) -> DbgPosView {
        DbgPosView { filename: self.filename@, line: self.line }
    }
}

impl Clone for DbgPos {
    fn clone(&self) -> (res: Self)
        ensures
            res == *self,
    {
        DbgPos { filename: self.filename.clone(), line: self.line }
    }
}

/// `file:line`, with `<none>` for a position without a file name.
pub open spec fn pos_text(p: DbgPosView) -> Seq<char> {
    (if p.filename.len() == 0 {
        "<none>"@
    } else {
        p.filename
    }) + seq![':'] + decimal(p.line as nat)
}

impl DbgPos {
    /// The position as text: `file:line`, or `<none>:line` when it names no
    /// file.
    pub fn to_string(&self) -> (res: String)
        ensures
            res@ == pos_text(self@),
    {
        let mut res = String::new();
        proof {
            reveal_strlit(":");
        }
        if self.filename.as_str().unicode_len() == 0 {
            push_str(&mut res, "<none>");
        } else {
            push_str(&mut res, self.filename.as_str());
        }
        push_str(&mut res, ":");
        push_decimal(&mut res, self.line);
        res
    }

}

impl Default for DbgPos {
    /// The position used where no source line is known: no file, line 0.
    fn default() -> (res: Self)
        ensures
            res.filename@ == Seq::<char>::empty(),
            res.line == 0,
    {
        DbgPos { filename: String::new(), line: 0 }
    }
}

/// One line of source text together with where it came from.
#[derive(Debug, PartialEq)]
pub struct Line {
    pub text: String,
    pub pos: DbgPos,
}

impl Clone for Line {
    fn clone(&self) -> (res: Self)
        ensures
            res == *self,
    {
        Line { text: self.text.clone(), pos: self.pos.clone() }
    }
}

pub type Lines = Vec<Line>;

impl Line {
    /// A line with the given text, file name and line number.
    pub fn new(text: &str, filename: &str, line: usize) -> (res: Self)
        ensures
            res.text@ == text@,
            res.pos.filename@ == filename@,
            res.pos.line == line,
    {
        Line {
            text: String::from_str(text),
            pos: DbgPos { filename: String::from_str(filename), line: line },
        }
    }
}

/// The texts of the lines, one after another.
pub open spec fn lines_text(lines: Seq<Line>) -> Seq<char>
    decreases lines.len(),
{
    if lines.len() == 0 {
        Seq::empty()
    } else {
        lines_text(lines.drop_last()) + lines.last().text@
    }
}

/// Joins the texts of all lines, in order, with nothing between them.
pub fn lines_to_string(lines: &Lines) -> (res: String)
    ensures
        res@ == lines_text(lines@),
{
    let mut res = String::new();
    let mut i: usize = 0;
    while i < lines.len()
        invariant
            i <= lines.len(),
            res@ == lines_text(lines@.take(i as int)),
        decreases lines.len() - i,
    {
        res.append(lines[i].text.as_str());
        assert(lines@.take(i + 1).drop_last() =~= lines@.take(i as int));
        i = i + 1;
    }
    assert(lines@.take(lines.len() as int) =~= lines@);
    res
}


/// The entries of `m` with every key moved up by `offset`.
pub open spec fn shifted(m: Map<usize, DbgPos>, offset: usize) -> Map<usize, DbgPos> {
    Map::new(
        |k: usize| k >= offset && m.dom().contains((k - offset) as usize),
        |k: usize| m[(k - offset) as usize],
    )
}

proof fn lemma_increasing_keys(s: Seq<usize>)
    requires
        increasing_seq(s),
    ensures
        forall|a: int, b: int| 0 <= a < b < s.len() ==> s[a] < s[b],
{
    broadcast use vstd::laws_cmp::group_laws_cmp, vstd::std_specs::btree::group_btree_axioms;

    assert(obeys_cmp::<usize>());
    assert forall|a: int, b: int| 0 <= a < b < s.len() implies s[a] < s[b] by {
        assert(s[a].cmp_spec(&s[b]) is Less);
    }
}

/// `es` lists the entries of `m` in increasing order of key.
pub open spec fn sorted_entries(es: Seq<(usize, DbgPosView)>, m: Map<usize, DbgPosView>) -> bool {
    &&& forall|a: int, b: int| 0 <= a < b < es.len() ==> es[a].0 < es[b].0
    &&& forall|j: int| 0 <= j < es.len() ==> m.contains_key(es[j].0) && m[es[j].0] == es[j].1
    &&& forall|k: usize| #[trigger] m.contains_key(k) ==> exists|j: int| 0 <= j < es.len() && es[j].0 == k
}

/// One `offset:file:line` line per entry.
pub open spec fn entries_text(es: Seq<(usize, DbgPosView)>) -> Seq<char>
    decreases es.len(),
{
    if es.len() == 0 {
        Seq::empty()
    } else {
        entries_text(es.drop_last()) + decimal(es.last().0 as nat) + seq![':'] + pos_text(
            es.last().1,
        ) + seq!['\n']
    }
}

/// Debug information of one cell of code: the source position of each
/// instruction by its bit offset in the cell, and the nodes of the cells
/// that it references.
#[derive(Debug)]
pub struct DbgNode {
    pub offsets: BTreeMap<usize, DbgPos>,
    pub children: Vec<DbgNode>,
}

impl DbgNode {
    /// A node with no positions and no children.
    pub fn new() -> (res: Self)
        ensures
            res.offsets@ == Map::<usize, DbgPos>::empty(),
            res.children@ == Seq::<DbgNode>::empty(),
    {
        DbgNode { offsets: BTreeMap::new(), children: Vec::new() }
    }

    /// A node with the single position `pos` at offset 0 and no children.
    pub fn from(pos: DbgPos) -> (res: Self)
        ensures
            res.offsets@ == Map::<usize, DbgPos>::empty().insert(0, pos),
            res.children@ == Seq::<DbgNode>::empty(),
    {
        let mut node = Self::new();
        node.offsets.insert(0, pos);
        node
    }

    /// Records `pos` at `offset`, replacing what was recorded there.
    pub fn append(&mut self, offset: usize, pos: DbgPos)
        ensures
            final(self).offsets@ == old(self).offsets@.insert(offset, pos),
            final(self).children@ == old(self).children@,
    {
        self.offsets.insert(offset, pos);
    }

    /// Copies the positions of `dbg`, a node without children, into this
    /// node, each moved up by `offset`; they replace what was recorded at
    /// the same offsets.
    pub fn inline_node(&mut self, offset: usize, dbg: DbgNode)
        requires
            dbg.children@.len() == 0,
            forall|k: usize| dbg.offsets@.dom().contains(k) ==> k + offset <= usize::MAX,
        ensures
            final(self).offsets@ == old(self).offsets@.union_prefer_right(
                shifted(dbg.offsets@, offset),
            ),
            final(self).children@ == old(self).children@,
    {
        broadcast use vstd::std_specs::btree::group_btree_axioms;
        let ghost src = dbg.offsets@;
        let ghost start = self.offsets@;
        let ghost done: Set<usize> = Set::empty();
        for entry in it: dbg.offsets.iter()
            invariant
                src == dbg.offsets@,
                forall|k: usize| src.dom().contains(k) ==> k + offset <= usize::MAX,
                self.children@ == old(self).children@,
                forall|j: int| #![trigger it.seq()[j]] 0 <= j < it.seq().len()
                    ==> src.contains_key(*it.seq()[j].0) && src[*it.seq()[j].0] == *it.seq()[j].1,
                forall|k: usize| #[trigger] src.contains_key(k) ==> exists|j: int| 0 <= j < it.seq().len() && *it.seq()[j].0 == k,
                done == Set::new(|k: usize| exists|j: int| 0 <= j < it.index() && *it.seq()[j].0 == k),
                self.offsets@ == start.union_prefer_right(
                    shifted(src.restrict(done), offset),
                ),
        {
            let (k, v) = entry;
            self.offsets.insert(*k + offset, v.clone());
            proof {
                done = done.insert(*k);
            }
            assert(self.offsets@ =~= start.union_prefer_right(shifted(src.restrict(done), offset)));
        }
        assert(src.restrict(done) =~= src);
    }

    /// The positions as text, one `offset:file:line` line per position in
    /// increasing order of offset, then the number of children.
    pub fn to_string(&self) -> (res: String)
        ensures
            exists|es: Seq<(usize, DbgPosView)>|
                sorted_entries(es, self.offsets@.map_values(|p: DbgPos| p@)) && res@ == entries_text(
                    es,
                ) + decimal(self.children@.len()) + " children"@,
    {
        broadcast use vstd::std_specs::btree::group_btree_axioms;
        let mut res = String::new();
        let ghost m = self.offsets@;
        let ghost mut es: Seq<(usize, DbgPosView)> = Seq::empty();
        proof {
            reveal_strlit(":");
            reveal_strlit("\n");
        }
        for entry in it: self.offsets.iter()
            invariant
                m == self.offsets@,
                forall|j: int| #![trigger it.seq()[j]] 0 <= j < it.seq().len()
                    ==> m.contains_key(*it.seq()[j].0) && m[*it.seq()[j].0] == *it.seq()[j].1,
                forall|k: usize| #[trigger] m.contains_key(k) ==> exists|j: int| 0 <= j < it.seq().len() && *it.seq()[j].0 == k,
                increasing_seq(it.seq().map_values(|kv: (&usize, &DbgPos)| *kv.0)),
                es.len() == it.index(),
                forall|a: int, b: int| 0 <= a < b < es.len() ==> es[a].0 < es[b].0,
                forall|j: int| 0 <= j < it.index() ==> es[j] == (*it.seq()[j].0, (*it.seq()[j].1)@),
                forall|j: int| 0 <= j < es.len() ==> m.contains_key(es[j].0) && m[es[j].0]@ == es[j].1,
                forall|k: usize| #[trigger] m.contains_key(k) ==> (exists|j: int| 0 <= j < es.len() && es[j].0 == k)
                    || (exists|j: int| it.index() <= j < it.seq().len() && *it.seq()[j].0 == k),
                res@ == entries_text(es),
        {
            let (k, v) = entry;
            let ghost old_res = res@;
            push_decimal(&mut res, *k);
            push_str(&mut res, ":");
            let p = v.to_string();
            push_str(&mut res, p.as_str());
            push_str(&mut res, "\n");
            proof {
                reveal_strlit(":");
                reveal_strlit("\n");
                let e = (*k, v@);
                let i = es.len() as int;
                assert(*it.seq()[i].0 == *k && *it.seq()[i].1 == *v);
                let keys = it.seq().map_values(|kv: (&usize, &DbgPos)| *kv.0);
                lemma_increasing_keys(keys);
                assert forall|a: int| 0 <= a < i implies es[a].0 < *k by {
                    assert(keys[a] == es[a].0);
                    assert(keys[i] == *k);
                }
                assert(es.push(e).drop_last() =~= es);
                assert(entries_text(es.push(e)) == entries_text(es) + decimal(*k as nat) + seq![':']
                    + pos_text(v@) + seq!['\n']);
                assert(res@ =~= entries_text(es.push(e)));
                assert forall|kk: usize| #[trigger] m.contains_key(kk) implies (exists|j: int|
                    0 <= j < es.len() + 1 && es.push(e)[j].0 == kk) || (exists|j: int|
                    i + 1 <= j < it.seq().len() && *it.seq()[j].0 == kk) by {
                    if exists|j: int| 0 <= j < es.len() && es[j].0 == kk {
                        let j = choose|j: int| 0 <= j < es.len() && es[j].0 == kk;
                        assert(es.push(e)[j].0 == kk);
                    } else {
                        let j = choose|j: int| i <= j < it.seq().len() && *it.seq()[j].0 == kk;
                        if j == i {
                            assert(es.push(e)[i].0 == kk);
                        }
                    }
                }
                es = es.push(e);
            }
        }
        let ghost view_map = self.offsets@.map_values(|p: DbgPos| p@);
        assert(sorted_entries(es, view_map));
        push_decimal(&mut res, self.children.len());
        push_str(&mut res, " children");
        res
    }

    /// Adds `dbg` as the next child; a node has at most four children
    /// before the call adds one more.
    pub fn append_node(&mut self, dbg: DbgNode)
        requires
            old(self).children@.len() <= 4,
        ensures
            final(self).offsets@ == old(self).offsets@,
            final(self).children@ == old(self).children@.push(dbg),
    {
        self.children.push(dbg);
    }
}

} // verus!
