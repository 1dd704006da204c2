use crate::debug::{shifted, DbgNode, DbgPos, DbgPosView};
use vstd::prelude::*;

verus! {

/// A compiled piece of code: its bytes and where each instruction came from.
#[derive(Debug)]
pub struct Unit {
    pub builder: Vec<u8>,
    pub dbg: DbgNode,
}

impl Unit {
    pub fn new(builder: Vec<u8>, dbg: DbgNode) -> (res: Self)
        ensures
            res.builder == builder,
            res.dbg == dbg,
    {
        Unit { builder, dbg }
    }
}

/// Code written so far, instruction after instruction, with the source
/// position of each instruction by the bit offset at which it starts.
pub struct Units {
    code: Vec<u8>,
    dbg: DbgNode,
}

/// The largest number of code bytes that `Units` holds, so that every bit
/// offset into it fits a `usize` with room to spare.
pub const MAX_CODE_BYTES: usize = 0x1fff_fff0;

impl Units {
    /// The bytes written so far.
    pub closed spec fn code(&self) -> Seq<u8> {
        self.code@
    }

    /// The source positions recorded so far, by bit offset.
    pub closed spec fn positions(&self) -> Map<usize, DbgPosView> {
        self.dbg.offsets@.map_values(|p: DbgPos| p@)
    }

    /// The debug node holds no children, and the code fits the bound.
    #[verifier::type_invariant]
    spec fn wf(self) -> bool {
        &&& self.dbg.children@.len() == 0
        &&& self.code@.len() <= MAX_CODE_BYTES
    }

    /// Nothing written yet.
    pub fn new() -> (res: Self)
        ensures
            res.code() == Seq::<u8>::empty(),
            res.positions() == Map::<usize, DbgPosView>::empty(),
    {
        Units { code: Vec::new(), dbg: DbgNode::new() }
    }

    /// Appends the bytes of one instruction; the positions of `dbg`, which
    /// are relative to the instruction's start, are recorded at the bit
    /// offset where the instruction starts.
    pub fn write_command(&mut self, command: &[u8], dbg: DbgNode)
        requires
            old(self).code().len() + command@.len() <= MAX_CODE_BYTES,
            dbg.children@.len() == 0,
            forall|k: usize|
                dbg.offsets@.dom().contains(k) ==> k + old(self).code().len() * 8 <= usize::MAX,
        ensures
            final(self).code() == old(self).code() + command@,
            final(self).positions() == old(self).positions().union_prefer_right(
                shifted(dbg.offsets@, (old(self).code().len() * 8) as usize).map_values(
                    |p: DbgPos| p@,
                ),
            ),
    {
        proof {
            use_type_invariant(&*self);
        }
        let offset = self.code.len() * 8;
        let mut code = Vec::new();
        std::mem::swap(&mut code, &mut self.code);
        let mut i: usize = 0;
        while i < command.len()
            invariant
                i <= command@.len(),
                code@ == old(self).code@ + command@.take(i as int),
            decreases command@.len() - i,
        {
            code.push(command[i]);
            assert(command@.take(i + 1) =~= command@.take(i as int).push(command@[i as int]));
            i = i + 1;
        }
        assert(command@.take(command@.len() as int) =~= command@);
        let ghost src = dbg.offsets@;
        let mut node = DbgNode::new();
        std::mem::swap(&mut node, &mut self.dbg);
        node.inline_node(offset, dbg);
        self.code = code;
        self.dbg = node;
        assert(self.positions() =~= old(self).positions().union_prefer_right(
            shifted(src, offset).map_values(|p: DbgPos| p@),
        ));
    }

    /// The written bytes and positions.
    pub fn finalize(self) -> (res: (Vec<u8>, DbgNode))
        ensures
            res.0@ == self.code(),
            res.1.offsets@.map_values(|p: DbgPos| p@) == self.positions(),
            res.1.children@.len() == 0,
    {
        proof {
            use_type_invariant(&self);
        }
        (self.code, self.dbg)
    }

}

} // verus!
