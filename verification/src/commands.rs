use crate::engine::{CommandRule, Engine, RuleView};
use crate::operands::Operand;
use crate::text::upper_seq;
use vstd::prelude::*;

verus! {

/// The rule of a command that takes no parameters and emits `opcode`.
pub open spec fn simple(opcode: Seq<u8>) -> RuleView {
    RuleView { opcode, operand: Operand::Plain, min_params: 0, max_params: 0 }
}

/// The rule of a command that takes exactly one parameter and emits the
/// code that `operand` makes of it.
pub open spec fn one_operand(operand: Operand) -> RuleView {
    RuleView { opcode: Seq::empty(), operand, min_params: 1, max_params: 1 }
}

fn operand_rule(operand: Operand) -> (res: CommandRule)
    ensures
        res@ == one_operand(operand),
{
    let v: Vec<u8> = Vec::new();
    assert(v@ =~= Seq::<u8>::empty());
    CommandRule { opcode: v, operand, min_params: 1, max_params: 1 }
}

/// `m` with the TVM instructions that take one operand: an integer
/// constant to push, or a stack register to push from, pop into, or
/// exchange with the top of the stack.
pub open spec fn with_operand_commands(m: Map<Seq<char>, RuleView>) -> Map<Seq<char>, RuleView> {
    m
        .insert(upper_seq("PUSHINT"@), one_operand(Operand::Integer))
        .insert(upper_seq("PUSH"@), one_operand(Operand::Register(0x20, 0x56)))
        .insert(upper_seq("POP"@), one_operand(Operand::Register(0x30, 0x57)))
        .insert(upper_seq("XCHG"@), one_operand(Operand::Register(0x00, 0x11)))
}

fn opcode1(a: u8) -> (res: CommandRule)
    ensures
        res@ == simple(seq![a]),
{
    let mut v: Vec<u8> = Vec::new();
    v.push(a);
    assert(v@ =~= seq![a]);
    CommandRule { opcode: v, operand: Operand::Plain, min_params: 0, max_params: 0 }
}

fn opcode2(a: u8, b: u8) -> (res: CommandRule)
    ensures
        res@ == simple(seq![a, b]),
{
    let mut v: Vec<u8> = Vec::new();
    v.push(a);
    v.push(b);
    assert(v@ =~= seq![a, b]);
    CommandRule { opcode: v, operand: Operand::Plain, min_params: 0, max_params: 0 }
}

/// `m` with the TVM instructions for stack manipulation and null values that take no parameters.
pub open spec fn with_stack_commands(m: Map<Seq<char>, RuleView>) -> Map<Seq<char>, RuleView> {
    m
        .insert(upper_seq("NOP"@), simple(seq![0x00u8]))
        .insert(upper_seq("SWAP"@), simple(seq![0x01u8]))
        .insert(upper_seq("DUP"@), simple(seq![0x20u8]))
        .insert(upper_seq("OVER"@), simple(seq![0x21u8]))
        .insert(upper_seq("DROP"@), simple(seq![0x30u8]))
        .insert(upper_seq("NIP"@), simple(seq![0x31u8]))
        .insert(upper_seq("ROT"@), simple(seq![0x58u8]))
        .insert(upper_seq("ROTREV"@), simple(seq![0x59u8]))
        .insert(upper_seq("SWAP2"@), simple(seq![0x5Au8]))
        .insert(upper_seq("DROP2"@), simple(seq![0x5Bu8]))
        .insert(upper_seq("DUP2"@), simple(seq![0x5Cu8]))
        .insert(upper_seq("OVER2"@), simple(seq![0x5Du8]))
        .insert(upper_seq("PICK"@), simple(seq![0x60u8]))
        .insert(upper_seq("PUSHX"@), simple(seq![0x60u8]))
        .insert(upper_seq("ROLLX"@), simple(seq![0x61u8]))
        .insert(upper_seq("ROLLREVX"@), simple(seq![0x62u8]))
        .insert(upper_seq("BLKSWX"@), simple(seq![0x63u8]))
        .insert(upper_seq("REVX"@), simple(seq![0x64u8]))
        .insert(upper_seq("DROPX"@), simple(seq![0x65u8]))
        .insert(upper_seq("TUCK"@), simple(seq![0x66u8]))
        .insert(upper_seq("XCHGX"@), simple(seq![0x67u8]))
        .insert(upper_seq("DEPTH"@), simple(seq![0x68u8]))
        .insert(upper_seq("CHKDEPTH"@), simple(seq![0x69u8]))
        .insert(upper_seq("ONLYTOPX"@), simple(seq![0x6Au8]))
        .insert(upper_seq("ONLYX"@), simple(seq![0x6Bu8]))
        .insert(upper_seq("NULL"@), simple(seq![0x6Du8]))
        .insert(upper_seq("PUSHNULL"@), simple(seq![0x6Du8]))
        .insert(upper_seq("ISNULL"@), simple(seq![0x6Eu8]))
}

/// `m` with the TVM instructions for integer arithmetic and bitwise logic that take no parameters.
pub open spec fn with_arithmetic_commands(m: Map<Seq<char>, RuleView>) -> Map<Seq<char>, RuleView> {
    m
        .insert(upper_seq("ADD"@), simple(seq![0xA0u8]))
        .insert(upper_seq("SUB"@), simple(seq![0xA1u8]))
        .insert(upper_seq("SUBR"@), simple(seq![0xA2u8]))
        .insert(upper_seq("NEGATE"@), simple(seq![0xA3u8]))
        .insert(upper_seq("INC"@), simple(seq![0xA4u8]))
        .insert(upper_seq("DEC"@), simple(seq![0xA5u8]))
        .insert(upper_seq("MUL"@), simple(seq![0xA8u8]))
        .insert(upper_seq("DIV"@), simple(seq![0xA9u8, 0x04u8]))
        .insert(upper_seq("DIVR"@), simple(seq![0xA9u8, 0x05u8]))
        .insert(upper_seq("DIVC"@), simple(seq![0xA9u8, 0x06u8]))
        .insert(upper_seq("MOD"@), simple(seq![0xA9u8, 0x08u8]))
        .insert(upper_seq("DIVMOD"@), simple(seq![0xA9u8, 0x0Cu8]))
        .insert(upper_seq("DIVMODR"@), simple(seq![0xA9u8, 0x0Du8]))
        .insert(upper_seq("DIVMODC"@), simple(seq![0xA9u8, 0x0Eu8]))
        .insert(upper_seq("LSHIFT"@), simple(seq![0xACu8]))
        .insert(upper_seq("RSHIFT"@), simple(seq![0xADu8]))
        .insert(upper_seq("POW2"@), simple(seq![0xAEu8]))
        .insert(upper_seq("AND"@), simple(seq![0xB0u8]))
        .insert(upper_seq("OR"@), simple(seq![0xB1u8]))
        .insert(upper_seq("XOR"@), simple(seq![0xB2u8]))
        .insert(upper_seq("NOT"@), simple(seq![0xB3u8]))
        .insert(upper_seq("FITSX"@), simple(seq![0xB6u8, 0x00u8]))
        .insert(upper_seq("UFITSX"@), simple(seq![0xB6u8, 0x01u8]))
        .insert(upper_seq("BITSIZE"@), simple(seq![0xB6u8, 0x02u8]))
        .insert(upper_seq("UBITSIZE"@), simple(seq![0xB6u8, 0x03u8]))
        .insert(upper_seq("MIN"@), simple(seq![0xB6u8, 0x08u8]))
        .insert(upper_seq("MAX"@), simple(seq![0xB6u8, 0x09u8]))
        .insert(upper_seq("MINMAX"@), simple(seq![0xB6u8, 0x0Au8]))
        .insert(upper_seq("ABS"@), simple(seq![0xB6u8, 0x0Bu8]))
}

/// `m` with the TVM instructions for comparison of integers and slices that take no parameters.
pub open spec fn with_comparison_commands(m: Map<Seq<char>, RuleView>) -> Map<Seq<char>, RuleView> {
    m
        .insert(upper_seq("SGN"@), simple(seq![0xB8u8]))
        .insert(upper_seq("LESS"@), simple(seq![0xB9u8]))
        .insert(upper_seq("EQUAL"@), simple(seq![0xBAu8]))
        .insert(upper_seq("LEQ"@), simple(seq![0xBBu8]))
        .insert(upper_seq("GREATER"@), simple(seq![0xBCu8]))
        .insert(upper_seq("NEQ"@), simple(seq![0xBDu8]))
        .insert(upper_seq("GEQ"@), simple(seq![0xBEu8]))
        .insert(upper_seq("CMP"@), simple(seq![0xBFu8]))
        .insert(upper_seq("SEMPTY"@), simple(seq![0xC7u8, 0x00u8]))
        .insert(upper_seq("SDEMPTY"@), simple(seq![0xC7u8, 0x01u8]))
        .insert(upper_seq("SREMPTY"@), simple(seq![0xC7u8, 0x02u8]))
}

/// `m` with the TVM instructions for cell building and parsing that take no parameters.
pub open spec fn with_cell_commands(m: Map<Seq<char>, RuleView>) -> Map<Seq<char>, RuleView> {
    m
        .insert(upper_seq("NEWC"@), simple(seq![0xC8u8]))
        .insert(upper_seq("ENDC"@), simple(seq![0xC9u8]))
        .insert(upper_seq("STREF"@), simple(seq![0xCCu8]))
        .insert(upper_seq("STBREF"@), simple(seq![0xCDu8]))
        .insert(upper_seq("STSLICE"@), simple(seq![0xCEu8]))
        .insert(upper_seq("CTOS"@), simple(seq![0xD0u8]))
        .insert(upper_seq("ENDS"@), simple(seq![0xD1u8]))
        .insert(upper_seq("LDREF"@), simple(seq![0xD4u8]))
        .insert(upper_seq("LDREFRTOS"@), simple(seq![0xD5u8]))
}

/// `m` with the TVM instructions for control flow that take no parameters.
pub open spec fn with_control_commands(m: Map<Seq<char>, RuleView>) -> Map<Seq<char>, RuleView> {
    m
        .insert(upper_seq("EXECUTE"@), simple(seq![0xD8u8]))
        .insert(upper_seq("CALLX"@), simple(seq![0xD8u8]))
        .insert(upper_seq("JMPX"@), simple(seq![0xD9u8]))
        .insert(upper_seq("RET"@), simple(seq![0xDBu8, 0x30u8]))
        .insert(upper_seq("RETALT"@), simple(seq![0xDBu8, 0x31u8]))
        .insert(upper_seq("RETBOOL"@), simple(seq![0xDBu8, 0x32u8]))
        .insert(upper_seq("IFRET"@), simple(seq![0xDCu8]))
        .insert(upper_seq("IFNOTRET"@), simple(seq![0xDDu8]))
        .insert(upper_seq("IF"@), simple(seq![0xDEu8]))
        .insert(upper_seq("IFNOT"@), simple(seq![0xDFu8]))
        .insert(upper_seq("IFJMP"@), simple(seq![0xE0u8]))
        .insert(upper_seq("IFNOTJMP"@), simple(seq![0xE1u8]))
        .insert(upper_seq("IFELSE"@), simple(seq![0xE2u8]))
        .insert(upper_seq("REPEAT"@), simple(seq![0xE4u8]))
        .insert(upper_seq("REPEATEND"@), simple(seq![0xE5u8]))
        .insert(upper_seq("UNTIL"@), simple(seq![0xE6u8]))
        .insert(upper_seq("UNTILEND"@), simple(seq![0xE7u8]))
        .insert(upper_seq("WHILE"@), simple(seq![0xE8u8]))
        .insert(upper_seq("WHILEEND"@), simple(seq![0xE9u8]))
        .insert(upper_seq("AGAIN"@), simple(seq![0xEAu8]))
        .insert(upper_seq("AGAINEND"@), simple(seq![0xEBu8]))
}

/// `m` with the TVM instructions for blockchain-specific primitives that take no parameters.
pub open spec fn with_blockchain_commands(m: Map<Seq<char>, RuleView>) -> Map<Seq<char>, RuleView> {
    m
        .insert(upper_seq("ACCEPT"@), simple(seq![0xF8u8, 0x00u8]))
        .insert(upper_seq("SETGASLIMIT"@), simple(seq![0xF8u8, 0x01u8]))
        .insert(upper_seq("COMMIT"@), simple(seq![0xF8u8, 0x0Fu8]))
        .insert(upper_seq("NOW"@), simple(seq![0xF8u8, 0x23u8]))
        .insert(upper_seq("BLOCKLT"@), simple(seq![0xF8u8, 0x24u8]))
        .insert(upper_seq("LTIME"@), simple(seq![0xF8u8, 0x25u8]))
        .insert(upper_seq("BALANCE"@), simple(seq![0xF8u8, 0x27u8]))
        .insert(upper_seq("MYADDR"@), simple(seq![0xF8u8, 0x28u8]))
        .insert(upper_seq("CONFIGROOT"@), simple(seq![0xF8u8, 0x29u8]))
        .insert(upper_seq("HASHCU"@), simple(seq![0xF9u8, 0x00u8]))
        .insert(upper_seq("HASHSU"@), simple(seq![0xF9u8, 0x01u8]))
        .insert(upper_seq("SHA256U"@), simple(seq![0xF9u8, 0x02u8]))
        .insert(upper_seq("CHKSIGNU"@), simple(seq![0xF9u8, 0x10u8]))
        .insert(upper_seq("CHKSIGNS"@), simple(seq![0xF9u8, 0x11u8]))
        .insert(upper_seq("SENDRAWMSG"@), simple(seq![0xFBu8, 0x00u8]))
        .insert(upper_seq("RAWRESERVE"@), simple(seq![0xFBu8, 0x02u8]))
        .insert(upper_seq("SETCODE"@), simple(seq![0xFBu8, 0x04u8]))
}

/// The instructions that a new engine knows: those that take one operand,
/// then the TVM instructions that take no parameters, each emitting its
/// fixed opcode.
pub open spec fn builtin_commands() -> Map<Seq<char>, RuleView> {
    with_blockchain_commands(
        with_control_commands(
            with_cell_commands(
                with_comparison_commands(
                    with_arithmetic_commands(
                        with_stack_commands(with_operand_commands(Map::empty())),
                    ),
                ),
            ),
        ),
    )
}

impl Engine {
    /// Adds the instructions that take one operand.
    pub(crate) fn add_operand_commands(&mut self)
        ensures
            final(self).commands() == with_operand_commands(old(self).commands()),
            final(self).source_lines() == old(self).source_lines(),
            final(self).line() == old(self).line(),
            final(self).column() == old(self).column(),
            final(self).named() == old(self).named(),
    {
        self.add_command("PUSHINT", operand_rule(Operand::Integer));
        self.add_command("PUSH", operand_rule(Operand::Register(0x20, 0x56)));
        self.add_command("POP", operand_rule(Operand::Register(0x30, 0x57)));
        self.add_command("XCHG", operand_rule(Operand::Register(0x00, 0x11)));
    }

    fn add_stack_commands(&mut self)
        ensures
            final(self).commands() == with_stack_commands(old(self).commands()),
            final(self).source_lines() == old(self).source_lines(),
            final(self).line() == old(self).line(),
            final(self).column() == old(self).column(),
            final(self).named() == old(self).named(),
    {
        self.add_command("NOP", opcode1(0x00));
        self.add_command("SWAP", opcode1(0x01));
        self.add_command("DUP", opcode1(0x20));
        self.add_command("OVER", opcode1(0x21));
        self.add_command("DROP", opcode1(0x30));
        self.add_command("NIP", opcode1(0x31));
        self.add_command("ROT", opcode1(0x58));
        self.add_command("ROTREV", opcode1(0x59));
        self.add_command("SWAP2", opcode1(0x5A));
        self.add_command("DROP2", opcode1(0x5B));
        self.add_command("DUP2", opcode1(0x5C));
        self.add_command("OVER2", opcode1(0x5D));
        self.add_command("PICK", opcode1(0x60));
        self.add_command("PUSHX", opcode1(0x60));
        self.add_command("ROLLX", opcode1(0x61));
        self.add_command("ROLLREVX", opcode1(0x62));
        self.add_command("BLKSWX", opcode1(0x63));
        self.add_command("REVX", opcode1(0x64));
        self.add_command("DROPX", opcode1(0x65));
        self.add_command("TUCK", opcode1(0x66));
        self.add_command("XCHGX", opcode1(0x67));
        self.add_command("DEPTH", opcode1(0x68));
        self.add_command("CHKDEPTH", opcode1(0x69));
        self.add_command("ONLYTOPX", opcode1(0x6A));
        self.add_command("ONLYX", opcode1(0x6B));
        self.add_command("NULL", opcode1(0x6D));
        self.add_command("PUSHNULL", opcode1(0x6D));
        self.add_command("ISNULL", opcode1(0x6E));
    }

    fn add_arithmetic_commands(&mut self)
        ensures
            final(self).commands() == with_arithmetic_commands(old(self).commands()),
            final(self).source_lines() == old(self).source_lines(),
            final(self).line() == old(self).line(),
            final(self).column() == old(self).column(),
            final(self).named() == old(self).named(),
    {
        self.add_command("ADD", opcode1(0xA0));
        self.add_command("SUB", opcode1(0xA1));
        self.add_command("SUBR", opcode1(0xA2));
        self.add_command("NEGATE", opcode1(0xA3));
        self.add_command("INC", opcode1(0xA4));
        self.add_command("DEC", opcode1(0xA5));
        self.add_command("MUL", opcode1(0xA8));
        self.add_command("DIV", opcode2(0xA9, 0x04));
        self.add_command("DIVR", opcode2(0xA9, 0x05));
        self.add_command("DIVC", opcode2(0xA9, 0x06));
        self.add_command("MOD", opcode2(0xA9, 0x08));
        self.add_command("DIVMOD", opcode2(0xA9, 0x0C));
        self.add_command("DIVMODR", opcode2(0xA9, 0x0D));
        self.add_command("DIVMODC", opcode2(0xA9, 0x0E));
        self.add_command("LSHIFT", opcode1(0xAC));
        self.add_command("RSHIFT", opcode1(0xAD));
        self.add_command("POW2", opcode1(0xAE));
        self.add_command("AND", opcode1(0xB0));
        self.add_command("OR", opcode1(0xB1));
        self.add_command("XOR", opcode1(0xB2));
        self.add_command("NOT", opcode1(0xB3));
        self.add_command("FITSX", opcode2(0xB6, 0x00));
        self.add_command("UFITSX", opcode2(0xB6, 0x01));
        self.add_command("BITSIZE", opcode2(0xB6, 0x02));
        self.add_command("UBITSIZE", opcode2(0xB6, 0x03));
        self.add_command("MIN", opcode2(0xB6, 0x08));
        self.add_command("MAX", opcode2(0xB6, 0x09));
        self.add_command("MINMAX", opcode2(0xB6, 0x0A));
        self.add_command("ABS", opcode2(0xB6, 0x0B));
    }

    fn add_comparison_commands(&mut self)
        ensures
            final(self).commands() == with_comparison_commands(old(self).commands()),
            final(self).source_lines() == old(self).source_lines(),
            final(self).line() == old(self).line(),
            final(self).column() == old(self).column(),
            final(self).named() == old(self).named(),
    {
        self.add_command("SGN", opcode1(0xB8));
        self.add_command("LESS", opcode1(0xB9));
        self.add_command("EQUAL", opcode1(0xBA));
        self.add_command("LEQ", opcode1(0xBB));
        self.add_command("GREATER", opcode1(0xBC));
        self.add_command("NEQ", opcode1(0xBD));
        self.add_command("GEQ", opcode1(0xBE));
        self.add_command("CMP", opcode1(0xBF));
        self.add_command("SEMPTY", opcode2(0xC7, 0x00));
        self.add_command("SDEMPTY", opcode2(0xC7, 0x01));
        self.add_command("SREMPTY", opcode2(0xC7, 0x02));
    }

    fn add_cell_commands(&mut self)
        ensures
            final(self).commands() == with_cell_commands(old(self).commands()),
            final(self).source_lines() == old(self).source_lines(),
            final(self).line() == old(self).line(),
            final(self).column() == old(self).column(),
            final(self).named() == old(self).named(),
    {
        self.add_command("NEWC", opcode1(0xC8));
        self.add_command("ENDC", opcode1(0xC9));
        self.add_command("STREF", opcode1(0xCC));
        self.add_command("STBREF", opcode1(0xCD));
        self.add_command("STSLICE", opcode1(0xCE));
        self.add_command("CTOS", opcode1(0xD0));
        self.add_command("ENDS", opcode1(0xD1));
        self.add_command("LDREF", opcode1(0xD4));
        self.add_command("LDREFRTOS", opcode1(0xD5));
    }

    fn add_control_commands(&mut self)
        ensures
            final(self).commands() == with_control_commands(old(self).commands()),
            final(self).source_lines() == old(self).source_lines(),
            final(self).line() == old(self).line(),
            final(self).column() == old(self).column(),
            final(self).named() == old(self).named(),
    {
        self.add_command("EXECUTE", opcode1(0xD8));
        self.add_command("CALLX", opcode1(0xD8));
        self.add_command("JMPX", opcode1(0xD9));
        self.add_command("RET", opcode2(0xDB, 0x30));
        self.add_command("RETALT", opcode2(0xDB, 0x31));
        self.add_command("RETBOOL", opcode2(0xDB, 0x32));
        self.add_command("IFRET", opcode1(0xDC));
        self.add_command("IFNOTRET", opcode1(0xDD));
        self.add_command("IF", opcode1(0xDE));
        self.add_command("IFNOT", opcode1(0xDF));
        self.add_command("IFJMP", opcode1(0xE0));
        self.add_command("IFNOTJMP", opcode1(0xE1));
        self.add_command("IFELSE", opcode1(0xE2));
        self.add_command("REPEAT", opcode1(0xE4));
        self.add_command("REPEATEND", opcode1(0xE5));
        self.add_command("UNTIL", opcode1(0xE6));
        self.add_command("UNTILEND", opcode1(0xE7));
        self.add_command("WHILE", opcode1(0xE8));
        self.add_command("WHILEEND", opcode1(0xE9));
        self.add_command("AGAIN", opcode1(0xEA));
        self.add_command("AGAINEND", opcode1(0xEB));
    }

    fn add_blockchain_commands(&mut self)
        ensures
            final(self).commands() == with_blockchain_commands(old(self).commands()),
            final(self).source_lines() == old(self).source_lines(),
            final(self).line() == old(self).line(),
            final(self).column() == old(self).column(),
            final(self).named() == old(self).named(),
    {
        self.add_command("ACCEPT", opcode2(0xF8, 0x00));
        self.add_command("SETGASLIMIT", opcode2(0xF8, 0x01));
        self.add_command("COMMIT", opcode2(0xF8, 0x0F));
        self.add_command("NOW", opcode2(0xF8, 0x23));
        self.add_command("BLOCKLT", opcode2(0xF8, 0x24));
        self.add_command("LTIME", opcode2(0xF8, 0x25));
        self.add_command("BALANCE", opcode2(0xF8, 0x27));
        self.add_command("MYADDR", opcode2(0xF8, 0x28));
        self.add_command("CONFIGROOT", opcode2(0xF8, 0x29));
        self.add_command("HASHCU", opcode2(0xF9, 0x00));
        self.add_command("HASHSU", opcode2(0xF9, 0x01));
        self.add_command("SHA256U", opcode2(0xF9, 0x02));
        self.add_command("CHKSIGNU", opcode2(0xF9, 0x10));
        self.add_command("CHKSIGNS", opcode2(0xF9, 0x11));
        self.add_command("SENDRAWMSG", opcode2(0xFB, 0x00));
        self.add_command("RAWRESERVE", opcode2(0xFB, 0x02));
        self.add_command("SETCODE", opcode2(0xFB, 0x04));
    }

    /// Fills the instruction table with the TVM instructions that take no
    /// parameters.
    pub(crate) fn add_simple_commands(&mut self)
        ensures
            final(self).commands() == with_blockchain_commands(
                with_control_commands(
                    with_cell_commands(
                        with_comparison_commands(
                            with_arithmetic_commands(with_stack_commands(old(self).commands())),
                        ),
                    ),
                ),
            ),
            final(self).source_lines() == old(self).source_lines(),
            final(self).line() == old(self).line(),
            final(self).column() == old(self).column(),
            final(self).named() == old(self).named(),
    {
        self.add_stack_commands();
        self.add_arithmetic_commands();
        self.add_comparison_commands();
        self.add_cell_commands();
        self.add_control_commands();
        self.add_blockchain_commands();
    }
}

} // verus!
