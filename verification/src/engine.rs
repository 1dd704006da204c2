use crate::commands::builtin_commands;
use crate::debug::{lines_text, lines_to_string, DbgNode, DbgPos, DbgPosView, Line, Lines};
use crate::errors::{CompileError, CompileErrorView, OperationError, PositionView};
use crate::operands::{encode, encode_operand, lemma_encode_len, Operand};
use crate::text::{char_string, chars_eq, string_from_chars, str_chars, to_ascii_uppercase, upper_seq};
use crate::writer::{Unit, Units, MAX_CODE_BYTES};
use std::ops::RangeInclusive;
use vstd::prelude::*;

verus! {

// Parameter counts **********************************************************

/// `RangeInclusive::start`: the lower bound the range was made with.
pub assume_specification<Idx>[ RangeInclusive::<Idx>::start ](r: &RangeInclusive<Idx>) -> (res:
    &Idx)
    ensures
        *res == r@.start,
;

/// `RangeInclusive::end`: the upper bound the range was made with.
pub assume_specification<Idx>[ RangeInclusive::<Idx>::end ](r: &RangeInclusive<Idx>) -> (res:
    &Idx)
    ensures
        *res == r@.end,
;

/// What a command answers to `len` parameters when it takes from `start`
/// to `end` of them.
pub open spec fn count_check(len: nat, start: nat, end: nat) -> Result<(), OperationError> {
    if len < start {
        Err(OperationError::MissingRequiredParameters)
    } else if len > end {
        Err(OperationError::TooManyParameters)
    } else {
        Ok(())
    }
}

/// Checks of the number of parameters a command was given.
trait EnsureParametersCountInRange {
    spec fn count(&self) -> nat;

    fn assert_empty(&self) -> (res: Result<(), OperationError>)
        ensures
            res == count_check(self.count(), 0, 0),
    ;

    fn assert_len(&self, n: usize) -> (res: Result<(), OperationError>)
        ensures
            res == count_check(self.count(), n as nat, n as nat),
    ;

    fn assert_len_in(&self, range: RangeInclusive<usize>) -> (res: Result<(), OperationError>)
        ensures
            res == count_check(self.count(), range@.start as nat, range@.end as nat),
    ;
}

impl<T> EnsureParametersCountInRange for [T] {
    spec fn count(&self) -> nat {
        self@.len()
    }

    fn assert_empty(&self) -> (res: Result<(), OperationError>) {
        self.assert_len_in(0..=0)
    }

    fn assert_len(&self, n: usize) -> (res: Result<(), OperationError>) {
        self.assert_len_in(n..=n)
    }

    fn assert_len_in(&self, range: RangeInclusive<usize>) -> (res: Result<(), OperationError>) {
        if self.len() < *range.start() {
            Err(OperationError::MissingRequiredParameters)
        } else if self.len() > *range.end() {
            Err(OperationError::TooManyParameters)
        } else {
            Ok(())
        }
    }
}


// Instruction table ***********************************************************

/// The most opcode bytes that one command emits.
pub const MAX_OPCODE_BYTES: usize = 8;

/// How one command of the instruction table is compiled: it takes from
/// `min_params` to `max_params` parameters and emits the code that
/// `operand` makes of `opcode` and the parameter texts (see `encode`).
#[derive(Debug)]
pub struct CommandRule {
    pub opcode: Vec<u8>,
    pub operand: Operand,
    pub min_params: usize,
    pub max_params: usize,
}

/// A command rule taken by value.
pub ghost struct RuleView {
    pub opcode: Seq<u8>,
    pub operand: Operand,
    pub min_params: usize,
    pub max_params: usize,
}

impl View for CommandRule {
    type V = RuleView;

    open spec fn view(&self) -> RuleView {
        RuleView {
            opcode: self.opcode@,
            operand: self.operand,
            min_params: self.min_params,
            max_params: self.max_params,
        }
    }
}

/// What a command with rule `r` answers to the parameter texts `params`:
/// its code, or the error about their number or their form.
pub open spec fn rule_result(r: RuleView, params: Seq<Seq<char>>) -> Result<Seq<u8>, OperationError> {
    match count_check(params.len(), r.min_params as nat, r.max_params as nat) {
        Err(e) => Err(e),
        Ok(_) => encode(r.operand, r.opcode, params),
    }
}

fn copy_bytes(v: &Vec<u8>) -> (res: Vec<u8>)
    ensures
        res@ == v@,
{
    let mut res: Vec<u8> = Vec::new();
    let mut i: usize = 0;
    while i < v.len()
        invariant
            i <= v.len(),
            res@ == v@.take(i as int),
        decreases v.len() - i,
    {
        res.push(v[i]);
        assert(v@.take(i + 1) =~= v@.take(i as int).push(v@[i as int]));
        i = i + 1;
    }
    assert(v@.take(v.len() as int) =~= v@);
    res
}

impl Clone for CommandRule {
    fn clone(&self) -> (res: Self)
        ensures
            res@ == self@,
    {
        CommandRule {
            opcode: copy_bytes(&self.opcode),
            operand: self.operand,
            min_params: self.min_params,
            max_params: self.max_params,
        }
    }
}

impl CommandRule {
    /// Runs the command on `params`: checks their number and form and, when
    /// they are accepted, writes the code it makes of them with `pos` as
    /// its source position.
    fn apply(&self, params: &[&Vec<char>], destination: &mut Units, pos: DbgPos) -> (res: Result<
        (),
        OperationError,
    >)
        requires
            self.opcode@.len() <= MAX_OPCODE_BYTES,
            old(destination).code().len() + MAX_OPCODE_BYTES <= MAX_CODE_BYTES,
        ensures
            match rule_result(self@, params@.map_values(|p: &Vec<char>| p@)) {
                Ok(bytes) => {
                    &&& res is Ok
                    &&& final(destination).code() == old(destination).code() + bytes
                    &&& final(destination).positions() == old(destination).positions().insert(
                        (old(destination).code().len() * 8) as usize,
                        pos@,
                    )
                },
                Err(e) => res == Err::<(), OperationError>(e) && *final(destination) == *old(
                    destination,
                ),
            },
    {
        params.assert_len_in(self.min_params..=self.max_params)?;
        let bytes = encode_operand(self.operand, &self.opcode, params)?;
        proof {
            lemma_encode_len(self.operand, self.opcode@, params@.map_values(|p: &Vec<char>| p@));
        }
        let ghost base = destination.positions();
        let ghost off = (destination.code().len() * 8) as usize;
        let node = DbgNode::from(pos);
        destination.write_command(bytes.as_slice(), node);
        assert(destination.positions() =~= base.insert(off, pos@));
        Ok(())
    }
}

/// One entry of the instruction table: an upper-case command name and its rule.
struct Handler {
    name: Vec<char>,
    rule: CommandRule,
}

/// The rule that the table gives to `name`: the last entry of that name.
spec fn lookup(hs: Seq<Handler>, name: Seq<char>) -> Option<RuleView>
    decreases hs.len(),
{
    if hs.len() == 0 {
        None
    } else if hs.last().name@ == name {
        Some(hs.last().rule@)
    } else {
        lookup(hs.drop_last(), name)
    }
}

spec fn table_of(hs: Seq<Handler>) -> Map<Seq<char>, RuleView> {
    Map::new(|k: Seq<char>| lookup(hs, k) is Some, |k: Seq<char>| lookup(hs, k).unwrap())
}

proof fn lemma_lookup_rule_small(hs: Seq<Handler>, name: Seq<char>)
    requires
        forall|j: int| 0 <= j < hs.len() ==> #[trigger] hs[j].rule.opcode@.len() <= MAX_OPCODE_BYTES,
    ensures
        lookup(hs, name) matches Some(r) ==> r.opcode.len() <= MAX_OPCODE_BYTES,
    decreases hs.len(),
{
    if hs.len() > 0 {
        lemma_lookup_rule_small(hs.drop_last(), name);
        assert(hs.last() == hs[hs.len() - 1]);
    }
}

// Positions ********************************************************************

/// Where an error found at line `y`, column `x` of the source is reported:
/// at the file and line that the source line `y` came from when there is
/// such a line (lines count from 1), else at line `y` with no file name.
pub open spec fn pos_at(lines: Seq<Line>, y: usize, x: usize) -> PositionView {
    if 1 <= y && y - 1 < lines.len() {
        PositionView {
            filename: lines[y - 1].pos.filename@,
            line: lines[y - 1].pos.line,
            column: x,
        }
    } else {
        PositionView { filename: Seq::empty(), line: y, column: x }
    }
}

/// The source position recorded for a command found on source line `y`:
/// that of the line, or no file and line 0 when there is no such line.
pub open spec fn unit_pos(lines: Seq<Line>, y: usize) -> DbgPosView {
    if 1 <= y && y - 1 < lines.len() {
        lines[y - 1].pos@
    } else {
        DbgPosView { filename: Seq::empty(), line: 0 }
    }
}

fn line_at(lines: &Lines, y: usize) -> (res: Option<&Line>)
    ensures
        match res {
            Some(l) => 1 <= y && y - 1 < lines@.len() && *l == lines@[y - 1],
            None => !(1 <= y && y - 1 < lines@.len()),
        },
{
    if y >= 1 && y - 1 < lines.len() {
        Some(&lines[y - 1])
    } else {
        None
    }
}

fn locate(lines: &Lines, y: usize, x: usize) -> (res: crate::errors::Position)
    ensures
        res@ == pos_at(lines@, y, x),
{
    match line_at(lines, y) {
        Some(line) => crate::errors::Position::new(line.pos.filename.clone(), line.pos.line, x),
        None => crate::errors::Position::new(String::new(), y, x),
    }
}

fn source_pos(lines: &Lines, y: usize) -> (res: DbgPos)
    ensures
        res@ == unit_pos(lines@, y),
{
    match line_at(lines, y) {
        Some(line) => line.pos.clone(),
        None => DbgPos::default(),
    }
}


// Tokens and command contexts ***********************************************

/// A parameter as found in the source: where it starts, its text, and
/// whether a comma came before it.
pub ghost struct TokenModel {
    pub line: usize,
    pub column: usize,
    pub text: Seq<char>,
    pub was_comma: bool,
}

struct Token {
    line: usize,
    column: usize,
    token: Vec<char>,
    was_comma: bool,
}

impl View for Token {
    type V = TokenModel;

    closed spec fn view(&self) -> TokenModel {
        TokenModel { line: self.line, column: self.column, text: self.token@, was_comma: self.was_comma }
    }
}

impl Token {
    fn new(line: usize, column: usize, token: Vec<char>, was_comma: bool) -> (res: Self)
        ensures
            res@ == (TokenModel { line, column, text: token@, was_comma }),
    {
        Self { line, column, token, was_comma }
    }
}

/// The tokens taken by value.
spec fn tokens_view(v: Seq<Token>) -> Seq<TokenModel> {
    v.map_values(|t: Token| t@)
}

/// The command being collected: its upper-case name, where it stands,
/// where its block parameter starts, and its rule (none before the first
/// command).
pub ghost struct CtxModel {
    pub operation: Seq<char>,
    pub line_no_cmd: usize,
    pub char_no_cmd: usize,
    pub line_no_par: usize,
    pub char_no_par: usize,
    pub rule: Option<RuleView>,
}

struct CommandContext {
    operation: String,
    line_no_cmd: usize,
    char_no_cmd: usize,
    line_no_par: usize,
    char_no_par: usize,
    rule_option: Option<CommandRule>,
}

impl View for CommandContext {
    type V = CtxModel;

    closed spec fn view(&self) -> CtxModel {
        CtxModel {
            operation: self.operation@,
            line_no_cmd: self.line_no_cmd,
            char_no_cmd: self.char_no_cmd,
            line_no_par: self.line_no_par,
            char_no_par: self.char_no_par,
            rule: match self.rule_option {
                Some(r) => Some(r@),
                None => None,
            },
        }
    }
}

/// The index of the first token in `lo..n` that no comma came before.
pub open spec fn missing_comma(par: Seq<TokenModel>, lo: int, n: int) -> Option<int>
    decreases n - lo,
{
    if lo >= n {
        None
    } else if !par[lo].was_comma {
        Some(lo)
    } else {
        missing_comma(par, lo + 1, n)
    }
}

/// The one command that takes two blocks with no comma between them.
pub open spec fn two_block_command() -> Seq<char> {
    seq!['I', 'F', 'R', 'E', 'F', 'E', 'L', 'S', 'E', 'R', 'E', 'F']
}

/// What compiling the pending command gives.
pub ghost enum CtxOutcome {
    /// It compiled (or there was none): the code, positions and
    /// parameters after it.
    Done(Seq<u8>, Map<usize, DbgPosView>, Seq<TokenModel>),
    /// The command refused its parameters (too few of them, or one of the
    /// wrong form or out of range); the engine's position was moved to the
    /// given line and column.
    Aborted(CompileErrorView, usize, usize),
    /// Any other error, found after the command took its parameters: the
    /// command is no longer pending, and the parameters left are given.
    Fail(CompileErrorView, Seq<TokenModel>),
}

/// The texts of the parameters.
pub open spec fn token_texts(par: Seq<TokenModel>) -> Seq<Seq<char>> {
    par.map_values(|t: TokenModel| t.text)
}

/// The number of parameters that the pending command takes: as many as
/// there are, but no more than its rule allows.
pub open spec fn taken(count: int, r: RuleView) -> int {
    if count <= r.max_params {
        count
    } else {
        r.max_params as int
    }
}

/// Compiling the pending command `ctx` with the parameters `par` onto the
/// code and positions written so far.
pub open spec fn ctx_compile(
    lines: Seq<Line>,
    ctx: CtxModel,
    par: Seq<TokenModel>,
    code: Seq<u8>,
    positions: Map<usize, DbgPosView>,
) -> CtxOutcome {
    match ctx.rule {
        None => CtxOutcome::Done(code, positions, par),
        Some(r) => {
            let n = taken(par.len() as int, r);
            match rule_result(r, token_texts(par.take(n))) {
                Err(error) => CtxOutcome::Aborted(
                    CompileErrorView::Operation(
                        pos_at(lines, ctx.line_no_cmd, ctx.char_no_cmd),
                        ctx.operation,
                        error,
                    ),
                    ctx.line_no_par,
                    ctx.char_no_par,
                ),
                Ok(bytes) => {
                    if n > 1 && ctx.operation != two_block_command() && missing_comma(par, 1, n)
                        is Some {
                        let t = par[missing_comma(par, 1, n).unwrap()];
                        CtxOutcome::Fail(
                            CompileErrorView::Syntax(pos_at(lines, t.line, t.column), "Missing comma"@),
                            par,
                        )
                    } else if n < par.len() {
                        let t = par[n];
                        if t.was_comma || n == 0 {
                            CtxOutcome::Fail(
                                CompileErrorView::Operation(
                                    pos_at(lines, t.line, t.column),
                                    ctx.operation,
                                    OperationError::TooManyParameters,
                                ),
                                par.subrange(n + 1, par.len() as int),
                            )
                        } else {
                            CtxOutcome::Fail(
                                CompileErrorView::UnknownOperation(pos_at(lines, t.line, t.column), t.text),
                                par.subrange(n + 1, par.len() as int),
                            )
                        }
                    } else {
                        CtxOutcome::Done(
                            code + bytes,
                            positions.insert((code.len() * 8) as usize, unit_pos(lines, ctx.line_no_cmd)),
                            Seq::empty(),
                        )
                    }
                },
            }
        },
    }
}

/// A command's compiled code is at most `MAX_OPCODE_BYTES` long.
proof fn lemma_ctx_compile_grows(
    lines: Seq<Line>,
    ctx: CtxModel,
    par: Seq<TokenModel>,
    code: Seq<u8>,
    positions: Map<usize, DbgPosView>,
)
    requires
        ctx.rule matches Some(r) ==> r.opcode.len() <= MAX_OPCODE_BYTES,
    ensures
        ctx_compile(lines, ctx, par, code, positions) matches CtxOutcome::Done(c2, _, _) ==> c2.len()
            <= code.len() + MAX_OPCODE_BYTES,
{
    if let Some(r) = ctx.rule {
        let n = taken(par.len() as int, r);
        lemma_encode_len(r.operand, r.opcode, token_texts(par.take(n)));
    }
}

// Compilation engine *********************************************************

struct NamedUnit {
    name: String,
    unit: Unit,
}

/// A compiled unit taken by value: its code, and the source position of
/// each instruction by bit offset.
pub type UnitView = (Seq<u8>, Map<usize, DbgPosView>);

pub open spec fn unit_view(u: &Unit) -> UnitView {
    (u.builder@, u.dbg.offsets@.map_values(|p: DbgPos| p@))
}

/// The unit that was last kept under `name`.
spec fn lookup_unit(us: Seq<NamedUnit>, name: Seq<char>) -> Option<UnitView>
    decreases us.len(),
{
    if us.len() == 0 {
        None
    } else if us.last().name@ == name {
        Some(unit_view(&us.last().unit))
    } else {
        lookup_unit(us.drop_last(), name)
    }
}

/// The assembler: the source lines being compiled, the current line and
/// column, the instruction table and the units compiled under a name.
pub struct Engine {
    line_no: usize,
    char_no: usize,
    lines: Lines,
    handlers: Vec<Handler>,
    named_units: Vec<NamedUnit>,
}

impl Engine {
    /// Every command of the table emits at most `MAX_OPCODE_BYTES` bytes,
    /// and every unit kept under a name has no child nodes.
    spec fn wf(&self) -> bool {
        &&& forall|j: int|
            0 <= j < self.handlers@.len() ==> #[trigger] self.handlers@[j].rule.opcode@.len()
                <= MAX_OPCODE_BYTES
        &&& forall|j: int|
            0 <= j < self.named_units@.len() ==> #[trigger] self.named_units@[j].unit.dbg.children@.len()
                == 0
    }

    #[verifier::type_invariant]
    spec fn inv(self) -> bool {
        self.wf()
    }

    /// The instruction table: upper-case command name to rule.
    pub closed spec fn commands(&self) -> Map<Seq<char>, RuleView> {
        table_of(self.handlers@)
    }

    /// The units compiled under a name, by name.
    pub closed spec fn named(&self) -> Map<Seq<char>, UnitView> {
        Map::new(
            |k: Seq<char>| lookup_unit(self.named_units@, k) is Some,
            |k: Seq<char>| lookup_unit(self.named_units@, k).unwrap(),
        )
    }

    /// The source lines of the last compilation.
    pub closed spec fn source_lines(&self) -> Seq<Line> {
        self.lines@
    }

    /// The current line.
    pub closed spec fn line(&self) -> usize {
        self.line_no
    }

    /// The current column.
    pub closed spec fn column(&self) -> usize {
        self.char_no
    }

    /// The engine moved to line `line_no`, column `char_no`, with all else
    /// kept.
    pub closed spec fn moved(self, line_no: usize, char_no: usize) -> Engine {
        Engine { line_no, char_no, ..self }
    }

    /// Moves the engine to line `line_no`, column `char_no`, and gives back
    /// where it was.
    fn set_pos(&mut self, line_no: usize, char_no: usize) -> (res: (usize, usize))
        ensures
            res == (old(self).line(), old(self).column()),
            *final(self) == old(self).moved(line_no, char_no),
            res == (old(self).line_no, old(self).char_no),
            final(self).line_no == line_no,
            final(self).char_no == char_no,
            final(self).lines == old(self).lines,
            final(self).handlers == old(self).handlers,
            final(self).named_units == old(self).named_units,
    {
        proof {
            use_type_invariant(&*self);
        }
        let l = self.line_no;
        self.line_no = line_no;
        let c = self.char_no;
        self.char_no = char_no;
        (l, c)
    }

    fn is_whitespace(x: char) -> (res: bool)
        ensures
            res == is_space(x),
    {
        x == ' ' || x == '\n' || x == '\r' || x == '\t'
    }
}

/// Moving the engine somewhere and then back to where it was gives the
/// engine it was: a second `set_pos` with what the first returned undoes
/// the first, and each move puts the engine at the line and column given.
pub proof fn law_set_pos_undone(e: Engine, line_no: usize, char_no: usize)
    ensures
        e.moved(line_no, char_no).line() == line_no,
        e.moved(line_no, char_no).column() == char_no,
        e.moved(line_no, char_no).moved(e.line(), e.column()) == e,
        e.moved(line_no, char_no).commands() == e.commands(),
        e.moved(line_no, char_no).source_lines() == e.source_lines(),
        e.moved(line_no, char_no).named() == e.named(),
{
}

/// Blank characters: space, line feed, carriage return and tab.
pub open spec fn is_space(x: char) -> bool {
    x == ' ' || x == '\n' || x == '\r' || x == '\t'
}


impl Default for CommandContext {
    fn default() -> (res: Self)
        ensures
            res@.operation == Seq::<char>::empty(),
            res@.line_no_cmd == 0,
            res@.char_no_cmd == 0,
            res@.line_no_par == 0,
            res@.char_no_par == 0,
            res@.rule is None,
    {
        Self {
            operation: String::new(),
            line_no_cmd: 0,
            char_no_cmd: 0,
            line_no_par: 0,
            char_no_par: 0,
            rule_option: None,
        }
    }
}

impl CommandContext {
    fn new(operation: String, char_no_cmd: usize, line_no_cmd: usize, rule_option: Option<
        CommandRule,
    >) -> (res: Self)
        ensures
            res.operation == operation,
            res.line_no_cmd == line_no_cmd,
            res.char_no_cmd == char_no_cmd,
            res.line_no_par == 0,
            res.char_no_par == 0,
            res.rule_option == rule_option,
    {
        Self { operation, line_no_cmd, char_no_cmd, line_no_par: 0, char_no_par: 0, rule_option }
    }

    fn has_command(&self) -> (res: bool)
        ensures
            res == self@.rule is Some,
    {
        self.rule_option.is_some()
    }

    /// The error `error` of this command, reported where the command stands.
    fn abort<X>(&self, error: OperationError, engine: &Engine) -> (res: Result<X, CompileError>)
        ensures
            res matches Err(e) && e@ == CompileErrorView::Operation(
                pos_at(engine.lines@, self.line_no_cmd, self.char_no_cmd),
                self.operation@,
                error,
            ),
    {
        Err(
            CompileError::Operation(
                locate(&engine.lines, self.line_no_cmd, self.char_no_cmd),
                self.operation.clone(),
                error,
            ),
        )
    }

    /// Compiles the pending command, if any, with as many of the collected
    /// parameters as it takes; see `ctx_compile`.
    fn compile(&mut self, destination: &mut Units, par: &mut Vec<Token>, engine: &mut Engine) -> (res:
        Result<(), CompileError>)
        requires
            old(destination).code().len() + MAX_OPCODE_BYTES <= MAX_CODE_BYTES,
            old(self)@.rule matches Some(r) ==> r.opcode.len() <= MAX_OPCODE_BYTES,
        ensures
            final(engine).lines == old(engine).lines,
            final(engine).handlers == old(engine).handlers,
            final(engine).named_units == old(engine).named_units,
            match ctx_compile(
                old(engine).lines@,
                old(self)@,
                tokens_view(old(par)@),
                old(destination).code(),
                old(destination).positions(),
            ) {
                CtxOutcome::Done(code, positions, p) => {
                    &&& res is Ok
                    &&& final(destination).code() == code
                    &&& final(destination).positions() == positions
                    &&& tokens_view(final(par)@) == p
                    &&& final(engine).line_no == old(engine).line_no
                    &&& final(engine).char_no == old(engine).char_no
                    &&& final(self)@ == (CtxModel { rule: None, ..old(self)@ })
                },
                CtxOutcome::Aborted(e, l, c) => {
                    &&& res matches Err(err) && err@ == e
                    &&& final(engine).line_no == l
                    &&& final(engine).char_no == c
                    &&& *final(destination) == *old(destination)
                    &&& final(par)@ == old(par)@
                    &&& *final(self) == *old(self)
                },
                CtxOutcome::Fail(e, p) => {
                    &&& res matches Err(err) && err@ == e
                    &&& tokens_view(final(par)@) == p
                    &&& final(self)@ == (CtxModel { rule: None, ..old(self)@ })
                },
            },
    {
        let rule = match &self.rule_option {
            Some(rule) => rule,
            None => {
                return Ok(());
            },
        };
        let (line_no, char_no) = engine.set_pos(self.line_no_par, self.char_no_par);
        let ghost r = rule@;
        let ghost count = par@.len() as int;
        let mut n: usize = par.len();
        loop
            invariant_except_break
                n <= par@.len(),
                n == par@.len() || n >= r.max_params,
                *destination == *old(destination),
            invariant
                rule@ == r,
                r.opcode.len() <= MAX_OPCODE_BYTES,
                count == par@.len(),
                par@ == old(par)@,
                old(self)@.rule == Some(r),
                *self == *old(self),
                engine.lines == old(engine).lines,
                engine.handlers == old(engine).handlers,
                engine.named_units == old(engine).named_units,
                engine.line_no == self.line_no_par,
                engine.char_no == self.char_no_par,
                old(destination).code().len() + MAX_OPCODE_BYTES <= MAX_CODE_BYTES,
            ensures
                n == taken(count, r),
                rule_result(r, token_texts(tokens_view(par@).take(n as int))) matches Ok(bytes)
                    && destination.code() == old(destination).code() + bytes,
                destination.positions() == old(destination).positions().insert(
                    (old(destination).code().len() * 8) as usize,
                    unit_pos(engine.lines@, self.line_no_cmd),
                ),
            decreases n,
        {
            let mut params: Vec<&Vec<char>> = Vec::new();
            let mut j: usize = 0;
            while j < n
                invariant
                    j <= n,
                    n <= par@.len(),
                    params@.len() == j,
                    forall|k: int| 0 <= k < j ==> (#[trigger] params@[k])@ == par@[k].token@,
                decreases n - j,
            {
                params.push(&par[j].token);
                j = j + 1;
            }
            assert(params@.map_values(|p: &Vec<char>| p@) =~= token_texts(
                tokens_view(par@).take(n as int),
            ));
            let pos = source_pos(&engine.lines, self.line_no_cmd);
            match rule.apply(params.as_slice(), destination, pos) {
                Ok(_) => {
                    break ;
                },
                Err(OperationError::TooManyParameters) => {
                    if n != 0 {
                        n = n - 1;
                    } else {
                        return self.abort(OperationError::TooManyParameters, engine);
                    }
                },
                Err(e) => {
                    return self.abort(e, engine);
                },
            }
        }
        engine.set_pos(line_no, char_no);
        proof {
            reveal_strlit("IFREFELSEREF");
        }
        let two_blocks = String::from_str("IFREFELSEREF");
        assert("IFREFELSEREF"@ =~= two_block_command());
        self.rule_option = None;
        if n > 1 && !(self.operation == two_blocks) {
            let mut j: usize = 1;
            while j < n
                invariant
                    1 <= j <= n,
                    n <= par@.len(),
                    par@ == old(par)@,
                    engine.lines == old(engine).lines,
                    engine.handlers == old(engine).handlers,
                    engine.named_units == old(engine).named_units,
                    n == taken(count, r),
                    rule_result(r, token_texts(tokens_view(par@).take(n as int))) is Ok,
                    count == par@.len(),
                    old(self)@.rule == Some(r),
                    self@ == (CtxModel { rule: None, ..old(self)@ }),
                    self.operation@ != two_block_command(),
                    missing_comma(tokens_view(par@), 1, n as int) == missing_comma(
                        tokens_view(par@),
                        j as int,
                        n as int,
                    ),
                decreases n - j,
            {
                assert(tokens_view(par@)[j as int] == par@[j as int]@);
                if !par[j].was_comma {
                    let token = &par[j];
                    return Err(
                        CompileError::Syntax(
                            locate(&engine.lines, token.line, token.column),
                            String::from_str("Missing comma"),
                        ),
                    );
                }
                j = j + 1;
            }
        }
        let ghost before = par@;
        let rest = par.split_off(n);
        *par = rest;
        assert(tokens_view(par@) =~= tokens_view(before).subrange(n as int, before.len() as int));
        if par.len() > 0 {
            let token = par.remove(0);
            assert(token@ == tokens_view(before)[n as int]);
            assert(tokens_view(par@) =~= tokens_view(before).subrange(n + 1, before.len() as int));
            let position = locate(&engine.lines, token.line, token.column);
            if token.was_comma || n == 0 {
                return Err(
                    CompileError::Operation(
                        position,
                        self.operation.clone(),
                        OperationError::TooManyParameters,
                    ),
                );
            } else {
                return Err(CompileError::UnknownOperation(position, string_from_chars(&token.token)));
            }
        }
        assert(tokens_view(par@) =~= Seq::<TokenModel>::empty());
        Ok(())
    }
}


// The scanner, as a function of the source ************************************

/// Characters that a word (a command name or a parameter) is made of.
pub open spec fn is_token_char(c: char) -> bool {
    ('a' <= c <= 'z') || ('A' <= c <= 'Z') || ('0' <= c <= '9') || c == '-' || c == '_' || c == '.'
}

/// Everything the scanner keeps between two characters: code and
/// positions written so far, parameters collected for the pending command,
/// where the current word (or block) starts, the comma and line-break
/// flags, block depth, whether inside a comment, the pending command, and
/// the engine's line and column.
pub ghost struct ScanModel {
    pub code: Seq<u8>,
    pub positions: Map<usize, DbgPosView>,
    pub par: Seq<TokenModel>,
    pub start: int,
    pub expect_comma: bool,
    pub comma_found: bool,
    pub was_comma: bool,
    pub was_newline: bool,
    pub in_block: nat,
    pub in_comment: bool,
    pub ctx: CtxModel,
    pub line_no: usize,
    pub char_no: usize,
}

/// The scanner before the first character, at line `line0`, column `char0`.
pub open spec fn initial_scan(line0: usize, char0: usize) -> ScanModel {
    ScanModel {
        code: Seq::empty(),
        positions: Map::empty(),
        par: Seq::empty(),
        start: 0,
        expect_comma: false,
        comma_found: false,
        was_comma: false,
        was_newline: false,
        in_block: 0,
        in_comment: false,
        ctx: CtxModel {
            operation: Seq::empty(),
            line_no_cmd: 0,
            char_no_cmd: 0,
            line_no_par: 0,
            char_no_par: 0,
            rule: None,
        },
        line_no: line0,
        char_no: char0,
    }
}

/// An error that says a command lacks parameters.
pub open spec fn is_missing_error(e: CompileErrorView) -> bool {
    e matches CompileErrorView::Operation(_, _, o) && o == OperationError::MissingRequiredParameters
}

/// The line and column moved past the character `ch`.
pub open spec fn advance(s: ScanModel, ch: char) -> ScanModel {
    if ch == '\n' {
        ScanModel { line_no: (s.line_no + 1) as usize, char_no: 1, ..s }
    } else {
        ScanModel { char_no: (s.char_no + 1) as usize, ..s }
    }
}

/// A word `text` has ended; `x`, `y` are the column and line of the
/// character that ended it and `b` the state after that character. A
/// command name compiles the pending command and starts a new one; any
/// other word becomes a parameter of the pending command.
pub open spec fn end_token(
    table: Map<Seq<char>, RuleView>,
    lines: Seq<Line>,
    text: Seq<char>,
    b: ScanModel,
    newline_found: bool,
    x: usize,
    y: usize,
) -> Result<ScanModel, CompileErrorView> {
    let name = upper_seq(text);
    let col = (x - text.len()) as usize;
    let param = TokenModel { line: y, column: col, text, was_comma: b.was_comma };
    if !table.contains_key(name) {
        if b.ctx.rule is Some {
            Ok(ScanModel { par: b.par.push(param), was_comma: false, ..b })
        } else {
            Err(CompileErrorView::UnknownOperation(pos_at(lines, y, col), name))
        }
    } else {
        match ctx_compile(lines, b.ctx, b.par, b.code, b.positions) {
            CtxOutcome::Done(code, positions, par) => Ok(
                ScanModel {
                    code,
                    positions,
                    par,
                    ctx: CtxModel {
                        operation: name,
                        line_no_cmd: y,
                        char_no_cmd: col,
                        line_no_par: 0,
                        char_no_par: 0,
                        rule: Some(table[name]),
                    },
                    expect_comma: false,
                    was_comma: false,
                    was_newline: newline_found,
                    ..b
                },
            ),
            CtxOutcome::Aborted(e, l, c) => {
                if b.was_newline || !is_missing_error(e) {
                    Err(e)
                } else {
                    Ok(
                        ScanModel {
                            line_no: l,
                            char_no: c,
                            par: b.par.push(param),
                            was_comma: false,
                            ..b
                        },
                    )
                }
            },
            CtxOutcome::Fail(e, _) => Err(e),
        }
    }
}

/// The scanner's move on the character `src[i]`.
pub open spec fn step(
    table: Map<Seq<char>, RuleView>,
    lines: Seq<Line>,
    src: Seq<char>,
    i: int,
    s: ScanModel,
) -> Result<ScanModel, CompileErrorView> {
    let ch = src[i];
    let x = s.char_no;
    let y = s.line_no;
    let a = advance(s, ch);
    if s.in_block > 0 {
        let depth: nat = if ch == '{' {
            s.in_block + 1
        } else if ch == '}' {
            (s.in_block - 1) as nat
        } else {
            s.in_block
        };
        if depth == 0 {
            Ok(
                ScanModel {
                    in_block: 0,
                    par: a.par.push(
                        TokenModel {
                            line: y,
                            column: x,
                            text: src.subrange(s.start, i),
                            was_comma: s.comma_found,
                        },
                    ),
                    start: i + 1,
                    ..a
                },
            )
        } else {
            Ok(ScanModel { in_block: depth, ..a })
        }
    } else if s.in_comment {
        if ch == '\r' || ch == '\n' {
            Ok(ScanModel { in_comment: false, was_newline: true, start: i + 1, ..a })
        } else {
            Ok(ScanModel { start: i + 1, ..a })
        }
    } else if is_space(ch) {
        let nl = ch == '\r' || ch == '\n';
        let b = ScanModel { was_newline: s.was_newline || nl, start: i + 1, ..a };
        if s.start == i {
            Ok(b)
        } else {
            end_token(table, lines, src.subrange(s.start, i), b, nl, x, y)
        }
    } else if ch == ';' {
        let b = ScanModel { in_comment: true, start: i + 1, ..a };
        if s.start == i {
            Ok(b)
        } else {
            end_token(table, lines, src.subrange(s.start, i), b, false, x, y)
        }
    } else if ch == ',' {
        if !s.expect_comma {
            Err(CompileErrorView::Syntax(pos_at(lines, y, x), seq![',']))
        } else {
            let b = ScanModel { start: i + 1, expect_comma: false, comma_found: true, ..a };
            if s.start == i {
                Ok(b)
            } else {
                end_token(table, lines, src.subrange(s.start, i), b, false, x, y)
            }
        }
    } else if ch == '{' {
        if s.expect_comma || s.ctx.rule is None {
            Err(CompileErrorView::Syntax(pos_at(lines, y, x), seq!['{']))
        } else {
            Ok(
                ScanModel {
                    start: i + 1,
                    in_block: 1,
                    ctx: CtxModel { line_no_par: a.line_no, char_no_par: a.char_no, ..s.ctx },
                    ..a
                },
            )
        }
    } else if ch == '}' {
        Err(CompileErrorView::Syntax(pos_at(lines, y, x), seq!['}']))
    } else if is_token_char(ch) {
        if s.start == i {
            Ok(ScanModel { was_comma: s.comma_found, comma_found: false, expect_comma: true, ..a })
        } else {
            Ok(a)
        }
    } else {
        Err(CompileErrorView::Syntax(pos_at(lines, y, x), "Bad char"@))
    }
}

/// The scanner after the first `n` characters of `src`, or the first error.
pub open spec fn scan(
    table: Map<Seq<char>, RuleView>,
    lines: Seq<Line>,
    src: Seq<char>,
    n: int,
    init: ScanModel,
) -> Result<ScanModel, CompileErrorView>
    decreases n,
{
    if n <= 0 {
        Ok(init)
    } else {
        match scan(table, lines, src, n - 1, init) {
            Ok(s) => step(table, lines, src, n - 1, s),
            Err(e) => Err(e),
        }
    }
}

/// After the last character: the pending command is compiled, and a block
/// still open is an error.
pub open spec fn finish(lines: Seq<Line>, s: ScanModel) -> Result<
    (Seq<u8>, Map<usize, DbgPosView>),
    CompileErrorView,
> {
    match ctx_compile(lines, s.ctx, s.par, s.code, s.positions) {
        CtxOutcome::Done(code, positions, _) => {
            if s.in_block != 0 {
                Err(CompileErrorView::Syntax(pos_at(lines, s.line_no, 0), "Missing }"@))
            } else {
                Ok((code, positions))
            }
        },
        CtxOutcome::Aborted(e, _, _) => Err(e),
        CtxOutcome::Fail(e, _) => Err(e),
    }
}

/// What compiling `source` gives: the code and the source position of each
/// command by bit offset, or the first error. The source is read with one
/// blank appended, from line `line0`, column `char0`; `lines` says where
/// each source line came from and `table` is the instruction table.
pub open spec fn compile_result(
    table: Map<Seq<char>, RuleView>,
    lines: Seq<Line>,
    line0: usize,
    char0: usize,
    source: Seq<char>,
) -> Result<(Seq<u8>, Map<usize, DbgPosView>), CompileErrorView> {
    let src = source.push(' ');
    match scan(table, lines, src, src.len() as int, initial_scan(line0, char0)) {
        Ok(s) => finish(lines, s),
        Err(e) => Err(e),
    }
}

pub(crate) proof fn lemma_scan_err_stays(
    table: Map<Seq<char>, RuleView>,
    lines: Seq<Line>,
    src: Seq<char>,
    k: int,
    n: int,
    init: ScanModel,
)
    requires
        0 <= k <= n,
        scan(table, lines, src, k, init) is Err,
    ensures
        scan(table, lines, src, n, init) == scan(table, lines, src, k, init),
    decreases n - k,
{
    if k < n {
        lemma_scan_err_stays(table, lines, src, k, n - 1, init);
    }
}


// The scanner, executed *******************************************************

/// The longest source, in characters, that one compilation reads; it keeps
/// the bit offset of every written instruction within a `usize`.
pub const MAX_SOURCE_CHARS: usize = 0x03ff_ffe0;

struct ScanState {
    ret: Units,
    par: Vec<Token>,
    start: usize,
    expect_comma: bool,
    comma_found: bool,
    was_comma: bool,
    was_newline: bool,
    in_block: usize,
    in_comment: bool,
    ctx: CommandContext,
}

spec fn model(st: ScanState, e: Engine) -> ScanModel {
    ScanModel {
        code: st.ret.code(),
        positions: st.ret.positions(),
        par: tokens_view(st.par@),
        start: st.start as int,
        expect_comma: st.expect_comma,
        comma_found: st.comma_found,
        was_comma: st.was_comma,
        was_newline: st.was_newline,
        in_block: st.in_block as nat,
        in_comment: st.in_comment,
        ctx: st.ctx@,
        line_no: e.line_no,
        char_no: e.char_no,
    }
}

/// Bounds that hold of the scanner before character `i`: the code grows by
/// at most `MAX_OPCODE_BYTES` per character, positions grow by at most one
/// per character from `bound`, and a word in progress started on the
/// current line.
spec fn sane(s: ScanModel, i: int, bound: int) -> bool {
    &&& 0 <= s.start <= i
    &&& s.code.len() <= MAX_OPCODE_BYTES * i
    &&& s.line_no <= bound + i
    &&& s.char_no <= bound + i
    &&& s.ctx.line_no_par <= bound + i
    &&& s.ctx.char_no_par <= bound + i
    &&& s.in_block <= i
    &&& s.in_comment ==> s.start == i && s.in_block == 0
    &&& (s.in_block == 0 && !s.in_comment && s.start < i) ==> s.char_no >= i - s.start
    &&& s.ctx.rule matches Some(r) ==> r.opcode.len() <= MAX_OPCODE_BYTES
}

proof fn lemma_table_small(hs: Seq<Handler>)
    requires
        forall|j: int| 0 <= j < hs.len() ==> #[trigger] hs[j].rule.opcode@.len() <= MAX_OPCODE_BYTES,
    ensures
        forall|k: Seq<char>| #[trigger] table_of(hs).contains_key(k) ==> table_of(hs)[k].opcode.len()
            <= MAX_OPCODE_BYTES,
{
    assert forall|k: Seq<char>| #[trigger] table_of(hs).contains_key(k) implies table_of(
        hs,
    )[k].opcode.len() <= MAX_OPCODE_BYTES by {
        lemma_lookup_rule_small(hs, k);
    }
}

proof fn lemma_end_token_sane(
    table: Map<Seq<char>, RuleView>,
    lines: Seq<Line>,
    text: Seq<char>,
    b: ScanModel,
    nl: bool,
    x: usize,
    y: usize,
    i: int,
    bound: int,
)
    requires
        0 <= i,
        b.start == i + 1,
        b.code.len() <= MAX_OPCODE_BYTES * i,
        b.line_no <= bound + i + 1,
        b.char_no <= bound + i + 1,
        b.ctx.line_no_par <= bound + i,
        b.ctx.char_no_par <= bound + i,
        b.in_block == 0,
        b.ctx.rule matches Some(r) ==> r.opcode.len() <= MAX_OPCODE_BYTES,
        forall|k: Seq<char>| #[trigger] table.contains_key(k) ==> table[k].opcode.len()
            <= MAX_OPCODE_BYTES,
    ensures
        end_token(table, lines, text, b, nl, x, y) matches Ok(s2) ==> sane(s2, i + 1, bound),
{
    lemma_ctx_compile_grows(lines, b.ctx, b.par, b.code, b.positions);
}

fn sub_chars(src: &Vec<char>, from: usize, to: usize) -> (res: Vec<char>)
    requires
        from <= to <= src@.len(),
    ensures
        res@ == src@.subrange(from as int, to as int),
{
    let mut res: Vec<char> = Vec::new();
    let mut k: usize = from;
    while k < to
        invariant
            from <= k <= to,
            to <= src@.len(),
            res@ == src@.subrange(from as int, k as int),
        decreases to - k,
    {
        res.push(src[k]);
        assert(src@.subrange(from as int, k + 1) =~= src@.subrange(from as int, k as int).push(
            src@[k as int],
        ));
        k = k + 1;
    }
    res
}

fn is_token_char_exec(c: char) -> (res: bool)
    ensures
        res == is_token_char(c),
{
    ('a' <= c && c <= 'z') || ('A' <= c && c <= 'Z') || ('0' <= c && c <= '9') || c == '-' || c
        == '_' || c == '.'
}

fn is_missing(e: &CompileError) -> (res: bool)
    ensures
        res == is_missing_error(e@),
{
    match e {
        CompileError::Operation(_, _, OperationError::MissingRequiredParameters) => true,
        _ => false,
    }
}

impl Engine {
    /// The rule that the table gives to `name`.
    fn find_rule(&self, name: &Vec<char>) -> (res: Option<CommandRule>)
        ensures
            match res {
                Some(r) => self.commands().contains_key(name@) && self.commands()[name@] == r@,
                None => !self.commands().contains_key(name@),
            },
    {
        let mut k: usize = self.handlers.len();
        assert(self.handlers@.take(k as int) =~= self.handlers@);
        while k > 0
            invariant
                k <= self.handlers@.len(),
                lookup(self.handlers@, name@) == lookup(self.handlers@.take(k as int), name@),
            decreases k,
        {
            let ghost hs = self.handlers@.take(k as int);
            assert(hs.drop_last() =~= self.handlers@.take(k - 1));
            assert(hs.last() == self.handlers@[k - 1]);
            if chars_eq(self.handlers[k - 1].name.as_slice(), name.as_slice()) {
                return Some(self.handlers[k - 1].rule.clone());
            }
            k = k - 1;
        }
        None
    }

    /// The word `text`, which ended at the character before column `x` of
    /// line `y`; see `end_token`.
    fn end_token(
        &mut self,
        st: &mut ScanState,
        text: Vec<char>,
        newline_found: bool,
        x: usize,
        y: usize,
    ) -> (res: Result<(), CompileError>)
        requires
            old(self).wf(),
            old(st).ret.code().len() + MAX_OPCODE_BYTES <= MAX_CODE_BYTES,
            text@.len() <= x,
            old(st).ctx@.rule matches Some(r) ==> r.opcode.len() <= MAX_OPCODE_BYTES,
        ensures
            final(self).lines == old(self).lines,
            final(self).handlers == old(self).handlers,
            final(self).named_units == old(self).named_units,
            match end_token(
                old(self).commands(),
                old(self).lines@,
                text@,
                model(*old(st), *old(self)),
                newline_found,
                x,
                y,
            ) {
                Ok(s2) => res is Ok && model(*final(st), *final(self)) == s2,
                Err(e) => res matches Err(err) && err@ == e,
            },
    {
        let ghost b = model(*st, *self);
        let token = to_ascii_uppercase(text.as_slice());
        let col = x - text.len();
        match self.find_rule(&token) {
            None => {
                if st.ctx.has_command() {
                    st.par.push(Token::new(y, col, text, st.was_comma));
                    st.was_comma = false;
                    assert(tokens_view(st.par@) =~= b.par.push(
                        TokenModel { line: y, column: col, text: text@, was_comma: b.was_comma },
                    ));
                    Ok(())
                } else {
                    Err(CompileError::UnknownOperation(locate(&self.lines, y, col), string_from_chars(&token)))
                }
            },
            Some(rule) => {
                proof {
                    lemma_lookup_rule_small(self.handlers@, token@);
                }
                match st.ctx.compile(&mut st.ret, &mut st.par, self) {
                    Ok(()) => {
                        st.ctx = CommandContext::new(string_from_chars(&token), col, y, Some(rule));
                        st.expect_comma = false;
                        st.was_comma = false;
                        st.was_newline = newline_found;
                        Ok(())
                    },
                    Err(e) => {
                        if is_missing(&e) {
                            if st.was_newline {
                                Err(e)
                            } else {
                                let ghost p0 = tokens_view(st.par@);
                                st.par.push(Token::new(y, col, text, st.was_comma));
                                st.was_comma = false;
                                assert(tokens_view(st.par@) =~= p0.push(
                                    TokenModel { line: y, column: col, text: text@, was_comma: b.was_comma },
                                ));
                                Ok(())
                            }
                        } else {
                            Err(e)
                        }
                    },
                }
            },
        }
    }

    /// Compiles `source` read from the current line and column; see
    /// `compile_result`.
    fn compile(&mut self, source: &str) -> (res: Result<Units, CompileError>)
        requires
            old(self).wf(),
            source@.len() <= MAX_SOURCE_CHARS,
            old(self).line_no <= MAX_SOURCE_CHARS,
            old(self).char_no <= MAX_SOURCE_CHARS,
        ensures
            final(self).lines == old(self).lines,
            final(self).handlers == old(self).handlers,
            final(self).named_units == old(self).named_units,
            match compile_result(
                old(self).commands(),
                old(self).lines@,
                old(self).line_no,
                old(self).char_no,
                source@,
            ) {
                Ok((code, positions)) => res matches Ok(u) && u.code() == code
                    && u.positions() == positions,
                Err(e) => res matches Err(err) && err@ == e,
            },
    {
        let mut chars = str_chars(source);
        chars.push(' ');
        let ghost table = self.commands();
        let ghost lines = self.lines@;
        let ghost init = initial_scan(self.line_no, self.char_no);
        let ghost bound = MAX_SOURCE_CHARS as int;
        let mut st = ScanState {
            ret: Units::new(),
            par: Vec::new(),
            start: 0,
            expect_comma: false,
            comma_found: false,
            was_comma: false,
            was_newline: false,
            in_block: 0,
            in_comment: false,
            ctx: CommandContext::default(),
        };
        assert(tokens_view(st.par@) =~= Seq::<TokenModel>::empty());
        assert(model(st, *self) == init);
        let mut i: usize = 0;
        while i < chars.len()
            invariant
                i <= chars@.len(),
                chars@ == source@.push(' '),
                chars@.len() <= MAX_SOURCE_CHARS + 1,
                bound == MAX_SOURCE_CHARS as int,
                self.wf(),
                self.commands() == table,
                self.lines@ == lines,
                self.lines == old(self).lines,
                self.handlers == old(self).handlers,
                self.named_units == old(self).named_units,
                init == initial_scan(old(self).line_no, old(self).char_no),
                scan(table, lines, chars@, i as int, init) == Ok::<ScanModel, CompileErrorView>(
                    model(st, *self),
                ),
                sane(model(st, *self), i as int, bound),
            decreases chars@.len() - i,
        {
            let r = self.scan_char(&mut st, &chars, i, Ghost(bound));
            match r {
                Ok(()) => {},
                Err(e) => {
                    proof {
                        lemma_scan_err_stays(table, lines, chars@, i + 1, chars@.len() as int, init);
                    }
                    return Err(e);
                },
            }
            i = i + 1;
        }
        st.ctx.compile(&mut st.ret, &mut st.par, self)?;
        if st.in_block != 0 {
            return Err(
                CompileError::Syntax(
                    locate(&self.lines, self.line_no, 0),
                    String::from_str("Missing }"),
                ),
            );
        }
        Ok(st.ret)
    }

    /// An engine for the given source lines, at line 1, column 1, with the
    /// built-in instructions in its table (see `builtin_commands`) and no
    /// named units.
    pub fn new(lines: Lines) -> (res: Self)
        ensures
            res.commands() == builtin_commands(),
            res.source_lines() == lines@,
            res.line() == 1,
            res.column() == 1,
            res.named() == Map::<Seq<char>, UnitView>::empty(),
    {
        let mut res = Self {
            line_no: 1,
            char_no: 1,
            lines,
            handlers: Vec::new(),
            named_units: Vec::new(),
        };
        assert(res.commands() =~= Map::<Seq<char>, RuleView>::empty());
        assert(res.named() =~= Map::<Seq<char>, UnitView>::empty());
        res.add_operand_commands();
        res.add_simple_commands();
        res
    }

    /// Adds the command `name` to the instruction table under its
    /// upper-case form, replacing a command of that name.
    pub fn add_command(&mut self, name: &str, rule: CommandRule)
        requires
            rule.opcode@.len() <= MAX_OPCODE_BYTES,
        ensures
            final(self).commands() == old(self).commands().insert(upper_seq(name@), rule@),
            final(self).source_lines() == old(self).source_lines(),
            final(self).line() == old(self).line(),
            final(self).column() == old(self).column(),
            final(self).named() == old(self).named(),
    {
        proof {
            use_type_invariant(&*self);
        }
        let upper = to_ascii_uppercase(str_chars(name).as_slice());
        let ghost old_hs = self.handlers@;
        let mut handlers = Vec::new();
        std::mem::swap(&mut handlers, &mut self.handlers);
        handlers.push(Handler { name: upper, rule });
        self.handlers = handlers;
        assert(self.handlers@.drop_last() =~= old_hs);
        assert(self.commands() =~= old(self).commands().insert(upper_seq(name@), rule@));
    }

    /// The unit last compiled under `name`.
    pub fn unit(&self, name: &str) -> (res: Option<&Unit>)
        ensures
            match res {
                Some(u) => self.named().contains_key(name@) && self.named()[name@] == unit_view(u)
                    && u.dbg.children@.len() == 0,
                None => !self.named().contains_key(name@),
            },
    {
        proof {
            use_type_invariant(self);
        }
        let key = str_chars(name);
        let mut k: usize = self.named_units.len();
        assert(self.named_units@.take(k as int) =~= self.named_units@);
        while k > 0
            invariant
                k <= self.named_units@.len(),
                key@ == name@,
                self.wf(),
                lookup_unit(self.named_units@, key@) == lookup_unit(
                    self.named_units@.take(k as int),
                    key@,
                ),
            decreases k,
        {
            let ghost us = self.named_units@.take(k as int);
            assert(us.drop_last() =~= self.named_units@.take(k - 1));
            assert(us.last() == self.named_units@[k - 1]);
            let entry_name = str_chars(self.named_units[k - 1].name.as_str());
            if chars_eq(entry_name.as_slice(), key.as_slice()) {
                assert(lookup_unit(us, key@) == Some(unit_view(&self.named_units@[k - 1].unit)));
                return Some(&self.named_units[k - 1].unit);
            }
            k = k - 1;
        }
        None
    }

    /// Compiles `lines`, joined into one source, from line 1, column 1; the
    /// engine keeps `lines` to report positions, and a unit compiled under a
    /// name is kept under that name.
    pub fn build(&mut self, name: Option<String>, lines: Lines) -> (res: Result<Unit, CompileError>)
        requires
            lines_text(lines@).len() <= MAX_SOURCE_CHARS,
        ensures
            final(self).commands() == old(self).commands(),
            final(self).source_lines() == lines@,
            match compile_result(old(self).commands(), lines@, 1, 1, lines_text(lines@)) {
                Ok((code, positions)) => {
                    &&& res matches Ok(u) && unit_view(&u) == (code, positions)
                        && u.dbg.children@.len() == 0
                    &&& final(self).named() == match name {
                        Some(n) => old(self).named().insert(n@, (code, positions)),
                        None => old(self).named(),
                    }
                },
                Err(e) => res matches Err(err) && err@ == e && final(self).named() == old(
                    self,
                ).named(),
            },
    {
        proof {
            use_type_invariant(&*self);
        }
        let source = lines_to_string(&lines);
        self.lines = lines;
        self.line_no = 1;
        self.char_no = 1;
        let (builder, dbg) = self.compile(source.as_str())?.finalize();
        let unit = Unit::new(builder, dbg);
        if let Some(name) = name {
            let copy = Unit::new(
                copy_bytes(&unit.builder),
                DbgNode { offsets: unit.dbg.offsets.clone(), children: Vec::new() },
            );
            let ghost old_us = self.named_units@;
            let mut units = Vec::new();
            std::mem::swap(&mut units, &mut self.named_units);
            units.push(NamedUnit { name, unit: copy });
            self.named_units = units;
            assert(self.named_units@.drop_last() =~= old_us);
            assert(self.named() =~= old(self).named().insert(self.named_units@.last().name@, unit_view(&unit)));
        }
        Ok(unit)
    }

    /// The scanner's move on the character `src[i]`; see `step`.
    fn scan_char(&mut self, st: &mut ScanState, src: &Vec<char>, i: usize, Ghost(bound): Ghost<int>) -> (res:
        Result<(), CompileError>)
        requires
            old(self).wf(),
            i < src@.len(),
            0 <= bound,
            bound + src@.len() < usize::MAX,
            MAX_OPCODE_BYTES * (src@.len() + 1) <= MAX_CODE_BYTES,
            sane(model(*old(st), *old(self)), i as int, bound),
        ensures
            final(self).lines == old(self).lines,
            final(self).handlers == old(self).handlers,
            final(self).named_units == old(self).named_units,
            match step(
                old(self).commands(),
                old(self).lines@,
                src@,
                i as int,
                model(*old(st), *old(self)),
            ) {
                Ok(s2) => {
                    &&& res is Ok
                    &&& model(*final(st), *final(self)) == s2
                    &&& sane(s2, i + 1, bound)
                },
                Err(e) => res matches Err(err) && err@ == e,
            },
    {
        let ghost s = model(*st, *self);
        let ch = src[i];
        let mut newline_found = false;
        let x = self.char_no;
        let y = self.line_no;
        if ch == '\n' {
            self.line_no = self.line_no + 1;
            self.char_no = 1;
        } else {
            self.char_no = self.char_no + 1;
        }
        assert(model(*st, *self) == advance(s, ch));
        let s0 = st.start;
        if st.in_block > 0 {
            if ch == '{' {
                st.in_block = st.in_block + 1;
            } else if ch == '}' {
                st.in_block = st.in_block - 1;
            }
            if st.in_block == 0 {
                let ghost p0 = tokens_view(st.par@);
                let text = sub_chars(src, s0, i);
                st.par.push(Token::new(y, x, text, st.comma_found));
                st.start = i + 1;
                assert(tokens_view(st.par@) =~= p0.push(
                    TokenModel {
                        line: y,
                        column: x,
                        text: src@.subrange(s0 as int, i as int),
                        was_comma: s.comma_found,
                    },
                ));
            }
            return Ok(());
        }
        if st.in_comment {
            if ch == '\r' || ch == '\n' {
                st.in_comment = false;
                st.was_newline = true;
            }
            st.start = i + 1;
            return Ok(());
        }
        if Engine::is_whitespace(ch) {
            if ch == '\r' || ch == '\n' {
                newline_found = true;
                st.was_newline = true;
            }
            st.start = i + 1;
            if s0 == i {
                return Ok(());
            }
        } else if ch == ';' {
            st.start = i + 1;
            st.in_comment = true;
            if s0 == i {
                return Ok(());
            }
        } else if ch == ',' {
            if !st.expect_comma {
                return Err(CompileError::Syntax(locate(&self.lines, y, x), char_string(',')));
            }
            st.start = i + 1;
            st.expect_comma = false;
            st.comma_found = true;
            if s0 == i {
                return Ok(());
            }
        } else if ch == '{' {
            if st.expect_comma || !st.ctx.has_command() {
                return Err(CompileError::Syntax(locate(&self.lines, y, x), char_string('{')));
            }
            st.start = i + 1;
            st.in_block = 1;
            st.ctx.line_no_par = self.line_no;
            st.ctx.char_no_par = self.char_no;
            return Ok(());
        } else if ch == '}' {
            return Err(CompileError::Syntax(locate(&self.lines, y, x), char_string('}')));
        } else if is_token_char_exec(ch) {
            if s0 == i {
                st.was_comma = st.comma_found;
                st.comma_found = false;
                st.expect_comma = true;
            }
            return Ok(());
        } else {
            return Err(CompileError::Syntax(locate(&self.lines, y, x), String::from_str("Bad char")));
        }
        let text = sub_chars(src, s0, i);
        proof {
            lemma_table_small(self.handlers@);
            lemma_end_token_sane(
                self.commands(),
                self.lines@,
                text@,
                model(*st, *self),
                newline_found,
                x,
                y,
                i as int,
                bound,
            );
        }
        self.end_token(st, text, newline_found, x, y)
    }
}

/// Compiles `code` with a new engine that has no source lines, from line 1,
/// column 1: the code and its positions.
pub fn compile_code_to_bytes(code: &str) -> (res: Result<(Vec<u8>, DbgNode), CompileError>)
    requires
        code@.len() <= MAX_SOURCE_CHARS,
    ensures
        match compile_result(builtin_commands(), Seq::empty(), 1, 1, code@) {
            Ok((bytes, positions)) => res matches Ok((b, d)) && b@ == bytes
                && d.offsets@.map_values(|p: DbgPos| p@) == positions && d.children@.len() == 0,
            Err(e) => res matches Err(err) && err@ == e,
        },
{
    let mut engine = Engine::new(Vec::new());
    proof {
        use_type_invariant(&engine);
    }
    assert(engine.lines@ =~= Seq::<Line>::empty());
    let units = engine.compile(code)?;
    Ok(units.finalize())
}


} // verus!
