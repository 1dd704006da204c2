use crate::debug::{lines_text, shifted, DbgPos, DbgPosView, Line};
use crate::engine::{
    advance, compile_result, ctx_compile, end_token, finish, initial_scan, is_space, is_token_char, scan,
    is_missing_error, pos_at, rule_result, step, taken, token_texts, unit_pos, lemma_scan_err_stays, CtxModel, CtxOutcome, Engine, RuleView,
    ScanModel, TokenModel, MAX_OPCODE_BYTES, MAX_SOURCE_CHARS,
};
use crate::engine::count_check;
use crate::errors::{CompileErrorView, OperationError};
use crate::operands::{digits_value, encode, is_digit, lemma_encode_len, Operand};
use crate::text::{decimal, upper_char, upper_seq};
use crate::writer::MAX_CODE_BYTES;
use vstd::prelude::*;

verus! {

/// Joining the texts of two runs of lines gives the joined texts of each.
pub proof fn law_lines_text_concat(a: Seq<Line>, b: Seq<Line>)
    ensures
        lines_text(a + b) == lines_text(a) + lines_text(b),
    decreases b.len(),
{
    if b.len() == 0 {
        assert(a + b =~= a);
    } else {
        law_lines_text_concat(a, b.drop_last());
        assert((a + b).drop_last() =~= a + b.drop_last());
        assert((a + b).last() == b.last());
    }
}

/// Inlining a node that holds only `pos` at offset 0 records `pos` at the
/// inlining offset, as appending it there does.
pub proof fn law_inline_single_position(m: Map<usize, DbgPos>, offset: usize, pos: DbgPos)
    ensures
        m.union_prefer_right(shifted(Map::empty().insert(0, pos), offset)) == m.insert(offset, pos),
{
    let s = shifted(Map::<usize, DbgPos>::empty().insert(0, pos), offset);
    assert(s =~= Map::<usize, DbgPos>::empty().insert(offset, pos));
    assert(m.union_prefer_right(s) =~= m.insert(offset, pos));
}

spec fn idle_after(s: ScanModel, n: int, line0: usize, char0: usize) -> bool {
    let i = initial_scan(line0, char0);
    &&& s.code == i.code
    &&& s.positions == i.positions
    &&& s.par == i.par
    &&& s.start == n
    &&& s.in_block == 0
    &&& !s.in_comment
    &&& s.ctx == i.ctx
}

proof fn lemma_blank_scan(
    table: Map<Seq<char>, RuleView>,
    lines: Seq<Line>,
    src: Seq<char>,
    n: int,
    line0: usize,
    char0: usize,
)
    requires
        0 <= n <= src.len(),
        forall|j: int| 0 <= j < src.len() ==> is_space(#[trigger] src[j]),
    ensures
        scan(table, lines, src, n, initial_scan(line0, char0)) matches Ok(s) && idle_after(
            s,
            n,
            line0,
            char0,
        ),
    decreases n,
{
    if n > 0 {
        lemma_blank_scan(table, lines, src, n - 1, line0, char0);
        assert(is_space(src[n - 1]));
    }
}

/// A source made of blank characters only compiles, to no code and no
/// positions, whatever the instruction table.
pub proof fn law_blank_source_compiles_to_nothing(
    table: Map<Seq<char>, RuleView>,
    lines: Seq<Line>,
    line0: usize,
    char0: usize,
    source: Seq<char>,
)
    requires
        forall|j: int| 0 <= j < source.len() ==> is_space(#[trigger] source[j]),
    ensures
        compile_result(table, lines, line0, char0, source) == Ok::<
            (Seq<u8>, Map<usize, DbgPosView>),
            crate::errors::CompileErrorView,
        >((Seq::empty(), Map::empty())),
{
    let src = source.push(' ');
    assert forall|j: int| 0 <= j < src.len() implies is_space(#[trigger] src[j]) by {
        if j < source.len() {
            assert(src[j] == source[j]);
        }
    }
    lemma_blank_scan(table, lines, src, src.len() as int, line0, char0);
}


/// Every recorded position is at a byte boundary inside the code.
pub open spec fn positions_inside(code: Seq<u8>, positions: Map<usize, DbgPosView>) -> bool {
    forall|k: usize| #[trigger] positions.contains_key(k) ==> k % 8 == 0 && k < 8 * code.len()
}

/// Every command of the table has an opcode of at most `MAX_OPCODE_BYTES`
/// bytes, and one that takes no operand has an opcode of at least one byte.
pub open spec fn table_emits(table: Map<Seq<char>, RuleView>) -> bool {
    forall|k: Seq<char>| #[trigger] table.contains_key(k) ==> table[k].opcode.len() <= MAX_OPCODE_BYTES
        && (table[k].operand == Operand::Plain ==> 0 < table[k].opcode.len())
}

spec fn placed(s: ScanModel, n: int) -> bool {
    &&& positions_inside(s.code, s.positions)
    &&& s.code.len() <= MAX_OPCODE_BYTES * n
    &&& s.ctx.rule matches Some(r) ==> r.opcode.len() <= MAX_OPCODE_BYTES && (r.operand
        == Operand::Plain ==> 0 < r.opcode.len())
}

proof fn lemma_ctx_compile_placed(
    lines: Seq<Line>,
    ctx: CtxModel,
    par: Seq<TokenModel>,
    code: Seq<u8>,
    positions: Map<usize, DbgPosView>,
)
    requires
        positions_inside(code, positions),
        code.len() + MAX_OPCODE_BYTES <= MAX_CODE_BYTES,
        ctx.rule matches Some(r) ==> r.opcode.len() <= MAX_OPCODE_BYTES && (r.operand
            == Operand::Plain ==> 0 < r.opcode.len()),
    ensures
        ctx_compile(lines, ctx, par, code, positions) matches CtxOutcome::Done(c2, p2, _)
            ==> positions_inside(c2, p2) && c2.len() <= code.len() + MAX_OPCODE_BYTES,
{
    if let CtxOutcome::Done(c2, p2, _) = ctx_compile(lines, ctx, par, code, positions) {
        if let Some(r) = ctx.rule {
            let n = taken(par.len() as int, r);
            lemma_encode_len(r.operand, r.opcode, token_texts(par.take(n)));
            assert(code.len() * 8 <= usize::MAX);
            assert forall|k: usize| #[trigger] p2.contains_key(k) implies k % 8 == 0 && k < 8
                * c2.len() by {
                if k != (code.len() * 8) as usize {
                    assert(positions.contains_key(k));
                }
            }
        }
    }
}

proof fn lemma_step_placed(
    table: Map<Seq<char>, RuleView>,
    lines: Seq<Line>,
    src: Seq<char>,
    i: int,
    s: ScanModel,
)
    requires
        0 <= i < src.len(),
        src.len() <= MAX_SOURCE_CHARS + 1,
        table_emits(table),
        placed(s, i),
    ensures
        step(table, lines, src, i, s) matches Ok(s2) ==> placed(s2, i + 1),
{
    assert(s.code.len() + MAX_OPCODE_BYTES <= MAX_CODE_BYTES) by (nonlinear_arith)
        requires
            s.code.len() <= MAX_OPCODE_BYTES * i,
            i < MAX_SOURCE_CHARS + 1,
    ;
    lemma_ctx_compile_placed(lines, s.ctx, s.par, s.code, s.positions);
}

proof fn lemma_scan_placed(
    table: Map<Seq<char>, RuleView>,
    lines: Seq<Line>,
    src: Seq<char>,
    n: int,
    line0: usize,
    char0: usize,
)
    requires
        0 <= n <= src.len(),
        src.len() <= MAX_SOURCE_CHARS + 1,
        table_emits(table),
    ensures
        scan(table, lines, src, n, initial_scan(line0, char0)) matches Ok(s) ==> placed(s, n),
    decreases n,
{
    if n > 0 {
        lemma_scan_placed(table, lines, src, n - 1, line0, char0);
        if let Ok(s) = scan(table, lines, src, n - 1, initial_scan(line0, char0)) {
            lemma_step_placed(table, lines, src, n - 1, s);
        }
    }
}

/// When every command of the table emits at least one byte, each position
/// that a compilation records is the bit offset of a byte inside the code.
pub proof fn law_positions_inside_code(
    table: Map<Seq<char>, RuleView>,
    lines: Seq<Line>,
    line0: usize,
    char0: usize,
    source: Seq<char>,
)
    requires
        table_emits(table),
        source.len() <= MAX_SOURCE_CHARS,
    ensures
        compile_result(table, lines, line0, char0, source) matches Ok((code, positions))
            ==> positions_inside(code, positions),
{
    let src = source.push(' ');
    lemma_scan_placed(table, lines, src, src.len() as int, line0, char0);
    if let Ok(s) = scan(table, lines, src, src.len() as int, initial_scan(line0, char0)) {
        assert(s.code.len() + MAX_OPCODE_BYTES <= MAX_CODE_BYTES) by (nonlinear_arith)
            requires
                s.code.len() <= MAX_OPCODE_BYTES * src.len(),
                src.len() <= MAX_SOURCE_CHARS + 1,
        ;
        lemma_ctx_compile_placed(lines, s.ctx, s.par, s.code, s.positions);
    }
}


proof fn lemma_word_scan(
    table: Map<Seq<char>, RuleView>,
    lines: Seq<Line>,
    src: Seq<char>,
    k: int,
    line0: usize,
    char0: usize,
)
    requires
        1 <= k < src.len(),
        char0 + src.len() < usize::MAX,
        forall|j: int| 0 <= j < k ==> is_token_char(#[trigger] src[j]),
    ensures
        scan(table, lines, src, k, initial_scan(line0, char0)) == Ok::<
            ScanModel,
            CompileErrorView,
        >(
            ScanModel {
                start: 0,
                expect_comma: true,
                char_no: (char0 + k) as usize,
                ..initial_scan(line0, char0)
            },
        ),
    decreases k,
{
    let init = initial_scan(line0, char0);
    if k > 1 {
        lemma_word_scan(table, lines, src, k - 1, line0, char0);
        assert(is_token_char(src[k - 1]));
        let s = ScanModel { start: 0, expect_comma: true, char_no: (char0 + k - 1) as usize, ..init };
        assert(scan(table, lines, src, k - 1, init) == Ok::<ScanModel, CompileErrorView>(s));
        assert(step(table, lines, src, k - 1, s) == Ok::<ScanModel, CompileErrorView>(
            ScanModel { start: 0, expect_comma: true, char_no: (char0 + k) as usize, ..init }));
    } else {
        assert(is_token_char(src[0]));
        assert(scan(table, lines, src, 0, init) == Ok::<ScanModel, CompileErrorView>(init));
        assert(step(table, lines, src, 0, init) == Ok::<ScanModel, CompileErrorView>(
            ScanModel { start: 0, expect_comma: true, char_no: (char0 + 1) as usize, ..init }));
    }
}

/// A source that is one command name, of a command that takes no
/// parameters, compiles to that command's opcode, recorded at bit offset 0
/// with the position of the line it stands on. The name may be written in
/// any case.
pub proof fn law_single_command(
    table: Map<Seq<char>, RuleView>,
    lines: Seq<Line>,
    line0: usize,
    char0: usize,
    name: Seq<char>,
)
    requires
        name.len() > 0,
        forall|j: int| 0 <= j < name.len() ==> is_token_char(#[trigger] name[j]),
        table.contains_key(upper_seq(name)),
        table[upper_seq(name)].min_params == 0,
        table[upper_seq(name)].operand == Operand::Plain,
        char0 + name.len() + 1 < usize::MAX,
    ensures
        compile_result(table, lines, line0, char0, name) == Ok::<
            (Seq<u8>, Map<usize, DbgPosView>),
            CompileErrorView,
        >((table[upper_seq(name)].opcode, Map::empty().insert(0, unit_pos(lines, line0)))),
{
    let src = name.push(' ');
    let init = initial_scan(line0, char0);
    assert forall|j: int| 0 <= j < name.len() implies is_token_char(#[trigger] src[j]) by {
        assert(src[j] == name[j]);
    }
    lemma_word_scan(table, lines, src, name.len() as int, line0, char0);
    assert(src.subrange(0, name.len() as int) =~= name);
    assert(src[name.len() as int] == ' ');
    let r = table[upper_seq(name)];
    let empty_code: Seq<u8> = Seq::empty();
    assert(empty_code + r.opcode =~= r.opcode);
}


/// The source made of the given words, each on a line of its own.
pub open spec fn program(names: Seq<Seq<char>>) -> Seq<char>
    decreases names.len(),
{
    if names.len() == 0 {
        Seq::empty()
    } else {
        program(names.drop_last()) + names.last() + seq!['\n']
    }
}

/// The opcodes of the named commands, one after another.
pub open spec fn program_code(table: Map<Seq<char>, RuleView>, names: Seq<Seq<char>>) -> Seq<u8>
    decreases names.len(),
{
    if names.len() == 0 {
        Seq::empty()
    } else {
        program_code(table, names.drop_last()) + table[upper_seq(names.last())].opcode
    }
}

/// For the `k`-th named command, the bit offset where its opcode starts
/// mapped to the position of source line `line0 + k`.
pub open spec fn program_positions(
    table: Map<Seq<char>, RuleView>,
    lines: Seq<Line>,
    names: Seq<Seq<char>>,
    line0: usize,
) -> Map<usize, DbgPosView>
    decreases names.len(),
{
    if names.len() == 0 {
        Map::empty()
    } else {
        program_positions(table, lines, names.drop_last(), line0).insert(
            (program_code(table, names.drop_last()).len() * 8) as usize,
            unit_pos(lines, (line0 + names.len() - 1) as usize),
        )
    }
}

proof fn lemma_program_prefix(names: Seq<Seq<char>>, k: int)
    requires
        0 <= k <= names.len(),
    ensures
        program(names.take(k)).is_prefix_of(program(names)),
    decreases names.len() - k,
{
    if k == names.len() {
        assert(names.take(k) =~= names);
    } else {
        lemma_program_prefix(names, k + 1);
        assert(names.take(k + 1).drop_last() =~= names.take(k));
        assert(names.take(k + 1).last() == names[k]);
    }
}

/// The scanner after the first `k` lines of the program: the command of
/// line `k` is pending, the ones before it are written.
spec fn after_lines(
    table: Map<Seq<char>, RuleView>,
    lines: Seq<Line>,
    names: Seq<Seq<char>>,
    k: int,
    line0: usize,
) -> ScanModel {
    if k == 0 {
        initial_scan(line0, 1)
    } else {
        ScanModel {
            code: program_code(table, names.take(k - 1)),
            positions: program_positions(table, lines, names.take(k - 1), line0),
            par: Seq::empty(),
            start: program(names.take(k)).len() as int,
            expect_comma: false,
            comma_found: false,
            was_comma: false,
            was_newline: true,
            in_block: 0,
            in_comment: false,
            ctx: CtxModel {
                operation: upper_seq(names[k - 1]),
                line_no_cmd: (line0 + k - 1) as usize,
                char_no_cmd: 1,
                line_no_par: 0,
                char_no_par: 0,
                rule: Some(table[upper_seq(names[k - 1])]),
            },
            line_no: (line0 + k) as usize,
            char_no: 1,
        }
    }
}

proof fn lemma_word_from(
    table: Map<Seq<char>, RuleView>,
    lines: Seq<Line>,
    src: Seq<char>,
    p: int,
    m: int,
    s: ScanModel,
    init: ScanModel,
)
    requires
        scan(table, lines, src, p, init) == Ok::<ScanModel, CompileErrorView>(s),
        0 <= p,
        1 <= m,
        p + m <= src.len(),
        s.start == p,
        s.in_block == 0,
        !s.in_comment,
        s.char_no + m < usize::MAX,
        forall|j: int| p <= j < p + m ==> is_token_char(#[trigger] src[j]),
    ensures
        scan(table, lines, src, p + m, init) == Ok::<ScanModel, CompileErrorView>(
            ScanModel {
                expect_comma: true,
                was_comma: s.comma_found,
                comma_found: false,
                char_no: (s.char_no + m) as usize,
                ..s
            },
        ),
    decreases m,
{
    if m > 1 {
        lemma_word_from(table, lines, src, p, m - 1, s, init);
        assert(is_token_char(src[p + m - 1]));
    } else {
        assert(is_token_char(src[p]));
    }
}

proof fn lemma_program_lines(
    table: Map<Seq<char>, RuleView>,
    lines: Seq<Line>,
    names: Seq<Seq<char>>,
    line0: usize,
    k: int,
)
    requires
        0 <= k <= names.len(),
        forall|j: int|
            0 <= j < names.len() ==> {
                &&& #[trigger] names[j].len() > 0
                &&& names[j].len() + 2 < usize::MAX
                &&& forall|c: int| 0 <= c < names[j].len() ==> is_token_char(#[trigger] names[j][c])
                &&& table.contains_key(upper_seq(names[j]))
                &&& table[upper_seq(names[j])].min_params == 0
                &&& table[upper_seq(names[j])].operand == Operand::Plain
            },
        line0 + names.len() < usize::MAX,
    ensures
        scan(
            table,
            lines,
            program(names).push(' '),
            program(names.take(k)).len() as int,
            initial_scan(line0, 1),
        ) == Ok::<ScanModel, CompileErrorView>(after_lines(table, lines, names, k, line0)),
    decreases k,
{
    let src = program(names).push(' ');
    let init = initial_scan(line0, 1);
    if k == 0 {
        assert(names.take(0) =~= Seq::<Seq<char>>::empty());
    } else {
        let j = k - 1;
        lemma_program_lines(table, lines, names, line0, j);
        let s = after_lines(table, lines, names, j, line0);
        let name = names[j];
        let pre = program(names.take(j));
        let p = pre.len() as int;
        let m = name.len() as int;
        lemma_program_prefix(names, k);
        assert(names.take(k).drop_last() =~= names.take(j));
        assert(names.take(k).last() == name);
        let line_k = program(names.take(k));
        assert(line_k == pre + name + seq!['\n']);
        assert forall|c: int| p <= c < p + m implies is_token_char(#[trigger] src[c]) by {
            assert(line_k[c] == name[c - p]);
            assert(src[c] == program(names)[c]);
            assert(is_token_char(name[c - p]));
        }
        assert(src[p + m] == '\n') by {
            assert(line_k[p + m] == '\n');
            assert(src[p + m] == program(names)[p + m]);
        }
        assert(src.subrange(p, p + m) =~= name) by {
            assert forall|c: int| 0 <= c < m implies src.subrange(p, p + m)[c] == name[c] by {
                assert(line_k[p + c] == name[c]);
                assert(src[p + c] == program(names)[p + c]);
            }
        }
        lemma_word_from(table, lines, src, p, m, s, init);
        if j > 0 {
            assert(names.take(j).drop_last() =~= names.take(j - 1));
            assert(names.take(j).last() == names[j - 1]);
            assert(program_code(table, names.take(j)) == program_code(table, names.take(j - 1))
                + table[upper_seq(names[j - 1])].opcode);
        }
    }
}

/// A program of commands that take no parameters, one command name per
/// line, compiles to the commands' opcodes one after another, each
/// recorded at the bit offset where it starts with the position of its
/// line. Names may be written in any case.
pub proof fn law_program_of_commands(
    table: Map<Seq<char>, RuleView>,
    lines: Seq<Line>,
    line0: usize,
    names: Seq<Seq<char>>,
)
    requires
        forall|j: int|
            0 <= j < names.len() ==> {
                &&& #[trigger] names[j].len() > 0
                &&& names[j].len() + 2 < usize::MAX
                &&& forall|c: int| 0 <= c < names[j].len() ==> is_token_char(#[trigger] names[j][c])
                &&& table.contains_key(upper_seq(names[j]))
                &&& table[upper_seq(names[j])].min_params == 0
                &&& table[upper_seq(names[j])].operand == Operand::Plain
            },
        line0 + names.len() < usize::MAX,
    ensures
        compile_result(table, lines, line0, 1, program(names)) == Ok::<
            (Seq<u8>, Map<usize, DbgPosView>),
            CompileErrorView,
        >((program_code(table, names), program_positions(table, lines, names, line0))),
{
    let n = names.len() as int;
    lemma_program_lines(table, lines, names, line0, n);
    assert(names.take(n) =~= names);
    if n > 0 {
        assert(names.drop_last() =~= names.take(n - 1));
    }
}


/// Building depends on the instruction table and the given lines alone:
/// two engines with the same table give the same result for the same
/// lines, whatever lines, line and column earlier calls left them at.
pub proof fn law_build_restarts(e1: Engine, e2: Engine, lines: Seq<Line>)
    requires
        e1.commands() == e2.commands(),
    ensures
        compile_result(e1.commands(), lines, 1, 1, lines_text(lines)) == compile_result(
            e2.commands(),
            lines,
            1,
            1,
            lines_text(lines),
        ),
{
}

proof fn lemma_upper_idempotent(t: Seq<char>)
    ensures
        upper_seq(upper_seq(t)) == upper_seq(t),
{
    assert(upper_seq(upper_seq(t)) =~= upper_seq(t));
}

/// A source that is one word compiles as its upper-case form does: command
/// names are looked up, and unknown words are reported, upper-cased.
pub proof fn law_word_case_insensitive(
    table: Map<Seq<char>, RuleView>,
    lines: Seq<Line>,
    line0: usize,
    char0: usize,
    t: Seq<char>,
)
    requires
        t.len() > 0,
        forall|j: int| 0 <= j < t.len() ==> is_token_char(#[trigger] t[j]),
        char0 + t.len() + 1 < usize::MAX,
    ensures
        compile_result(table, lines, line0, char0, t) == compile_result(
            table,
            lines,
            line0,
            char0,
            upper_seq(t),
        ),
{
    let u = upper_seq(t);
    let n = t.len() as int;
    let src1 = t.push(' ');
    let src2 = u.push(' ');
    let init = initial_scan(line0, char0);
    assert forall|j: int| 0 <= j < n implies is_token_char(#[trigger] src1[j]) by {
        assert(src1[j] == t[j]);
    }
    assert forall|j: int| 0 <= j < n implies is_token_char(#[trigger] src2[j]) by {
        assert(src2[j] == u[j]);
        assert(u[j] == upper_char(t[j]));
        assert(is_token_char(t[j]));
    }
    lemma_word_scan(table, lines, src1, n, line0, char0);
    lemma_word_scan(table, lines, src2, n, line0, char0);
    lemma_upper_idempotent(t);
    assert(src1.subrange(0, n) =~= t);
    assert(src2.subrange(0, n) =~= u);
    assert(src1[n] == ' ');
    assert(src2[n] == ' ');
}

proof fn lemma_scan_prefix(
    table: Map<Seq<char>, RuleView>,
    lines: Seq<Line>,
    src1: Seq<char>,
    src2: Seq<char>,
    n: int,
    init: ScanModel,
)
    requires
        0 <= n <= src1.len(),
        n <= src2.len(),
        src1.take(n) == src2.take(n),
        init.start == 0,
    ensures
        scan(table, lines, src1, n, init) == scan(table, lines, src2, n, init),
        scan(table, lines, src1, n, init) matches Ok(s) ==> 0 <= s.start <= n,
    decreases n,
{
    if n > 0 {
        assert(src1.take(n - 1) =~= src2.take(n - 1));
        lemma_scan_prefix(table, lines, src1, src2, n - 1, init);
        assert(src1[n - 1] == src1.take(n)[n - 1]);
        assert(src2[n - 1] == src2.take(n)[n - 1]);
        if let Ok(s) = scan(table, lines, src1, n - 1, init) {
            assert(src1.subrange(s.start, n - 1) =~= src2.subrange(s.start, n - 1)) by {
                assert forall|j: int| 0 <= j < n - 1 - s.start implies #[trigger] src1.subrange(
                    s.start,
                    n - 1,
                )[j] == src2.subrange(s.start, n - 1)[j] by {
                    let k = s.start + j;
                    assert(src1.take(n)[k] == src1[k]);
                    assert(src2.take(n)[k] == src2[k]);
                    assert(src1.take(n)[k] == src2.take(n)[k]);
                }
            }
        }
    }
}

proof fn lemma_no_brace_scan(
    table: Map<Seq<char>, RuleView>,
    lines: Seq<Line>,
    src: Seq<char>,
    n: int,
    init: ScanModel,
)
    requires
        0 <= n <= src.len(),
        init.in_block == 0,
        forall|j: int| 0 <= j < n ==> #[trigger] src[j] != '{',
    ensures
        scan(table, lines, src, n, init) matches Ok(s) ==> s.in_block == 0,
    decreases n,
{
    if n > 0 {
        lemma_no_brace_scan(table, lines, src, n - 1, init);
        assert(src[n - 1] != '{');
    }
}

proof fn lemma_comment_scan(
    table: Map<Seq<char>, RuleView>,
    lines: Seq<Line>,
    src: Seq<char>,
    p: int,
    k: int,
    t: ScanModel,
    init: ScanModel,
)
    requires
        0 <= p,
        0 <= k,
        p + k <= src.len(),
        scan(table, lines, src, p, init) == Ok::<ScanModel, CompileErrorView>(t),
        t.in_comment,
        t.in_block == 0,
        forall|j: int| p <= j < p + k ==> #[trigger] src[j] != '\n' && src[j] != '\r',
    ensures
        scan(table, lines, src, p + k, init) matches Ok(t2) && t2 == (ScanModel {
            start: p + k,
            char_no: t2.char_no,
            ..t
        }) || (k == 0 && scan(table, lines, src, p + k, init) == Ok::<
            ScanModel,
            CompileErrorView,
        >(t)),
    decreases k,
{
    if k > 0 {
        lemma_comment_scan(table, lines, src, p, k - 1, t, init);
        assert(src[p + k - 1] != '\n' && src[p + k - 1] != '\r');
    }
}

/// A comment added on a line of its own after a source without braces
/// changes neither the result nor the error.
pub proof fn law_trailing_comment(
    table: Map<Seq<char>, RuleView>,
    lines: Seq<Line>,
    line0: usize,
    char0: usize,
    s: Seq<char>,
    c: Seq<char>,
)
    requires
        forall|j: int| 0 <= j < s.len() ==> #[trigger] s[j] != '{',
        forall|j: int| 0 <= j < c.len() ==> #[trigger] c[j] != '\n' && c[j] != '\r',
    ensures
        compile_result(table, lines, line0, char0, s.push('\n') + seq![';'] + c) == compile_result(
            table,
            lines,
            line0,
            char0,
            s.push('\n'),
        ),
{
    let b = s.push('\n');
    let a = b + seq![';'] + c;
    let src_a = a.push(' ');
    let src_b = b.push(' ');
    let init = initial_scan(line0, char0);
    let n = b.len() as int;
    assert(src_a.take(n) =~= src_b.take(n));
    lemma_scan_prefix(table, lines, src_a, src_b, n, init);
    assert forall|j: int| 0 <= j < n implies #[trigger] src_b[j] != '{' by {
        if j < s.len() {
            assert(src_b[j] == s[j]);
        }
    }
    assert forall|j: int| 0 <= j < n implies #[trigger] src_a[j] != '{' by {
        assert(src_a[j] == src_b[j]);
    }
    lemma_no_brace_scan(table, lines, src_b, n, init);
    lemma_scan_prefix(table, lines, src_b, src_b, n - 1, init);
    assert(src_b[n - 1] == '\n');
    assert(src_a[n - 1] == '\n');
    match scan(table, lines, src_b, n, init) {
        Err(e) => {
            lemma_scan_err_stays(table, lines, src_b, n, src_b.len() as int, init);
            lemma_scan_err_stays(table, lines, src_a, n, src_a.len() as int, init);
        },
        Ok(st) => {
            lemma_no_brace_scan(table, lines, src_b, n - 1, init);
            assert(!st.in_comment && st.start == n);
            assert(src_a[n] == ';');
            assert(src_b[n] == ' ');
            let t = scan(table, lines, src_a, n + 1, init)->Ok_0;
            assert(t.in_comment && t.start == n + 1);
            let k = c.len() as int + 1;
            assert forall|j: int| n + 1 <= j < n + 1 + k implies #[trigger] src_a[j] != '\n'
                && src_a[j] != '\r' by {
                if j < n + 1 + c.len() {
                    assert(src_a[j] == c[j - n - 1]);
                } else {
                    assert(src_a[j] == ' ');
                }
            }
            lemma_comment_scan(table, lines, src_a, n + 1, k, t, init);
            assert(src_a.len() == n + 1 + k);
        },
    }
}


/// Characters allowed outside comments and blocks.
pub open spec fn allowed_char(ch: char) -> bool {
    is_token_char(ch) || is_space(ch) || ch == ',' || ch == ';' || ch == '{' || ch == '}'
}

/// Brace depth and whether inside a comment after the first `n`
/// characters, reading `;` as opening a comment up to the next line break
/// outside braces; `None` once a closing brace has no opening one or a
/// character outside comments and braces is not allowed.
pub open spec fn brace_state(src: Seq<char>, n: int) -> Option<(nat, bool)>
    decreases n,
{
    if n <= 0 {
        Some((0, false))
    } else {
        match brace_state(src, n - 1) {
            None => None,
            Some((d, cm)) => {
                let ch = src[n - 1];
                if d > 0 {
                    if ch == '{' {
                        Some((d + 1, cm))
                    } else if ch == '}' {
                        Some(((d - 1) as nat, cm))
                    } else {
                        Some((d, cm))
                    }
                } else if cm {
                    Some((0, !(ch == '\r' || ch == '\n')))
                } else if ch == '{' {
                    Some((1, false))
                } else if ch == ';' {
                    Some((0, true))
                } else if allowed_char(ch) && ch != '}' {
                    Some((0, false))
                } else {
                    None
                }
            },
        }
    }
}

proof fn lemma_brace_state_prefix(src1: Seq<char>, src2: Seq<char>, n: int)
    requires
        0 <= n <= src1.len(),
        n <= src2.len(),
        src1.take(n) == src2.take(n),
    ensures
        brace_state(src1, n) == brace_state(src2, n),
    decreases n,
{
    if n > 0 {
        assert(src1.take(n - 1) =~= src2.take(n - 1));
        lemma_brace_state_prefix(src1, src2, n - 1);
        assert(src1[n - 1] == src1.take(n)[n - 1]);
        assert(src2[n - 1] == src2.take(n)[n - 1]);
    }
}

proof fn lemma_scan_braces(
    table: Map<Seq<char>, RuleView>,
    lines: Seq<Line>,
    src: Seq<char>,
    n: int,
    line0: usize,
    char0: usize,
)
    requires
        0 <= n <= src.len(),
    ensures
        scan(table, lines, src, n, initial_scan(line0, char0)) matches Ok(s) ==> brace_state(
            src,
            n,
        ) == Some((s.in_block, s.in_comment)),
    decreases n,
{
    if n > 0 {
        lemma_scan_braces(table, lines, src, n - 1, line0, char0);
    }
}

/// A source that compiles has its braces balanced, and every character
/// outside comments and braces is a word character, a blank, a comma, a
/// semicolon or a brace.
pub proof fn law_compiled_source_is_balanced(
    table: Map<Seq<char>, RuleView>,
    lines: Seq<Line>,
    line0: usize,
    char0: usize,
    source: Seq<char>,
)
    ensures
        compile_result(table, lines, line0, char0, source) is Ok ==> (brace_state(
            source,
            source.len() as int,
        ) matches Some((d, _)) && d == 0),
{
    let src = source.push(' ');
    let n = source.len() as int;
    lemma_scan_braces(table, lines, src, n + 1, line0, char0);
    assert(src.take(n) =~= source.take(n));
    lemma_brace_state_prefix(src, source, n);
    assert(src[n] == ' ');
}

/// `a` and `b` agree on everything but the positions recorded so far.
spec fn same_but_positions(a: ScanModel, b: ScanModel) -> bool {
    a == ScanModel { positions: a.positions, ..b }
}

proof fn lemma_ctx_compile_lines(
    lines1: Seq<Line>,
    lines2: Seq<Line>,
    ctx: CtxModel,
    par: Seq<TokenModel>,
    code: Seq<u8>,
    p1: Map<usize, DbgPosView>,
    p2: Map<usize, DbgPosView>,
)
    ensures
        match (ctx_compile(lines1, ctx, par, code, p1), ctx_compile(lines2, ctx, par, code, p2)) {
            (CtxOutcome::Done(c1, _, r1), CtxOutcome::Done(c2, _, r2)) => c1 == c2 && r1 == r2,
            (CtxOutcome::Aborted(e1, l1, k1), CtxOutcome::Aborted(e2, l2, k2)) => l1 == l2 && k1
                == k2 && is_missing_error(e1) == is_missing_error(e2),
            (CtxOutcome::Fail(_, _), CtxOutcome::Fail(_, _)) => true,
            _ => false,
        },
{
}

proof fn lemma_end_token_lines(
    table: Map<Seq<char>, RuleView>,
    lines1: Seq<Line>,
    lines2: Seq<Line>,
    text: Seq<char>,
    b1: ScanModel,
    b2: ScanModel,
    nl: bool,
    x: usize,
    y: usize,
)
    requires
        same_but_positions(b1, b2),
    ensures
        end_token(table, lines1, text, b1, nl, x, y) is Ok <==> end_token(
            table,
            lines2,
            text,
            b2,
            nl,
            x,
            y,
        ) is Ok,
        end_token(table, lines1, text, b1, nl, x, y) matches Ok(a) ==> end_token(
            table,
            lines2,
            text,
            b2,
            nl,
            x,
            y,
        ) matches Ok(b) && same_but_positions(a, b),
{
    lemma_ctx_compile_lines(lines1, lines2, b1.ctx, b1.par, b1.code, b1.positions, b2.positions);
}

#[verifier::rlimit(40)]
proof fn lemma_step_lines(
    table: Map<Seq<char>, RuleView>,
    lines1: Seq<Line>,
    lines2: Seq<Line>,
    src: Seq<char>,
    i: int,
    s1: ScanModel,
    s2: ScanModel,
)
    requires
        same_but_positions(s1, s2),
    ensures
        step(table, lines1, src, i, s1) is Ok <==> step(table, lines2, src, i, s2) is Ok,
        step(table, lines1, src, i, s1) matches Ok(a) ==> step(table, lines2, src, i, s2) matches Ok(
            b,
        ) && same_but_positions(a, b),
{
    let ch = src[i];
    let x = s1.char_no;
    let y = s1.line_no;
    let a1 = advance(s1, ch);
    let a2 = advance(s2, ch);
    assert(same_but_positions(a1, a2));
    if s1.in_block > 0 || s1.in_comment {
    } else if is_space(ch) {
        let nl = ch == '\r' || ch == '\n';
        let b1 = ScanModel { was_newline: s1.was_newline || nl, start: i + 1, ..a1 };
        let b2 = ScanModel { was_newline: s2.was_newline || nl, start: i + 1, ..a2 };
        lemma_end_token_lines(table, lines1, lines2, src.subrange(s1.start, i), b1, b2, nl, x, y);
    } else if ch == ';' {
        let b1 = ScanModel { in_comment: true, start: i + 1, ..a1 };
        let b2 = ScanModel { in_comment: true, start: i + 1, ..a2 };
        lemma_end_token_lines(table, lines1, lines2, src.subrange(s1.start, i), b1, b2, false, x, y);
    } else if ch == ',' {
        let b1 = ScanModel { start: i + 1, expect_comma: false, comma_found: true, ..a1 };
        let b2 = ScanModel { start: i + 1, expect_comma: false, comma_found: true, ..a2 };
        lemma_end_token_lines(table, lines1, lines2, src.subrange(s1.start, i), b1, b2, false, x, y);
    }
}

proof fn lemma_scan_lines(
    table: Map<Seq<char>, RuleView>,
    lines1: Seq<Line>,
    lines2: Seq<Line>,
    src: Seq<char>,
    n: int,
    init: ScanModel,
)
    ensures
        scan(table, lines1, src, n, init) is Ok <==> scan(table, lines2, src, n, init) is Ok,
        scan(table, lines1, src, n, init) matches Ok(a) ==> scan(table, lines2, src, n, init) matches Ok(
            b,
        ) && same_but_positions(a, b),
    decreases n,
{
    if n > 0 {
        lemma_scan_lines(table, lines1, lines2, src, n - 1, init);
        if let Ok(a) = scan(table, lines1, src, n - 1, init) {
            let b = scan(table, lines2, src, n - 1, init)->Ok_0;
            lemma_step_lines(table, lines1, lines2, src, n - 1, a, b);
        }
    }
}

/// The code that a source compiles to does not depend on the source lines
/// it is said to come from, which only name files and lines in positions
/// and errors: with other lines it compiles, or fails, alike, and to the
/// same code.
pub proof fn law_code_ignores_lines(
    table: Map<Seq<char>, RuleView>,
    lines1: Seq<Line>,
    lines2: Seq<Line>,
    line0: usize,
    char0: usize,
    source: Seq<char>,
)
    ensures
        compile_result(table, lines1, line0, char0, source) is Ok <==> compile_result(
            table,
            lines2,
            line0,
            char0,
            source,
        ) is Ok,
        compile_result(table, lines1, line0, char0, source) matches Ok((c1, _)) ==> compile_result(
            table,
            lines2,
            line0,
            char0,
            source,
        ) matches Ok((c2, _)) && c1 == c2,
{
    let src = source.push(' ');
    let init = initial_scan(line0, char0);
    lemma_scan_lines(table, lines1, lines2, src, src.len() as int, init);
    if let Ok(a) = scan(table, lines1, src, src.len() as int, init) {
        let b = scan(table, lines2, src, src.len() as int, init)->Ok_0;
        lemma_ctx_compile_lines(lines1, lines2, a.ctx, a.par, a.code, a.positions, b.positions);
    }
}

/// A source that is one command name and, after a blank, one word that
/// names no command: the command takes the word as its parameter, and the
/// source compiles to the code that the command's rule makes of it,
/// recorded at bit offset 0 with the position of its line, or fails with
/// the error that the rule gives, reported where the command stands.
pub proof fn law_single_instruction(
    table: Map<Seq<char>, RuleView>,
    lines: Seq<Line>,
    line0: usize,
    char0: usize,
    name: Seq<char>,
    arg: Seq<char>,
)
    requires
        name.len() > 0,
        arg.len() > 0,
        forall|j: int| 0 <= j < name.len() ==> is_token_char(#[trigger] name[j]),
        forall|j: int| 0 <= j < arg.len() ==> is_token_char(#[trigger] arg[j]),
        table.contains_key(upper_seq(name)),
        table[upper_seq(name)].max_params >= 1,
        !table.contains_key(upper_seq(arg)),
        char0 + name.len() + arg.len() + 2 < usize::MAX,
    ensures
        compile_result(table, lines, line0, char0, name + seq![' '] + arg) == match rule_result(
            table[upper_seq(name)],
            seq![arg],
        ) {
            Ok(bytes) => Ok::<(Seq<u8>, Map<usize, DbgPosView>), CompileErrorView>(
                (bytes, Map::empty().insert(0, unit_pos(lines, line0))),
            ),
            Err(e) => Err(
                CompileErrorView::Operation(pos_at(lines, line0, char0), upper_seq(name), e),
            ),
        },
{
    let source = name + seq![' '] + arg;
    let src = source.push(' ');
    let init = initial_scan(line0, char0);
    let k = name.len() as int;
    let m = arg.len() as int;
    let r = table[upper_seq(name)];
    assert forall|j: int| 0 <= j < k implies is_token_char(#[trigger] src[j]) by {
        assert(src[j] == name[j]);
    }
    lemma_word_scan(table, lines, src, k, line0, char0);
    let s0 = ScanModel { start: 0, expect_comma: true, char_no: (char0 + k) as usize, ..init };
    assert(src[k] == ' ');
    assert(src.subrange(0, k) =~= name);
    let s1 = ScanModel {
        ctx: CtxModel {
            operation: upper_seq(name),
            line_no_cmd: line0,
            char_no_cmd: char0,
            line_no_par: 0,
            char_no_par: 0,
            rule: Some(r),
        },
        start: k + 1,
        char_no: (char0 + k + 1) as usize,
        expect_comma: false,
        ..init
    };
    assert(step(table, lines, src, k, s0) == Ok::<ScanModel, CompileErrorView>(s1));
    assert(scan(table, lines, src, k + 1, init) == Ok::<ScanModel, CompileErrorView>(s1));
    assert forall|j: int| k + 1 <= j < k + 1 + m implies is_token_char(#[trigger] src[j]) by {
        assert(src[j] == arg[j - k - 1]);
    }
    lemma_word_from(table, lines, src, k + 1, m, s1, init);
    let s2 = ScanModel { expect_comma: true, char_no: (char0 + k + 1 + m) as usize, ..s1 };
    assert(src[k + 1 + m] == ' ');
    assert(src.subrange(k + 1, k + 1 + m) =~= arg);
    let t = TokenModel { line: line0, column: (char0 + k + 1) as usize, text: arg, was_comma: false };
    let s3 = ScanModel {
        par: seq![t],
        start: k + 2 + m,
        char_no: (char0 + k + 2 + m) as usize,
        ..s2
    };
    assert(step(table, lines, src, k + 1 + m, s2) == Ok::<ScanModel, CompileErrorView>(s3));
    assert(src.len() == k + 2 + m);
    assert(scan(table, lines, src, src.len() as int, init) == Ok::<ScanModel, CompileErrorView>(s3));
    assert(seq![t].take(1) =~= seq![t]);
    assert(token_texts(seq![t]) =~= seq![arg]);
    let empty_code: Seq<u8> = Seq::empty();
    if let Ok(bytes) = rule_result(r, seq![arg]) {
        assert(empty_code + bytes =~= bytes);
    }
}

/// A command's parameter count is refused as missing exactly when it is
/// below the least the command takes, as too many exactly when it is at
/// least that and above the most, and accepted otherwise.
pub proof fn law_count_check(len: nat, start: nat, end: nat)
    ensures
        (count_check(len, start, end) == Err::<(), OperationError>(
            OperationError::MissingRequiredParameters,
        )) <==> len < start,
        (count_check(len, start, end) == Err::<(), OperationError>(
            OperationError::TooManyParameters,
        )) <==> (start <= len && end < len),
        count_check(len, start, end) is Ok <==> (start <= len && len <= end),
{
}

/// A command given fewer parameter texts than its rule's least is refused
/// as missing parameters, given more than its most as too many, and given
/// a number in range it emits what its operand makes of the texts.
pub proof fn law_rule_parameter_count(r: RuleView, params: Seq<Seq<char>>)
    ensures
        params.len() < r.min_params ==> rule_result(r, params) == Err::<Seq<u8>, OperationError>(
            OperationError::MissingRequiredParameters,
        ),
        r.min_params <= params.len() && r.max_params < params.len() ==> rule_result(r, params)
            == Err::<Seq<u8>, OperationError>(OperationError::TooManyParameters),
        r.min_params <= params.len() <= r.max_params ==> rule_result(r, params) == encode(
            r.operand,
            r.opcode,
            params,
        ),
{
}

/// A pending command that has collected fewer parameters than its rule's
/// least is not compiled: it is refused as missing parameters, reported
/// where the command stands.
pub proof fn law_too_few_parameters_refused(
    lines: Seq<Line>,
    ctx: CtxModel,
    par: Seq<TokenModel>,
    code: Seq<u8>,
    positions: Map<usize, DbgPosView>,
)
    requires
        ctx.rule matches Some(r) && par.len() < r.min_params,
    ensures
        ctx_compile(lines, ctx, par, code, positions) == CtxOutcome::Aborted(
            CompileErrorView::Operation(
                pos_at(lines, ctx.line_no_cmd, ctx.char_no_cmd),
                ctx.operation,
                OperationError::MissingRequiredParameters,
            ),
            ctx.line_no_par,
            ctx.char_no_par,
        ),
{
    let r = ctx.rule->Some_0;
    let n = taken(par.len() as int, r);
    assert(token_texts(par.take(n)).len() == n);
}

/// Two commands that take no parameters, on one line with a space or a tab
/// between them, compile to the first one's opcode followed by the second one's,
/// each recorded where it starts with the position of the line.
pub proof fn law_two_commands_on_a_line(
    table: Map<Seq<char>, RuleView>,
    lines: Seq<Line>,
    line0: usize,
    char0: usize,
    a: Seq<char>,
    b: Seq<char>,
    sep: char,
)
    requires
        sep == ' ' || sep == '\t',
        a.len() > 0,
        b.len() > 0,
        forall|j: int| 0 <= j < a.len() ==> is_token_char(#[trigger] a[j]),
        forall|j: int| 0 <= j < b.len() ==> is_token_char(#[trigger] b[j]),
        table.contains_key(upper_seq(a)),
        table.contains_key(upper_seq(b)),
        table[upper_seq(a)].min_params == 0,
        table[upper_seq(a)].operand == Operand::Plain,
        table[upper_seq(b)].min_params == 0,
        table[upper_seq(b)].operand == Operand::Plain,
        char0 + a.len() + b.len() + 2 < usize::MAX,
    ensures
        compile_result(table, lines, line0, char0, a + seq![sep] + b) == Ok::<
            (Seq<u8>, Map<usize, DbgPosView>),
            CompileErrorView,
        >(
            (
                table[upper_seq(a)].opcode + table[upper_seq(b)].opcode,
                Map::empty().insert(0, unit_pos(lines, line0)).insert(
                    (table[upper_seq(a)].opcode.len() * 8) as usize,
                    unit_pos(lines, line0),
                ),
            ),
        ),
{
    let source = a + seq![sep] + b;
    let src = source.push(' ');
    let init = initial_scan(line0, char0);
    let k = a.len() as int;
    let m = b.len() as int;
    let ra = table[upper_seq(a)];
    let rb = table[upper_seq(b)];
    assert forall|j: int| 0 <= j < k implies is_token_char(#[trigger] src[j]) by {
        assert(src[j] == a[j]);
    }
    lemma_word_scan(table, lines, src, k, line0, char0);
    let s0 = ScanModel { start: 0, expect_comma: true, char_no: (char0 + k) as usize, ..init };
    assert(src[k] == sep);
    assert(src.subrange(0, k) =~= a);
    let s1 = ScanModel {
        ctx: CtxModel {
            operation: upper_seq(a),
            line_no_cmd: line0,
            char_no_cmd: char0,
            line_no_par: 0,
            char_no_par: 0,
            rule: Some(ra),
        },
        start: k + 1,
        char_no: (char0 + k + 1) as usize,
        expect_comma: false,
        ..init
    };
    assert(step(table, lines, src, k, s0) == Ok::<ScanModel, CompileErrorView>(s1));
    assert(scan(table, lines, src, k + 1, init) == Ok::<ScanModel, CompileErrorView>(s1));
    assert forall|j: int| k + 1 <= j < k + 1 + m implies is_token_char(#[trigger] src[j]) by {
        assert(src[j] == b[j - k - 1]);
    }
    lemma_word_from(table, lines, src, k + 1, m, s1, init);
    let s2 = ScanModel { expect_comma: true, char_no: (char0 + k + 1 + m) as usize, ..s1 };
    assert(src[k + 1 + m] == ' ');
    assert(src.subrange(k + 1, k + 1 + m) =~= b);
    let no_par: Seq<TokenModel> = Seq::empty();
    let empty_code: Seq<u8> = Seq::empty();
    assert(no_par.take(0) =~= no_par);
    assert(token_texts(no_par) =~= Seq::<Seq<char>>::empty());
    assert(empty_code + ra.opcode =~= ra.opcode);
    let p1 = Map::<usize, DbgPosView>::empty().insert(0, unit_pos(lines, line0));
    assert(ctx_compile(lines, s2.ctx, no_par, empty_code, Map::empty()) == CtxOutcome::Done(
        ra.opcode,
        p1,
        no_par,
    ));
    let s3 = ScanModel {
        code: ra.opcode,
        positions: p1,
        ctx: CtxModel {
            operation: upper_seq(b),
            line_no_cmd: line0,
            char_no_cmd: (char0 + k + 1) as usize,
            line_no_par: 0,
            char_no_par: 0,
            rule: Some(rb),
        },
        start: k + 2 + m,
        char_no: (char0 + k + 2 + m) as usize,
        expect_comma: false,
        ..s2
    };
    assert(step(table, lines, src, k + 1 + m, s2) == Ok::<ScanModel, CompileErrorView>(s3));
    assert(src.len() == k + 2 + m);
    assert(scan(table, lines, src, src.len() as int, init) == Ok::<ScanModel, CompileErrorView>(s3));
}

/// Upper-casing turns each lower-case ASCII letter into the letter 32 code
/// points below it, which is upper-case, and leaves every other character
/// as it is; no lower-case ASCII letter remains, and a sequence keeps its
/// length with each character upper-cased in place.
pub proof fn law_upper_case(c: char, s: Seq<char>)
    ensures
        'a' <= c <= 'z' ==> upper_char(c) as u32 + 32 == c as u32 && 'A' <= upper_char(c) <= 'Z',
        !('a' <= c <= 'z') ==> upper_char(c) == c,
        !('a' <= upper_char(c) <= 'z'),
        upper_seq(s).len() == s.len(),
        forall|i: int| 0 <= i < s.len() ==> upper_seq(s)[i] == upper_char(#[trigger] s[i]),
{
}

/// The sum of the lengths of the line texts.
pub open spec fn total_len(lines: Seq<Line>) -> nat
    decreases lines.len(),
{
    if lines.len() == 0 {
        0
    } else {
        total_len(lines.drop_last()) + lines.last().text@.len()
    }
}

/// Joining lines keeps every line: the joined text is as long as all the
/// line texts together, and the text of line `i` stands in it right after
/// the texts of the lines before it.
pub proof fn law_lines_text_keeps_every_line(lines: Seq<Line>)
    ensures
        lines_text(lines).len() == total_len(lines),
        forall|i: int|
            0 <= i < lines.len() ==> lines_text(lines).subrange(
                total_len(#[trigger] lines.take(i)) as int,
                (total_len(lines.take(i)) + lines[i].text@.len()) as int,
            ) == lines[i].text@,
    decreases lines.len(),
{
    if lines.len() > 0 {
        let pre = lines.drop_last();
        law_lines_text_keeps_every_line(pre);
        let last = lines.last().text@;
        let t = lines_text(lines);
        assert(t == lines_text(pre) + last);
        assert forall|i: int| 0 <= i < lines.len() implies t.subrange(
            total_len(#[trigger] lines.take(i)) as int,
            (total_len(lines.take(i)) + lines[i].text@.len()) as int,
        ) == lines[i].text@ by {
            if i < lines.len() - 1 {
                assert(lines.take(i) =~= pre.take(i));
                assert(lines[i] == pre[i]);
                let lo = total_len(pre.take(i)) as int;
                let hi = lo + pre[i].text@.len();
                assert(pre.take(i + 1).drop_last() =~= pre.take(i));
                lemma_total_len_prefix(pre, i + 1);
                assert(t.subrange(lo, hi) =~= lines_text(pre).subrange(lo, hi));
            } else {
                assert(lines.take(i) =~= pre);
                assert(t.subrange(lines_text(pre).len() as int, t.len() as int) =~= last);
            }
        }
    }
}

proof fn lemma_total_len_prefix(lines: Seq<Line>, j: int)
    requires
        0 <= j <= lines.len(),
    ensures
        total_len(lines.take(j)) <= total_len(lines),
    decreases lines.len() - j,
{
    if j < lines.len() {
        lemma_total_len_prefix(lines, j + 1);
        assert(lines.take(j + 1).drop_last() =~= lines.take(j));
    } else {
        assert(lines.take(j) =~= lines);
    }
}

/// The decimal notation of `n` is made of digit characters only, starts
/// with `0` only for zero, and reads back as `n`.
pub proof fn law_decimal_reads_back(n: nat)
    ensures
        decimal(n).len() > 0,
        forall|i: int| 0 <= i < decimal(n).len() ==> is_digit(#[trigger] decimal(n)[i]),
        digits_value(decimal(n)) == n,
        decimal(n)[0] == '0' ==> n == 0,
    decreases n,
{
    let c = ((48 + n % 10) as u32) as char;
    assert(c as int == 48 + n % 10);
    if n < 10 {
        assert(decimal(n).drop_last() =~= Seq::<char>::empty());
        assert(decimal(n).last() == c);
        assert(digits_value(decimal(n)) == 10 * digits_value(Seq::<char>::empty()) + (c as int - 48));
    } else {
        law_decimal_reads_back(n / 10);
        let d = decimal(n);
        assert(d == decimal(n / 10).push(((48 + n % 10) as u32) as char));
        assert(d.drop_last() =~= decimal(n / 10));
        assert(d.last() == c);
        assert(digits_value(d) == 10 * digits_value(decimal(n / 10)) + (c as int - 48));
        assert(10 * (n / 10) + n % 10 == n);
        assert(d[0] == decimal(n / 10)[0]);
        assert(forall|i: int| 0 <= i < d.len() - 1 ==> d[i] == decimal(n / 10)[i]);
    }
}

} // verus!
