use crate::errors::{OperationError, ParameterError};
use vstd::prelude::*;

verus! {

/// How a command encodes its parameter, if it takes one.
#[derive(Debug, Clone, Copy, PartialEq, Eq, Structural)]
pub enum Operand {
    /// No operand: the command emits its opcode alone.
    Plain,
    /// A decimal integer constant, pushed in the shortest of the 4-bit,
    /// 8-bit and 16-bit forms that holds it.
    Integer,
    /// A stack register `sN`: one byte `short + N` for `N < 16`, else the
    /// byte `long` followed by `N`.
    Register(u8, u8),
}

pub open spec fn is_digit(c: char) -> bool {
    '0' <= c <= '9'
}

/// A non-empty run of decimal digits.
pub open spec fn all_digits(s: Seq<char>) -> bool {
    s.len() > 0 && forall|i: int| 0 <= i < s.len() ==> is_digit(#[trigger] s[i])
}

/// The value of a run of decimal digits.
pub open spec fn digits_value(s: Seq<char>) -> int
    decreases s.len(),
{
    if s.len() == 0 {
        0
    } else {
        10 * digits_value(s.drop_last()) + ((s.last() as int) - 48)
    }
}

/// The integer that `t` writes in decimal, with an optional leading `-`.
pub open spec fn parse_integer(t: Seq<char>) -> Option<int> {
    if t.len() > 0 && t[0] == '-' && all_digits(t.drop_first()) {
        Some(-digits_value(t.drop_first()))
    } else if all_digits(t) {
        Some(digits_value(t))
    } else {
        None
    }
}

/// The register number that `t` names as `sN` or `SN`.
pub open spec fn parse_register(t: Seq<char>) -> Option<int> {
    if t.len() > 0 && (t[0] == 's' || t[0] == 'S') && all_digits(t.drop_first()) {
        Some(digits_value(t.drop_first()))
    } else {
        None
    }
}

/// The code that pushes the integer `v`.
pub open spec fn integer_code(v: int) -> Result<Seq<u8>, OperationError> {
    if -5 <= v <= 10 {
        Ok(seq![(0x70 + (v + 16) % 16) as u8])
    } else if -128 <= v <= 127 {
        Ok(seq![0x80u8, ((v + 256) % 256) as u8])
    } else if -32768 <= v <= 32767 {
        Ok(seq![0x81u8, (((v + 65536) % 65536) / 256) as u8, ((v + 65536) % 256) as u8])
    } else {
        Err(OperationError::Parameter(ParameterError::OutOfRange))
    }
}

/// The code of a register command for register `n`.
pub open spec fn register_code(short: u8, long: u8, n: int) -> Result<Seq<u8>, OperationError> {
    if n < 16 {
        Ok(seq![((short + n) % 256) as u8])
    } else if n < 256 {
        Ok(seq![long, n as u8])
    } else {
        Err(OperationError::Parameter(ParameterError::OutOfRange))
    }
}

/// The code a command with this operand and opcode emits for the given
/// parameter texts, or why it refuses them.
pub open spec fn encode(operand: Operand, opcode: Seq<u8>, params: Seq<Seq<char>>) -> Result<
    Seq<u8>,
    OperationError,
> {
    match operand {
        Operand::Plain => Ok(opcode),
        Operand::Integer => {
            if params.len() == 0 {
                Err(OperationError::MissingRequiredParameters)
            } else {
                match parse_integer(params[0]) {
                    None => Err(OperationError::Parameter(ParameterError::UnexpectedType)),
                    Some(v) => integer_code(v),
                }
            }
        },
        Operand::Register(short, long) => {
            if params.len() == 0 {
                Err(OperationError::MissingRequiredParameters)
            } else {
                match parse_register(params[0]) {
                    None => Err(OperationError::Parameter(ParameterError::UnexpectedType)),
                    Some(n) => register_code(short, long, n),
                }
            }
        },
    }
}

/// Above this, a number is too large for any encoding and its exact value
/// is not needed.
const CAP: u64 = 1_000_000;

proof fn lemma_digits_grow(s: Seq<char>)
    requires
        s.len() > 0,
        forall|i: int| 0 <= i < s.len() ==> is_digit(#[trigger] s[i]),
    ensures
        digits_value(s) >= digits_value(s.drop_last()) >= 0,
    decreases s.len(),
{
    if s.len() > 1 {
        lemma_digits_grow(s.drop_last());
        assert(is_digit(s.drop_last()[0]));
    }
    assert(is_digit(s[s.len() - 1]));
}

/// The value of the digits of `t` from `from` on, exactly while it is at
/// most `CAP`, or `None` where they are not a run of digits.
fn digits_capped(t: &Vec<char>, from: usize) -> (res: Option<u64>)
    requires
        from <= t@.len(),
    ensures
        match res {
            None => !all_digits(t@.skip(from as int)),
            Some(x) => all_digits(t@.skip(from as int)) && x <= 10 * CAP + 9 && (if digits_value(
                t@.skip(from as int),
            ) <= CAP {
                x == digits_value(t@.skip(from as int))
            } else {
                x > CAP
            }),
        },
{
    if from == t.len() {
        return None;
    }
    let mut acc: u64 = 0;
    let mut i: usize = from;
    assert(t@.subrange(from as int, from as int) =~= Seq::<char>::empty());
    while i < t.len()
        invariant
            from <= i <= t@.len(),
            forall|k: int| from <= k < i ==> is_digit(#[trigger] t@[k]),
            acc <= 10 * CAP + 9,
            acc <= CAP ==> acc == digits_value(t@.subrange(from as int, i as int)),
            acc > CAP ==> digits_value(t@.subrange(from as int, i as int)) > CAP,
        decreases t@.len() - i,
    {
        let c = t[i];
        if !('0' <= c && c <= '9') {
            assert(!is_digit(t@.skip(from as int)[i - from]));
            return None;
        }
        let ghost pre = t@.subrange(from as int, i as int);
        let ghost next = t@.subrange(from as int, i + 1);
        assert(next.drop_last() =~= pre);
        assert(next.last() == c);
        proof {
            assert forall|k: int| 0 <= k < next.len() implies is_digit(#[trigger] next[k]) by {
                assert(next[k] == t@[from + k]);
            }
            lemma_digits_grow(next);
        }
        if acc <= CAP {
            acc = acc * 10 + ((c as u8) - 48) as u64;
        }
        i = i + 1;
    }
    assert(t@.subrange(from as int, t@.len() as int) =~= t@.skip(from as int));
    assert forall|k: int| 0 <= k < t@.skip(from as int).len() implies is_digit(
        #[trigger] t@.skip(from as int)[k],
    ) by {
        assert(t@.skip(from as int)[k] == t@[from + k]);
    }
    Some(acc)
}

fn one_byte(a: u8) -> (res: Vec<u8>)
    ensures
        res@ == seq![a],
{
    let mut v: Vec<u8> = Vec::new();
    v.push(a);
    assert(v@ =~= seq![a]);
    v
}

fn two_bytes(a: u8, b: u8) -> (res: Vec<u8>)
    ensures
        res@ == seq![a, b],
{
    let mut v = one_byte(a);
    v.push(b);
    assert(v@ =~= seq![a, b]);
    v
}

fn integer_code_exec(v: i64) -> (res: Result<Vec<u8>, OperationError>)
    requires
        -20_000_000 <= v <= 20_000_000,
    ensures
        match integer_code(v as int) {
            Ok(b) => res matches Ok(r) && r@ == b,
            Err(e) => res == Err::<Vec<u8>, OperationError>(e),
        },
{
    if -5 <= v && v <= 10 {
        Ok(one_byte((0x70 + (v + 16) % 16) as u8))
    } else if -128 <= v && v <= 127 {
        Ok(two_bytes(0x80, ((v + 256) % 256) as u8))
    } else if -32768 <= v && v <= 32767 {
        let mut r = two_bytes(0x81, (((v + 65536) % 65536) / 256) as u8);
        r.push(((v + 65536) % 256) as u8);
        assert(r@ =~= seq![0x81u8, (((v + 65536) % 65536) / 256) as u8, ((v + 65536) % 256) as u8]);
        Ok(r)
    } else {
        Err(OperationError::Parameter(ParameterError::OutOfRange))
    }
}

/// The code a command with operand `operand` and opcode `opcode` emits for
/// the parameter texts `params`; see `encode`.
pub fn encode_operand(operand: Operand, opcode: &Vec<u8>, params: &[&Vec<char>]) -> (res: Result<
    Vec<u8>,
    OperationError,
>)
    ensures
        match encode(operand, opcode@, params@.map_values(|p: &Vec<char>| p@)) {
            Ok(b) => res matches Ok(r) && r@ == b,
            Err(e) => res == Err::<Vec<u8>, OperationError>(e),
        },
{
    let ghost texts = params@.map_values(|p: &Vec<char>| p@);
    match operand {
        Operand::Plain => {
            let mut r: Vec<u8> = Vec::new();
            let mut i: usize = 0;
            while i < opcode.len()
                invariant
                    i <= opcode@.len(),
                    r@ == opcode@.take(i as int),
                decreases opcode@.len() - i,
            {
                r.push(opcode[i]);
                assert(opcode@.take(i + 1) =~= opcode@.take(i as int).push(opcode@[i as int]));
                i = i + 1;
            }
            assert(opcode@.take(opcode@.len() as int) =~= opcode@);
            Ok(r)
        },
        Operand::Integer => {
            if params.len() == 0 {
                return Err(OperationError::MissingRequiredParameters);
            }
            let t = params[0];
            assert(texts[0] == t@);
            let neg = t.len() > 0 && t[0] == '-';
            let parsed = if neg {
                digits_capped(t, 1)
            } else {
                digits_capped(t, 0)
            };
            assert(t@.skip(0) =~= t@);
            assert(t@.len() > 0 ==> t@.skip(1) =~= t@.drop_first());
            match parsed {
                None => {
                    proof {
                        if neg {
                            assert(!is_digit(t@[0]));
                        }
                    }
                    Err(OperationError::Parameter(ParameterError::UnexpectedType))
                },
                Some(x) => {
                    proof {
                        if !neg && t@.len() > 0 {
                            assert(is_digit(t@[0]));
                        }
                    }
                    let v: i64 = if neg {
                        -(x as i64)
                    } else {
                        x as i64
                    };
                    integer_code_exec(v)
                },
            }
        },
        Operand::Register(short, long) => {
            if params.len() == 0 {
                return Err(OperationError::MissingRequiredParameters);
            }
            let t = params[0];
            assert(texts[0] == t@);
            if !(t.len() > 0 && (t[0] == 's' || t[0] == 'S')) {
                return Err(OperationError::Parameter(ParameterError::UnexpectedType));
            }
            assert(t@.skip(1) =~= t@.drop_first());
            match digits_capped(t, 1) {
                None => Err(OperationError::Parameter(ParameterError::UnexpectedType)),
                Some(n) => {
                    if n < 16 {
                        Ok(one_byte(((short as u64 + n) % 256) as u8))
                    } else if n < 256 {
                        Ok(two_bytes(long, n as u8))
                    } else {
                        Err(OperationError::Parameter(ParameterError::OutOfRange))
                    }
                },
            }
        },
    }
}

/// An encoding that succeeds emits the opcode itself when there is no
/// operand, and from one to three bytes otherwise.
pub proof fn lemma_encode_len(operand: Operand, opcode: Seq<u8>, params: Seq<Seq<char>>)
    ensures
        encode(operand, opcode, params) matches Ok(b) ==> (operand == Operand::Plain && b
            == opcode) || (0 < b.len() <= 3),
{
}

} // verus!
