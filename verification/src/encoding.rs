use vstd::prelude::*;

verus! {

/// The character that standard base64 writes for the six bits `v`:
/// `A`-`Z`, `a`-`z`, `0`-`9`, `+` and `/` in that order.
pub open spec fn base64_digit(v: int) -> char {
    if v < 26 {
        (65 + v) as char
    } else if v < 52 {
        (97 + v - 26) as char
    } else if v < 62 {
        (48 + v - 52) as char
    } else if v == 62 {
        '+'
    } else {
        '/'
    }
}

/// Standard base64 of `b`: each group of three bytes becomes four
/// characters of six bits each, and a last group of one or two bytes is
/// filled with zero bits and padded with `=` to four characters.
pub open spec fn base64_standard(b: Seq<u8>) -> Seq<char>
    decreases b.len(),
{
    if b.len() == 0 {
        Seq::empty()
    } else if b.len() == 1 {
        let b0 = b[0] as int;
        seq![base64_digit(b0 / 4), base64_digit((b0 % 4) * 16), '=', '=']
    } else if b.len() == 2 {
        let b0 = b[0] as int;
        let b1 = b[1] as int;
        seq![
            base64_digit(b0 / 4),
            base64_digit((b0 % 4) * 16 + b1 / 16),
            base64_digit((b1 % 16) * 4),
            '=',
        ]
    } else {
        let b0 = b[0] as int;
        let b1 = b[1] as int;
        let b2 = b[2] as int;
        seq![
            base64_digit(b0 / 4),
            base64_digit((b0 % 4) * 16 + b1 / 16),
            base64_digit((b1 % 16) * 4 + b2 / 64),
            base64_digit(b2 % 64),
        ] + base64_standard(b.skip(3))
    }
}

/// `base64::encode`: the bytes in standard base64 with `=` padding. The
/// crate panics only where the length of the text overflows a `usize`,
/// which the bound on the input rules out.
#[verifier::external_body]
fn base64_encode(bytes: &[u8]) -> (res: String)
    requires
        bytes@.len() <= usize::MAX / 2,
    ensures
        res@ == base64_standard(bytes@),
{
    base64::encode(bytes)
}

/// The text form in which a serialized bag of cells is handed out: its
/// bytes in standard base64.
pub fn bag_of_cells_text(boc: &[u8]) -> (res: String)
    requires
        boc@.len() <= usize::MAX / 2,
    ensures
        res@ == base64_standard(boc@),
{
    base64_encode(boc)
}

} // verus!
