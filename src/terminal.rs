use vstd::prelude::*;

verus! {

/// The decimal digit for `d`, for `d < 10`.
pub open spec fn digit(d: nat) -> char {
    seq!['0', '1', '2', '3', '4', '5', '6', '7', '8', '9'][d as int]
}

/// The decimal numeral of `n`, without leading zeros.
pub open spec fn decimal(n: nat) -> Seq<char>
    decreases n,
{
    if n < 10 {
        seq![digit(n)]
    } else {
        decimal(n / 10).push(digit(n % 10))
    }
}

/// The escape sequence that moves the cursor to column `x` and row `y`
/// (both counted from one): `ESC [ y ; x H`.
pub open spec fn goto_seq(x: nat, y: nat) -> Seq<char> {
    seq!['\x1b', '['] + decimal(y) + seq![';'] + decimal(x) + seq!['H']
}

/// Relies on termion's `cursor::Goto` turned into a `String`: it writes
/// `ESC [`, the row in decimal, `;`, the column in decimal, and `H`.
#[verifier::external_body]
pub(crate) fn goto(x: u16, y: u16) -> (r: String)
    ensures
        r@ == goto_seq(x as nat, y as nat),
{
    String::from(termion::cursor::Goto(x, y))
}

} // verus!
