//! Rendering of the final balance report: decimal text for client ids
//! and fixed-point amounts, and the report layout itself. One header
//! line, then one line per known client in order of first appearance,
//! each amount printed with exactly four fraction digits.

use vstd::prelude::*;

use crate::types::{AccountView, Amount, ClientId};

verus! {

broadcast use crate::types::lemma_amount_fits_i64;

/// The character for one decimal digit.
pub open spec fn digit_char(d: int) -> char
    recommends
        0 <= d < 10,
{
    if d == 0 {
        '0'
    } else if d == 1 {
        '1'
    } else if d == 2 {
        '2'
    } else if d == 3 {
        '3'
    } else if d == 4 {
        '4'
    } else if d == 5 {
        '5'
    } else if d == 6 {
        '6'
    } else if d == 7 {
        '7'
    } else if d == 8 {
        '8'
    } else {
        '9'
    }
}

/// The decimal digits of `n`, most significant first, no leading
/// zeros except for zero itself.
pub open spec fn dec_chars(n: nat) -> Seq<char>
    decreases n,
{
    if n < 10 {
        seq![digit_char(n as int)]
    } else {
        dec_chars(n / 10) + seq![digit_char((n % 10) as int)]
    }
}

/// The text of a non-negative count `m` of ten-thousandths: the whole
/// part, a point, and exactly four fraction digits.
pub open spec fn magnitude_chars(m: int) -> Seq<char>
    recommends
        m >= 0,
{
    dec_chars((m / 10000) as nat) + seq!['.'] + seq![
        digit_char(m / 1000 % 10),
        digit_char(m / 100 % 10),
        digit_char(m / 10 % 10),
        digit_char(m % 10),
    ]
}

/// The text of a fixed-point amount of `u` ten-thousandths: a minus
/// sign for negative amounts, then the magnitude.
pub open spec fn amount_chars(u: int) -> Seq<char> {
    if u < 0 {
        seq!['-'] + magnitude_chars(-u)
    } else {
        magnitude_chars(u)
    }
}

/// The text of the lock flag.
pub open spec fn bool_chars(b: bool) -> Seq<char> {
    if b {
        "true"@
    } else {
        "false"@
    }
}

/// One report line: client id and the four account fields, separated
/// by commas, closed by a newline.
pub open spec fn report_line(c: ClientId, a: AccountView) -> Seq<char> {
    dec_chars(c as nat) + ","@ + amount_chars(a.available) + ","@ + amount_chars(a.held) + ","@
        + amount_chars(a.total) + ","@ + bool_chars(a.locked) + "\n"@
}

/// The report lines for the clients of `order`, in order; an id with
/// no account contributes nothing.
pub open spec fn report_lines(clients: Map<ClientId, AccountView>, order: Seq<ClientId>) -> Seq<
    char,
>
    decreases order.len(),
{
    if order.len() == 0 {
        Seq::empty()
    } else {
        report_lines(clients, order.drop_last()) + if clients.contains_key(order.last()) {
            report_line(order.last(), clients[order.last()])
        } else {
            Seq::empty()
        }
    }
}

/// The whole report: the header line, then the report lines.
pub open spec fn report_chars(clients: Map<ClientId, AccountView>, order: Seq<ClientId>) -> Seq<
    char,
> {
    "client,available,held,total,locked\n"@ + report_lines(clients, order)
}

/// The text of one decimal digit.
pub fn digit_str(d: u64) -> (r: &'static str)
    requires
        d < 10,
    ensures
        r@ == seq![digit_char(d as int)],
{
    proof {
        reveal_strlit("0");
        reveal_strlit("1");
        reveal_strlit("2");
        reveal_strlit("3");
        reveal_strlit("4");
        reveal_strlit("5");
        reveal_strlit("6");
        reveal_strlit("7");
        reveal_strlit("8");
        reveal_strlit("9");
    }
    let r = if d == 0 {
        "0"
    } else if d == 1 {
        "1"
    } else if d == 2 {
        "2"
    } else if d == 3 {
        "3"
    } else if d == 4 {
        "4"
    } else if d == 5 {
        "5"
    } else if d == 6 {
        "6"
    } else if d == 7 {
        "7"
    } else if d == 8 {
        "8"
    } else {
        "9"
    };
    proof {
        assert(r@ =~= seq![digit_char(d as int)]);
    }
    r
}

/// The decimal text of `n`.
pub fn format_u64(n: u64) -> (r: String)
    ensures
        r@ == dec_chars(n as nat),
    decreases n,
{
    if n < 10 {
        String::from_str(digit_str(n))
    } else {
        let mut s = format_u64(n / 10);
        s.append(digit_str(n % 10));
        s
    }
}

/// The text of `b` as the report prints it.
pub fn bool_str(b: bool) -> (r: &'static str)
    ensures
        r@ == bool_chars(b),
{
    if b {
        "true"
    } else {
        "false"
    }
}

/// The text of a fixed-point amount, with exactly four fraction
/// digits.
pub fn format_amount(a: Amount) -> (r: String)
    ensures
        r@ == amount_chars(a@),
{
    let units = a.units();
    let mag: u64 = if units >= 0 {
        units as u64
    } else {
        (-(units as i128)) as u64
    };
    proof {
        assert(mag as int == if a@ < 0 {
            -a@
        } else {
            a@
        });
    }
    let mut s = if units < 0 {
        String::from_str("-")
    } else {
        String::new()
    };
    let whole = format_u64(mag / 10000);
    s.append(whole.as_str());
    s.append(".");
    s.append(digit_str(mag / 1000 % 10));
    s.append(digit_str(mag / 100 % 10));
    s.append(digit_str(mag / 10 % 10));
    s.append(digit_str(mag % 10));
    proof {
        reveal_strlit("-");
        reveal_strlit(".");
        assert(s@ =~= amount_chars(a@));
    }
    s
}

} // verus!
