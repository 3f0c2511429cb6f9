//! Typed transaction records and the decoder that turns one raw input
//! line into such a record.

use vstd::prelude::*;
use vstd::string::StrSliceExecFns;

use crate::types::{Amount, ClientId, TransactionId};

verus! {

/// The five transaction kinds of the input stream.
#[derive(Clone, Copy, Debug, PartialEq, Eq)]
pub enum Type {
    Deposit,
    Withdrawal,
    Dispute,
    Resolve,
    Chargeback,
}

/// One typed transaction record. The amount is present for deposits
/// and withdrawals and absent for the dispute-lifecycle kinds.
#[derive(Clone, Copy, Debug, PartialEq, Eq)]
pub struct Transaction {
    pub t_type: Type,
    pub t_client_id: ClientId,
    pub transaction_id: TransactionId,
    pub amount: Option<Amount>,
}

/// The mathematical content of a transaction record: the amount, when
/// present, as an unbounded integer count of ten-thousandths.
pub ghost struct TransactionView {
    pub kind: Type,
    pub client: ClientId,
    pub tx: TransactionId,
    pub amount: Option<int>,
}

impl View for Transaction {
    type V = TransactionView;

    open spec fn view(&self) -> TransactionView {
        TransactionView {
            kind: self.t_type,
            client: self.t_client_id,
            tx: self.transaction_id,
            amount: match self.amount {
                Some(a) => Some(a@),
                None => None,
            },
        }
    }
}

/// Why a raw input line was rejected by the decoder.
#[derive(Clone, Copy, Debug, PartialEq, Eq, Structural)]
pub enum DecodeError {
    /// The record does not have three or four comma-separated fields.
    MalformedRecord,
    /// The first field names no known transaction kind.
    UnknownTransactionType,
    /// The client field is not an unsigned integer in range.
    InvalidClientId,
    /// The transaction field is not an unsigned integer in range.
    InvalidTransactionId,
    /// The amount field is not a decimal number in range.
    InvalidAmount,
    /// The amount field is negative.
    NegativeAmount,
}

/// The field separators the decoder trims around every field.
pub open spec fn is_space(c: char) -> bool {
    c == ' ' || c == '\t'
}

/// Whether `c` is a decimal digit.
pub open spec fn is_digit(c: char) -> bool {
    '0' <= c && c <= '9'
}

/// The value of the decimal digit `c`.
pub open spec fn digit_val(c: char) -> int {
    c as int - '0' as int
}

/// The first index in `[from, to)` where `s` holds `c`, or `to`.
pub open spec fn find_from(s: Seq<char>, from: int, to: int, c: char) -> int
    decreases to - from,
{
    if from >= to {
        to
    } else if s[from] == c {
        from
    } else {
        find_from(s, from + 1, to, c)
    }
}

/// The first index in `[from, to)` holding a non-space, or `to`.
pub open spec fn skip_spaces(s: Seq<char>, from: int, to: int) -> int
    decreases to - from,
{
    if from >= to {
        to
    } else if is_space(s[from]) {
        skip_spaces(s, from + 1, to)
    } else {
        from
    }
}

/// One past the last non-space index in `[from, to)`, or `from` if
/// the whole range is spaces.
pub open spec fn rtrim_at(s: Seq<char>, from: int, to: int) -> int
    decreases to - from,
{
    if from >= to {
        from
    } else if is_space(s[to - 1]) {
        rtrim_at(s, from, to - 1)
    } else {
        to
    }
}

/// Whether every character in `[from, to)` is a decimal digit.
pub open spec fn all_digits(s: Seq<char>, from: int, to: int) -> bool {
    forall|i: int| from <= i < to ==> is_digit(#[trigger] s[i])
}

/// The value of the digit run `[from, to)`, read as a decimal number.
pub open spec fn digits_val(s: Seq<char>, from: int, to: int) -> int
    decreases to - from,
{
    if from >= to {
        0
    } else {
        digits_val(s, from, to - 1) * 10 + digit_val(s[to - 1])
    }
}

/// Ten to the power `k`.
pub open spec fn pow10(k: nat) -> int
    decreases k,
{
    if k == 0 {
        1
    } else {
        10 * pow10((k - 1) as nat)
    }
}

proof fn lemma_digits_val_bounds(s: Seq<char>, from: int, to: int)
    requires
        from <= to,
        all_digits(s, from, to),
    ensures
        0 <= digits_val(s, from, to) < pow10((to - from) as nat),
    decreases to - from,
{
    if from < to {
        lemma_digits_val_bounds(s, from, to - 1);
        assert(is_digit(s[to - 1]));
    }
}

proof fn lemma_digits_val_monotone(s: Seq<char>, from: int, i: int, to: int)
    requires
        from <= i <= to,
        all_digits(s, from, to),
    ensures
        digits_val(s, from, to) >= digits_val(s, from, i) >= 0,
    decreases to - i,
{
    lemma_digits_val_bounds(s, from, i);
    if i < to {
        lemma_digits_val_monotone(s, from, i + 1, to);
        lemma_digits_val_bounds(s, from, i);
        assert(is_digit(s[i]));
        assert(digits_val(s, from, i + 1) == digits_val(s, from, i) * 10 + digit_val(s[i]));
    }
}

proof fn lemma_find_from_is(s: Seq<char>, from: int, to: int, c: char, i: int)
    requires
        from <= i <= to,
        forall|j: int| from <= j < i ==> s[j] != c,
        i == to || s[i] == c,
    ensures
        find_from(s, from, to, c) == i,
    decreases i - from,
{
    if from < i {
        lemma_find_from_is(s, from + 1, to, c, i);
    }
}

proof fn lemma_skip_spaces_is(s: Seq<char>, from: int, to: int, i: int)
    requires
        from <= i <= to,
        forall|j: int| from <= j < i ==> is_space(#[trigger] s[j]),
        i == to || !is_space(s[i]),
    ensures
        skip_spaces(s, from, to) == i,
    decreases i - from,
{
    if from < i {
        lemma_skip_spaces_is(s, from + 1, to, i);
    }
}

proof fn lemma_rtrim_at_is(s: Seq<char>, from: int, to: int, i: int)
    requires
        from <= i <= to,
        forall|j: int| i <= j < to ==> is_space(#[trigger] s[j]),
        i == from || !is_space(s[i - 1]),
    ensures
        rtrim_at(s, from, to) == i,
    decreases to - i,
{
    if i < to {
        lemma_rtrim_at_is(s, from, to - 1, i);
    }
}

/// The first index in `[from, to)` where `s` holds `c`, or `to`.
fn find_char(s: &str, from: usize, to: usize, c: char) -> (r: usize)
    requires
        from <= to <= s@.len(),
    ensures
        from <= r <= to,
        r == find_from(s@, from as int, to as int, c),
{
    let mut i: usize = from;
    while i < to
        invariant
            from <= i <= to <= s@.len(),
            forall|j: int| from <= j < i ==> s@[j] != c,
        decreases to - i,
    {
        if s.get_char(i) == c {
            proof {
                lemma_find_from_is(s@, from as int, to as int, c, i as int);
            }
            return i;
        }
        i = i + 1;
    }
    proof {
        lemma_find_from_is(s@, from as int, to as int, c, to as int);
    }
    to
}

/// Narrows `[from, to)` to its content without leading and trailing
/// spaces and tabs.
fn trim_range(s: &str, from: usize, to: usize) -> (r: (usize, usize))
    requires
        from <= to <= s@.len(),
    ensures
        from <= r.0 <= r.1 <= to,
        r.0 == skip_spaces(s@, from as int, to as int),
        r.1 == rtrim_at(s@, r.0 as int, to as int),
{
    let mut a: usize = from;
    while a < to
        invariant_except_break
            from <= a <= to <= s@.len(),
            forall|j: int| from <= j < a ==> is_space(#[trigger] s@[j]),
        ensures
            from <= a <= to <= s@.len(),
            forall|j: int| from <= j < a ==> is_space(#[trigger] s@[j]),
            a == to || !is_space(s@[a as int]),
        decreases to - a,
    {
        let c = s.get_char(a);
        if !(c == ' ' || c == '\t') {
            break ;
        }
        a = a + 1;
    }
    proof {
        lemma_skip_spaces_is(s@, from as int, to as int, a as int);
    }
    let mut b: usize = to;
    while b > a
        invariant_except_break
            a <= b <= to <= s@.len(),
            forall|j: int| b <= j < to ==> is_space(#[trigger] s@[j]),
        ensures
            a <= b <= to <= s@.len(),
            forall|j: int| b <= j < to ==> is_space(#[trigger] s@[j]),
            b == a || !is_space(s@[b - 1]),
        decreases b,
    {
        let c = s.get_char(b - 1);
        if !(c == ' ' || c == '\t') {
            break ;
        }
        b = b - 1;
    }
    proof {
        lemma_rtrim_at_is(s@, a as int, to as int, b as int);
    }
    (a, b)
}

/// Whether the field `[from, to)` reads exactly as `w`.
fn field_matches(s: &str, from: usize, to: usize, w: &str) -> (r: bool)
    requires
        from <= to <= s@.len(),
    ensures
        r == (s@.subrange(from as int, to as int) == w@),
{
    let wl = w.unicode_len();
    if to - from != wl {
        proof {
            assert(s@.subrange(from as int, to as int).len() != w@.len());
        }
        return false;
    }
    let mut i: usize = 0;
    while i < wl
        invariant
            0 <= i <= wl,
            to - from == wl,
            from + wl <= s@.len(),
            wl == w@.len(),
            forall|j: int| 0 <= j < i ==> s@[from + j] == w@[j],
        decreases wl - i,
    {
        if s.get_char(from + i) != w.get_char(i) {
            proof {
                assert(s@.subrange(from as int, to as int)[i as int] != w@[i as int]);
            }
            return false;
        }
        i = i + 1;
    }
    proof {
        assert(s@.subrange(from as int, to as int) =~= w@);
    }
    true
}

/// The value of the unsigned-integer field `[from, to)`: present
/// exactly when the field is nonempty and all digits.
pub open spec fn uint_field(s: Seq<char>, from: int, to: int) -> Option<int> {
    if from < to && all_digits(s, from, to) {
        Some(digits_val(s, from, to))
    } else {
        None
    }
}

/// Parses the unsigned-integer field `[from, to)`, rejecting values
/// above `max`.
fn parse_uint_field(s: &str, from: usize, to: usize, max: u64) -> (r: Option<u64>)
    requires
        from <= to <= s@.len(),
    ensures
        match r {
            Some(v) => uint_field(s@, from as int, to as int) == Some(v as int) && v <= max,
            None => uint_field(s@, from as int, to as int) is None || uint_field(
                s@,
                from as int,
                to as int,
            )->Some_0 > max,
        },
{
    if from == to {
        return None;
    }
    let mut acc: u64 = 0;
    let mut i: usize = from;
    while i < to
        invariant
            from <= i <= to <= s@.len(),
            all_digits(s@, from as int, i as int),
            acc as int == digits_val(s@, from as int, i as int),
            acc <= max,
        decreases to - i,
    {
        let c = s.get_char(i);
        let cv = c as u32;
        if cv < 48 || cv > 57 {
            proof {
                assert(!is_digit(s@[i as int]));
            }
            return None;
        }
        let d = (cv - 48) as u64;
        proof {
            assert(is_digit(s@[i as int]));
            assert(d as int == digit_val(s@[i as int]));
        }
        let wide: u128 = (acc as u128) * 10 + (d as u128);
        if wide > max as u128 {
            proof {
                if all_digits(s@, from as int, to as int) {
                    lemma_digits_val_monotone(s@, from as int, i + 1 as int, to as int);
                }
            }
            return None;
        }
        acc = wide as u64;
        i = i + 1;
    }
    Some(acc)
}

/// Whether any character of `[from, to)` differs from `'0'`.
pub open spec fn has_nonzero(s: Seq<char>, from: int, to: int) -> bool {
    exists|i: int| from <= i < to && s[i] != '0'
}

/// Whether the fraction digits beyond the fourth, `[from, to)`, round
/// the kept four-digit value `kept` up; an exact tie rounds to even.
pub open spec fn rounds_up(s: Seq<char>, from: int, to: int, kept: int) -> bool {
    if from >= to {
        false
    } else if digit_val(s[from]) > 5 {
        true
    } else if digit_val(s[from]) < 5 {
        false
    } else if has_nonzero(s, from + 1, to) {
        true
    } else {
        kept % 2 == 1
    }
}

/// The value in ten-thousandths of the fraction digits `[from, to)`:
/// the first four digits, rounded by the rest, or fewer digits scaled
/// up.
pub open spec fn frac_value(s: Seq<char>, from: int, to: int) -> int {
    if to - from >= 4 {
        let kept = digits_val(s, from, from + 4);
        kept + if rounds_up(s, from + 4, to, kept) {
            1int
        } else {
            0int
        }
    } else {
        digits_val(s, from, to) * pow10((4 - (to - from)) as nat)
    }
}

/// The amount field `[from, to)` in ten-thousandths: an optional
/// integer part and an optional point-led fraction part, with at
/// least one digit in all; a leading minus is rejected as negative;
/// fraction digits beyond the fourth are rounded, ties to even; the
/// value must fit the fixed-point range.
pub open spec fn amount_field(s: Seq<char>, from: int, to: int) -> Result<int, DecodeError> {
    if from >= to {
        Err(DecodeError::InvalidAmount)
    } else if s[from] == '-' {
        Err(DecodeError::NegativeAmount)
    } else {
        let dot = find_from(s, from, to, '.');
        let frac_from = if dot < to {
            dot + 1
        } else {
            to
        };
        if !(all_digits(s, from, dot) && all_digits(s, frac_from, to)) {
            Err(DecodeError::InvalidAmount)
        } else if (dot - from) + (to - frac_from) < 1 {
            Err(DecodeError::InvalidAmount)
        } else {
            let units = digits_val(s, from, dot) * 10000 + frac_value(s, frac_from, to);
            if units > i64::MAX {
                Err(DecodeError::InvalidAmount)
            } else {
                Ok(units)
            }
        }
    }
}

/// Parses the amount field `[from, to)` into ten-thousandths.
#[verifier::loop_isolation(false)]
fn parse_amount_field(s: &str, from: usize, to: usize) -> (r: Result<i64, DecodeError>)
    requires
        from <= to <= s@.len(),
    ensures
        match r {
            Ok(v) => amount_field(s@, from as int, to as int) == Ok::<int, DecodeError>(v as int),
            Err(e) => amount_field(s@, from as int, to as int) == Err::<int, DecodeError>(e),
        },
{
    if from >= to {
        return Err(DecodeError::InvalidAmount);
    }
    if s.get_char(from) == '-' {
        return Err(DecodeError::NegativeAmount);
    }
    let dot = find_char(s, from, to, '.');
    let frac_from = if dot < to {
        dot + 1
    } else {
        to
    };
    if (dot - from) + (to - frac_from) < 1 {
        proof {
            assert(all_digits(s@, from as int, dot as int));
            assert(all_digits(s@, frac_from as int, to as int));
        }
        return Err(DecodeError::InvalidAmount);
    }
    let whole: u64 = if from == dot {
        0
    } else {
        match parse_uint_field(s, from, dot, 922_337_203_685_477) {
            Some(v) => v,
            None => {
                proof {
                    if all_digits(s@, from as int, dot as int) && all_digits(
                        s@,
                        frac_from as int,
                        to as int,
                    ) {
                        lemma_whole_part_too_large(
                            s@,
                            from as int,
                            dot as int,
                            frac_from as int,
                            to as int,
                        );
                    }
                }
                return Err(DecodeError::InvalidAmount);
            },
        }
    };
    let frac_len = to - frac_from;
    let kept_to = if frac_len >= 4 {
        frac_from + 4
    } else {
        to
    };
    let kept: u64 = if frac_from == kept_to {
        0
    } else {
        match parse_uint_field(s, frac_from, kept_to, 9999) {
            Some(v) => v,
            None => {
                proof {
                    if all_digits(s@, frac_from as int, kept_to as int) {
                        lemma_digits_val_bounds(s@, frac_from as int, kept_to as int);
                        reveal_with_fuel(pow10, 5);
                    }
                }
                return Err(DecodeError::InvalidAmount);
            },
        }
    };
    let scaled: u64 = if frac_len >= 4 {
        kept
    } else {
        proof {
            reveal_with_fuel(pow10, 5);
            if frac_from < kept_to {
                lemma_digits_val_bounds(s@, frac_from as int, kept_to as int);
            }
        }
        if frac_len == 0 {
            kept * 10000
        } else if frac_len == 1 {
            kept * 1000
        } else if frac_len == 2 {
            kept * 100
        } else {
            kept * 10
        }
    };
    let mut round_up: bool = false;
    if frac_len > 4 {
        let c0 = s.get_char(frac_from + 4);
        let cv0 = c0 as u32;
        if cv0 < 48 || cv0 > 57 {
            proof {
                assert(!is_digit(s@[frac_from + 4 as int]));
            }
            return Err(DecodeError::InvalidAmount);
        }
        let mut any_nonzero: bool = false;
        let mut i: usize = frac_from + 5;
        while i < to
            invariant
                frac_from + 5 <= i <= to <= s@.len(),
                all_digits(s@, frac_from + 5 as int, i as int),
                any_nonzero == has_nonzero(s@, frac_from + 5 as int, i as int),
            decreases to - i,
        {
            let c = s.get_char(i);
            let cv = c as u32;
            if cv < 48 || cv > 57 {
                proof {
                    assert(!is_digit(s@[i as int]));
                }
                return Err(DecodeError::InvalidAmount);
            }
            if cv != 48 {
                any_nonzero = true;
            }
            proof {
                assert(has_nonzero(s@, frac_from + 5 as int, i + 1 as int) == (has_nonzero(
                    s@,
                    frac_from + 5 as int,
                    i as int,
                ) || s@[i as int] != '0'));
            }
            i = i + 1;
        }
        round_up = if cv0 > 53 {
            true
        } else if cv0 < 53 {
            false
        } else if any_nonzero {
            true
        } else {
            kept % 2 == 1
        };
        proof {
            assert(digit_val(s@[frac_from + 4 as int]) == cv0 - 48);
            assert(round_up == rounds_up(s@, frac_from + 4 as int, to as int, kept as int));
        }
    }
    proof {
        reveal_with_fuel(pow10, 5);
        if frac_from < kept_to {
            lemma_digits_val_bounds(s@, frac_from as int, kept_to as int);
        }
        assert forall|j: int| frac_from <= j < to implies is_digit(#[trigger] s@[j]) by {
            if j >= kept_to {
                assert(frac_len > 4);
                if j > frac_from + 4 {
                    assert(all_digits(s@, frac_from + 5 as int, to as int));
                }
            }
        }
        assert(all_digits(s@, frac_from as int, to as int));
        assert(frac_value(s@, frac_from as int, to as int) == scaled + if round_up {
            1int
        } else {
            0int
        });
    }
    let units: u64 = whole * 10000 + scaled + if round_up {
        1
    } else {
        0
    };
    if units > 9_223_372_036_854_775_807u64 {
        return Err(DecodeError::InvalidAmount);
    }
    Ok(units as i64)
}

proof fn lemma_whole_part_too_large(s: Seq<char>, from: int, dot: int, frac_from: int, to: int)
    requires
        from <= dot <= frac_from <= to,
        all_digits(s, from, dot),
        all_digits(s, frac_from, to),
        digits_val(s, from, dot) > 922_337_203_685_477,
    ensures
        digits_val(s, from, dot) * 10000 + frac_value(s, frac_from, to) > i64::MAX,
{
    lemma_frac_value_nonneg(s, frac_from, to);
}

proof fn lemma_frac_value_nonneg(s: Seq<char>, from: int, to: int)
    requires
        from <= to,
        all_digits(s, from, to),
    ensures
        frac_value(s, from, to) >= 0,
{
    if to - from >= 4 {
        lemma_digits_val_bounds(s, from, from + 4);
    } else {
        lemma_digits_val_bounds(s, from, to);
        lemma_pow10_pos((4 - (to - from)) as nat);
    }
}

proof fn lemma_pow10_pos(k: nat)
    ensures
        pow10(k) >= 1,
    decreases k,
{
    if k > 0 {
        lemma_pow10_pos((k - 1) as nat);
    }
}

/// The end of the record body: the line without one trailing newline,
/// or carriage return and newline.
pub open spec fn body_end(s: Seq<char>) -> int {
    if s.len() > 0 && s[s.len() - 1] == '\n' {
        if s.len() > 1 && s[s.len() - 2] == '\r' {
            s.len() - 2
        } else {
            s.len() - 1
        }
    } else {
        s.len() as int
    }
}

/// The transaction kind named by the field `[from, to)`.
pub open spec fn kind_field(s: Seq<char>, from: int, to: int) -> Option<Type> {
    if s.subrange(from, to) == "deposit"@ {
        Some(Type::Deposit)
    } else if s.subrange(from, to) == "withdrawal"@ {
        Some(Type::Withdrawal)
    } else if s.subrange(from, to) == "dispute"@ {
        Some(Type::Dispute)
    } else if s.subrange(from, to) == "resolve"@ {
        Some(Type::Resolve)
    } else if s.subrange(from, to) == "chargeback"@ {
        Some(Type::Chargeback)
    } else {
        None
    }
}

/// The grammar of one raw input line: three or four comma-separated
/// fields — kind, client id, transaction id, and an optional amount —
/// each trimmed of spaces and tabs, with one trailing newline
/// ignored. An absent or empty amount field decodes as no amount; the
/// amount is rounded to four fraction digits, ties to even, and must
/// not be negative.
pub open spec fn parse_record_spec(s: Seq<char>) -> Result<TransactionView, DecodeError> {
    let end = body_end(s);
    let c1 = find_from(s, 0, end, ',');
    let c2 = find_from(s, c1 + 1, end, ',');
    if c1 == end || c2 == end {
        Err(DecodeError::MalformedRecord)
    } else {
        let c3 = find_from(s, c2 + 1, end, ',');
        if c3 < end && find_from(s, c3 + 1, end, ',') < end {
            Err(DecodeError::MalformedRecord)
        } else {
            let ka = skip_spaces(s, 0, c1);
            let kb = rtrim_at(s, ka, c1);
            match kind_field(s, ka, kb) {
                None => Err(DecodeError::UnknownTransactionType),
                Some(kind) => {
                    let ca = skip_spaces(s, c1 + 1, c2);
                    let cb = rtrim_at(s, ca, c2);
                    match uint_field(s, ca, cb) {
                        None => Err(DecodeError::InvalidClientId),
                        Some(client) => if client > u16::MAX {
                            Err(DecodeError::InvalidClientId)
                        } else {
                            let ta = skip_spaces(s, c2 + 1, c3);
                            let tb = rtrim_at(s, ta, c3);
                            match uint_field(s, ta, tb) {
                                None => Err(DecodeError::InvalidTransactionId),
                                Some(tx) => if tx > u32::MAX {
                                    Err(DecodeError::InvalidTransactionId)
                                } else if c3 == end {
                                    Ok(
                                        TransactionView {
                                            kind,
                                            client: client as ClientId,
                                            tx: tx as TransactionId,
                                            amount: None,
                                        },
                                    )
                                } else {
                                    let aa = skip_spaces(s, c3 + 1, end);
                                    let ab = rtrim_at(s, aa, end);
                                    if aa >= ab {
                                        Ok(
                                            TransactionView {
                                                kind,
                                                client: client as ClientId,
                                                tx: tx as TransactionId,
                                                amount: None,
                                            },
                                        )
                                    } else {
                                        match amount_field(s, aa, ab) {
                                            Err(e) => Err(e),
                                            Ok(u) => Ok(
                                                TransactionView {
                                                    kind,
                                                    client: client as ClientId,
                                                    tx: tx as TransactionId,
                                                    amount: Some(u),
                                                },
                                            ),
                                        }
                                    }
                                },
                            }
                        },
                    }
                },
            }
        }
    }
}

/// Decodes one raw input line into a typed transaction; see
/// [`parse_record_spec`] for the grammar and the rejections.
pub fn parse_record(line: &str) -> (r: Result<Transaction, DecodeError>)
    ensures
        (match r {
            Ok(t) => parse_record_spec(line@) == Ok::<TransactionView, DecodeError>(t@),
            Err(e) => parse_record_spec(line@) == Err::<TransactionView, DecodeError>(e),
        }),
{
    let n = line.unicode_len();
    let end = if n > 0 && line.get_char(n - 1) == '\n' {
        if n > 1 && line.get_char(n - 2) == '\r' {
            n - 2
        } else {
            n - 1
        }
    } else {
        n
    };
    proof {
        assert(end == body_end(line@));
    }
    let c1 = find_char(line, 0, end, ',');
    if c1 == end {
        return Err(DecodeError::MalformedRecord);
    }
    let c2 = find_char(line, c1 + 1, end, ',');
    if c2 == end {
        return Err(DecodeError::MalformedRecord);
    }
    let c3 = find_char(line, c2 + 1, end, ',');
    if c3 < end {
        let c4 = find_char(line, c3 + 1, end, ',');
        if c4 < end {
            return Err(DecodeError::MalformedRecord);
        }
    }
    let kf = trim_range(line, 0, c1);
    let kind = if field_matches(line, kf.0, kf.1, "deposit") {
        Type::Deposit
    } else if field_matches(line, kf.0, kf.1, "withdrawal") {
        Type::Withdrawal
    } else if field_matches(line, kf.0, kf.1, "dispute") {
        Type::Dispute
    } else if field_matches(line, kf.0, kf.1, "resolve") {
        Type::Resolve
    } else if field_matches(line, kf.0, kf.1, "chargeback") {
        Type::Chargeback
    } else {
        return Err(DecodeError::UnknownTransactionType);
    };
    let cf = trim_range(line, c1 + 1, c2);
    let client: u16 = match parse_uint_field(line, cf.0, cf.1, 65535) {
        Some(v) => v as u16,
        None => {
            return Err(DecodeError::InvalidClientId);
        },
    };
    let tf = trim_range(line, c2 + 1, c3);
    let tx: u32 = match parse_uint_field(line, tf.0, tf.1, 4294967295) {
        Some(v) => v as u32,
        None => {
            return Err(DecodeError::InvalidTransactionId);
        },
    };
    let amount: Option<Amount> = if c3 == end {
        None
    } else {
        let af = trim_range(line, c3 + 1, end);
        if af.0 >= af.1 {
            None
        } else {
            match parse_amount_field(line, af.0, af.1) {
                Ok(u) => Some(Amount::from_units(u)),
                Err(e) => {
                    return Err(e);
                },
            }
        }
    };
    Ok(Transaction { t_type: kind, t_client_id: client, transaction_id: tx, amount })
}

} // verus!
