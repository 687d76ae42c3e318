//! The running total of the fees that no voucher covers yet.

use vstd::prelude::*;
use vstd::string::StrSliceExecFns;

verus! {

/// What an (allocation, sender) pair has received since its last voucher:
/// the highest receipt id seen and the sum of the receipts' values.
#[derive(Clone, Copy, Debug, PartialEq, Eq, Structural)]
pub struct UnaggregatedReceipts {
    pub last_id: u64,
    pub value: u128,
}

/// An amount, held at the largest amount that 128 bits can store.
pub open spec fn held_at_max(n: nat) -> u128 {
    if n > u128::MAX {
        u128::MAX
    } else {
        n as u128
    }
}

/// The sum of two fee amounts, held at the largest amount that can be stored.
pub open spec fn clamped_sum(a: int, b: int) -> int {
    if a + b > u128::MAX {
        u128::MAX as int
    } else {
        a + b
    }
}

impl UnaggregatedReceipts {
    /// The total after a receipt with the given id and value was counted: a
    /// receipt whose id is not above the highest one seen changes nothing.
    pub open spec fn spec_with_receipt(self, id: u64, value: u128) -> UnaggregatedReceipts {
        if id > self.last_id {
            UnaggregatedReceipts {
                last_id: id,
                value: clamped_sum(self.value as int, value as int) as u128,
            }
        } else {
            self
        }
    }

    /// No receipt seen, nothing owed.
    pub fn zero() -> (u: UnaggregatedReceipts)
        ensures
            u == (UnaggregatedReceipts { last_id: 0, value: 0 }),
    {
        UnaggregatedReceipts { last_id: 0, value: 0 }
    }

    /// Counts a receipt. Returns whether the total changed and whether the sum
    /// had to be held at `u128::MAX`.
    pub fn add_receipt(&mut self, id: u64, value: u128) -> (r: (bool, bool))
        ensures
            *final(self) == old(self).spec_with_receipt(id, value),
            r.0 == (id > old(self).last_id),
            r.1 == (id > old(self).last_id && old(self).value + value > u128::MAX),
    {
        if id > self.last_id {
            self.last_id = id;
            match self.value.checked_add(value) {
                Some(sum) => {
                    self.value = sum;
                    (true, false)
                },
                None => {
                    self.value = u128::MAX;
                    (true, true)
                },
            }
        } else {
            (false, false)
        }
    }
}

/// Why the aggregate that the receipt log returned cannot be a total.
#[derive(Clone, Copy, Debug, PartialEq, Eq, Structural)]
pub enum AggregateError {
    /// Exactly one of highest id and sum is missing.
    NullMismatch,
    /// The highest id is negative.
    NegativeId,
    /// The sum is not a whole number.
    InvalidValue,
}

/// The value of a decimal digit, if the character is one.
pub open spec fn digit_value(c: char) -> Option<int> {
    if '0' <= c <= '9' {
        Some(c as int - '0' as int)
    } else {
        None
    }
}

/// Whether every character is a decimal digit.
pub open spec fn all_digits(s: Seq<char>) -> bool {
    forall|i: int| 0 <= i < s.len() ==> (#[trigger] digit_value(s[i])) is Some
}

/// The number that a string of decimal digits denotes.
pub open spec fn decimal_value(s: Seq<char>) -> nat
    decreases s.len(),
{
    if s.len() == 0 {
        0
    } else {
        decimal_value(s.drop_last()) * 10 + digit_value(s.last()).unwrap() as nat
    }
}

/// The text without a leading plus sign.
pub open spec fn strip_plus(s: Seq<char>) -> Seq<char> {
    if s.len() > 0 && s[0] == '+' {
        s.skip(1)
    } else {
        s
    }
}

/// The 128-bit number that a text denotes: one or more decimal digits after
/// an optional plus sign, if their value fits.
pub open spec fn decimal_u128(s: Seq<char>) -> Option<u128> {
    let d = strip_plus(s);
    if d.len() > 0 && all_digits(d) && decimal_value(d) <= u128::MAX {
        Some(decimal_value(d) as u128)
    } else {
        None
    }
}

/// The sum that a text denotes: the value of one or more decimal digits
/// after an optional plus sign, held at `u128::MAX`, and whether it was held.
pub open spec fn decimal_sum(s: Seq<char>) -> Option<(u128, bool)> {
    let d = strip_plus(s);
    if d.len() > 0 && all_digits(d) {
        Some((held_at_max(decimal_value(d)), decimal_value(d) > u128::MAX))
    } else {
        None
    }
}

/// The total that an aggregate over the receipt log denotes, and whether its
/// sum had to be held at `u128::MAX`.
pub open spec fn total_of_aggregate(max_id: Option<i64>, sum: Option<Seq<char>>) -> Result<
    (UnaggregatedReceipts, bool),
    AggregateError,
> {
    if (max_id is None) != (sum is None) {
        Err(AggregateError::NullMismatch)
    } else if max_id is None {
        Ok((UnaggregatedReceipts { last_id: 0, value: 0 }, false))
    } else if max_id->0 < 0 {
        Err(AggregateError::NegativeId)
    } else {
        match decimal_sum(sum->0) {
            None => Err(AggregateError::InvalidValue),
            Some((value, held)) => Ok((UnaggregatedReceipts { last_id: max_id->0 as u64, value }, held)),
        }
    }
}

/// The digits of a beginning of a text denote no more than the whole text.
pub proof fn lemma_decimal_value_prefix(s: Seq<char>, n: int)
    requires
        0 <= n <= s.len(),
        all_digits(s),
    ensures
        decimal_value(s.take(n)) <= decimal_value(s),
    decreases s.len(),
{
    if n == s.len() {
        assert(s.take(n) =~= s);
    } else {
        assert(s.drop_last().take(n) =~= s.take(n));
        assert forall|i: int| 0 <= i < s.drop_last().len() implies (#[trigger] digit_value(
            s.drop_last()[i],
        )) is Some by {
            assert(s.drop_last()[i] == s[i]);
        }
        lemma_decimal_value_prefix(s.drop_last(), n);
        assert(digit_value(s[s.len() - 1]) is Some);
    }
}

/// Reads a 128-bit number from decimal text: one or more digits after an
/// optional plus sign.
pub fn parse_u128(s: &str) -> (r: Option<u128>)
    ensures
        r == decimal_u128(s@),
{
    let n: usize = s.unicode_len();
    if n == 0 {
        return None;
    }
    let start: usize = if s.get_char(0) == '+' {
        1
    } else {
        0
    };
    if start == n {
        return None;
    }
    let ghost d = strip_plus(s@);
    assert(d.len() == n - start);
    assert(forall|k: int| 0 <= k < d.len() ==> d[k] == s@[k + start]);
    let mut acc: u128 = 0;
    let mut i: usize = start;
    while i < n
        invariant
            start <= i <= n,
            n == s@.len(),
            d == strip_plus(s@),
            d.len() == n - start,
            forall|k: int| 0 <= k < d.len() ==> d[k] == s@[k + start],
            forall|k: int| 0 <= k < i - start ==> (#[trigger] digit_value(d[k])) is Some,
            acc == decimal_value(d.take(i - start)),
        decreases n - i,
    {
        let c = s.get_char(i);
        let v: u32 = c as u32;
        proof {
            assert(d[i - start] == c);
            assert(d.take(i - start + 1).drop_last() =~= d.take(i - start));
            assert(d.take(i - start + 1).last() == c);
        }
        if !(48 <= v && v <= 57) {
            assert(digit_value(d[i - start]) is None);
            return None;
        }
        let digit: u128 = (v - 48) as u128;
        let next = match acc.checked_mul(10) {
            Some(m) => m.checked_add(digit),
            None => None,
        };
        match next {
            Some(x) => {
                acc = x;
            },
            None => {
                proof {
                    assert(decimal_value(d.take(i - start + 1)) > u128::MAX);
                    if all_digits(d) {
                        lemma_decimal_value_prefix(d, i - start + 1);
                    }
                }
                return None;
            },
        }
        i += 1;
    }
    proof {
        assert(d.take(d.len() as int) =~= d);
    }
    Some(acc)
}

/// Reads a sum from decimal text: one or more digits after an optional plus
/// sign. A sum that does not fit in 128 bits is held at `u128::MAX`, and the
/// second part of the result says so.
pub fn parse_sum(s: &str) -> (r: Option<(u128, bool)>)
    ensures
        r == decimal_sum(s@),
{
    let n: usize = s.unicode_len();
    if n == 0 {
        return None;
    }
    let start: usize = if s.get_char(0) == '+' {
        1
    } else {
        0
    };
    if start == n {
        return None;
    }
    let ghost d = strip_plus(s@);
    assert(d.len() == n - start);
    assert(forall|k: int| 0 <= k < d.len() ==> d[k] == s@[k + start]);
    let mut acc: u128 = 0;
    let mut held: bool = false;
    let mut i: usize = start;
    while i < n
        invariant
            start <= i <= n,
            n == s@.len(),
            d == strip_plus(s@),
            d.len() == n - start,
            forall|k: int| 0 <= k < d.len() ==> d[k] == s@[k + start],
            forall|k: int| 0 <= k < i - start ==> (#[trigger] digit_value(d[k])) is Some,
            acc == held_at_max(decimal_value(d.take(i - start))),
            held == (decimal_value(d.take(i - start)) > u128::MAX),
        decreases n - i,
    {
        let c = s.get_char(i);
        let v: u32 = c as u32;
        proof {
            assert(d[i - start] == c);
            assert(d.take(i - start + 1).drop_last() =~= d.take(i - start));
            assert(d.take(i - start + 1).last() == c);
        }
        if !(48 <= v && v <= 57) {
            assert(digit_value(d[i - start]) is None);
            return None;
        }
        let digit: u128 = (v - 48) as u128;
        let next = match acc.checked_mul(10) {
            Some(m) => m.checked_add(digit),
            None => None,
        };
        match next {
            Some(x) => {
                if !held {
                    acc = x;
                }
            },
            None => {
                acc = u128::MAX;
                held = true;
            },
        }
        i += 1;
    }
    proof {
        assert(d.take(d.len() as int) =~= d);
    }
    Some((acc, held))
}

impl UnaggregatedReceipts {
    /// The total that the receipt log's aggregate denotes: the highest id and
    /// the sum of the counted receipts, or nothing owed where no receipt is
    /// counted. A sum that does not fit in 128 bits is held at `u128::MAX`,
    /// and the second part of the result says so. An aggregate with exactly
    /// one of the two missing is refused, and so are a negative id and a sum
    /// that is no whole number.
    pub fn from_aggregate(max_id: Option<i64>, sum: Option<&str>) -> (r: Result<
        (UnaggregatedReceipts, bool),
        AggregateError,
    >)
        ensures
            r == total_of_aggregate(
                max_id,
                match sum {
                    Some(s) => Some(s@),
                    None => None,
                },
            ),
    {
        match (max_id, sum) {
            (None, None) => Ok((UnaggregatedReceipts { last_id: 0, value: 0 }, false)),
            (Some(m), Some(s)) => {
                if m < 0 {
                    return Err(AggregateError::NegativeId);
                }
                match parse_sum(s) {
                    Some((v, held)) => Ok((UnaggregatedReceipts { last_id: m as u64, value: v }, held)),
                    None => Err(AggregateError::InvalidValue),
                }
            },
            _ => Err(AggregateError::NullMismatch),
        }
    }
}

impl Default for UnaggregatedReceipts {
    fn default() -> (u: UnaggregatedReceipts)
        ensures
            u == (UnaggregatedReceipts { last_id: 0, value: 0 }),
    {
        UnaggregatedReceipts { last_id: 0, value: 0 }
    }
}

/// Counting a receipt a second time changes nothing: its id is then no longer
/// above the highest id seen.
pub proof fn lemma_receipt_counted_once(u: UnaggregatedReceipts, id: u64, value: u128)
    ensures
        u.spec_with_receipt(id, value).spec_with_receipt(id, value) == u.spec_with_receipt(
            id,
            value,
        ),
{
}

/// The total never exceeds `u128::MAX` and never shrinks when a receipt is
/// counted, and the highest id seen never goes down.
pub proof fn lemma_receipt_total_monotone(u: UnaggregatedReceipts, id: u64, value: u128)
    ensures
        u.spec_with_receipt(id, value).value >= u.value,
        u.spec_with_receipt(id, value).last_id >= u.last_id,
        u.value + value > u128::MAX && id > u.last_id ==> u.spec_with_receipt(id, value).value
            == u128::MAX,
{
}

} // verus!
