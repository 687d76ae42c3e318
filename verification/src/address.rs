//! Twenty-byte account identifiers and their hexadecimal text forms.

use vstd::prelude::*;
use vstd::std_specs::cmp::PartialEqSpecImpl;
use vstd::string::StringExecFns;

verus! {

/// A 20-byte account identifier.
#[derive(Clone, Copy, Debug, Eq, Hash)]
pub struct Address {
    pub bytes: [u8; 20],
}

impl View for Address {
    type V = Seq<u8>;

    open spec fn view(&self) -> Seq<u8> {
        self.bytes@
    }
}

impl PartialEq for Address {
    fn eq(&self, other: &Self) -> (r: bool) {
        broadcast use vstd::array::group_array_axioms;

        let mut i: usize = 0;
        while i < 20
            invariant
                i <= 20,
                forall|j: int| 0 <= j < i ==> self.bytes[j] == other.bytes[j],
            decreases 20 - i,
        {
            if self.bytes[i] != other.bytes[i] {
                return false;
            }
            i += 1;
        }
        assert(self.bytes =~= other.bytes);
        true
    }
}

impl PartialEqSpecImpl for Address {
    open spec fn obeys_eq_spec() -> bool {
        true
    }

    open spec fn eq_spec(&self, other: &Self) -> bool {
        *self == *other
    }
}

/// The lower-case hexadecimal digit of a value below sixteen.
pub open spec fn hex_digit(n: int) -> char {
    seq!['0', '1', '2', '3', '4', '5', '6', '7', '8', '9', 'a', 'b', 'c', 'd', 'e', 'f'][n]
}

/// Lower-case hexadecimal text of a byte string, two digits per byte, high
/// digit first, without a prefix.
pub open spec fn hex_of(bytes: Seq<u8>) -> Seq<char> {
    Seq::new(
        2 * bytes.len(),
        |i: int|
            if i % 2 == 0 {
                hex_digit(bytes[i / 2] as int / 16)
            } else {
                hex_digit(bytes[i / 2] as int % 16)
            },
    )
}

/// The value of a hexadecimal digit of either case, if the character is one.
pub open spec fn hex_value(c: char) -> Option<int> {
    if '0' <= c <= '9' {
        Some(c as int - '0' as int)
    } else if 'a' <= c <= 'f' {
        Some(c as int - 'a' as int + 10)
    } else if 'A' <= c <= 'F' {
        Some(c as int - 'A' as int + 10)
    } else {
        None
    }
}

/// The text without a leading `0x` or `0X`.
pub open spec fn strip_hex_prefix(s: Seq<char>) -> Seq<char> {
    if s.len() >= 2 && s[0] == '0' && (s[1] == 'x' || s[1] == 'X') {
        s.skip(2)
    } else {
        s
    }
}

/// Whether the text, after an optional prefix, is exactly forty hexadecimal
/// digits.
pub open spec fn is_address_text(s: Seq<char>) -> bool {
    let d = strip_hex_prefix(s);
    d.len() == 40 && forall|i: int| 0 <= i < 40 ==> (#[trigger] hex_value(d[i])) is Some
}

/// The bytes that forty hexadecimal digits denote.
pub open spec fn address_bytes_of(s: Seq<char>) -> Seq<u8> {
    let d = strip_hex_prefix(s);
    Seq::new(20, |i: int| (16 * hex_value(d[2 * i]).unwrap() + hex_value(d[2 * i + 1]).unwrap()) as u8)
}

/// The identifier with the given twenty bytes.
pub open spec fn address_of_bytes(bytes: Seq<u8>) -> Address {
    choose|a: Address| a@ == bytes
}

/// The identifier that address text denotes.
pub open spec fn address_of(s: Seq<char>) -> Address {
    address_of_bytes(address_bytes_of(s))
}

/// Two identifiers with the same bytes are the same identifier.
pub proof fn lemma_address_by_bytes(a: Address)
    ensures
        address_of_bytes(a@) == a,
{
    broadcast use vstd::array::group_array_axioms;

    let b = address_of_bytes(a@);
    assert(b@ == a@);
    assert(b.bytes =~= a.bytes);
}

fn hex_digit_str(n: u8) -> (s: &'static str)
    requires
        n < 16,
    ensures
        s@ == seq![hex_digit(n as int)],
{
    proof {
        reveal_strlit("0");
        reveal_strlit("1");
        reveal_strlit("2");
        reveal_strlit("3");
        reveal_strlit("4");
        reveal_strlit("5");
        reveal_strlit("6");
        reveal_strlit("7");
        reveal_strlit("8");
        reveal_strlit("9");
        reveal_strlit("a");
        reveal_strlit("b");
        reveal_strlit("c");
        reveal_strlit("d");
        reveal_strlit("e");
        reveal_strlit("f");
    }
    let s = match n {
        0 => "0",
        1 => "1",
        2 => "2",
        3 => "3",
        4 => "4",
        5 => "5",
        6 => "6",
        7 => "7",
        8 => "8",
        9 => "9",
        10 => "a",
        11 => "b",
        12 => "c",
        13 => "d",
        14 => "e",
        _ => "f",
    };
    assert(s@ =~= seq![hex_digit(n as int)]);
    s
}

fn hex_digit_value(c: char) -> (r: Option<u8>)
    ensures
        r is Some <==> hex_value(c) is Some,
        r is Some ==> r.unwrap() as int == hex_value(c).unwrap() && r.unwrap() < 16,
{
    let v: u32 = c as u32;
    if 48 <= v && v <= 57 {
        Some((v - 48) as u8)
    } else if 97 <= v && v <= 102 {
        Some((v - 97 + 10) as u8)
    } else if 65 <= v && v <= 70 {
        Some((v - 65 + 10) as u8)
    } else {
        None
    }
}

impl Address {
    /// The identifier with the given bytes.
    pub fn new(bytes: [u8; 20]) -> (a: Address)
        ensures
            a.bytes == bytes,
    {
        Address { bytes }
    }

    /// The identifier whose bytes are all zero.
    pub fn zero() -> (a: Address)
        ensures
            a@ == Seq::new(20, |i: int| 0u8),
    {
        broadcast use vstd::array::group_array_axioms;

        let a = Address { bytes: [0u8; 20] };
        assert(a@ =~= Seq::new(20, |i: int| 0u8));
        a
    }

    /// Lower-case hexadecimal text without a prefix, the form in which the
    /// identifier is stored.
    pub fn encode_hex(&self) -> (s: String)
        ensures
            s@ == hex_of(self@),
    {
        broadcast use vstd::array::group_array_axioms;

        let mut s = String::new();
        let mut i: usize = 0;
        while i < 20
            invariant
                i <= 20,
                s@ == hex_of(self@.take(i as int)),
            decreases 20 - i,
        {
            let b: u8 = self.bytes[i];
            let ghost before = s@;
            s.append(hex_digit_str(b / 16));
            s.append(hex_digit_str(b % 16));
            assert(s@ =~= hex_of(self@.take(i as int + 1))) by {
                let t = self@.take(i as int + 1);
                let u = self@.take(i as int);
                assert(before == hex_of(u));
                assert forall|k: int| 0 <= k < 2 * (i + 1) implies s@[k] == hex_of(t)[k] by {
                    if k < 2 * i {
                        assert(s@[k] == before[k]);
                        assert(u[k / 2] == t[k / 2]);
                    } else {
                        assert(t[k / 2] == b);
                    }
                }
            }
            i += 1;
        }
        assert(self@.take(20) =~= self@);
        s
    }

    /// Hexadecimal text with the `0x` prefix, the form used in transport.
    pub fn to_prefixed_hex(&self) -> (s: String)
        ensures
            s@ == seq!['0', 'x'] + hex_of(self@),
    {
        proof {
            reveal_strlit("0x");
        }
        let s = String::from_str("0x");
        let h = self.encode_hex();
        let r = s.concat(h.as_str());
        assert(r@ =~= seq!['0', 'x'] + hex_of(self@));
        r
    }

    /// Reads an identifier from forty hexadecimal digits of either case, with
    /// or without a leading `0x`. Any other text is refused.
    pub fn from_str(s: &str) -> (r: Option<Address>)
        ensures
            r is Some <==> is_address_text(s@),
            r is Some ==> r.unwrap()@ == address_bytes_of(s@),
            r is Some ==> r.unwrap() == address_of(s@),
    {
        broadcast use vstd::array::group_array_axioms;

        let n: usize = s.unicode_len();
        if n != 40 && n != 42 {
            return None;
        }
        let start: usize = if n == 42 {
            let c0 = s.get_char(0);
            let c1 = s.get_char(1);
            if c0 == '0' && (c1 == 'x' || c1 == 'X') {
                2
            } else {
                return None;
            }
        } else {
            let c0 = s.get_char(0);
            let c1 = s.get_char(1);
            if c0 == '0' && (c1 == 'x' || c1 == 'X') {
                return None;
            }
            0
        };
        let ghost d = strip_hex_prefix(s@);
        assert(d.len() == 40);
        assert(forall|k: int| 0 <= k < 40 ==> d[k] == s@[k + start]);
        let mut bytes: [u8; 20] = [0u8; 20];
        let mut i: usize = 0;
        while i < 20
            invariant
                i <= 20,
                start == 0 || start == 2,
                s@.len() == 40 + start,
                d == strip_hex_prefix(s@),
                d.len() == 40,
                forall|k: int| 0 <= k < 40 ==> d[k] == s@[k + start],
                forall|k: int| 0 <= k < 2 * i ==> (#[trigger] hex_value(d[k])) is Some,
                forall|k: int|
                    0 <= k < i ==> bytes[k] as int == 16 * hex_value(d[2 * k]).unwrap() + hex_value(
                        d[2 * k + 1],
                    ).unwrap(),
            decreases 20 - i,
        {
            let hi = hex_digit_value(s.get_char(start + 2 * i));
            let lo = hex_digit_value(s.get_char(start + 2 * i + 1));
            match (hi, lo) {
                (Some(h), Some(l)) => {
                    bytes[i] = h * 16 + l;
                },
                _ => {
                    proof {
                        let k0 = 2 * i as int;
                        assert(d[k0] == s@[k0 + start]);
                        assert(d[k0 + 1] == s@[k0 + 1 + start]);
                        if hi is None {
                            assert(hex_value(d[k0]) is None);
                        } else {
                            assert(hex_value(d[k0 + 1]) is None);
                        }
                    }
                    return None;
                },
            }
            i += 1;
        }
        let a = Address { bytes };
        assert(a@ =~= address_bytes_of(s@));
        proof {
            lemma_address_by_bytes(a);
        }
        Some(a)
    }
}

} // verus!
