//! The mathematical model of bencode: the value tree, what the grammar's
//! decoder yields on a byte string, and the canonical encoding of a value.

use crate::digits::{is_digit, nat_digits, parse_nat};
use crate::keys::{keys_sorted, sorted_entries};
use vstd::prelude::*;

verus! {

/// ASCII `i`, which opens an integer.
pub const INT_START: u8 = 105;

/// ASCII `l`, which opens a list.
pub const LIST_START: u8 = 108;

/// ASCII `d`, which opens a dictionary.
pub const DICT_START: u8 = 100;

/// ASCII `e`, which closes an integer, a list or a dictionary.
pub const END: u8 = 101;

/// ASCII `:`, which parts a string's length from its bytes.
pub const COLON: u8 = 58;

/// ASCII `-`.
pub const MINUS: u8 = 45;

/// ASCII `+`.
pub const PLUS: u8 = 43;

/// The magnitude of the least `i64`.
pub const I64_MIN_MAGNITUDE: u64 = 9223372036854775808;

/// A bencode value as mathematics sees it. The entries of a dictionary are
/// a sequence of key and value.
pub enum Value {
    String(Seq<u8>),
    Integer(i64),
    List(Seq<Value>),
    Dict(Seq<(Seq<u8>, Value)>),
}

/// Why a byte string is no bencode.
#[derive(Debug, Clone, Copy, PartialEq, Eq)]
pub enum BencodeError {
    /// The input ends where a value must begin.
    UnexpectedEnd,
    /// The byte at the start of a value begins none of the four forms.
    InvalidPrefix,
    /// An integer without its closing `e`.
    UnterminatedInteger,
    /// Between `i` and `e` stands no decimal number of 64 bits.
    InvalidInteger,
    /// A string's length without its closing `:`.
    MissingColon,
    /// A string's length is no decimal number, or overflows.
    InvalidLength,
    /// A string's length reaches beyond the input.
    LengthExceedsData,
    /// A list without its closing `e`.
    UnterminatedList,
    /// A dictionary without its closing `e`.
    UnterminatedDict,
    /// A dictionary key that is no byte string.
    NonStringKey,
}

impl Value {
    /// Every dictionary has its keys in ascending order, each once, and
    /// every byte string has a length that a machine word holds.
    pub open spec fn wf(self) -> bool
        decreases self,
    {
        match self {
            Value::String(s) => s.len() <= usize::MAX,
            Value::Integer(_) => true,
            Value::List(l) => forall|i: int| 0 <= i < l.len() ==> (#[trigger] l[i]).wf(),
            Value::Dict(d) => {
                &&& keys_sorted(d)
                &&& forall|i: int|
                    0 <= i < d.len() ==> (#[trigger] d[i]).0.len() <= usize::MAX && d[i].1.wf()
            },
        }
    }
}

/// The first position at or after `i` that holds `b`; the length of `s` if
/// there is none.
pub open spec fn first_index(s: Seq<u8>, b: u8, i: int) -> int
    decreases s.len() - i,
{
    if 0 <= i < s.len() && s[i] != b {
        first_index(s, b, i + 1)
    } else {
        i
    }
}

/// The number that a signed decimal denotes: an optional `+` or `-`, then
/// at least one digit, within the range of 64 bits.
pub open spec fn parse_int(s: Seq<u8>) -> Option<i64> {
    if s.len() == 0 {
        None
    } else if s[0] == MINUS {
        match parse_nat(s.skip(1), I64_MIN_MAGNITUDE as nat) {
            Some(m) => Some((-(m as int)) as i64),
            None => None,
        }
    } else if s[0] == PLUS {
        match parse_nat(s.skip(1), i64::MAX as nat) {
            Some(m) => Some(m as i64),
            None => None,
        }
    } else {
        match parse_nat(s, i64::MAX as nat) {
            Some(m) => Some(m as i64),
            None => None,
        }
    }
}

/// What an input that begins with `i` decodes to, and what is left of it.
pub open spec fn parse_integer(s: Seq<u8>) -> Result<(Value, Seq<u8>), BencodeError> {
    let end = first_index(s, END, 0);
    if end >= s.len() {
        Err(BencodeError::UnterminatedInteger)
    } else {
        match parse_int(s.subrange(1, end)) {
            Some(i) => Ok((Value::Integer(i), s.skip(end + 1))),
            None => Err(BencodeError::InvalidInteger),
        }
    }
}

/// What an input that begins with a digit decodes to, and what is left of
/// it.
pub open spec fn parse_string(s: Seq<u8>) -> Result<(Value, Seq<u8>), BencodeError> {
    let colon = first_index(s, COLON, 0);
    if colon >= s.len() {
        Err(BencodeError::MissingColon)
    } else {
        match parse_nat(s.take(colon), usize::MAX as nat) {
            None => Err(BencodeError::InvalidLength),
            Some(n) => {
                if colon + 1 + n > s.len() {
                    Err(BencodeError::LengthExceedsData)
                } else {
                    Ok((Value::String(s.subrange(colon + 1, colon + 1 + n)), s.skip(colon + 1 + n)))
                }
            },
        }
    }
}

/// What an input decodes to, and what is left of it behind the value.
pub open spec fn parse_value(s: Seq<u8>) -> Result<(Value, Seq<u8>), BencodeError>
    decreases s.len(), 0nat,
{
    if s.len() == 0 {
        Err(BencodeError::UnexpectedEnd)
    } else if s[0] == INT_START {
        parse_integer(s)
    } else if s[0] == LIST_START {
        match parse_items(s.skip(1)) {
            Ok((items, rest)) => Ok((Value::List(items), rest)),
            Err(e) => Err(e),
        }
    } else if s[0] == DICT_START {
        match parse_entries(s.skip(1)) {
            Ok((pairs, rest)) => Ok((Value::Dict(sorted_entries(pairs)), rest)),
            Err(e) => Err(e),
        }
    } else if is_digit(s[0]) {
        parse_string(s)
    } else {
        Err(BencodeError::InvalidPrefix)
    }
}

/// The values of a list up to its closing `e`, and what is left behind it.
pub open spec fn parse_items(s: Seq<u8>) -> Result<(Seq<Value>, Seq<u8>), BencodeError>
    decreases s.len(), 1nat,
{
    if s.len() == 0 {
        Err(BencodeError::UnterminatedList)
    } else if s[0] == END {
        Ok((Seq::empty(), s.skip(1)))
    } else {
        match parse_value(s) {
            Err(e) => Err(e),
            Ok((v, rest)) => {
                if rest.len() < s.len() {
                    match parse_items(rest) {
                        Ok((items, left)) => Ok((seq![v] + items, left)),
                        Err(e) => Err(e),
                    }
                } else {
                    Err(BencodeError::UnterminatedList)
                }
            },
        }
    }
}

/// The entries of a dictionary in the order of the input, up to its
/// closing `e`, and what is left behind it.
pub open spec fn parse_entries(s: Seq<u8>) -> Result<
    (Seq<(Seq<u8>, Value)>, Seq<u8>),
    BencodeError,
>
    decreases s.len(), 1nat,
{
    if s.len() == 0 {
        Err(BencodeError::UnterminatedDict)
    } else if s[0] == END {
        Ok((Seq::empty(), s.skip(1)))
    } else {
        match parse_value(s) {
            Err(e) => Err(e),
            Ok((Value::String(key), after_key)) => {
                if after_key.len() < s.len() {
                    match parse_value(after_key) {
                        Err(e) => Err(e),
                        Ok((v, rest)) => {
                            if rest.len() < after_key.len() {
                                match parse_entries(rest) {
                                    Ok((pairs, left)) => Ok((seq![(key, v)] + pairs, left)),
                                    Err(e) => Err(e),
                                }
                            } else {
                                Err(BencodeError::UnterminatedDict)
                            }
                        },
                    }
                } else {
                    Err(BencodeError::UnterminatedDict)
                }
            },
            Ok(_) => Err(BencodeError::NonStringKey),
        }
    }
}

/// What the decoder yields on `s`: the first value, whatever follows it.
pub open spec fn decode_spec(s: Seq<u8>) -> Result<Value, BencodeError> {
    match parse_value(s) {
        Ok((v, _)) => Ok(v),
        Err(e) => Err(e),
    }
}

/// The byte strings of `parts` one after another.
pub open spec fn concat_all(parts: Seq<Seq<u8>>) -> Seq<u8>
    decreases parts.len(),
{
    if parts.len() == 0 {
        Seq::empty()
    } else {
        concat_all(parts.drop_last()) + parts.last()
    }
}

/// A byte string in bencode: its length in decimal, `:`, the bytes.
pub open spec fn encode_bytes(s: Seq<u8>) -> Seq<u8> {
    nat_digits(s.len()) + seq![COLON] + s
}

/// The shortest decimal notation of a signed number.
pub open spec fn int_digits(i: i64) -> Seq<u8> {
    if i < 0 {
        seq![MINUS] + nat_digits((-(i as int)) as nat)
    } else {
        nat_digits(i as nat)
    }
}

/// Each entry as its key in bencode followed by its encoded value.
pub open spec fn entry_chunks(e: Seq<(Seq<u8>, Seq<u8>)>) -> Seq<Seq<u8>> {
    Seq::new(e.len(), |i: int| encode_bytes(e[i].0) + e[i].1)
}

/// The encodings of the values of a list, in order.
pub open spec fn item_chunks(l: Seq<Value>) -> Seq<Seq<u8>>
    decreases l,
{
    Seq::new(
        l.len(),
        |i: int|
            if 0 <= i < l.len() {
                encode_spec(l[i])
            } else {
                Seq::empty()
            },
    )
}

/// The entries of a dictionary with each value encoded, in the order given.
pub open spec fn encoded_pairs(d: Seq<(Seq<u8>, Value)>) -> Seq<(Seq<u8>, Seq<u8>)>
    decreases d,
{
    Seq::new(
        d.len(),
        |i: int|
            if 0 <= i < d.len() {
                (d[i].0, encode_spec(d[i].1))
            } else {
                (Seq::empty(), Seq::empty())
            },
    )
}

/// The canonical encoding: integers as shortest decimal, strings with
/// their length in front, the entries of a dictionary in ascending order of
/// their keys, a key that occurs twice with the value bound last.
pub open spec fn encode_spec(v: Value) -> Seq<u8>
    decreases v,
{
    match v {
        Value::Integer(i) => seq![INT_START] + int_digits(i) + seq![END],
        Value::String(s) => encode_bytes(s),
        Value::List(l) => seq![LIST_START] + concat_all(item_chunks(l)) + seq![END],
        Value::Dict(d) => seq![DICT_START] + concat_all(
            entry_chunks(sorted_entries(encoded_pairs(d))),
        ) + seq![END],
    }
}

} // verus!
