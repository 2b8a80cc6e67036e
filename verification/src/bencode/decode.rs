//! The decoder: one pass over the bytes, descending into lists and
//! dictionaries.

use crate::bencode::model::{
    decode_spec, first_index, parse_entries, parse_int, parse_items, parse_value, BencodeError,
    Value, COLON, DICT_START, END, I64_MIN_MAGNITUDE, INT_START, LIST_START, MINUS, PLUS,
};
use crate::bencode::value::{
    entries_view, items_view, lemma_dict_view, lemma_list_view, BencodeValue, DictEntry,
};
use crate::digits::{is_digit, parse_decimal, NINE, ZERO};
use crate::keys::{insert_entry, key_order, rank_from, sorted_entries, KeyOrder};
use vstd::prelude::*;
use vstd::slice::{slice_subrange, slice_to_vec};

verus! {

/// A decoder's result as the model sees it.
pub open spec fn decoded_view(r: Result<BencodeValue, BencodeError>) -> Result<
    Value,
    BencodeError,
> {
    match r {
        Ok(v) => Ok(v@),
        Err(e) => Err(e),
    }
}

/// `r` is what decoding the bytes of `data` from `pos` on gives: the value
/// and the position behind it, or the error.
pub open spec fn decodes_at(
    data: Seq<u8>,
    pos: int,
    r: Result<(BencodeValue, usize), BencodeError>,
) -> bool {
    match r {
        Ok((v, next)) => {
            &&& pos < next <= data.len()
            &&& parse_value(data.skip(pos)) == Ok::<(Value, Seq<u8>), BencodeError>(
                (v@, data.skip(next as int)),
            )
        },
        Err(e) => parse_value(data.skip(pos)) == Err::<(Value, Seq<u8>), BencodeError>(e),
    }
}

/// The items found so far in front of what the rest of a list decodes to.
pub open spec fn with_items(
    found: Seq<Value>,
    r: Result<(Seq<Value>, Seq<u8>), BencodeError>,
) -> Result<(Seq<Value>, Seq<u8>), BencodeError> {
    match r {
        Ok((items, left)) => Ok((found + items, left)),
        Err(e) => Err(e),
    }
}

/// The entries found so far in front of what the rest of a dictionary
/// decodes to.
pub open spec fn with_pairs(
    found: Seq<(Seq<u8>, Value)>,
    r: Result<(Seq<(Seq<u8>, Value)>, Seq<u8>), BencodeError>,
) -> Result<(Seq<(Seq<u8>, Value)>, Seq<u8>), BencodeError> {
    match r {
        Ok((pairs, left)) => Ok((found + pairs, left)),
        Err(e) => Err(e),
    }
}

/// Decodes the first value of `data`; what follows the value is ignored.
/// In what is decoded every dictionary has its keys in ascending order,
/// each key once: of a key that the input binds twice the last binding
/// stays.
pub fn decode(data: &[u8]) -> (r: Result<BencodeValue, BencodeError>)
    ensures
        decoded_view(r) == decode_spec(data@),
        r is Ok ==> r->Ok_0@.wf(),
{
    proof {
        assert(data@.skip(0) =~= data@);
        crate::bencode::laws::lemma_parse_value_wf(data@);
    }
    match decode_value(data, 0) {
        Ok((value, _)) => Ok(value),
        Err(e) => Err(e),
    }
}

/// The first position from `pos` on that holds `b`, or the length of
/// `data`.
fn find_byte(data: &[u8], pos: usize, b: u8) -> (r: usize)
    requires
        pos <= data.len(),
    ensures
        pos <= r <= data.len(),
        r - pos == first_index(data@.skip(pos as int), b, 0),
        r < data.len() ==> data[r as int] == b,
        forall|j: int| pos <= j < r ==> data[j] != b,
{
    let ghost s = data@.skip(pos as int);
    let mut i: usize = pos;
    while i < data.len() && data[i] != b
        invariant
            pos <= i <= data.len(),
            s == data@.skip(pos as int),
            first_index(s, b, 0) == first_index(s, b, i - pos),
            forall|j: int| pos <= j < i ==> data[j] != b,
        decreases data.len() - i,
    {
        proof {
            assert(s[i - pos] == data[i as int]);
        }
        i = i + 1;
    }
    proof {
        if i < data.len() {
            assert(s[i - pos] == data[i as int]);
        }
    }
    i
}

/// Reads the signed decimal `data[start..end]`.
fn decode_int(data: &[u8], start: usize, end: usize) -> (r: Option<i64>)
    requires
        start <= end <= data.len(),
    ensures
        r == parse_int(data@.subrange(start as int, end as int)),
{
    let ghost s = data@.subrange(start as int, end as int);
    if start == end {
        return None;
    }
    let first = data[start];
    proof {
        assert(s[0] == first);
        assert(s.skip(1) =~= data@.subrange(start + 1, end as int));
    }
    if first == MINUS {
        match parse_decimal(data, start + 1, end, I64_MIN_MAGNITUDE) {
            Some(m) => {
                if m == I64_MIN_MAGNITUDE {
                    Some(i64::MIN)
                } else {
                    Some(-(m as i64))
                }
            },
            None => None,
        }
    } else if first == PLUS {
        match parse_decimal(data, start + 1, end, i64::MAX as u64) {
            Some(m) => Some(m as i64),
            None => None,
        }
    } else {
        proof {
            assert(s =~= data@.subrange(start as int, end as int));
        }
        match parse_decimal(data, start, end, i64::MAX as u64) {
            Some(m) => Some(m as i64),
            None => None,
        }
    }
}

/// Decodes the integer that begins at `pos`.
fn decode_integer(data: &[u8], pos: usize) -> (r: Result<(BencodeValue, usize), BencodeError>)
    requires
        pos < data.len(),
        data[pos as int] == INT_START,
    ensures
        decodes_at(data@, pos as int, r),
{
    let ghost s = data@.skip(pos as int);
    proof {
        assert(s[0] == data[pos as int]);
    }
    let end = find_byte(data, pos, END);
    if end >= data.len() {
        return Err(BencodeError::UnterminatedInteger);
    }
    proof {
        assert(s.subrange(1, end - pos) =~= data@.subrange(pos + 1, end as int));
        assert(s.skip(end - pos + 1) =~= data@.skip(end + 1));
    }
    match decode_int(data, pos + 1, end) {
        Some(i) => Ok((BencodeValue::Integer(i), end + 1)),
        None => Err(BencodeError::InvalidInteger),
    }
}

/// Decodes the byte string that begins at `pos`.
fn decode_string(data: &[u8], pos: usize) -> (r: Result<(BencodeValue, usize), BencodeError>)
    requires
        pos < data.len(),
        is_digit(data[pos as int]),
    ensures
        decodes_at(data@, pos as int, r),
{
    let ghost s = data@.skip(pos as int);
    proof {
        assert(s[0] == data[pos as int]);
    }
    let colon = find_byte(data, pos, COLON);
    if colon >= data.len() {
        return Err(BencodeError::MissingColon);
    }
    proof {
        assert(s.take(colon - pos) =~= data@.subrange(pos as int, colon as int));
    }
    match parse_decimal(data, pos, colon, usize::MAX as u64) {
        None => Err(BencodeError::InvalidLength),
        Some(n) => {
            let start = colon + 1;
            if n > (data.len() - start) as u64 {
                return Err(BencodeError::LengthExceedsData);
            }
            let end = start + n as usize;
            let bytes = slice_to_vec(slice_subrange(data, start, end));
            proof {
                assert(s.subrange(colon - pos + 1, colon - pos + 1 + n) =~= data@.subrange(
                    start as int,
                    end as int,
                ));
                assert(s.skip(colon - pos + 1 + n) =~= data@.skip(end as int));
            }
            Ok((BencodeValue::String(bytes), end))
        },
    }
}

/// Decodes the value that begins at `pos`.
fn decode_value(data: &[u8], pos: usize) -> (r: Result<(BencodeValue, usize), BencodeError>)
    requires
        pos <= data.len(),
    ensures
        decodes_at(data@, pos as int, r),
    decreases data.len() - pos, 1nat,
{
    if pos >= data.len() {
        return Err(BencodeError::UnexpectedEnd);
    }
    let first = data[pos];
    proof {
        assert(data@.skip(pos as int)[0] == first);
    }
    if first == INT_START {
        decode_integer(data, pos)
    } else if first == LIST_START {
        decode_list(data, pos)
    } else if first == DICT_START {
        decode_dict(data, pos)
    } else if ZERO <= first && first <= NINE {
        decode_string(data, pos)
    } else {
        Err(BencodeError::InvalidPrefix)
    }
}

/// Decodes the list that begins at `pos`.
fn decode_list(data: &[u8], pos: usize) -> (r: Result<(BencodeValue, usize), BencodeError>)
    requires
        pos < data.len(),
        data[pos as int] == LIST_START,
    ensures
        decodes_at(data@, pos as int, r),
    decreases data.len() - pos, 0nat,
{
    let ghost s = data@.skip(pos as int);
    let ghost body = data@.skip(pos + 1);
    proof {
        assert(s[0] == data[pos as int]);
        assert(s.skip(1) =~= body);
    }
    let mut items: Vec<BencodeValue> = Vec::new();
    let mut p: usize = pos + 1;
    proof {
        match parse_items(data@.skip(p as int)) {
            Ok((l, left)) => {
                assert(items_view(items@) + l =~= l);
            },
            Err(_) => {},
        }
    }
    while p < data.len() && data[p] != END
        invariant
            pos < p <= data.len(),
            body == data@.skip(pos + 1),
            parse_value(data@.skip(pos as int)) == (match parse_items(body) {
                Ok((l, left)) => Ok::<(Value, Seq<u8>), BencodeError>((Value::List(l), left)),
                Err(e) => Err(e),
            }),
            parse_items(body) == with_items(items_view(items@), parse_items(data@.skip(p as int))),
        decreases data.len() - p,
    {
        let ghost cur = data@.skip(p as int);
        let ghost found = items_view(items@);
        proof {
            assert(cur[0] == data[p as int]);
        }
        match decode_value(data, p) {
            Err(e) => {
                return Err(e);
            },
            Ok((value, next)) => {
                proof {
                    let after = data@.skip(next as int);
                    assert(parse_value(cur) == Ok::<(Value, Seq<u8>), BencodeError>(
                        (value@, after),
                    ));
                    assert(after.len() < cur.len());
                    assert(items_view(items@.push(value)) =~= found.push(value@));
                    match parse_items(after) {
                        Ok((l, left)) => {
                            assert(found + (seq![value@] + l) =~= found.push(value@) + l);
                        },
                        Err(_) => {},
                    }
                }
                items.push(value);
                p = next;
            },
        }
    }
    if p >= data.len() {
        return Err(BencodeError::UnterminatedList);
    }
    proof {
        let cur = data@.skip(p as int);
        assert(cur[0] == data[p as int]);
        assert(cur.skip(1) =~= data@.skip(p + 1));
        assert(items_view(items@) + Seq::<Value>::empty() =~= items_view(items@));
        lemma_list_view(items);
    }
    Ok((BencodeValue::List(items), p + 1))
}

/// Binds `key` to `value` in a sorted entry list.
fn insert_sorted(entries: &mut Vec<DictEntry>, key: Vec<u8>, value: BencodeValue)
    ensures
        entries_view(final(entries)@) == insert_entry(
            entries_view(old(entries)@),
            key@,
            value@,
        ),
{
    let ghost e = entries_view(entries@);
    let mut p: usize = 0;
    let mut same = false;
    while p < entries.len()
        invariant_except_break
            !same,
            rank_from(e, key@, 0) == rank_from(e, key@, p as int),
        invariant
            p <= entries.len(),
            *entries == *old(entries),
            e == entries_view(entries@),
        ensures
            p <= entries.len(),
            *entries == *old(entries),
            rank_from(e, key@, 0) == p,
            same <==> (p < entries.len() && e[p as int].0 == key@),
        decreases entries.len() - p,
    {
        proof {
            crate::keys::lemma_lex_total(e[p as int].0, key@);
        }
        match key_order(entries[p].key.as_slice(), key.as_slice()) {
            KeyOrder::Before => {
                p = p + 1;
            },
            KeyOrder::Same => {
                same = true;
                break;
            },
            KeyOrder::After => {
                break;
            },
        }
    }
    if same {
        entries[p] = DictEntry { key, value };
        proof {
            assert(entries_view(entries@) =~= e.update(p as int, (key@, value@)));
        }
    } else {
        entries.insert(p, DictEntry { key, value });
        proof {
            assert(entries_view(entries@) =~= e.insert(p as int, (key@, value@)));
        }
    }
}

/// Decodes the dictionary that begins at `pos`.
fn decode_dict(data: &[u8], pos: usize) -> (r: Result<(BencodeValue, usize), BencodeError>)
    requires
        pos < data.len(),
        data[pos as int] == DICT_START,
    ensures
        decodes_at(data@, pos as int, r),
    decreases data.len() - pos, 0nat,
{
    let ghost s = data@.skip(pos as int);
    let ghost body = data@.skip(pos + 1);
    proof {
        assert(s[0] == data[pos as int]);
        assert(s.skip(1) =~= body);
    }
    let mut entries: Vec<DictEntry> = Vec::new();
    let ghost mut pairs: Seq<(Seq<u8>, Value)> = Seq::empty();
    let mut p: usize = pos + 1;
    proof {
        assert(entries_view(entries@) =~= sorted_entries(pairs));
        match parse_entries(data@.skip(p as int)) {
            Ok((l, left)) => {
                assert(pairs + l =~= l);
            },
            Err(_) => {},
        }
    }
    while p < data.len() && data[p] != END
        invariant
            pos < p <= data.len(),
            body == data@.skip(pos + 1),
            parse_value(data@.skip(pos as int)) == (match parse_entries(body) {
                Ok((l, left)) => Ok::<(Value, Seq<u8>), BencodeError>(
                    (Value::Dict(sorted_entries(l)), left),
                ),
                Err(e) => Err(e),
            }),
            entries_view(entries@) == sorted_entries(pairs),
            parse_entries(body) == with_pairs(pairs, parse_entries(data@.skip(p as int))),
        decreases data.len() - p,
    {
        let ghost cur = data@.skip(p as int);
        proof {
            assert(cur[0] == data[p as int]);
        }
        let (key_value, after_key) = match decode_value(data, p) {
            Err(e) => {
                return Err(e);
            },
            Ok(found) => found,
        };
        let key = match key_value {
            BencodeValue::String(bytes) => bytes,
            _ => {
                return Err(BencodeError::NonStringKey);
            },
        };
        let (value, next) = match decode_value(data, after_key) {
            Err(e) => {
                return Err(e);
            },
            Ok(found) => found,
        };
        proof {
            let mid = data@.skip(after_key as int);
            let after = data@.skip(next as int);
            assert(mid.len() < cur.len());
            assert(after.len() < mid.len());
            let grown = pairs.push((key@, value@));
            assert(grown.drop_last() =~= pairs);
            match parse_entries(after) {
                Ok((l, left)) => {
                    assert(pairs + (seq![(key@, value@)] + l) =~= grown + l);
                },
                Err(_) => {},
            }
            pairs = grown;
        }
        insert_sorted(&mut entries, key, value);
        p = next;
    }
    if p >= data.len() {
        return Err(BencodeError::UnterminatedDict);
    }
    proof {
        let cur = data@.skip(p as int);
        assert(cur[0] == data[p as int]);
        assert(cur.skip(1) =~= data@.skip(p + 1));
        assert(pairs + Seq::<(Seq<u8>, Value)>::empty() =~= pairs);
        lemma_dict_view(entries);
    }
    Ok((BencodeValue::Dict(entries), p + 1))
}

} // verus!
