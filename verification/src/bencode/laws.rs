//! What holds of the codec as a whole: decoding yields well-formed values,
//! and decoding undoes encoding.

use crate::bencode::model::{
    concat_all, decode_spec, encode_bytes, encode_spec, encoded_pairs, entry_chunks, first_index,
    int_digits, item_chunks, parse_entries, parse_int, parse_integer, parse_items, parse_string,
    parse_value, BencodeError, Value, COLON, DICT_START, END, INT_START, LIST_START, MINUS,
};
use crate::digits::{is_digit, lemma_nat_digits, nat_digits};
use crate::keys::{
    lemma_rank_from, lemma_sorted_entries_fixed, lemma_sorted_entries_sorted, rank_from,
    sorted_entries,
};
use vstd::prelude::*;

verus! {

/// A byte string is canonical if a well-formed value encodes to it.
pub open spec fn is_canonical(x: Seq<u8>) -> bool {
    exists|v: Value| v.wf() && encode_spec(v) == x
}

/// Every entry of a bound list is one of the pairs it was made from.
pub proof fn lemma_sorted_entries_members<T>(pairs: Seq<(Seq<u8>, T)>)
    ensures
        forall|i: int|
            0 <= i < sorted_entries(pairs).len() ==> pairs.contains(
                #[trigger] sorted_entries(pairs)[i],
            ),
    decreases pairs.len(),
{
    if pairs.len() > 0 {
        let head = pairs.drop_last();
        lemma_sorted_entries_members(head);
        let e = sorted_entries(head);
        let r = sorted_entries(pairs);
        let p = rank_from(e, pairs.last().0, 0);
        lemma_rank_from(e, pairs.last().0, 0);
        assert forall|i: int| 0 <= i < r.len() implies pairs.contains(#[trigger] r[i]) by {
            if i == p {
                assert(r[i] == pairs[pairs.len() - 1]);
            } else {
                let k = if p < e.len() && e[p].0 == pairs.last().0 {
                    i
                } else if i < p {
                    i
                } else {
                    i - 1
                };
                assert(r[i] == e[k]);
                assert(head.contains(e[k]));
                let j = choose|j: int| 0 <= j < head.len() && head[j] == e[k];
                assert(pairs[j] == e[k]);
            }
        }
    }
}

/// The first position that holds a byte lies at or behind where the
/// search begins, and no further than the end.
pub proof fn lemma_first_index_bounds(s: Seq<u8>, b: u8, i: int)
    requires
        0 <= i <= s.len(),
    ensures
        i <= first_index(s, b, i) <= s.len(),
    decreases s.len() - i,
{
    if i < s.len() && s[i] != b {
        lemma_first_index_bounds(s, b, i + 1);
    }
}

/// What decodes is well-formed, and decoding consumes at least one byte.
pub proof fn lemma_parse_value_wf(s: Seq<u8>)
    ensures
        parse_value(s) matches Ok((v, rest)) ==> v.wf() && rest.len() < s.len(),
    decreases s.len(), 0nat,
{
    if s.len() == 0 {
    } else if s[0] == INT_START {
        lemma_first_index_bounds(s, END, 0);
    } else if s[0] == LIST_START {
        lemma_parse_items_wf(s.skip(1));
    } else if s[0] == DICT_START {
        lemma_parse_entries_wf(s.skip(1));
        if let Ok((pairs, rest)) = parse_entries(s.skip(1)) {
            lemma_sorted_entries_sorted(pairs);
            lemma_sorted_entries_members(pairs);
            let d = sorted_entries(pairs);
            assert forall|i: int| 0 <= i < d.len() implies (#[trigger] d[i]).0.len() <= usize::MAX
                && d[i].1.wf() by {
                assert(pairs.contains(d[i]));
            }
        }
    } else if is_digit(s[0]) {
        lemma_first_index_bounds(s, COLON, 0);
    } else {
    }
}

/// The items of a list that decodes are well-formed, and decoding the
/// list consumes at least one byte.
pub proof fn lemma_parse_items_wf(s: Seq<u8>)
    ensures
        parse_items(s) matches Ok((items, rest)) ==> rest.len() < s.len() && forall|i: int|
            0 <= i < items.len() ==> (#[trigger] items[i]).wf(),
    decreases s.len(), 1nat,
{
    if s.len() == 0 || s[0] == END {
    } else {
        lemma_parse_value_wf(s);
        if let Ok((v, rest)) = parse_value(s) {
            lemma_parse_items_wf(rest);
        }
    }
}

/// The entries of a dictionary that decodes have keys of a length that
/// a machine word holds and values that are well-formed.
pub proof fn lemma_parse_entries_wf(s: Seq<u8>)
    ensures
        parse_entries(s) matches Ok((pairs, rest)) ==> rest.len() < s.len() && forall|i: int|
            0 <= i < pairs.len() ==> (#[trigger] pairs[i]).0.len() <= usize::MAX && pairs[i].1.wf(),
    decreases s.len(), 1nat,
{
    if s.len() == 0 || s[0] == END {
    } else {
        lemma_parse_value_wf(s);
        if let Ok((Value::String(key), after_key)) = parse_value(s) {
            lemma_parse_value_wf(after_key);
            if let Ok((v, rest)) = parse_value(after_key) {
                lemma_parse_entries_wf(rest);
            }
        }
    }
}

/// Where a byte stands at `k` and nowhere from `i` up to `k`, the first
/// position from `i` on that holds it is `k`.
pub proof fn lemma_first_index_at(s: Seq<u8>, b: u8, i: int, k: int)
    requires
        0 <= i <= k < s.len(),
        s[k] == b,
        forall|j: int| i <= j < k ==> s[j] != b,
    ensures
        first_index(s, b, i) == k,
    decreases k - i,
{
    if i < k {
        lemma_first_index_at(s, b, i + 1, k);
    }
}

/// The shortest notation of a number reads back as the number.
pub proof fn lemma_parse_int_digits(i: i64)
    ensures
        parse_int(int_digits(i)) == Some(i),
        int_digits(i).len() > 0,
        forall|j: int|
            0 <= j < int_digits(i).len() ==> #[trigger] int_digits(i)[j] == MINUS || is_digit(
                int_digits(i)[j],
            ),
{
    let s = int_digits(i);
    if i < 0 {
        let m = (-(i as int)) as nat;
        lemma_nat_digits(m);
        assert(s.skip(1) =~= nat_digits(m));
        assert(s[0] == MINUS);
        assert forall|j: int| 0 <= j < s.len() implies #[trigger] s[j] == MINUS || is_digit(
            s[j],
        ) by {
            if j > 0 {
                assert(s[j] == nat_digits(m)[j - 1]);
            }
        }
    } else {
        lemma_nat_digits(i as nat);
        assert(is_digit(s[0]));
    }
}

/// An encoding is never empty, and begins no differently than a value
/// does: not with the byte that closes a list.
pub proof fn lemma_encode_first(v: Value)
    ensures
        encode_spec(v).len() > 0,
        encode_spec(v)[0] != END,
{
    match v {
        Value::String(s) => {
            lemma_nat_digits(s.len());
            assert(encode_spec(v)[0] == nat_digits(s.len())[0]);
        },
        _ => {},
    }
}

/// A byte string in bencode reads back as the byte string.
pub proof fn lemma_string_roundtrip(b: Seq<u8>, tail: Seq<u8>)
    requires
        b.len() <= usize::MAX,
    ensures
        parse_value(encode_bytes(b) + tail) == Ok::<(Value, Seq<u8>), BencodeError>(
            (Value::String(b), tail),
        ),
{
    let n = b.len();
    let dg = nat_digits(n);
    let s = encode_bytes(b) + tail;
    lemma_nat_digits(n);
    let c = dg.len() as int;
    assert(s[0] == dg[0]);
    assert(s[c] == COLON);
    assert forall|j: int| 0 <= j < c implies s[j] != COLON by {
        assert(s[j] == dg[j]);
        assert(is_digit(dg[j]));
    }
    lemma_first_index_at(s, COLON, 0, c);
    assert(s.take(c) =~= dg);
    assert(s.subrange(c + 1, c + 1 + n) =~= b);
    assert(s.skip(c + 1 + n) =~= tail);
    assert(parse_value(s) == parse_string(s));
}

/// Byte strings one after another are the first of them followed by the
/// others one after another.
pub proof fn lemma_concat_front(parts: Seq<Seq<u8>>)
    requires
        parts.len() > 0,
    ensures
        concat_all(parts) == parts[0] + concat_all(parts.skip(1)),
    decreases parts.len(),
{
    if parts.len() == 1 {
        assert(parts.drop_last() =~= Seq::<Seq<u8>>::empty());
        assert(parts.skip(1) =~= Seq::<Seq<u8>>::empty());
        assert(concat_all(parts) =~= parts[0] + concat_all(parts.skip(1)));
    } else {
        let head = parts.drop_last();
        lemma_concat_front(head);
        assert(parts.skip(1).drop_last() =~= head.skip(1));
        assert(concat_all(parts) =~= parts[0] + concat_all(parts.skip(1)));
    }
}

/// Decoding undoes encoding: what a well-formed value encodes to, with
/// anything behind it, decodes to the value and leaves what was behind.
pub proof fn lemma_encode_decode(v: Value, tail: Seq<u8>)
    requires
        v.wf(),
    ensures
        parse_value(encode_spec(v) + tail) == Ok::<(Value, Seq<u8>), BencodeError>((v, tail)),
    decreases v, 0nat,
{
    let s = encode_spec(v) + tail;
    match v {
        Value::Integer(i) => {
            let dg = int_digits(i);
            lemma_parse_int_digits(i);
            let k = dg.len() as int + 1;
            assert(s[0] == INT_START);
            assert(s[k] == END);
            assert forall|j: int| 0 <= j < k implies s[j] != END by {
                if j > 0 {
                    assert(s[j] == dg[j - 1]);
                }
            }
            lemma_first_index_at(s, END, 0, k);
            assert(s.subrange(1, k) =~= dg);
            assert(s.skip(k + 1) =~= tail);
            assert(parse_value(s) == parse_integer(s));
        },
        Value::String(b) => {
            lemma_string_roundtrip(b, tail);
        },
        Value::List(l) => {
            let chunks = item_chunks(l);
            lemma_items_roundtrip(l, 0, tail);
            assert(chunks.skip(0) =~= chunks);
            assert(l.skip(0) =~= l);
            assert(s[0] == LIST_START);
            assert(s.skip(1) =~= concat_all(chunks) + seq![END] + tail);
        },
        Value::Dict(d) => {
            let pairs = encoded_pairs(d);
            assert forall|i: int, j: int| 0 <= i < j < pairs.len() implies crate::keys::lex_lt(
                #[trigger] pairs[i].0,
                #[trigger] pairs[j].0,
            ) by {
                assert(pairs[i].0 == d[i].0 && pairs[j].0 == d[j].0);
            }
            lemma_sorted_entries_fixed(pairs);
            lemma_sorted_entries_fixed(d);
            let chunks = entry_chunks(pairs);
            lemma_entries_roundtrip(d, 0, tail);
            assert(chunks.skip(0) =~= chunks);
            assert(d.skip(0) =~= d);
            assert(s[0] == DICT_START);
            assert(s.skip(1) =~= concat_all(chunks) + seq![END] + tail);
        },
    }
}

/// The encodings of the items of a list from the `i`-th on, closed by `e`,
/// decode to these items.
pub proof fn lemma_items_roundtrip(l: Seq<Value>, i: int, tail: Seq<u8>)
    requires
        0 <= i <= l.len(),
        forall|k: int| 0 <= k < l.len() ==> (#[trigger] l[k]).wf(),
    ensures
        parse_items(concat_all(item_chunks(l).skip(i)) + seq![END] + tail) == Ok::<
            (Seq<Value>, Seq<u8>),
            BencodeError,
        >((l.skip(i), tail)),
    decreases l, l.len() - i,
{
    let chunks = item_chunks(l);
    let s = concat_all(chunks.skip(i)) + seq![END] + tail;
    if i == l.len() {
        assert(chunks.skip(i) =~= Seq::<Seq<u8>>::empty());
        assert(s[0] == END);
        assert(s.skip(1) =~= tail);
        assert(l.skip(i) =~= Seq::<Value>::empty());
    } else {
        let here = chunks.skip(i);
        lemma_concat_front(here);
        assert(here.skip(1) =~= chunks.skip(i + 1));
        assert(here[0] == encode_spec(l[i]));
        let rest = concat_all(chunks.skip(i + 1)) + seq![END] + tail;
        assert(s =~= encode_spec(l[i]) + rest);
        lemma_encode_first(l[i]);
        assert(s[0] == encode_spec(l[i])[0]);
        lemma_encode_decode(l[i], rest);
        lemma_items_roundtrip(l, i + 1, tail);
        assert(seq![l[i]] + l.skip(i + 1) =~= l.skip(i));
    }
}

/// The encodings of the entries of a dictionary from the `i`-th on,
/// closed by `e`, decode to these entries.
pub proof fn lemma_entries_roundtrip(d: Seq<(Seq<u8>, Value)>, i: int, tail: Seq<u8>)
    requires
        0 <= i <= d.len(),
        forall|k: int| 0 <= k < d.len() ==> (#[trigger] d[k]).0.len() <= usize::MAX && d[k].1.wf(),
    ensures
        parse_entries(concat_all(entry_chunks(encoded_pairs(d)).skip(i)) + seq![END] + tail)
            == Ok::<(Seq<(Seq<u8>, Value)>, Seq<u8>), BencodeError>((d.skip(i), tail)),
    decreases d, d.len() - i,
{
    let chunks = entry_chunks(encoded_pairs(d));
    let s = concat_all(chunks.skip(i)) + seq![END] + tail;
    if i == d.len() {
        assert(chunks.skip(i) =~= Seq::<Seq<u8>>::empty());
        assert(s[0] == END);
        assert(s.skip(1) =~= tail);
        assert(d.skip(i) =~= Seq::<(Seq<u8>, Value)>::empty());
    } else {
        let here = chunks.skip(i);
        lemma_concat_front(here);
        assert(here.skip(1) =~= chunks.skip(i + 1));
        let key = d[i].0;
        let val = d[i].1;
        assert(here[0] == encode_bytes(key) + encode_spec(val));
        let rest = concat_all(chunks.skip(i + 1)) + seq![END] + tail;
        let after_key = encode_spec(val) + rest;
        assert(s =~= encode_bytes(key) + after_key);
        lemma_encode_first(Value::String(key));
        assert(s[0] == encode_bytes(key)[0]);
        lemma_string_roundtrip(key, after_key);
        lemma_encode_first(val);
        lemma_encode_decode(val, rest);
        lemma_entries_roundtrip(d, i + 1, tail);
        assert(seq![(key, val)] + d.skip(i + 1) =~= d.skip(i));
    }
}

/// For every input that decodes, encoding the value and decoding again
/// gives the same value.
pub proof fn law_decode_encode_decode(x: Seq<u8>)
    requires
        decode_spec(x) is Ok,
    ensures
        decode_spec(encode_spec(decode_spec(x)->Ok_0)) == decode_spec(x),
{
    let v = decode_spec(x)->Ok_0;
    lemma_parse_value_wf(x);
    lemma_encode_decode(v, Seq::empty());
    assert(encode_spec(v) + Seq::<u8>::empty() =~= encode_spec(v));
}

/// For every canonical input, decoding it and encoding the value gives the
/// input back, byte for byte.
pub proof fn law_canonical_roundtrip(x: Seq<u8>)
    requires
        is_canonical(x),
    ensures
        decode_spec(x) is Ok,
        encode_spec(decode_spec(x)->Ok_0) == x,
{
    let v = choose|v: Value| v.wf() && encode_spec(v) == x;
    lemma_encode_decode(v, Seq::empty());
    assert(encode_spec(v) + Seq::<u8>::empty() =~= encode_spec(v));
}

/// Whatever value is encoded, the result is canonical: it is the encoding
/// of a well-formed value, namely of the one it decodes to.
pub proof fn law_decoded_is_wf(x: Seq<u8>)
    requires
        decode_spec(x) is Ok,
    ensures
        decode_spec(x)->Ok_0.wf(),
        is_canonical(encode_spec(decode_spec(x)->Ok_0)),
{
    lemma_parse_value_wf(x);
}

} // verus!
