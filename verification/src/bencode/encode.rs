//! The encoder: integers as shortest decimal, byte strings with their
//! length in front, dictionaries in ascending order of their keys.

use crate::bencode::model::{
    concat_all, encode_bytes, encode_spec, encoded_pairs, entry_chunks, int_digits, item_chunks,
    COLON, DICT_START, END, I64_MIN_MAGNITUDE, INT_START, LIST_START, MINUS,
};
use crate::bencode::value::{
    entries_view, items_view, lemma_dict_view, lemma_list_view, BencodeValue, DictEntry,
};
use crate::digits::push_decimal;
use crate::keys::{
    key_order, lemma_lex_total, lemma_sorted_entries_map_bound, map_bound, rank_from,
    sorted_entries, KeyOrder,
};
use vstd::prelude::*;

verus! {

/// Each entry's key with the entry's position in the list.
pub open spec fn keyed_positions(d: Seq<DictEntry>) -> Seq<(Seq<u8>, int)> {
    Seq::new(d.len(), |i: int| (d[i].key@, i))
}

/// The positions in `order` with the keys that stand there.
pub open spec fn order_view(d: Seq<DictEntry>, order: Seq<usize>) -> Seq<(Seq<u8>, int)> {
    Seq::new(order.len(), |j: int| (d[order[j] as int].key@, order[j] as int))
}

/// Encodes a value in canonical form.
pub fn encode(value: &BencodeValue) -> (r: Vec<u8>)
    ensures
        r@ == encode_spec(value@),
{
    let mut result: Vec<u8> = Vec::new();
    encode_value(value, &mut result);
    proof {
        assert(result@ =~= encode_spec(value@));
    }
    result
}

/// Appends a byte string in bencode.
fn encode_byte_string(s: &Vec<u8>, output: &mut Vec<u8>)
    ensures
        final(output)@ == old(output)@ + encode_bytes(s@),
{
    push_decimal(output, s.len() as u64);
    output.push(COLON);
    let ghost before = output@;
    output.extend_from_slice(s.as_slice());
    proof {
        assert(output@ =~= before + s@);
        assert(output@ =~= old(output)@ + encode_bytes(s@));
    }
}

/// The positions of the entries of `d` in the order in which they are
/// written: by ascending key, and of entries with one key the last only.
fn write_order(d: &Vec<DictEntry>) -> (order: Vec<usize>)
    ensures
        order_view(d@, order@) == sorted_entries(keyed_positions(d@)),
        forall|j: int| 0 <= j < order.len() ==> (#[trigger] order[j]) < d.len(),
{
    let mut order: Vec<usize> = Vec::new();
    let mut i: usize = 0;
    let ghost keyed = keyed_positions(d@);
    proof {
        assert(keyed.take(0) =~= Seq::<(Seq<u8>, int)>::empty());
        assert(order_view(d@, order@) =~= sorted_entries(keyed.take(0)));
    }
    while i < d.len()
        invariant
            i <= d.len(),
            keyed == keyed_positions(d@),
            order_view(d@, order@) == sorted_entries(keyed.take(i as int)),
            forall|j: int| 0 <= j < order.len() ==> (#[trigger] order[j]) < d.len(),
        decreases d.len() - i,
    {
        let ghost e = order_view(d@, order@);
        let ghost key = d[i as int].key@;
        let mut p: usize = 0;
        let mut same = false;
        while p < order.len()
            invariant_except_break
                !same,
                rank_from(e, key, 0) == rank_from(e, key, p as int),
            invariant
                i < d.len(),
                p <= order.len(),
                e == order_view(d@, order@),
                key == d[i as int].key@,
                forall|j: int| 0 <= j < order.len() ==> (#[trigger] order[j]) < d.len(),
            ensures
                p <= order.len(),
                rank_from(e, key, 0) == p,
                same <==> (p < order.len() && e[p as int].0 == key),
            decreases order.len() - p,
        {
            proof {
                lemma_lex_total(e[p as int].0, key);
            }
            match key_order(d[order[p]].key.as_slice(), d[i].key.as_slice()) {
                KeyOrder::Before => {
                    p = p + 1;
                },
                KeyOrder::Same => {
                    same = true;
                    break;
                },
                KeyOrder::After => {
                    break;
                },
            }
        }
        if same {
            order[p] = i;
            proof {
                assert(order_view(d@, order@) =~= e.update(p as int, (key, i as int)));
            }
        } else {
            order.insert(p, i);
            proof {
                assert(order_view(d@, order@) =~= e.insert(p as int, (key, i as int)));
            }
        }
        proof {
            let grown = keyed.take(i + 1);
            assert(grown.drop_last() =~= keyed.take(i as int));
            assert(grown.last() == (key, i as int));
        }
        i = i + 1;
    }
    proof {
        assert(keyed.take(i as int) =~= keyed);
    }
    order
}

/// Appends the canonical encoding of `value`.
fn encode_value(value: &BencodeValue, output: &mut Vec<u8>)
    ensures
        final(output)@ == old(output)@ + encode_spec(value@),
    decreases value,
{
    match value {
        BencodeValue::Integer(i) => {
            output.push(INT_START);
            if *i < 0 {
                output.push(MINUS);
                let magnitude: u64 = if *i == i64::MIN {
                    I64_MIN_MAGNITUDE
                } else {
                    (-*i) as u64
                };
                push_decimal(output, magnitude);
            } else {
                push_decimal(output, *i as u64);
            }
            output.push(END);
            proof {
                assert(output@ =~= old(output)@ + (seq![INT_START] + int_digits(*i) + seq![END]));
            }
        },
        BencodeValue::String(s) => {
            encode_byte_string(s, output);
        },
        BencodeValue::List(l) => {
            output.push(LIST_START);
            let ghost chunks = item_chunks(items_view(l@));
            let mut i: usize = 0;
            proof {
                lemma_list_view(*l);
                assert(chunks.take(0) =~= Seq::<Seq<u8>>::empty());
                assert(output@ =~= old(output)@ + seq![LIST_START] + concat_all(chunks.take(0)));
            }
            while i < l.len()
                invariant
                    i <= l.len(),
                    *value == BencodeValue::List(*l),
                    decreases_to!(*value => *l),
                    chunks == item_chunks(items_view(l@)),
                    output@ == old(output)@ + seq![LIST_START] + concat_all(chunks.take(i as int)),
                decreases l.len() - i,
            {
                proof {
                    assert(decreases_to!(*l => l[i as int]));
                }
                encode_value(&l[i], output);
                proof {
                    let grown = chunks.take(i + 1);
                    assert(grown.drop_last() =~= chunks.take(i as int));
                    assert(grown.last() == encode_spec(l[i as int]@));
                    assert(output@ =~= old(output)@ + seq![LIST_START] + concat_all(grown));
                }
                i = i + 1;
            }
            output.push(END);
            proof {
                assert(chunks.take(i as int) =~= chunks);
                assert(output@ =~= old(output)@ + (seq![LIST_START] + concat_all(chunks)
                    + seq![END]));
            }
        },
        BencodeValue::Dict(d) => {
            output.push(DICT_START);
            let order = write_order(d);
            let ghost dv = entries_view(d@);
            let ghost sorted = sorted_entries(encoded_pairs(dv));
            let ghost chunks = entry_chunks(sorted);
            proof {
                lemma_dict_view(*d);
                let g = |i: int| encode_spec(dv[i].1);
                lemma_sorted_entries_map_bound(keyed_positions(d@), g);
                assert(map_bound(keyed_positions(d@), g) =~= encoded_pairs(dv));
                assert(sorted == map_bound(order_view(d@, order@), g));
                assert(chunks.take(0) =~= Seq::<Seq<u8>>::empty());
                assert(output@ =~= old(output)@ + seq![DICT_START] + concat_all(chunks.take(0)));
            }
            let mut j: usize = 0;
            while j < order.len()
                invariant
                    j <= order.len(),
                    *value == BencodeValue::Dict(*d),
                    decreases_to!(*value => *d),
                    dv == entries_view(d@),
                    sorted.len() == order.len(),
                    chunks == entry_chunks(sorted),
                    forall|k: int| 0 <= k < order.len() ==> (#[trigger] order[k]) < d.len(),
                    forall|k: int|
                        0 <= k < order.len() ==> (#[trigger] sorted[k]) == (
                            d[order[k] as int].key@,
                            encode_spec(d[order[k] as int].value@),
                        ),
                    output@ == old(output)@ + seq![DICT_START] + concat_all(chunks.take(j as int)),
                decreases order.len() - j,
            {
                let entry = &d[order[j]];
                let ghost before = output@;
                encode_byte_string(&entry.key, output);
                proof {
                    assert(decreases_to!(*d => d[order[j as int] as int]));
                }
                encode_value(&entry.value, output);
                proof {
                    let grown = chunks.take(j + 1);
                    assert(grown.drop_last() =~= chunks.take(j as int));
                    assert(grown.last() == encode_bytes(sorted[j as int].0) + sorted[j as int].1);
                    assert(output@ =~= before + grown.last());
                    assert(output@ =~= old(output)@ + seq![DICT_START] + concat_all(grown));
                }
                j = j + 1;
            }
            output.push(END);
            proof {
                assert(chunks.take(j as int) =~= chunks);
                assert(output@ =~= old(output)@ + (seq![DICT_START] + concat_all(chunks)
                    + seq![END]));
            }
        },
    }
}

} // verus!
