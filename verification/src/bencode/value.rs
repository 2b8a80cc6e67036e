//! The value tree that the codec reads and writes.

use crate::bencode::model::Value;
use crate::text::text_of_bytes;
use vstd::prelude::*;
use vstd::utf8::{decode_utf8, valid_utf8};

verus! {

/// A bencode value. A dictionary is a list of entries; the decoder yields
/// them in ascending order of their keys, each key once.
#[derive(Debug, PartialEq)]
pub enum BencodeValue {
    String(Vec<u8>),
    Integer(i64),
    List(Vec<BencodeValue>),
    Dict(Vec<DictEntry>),
}

/// One entry of a dictionary: a byte-string key and the value bound to it.
#[derive(Debug, PartialEq)]
pub struct DictEntry {
    pub key: Vec<u8>,
    pub value: BencodeValue,
}

impl BencodeValue {
    /// The value as the model sees it.
    pub open spec fn model(&self) -> Value
        decreases self,
    {
        match self {
            BencodeValue::String(s) => Value::String(s@),
            BencodeValue::Integer(i) => Value::Integer(*i),
            BencodeValue::List(l) => Value::List(
                Seq::new(
                    l@.len(),
                    |i: int|
                        if 0 <= i < l@.len() {
                            l@[i].model()
                        } else {
                            Value::Integer(0)
                        },
                ),
            ),
            BencodeValue::Dict(d) => Value::Dict(
                Seq::new(
                    d@.len(),
                    |i: int|
                        if 0 <= i < d@.len() {
                            (d@[i].key@, d@[i].value.model())
                        } else {
                            (Seq::empty(), Value::Integer(0))
                        },
                ),
            ),
        }
    }
}

impl View for BencodeValue {
    type V = Value;

    open spec fn view(&self) -> Value {
        self.model()
    }
}

/// The values of a list as the model sees them.
pub open spec fn items_view(l: Seq<BencodeValue>) -> Seq<Value> {
    Seq::new(l.len(), |i: int| l[i]@)
}

/// The entries of a dictionary as the model sees them.
pub open spec fn entries_view(d: Seq<DictEntry>) -> Seq<(Seq<u8>, Value)> {
    Seq::new(d.len(), |i: int| (d[i].key@, d[i].value@))
}

/// The value bound to `key` by the last entry that has this key.
pub open spec fn lookup(d: Seq<(Seq<u8>, Value)>, key: Seq<u8>) -> Option<Value>
    decreases d.len(),
{
    if d.len() == 0 {
        None
    } else if d.last().0 == key {
        Some(d.last().1)
    } else {
        lookup(d.drop_last(), key)
    }
}

/// A list is seen as the list of its items as they are seen.
pub proof fn lemma_list_view(l: Vec<BencodeValue>)
    ensures
        BencodeValue::List(l)@ == Value::List(items_view(l@)),
{
    assert(BencodeValue::List(l)@->List_0 =~= items_view(l@));
}

/// A dictionary is seen as the list of its entries as they are seen.
pub proof fn lemma_dict_view(d: Vec<DictEntry>)
    ensures
        BencodeValue::Dict(d)@ == Value::Dict(entries_view(d@)),
{
    assert(BencodeValue::Dict(d)@->Dict_0 =~= entries_view(d@));
}

impl BencodeValue {
    /// The bytes of a byte string.
    pub fn as_bytes(&self) -> (r: Option<&[u8]>)
        ensures
            match self@ {
                Value::String(s) => r is Some && r->0@ == s,
                _ => r is None,
            },
    {
        match self {
            BencodeValue::String(s) => Some(s.as_slice()),
            _ => None,
        }
    }

    /// The text of a byte string that is valid UTF-8.
    pub fn as_str(&self) -> (r: Option<&str>)
        ensures
            match self@ {
                Value::String(s) => {
                    &&& r is Some <==> valid_utf8(s)
                    &&& r is Some ==> r->0@ == decode_utf8(s)
                },
                _ => r is None,
            },
    {
        match self {
            BencodeValue::String(s) => text_of_bytes(s.as_slice()),
            _ => None,
        }
    }

    /// The number of an integer.
    pub fn as_int(&self) -> (r: Option<i64>)
        ensures
            match self@ {
                Value::Integer(i) => r == Some(i),
                _ => r is None,
            },
    {
        match self {
            BencodeValue::Integer(i) => Some(*i),
            _ => None,
        }
    }

    /// The values of a list.
    pub fn as_list(&self) -> (r: Option<&Vec<BencodeValue>>)
        ensures
            match self@ {
                Value::List(l) => r is Some && items_view(r->0@) == l,
                _ => r is None,
            },
    {
        match self {
            BencodeValue::List(l) => {
                proof {
                    lemma_list_view(*l);
                }
                Some(l)
            },
            _ => None,
        }
    }

    /// The entries of a dictionary.
    pub fn as_dict(&self) -> (r: Option<&Vec<DictEntry>>)
        ensures
            match self@ {
                Value::Dict(d) => r is Some && entries_view(r->0@) == d,
                _ => r is None,
            },
    {
        match self {
            BencodeValue::Dict(d) => {
                proof {
                    lemma_dict_view(*d);
                }
                Some(d)
            },
            _ => None,
        }
    }

    /// The value that a dictionary binds to `key`; of a key that occurs
    /// twice, the value bound last.
    pub fn get(&self, key: &[u8]) -> (r: Option<&BencodeValue>)
        ensures
            match self@ {
                Value::Dict(d) => match lookup(d, key@) {
                    Some(v) => r is Some && r->0@ == v,
                    None => r is None,
                },
                _ => r is None,
            },
    {
        match self {
            BencodeValue::Dict(d) => {
                proof {
                    lemma_dict_view(*d);
                }
                let ghost e = entries_view(d@);
                let mut i: usize = d.len();
                proof {
                    assert(e.take(i as int) =~= e);
                }
                while i > 0
                    invariant
                        i <= d.len(),
                        e == entries_view(d@),
                        self@ == Value::Dict(e),
                        lookup(e, key@) == lookup(e.take(i as int), key@),
                    decreases i,
                {
                    proof {
                        assert(e.take(i as int).drop_last() =~= e.take(i - 1));
                        assert(e.take(i as int).last() == e[i - 1]);
                    }
                    i = i - 1;
                    if same_bytes(d[i].key.as_slice(), key) {
                        return Some(&d[i].value);
                    }
                }
                None
            },
            _ => None,
        }
    }
}

/// Whether two byte strings hold the same bytes.
pub fn same_bytes(a: &[u8], b: &[u8]) -> (r: bool)
    ensures
        r == (a@ == b@),
{
    if a.len() != b.len() {
        return false;
    }
    let mut i: usize = 0;
    while i < a.len()
        invariant
            a.len() == b.len(),
            i <= a.len(),
            forall|j: int| 0 <= j < i ==> a[j] == b[j],
        decreases a.len() - i,
    {
        if a[i] != b[i] {
            return false;
        }
        i = i + 1;
    }
    proof {
        assert(a@ =~= b@);
    }
    true
}

} // verus!

verus! {

impl Clone for BencodeValue {
    fn clone(&self) -> (r: BencodeValue)
        ensures
            r@ == self@,
        decreases self,
    {
        match self {
            BencodeValue::String(s) => BencodeValue::String(
                vstd::slice::slice_to_vec(s.as_slice()),
            ),
            BencodeValue::Integer(i) => BencodeValue::Integer(*i),
            BencodeValue::List(l) => {
                let mut items: Vec<BencodeValue> = Vec::new();
                let mut i: usize = 0;
                while i < l.len()
                    invariant
                        i <= l.len(),
                        decreases_to!(*self => *l),
                        items.len() == i,
                        forall|k: int| 0 <= k < i ==> (#[trigger] items[k])@ == l[k]@,
                    decreases l.len() - i,
                {
                    proof {
                        assert(decreases_to!(*l => l[i as int]));
                    }
                    items.push(l[i].clone());
                    i = i + 1;
                }
                proof {
                    lemma_list_view(*l);
                    lemma_list_view(items);
                    assert(items_view(items@) =~= items_view(l@));
                }
                BencodeValue::List(items)
            },
            BencodeValue::Dict(d) => {
                let mut entries: Vec<DictEntry> = Vec::new();
                let mut i: usize = 0;
                while i < d.len()
                    invariant
                        i <= d.len(),
                        decreases_to!(*self => *d),
                        entries.len() == i,
                        forall|k: int|
                            0 <= k < i ==> (#[trigger] entries[k]).key@ == d[k].key@
                                && entries[k].value@ == d[k].value@,
                    decreases d.len() - i,
                {
                    proof {
                        assert(decreases_to!(*d => d[i as int]));
                    }
                    entries.push(
                        DictEntry {
                            key: vstd::slice::slice_to_vec(d[i].key.as_slice()),
                            value: d[i].value.clone(),
                        },
                    );
                    i = i + 1;
                }
                proof {
                    lemma_dict_view(*d);
                    lemma_dict_view(entries);
                    assert(entries_view(entries@) =~= entries_view(d@));
                }
                BencodeValue::Dict(entries)
            },
        }
    }
}

impl Clone for DictEntry {
    fn clone(&self) -> (r: DictEntry)
        ensures
            r.key@ == self.key@,
            r.value@ == self.value@,
    {
        DictEntry { key: vstd::slice::slice_to_vec(self.key.as_slice()), value: self.value.clone() }
    }
}

} // verus!
