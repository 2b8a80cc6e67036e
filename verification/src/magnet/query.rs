//! The query of a magnet link: pairs of key and value, parted by `&` and
//! `=`, with percent-escapes and `+` for a space.

use vstd::prelude::*;
use vstd::slice::slice_subrange;

verus! {

/// The number that a hexadecimal digit of either case denotes.
pub open spec fn hex_digit_value(c: char) -> Option<int> {
    let v = c as u32;
    if 48 <= v <= 57 {
        Some(v - 48)
    } else if 97 <= v <= 102 {
        Some(v - 87)
    } else if 65 <= v <= 70 {
        Some(v - 55)
    } else {
        None
    }
}

/// The byte that the two characters behind a `%` denote: two hexadecimal
/// digits, or a `+` and one hexadecimal digit.
pub open spec fn hex_pair(h1: char, h2: char) -> Option<u8> {
    match (hex_digit_value(h1), hex_digit_value(h2)) {
        (Some(a), Some(b)) => Some((a * 16 + b) as u8),
        (None, Some(b)) => if h1 == '+' {
            Some(b as u8)
        } else {
            None
        },
        _ => None,
    }
}

/// The text from position `i` on with its escapes resolved. A `%` with two
/// characters behind it stands with them for the character whose code they
/// denote, or for a plain `%` where they denote none; a `%` with fewer
/// behind it ends the text as a plain `%`. A `+` stands for a space.
pub open spec fn url_decoded_from(s: Seq<char>, i: int) -> Seq<char>
    decreases s.len() - i,
{
    if i < 0 || i >= s.len() {
        Seq::empty()
    } else if s[i] == '%' {
        if i + 2 < s.len() {
            seq![
                match hex_pair(s[i + 1], s[i + 2]) {
                    Some(b) => b as char,
                    None => '%',
                },
            ] + url_decoded_from(s, i + 3)
        } else {
            seq!['%']
        }
    } else if s[i] == '+' {
        seq![' '] + url_decoded_from(s, i + 1)
    } else {
        seq![s[i]] + url_decoded_from(s, i + 1)
    }
}

/// The text with its escapes resolved.
pub open spec fn url_decoded(s: Seq<char>) -> Seq<char> {
    url_decoded_from(s, 0)
}

/// The first position at or after `i` that holds `c`; the length of `s`
/// if there is none.
pub open spec fn find_char(s: Seq<char>, c: char, i: int) -> int
    decreases s.len() - i,
{
    if 0 <= i < s.len() && s[i] != c {
        find_char(s, c, i + 1)
    } else {
        i
    }
}

/// The parts of `s` from position `i` on between every two `sep`, from
/// `i` to the first, and from the last to the end: one part more than there
/// are separators.
pub open spec fn split_from(s: Seq<char>, sep: char, i: int) -> Seq<Seq<char>>
    decreases s.len() - i,
{
    let k = find_char(s, sep, i);
    if k >= s.len() || k < i || i < 0 {
        seq![s.subrange(i, s.len() as int)]
    } else {
        seq![s.subrange(i, k)] + split_from(s, sep, k + 1)
    }
}

/// The key and the value of one part of a query: what stands before the
/// first `=` and what stands behind it, or the whole part and nothing where
/// it holds no `=`; both with their escapes resolved.
pub open spec fn pair_of(part: Seq<char>) -> (Seq<char>, Seq<char>) {
    let k = find_char(part, '=', 0);
    if k >= part.len() {
        (url_decoded(part), Seq::empty())
    } else {
        (url_decoded(part.take(k)), url_decoded(part.skip(k + 1)))
    }
}

/// The pairs of a query, in its order.
pub open spec fn query_pairs(query: Seq<char>) -> Seq<(Seq<char>, Seq<char>)> {
    let parts = split_from(query, '&', 0);
    Seq::new(parts.len(), |j: int| pair_of(parts[j]))
}

/// Pairs of texts as the contracts see them.
pub open spec fn pairs_view(pairs: Seq<(Vec<char>, Vec<char>)>) -> Seq<(Seq<char>, Seq<char>)> {
    Seq::new(pairs.len(), |j: int| (pairs[j].0@, pairs[j].1@))
}

/// The value of the first pair with the key `key`, from position `i` on.
pub open spec fn first_value_from(
    pairs: Seq<(Seq<char>, Seq<char>)>,
    key: Seq<char>,
    i: int,
) -> Option<Seq<char>>
    decreases pairs.len() - i,
{
    if i < 0 || i >= pairs.len() {
        None
    } else if pairs[i].0 == key {
        Some(pairs[i].1)
    } else {
        first_value_from(pairs, key, i + 1)
    }
}

/// The value of the first pair with the key `key`.
pub open spec fn first_value(pairs: Seq<(Seq<char>, Seq<char>)>, key: Seq<char>) -> Option<
    Seq<char>,
> {
    first_value_from(pairs, key, 0)
}

/// The values of all pairs with the key `key`, in the order of the pairs.
pub open spec fn all_values(pairs: Seq<(Seq<char>, Seq<char>)>, key: Seq<char>) -> Seq<Seq<char>>
    decreases pairs.len(),
{
    if pairs.len() == 0 {
        Seq::empty()
    } else if pairs.last().0 == key {
        all_values(pairs.drop_last(), key).push(pairs.last().1)
    } else {
        all_values(pairs.drop_last(), key)
    }
}

/// The number that a hexadecimal digit denotes.
fn digit_value(c: char) -> (r: Option<u8>)
    ensures
        match hex_digit_value(c) {
            Some(v) => r == Some(v as u8) && v < 16,
            None => r is None,
        },
{
    let v = c as u32;
    if 48 <= v && v <= 57 {
        Some((v - 48) as u8)
    } else if 97 <= v && v <= 102 {
        Some((v - 87) as u8)
    } else if 65 <= v && v <= 70 {
        Some((v - 55) as u8)
    } else {
        None
    }
}

/// The byte that the two characters behind a `%` denote.
fn escaped_byte(h1: char, h2: char) -> (r: Option<u8>)
    ensures
        r == hex_pair(h1, h2),
{
    match digit_value(h2) {
        None => None,
        Some(b) => match digit_value(h1) {
            Some(a) => Some(a * 16 + b),
            None => if h1 == '+' {
                Some(b)
            } else {
                None
            },
        },
    }
}

/// Resolves the escapes of `s[start..end]`.
pub fn url_decode_range(s: &[char], start: usize, end: usize) -> (r: Vec<char>)
    requires
        start <= end <= s.len(),
    ensures
        r@ == url_decoded(s@.subrange(start as int, end as int)),
{
    let part = slice_subrange(s, start, end);
    let mut result: Vec<char> = Vec::new();
    let mut i: usize = 0;
    proof {
        assert(result@ + url_decoded_from(part@, 0) =~= url_decoded(part@));
    }
    while i < part.len()
        invariant
            i <= part.len(),
            url_decoded(part@) == result@ + url_decoded_from(part@, i as int),
        decreases part.len() - i,
    {
        let c = part[i];
        let ghost before = result@;
        if c == '%' {
            if part.len() - i > 2 {
                let x = match escaped_byte(part[i + 1], part[i + 2]) {
                    Some(byte) => crate::text::char_of_byte(byte),
                    None => '%',
                };
                result.push(x);
                proof {
                    assert(before + (seq![x] + url_decoded_from(part@, i + 3)) =~= before.push(x)
                        + url_decoded_from(part@, i + 3));
                }
                i = i + 3;
            } else {
                result.push('%');
                proof {
                    assert(before + seq!['%'] =~= before.push('%'));
                    assert(result@ + Seq::<char>::empty() =~= result@);
                }
                i = part.len();
            }
        } else {
            let x = if c == '+' {
                ' '
            } else {
                c
            };
            result.push(x);
            proof {
                assert(before + (seq![x] + url_decoded_from(part@, i + 1)) =~= before.push(x)
                    + url_decoded_from(part@, i + 1));
            }
            i = i + 1;
        }
    }
    proof {
        assert(result@ + Seq::<char>::empty() =~= result@);
    }
    result
}

/// The first position from `from` on that holds `c`, or the length.
fn find(s: &[char], c: char, from: usize) -> (r: usize)
    requires
        from <= s.len(),
    ensures
        r == find_char(s@, c, from as int),
        from <= r <= s.len(),
{
    let mut i: usize = from;
    while i < s.len() && s[i] != c
        invariant
            from <= i <= s.len(),
            find_char(s@, c, from as int) == find_char(s@, c, i as int),
        decreases s.len() - i,
    {
        i = i + 1;
    }
    i
}

/// The key and the value of the part `s[start..end]` of a query.
fn read_pair(s: &[char], start: usize, end: usize) -> (r: (Vec<char>, Vec<char>))
    requires
        start <= end <= s.len(),
    ensures
        (r.0@, r.1@) == pair_of(s@.subrange(start as int, end as int)),
{
    let part = slice_subrange(s, start, end);
    let k = find(part, '=', 0);
    if k >= part.len() {
        proof {
            assert(part@.subrange(0, part@.len() as int) =~= part@);
        }
        (url_decode_range(part, 0, part.len()), Vec::new())
    } else {
        (url_decode_range(part, 0, k), url_decode_range(part, k + 1, part.len()))
    }
}

/// The pairs of a query, in its order.
pub fn read_query(query: &[char]) -> (r: Vec<(Vec<char>, Vec<char>)>)
    ensures
        pairs_view(r@) == query_pairs(query@),
{
    let mut pairs: Vec<(Vec<char>, Vec<char>)> = Vec::new();
    let ghost mut parts: Seq<Seq<char>> = Seq::empty();
    let mut start: usize = 0;
    let mut done = false;
    proof {
        assert(parts + split_from(query@, '&', 0) =~= split_from(query@, '&', 0));
    }
    while !done
        invariant
            start <= query.len(),
            pairs.len() == parts.len(),
            forall|j: int|
                0 <= j < parts.len() ==> (pairs[j].0@, pairs[j].1@) == pair_of(#[trigger] parts[j]),
            !done ==> split_from(query@, '&', 0) == parts + split_from(
                query@,
                '&',
                start as int,
            ),
            done ==> split_from(query@, '&', 0) == parts,
        decreases (if done { 0int } else { 1int }), query.len() - start,
    {
        let k = find(query, '&', start);
        let pair = read_pair(query, start, k);
        let ghost part = query@.subrange(start as int, k as int);
        let ghost before = parts;
        pairs.push(pair);
        proof {
            parts = parts.push(part);
        }
        if k >= query.len() {
            proof {
                assert(before + seq![part] =~= parts);
            }
            done = true;
        } else {
            proof {
                assert(before + (seq![part] + split_from(query@, '&', k + 1)) =~= parts
                    + split_from(query@, '&', k + 1));
            }
            start = k + 1;
        }
    }
    proof {
        assert(pairs_view(pairs@) =~= query_pairs(query@));
    }
    pairs
}

/// Whether two texts are the same.
pub fn same_chars(a: &[char], b: &[char]) -> (r: bool)
    ensures
        r == (a@ == b@),
{
    if a.len() != b.len() {
        return false;
    }
    let mut i: usize = 0;
    while i < a.len()
        invariant
            a.len() == b.len(),
            i <= a.len(),
            forall|j: int| 0 <= j < i ==> a[j] == b[j],
        decreases a.len() - i,
    {
        if a[i] != b[i] {
            return false;
        }
        i = i + 1;
    }
    proof {
        assert(a@ =~= b@);
    }
    true
}

/// The value of the first pair with the key `key`.
pub fn find_value<'a>(pairs: &'a Vec<(Vec<char>, Vec<char>)>, key: &[char]) -> (r: Option<
    &'a Vec<char>,
>)
    ensures
        match first_value(pairs_view(pairs@), key@) {
            Some(v) => r is Some && r->0@ == v,
            None => r is None,
        },
{
    let mut i: usize = 0;
    while i < pairs.len()
        invariant
            i <= pairs.len(),
            first_value(pairs_view(pairs@), key@) == first_value_from(
                pairs_view(pairs@),
                key@,
                i as int,
            ),
        decreases pairs.len() - i,
    {
        if same_chars(pairs[i].0.as_slice(), key) {
            return Some(&pairs[i].1);
        }
        i = i + 1;
    }
    None
}

} // verus!
