//! What a bencode tree says as metainfo.

use crate::bencode::model::{decode_spec, encode_spec, Value};
use crate::bencode::value::lookup;
use crate::hashing::sha1_digest;
use vstd::prelude::*;
use vstd::string::StringSliceAdditionalSpecFns;
use vstd::utf8::{decode_utf8, valid_utf8};

verus! {

/// A file of the content as the contracts see it.
pub struct FileView {
    pub path: Seq<Seq<char>>,
    pub length: usize,
}

/// A torrent's metainfo as the contracts see it.
pub struct MetainfoView {
    pub announce: Seq<char>,
    pub info_hash: Seq<u8>,
    pub name: Seq<char>,
    pub piece_length: usize,
    pub pieces: Seq<Seq<u8>>,
    pub files: Seq<FileView>,
    pub total_length: usize,
}

impl MetainfoView {
    /// The pieces cover the content exactly: all pieces but the last are
    /// full, and the last has at least one byte and at most a full
    /// piece's. Content of no bytes has no pieces.
    pub open spec fn consistent(self) -> bool {
        &&& self.piece_length > 0
        &&& (self.pieces.len() - 1) * self.piece_length < self.total_length
        &&& self.total_length <= self.pieces.len() * self.piece_length
    }

    /// The length of piece `i`: a full piece, but for the last, which has
    /// what is left.
    pub open spec fn piece_len(self, i: int) -> int {
        if i == self.pieces.len() - 1 {
            self.total_length - i * self.piece_length
        } else {
            self.piece_length as int
        }
    }
}

/// In a consistent torrent every piece has at least one byte and at most
/// a full piece's, the last piece too, and ends within the content.
pub proof fn law_piece_length(m: MetainfoView, i: int)
    requires
        m.consistent(),
        0 <= i < m.pieces.len(),
    ensures
        1 <= m.piece_len(i) <= m.piece_length,
        i * m.piece_length + m.piece_len(i) <= m.total_length,
        i < m.pieces.len() - 1 ==> m.piece_len(i) == m.piece_length,
{
    let n = m.pieces.len() as int;
    let pl = m.piece_length as int;
    assert(i * pl <= (n - 1) * pl) by (nonlinear_arith)
        requires
            i <= n - 1,
            pl > 0,
    ;
    if i < n - 1 {
        assert((i + 1) * pl <= (n - 1) * pl) by (nonlinear_arith)
            requires
                i + 1 <= n - 1,
                pl > 0,
        ;
        assert((i + 1) * pl == i * pl + pl) by (nonlinear_arith);
    } else {
        assert(n * pl == (n - 1) * pl + pl) by (nonlinear_arith);
    }
}

/// The value that a dictionary binds to the key `name`.
pub open spec fn field(d: Seq<(Seq<u8>, Value)>, name: &str) -> Option<Value> {
    lookup(d, name.spec_bytes())
}

/// The text of a byte string that is valid UTF-8.
pub open spec fn text_of(v: Value) -> Option<Seq<char>> {
    match v {
        Value::String(s) => if valid_utf8(s) {
            Some(decode_utf8(s))
        } else {
            None
        },
        _ => None,
    }
}

/// The size that an integer gives: not negative, and within a machine
/// word.
pub open spec fn size_of(v: Value) -> Option<usize> {
    match v {
        Value::Integer(i) => if 0 <= i <= usize::MAX {
            Some(i as usize)
        } else {
            None
        },
        _ => None,
    }
}

/// The field `name` of a dictionary as text.
pub open spec fn text_field(d: Seq<(Seq<u8>, Value)>, name: &str) -> Option<Seq<char>> {
    match field(d, name) {
        Some(v) => text_of(v),
        None => None,
    }
}

/// The field `name` of a dictionary as a size.
pub open spec fn size_field(d: Seq<(Seq<u8>, Value)>, name: &str) -> Option<usize> {
    match field(d, name) {
        Some(v) => size_of(v),
        None => None,
    }
}

/// The digests that a byte string holds, twenty bytes each.
pub open spec fn hashes_of(b: Seq<u8>) -> Seq<Seq<u8>> {
    Seq::new(b.len() / 20, |i: int| b.subrange(20 * i, 20 * i + 20))
}

/// The field `pieces` of an info dictionary as digests: a byte string of
/// a length that is a multiple of 20.
pub open spec fn pieces_field(d: Seq<(Seq<u8>, Value)>) -> Option<Seq<Seq<u8>>> {
    match field(d, "pieces") {
        Some(Value::String(b)) => if b.len() % 20 == 0 {
            Some(hashes_of(b))
        } else {
            None
        },
        _ => None,
    }
}

/// The components of a path: a list of texts.
pub open spec fn path_of(l: Seq<Value>) -> Option<Seq<Seq<char>>>
    decreases l.len(),
{
    if l.len() == 0 {
        Some(Seq::empty())
    } else {
        match (path_of(l.drop_last()), text_of(l.last())) {
            (Some(p), Some(t)) => Some(p.push(t)),
            _ => None,
        }
    }
}

/// One entry of the list `files`: a dictionary with a length and a path.
pub open spec fn file_of(v: Value) -> Option<FileView> {
    match v {
        Value::Dict(d) => match (size_field(d, "length"), field(d, "path")) {
            (Some(length), Some(Value::List(l))) => match path_of(l) {
                Some(path) => Some(FileView { path, length }),
                None => None,
            },
            _ => None,
        },
        _ => None,
    }
}

/// The entries of the list `files`.
pub open spec fn files_of(l: Seq<Value>) -> Option<Seq<FileView>>
    decreases l.len(),
{
    if l.len() == 0 {
        Some(Seq::empty())
    } else {
        match (files_of(l.drop_last()), file_of(l.last())) {
            (Some(fs), Some(f)) => Some(fs.push(f)),
            _ => None,
        }
    }
}

/// The sum of the lengths of the files.
pub open spec fn total_len(files: Seq<FileView>) -> int
    decreases files.len(),
{
    if files.len() == 0 {
        0
    } else {
        total_len(files.drop_last()) + files.last().length
    }
}

/// The files that an info dictionary names: one file called as the
/// content where the dictionary has a `length`, else the entries of its
/// list `files`.
pub open spec fn layout_of(d: Seq<(Seq<u8>, Value)>, name: Seq<char>) -> Option<Seq<FileView>> {
    match field(d, "length") {
        Some(v) => match size_of(v) {
            Some(length) => Some(seq![FileView { path: seq![name], length }]),
            None => None,
        },
        None => match field(d, "files") {
            Some(Value::List(l)) => files_of(l),
            _ => None,
        },
    }
}

/// The metainfo that a bencode tree holds, given the digest of its info
/// dictionary; `None` where a field is missing or of the wrong type, or
/// where the files together are longer than a machine word can say.
pub open spec fn metainfo_of(root: Value, info_hash: Seq<u8>) -> Option<MetainfoView> {
    match root {
        Value::Dict(top) => match (text_field(top, "announce"), field(top, "info")) {
            (Some(announce), Some(Value::Dict(info))) => match (
                text_field(info, "name"),
                size_field(info, "piece length"),
                pieces_field(info),
            ) {
                (Some(name), Some(piece_length), Some(pieces)) => match layout_of(info, name) {
                    Some(files) => if total_len(files) <= usize::MAX {
                        Some(
                            MetainfoView {
                                announce,
                                info_hash,
                                name,
                                piece_length,
                                pieces,
                                files,
                                total_length: total_len(files) as usize,
                            },
                        )
                    } else {
                        None
                    },
                    None => None,
                },
                _ => None,
            },
            _ => None,
        },
        _ => None,
    }
}

/// The metainfo that a byte string holds: what its bencode tree says, with
/// the SHA-1 digest of the canonical encoding of the tree's `info` as the
/// info-hash.
pub open spec fn metainfo_spec(data: Seq<u8>) -> Option<MetainfoView> {
    match decode_spec(data) {
        Ok(Value::Dict(top)) => match field(top, "info") {
            Some(info) => metainfo_of(Value::Dict(top), sha1_digest(encode_spec(info))),
            None => None,
        },
        _ => None,
    }
}

/// A path with a component that is no text is no path, whatever follows.
pub proof fn lemma_path_prefix(l: Seq<Value>, k: int)
    requires
        0 <= k <= l.len(),
        path_of(l.take(k)) is None,
    ensures
        path_of(l) is None,
    decreases l.len() - k,
{
    if k == l.len() {
        assert(l.take(k) =~= l);
    } else {
        assert(l.drop_last().take(k) =~= l.take(k));
        lemma_path_prefix(l.drop_last(), k);
    }
}

/// The entries before any point of a list of files are files if all are,
/// and are then the files before that point.
pub proof fn lemma_files_prefix(l: Seq<Value>, k: int)
    requires
        0 <= k <= l.len(),
    ensures
        files_of(l.take(k)) is None ==> files_of(l) is None,
        files_of(l) is Some ==> files_of(l.take(k)) is Some && files_of(l.take(k))->0
            == files_of(l)->0.take(k) && files_of(l)->0.len() == l.len(),
    decreases l.len() - k,
{
    if k == l.len() {
        assert(l.take(k) =~= l);
        lemma_files_len(l);
        if files_of(l) is Some {
            assert(files_of(l)->0.take(k) =~= files_of(l)->0);
        }
    } else {
        assert(l.drop_last().take(k) =~= l.take(k));
        lemma_files_prefix(l.drop_last(), k);
        if files_of(l) is Some {
            assert(files_of(l)->0.take(k) =~= files_of(l.drop_last())->0.take(k));
        }
    }
}

/// A list of files has as many files as entries.
pub proof fn lemma_files_len(l: Seq<Value>)
    ensures
        files_of(l) is Some ==> files_of(l)->0.len() == l.len(),
    decreases l.len(),
{
    if l.len() > 0 {
        lemma_files_len(l.drop_last());
    }
}

/// The files before any point are together no longer than all of them.
pub proof fn lemma_total_len_prefix(files: Seq<FileView>, k: int)
    requires
        0 <= k <= files.len(),
    ensures
        0 <= total_len(files.take(k)) <= total_len(files),
    decreases files.len() - k,
{
    if k == files.len() {
        assert(files.take(k) =~= files);
        lemma_total_len_nonneg(files);
    } else {
        assert(files.drop_last().take(k) =~= files.take(k));
        lemma_total_len_prefix(files.drop_last(), k);
    }
}

/// The lengths of files sum to no less than nothing.
pub proof fn lemma_total_len_nonneg(files: Seq<FileView>)
    ensures
        0 <= total_len(files),
    decreases files.len(),
{
    if files.len() > 0 {
        lemma_total_len_nonneg(files.drop_last());
    }
}

/// For every torrent, the lengths of its files sum to its total length.
pub proof fn law_total_length(root: Value, info_hash: Seq<u8>)
    requires
        metainfo_of(root, info_hash) is Some,
    ensures
        total_len(metainfo_of(root, info_hash)->0.files) == metainfo_of(
            root,
            info_hash,
        )->0.total_length,
{
    lemma_total_len_nonneg(metainfo_of(root, info_hash)->0.files);
}

} // verus!
