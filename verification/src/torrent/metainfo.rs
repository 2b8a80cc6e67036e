//! Reading metainfo out of the bytes of a torrent file.

use crate::bencode::decode::decode;
use crate::bencode::encode::encode;
use crate::bencode::model::Value;
use crate::bencode::value::{items_view, BencodeValue};
use crate::error::TorrentError;
use crate::hashing::{copy_20, sha1_of};
use crate::hexcode::{hex_encode, hex_string};
use crate::torrent::model::{
    field, file_of, files_of, hashes_of, law_piece_length, lemma_files_prefix, lemma_path_prefix,
    lemma_total_len_nonneg, lemma_total_len_prefix, metainfo_of, metainfo_spec, path_of,
    pieces_field, size_field, size_of, text_field, total_len, FileView, MetainfoView,
};
use vstd::prelude::*;

verus! {

/// One file of the content: the components of its path below the
/// content's directory, and its length in bytes.
#[derive(Debug, Clone)]
pub struct FileInfo {
    pub path: Vec<String>,
    pub length: usize,
}

/// What the info dictionary says: the content's name, the length of a
/// piece, the digest of each piece, the files, and their length together.
#[derive(Debug, Clone)]
pub struct TorrentInfo {
    pub name: String,
    pub piece_length: usize,
    pub pieces: Vec<[u8; 20]>,
    pub files: Vec<FileInfo>,
    pub total_length: usize,
}

/// A torrent's metainfo: the tracker's URL, the info-hash, and the info
/// dictionary.
#[derive(Debug, Clone)]
pub struct Metainfo {
    pub announce: String,
    pub info_hash: [u8; 20],
    pub info: TorrentInfo,
}

/// Texts as the contracts see them.
pub open spec fn strings_view(v: Seq<String>) -> Seq<Seq<char>> {
    Seq::new(v.len(), |i: int| v[i]@)
}

/// Files as the contracts see them.
pub open spec fn files_view(v: Seq<FileInfo>) -> Seq<FileView> {
    Seq::new(v.len(), |i: int| v[i]@)
}

/// Digests as the contracts see them.
pub open spec fn hashes_view(v: Seq<[u8; 20]>) -> Seq<Seq<u8>> {
    Seq::new(v.len(), |i: int| v[i]@)
}

impl View for FileInfo {
    type V = FileView;

    open spec fn view(&self) -> FileView {
        FileView { path: strings_view(self.path@), length: self.length }
    }
}

impl View for Metainfo {
    type V = MetainfoView;

    open spec fn view(&self) -> MetainfoView {
        MetainfoView {
            announce: self.announce@,
            info_hash: self.info_hash@,
            name: self.info.name@,
            piece_length: self.info.piece_length,
            pieces: hashes_view(self.info.pieces@),
            files: files_view(self.info.files@),
            total_length: self.info.total_length,
        }
    }
}

/// The size that an integer gives.
fn size_of_value(v: &BencodeValue) -> (r: Option<usize>)
    ensures
        r == size_of(v@),
{
    match v.as_int() {
        Some(i) => {
            if i >= 0 && i as u64 <= usize::MAX as u64 {
                Some(i as usize)
            } else {
                None
            }
        },
        None => None,
    }
}

/// The field `name` of a dictionary as a size.
fn read_size(dict: &BencodeValue, name: &str) -> (r: Option<usize>)
    requires
        dict@ is Dict,
    ensures
        r == size_field(dict@->Dict_0, name),
{
    match dict.get(name.as_bytes()) {
        Some(v) => size_of_value(v),
        None => None,
    }
}

/// The field `name` of a dictionary as text.
fn read_text(dict: &BencodeValue, name: &str) -> (r: Option<String>)
    requires
        dict@ is Dict,
    ensures
        match text_field(dict@->Dict_0, name) {
            Some(t) => r is Some && r->0@ == t,
            None => r is None,
        },
{
    match dict.get(name.as_bytes()) {
        Some(v) => match v.as_str() {
            Some(s) => Some(s.to_owned()),
            None => None,
        },
        None => None,
    }
}

/// The digests of the pieces.
fn read_pieces(dict: &BencodeValue) -> (r: Option<Vec<[u8; 20]>>)
    requires
        dict@ is Dict,
    ensures
        match pieces_field(dict@->Dict_0) {
            Some(p) => r is Some && hashes_view(r->0@) == p,
            None => r is None,
        },
{
    let bytes = match dict.get("pieces".as_bytes()) {
        Some(v) => match v.as_bytes() {
            Some(b) => b,
            None => {
                return None;
            },
        },
        None => {
            return None;
        },
    };
    if bytes.len() % 20 != 0 {
        return None;
    }
    let n = bytes.len() / 20;
    let mut pieces: Vec<[u8; 20]> = Vec::new();
    let mut i: usize = 0;
    while i < n
        invariant
            i <= n,
            n == bytes.len() / 20,
            bytes.len() % 20 == 0,
            pieces.len() == i,
            forall|j: int|
                0 <= j < i ==> (#[trigger] pieces[j])@ == bytes@.subrange(20 * j, 20 * j + 20),
        decreases n - i,
    {
        pieces.push(copy_20(bytes, 20 * i));
        i = i + 1;
    }
    proof {
        assert(hashes_view(pieces@) =~= hashes_of(bytes@));
    }
    Some(pieces)
}

/// The components of a path.
fn read_path(l: &Vec<BencodeValue>) -> (r: Option<Vec<String>>)
    ensures
        match path_of(items_view(l@)) {
            Some(p) => r is Some && strings_view(r->0@) == p,
            None => r is None,
        },
{
    let ghost items = items_view(l@);
    let mut path: Vec<String> = Vec::new();
    let mut i: usize = 0;
    proof {
        assert(items.take(0) =~= Seq::<Value>::empty());
        assert(strings_view(path@) =~= Seq::<Seq<char>>::empty());
    }
    while i < l.len()
        invariant
            i <= l.len(),
            items == items_view(l@),
            path_of(items.take(i as int)) == Some(strings_view(path@)),
        decreases l.len() - i,
    {
        proof {
            assert(items.take(i + 1).drop_last() =~= items.take(i as int));
            assert(items.take(i + 1).last() == l[i as int]@);
        }
        match l[i].as_str() {
            Some(s) => {
                let ghost before = strings_view(path@);
                path.push(s.to_owned());
                proof {
                    assert(strings_view(path@) =~= before.push(s@));
                }
            },
            None => {
                proof {
                    lemma_path_prefix(items, i + 1);
                }
                return None;
            },
        }
        i = i + 1;
    }
    proof {
        assert(items.take(i as int) =~= items);
    }
    Some(path)
}

/// One entry of the list of files.
fn read_file(v: &BencodeValue) -> (r: Option<FileInfo>)
    ensures
        match file_of(v@) {
            Some(f) => r is Some && r->0@ == f,
            None => r is None,
        },
{
    if v.as_dict().is_none() {
        return None;
    }
    let length = match read_size(v, "length") {
        Some(n) => n,
        None => {
            return None;
        },
    };
    let list = match v.get("path".as_bytes()) {
        Some(p) => match p.as_list() {
            Some(l) => l,
            None => {
                return None;
            },
        },
        None => {
            return None;
        },
    };
    match read_path(list) {
        Some(path) => Some(FileInfo { path, length }),
        None => None,
    }
}

/// The entries of the list of files, and their length together.
fn read_files(l: &Vec<BencodeValue>) -> (r: Option<(Vec<FileInfo>, usize)>)
    ensures
        match files_of(items_view(l@)) {
            Some(fs) => if total_len(fs) <= usize::MAX {
                r matches Some((files, total)) && files_view(files@) == fs && total == total_len(
                    fs,
                )
            } else {
                r is None
            },
            None => r is None,
        },
{
    let ghost items = items_view(l@);
    let mut files: Vec<FileInfo> = Vec::new();
    let mut total: usize = 0;
    let mut i: usize = 0;
    proof {
        assert(items.take(0) =~= Seq::<Value>::empty());
        assert(files_view(files@) =~= Seq::<FileView>::empty());
    }
    while i < l.len()
        invariant
            i <= l.len(),
            items == items_view(l@),
            files_of(items.take(i as int)) == Some(files_view(files@)),
            total == total_len(files_view(files@)),
        decreases l.len() - i,
    {
        proof {
            assert(items.take(i + 1).drop_last() =~= items.take(i as int));
            assert(items.take(i + 1).last() == l[i as int]@);
            lemma_files_prefix(items, i + 1);
        }
        match read_file(&l[i]) {
            Some(file) => {
                let ghost before = files_view(files@);
                let length = file.length;
                files.push(file);
                proof {
                    assert(files_view(files@) =~= before.push(file@));
                    assert(files_view(files@).drop_last() =~= before);
                }
                if length > usize::MAX - total {
                    proof {
                        if files_of(items) is Some {
                            lemma_total_len_prefix(files_of(items)->0, i + 1);
                        }
                    }
                    return None;
                }
                total = total + length;
            },
            None => {
                return None;
            },
        }
        i = i + 1;
    }
    proof {
        assert(items.take(i as int) =~= items);
    }
    Some((files, total))
}

impl Metainfo {
    /// Reads the metainfo out of a decoded torrent file, given the digest
    /// of its info dictionary.
    pub fn from_parts(root: &BencodeValue, info_hash: [u8; 20]) -> (r: Result<
        Metainfo,
        TorrentError,
    >)
        ensures
            match metainfo_of(root@, info_hash@) {
                Some(m) => r is Ok && r->Ok_0@ == m,
                None => r == Err::<Metainfo, TorrentError>(TorrentError::MalformedTorrent),
            },
            r is Ok ==> r->Ok_0@.total_length == total_len(r->Ok_0@.files),
    {
        if root.as_dict().is_none() {
            return Err(TorrentError::MalformedTorrent);
        }
        let announce = match read_text(root, "announce") {
            Some(a) => a,
            None => {
                return Err(TorrentError::MalformedTorrent);
            },
        };
        let info = match root.get("info".as_bytes()) {
            Some(v) => v,
            None => {
                return Err(TorrentError::MalformedTorrent);
            },
        };
        if info.as_dict().is_none() {
            return Err(TorrentError::MalformedTorrent);
        }
        let name = match read_text(info, "name") {
            Some(n) => n,
            None => {
                return Err(TorrentError::MalformedTorrent);
            },
        };
        let piece_length = match read_size(info, "piece length") {
            Some(n) => n,
            None => {
                return Err(TorrentError::MalformedTorrent);
            },
        };
        let pieces = match read_pieces(info) {
            Some(p) => p,
            None => {
                return Err(TorrentError::MalformedTorrent);
            },
        };
        let (files, total_length) = match info.get("length".as_bytes()) {
            Some(v) => match size_of_value(v) {
                Some(length) => {
                    let mut path: Vec<String> = Vec::new();
                    path.push(name.clone());
                    let mut files: Vec<FileInfo> = Vec::new();
                    files.push(FileInfo { path, length });
                    proof {
                        let f = FileView { path: seq![name@], length };
                        assert(strings_view(path@) =~= seq![name@]);
                        assert(files_view(files@) =~= seq![f]);
                        assert(seq![f].drop_last() =~= Seq::<FileView>::empty());
                        assert(total_len(seq![f].drop_last()) == 0);
                        assert(seq![f].last() == f);
                        assert(total_len(seq![f]) == length);
                    }
                    (files, length)
                },
                None => {
                    return Err(TorrentError::MalformedTorrent);
                },
            },
            None => match info.get("files".as_bytes()) {
                Some(v) => match v.as_list() {
                    Some(l) => match read_files(l) {
                        Some(found) => found,
                        None => {
                            return Err(TorrentError::MalformedTorrent);
                        },
                    },
                    None => {
                        return Err(TorrentError::MalformedTorrent);
                    },
                },
                None => {
                    return Err(TorrentError::MalformedTorrent);
                },
            },
        };
        proof {
            lemma_total_len_nonneg(files_view(files@));
        }
        Ok(
            Metainfo {
                announce,
                info_hash,
                info: TorrentInfo { name, piece_length, pieces, files, total_length },
            },
        )
    }

    /// Reads the metainfo out of the bytes of a torrent file. The info-hash
    /// is the SHA-1 digest of the info dictionary in canonical encoding.
    pub fn from_bytes(data: &[u8]) -> (r: Result<Metainfo, TorrentError>)
        ensures
            match metainfo_spec(data@) {
                Some(m) => r is Ok && r->Ok_0@ == m,
                None => r == Err::<Metainfo, TorrentError>(TorrentError::MalformedTorrent),
            },
            r is Ok ==> r->Ok_0@.total_length == total_len(r->Ok_0@.files),
    {
        let root = match decode(data) {
            Ok(v) => v,
            Err(_) => {
                return Err(TorrentError::MalformedTorrent);
            },
        };
        let info_hash = match root.get("info".as_bytes()) {
            Some(info) => {
                let encoded = encode(info);
                sha1_of(encoded.as_slice())
            },
            None => {
                return Err(TorrentError::MalformedTorrent);
            },
        };
        Self::from_parts(&root, info_hash)
    }

    /// Whether the pieces cover the content exactly.
    pub fn has_valid_layout(&self) -> (r: bool)
        ensures
            r == self@.consistent(),
    {
        let n = self.info.pieces.len();
        let pl = self.info.piece_length;
        let total = self.info.total_length;
        if pl == 0 {
            return false;
        }
        proof {
            assert(n * pl <= 0xffff_ffff_ffff_ffff * 0xffff_ffff_ffff_ffff) by (nonlinear_arith)
                requires
                    0 <= n <= 0xffff_ffff_ffff_ffff,
                    0 <= pl <= 0xffff_ffff_ffff_ffff,
            ;
        }
        let upper: u128 = n as u128 * pl as u128;
        if total as u128 > upper {
            return false;
        }
        if n == 0 {
            proof {
                assert((n - 1) * pl < 0) by (nonlinear_arith)
                    requires
                        n == 0,
                        pl > 0,
                ;
            }
            return true;
        }
        proof {
            assert((n - 1) * pl == n * pl - pl) by (nonlinear_arith);
        }
        upper - (pl as u128) < total as u128
    }

    /// The length of piece `index`.
    pub fn piece_len(&self, index: usize) -> (r: usize)
        requires
            self@.consistent(),
            index < self@.pieces.len(),
        ensures
            r == self@.piece_len(index as int),
            1 <= r <= self@.piece_length,
    {
        proof {
            law_piece_length(self@, index as int);
        }
        if index == self.info.pieces.len() - 1 {
            self.info.total_length - index * self.info.piece_length
        } else {
            self.info.piece_length
        }
    }

    /// The info-hash in lower-case hexadecimal.
    pub fn info_hash_hex(&self) -> (r: String)
        ensures
            r@ == hex_string(self@.info_hash),
    {
        hex_encode(self.info_hash.as_slice())
    }

    /// The number of pieces.
    pub fn num_pieces(&self) -> (r: usize)
        ensures
            r == self@.pieces.len(),
    {
        self.info.pieces.len()
    }

    /// The digest expected of piece `index`.
    pub fn piece_hash(&self, index: usize) -> (r: Option<&[u8; 20]>)
        ensures
            index < self@.pieces.len() ==> r is Some && r->0@ == self@.pieces[index as int],
            index >= self@.pieces.len() ==> r is None,
    {
        if index < self.info.pieces.len() {
            Some(&self.info.pieces[index])
        } else {
            None
        }
    }
}

} // verus!
