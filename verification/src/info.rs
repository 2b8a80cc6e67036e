//! Summaries of a torrent and of a magnet link for display, without any
//! download.

use crate::error::TorrentError;
use crate::hexcode::hex_string;
use crate::magnet::link::{magnet_spec, texts_view, MagnetLink, MagnetView};
use crate::torrent::metainfo::{FileInfo as TorrentFile, Metainfo};
use crate::torrent::model::{metainfo_spec, FileView, MetainfoView};
use vstd::prelude::*;
use vstd::string::StringExecFns;

verus! {

/// What there is to say of a torrent at a glance.
#[derive(Debug, Clone)]
pub struct TorrentInfo {
    pub name: String,
    pub total_size: usize,
    pub piece_count: usize,
    pub piece_length: usize,
    pub files: Vec<FileInfo>,
    pub info_hash: String,
    pub announce: String,
}

/// One file of a torrent: its path below the content's directory, with
/// `/` between the components, and its size in bytes.
#[derive(Debug, Clone)]
pub struct FileInfo {
    pub path: String,
    pub size: usize,
}

/// What there is to say of a magnet link at a glance.
#[derive(Debug, Clone)]
pub struct MagnetInfo {
    pub url: String,
    pub info_hash: String,
    pub name: Option<String>,
    pub trackers: Vec<String>,
}

/// The components of a path with `/` between them.
pub open spec fn joined_path(components: Seq<Seq<char>>) -> Seq<char>
    decreases components.len(),
{
    if components.len() == 0 {
        Seq::empty()
    } else if components.len() == 1 {
        components[0]
    } else {
        joined_path(components.drop_last()) + seq!['/'] + components.last()
    }
}

/// A file of a summary as the contracts see it.
pub open spec fn file_summary(f: FileView) -> (Seq<char>, usize) {
    (joined_path(f.path), f.length)
}

/// The files of a summary as the contracts see them.
pub open spec fn files_summary(files: Seq<FileInfo>) -> Seq<(Seq<char>, usize)> {
    Seq::new(files.len(), |i: int| (files[i].path@, files[i].size))
}

/// The summary `t` says of the torrent `m` what there is to say.
pub open spec fn summarizes(t: TorrentInfo, m: MetainfoView) -> bool {
    &&& t.name@ == m.name
    &&& t.total_size == m.total_length
    &&& t.piece_count == m.pieces.len()
    &&& t.piece_length == m.piece_length
    &&& files_summary(t.files@) == Seq::new(m.files.len(), |i: int| file_summary(m.files[i]))
    &&& t.info_hash@ == hex_string(m.info_hash)
    &&& t.announce@ == m.announce
}

/// The summary `i` says of the link `uri`, which reads as `m`, what there
/// is to say.
pub open spec fn summarizes_link(i: MagnetInfo, uri: Seq<char>, m: MagnetView) -> bool {
    &&& i.url@ == uri
    &&& i.info_hash@ == hex_string(m.info_hash)
    &&& (match i.name {
        Some(n) => Some(n@),
        None => None,
    }) == m.display_name
    &&& texts_view(i.trackers@) == m.trackers
}

/// Joins the components of a path with `/`.
pub fn join_path(components: &Vec<String>) -> (r: String)
    ensures
        r@ == joined_path(crate::torrent::metainfo::strings_view(components@)),
{
    let ghost parts = crate::torrent::metainfo::strings_view(components@);
    let mut out = String::new();
    let mut i: usize = 0;
    proof {
        reveal_strlit("/");
        assert(parts.take(0) =~= Seq::<Seq<char>>::empty());
    }
    while i < components.len()
        invariant
            i <= components.len(),
            parts == crate::torrent::metainfo::strings_view(components@),
            out@ == joined_path(parts.take(i as int)),
        decreases components.len() - i,
    {
        proof {
            assert(parts.take(i + 1).drop_last() =~= parts.take(i as int));
            assert(parts.take(i + 1).last() == components[i as int]@);
            reveal_strlit("/");
            assert("/"@ =~= seq!['/']);
        }
        if i > 0 {
            out.append("/");
        }
        out.append(components[i].as_str());
        proof {
            if i == 0 {
                assert(out@ =~= components[i as int]@);
                assert(parts.take(1)[0] == components[0]@);
            }
        }
        i = i + 1;
    }
    proof {
        assert(parts.take(i as int) =~= parts);
    }
    out
}

/// The summary of a torrent.
pub fn torrent_info(metainfo: &Metainfo) -> (r: TorrentInfo)
    ensures
        summarizes(r, metainfo@),
{
    let mut files: Vec<FileInfo> = Vec::new();
    let mut i: usize = 0;
    while i < metainfo.info.files.len()
        invariant
            i <= metainfo.info.files.len(),
            files.len() == i,
            forall|k: int|
                0 <= k < i ==> (#[trigger] files[k]).path@ == joined_path(
                    metainfo@.files[k].path,
                ) && files[k].size == metainfo@.files[k].length,
        decreases metainfo.info.files.len() - i,
    {
        let f = &metainfo.info.files[i];
        proof {
            assert(metainfo@.files[i as int] == f@);
        }
        files.push(FileInfo { path: join_path(&f.path), size: f.length });
        i = i + 1;
    }
    proof {
        assert(files_summary(files@) =~= Seq::new(
            metainfo@.files.len(),
            |i: int| file_summary(metainfo@.files[i]),
        ));
    }
    TorrentInfo {
        name: metainfo.info.name.clone(),
        total_size: metainfo.info.total_length,
        piece_count: metainfo.num_pieces(),
        piece_length: metainfo.info.piece_length,
        files,
        info_hash: metainfo.info_hash_hex(),
        announce: metainfo.announce.clone(),
    }
}

/// The summary of the torrent that the bytes of a torrent file hold.
pub fn get_torrent_info(data: &[u8]) -> (r: Result<TorrentInfo, TorrentError>)
    ensures
        match metainfo_spec(data@) {
            Some(m) => r is Ok && summarizes(r->Ok_0, m),
            None => r is Err && r->Err_0 == TorrentError::MalformedTorrent,
        },
{
    match Metainfo::from_bytes(data) {
        Ok(metainfo) => Ok(torrent_info(&metainfo)),
        Err(e) => Err(e),
    }
}

/// The summary of a magnet link.
pub fn parse_magnet(uri: &str) -> (r: Result<MagnetInfo, TorrentError>)
    ensures
        match magnet_spec(uri@) {
            Some(m) => r is Ok && summarizes_link(r->Ok_0, uri@, m),
            None => r is Err && r->Err_0 == TorrentError::InvalidMagnet,
        },
{
    match MagnetLink::parse(uri) {
        Ok(link) => {
            let info_hash = link.info_hash_hex();
            Ok(
                MagnetInfo {
                    url: String::from_str(uri),
                    info_hash,
                    name: link.display_name,
                    trackers: link.trackers,
                },
            )
        },
        Err(e) => Err(e),
    }
}

} // verus!
