//! The layout of a torrent's files in the content, from which the writes
//! of each piece are planned.

use crate::error::TorrentError;
use crate::storage::plan::{
    contiguous, covers, end_of, lemma_contiguous_ends, lemma_covers, lemma_written, offset_at,
    plan_of, written, FileSpan, WriteOp,
};
use crate::torrent::metainfo::{files_view, Metainfo};
use crate::torrent::model::{lemma_total_len_prefix, total_len, FileView, MetainfoView};
use vstd::prelude::*;

verus! {

/// A layout as the contracts see it.
pub struct StorageView {
    pub files: Seq<FileSpan>,
    pub piece_length: usize,
    pub total: usize,
}

impl StorageView {
    /// The files lie one after another from 0 on and end at the total.
    pub open spec fn wf(self) -> bool {
        &&& contiguous(self.files)
        &&& end_of(self.files) == self.total
        &&& self.files.len() <= usize::MAX
    }

    /// The files have the lengths that the metainfo gives them, in its
    /// order, and pieces the length it gives.
    pub open spec fn matches(self, m: MetainfoView) -> bool {
        &&& self.piece_length == m.piece_length
        &&& self.files.len() == m.files.len()
        &&& forall|i: int|
            0 <= i < self.files.len() ==> (#[trigger] self.files[i]).length == m.files[i].length
    }
}

/// Where each file of a torrent lies in the content.
#[derive(Debug)]
pub struct Storage {
    files: Vec<FileSpan>,
    piece_length: usize,
    total: usize,
}

impl View for Storage {
    type V = StorageView;

    closed spec fn view(&self) -> StorageView {
        StorageView { files: self.files@, piece_length: self.piece_length, total: self.total }
    }
}

/// Files that lie one after another end where their lengths together say.
pub proof fn lemma_offset_is_total(spans: Seq<FileSpan>, files: Seq<FileView>, i: int)
    requires
        spans.len() == files.len(),
        0 <= i <= spans.len(),
        forall|k: int| 0 <= k < spans.len() ==> (#[trigger] spans[k]).length == files[k].length,
    ensures
        offset_at(spans, i) == total_len(files.take(i)),
    decreases i,
{
    if i > 0 {
        lemma_offset_is_total(spans, files, i - 1);
        assert(files.take(i).drop_last() =~= files.take(i - 1));
        assert(files.take(i).last() == files[i - 1]);
    } else {
        assert(files.take(0) =~= Seq::<FileView>::empty());
    }
}

impl Storage {
    #[verifier::type_invariant]
    spec fn inv(&self) -> bool {
        self@.wf()
    }

    /// Lays the files of a torrent one after another. Fails where they are
    /// together longer than a machine word can say.
    pub fn new(metainfo: &Metainfo) -> (r: Result<Storage, TorrentError>)
        ensures
            match r {
                Ok(s) => {
                    &&& s@.wf()
                    &&& s@.matches(metainfo@)
                    &&& s@.total == total_len(metainfo@.files)
                },
                Err(e) => e == TorrentError::MalformedTorrent && total_len(metainfo@.files)
                    > usize::MAX,
            },
    {
        let ghost mfiles = metainfo@.files;
        let mut files: Vec<FileSpan> = Vec::new();
        let mut current_offset: usize = 0;
        let mut i: usize = 0;
        while i < metainfo.info.files.len()
            invariant
                i <= metainfo.info.files.len(),
                mfiles == files_view(metainfo.info.files@),
                files.len() == i,
                forall|k: int| 0 <= k < i ==> (#[trigger] files[k]).length == mfiles[k].length,
                forall|k: int| 0 <= k < i ==> (#[trigger] files[k]).offset == offset_at(files@, k),
                current_offset == offset_at(files@, i as int),
            decreases metainfo.info.files.len() - i,
        {
            let length = metainfo.info.files[i].length;
            let ghost before = files@;
            proof {
                assert(mfiles[i as int].length == length);
            }
            files.push(FileSpan { offset: current_offset, length });
            proof {
                assert forall|k: int| 0 <= k <= i implies offset_at(files@, k) == offset_at(
                    before,
                    k,
                ) by {
                    lemma_offset_same(before, files@, k);
                }
            }
            if length > usize::MAX - current_offset {
                proof {
                    let padded = Seq::new(
                        mfiles.len(),
                        |k: int|
                            if k <= i {
                                files@[k]
                            } else {
                                FileSpan { offset: 0, length: mfiles[k].length }
                            },
                    );
                    lemma_offset_is_total(padded, mfiles, i + 1);
                    lemma_offset_same(files@, padded, i + 1);
                    lemma_total_len_prefix(mfiles, i + 1);
                }
                return Err(TorrentError::MalformedTorrent);
            }
            current_offset = current_offset + length;
            i = i + 1;
        }
        proof {
            lemma_offset_is_total(files@, mfiles, i as int);
            assert(mfiles.take(i as int) =~= mfiles);
        }
        Ok(Storage { files, piece_length: metainfo.info.piece_length, total: current_offset })
    }

    /// Where each file lies in the content, in the order of the metainfo.
    pub fn files(&self) -> (r: &Vec<FileSpan>)
        ensures
            r@ == self@.files,
            self@.wf(),
    {
        proof {
            use_type_invariant(self);
        }
        &self.files
    }

    /// The length of a piece but the last.
    pub fn piece_length(&self) -> (r: usize)
        ensures
            r == self@.piece_length,
    {
        self.piece_length
    }

    /// The length of the content: the lengths of the files together.
    pub fn total_size(&self) -> (r: usize)
        ensures
            r == self@.total,
    {
        self.total
    }

    /// The writes that store piece `piece_index`, of `len` bytes, in the
    /// files that it crosses: for each such file one write, in the order of
    /// the files, and together they store every byte of the piece. `None`
    /// where the piece would reach beyond the content.
    pub fn write_piece(&self, piece_index: usize, len: usize) -> (r: Option<Vec<WriteOp>>)
        ensures
            self@.wf(),
            match r {
                Some(ops) => {
                    &&& piece_index * self@.piece_length + len <= self@.total
                    &&& ops@ == plan_of(self@.files, piece_index * self@.piece_length, len as int)
                    &&& written(ops@) == len
                },
                None => piece_index * self@.piece_length + len > self@.total,
            },
    {
        proof {
            use_type_invariant(self);
        }
        let start = match piece_index.checked_mul(self.piece_length) {
            Some(p) => p,
            None => {
                return None;
            },
        };
        if start > self.total || len > self.total - start {
            return None;
        }
        let end = start + len;
        let ghost files = self.files@;
        let mut ops: Vec<WriteOp> = Vec::new();
        let mut k: usize = 0;
        proof {
            assert(files.take(0) =~= Seq::<FileSpan>::empty());
        }
        while k < self.files.len()
            invariant
                k <= self.files.len(),
                files == self.files@,
                contiguous(files),
                end_of(files) == self.total,
                end == start + len,
                end <= self.total,
                ops@ == plan_of(files.take(k as int), start as int, len as int),
            decreases self.files.len() - k,
        {
            let span = self.files[k];
            proof {
                lemma_contiguous_ends(files, k as int);
                assert(files.take(k + 1).drop_last() =~= files.take(k as int));
                assert(files.take(k + 1).last() == span);
            }
            let lo = if start > span.offset {
                start
            } else {
                span.offset
            };
            let file_end = span.offset + span.length;
            let hi = if end < file_end {
                end
            } else {
                file_end
            };
            if lo < hi {
                ops.push(
                    WriteOp {
                        file: k,
                        file_offset: lo - span.offset,
                        data_offset: lo - start,
                        len: hi - lo,
                    },
                );
            }
            k = k + 1;
        }
        proof {
            assert(files.take(k as int) =~= files);
            lemma_written(files, start as int, len as int);
        }
        Some(ops)
    }
}

/// Where a file begins depends only on the lengths of the files before
/// it.
pub proof fn lemma_offset_same(a: Seq<FileSpan>, b: Seq<FileSpan>, i: int)
    requires
        0 <= i <= a.len(),
        i <= b.len(),
        forall|k: int| 0 <= k < i ==> a[k].length == b[k].length,
    ensures
        offset_at(a, i) == offset_at(b, i),
    decreases i,
{
    if i > 0 {
        lemma_offset_same(a, b, i - 1);
    }
}

/// Every byte of every output file is stored by the writes of exactly one
/// piece: the piece in which the byte lies.
pub proof fn law_every_byte_once(m: MetainfoView, s: StorageView, f: int, x: int)
    requires
        m.consistent(),
        s.wf(),
        s.matches(m),
        s.total == m.total_length,
        0 <= f < s.files.len(),
        0 <= x < s.files[f].length,
    ensures
        ({
            let at = s.files[f].offset + x;
            let home = at / (m.piece_length as int);
            &&& 0 <= home < m.pieces.len()
            &&& forall|j: int|
                0 <= j < m.pieces.len() ==> (covers(
                    #[trigger] plan_of(s.files, j * m.piece_length, m.piece_len(j)),
                    f,
                    x,
                ) <==> j == home)
        }),
{
    let pl = m.piece_length as int;
    let n = m.pieces.len() as int;
    let at = s.files[f].offset + x;
    let home = at / pl;
    lemma_contiguous_ends(s.files, f);
    assert(0 <= at < m.total_length);
    assert(home * pl <= at < home * pl + pl && 0 <= home) by (nonlinear_arith)
        requires
            home == at / pl,
            pl > 0,
            at >= 0,
    ;
    assert(home < n) by (nonlinear_arith)
        requires
            home * pl <= at,
            at < n * pl,
            pl > 0,
    ;
    assert forall|j: int| 0 <= j < n implies (covers(
        #[trigger] plan_of(s.files, j * pl, m.piece_len(j)),
        f,
        x,
    ) <==> j == home) by {
        crate::torrent::model::law_piece_length(m, j);
        assert(0 <= j * pl) by (nonlinear_arith)
            requires
                0 <= j,
                pl > 0,
        ;
        lemma_covers(s.files, j * pl, m.piece_len(j), f, x);
        if j * pl <= at < j * pl + m.piece_len(j) {
            assert(j == home) by (nonlinear_arith)
                requires
                    j * pl <= at,
                    at < j * pl + pl,
                    home * pl <= at,
                    at < home * pl + pl,
                    pl > 0,
            ;
        }
        if j == home {
            if j == n - 1 {
            } else {
            }
        }
    }
}

} // verus!

verus! {

/// Where file `file` of a torrent lies below the output directory: in the
/// directory named as the content, at the file's own path.
pub open spec fn output_path_of(m: MetainfoView, file: int) -> Seq<Seq<char>> {
    seq![m.name] + m.files[file].path
}

/// Where file `file` of a torrent lies below the output directory, as
/// the components of its path; `None` for a file that the torrent has not.
pub fn output_path(metainfo: &Metainfo, file: usize) -> (r: Option<Vec<String>>)
    ensures
        match r {
            Some(path) => file < metainfo@.files.len() && crate::torrent::metainfo::strings_view(
                path@,
            ) == output_path_of(metainfo@, file as int),
            None => file >= metainfo@.files.len(),
        },
{
    if file >= metainfo.info.files.len() {
        return None;
    }
    let components = &metainfo.info.files[file].path;
    let ghost target = output_path_of(metainfo@, file as int);
    let mut path: Vec<String> = Vec::new();
    path.push(metainfo.info.name.clone());
    let mut i: usize = 0;
    proof {
        assert(metainfo@.files[file as int] == metainfo.info.files[file as int]@);
    }
    while i < components.len()
        invariant
            i <= components.len(),
            path.len() == i + 1,
            target.len() == components.len() + 1,
            forall|k: int| 0 <= k <= i ==> (#[trigger] path[k])@ == target[k],
            forall|k: int| 0 <= k < components.len() ==> target[k + 1] == components[k]@,
        decreases components.len() - i,
    {
        path.push(components[i].clone());
        i = i + 1;
    }
    proof {
        assert(crate::torrent::metainfo::strings_view(path@) =~= target);
    }
    Some(path)
}

} // verus!
