//! The content catalog and the units of work derived from it.

use std::sync::Arc;
use vstd::prelude::*;
use vstd::arithmetic::div_mod::lemma_fundamental_div_mod;
use crate::metadata::Torrent;

verus! {

/// Size in bytes of one requested block.
pub const BLOCK_SIZE: usize = 16384;

/// Length in bytes of one piece hash.
pub const HASH_SIZE: usize = 20;

/// One request unit: `size` bytes of piece `piece`, starting at byte `start`.
#[derive(Debug, Clone, Copy, PartialEq, Eq, Structural)]
pub struct PieceToDownload {
    pub piece: usize,
    pub start: usize,
    pub size: usize,
}

impl PieceToDownload {
    pub fn new(piece: usize, start: usize, size: usize) -> (r: PieceToDownload)
        ensures
            r == (PieceToDownload { piece, start, size }),
    {
        PieceToDownload { piece, start, size }
    }
}

/// A reassembled piece, as a peer session delivers it.
#[derive(Debug)]
pub struct PieceBuffer {
    pub piece_index: usize,
    pub buf: Vec<u8>,
}

/// `ceil(a / b)`.
pub open spec fn div_ceil(a: nat, b: nat) -> nat
    recommends
        b > 0,
{
    if a % b == 0 {
        a / b
    } else {
        a / b + 1
    }
}

/// Length of piece `index` among the pieces of a content of `total` bytes cut
/// every `piece_length` bytes: the nominal length, except that the last piece
/// holds what is left.
pub open spec fn piece_len(total: nat, piece_length: nat, index: nat) -> nat
    recommends
        piece_length > 0,
        index < div_ceil(total, piece_length),
{
    if index + 1 < div_ceil(total, piece_length) || total % piece_length == 0 {
        piece_length
    } else {
        total % piece_length
    }
}

/// The `k`-th block of a piece of `len` bytes: every block is `block_size`
/// long but the last, which ends where the piece ends.
pub open spec fn block_task(piece: usize, len: nat, block_size: nat, k: nat) -> PieceToDownload {
    PieceToDownload {
        piece,
        start: (k * block_size) as usize,
        size: if (k + 1) * block_size <= len {
            block_size as usize
        } else {
            (len - k * block_size) as usize
        },
    }
}

/// All block tasks of a piece of `len` bytes, in order of offset.
pub open spec fn block_tasks(piece: usize, len: nat, block_size: nat) -> Seq<PieceToDownload> {
    Seq::new(div_ceil(len, block_size), |k: int| block_task(piece, len, block_size, k as nat))
}

/// Every block index below the block count starts inside the piece.
pub proof fn lemma_block_start_in_piece(len: nat, block_size: nat, k: nat)
    requires
        block_size > 0,
        k < div_ceil(len, block_size),
    ensures
        k * block_size < len,
        k * block_size + block_size == (k + 1) * block_size,
{
    lemma_fundamental_div_mod(len as int, block_size as int);
    let q = len / block_size;
    let r = len % block_size;
    assert(k * block_size + block_size == (k + 1) * block_size) by (nonlinear_arith);
    if r == 0 {
        assert(k * block_size < len) by (nonlinear_arith)
            requires
                k + 1 <= q,
                len == block_size * q,
                block_size > 0,
        ;
    } else {
        assert(k * block_size < len) by (nonlinear_arith)
            requires
                k <= q,
                len == block_size * q + r,
                r > 0,
                block_size > 0,
        ;
    }
}

/// The blocks of a piece tile it: each starts where the one before ends, none
/// is empty or longer than the block size, and the last ends with the piece.
pub proof fn lemma_blocks_tile_piece(piece: usize, len: nat, block_size: nat, k: nat)
    requires
        block_size > 0,
        len <= usize::MAX,
        k < div_ceil(len, block_size),
    ensures
        ({
            let t = block_tasks(piece, len, block_size);
            &&& t.len() == div_ceil(len, block_size)
            &&& t[k as int].piece == piece
            &&& t[k as int].start == k * block_size
            &&& 0 < t[k as int].size <= block_size
            &&& t[k as int].start + t[k as int].size <= len
            &&& k + 1 < t.len() ==> t[k as int + 1].start == t[k as int].start + t[k as int].size
            &&& k + 1 == t.len() ==> t[k as int].start + t[k as int].size == len
        }),
{
    lemma_block_start_in_piece(len, block_size, k);
    if k + 1 < div_ceil(len, block_size) {
        lemma_block_start_in_piece(len, block_size, k + 1);
    } else {
        lemma_fundamental_div_mod(len as int, block_size as int);
        let q = len / block_size;
        let r = len % block_size;
        if r == 0 {
            assert((k + 1) * block_size == len) by (nonlinear_arith)
                requires
                    k + 1 == q,
                    len == block_size * q,
            ;
        } else {
            assert((k + 1) * block_size > len) by (nonlinear_arith)
                requires
                    k == q,
                    len == block_size * q + r,
                    r < block_size,
            ;
        }
    }
}

/// The pieces tile the content: piece `index` starts at `index` times the
/// nominal length, is not empty, ends inside the content, and the last piece
/// ends with it.
pub proof fn lemma_pieces_tile_content(total: nat, piece_length: nat, index: nat)
    requires
        piece_length > 0,
        index < div_ceil(total, piece_length),
    ensures
        0 < piece_len(total, piece_length, index) <= piece_length,
        index * piece_length + piece_len(total, piece_length, index) <= total,
        index + 1 == div_ceil(total, piece_length) ==> index * piece_length + piece_len(
            total,
            piece_length,
            index,
        ) == total,
{
    lemma_fundamental_div_mod(total as int, piece_length as int);
    let q = total / piece_length;
    let r = total % piece_length;
    if r == 0 {
        assert(index * piece_length + piece_length <= total) by (nonlinear_arith)
            requires
                index + 1 <= q,
                total == piece_length * q,
        ;
        if index + 1 == q {
            assert(index * piece_length + piece_length == total) by (nonlinear_arith)
                requires
                    index + 1 == q,
                    total == piece_length * q,
            ;
        }
    } else if index + 1 < q + 1 {
        assert(index * piece_length + piece_length <= total) by (nonlinear_arith)
            requires
                index + 1 <= q,
                total == piece_length * q + r,
                r > 0,
        ;
    } else {
        assert(index * piece_length + r == total) by (nonlinear_arith)
            requires
                index == q,
                total == piece_length * q + r,
        ;
    }
}

/// The content catalog: piece count, geometry and the expected hash of each
/// piece. Built once and only read afterwards.
#[derive(Debug)]
pub struct Pieces {
    pub num_pieces: usize,
    pub total_length: usize,
    pub piece_length: usize,
    pub block_size: usize,
    pub sha1_pieces: Vec<Arc<Vec<u8>>>,
}

impl Pieces {
    /// The catalog's invariant: positive piece length and block size, one
    /// piece per started `piece_length` bytes, one hash per piece.
    pub open spec fn wf(&self) -> bool {
        &&& self.piece_length > 0
        &&& self.block_size > 0
        &&& self.num_pieces == div_ceil(self.total_length as nat, self.piece_length as nat)
        &&& self.sha1_pieces@.len() == self.num_pieces
    }

    /// The expected hashes, in piece order.
    pub open spec fn spec_hashes(&self) -> Seq<Seq<u8>> {
        Seq::new(self.sha1_pieces@.len(), |i: int| self.sha1_pieces@[i]@)
    }

    /// Length in bytes of piece `index`.
    pub open spec fn spec_piece_len(&self, index: nat) -> nat {
        piece_len(self.total_length as nat, self.piece_length as nat, index)
    }

    /// Number of blocks of piece `index`.
    pub open spec fn spec_nblocks(&self, index: nat) -> nat {
        div_ceil(self.spec_piece_len(index), self.block_size as nat)
    }

    /// The block tasks of piece `index`, in order.
    pub open spec fn spec_tasks(&self, index: usize) -> Seq<PieceToDownload> {
        block_tasks(index, self.spec_piece_len(index as nat), self.block_size as nat)
    }

    /// Builds the catalog of a content of `total_length` bytes cut into
    /// pieces of `piece_length` bytes and blocks of `block_size` bytes.
    /// `None` exactly when a length is zero where it must not be, or when
    /// the hashes are not one per piece.
    pub fn new(
        total_length: usize,
        piece_length: usize,
        block_size: usize,
        sha1_pieces: Vec<Arc<Vec<u8>>>,
    ) -> (r: Option<Pieces>)
        ensures
            r.is_some() <==> piece_length > 0 && block_size > 0 && sha1_pieces@.len() == div_ceil(
                total_length as nat,
                piece_length as nat,
            ),
            r matches Some(p) ==> p.wf() && p.total_length == total_length && p.piece_length
                == piece_length && p.block_size == block_size && p.sha1_pieces@ == sha1_pieces@,
    {
        if piece_length == 0 || block_size == 0 {
            return None;
        }
        let num_pieces = count_chunks(total_length, piece_length);
        if sha1_pieces.len() != num_pieces {
            return None;
        }
        Some(Pieces { num_pieces, total_length, piece_length, block_size, sha1_pieces })
    }

    /// The catalog of a valid descriptor, with blocks of `BLOCK_SIZE` bytes.
    pub fn from_torrent(torrent: &Torrent) -> (r: Pieces)
        requires
            torrent.valid(),
        ensures
            r.wf(),
            r.total_length == torrent.spec_total_size(),
            r.piece_length == torrent.meta.info.piece_length,
            r.block_size == BLOCK_SIZE,
            r.spec_hashes() == torrent.spec_sha_pieces(),
    {
        let total_length = torrent.files_total_size();
        let piece_length = match crate::metadata::to_size(torrent.meta.info.piece_length) {
            Some(l) => l,
            None => 1,
        };
        let sha1_pieces = torrent.sha_pieces();
        let num_pieces = count_chunks(total_length, piece_length);
        let r = Pieces {
            num_pieces,
            total_length,
            piece_length,
            block_size: BLOCK_SIZE,
            sha1_pieces,
        };
        proof {
            assert(r.spec_hashes() =~= torrent.spec_sha_pieces());
        }
        r
    }

    pub fn num_pieces(&self) -> (r: usize)
        ensures
            r == self.num_pieces,
    {
        self.num_pieces
    }

    /// Length in bytes of piece `index`.
    pub fn piece_len(&self, index: usize) -> (r: usize)
        requires
            self.wf(),
            index < self.num_pieces,
        ensures
            r == self.spec_piece_len(index as nat),
            0 < r <= self.piece_length,
    {
        let rest = self.total_length % self.piece_length;
        proof {
            lemma_fundamental_div_mod(self.total_length as int, self.piece_length as int);
        }
        if index + 1 < self.num_pieces || rest == 0 {
            self.piece_length
        } else {
            rest
        }
    }

    /// Number of blocks of piece `index`.
    pub fn nblocks(&self, index: usize) -> (r: usize)
        requires
            self.wf(),
            index < self.num_pieces,
        ensures
            r == self.spec_nblocks(index as nat),
            r > 0,
    {
        let len = self.piece_len(index);
        proof {
            lemma_fundamental_div_mod(len as int, self.block_size as int);
            if len / self.block_size == 0 {
                assert(self.block_size as int * 0 == 0);
            }
        }
        count_chunks(len, self.block_size)
    }

    /// The expected hash of piece `index`, if the catalog has such a piece.
    pub fn expected_hash(&self, index: usize) -> (r: Option<&Arc<Vec<u8>>>)
        requires
            self.wf(),
        ensures
            r.is_some() <==> index < self.num_pieces,
            r matches Some(h) ==> h@ == self.spec_hashes()[index as int],
    {
        if index < self.sha1_pieces.len() {
            Some(&self.sha1_pieces[index])
        } else {
            None
        }
    }

    /// Appends the block tasks of piece `index` to `queue`, in order.
    pub fn push_tasks(&self, index: usize, queue: &mut Vec<PieceToDownload>)
        requires
            self.wf(),
            index < self.num_pieces,
        ensures
            final(queue)@ == old(queue)@ + self.spec_tasks(index),
    {
        let len = self.piece_len(index);
        let n = self.nblocks(index);
        let bs = self.block_size;
        let ghost before = queue@;
        let mut k: usize = 0;
        let mut start: usize = 0;
        while k < n
            invariant
                k <= n,
                bs > 0,
                bs == self.block_size,
                len == self.spec_piece_len(index as nat),
                n == div_ceil(len as nat, bs as nat),
                k < n ==> start == k * bs && start < len,
                queue@ == before + self.spec_tasks(index).take(k as int),
            decreases n - k,
        {
            proof {
                lemma_block_start_in_piece(len as nat, bs as nat, k as nat);
                if k + 1 < n {
                    lemma_block_start_in_piece(len as nat, bs as nat, (k + 1) as nat);
                }
            }
            let room = len - start;
            let size = if room >= bs { bs } else { room };
            let task = PieceToDownload::new(index, start, size);
            proof {
                let all = self.spec_tasks(index);
                assert(all[k as int] == task);
                assert(all.take(k + 1) == all.take(k as int).push(task));
            }
            queue.push(task);
            k += 1;
            if k < n {
                start += bs;
            }
        }
        proof {
            let all = self.spec_tasks(index);
            assert(all.take(n as int) == all);
        }
    }
}

/// `ceil(a / b)`, computed without overflow.
pub fn count_chunks(a: usize, b: usize) -> (r: usize)
    requires
        b > 0,
    ensures
        r == div_ceil(a as nat, b as nat),
{
    let q = a / b;
    if a % b == 0 {
        q
    } else {
        proof {
            lemma_fundamental_div_mod(a as int, b as int);
            assert(q < a) by (nonlinear_arith)
                requires
                    a == b * q + (a % b) as int,
                    a % b > 0,
                    b > 0,
                    q >= 0,
            ;
        }
        q + 1
    }
}

} // verus!
