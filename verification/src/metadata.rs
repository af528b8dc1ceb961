//! The content descriptor: announce sources, file layout and piece hashes.

use std::sync::Arc;
use vstd::prelude::*;
use crate::stackvec::{
    files_at, files_len, held_files, held_strings, lengths_of, held_tiers, strings_at, strings_len, texts,
    tiers_at, tiers_len, StackVec,
};
use crate::pieces::{div_ceil, HASH_SIZE};

verus! {

/// One file of a multi-file content.
#[derive(Debug)]
pub struct MetaFile {
    pub length: i64,
    pub md5sum: Option<String>,
    pub path: StackVec<String>,
}

/// The file layout: one file, or a directory of files.
#[derive(Debug)]
pub enum InfoFile {
    Single { name: String, length: i64, md5sum: Option<String> },
    Multiple { name: String, files: StackVec<MetaFile> },
}

/// Piece geometry, piece hashes (20 bytes each, back to back) and layout.
#[derive(Debug)]
pub struct MetaInfo {
    pub pieces: Vec<u8>,
    pub piece_length: i64,
    pub private: Option<i64>,
    pub files: InfoFile,
}

#[derive(Debug)]
pub struct MetaTorrent {
    pub announce: String,
    pub info: MetaInfo,
    pub announce_list: Option<StackVec<StackVec<String>>>,
    pub creation_date: Option<u64>,
    pub comment: Option<String>,
    pub created_by: Option<String>,
    pub encoding: Option<String>,
}

/// A content descriptor together with the hash that identifies it.
#[derive(Debug)]
pub struct Torrent {
    pub meta: MetaTorrent,
    pub info_hash: Arc<Vec<u8>>,
}

/// Walks a list of announce sources and yields those that are valid URLs,
/// each in its normalised form.
#[derive(Debug)]
pub struct UrlIterator {
    list: Vec<String>,
    index: usize,
}

/// The normalised serialisation of `input` as `url::Url::parse` gives it, or
/// `None` where that function rejects `input`.
pub uninterp spec fn url_parse(input: Seq<char>) -> Option<Seq<char>>;

/// Calls `url::Url::parse` and hands back the serialisation of the URL it
/// built (`String::from` of the `Url`, which is the text `as_str` shows), or
/// `None` where it returned an error. The result is the named value
/// `url_parse` of the input; nothing else is claimed of it.
#[verifier::external_body]
fn parse_url(input: &str) -> (r: Option<String>)
    ensures
        r.is_some() == url_parse(input@).is_some(),
        r matches Some(s) ==> s@ == url_parse(input@).unwrap(),
{
    match url::Url::parse(input) {
        Ok(u) => Some(String::from(u)),
        Err(_) => None,
    }
}

/// All sources of all tiers, tier after tier.
pub open spec fn flatten_tiers(tiers: Seq<Seq<Seq<char>>>) -> Seq<Seq<char>>
    decreases tiers.len(),
{
    if tiers.len() == 0 {
        Seq::empty()
    } else {
        flatten_tiers(tiers.drop_last()) + tiers.last()
    }
}

/// The valid URLs among `list[from..]`, normalised, in order.
pub open spec fn parsed_from(list: Seq<Seq<char>>, from: int) -> Seq<Seq<char>>
    decreases list.len() - from,
{
    if from < 0 || from >= list.len() {
        Seq::empty()
    } else {
        match url_parse(list[from]) {
            Some(u) => seq![u] + parsed_from(list, from + 1),
            None => parsed_from(list, from + 1),
        }
    }
}

/// Sum of the lengths of `files`.
pub open spec fn sum_lengths(files: Seq<i64>) -> int
    decreases files.len(),
{
    if files.len() == 0 {
        0
    } else {
        sum_lengths(files.drop_last()) + files.last()
    }
}

/// No file has a negative length.
pub open spec fn lengths_nonnegative(files: Seq<i64>) -> bool {
    forall|i: int| 0 <= i < files.len() ==> #[trigger] files[i] >= 0
}

/// With no negative length, the sum over a prefix is at most the whole sum.
pub proof fn lemma_prefix_sum_bounded(files: Seq<i64>, k: int)
    requires
        lengths_nonnegative(files),
        0 <= k <= files.len(),
    ensures
        0 <= sum_lengths(files.take(k)) <= sum_lengths(files),
    decreases files.len(),
{
    if k == files.len() {
        assert(files.take(k) == files);
        if files.len() > 0 {
            assert(files.drop_last().take(k - 1) == files.drop_last());
            lemma_prefix_sum_bounded(files.drop_last(), k - 1);
        }
    } else {
        assert(files.drop_last().take(k) == files.take(k));
        lemma_prefix_sum_bounded(files.drop_last(), k);
    }
}

impl UrlIterator {
    /// The sources this iterator walks, as texts.
    pub closed spec fn sources(&self) -> Seq<Seq<char>> {
        texts(self.list@)
    }

    /// How many sources have been consumed.
    pub closed spec fn position(&self) -> int {
        self.index as int
    }

    /// The URLs still to come.
    pub open spec fn pending(&self) -> Seq<Seq<char>> {
        parsed_from(self.sources(), self.position())
    }

    /// An iterator over `list`, at its start.
    pub fn new(list: Vec<String>) -> (r: UrlIterator)
        ensures
            r.sources() == texts(list@),
            r.position() == 0,
    {
        UrlIterator { list, index: 0 }
    }

    /// The next valid URL, skipping sources that do not parse; `None` when
    /// none is left. The iterator then stands behind the source that gave
    /// the URL, or at the end.
    pub fn next(&mut self) -> (r: Option<String>)
        ensures
            final(self).sources() == old(self).sources(),
            final(self).position() >= old(self).position(),
            match r {
                Some(u) => old(self).pending().len() > 0 && u@ == old(self).pending()[0]
                    && final(self).pending() == old(self).pending().drop_first(),
                None => old(self).pending().len() == 0 && final(self).pending().len() == 0,
            },
            forall|k: int|
                old(self).position() <= k < final(self).position() - (if r.is_some() {
                    1int
                } else {
                    0int
                }) ==> #[trigger] url_parse(old(self).sources()[k]).is_none(),
            match r {
                Some(u) => old(self).position() < final(self).position() <= old(self).sources().len()
                    && url_parse(old(self).sources()[final(self).position() - 1]) == Some(u@),
                None => final(self).position() == if old(self).position() < old(self).sources().len() {
                    old(self).sources().len() as int
                } else {
                    old(self).position()
                },
            },
    {
        while self.index < self.list.len()
            invariant
                self.list == old(self).list,
                self.index >= old(self).index,
                self.index > old(self).index ==> self.index <= self.list@.len(),
                self.pending() == old(self).pending(),
                forall|k: int|
                    old(self).index <= k < self.index ==> #[trigger] url_parse(
                        texts(self.list@)[k],
                    ).is_none(),
            decreases self.list@.len() - self.index,
        {
            let parsed = parse_url(self.list[self.index].as_str());
            self.index += 1;
            if let Some(u) = parsed {
                proof {
                    assert(old(self).pending().drop_first() =~= self.pending());
                }
                return Some(u);
            }
        }
        None
    }

    /// Lower bound of the number of sources left to look at.
    pub fn size_hint(&self) -> (r: (usize, Option<usize>))
        ensures
            r.0 == self.sources().len(),
            r.1.is_none(),
    {
        (self.list.len(), None)
    }
}

impl Torrent {
    /// The announce sources in the order they are tried: the tiers of the
    /// announce list, then the main announce.
    pub open spec fn spec_urls(&self) -> Seq<Seq<char>> {
        (match self.meta.announce_list {
            Some(tiers) => flatten_tiers(held_tiers(tiers)),
            None => Seq::empty(),
        }).push(self.meta.announce@)
    }

    /// Total content length: the single file's, or the sum over all files.
    pub open spec fn spec_total_size(&self) -> int {
        match self.meta.info.files {
            InfoFile::Single { length, .. } => length as int,
            InfoFile::Multiple { files, .. } => sum_lengths(lengths_of(held_files(files))),
        }
    }

    /// No length is negative and the total fits in `usize`.
    pub open spec fn lengths_ok(&self) -> bool {
        &&& match self.meta.info.files {
            InfoFile::Single { length, .. } => length >= 0,
            InfoFile::Multiple { files, .. } => lengths_nonnegative(lengths_of(held_files(files))),
        }
        &&& self.spec_total_size() <= usize::MAX
    }

    /// What a decoder owes: lengths in range, a positive piece length, and
    /// exactly one 20-byte hash for each piece.
    pub open spec fn valid(&self) -> bool {
        &&& self.lengths_ok()
        &&& 0 < self.meta.info.piece_length <= usize::MAX
        &&& self.meta.info.pieces@.len() % (HASH_SIZE as nat) == 0
        &&& self.meta.info.pieces@.len() / (HASH_SIZE as nat) == div_ceil(
            self.spec_total_size() as nat,
            self.meta.info.piece_length as nat,
        )
    }

    /// The expected hash of each piece: the hash blob cut every 20 bytes.
    pub open spec fn spec_sha_pieces(&self) -> Seq<Seq<u8>> {
        Seq::new(
            self.meta.info.pieces@.len() / (HASH_SIZE as nat),
            |k: int| self.meta.info.pieces@.subrange(k * HASH_SIZE, k * HASH_SIZE + HASH_SIZE),
        )
    }

    pub fn iter_urls(&self) -> (r: UrlIterator)
        ensures
            r.sources() == self.spec_urls(),
            r.position() == 0,
    {
        let mut vec: Vec<String> = Vec::new();
        if let Some(list) = &self.meta.announce_list {
            let ghost tiers = held_tiers(*list);
            let n = tiers_len(list);
            let mut t: usize = 0;
            while t < n
                invariant
                    t <= n,
                    n == tiers.len(),
                    tiers == held_tiers(*list),
                    texts(vec@) == flatten_tiers(tiers.take(t as int)),
                decreases n - t,
            {
                push_tier(&mut vec, tiers_at(list, t));
                proof {
                    assert(tiers.take(t + 1).drop_last() == tiers.take(t as int));
                }
                t += 1;
            }
            proof {
                assert(tiers.take(n as int) == tiers);
            }
        }
        let ghost prev = texts(vec@);
        vec.push(self.meta.announce.clone());
        proof {
            assert(texts(vec@) =~= prev.push(self.meta.announce@));
        }
        UrlIterator::new(vec)
    }

    /// The total size if no length is negative and the sum fits in `usize`.
    pub fn checked_total_size(&self) -> (r: Option<usize>)
        ensures
            r.is_some() == self.lengths_ok(),
            r matches Some(n) ==> n == self.spec_total_size(),
    {
        match &self.meta.info.files {
            InfoFile::Single { length, .. } => to_size(*length),
            InfoFile::Multiple { files, .. } => checked_sum(files),
        }
    }

    /// Total content length in bytes.
    pub fn files_total_size(&self) -> (r: usize)
        requires
            self.lengths_ok(),
        ensures
            r == self.spec_total_size(),
    {
        match self.checked_total_size() {
            Some(n) => n,
            None => 0,
        }
    }

    /// The expected hash of each piece, in piece order. Bytes after the last
    /// whole hash are ignored.
    pub fn sha_pieces(&self) -> (r: Vec<Arc<Vec<u8>>>)
        ensures
            r@.len() == self.spec_sha_pieces().len(),
            forall|k: int| 0 <= k < r@.len() ==> (#[trigger] r@[k])@ == self.spec_sha_pieces()[k],
    {
        let pieces = &self.meta.info.pieces;
        let total = pieces.len();
        let n = total / HASH_SIZE;
        let mut vec: Vec<Arc<Vec<u8>>> = Vec::new();
        let mut k: usize = 0;
        while k < n
            invariant
                k <= n,
                total == pieces@.len(),
                n == total / HASH_SIZE,
                pieces == &self.meta.info.pieces,
                vec@.len() == k,
                forall|j: int| 0 <= j < k ==> (#[trigger] vec@[j])@ == self.spec_sha_pieces()[j],
            decreases n - k,
        {
            let start = k * HASH_SIZE;
            let mut bytes: Vec<u8> = Vec::new();
            let mut b: usize = 0;
            while b < HASH_SIZE
                invariant
                    b <= HASH_SIZE,
                    start == k * HASH_SIZE,
                    total == pieces@.len(),
                    start + HASH_SIZE <= total,
                    bytes@ == pieces@.subrange(start as int, start + b),
                decreases HASH_SIZE - b,
            {
                bytes.push(pieces[start + b]);
                proof {
                    assert(pieces@.subrange(start as int, start + b + 1) =~= pieces@.subrange(
                        start as int,
                        start + b,
                    ).push(pieces@[start + b]));
                }
                b += 1;
            }
            vec.push(Arc::new(bytes));
            k += 1;
        }
        vec
    }

    /// Whether the descriptor is one that a catalog can be built from.
    pub fn is_valid(&self) -> (r: bool)
        ensures
            r == self.valid(),
    {
        let total = match self.checked_total_size() {
            Some(t) => t,
            None => {
                return false;
            },
        };
        let piece_length = match to_size(self.meta.info.piece_length) {
            Some(l) => l,
            None => {
                return false;
            },
        };
        if piece_length == 0 {
            return false;
        }
        let blob = self.meta.info.pieces.len();
        blob % HASH_SIZE == 0 && blob / HASH_SIZE == crate::pieces::count_chunks(
            total,
            piece_length,
        )
    }
}

/// Appends copies of the sources of `tier` to `out`.
fn push_tier(out: &mut Vec<String>, tier: &StackVec<String>)
    ensures
        texts(final(out)@) == texts(old(out)@) + held_strings(*tier),
{
    let ghost before = texts(out@);
    let ghost all = held_strings(*tier);
    let m = strings_len(tier);
    let mut i: usize = 0;
    while i < m
        invariant
            i <= m,
            m == all.len(),
            all == held_strings(*tier),
            texts(out@) == before + all.take(i as int),
        decreases m - i,
    {
        let ghost prev = texts(out@);
        out.push(strings_at(tier, i).clone());
        proof {
            assert(texts(out@) =~= prev.push(all[i as int]));
            assert(all.take(i + 1) =~= all.take(i as int).push(all[i as int]));
            assert(texts(out@) =~= before + all.take(i + 1));
        }
        i += 1;
    }
    proof {
        assert(all.take(m as int) == all);
    }
}

/// The sum of the lengths of `files`, if none is negative and the sum fits
/// in `usize`.
pub fn checked_sum(files: &StackVec<MetaFile>) -> (r: Option<usize>)
    ensures
        r.is_some() == (lengths_nonnegative(lengths_of(held_files(*files))) && sum_lengths(
            lengths_of(held_files(*files)),
        ) <= usize::MAX),
        r matches Some(n) ==> n == sum_lengths(lengths_of(held_files(*files))),
{
    let ghost all = lengths_of(held_files(*files));
    let n = files_len(files);
    let mut acc: usize = 0;
    let mut i: usize = 0;
    while i < n
        invariant
            i <= n,
            n == all.len(),
            all == lengths_of(held_files(*files)),
            acc == sum_lengths(all.take(i as int)),
            lengths_nonnegative(all.take(i as int)),
        decreases n - i,
    {
        proof {
            assert(all.take(i + 1).drop_last() == all.take(i as int));
            assert(all.take(i + 1).last() == all[i as int]);
            assert(sum_lengths(all.take(i + 1)) == acc + all[i as int]);
            if lengths_nonnegative(all) {
                lemma_prefix_sum_bounded(all, i + 1);
            }
        }
        let len = match to_size(files_at(files, i).length) {
            Some(l) => l,
            None => {
                return None;
            },
        };
        if len > usize::MAX - acc {
            return None;
        }
        acc += len;
        proof {
            assert forall|j: int| 0 <= j < i + 1 implies #[trigger] all.take(i + 1)[j] >= 0 by {
                if j < i {
                    assert(all.take(i as int)[j] == all.take(i + 1)[j]);
                }
            }
        }
        i += 1;
    }
    proof {
        assert(all.take(n as int) == all);
    }
    Some(acc)
}

/// `value` as a `usize`, where it is one.
pub fn to_size(value: i64) -> (r: Option<usize>)
    ensures
        r.is_some() == (0 <= value <= usize::MAX),
        r matches Some(n) ==> n == value,
{
    if value < 0 {
        return None;
    }
    let wide = value as u64;
    if wide > usize::MAX as u64 {
        return None;
    }
    Some(wide as usize)
}

} // verus!
