//! The assignment table: which pieces are handed out, to whom, and which
//! are done; and the selection policy that hands them out.

use vstd::prelude::*;
use crate::bitfield::{has_bit, BitField, BitFieldUpdate};
use crate::pieces::{PieceToDownload, Pieces};

verus! {

/// Most pieces that one availability update may claim.
pub const BATCH_LIMIT: usize = 20;

/// The peers that own outstanding work for a claimed piece.
#[derive(Debug)]
pub struct PieceInfo {
    pub workers: Vec<u64>,
}

/// One slot of the assignment table.
#[derive(Debug)]
pub enum PieceState {
    Unclaimed,
    Claimed(PieceInfo),
    Complete,
}

/// What a slot of the assignment table says, as a mathematical value.
pub enum Claim {
    Unclaimed,
    Claimed(Seq<u64>),
    Complete,
}

impl View for PieceState {
    type V = Claim;

    open spec fn view(&self) -> Claim {
        match *self {
            PieceState::Unclaimed => Claim::Unclaimed,
            PieceState::Claimed(info) => Claim::Claimed(info.workers@),
            PieceState::Complete => Claim::Complete,
        }
    }
}

impl PieceInfo {
    /// A claim owned by one peer.
    pub fn new(peer: u64) -> (r: PieceInfo)
        ensures
            r.workers@ == seq![peer],
    {
        PieceInfo { workers: vec![peer] }
    }
}

/// The table that a vector of slots stands for.
pub open spec fn table_view(slots: Seq<PieceState>) -> Seq<Claim> {
    Seq::new(slots.len(), |i: int| slots[i]@)
}

/// The table's invariant: a claimed slot names at least one owner.
pub open spec fn table_wf(table: Seq<Claim>) -> bool {
    forall|i: int| 0 <= i < table.len() ==> (#[trigger] table[i] matches Claim::Claimed(w) ==> w.len() > 0)
}

/// Piece `i` exists, is unclaimed, and the peer has it.
pub open spec fn eligible(table: Seq<Claim>, bits: Seq<bool>, i: int) -> bool {
    0 <= i < table.len() && table[i] is Unclaimed && has_bit(bits, i)
}

/// How many pieces below `n` are eligible.
pub open spec fn eligible_before(table: Seq<Claim>, bits: Seq<bool>, n: int) -> nat
    decreases n,
{
    if n <= 0 {
        0
    } else {
        eligible_before(table, bits, n - 1) + if eligible(table, bits, n - 1) {
            1nat
        } else {
            0nat
        }
    }
}

/// Piece `i` is among the first `limit` eligible pieces, in index order.
pub open spec fn selected(table: Seq<Claim>, bits: Seq<bool>, limit: nat, i: int) -> bool {
    eligible(table, bits, i) && eligible_before(table, bits, i) < limit
}

/// The table after `peer` has claimed the first `limit` eligible pieces.
pub open spec fn claim_batch(table: Seq<Claim>, bits: Seq<bool>, peer: u64, limit: nat) -> Seq<
    Claim,
> {
    Seq::new(
        table.len(),
        |i: int|
            if selected(table, bits, limit, i) {
                Claim::Claimed(seq![peer])
            } else {
                table[i]
            },
    )
}

/// The block tasks of the selected pieces below `n`, piece after piece.
pub open spec fn batch_tasks(
    catalog: Pieces,
    table: Seq<Claim>,
    bits: Seq<bool>,
    limit: nat,
    n: int,
) -> Seq<PieceToDownload>
    decreases n,
{
    if n <= 0 {
        Seq::empty()
    } else {
        batch_tasks(catalog, table, bits, limit, n - 1) + if selected(table, bits, limit, n - 1) {
            catalog.spec_tasks((n - 1) as usize)
        } else {
            Seq::empty()
        }
    }
}

/// Whether a single announced piece can be claimed: it exists and is
/// unclaimed.
pub open spec fn claimable(table: Seq<Claim>, piece: int) -> bool {
    0 <= piece < table.len() && table[piece] is Unclaimed
}

/// The table after `peer` has announced the one piece `piece`.
pub open spec fn claim_one(table: Seq<Claim>, peer: u64, piece: int) -> Seq<Claim> {
    if claimable(table, piece) {
        table.update(piece, Claim::Claimed(seq![peer]))
    } else {
        table
    }
}

/// The table after `peer` has sent `update`.
pub open spec fn claim_update(table: Seq<Claim>, update: BitFieldUpdate, peer: u64) -> Seq<Claim> {
    match update {
        BitFieldUpdate::BitField(b) => claim_batch(table, b@, peer, BATCH_LIMIT as nat),
        BitFieldUpdate::Piece(p) => claim_one(table, peer, p as int),
    }
}

/// The block tasks that `update` gives rise to, in the order they are queued.
pub open spec fn update_tasks(catalog: Pieces, table: Seq<Claim>, update: BitFieldUpdate) -> Seq<
    PieceToDownload,
> {
    match update {
        BitFieldUpdate::BitField(b) => batch_tasks(
            catalog,
            table,
            b@,
            BATCH_LIMIT as nat,
            table.len() as int,
        ),
        BitFieldUpdate::Piece(p) => if claimable(table, p as int) {
            catalog.spec_tasks(p)
        } else {
            Seq::empty()
        },
    }
}

/// Whether `update` claims piece `i`.
pub open spec fn claims_piece(table: Seq<Claim>, update: BitFieldUpdate, i: int) -> bool {
    match update {
        BitFieldUpdate::BitField(b) => selected(table, b@, BATCH_LIMIT as nat, i),
        BitFieldUpdate::Piece(p) => i == p && claimable(table, i),
    }
}

/// `workers` without every occurrence of `peer`, order kept.
pub open spec fn without(workers: Seq<u64>, peer: u64) -> Seq<u64>
    decreases workers.len(),
{
    if workers.len() == 0 {
        workers
    } else if workers.last() == peer {
        without(workers.drop_last(), peer)
    } else {
        without(workers.drop_last(), peer).push(workers.last())
    }
}

/// A slot after `peer` has left: its claim loses `peer`, and a claim that
/// nobody owns any more is open again.
pub open spec fn release(claim: Claim, peer: u64) -> Claim {
    match claim {
        Claim::Claimed(w) => if without(w, peer).len() == 0 {
            Claim::Unclaimed
        } else {
            Claim::Claimed(without(w, peer))
        },
        _ => claim,
    }
}

/// The table after `peer` has left.
pub open spec fn sweep(table: Seq<Claim>, peer: u64) -> Seq<Claim> {
    Seq::new(table.len(), |i: int| release(table[i], peer))
}

/// The table after piece `piece` has been verified.
pub open spec fn complete(table: Seq<Claim>, piece: int) -> Seq<Claim> {
    if 0 <= piece < table.len() {
        table.update(piece, Claim::Complete)
    } else {
        table
    }
}

/// How many pieces below `n` the update claims.
pub open spec fn claimed_before(table: Seq<Claim>, update: BitFieldUpdate, n: int) -> nat
    decreases n,
{
    if n <= 0 {
        0
    } else {
        claimed_before(table, update, n - 1) + if claims_piece(table, update, n - 1) {
            1nat
        } else {
            0nat
        }
    }
}

/// Selection claims nothing outside the table and nothing twice: the table
/// keeps its length, every piece that the update claims was inside the
/// table, unclaimed and announced by the update, it is then claimed by the
/// peer alone, and every other slot is as it was.
pub proof fn lemma_claims_only_unclaimed(table: Seq<Claim>, update: BitFieldUpdate, peer: u64)
    ensures
        claim_update(table, update, peer).len() == table.len(),
        forall|i: int| #[trigger]
            claims_piece(table, update, i) ==> 0 <= i < table.len() && table[i] is Unclaimed,
        forall|i: int| #[trigger]
            claims_piece(table, update, i) ==> match update {
                BitFieldUpdate::BitField(b) => has_bit(b@, i),
                BitFieldUpdate::Piece(p) => i == p,
            },
        forall|i: int|
            0 <= i < table.len() ==> #[trigger] claim_update(table, update, peer)[i] == if claims_piece(
                table,
                update,
                i,
            ) {
                Claim::Claimed(seq![peer])
            } else {
                table[i]
            },
{
}

/// One update claims at most `BATCH_LIMIT` pieces, and an announced,
/// unclaimed piece beyond those stays unclaimed.
pub proof fn lemma_batch_is_bounded(table: Seq<Claim>, update: BitFieldUpdate, peer: u64, n: int)
    ensures
        claimed_before(table, update, n) <= BATCH_LIMIT,
        update matches BitFieldUpdate::BitField(b) ==> claimed_before(table, update, n) == if eligible_before(
            table,
            b@,
            n,
        ) < BATCH_LIMIT {
            eligible_before(table, b@, n)
        } else {
            BATCH_LIMIT as nat
        },
        update matches BitFieldUpdate::BitField(b) ==> forall|i: int|
            eligible(table, b@, i) && !claims_piece(table, update, i) ==> #[trigger] claim_update(
                table,
                update,
                peer,
            )[i] is Unclaimed,
    decreases n,
{
    if n > 0 {
        lemma_batch_is_bounded(table, update, peer, n - 1);
        if let BitFieldUpdate::Piece(p) = update {
            lemma_single_claims_once(table, update, n - 1);
            lemma_single_claims_once(table, update, n);
        }
    }
}

proof fn lemma_single_claims_once(table: Seq<Claim>, update: BitFieldUpdate, n: int)
    requires
        update is Piece,
    ensures
        claimed_before(table, update, n) <= 1,
        (update matches BitFieldUpdate::Piece(p) && n <= p) ==> claimed_before(table, update, n) == 0,
    decreases n,
{
    if n > 0 {
        lemma_single_claims_once(table, update, n - 1);
    }
}

/// When the peer that alone had claimed a piece leaves, the piece is
/// unclaimed again, and another peer that announces it can claim it: by a
/// single announcement, or by a full one in which the piece is among the
/// first `limit` claimable.
pub proof fn lemma_sole_claimant_released(
    table: Seq<Claim>,
    gone: u64,
    piece: usize,
    other: u64,
    bits: Seq<bool>,
    limit: nat,
)
    requires
        piece < table.len(),
        table[piece as int] == Claim::Claimed(seq![gone]),
    ensures
        sweep(table, gone)[piece as int] is Unclaimed,
        claimable(sweep(table, gone), piece as int),
        claim_update(sweep(table, gone), BitFieldUpdate::Piece(piece), other)[piece as int]
            == Claim::Claimed(seq![other]),
        has_bit(bits, piece as int) && eligible_before(sweep(table, gone), bits, piece as int)
            < limit ==> claim_batch(sweep(table, gone), bits, other, limit)[piece as int]
            == Claim::Claimed(seq![other]),
{
    let w = seq![gone];
    assert(w.drop_last().len() == 0);
    assert(without(w.drop_last(), gone).len() == 0);
    assert(without(w, gone).len() == 0);
}

/// A complete piece stays complete whatever update or departure follows.
pub proof fn lemma_complete_is_final(
    table: Seq<Claim>,
    piece: int,
    update: BitFieldUpdate,
    peer: u64,
    gone: u64,
    verified: int,
)
    requires
        0 <= piece < table.len(),
        table[piece] is Complete,
    ensures
        claim_update(table, update, peer)[piece] is Complete,
        !claims_piece(table, update, piece),
        sweep(table, gone)[piece] is Complete,
        complete(table, verified)[piece] is Complete,
{
}

/// A claim update leaves no claim without an owner.
pub proof fn lemma_claim_keeps_owners(table: Seq<Claim>, update: BitFieldUpdate, peer: u64)
    requires
        table_wf(table),
    ensures
        table_wf(claim_update(table, update, peer)),
{
    let next = claim_update(table, update, peer);
    assert forall|i: int| 0 <= i < next.len() implies (#[trigger] next[i] matches Claim::Claimed(w)
        ==> w.len() > 0) by {
        if next[i] != table[i] {
            assert(next[i] == Claim::Claimed(seq![peer]));
            assert(seq![peer].len() == 1);
        }
    }
}

/// Where an update claims no piece, it gives rise to no task.
pub proof fn lemma_nothing_selected(catalog: Pieces, table: Seq<Claim>, update: BitFieldUpdate)
    requires
        forall|i: int| !claims_piece(table, update, i),
    ensures
        update_tasks(catalog, table, update).len() == 0,
{
    match update {
        BitFieldUpdate::BitField(b) => {
            assert forall|i: int| !selected(table, b@, BATCH_LIMIT as nat, i) by {
                assert(!claims_piece(table, update, i));
            }
            lemma_no_batch_tasks(catalog, table, b@, BATCH_LIMIT as nat, table.len() as int);
        },
        BitFieldUpdate::Piece(p) => {
            assert(!claims_piece(table, update, p as int));
        },
    }
}

proof fn lemma_no_batch_tasks(
    catalog: Pieces,
    table: Seq<Claim>,
    bits: Seq<bool>,
    limit: nat,
    n: int,
)
    requires
        forall|i: int| !selected(table, bits, limit, i),
    ensures
        batch_tasks(catalog, table, bits, limit, n).len() == 0,
    decreases n,
{
    if n > 0 {
        lemma_no_batch_tasks(catalog, table, bits, limit, n - 1);
    }
}

/// Whether `peer` is among `workers`.
pub fn has_worker(workers: &Vec<u64>, peer: u64) -> (r: bool)
    ensures
        r == workers@.contains(peer),
{
    let mut i: usize = 0;
    while i < workers.len()
        invariant
            i <= workers@.len(),
            forall|j: int| 0 <= j < i ==> workers@[j] != peer,
        decreases workers@.len() - i,
    {
        if workers[i] == peer {
            proof {
                assert(workers@[i as int] == peer);
            }
            return true;
        }
        i += 1;
    }
    false
}

/// Copies `workers` without `peer`.
pub fn remove_worker(workers: &Vec<u64>, peer: u64) -> (r: Vec<u64>)
    ensures
        r@ == without(workers@, peer),
{
    let mut out: Vec<u64> = Vec::new();
    let mut i: usize = 0;
    while i < workers.len()
        invariant
            i <= workers@.len(),
            out@ == without(workers@.take(i as int), peer),
        decreases workers@.len() - i,
    {
        proof {
            assert(workers@.take(i + 1).drop_last() == workers@.take(i as int));
        }
        if workers[i] != peer {
            out.push(workers[i]);
        }
        i += 1;
    }
    proof {
        assert(workers@.take(workers@.len() as int) == workers@);
    }
    out
}

/// Drops `peer` from every claim; a piece that `peer` alone had claimed
/// becomes unclaimed.
pub fn release_peer(table: &mut Vec<PieceState>, peer: u64)
    ensures
        final(table)@.len() == old(table)@.len(),
        table_view(final(table)@) == sweep(table_view(old(table)@), peer),
        table_wf(table_view(final(table)@)),
{
    let ghost t0 = table_view(table@);
    let n = table.len();
    let mut i: usize = 0;
    while i < n
        invariant
            i <= n,
            table@.len() == n,
            t0.len() == n,
            forall|j: int| 0 <= j < i ==> (#[trigger] table@[j])@ == release(t0[j], peer),
            forall|j: int| i <= j < n ==> (#[trigger] table@[j])@ == t0[j],
        decreases n - i,
    {
        let rest: Option<Vec<u64>> = match &table[i] {
            PieceState::Claimed(info) => Some(remove_worker(&info.workers, peer)),
            _ => None,
        };
        if let Some(w) = rest {
            if w.len() == 0 {
                table[i] = PieceState::Unclaimed;
            } else {
                table[i] = PieceState::Claimed(PieceInfo { workers: w });
            }
        }
        i += 1;
    }
    proof {
        assert(table_view(table@) =~= sweep(t0, peer));
    }
}

/// Claims for `peer` the first pieces, at most `BATCH_LIMIT`, that `bits`
/// announces and nobody has claimed, and appends their block tasks to
/// `queue`. Returns whether any piece was claimed.
pub fn claim_available(
    table: &mut Vec<PieceState>,
    catalog: &Pieces,
    peer: u64,
    bits: &BitField,
    queue: &mut Vec<PieceToDownload>,
) -> (found: bool)
    requires
        catalog.wf(),
        old(table)@.len() == catalog.num_pieces,
    ensures
        final(table)@.len() == old(table)@.len(),
        table_view(final(table)@) == claim_batch(
            table_view(old(table)@),
            bits@,
            peer,
            BATCH_LIMIT as nat,
        ),
        final(queue)@ == old(queue)@ + batch_tasks(
            *catalog,
            table_view(old(table)@),
            bits@,
            BATCH_LIMIT as nat,
            old(table)@.len() as int,
        ),
        found <==> exists|i: int| selected(table_view(old(table)@), bits@, BATCH_LIMIT as nat, i),
{
    let ghost t0 = table_view(table@);
    let ghost q0 = queue@;
    let ghost limit = BATCH_LIMIT as nat;
    let ghost mut witness: int = 0;
    let n = table.len();
    let mut count: usize = 0;
    let mut i: usize = 0;
    while i < n
        invariant
            i <= n,
            n == catalog.num_pieces,
            catalog.wf(),
            table@.len() == n,
            t0.len() == n,
            limit == BATCH_LIMIT,
            count <= BATCH_LIMIT,
            count < BATCH_LIMIT ==> count == eligible_before(t0, bits@, i as int),
            count == BATCH_LIMIT ==> eligible_before(t0, bits@, i as int) >= limit,
            forall|j: int|
                0 <= j < i ==> (#[trigger] table@[j])@ == if selected(t0, bits@, limit, j) {
                    Claim::Claimed(seq![peer])
                } else {
                    t0[j]
                },
            forall|j: int| i <= j < n ==> (#[trigger] table@[j])@ == t0[j],
            queue@ == q0 + batch_tasks(*catalog, t0, bits@, limit, i as int),
            count > 0 ==> selected(t0, bits@, limit, witness),
            count == 0 ==> forall|j: int| j < i ==> !selected(t0, bits@, limit, j),
        decreases n - i,
    {
        let open = match &table[i] {
            PieceState::Unclaimed => true,
            _ => false,
        };
        let ghost here = batch_tasks(*catalog, t0, bits@, limit, i as int);
        if count < BATCH_LIMIT && open && bits.get_bit(i) {
            proof {
                assert(selected(t0, bits@, limit, i as int));
                witness = i as int;
            }
            catalog.push_tasks(i, queue);
            table[i] = PieceState::Claimed(PieceInfo::new(peer));
            count += 1;
            proof {
                assert(queue@ =~= q0 + (here + catalog.spec_tasks(i)));
            }
        } else {
            proof {
                assert(!selected(t0, bits@, limit, i as int));
                assert(queue@ =~= q0 + (here + Seq::<PieceToDownload>::empty()));
            }
        }
        i += 1;
    }
    proof {
        assert(table_view(table@) =~= claim_batch(t0, bits@, peer, limit));
    }
    count > 0
}

/// Claims piece `piece` for `peer` if it exists and nobody has claimed it,
/// and appends its block tasks to `queue`. Returns whether it was claimed.
pub fn claim_single(
    table: &mut Vec<PieceState>,
    catalog: &Pieces,
    peer: u64,
    piece: usize,
    queue: &mut Vec<PieceToDownload>,
) -> (found: bool)
    requires
        catalog.wf(),
        old(table)@.len() == catalog.num_pieces,
    ensures
        final(table)@.len() == old(table)@.len(),
        found == claimable(table_view(old(table)@), piece as int),
        table_view(final(table)@) == claim_one(table_view(old(table)@), peer, piece as int),
        found ==> final(queue)@ == old(queue)@ + catalog.spec_tasks(piece),
        !found ==> final(queue)@ == old(queue)@,
{
    let ghost t0 = table_view(table@);
    if piece >= table.len() {
        return false;
    }
    let open = match &table[piece] {
        PieceState::Unclaimed => true,
        _ => false,
    };
    if !open {
        return false;
    }
    catalog.push_tasks(piece, queue);
    table[piece] = PieceState::Claimed(PieceInfo::new(peer));
    proof {
        assert(table_view(table@) =~= claim_one(t0, peer, piece as int));
    }
    true
}

} // verus!
