//! The download supervisor: the one owner of the peer registry and of the
//! assignment table, driven by one event at a time.

use std::collections::HashMap;
use vstd::prelude::*;
use vstd::std_specs::hash::*;
use crate::bitfield::{apply_update, has_bit, BitField, BitFieldUpdate};
use crate::claims::{
    claim_available, claim_single, claim_update, claims_piece, release_peer, sweep, table_view,
    table_wf, update_tasks, Claim, PieceState,
};
use crate::integrity::{after_piece, bytes_equal, judge, sha1_digest, sha1_of, PieceOutcome};
use crate::metadata::{parsed_from, Torrent};
use crate::stackvec::texts;
use crate::pieces::{PieceBuffer, PieceToDownload, Pieces};

verus! {

broadcast use vstd::std_specs::hash::group_hash_axioms;

/// What the supervisor keeps about a live peer.
#[derive(Debug)]
pub struct PeerState {
    pub bitfield: BitField,
}

/// An event from a peer session.
#[derive(Debug)]
pub enum PeerMessage {
    AddPeer { id: u64 },
    RemovePeer { id: u64 },
    AddPiece(PieceBuffer),
    UpdateBitfield { id: u64, update: BitFieldUpdate },
}

/// What the caller has to do after an event.
#[derive(Debug)]
pub enum SupervisorAction {
    /// Nothing.
    Idle,
    /// Push `tasks`, in order, on the queue of `peer`, then wake it.
    TasksAvailable { peer: u64, tasks: Vec<PieceToDownload> },
    /// Hand the verified piece to storage.
    Store(PieceBuffer),
    /// Report why the piece was refused and drop its bytes.
    Rejected { piece_index: usize, reason: PieceOutcome },
}

/// Where the supervisor stands in its life.
#[derive(Debug, Clone, Copy, PartialEq, Eq, Structural)]
pub enum Phase {
    Bootstrapping,
    Running,
    Terminal,
}

pub struct TorrentSupervisor {
    metadata: Torrent,
    trackers: Vec<String>,
    pieces_detail: Pieces,
    peers: HashMap<u64, PeerState>,
    pieces: Vec<PieceState>,
    phase: Phase,
}

/// Whether two supervisors have the same descriptor, catalog, discovery
/// sources and phase: what no event changes.
pub open spec fn same_setting(a: TorrentSupervisor, b: TorrentSupervisor) -> bool {
    &&& a.descriptor() == b.descriptor()
    &&& a.catalog() == b.catalog()
    &&& a.sources() == b.sources()
    &&& a.stage() == b.stage()
}

/// The phase after a discovery source has answered with `peers` addresses.
pub open spec fn next_phase(phase: Phase, peers: usize) -> Phase {
    if phase == Phase::Bootstrapping && peers > 0 {
        Phase::Running
    } else {
        phase
    }
}

/// An availability of `n` pieces, none announced.
pub open spec fn no_pieces(n: nat) -> Seq<bool> {
    Seq::new(n, |i: int| false)
}

/// A table of `n` pieces, none claimed.
pub open spec fn all_unclaimed(n: nat) -> Seq<Claim> {
    Seq::new(n, |i: int| Claim::Unclaimed)
}

/// The assignment table after `msg`.
pub open spec fn next_table(
    catalog: Pieces,
    table: Seq<Claim>,
    registry: Map<u64, Seq<bool>>,
    msg: PeerMessage,
) -> Seq<Claim> {
    match msg {
        PeerMessage::AddPeer { id } => table,
        PeerMessage::RemovePeer { id } => sweep(table, id),
        PeerMessage::AddPiece(piece) => after_piece(
            table,
            piece.piece_index as int,
            judge(catalog.spec_hashes(), table, piece.piece_index as int, sha1_digest(piece.buf@)),
        ),
        PeerMessage::UpdateBitfield { id, update } => if registry.contains_key(id) {
            claim_update(table, update, id)
        } else {
            table
        },
    }
}

/// The peer registry after `msg`: a joining peer starts with nothing (and
/// replaces an entry of the same id), a leaving peer is dropped, an update
/// from a known peer is applied to its availability.
pub open spec fn next_registry(
    num_pieces: nat,
    registry: Map<u64, Seq<bool>>,
    msg: PeerMessage,
) -> Map<u64, Seq<bool>> {
    match msg {
        PeerMessage::AddPeer { id } => registry.insert(id, no_pieces(num_pieces)),
        PeerMessage::RemovePeer { id } => registry.remove(id),
        PeerMessage::AddPiece(piece) => registry,
        PeerMessage::UpdateBitfield { id, update } => if registry.contains_key(id) {
            registry.insert(id, recorded(num_pieces, registry[id], update))
        } else {
            registry
        },
    }
}

/// A peer's availability after its update has been recorded: as
/// `apply_update` says, but a single piece that the catalog does not have is
/// not recorded.
pub open spec fn recorded(num_pieces: nat, bits: Seq<bool>, update: BitFieldUpdate) -> Seq<bool> {
    match update {
        BitFieldUpdate::Piece(p) if p >= num_pieces => bits,
        _ => apply_update(bits, update),
    }
}

/// Whether `action` is the one that `msg` calls for in the given state.
pub open spec fn action_for(
    catalog: Pieces,
    table: Seq<Claim>,
    registry: Map<u64, Seq<bool>>,
    msg: PeerMessage,
    action: SupervisorAction,
) -> bool {
    match msg {
        PeerMessage::AddPeer { id } => action is Idle,
        PeerMessage::RemovePeer { id } => action is Idle,
        PeerMessage::AddPiece(piece) => {
            let outcome = judge(
                catalog.spec_hashes(),
                table,
                piece.piece_index as int,
                sha1_digest(piece.buf@),
            );
            if outcome is Verified {
                action matches SupervisorAction::Store(p) && p.piece_index == piece.piece_index
                    && p.buf@ == piece.buf@
            } else {
                action matches SupervisorAction::Rejected { piece_index, reason } && piece_index
                    == piece.piece_index && reason == outcome
            }
        },
        PeerMessage::UpdateBitfield { id, update } => {
            if registry.contains_key(id) && exists|i: int| claims_piece(table, update, i) {
                action matches SupervisorAction::TasksAvailable { peer, tasks } && peer == id
                    && tasks@ == update_tasks(catalog, table, update)
            } else {
                action is Idle
            }
        },
    }
}

/// Only a verified piece is handed to storage: where the action for an
/// event is `Store`, the event delivered a piece of the catalog, not yet
/// complete, whose content hashes to the catalog's hash, and the stored
/// bytes are the delivered ones.
pub proof fn lemma_stored_piece_is_verified(
    catalog: Pieces,
    table: Seq<Claim>,
    registry: Map<u64, Seq<bool>>,
    msg: PeerMessage,
    action: SupervisorAction,
)
    requires
        action_for(catalog, table, registry, msg, action),
        action is Store,
    ensures
        msg matches PeerMessage::AddPiece(piece) && piece.piece_index < table.len()
            && piece.piece_index < catalog.spec_hashes().len() && sha1_digest(piece.buf@)
            == catalog.spec_hashes()[piece.piece_index as int] && !(table[piece.piece_index as int] is Complete)
            && (action matches SupervisorAction::Store(p) && p.buf@ == piece.buf@ && p.piece_index
            == piece.piece_index),
{
}

impl TorrentSupervisor {
    /// The catalog.
    pub closed spec fn catalog(&self) -> Pieces {
        self.pieces_detail
    }

    /// The assignment table.
    pub closed spec fn table(&self) -> Seq<Claim> {
        table_view(self.pieces@)
    }

    /// The availability of each live peer.
    pub closed spec fn registry(&self) -> Map<u64, Seq<bool>> {
        Map::new(|k: u64| self.peers@.contains_key(k), |k: u64| self.peers@[k].bitfield@)
    }

    /// The discovery sources collected so far, as normalised URLs.
    pub closed spec fn sources(&self) -> Seq<Seq<char>> {
        texts(self.trackers@)
    }

    pub closed spec fn descriptor(&self) -> Torrent {
        self.metadata
    }

    pub closed spec fn stage(&self) -> Phase {
        self.phase
    }

    /// The invariant: a valid catalog, one slot per piece, and no claim
    /// without an owner.
    pub open spec fn wf(&self) -> bool {
        &&& self.catalog().wf()
        &&& self.table().len() == self.catalog().num_pieces
        &&& table_wf(self.table())
    }

    /// A supervisor for `torrent`: no peers, no sources yet, every piece
    /// unclaimed.
    pub fn new(torrent: Torrent) -> (r: TorrentSupervisor)
        requires
            torrent.valid(),
        ensures
            r.wf(),
            r.descriptor() == torrent,
            r.catalog().total_length == torrent.spec_total_size(),
            r.catalog().piece_length == torrent.meta.info.piece_length,
            r.catalog().block_size == crate::pieces::BLOCK_SIZE,
            r.catalog().spec_hashes() == torrent.spec_sha_pieces(),
            r.table() == all_unclaimed(r.catalog().num_pieces as nat),
            r.registry() == Map::<u64, Seq<bool>>::empty(),
            r.sources().len() == 0,
            r.stage() == Phase::Bootstrapping,
    {
        let pieces_detail = Pieces::from_torrent(&torrent);
        let num_pieces = pieces_detail.num_pieces;
        let mut pieces: Vec<PieceState> = Vec::new();
        let mut i: usize = 0;
        while i < num_pieces
            invariant
                i <= num_pieces,
                pieces@.len() == i,
                forall|j: int| 0 <= j < i ==> (#[trigger] pieces@[j])@ is Unclaimed,
            decreases num_pieces - i,
        {
            pieces.push(PieceState::Unclaimed);
            i += 1;
        }
        let r = TorrentSupervisor {
            metadata: torrent,
            trackers: Vec::new(),
            pieces_detail,
            peers: HashMap::new(),
            pieces,
            phase: Phase::Bootstrapping,
        };
        proof {
            assert(r.table() =~= all_unclaimed(num_pieces as nat));
            assert(r.registry() =~= Map::<u64, Seq<bool>>::empty());
        }
        r
    }

    /// Collects the discovery sources of the descriptor: its announce URLs
    /// in order, those that are no valid URL left out.
    pub fn collect_trackers(&mut self)
        requires
            old(self).wf(),
        ensures
            final(self).wf(),
            final(self).descriptor() == old(self).descriptor(),
            final(self).catalog() == old(self).catalog(),
            final(self).stage() == old(self).stage(),
            final(self).table() == old(self).table(),
            final(self).registry() == old(self).registry(),
            final(self).sources() == parsed_from(old(self).descriptor().spec_urls(), 0),
    {
        let mut urls = self.metadata.iter_urls();
        let ghost all = urls.pending();
        let mut trackers: Vec<String> = Vec::new();
        loop
            invariant
                texts(trackers@) + urls.pending() == all,
            ensures
                texts(trackers@) == all,
            decreases urls.pending().len(),
        {
            let ghost before = texts(trackers@);
            let ghost pending = urls.pending();
            match urls.next() {
                Some(url) => {
                    trackers.push(url);
                    proof {
                        assert(texts(trackers@) =~= before.push(pending[0]));
                        assert(texts(trackers@) + urls.pending() =~= before + pending);
                    }
                },
                None => {
                    proof {
                        assert(texts(trackers@) =~= all);
                    }
                    break ;
                },
            }
        }
        self.trackers = trackers;
    }

    /// The discovery source to ask at the `attempt`-th try: the sources are
    /// asked in order, and again from the first after the last. `None` when
    /// there is nothing to ask: no source, or bootstrapping is over.
    pub fn find_tracker(&self, attempt: usize) -> (r: Option<&String>)
        ensures
            r.is_some() == (self.stage() == Phase::Bootstrapping && self.sources().len() > 0),
            r matches Some(url) ==> url@ == self.sources()[attempt as int % self.sources().len() as int],
    {
        if self.phase != Phase::Bootstrapping || self.trackers.len() == 0 {
            return None;
        }
        Some(&self.trackers[attempt % self.trackers.len()])
    }

    /// Takes note of a discovery source's answer of `peers` addresses.
    /// Bootstrapping ends with the first answer that is not empty; returns
    /// whether the supervisor is running afterwards.
    pub fn peers_found(&mut self, peers: usize) -> (running: bool)
        requires
            old(self).wf(),
        ensures
            final(self).wf(),
            final(self).descriptor() == old(self).descriptor(),
            final(self).catalog() == old(self).catalog(),
            final(self).sources() == old(self).sources(),
            final(self).table() == old(self).table(),
            final(self).registry() == old(self).registry(),
            final(self).stage() == next_phase(old(self).stage(), peers),
            running == (final(self).stage() == Phase::Running),
    {
        if self.phase == Phase::Bootstrapping && peers > 0 {
            self.phase = Phase::Running;
        }
        self.phase == Phase::Running
    }

    /// The event queue has ended: the supervisor is done.
    pub fn finish(&mut self)
        requires
            old(self).wf(),
        ensures
            final(self).wf(),
            final(self).descriptor() == old(self).descriptor(),
            final(self).catalog() == old(self).catalog(),
            final(self).sources() == old(self).sources(),
            final(self).table() == old(self).table(),
            final(self).registry() == old(self).registry(),
            final(self).stage() == Phase::Terminal,
    {
        self.phase = Phase::Terminal;
    }

    pub fn phase(&self) -> (r: Phase)
        ensures
            r == self.stage(),
    {
        self.phase
    }

    pub fn pieces_detail(&self) -> (r: &Pieces)
        ensures
            *r == self.catalog(),
    {
        &self.pieces_detail
    }

    pub fn metadata(&self) -> (r: &Torrent)
        ensures
            *r == self.descriptor(),
    {
        &self.metadata
    }

    pub fn trackers(&self) -> (r: &Vec<String>)
        ensures
            texts(r@) == self.sources(),
    {
        &self.trackers
    }

    /// Whether `id` is a live peer.
    pub fn has_peer(&self, id: u64) -> (r: bool)
        ensures
            r == self.registry().contains_key(id),
    {
        self.peers.contains_key(&id)
    }

    /// Whether the live peer `id` has announced piece `index`.
    pub fn peer_has_piece(&self, id: u64, index: usize) -> (r: bool)
        ensures
            r == (self.registry().contains_key(id) && has_bit(self.registry()[id], index as int)),
    {
        match self.peers.get(&id) {
            Some(state) => state.bitfield.get_bit(index),
            None => false,
        }
    }

    /// Whether piece `index` exists and is claimed.
    pub fn is_claimed(&self, index: usize) -> (r: bool)
        ensures
            r == (index < self.table().len() && self.table()[index as int] is Claimed),
    {
        index < self.pieces.len() && match &self.pieces[index] {
            PieceState::Claimed(_) => true,
            _ => false,
        }
    }

    /// Whether piece `index` exists and is complete.
    pub fn is_complete(&self, index: usize) -> (r: bool)
        ensures
            r == (index < self.table().len() && self.table()[index as int] is Complete),
    {
        index < self.pieces.len() && match &self.pieces[index] {
            PieceState::Complete => true,
            _ => false,
        }
    }

    /// Whether piece `index` exists and `peer` is among those that claim it.
    pub fn is_claimed_by(&self, index: usize, peer: u64) -> (r: bool)
        ensures
            r == (index < self.table().len() && (self.table()[index as int] matches Claim::Claimed(w)
                && w.contains(peer))),
    {
        if index >= self.pieces.len() {
            return false;
        }
        match &self.pieces[index] {
            PieceState::Claimed(info) => crate::claims::has_worker(&info.workers, peer),
            _ => false,
        }
    }

    /// Registers a peer that has announced nothing yet. An entry of the
    /// same id is replaced.
    pub fn add_peer(&mut self, id: u64)
        requires
            old(self).wf(),
        ensures
            final(self).wf(),
            same_setting(*final(self), *old(self)),
            final(self).table() == old(self).table(),
            final(self).registry() == old(self).registry().insert(
                id,
                no_pieces(old(self).catalog().num_pieces as nat),
            ),
    {
        let bitfield = BitField::new(self.pieces_detail.num_pieces);
        proof {
            assert(bitfield@ =~= no_pieces(self.pieces_detail.num_pieces as nat));
        }
        self.peers.insert(id, PeerState { bitfield });
        proof {
            assert(self.registry() =~= old(self).registry().insert(
                id,
                no_pieces(old(self).catalog().num_pieces as nat),
            ));
        }
    }

    /// Forgets a peer and drops it from every claim, so that a piece it
    /// alone had claimed can be claimed again.
    pub fn remove_peer(&mut self, id: u64)
        requires
            old(self).wf(),
        ensures
            final(self).wf(),
            same_setting(*final(self), *old(self)),
            final(self).table() == sweep(old(self).table(), id),
            final(self).registry() == old(self).registry().remove(id),
    {
        self.peers.remove(&id);
        release_peer(&mut self.pieces, id);
        proof {
            assert(self.registry() =~= old(self).registry().remove(id));
        }
    }

    /// Records an availability update of a known peer: a full vector
    /// replaces what was recorded, a single piece of the catalog is added to
    /// it. An unknown peer's update, and a piece that the catalog does not
    /// have, change nothing.
    pub fn update_availability(&mut self, id: u64, update: BitFieldUpdate)
        requires
            old(self).wf(),
        ensures
            final(self).wf(),
            same_setting(*final(self), *old(self)),
            final(self).table() == old(self).table(),
            final(self).registry() == next_registry(
                old(self).catalog().num_pieces as nat,
                old(self).registry(),
                PeerMessage::UpdateBitfield { id, update },
            ),
    {
        let current = match self.peers.get(&id) {
            Some(state) => state.bitfield.duplicate(),
            None => {
                return ;
            },
        };
        let mut bitfield = current;
        let known = match &update {
            BitFieldUpdate::Piece(p) => *p < self.pieces_detail.num_pieces,
            BitFieldUpdate::BitField(_) => true,
        };
        if known {
            bitfield.update(update);
        }
        self.peers.insert(id, PeerState { bitfield });
        proof {
            assert(self.registry() =~= old(self).registry().insert(
                id,
                recorded(
                    old(self).catalog().num_pieces as nat,
                    old(self).registry()[id],
                    update,
                ),
            ));
        }
    }

    /// Runs the selection policy for an update of `peer`: claims what the
    /// update makes claimable (for a full vector the first unclaimed pieces
    /// it announces, twenty at most; for a single piece that piece), and
    /// appends the block tasks of each claimed piece to `queue`. Returns
    /// whether a piece was claimed. An unknown peer claims nothing.
    pub fn find_pieces_for_peer(
        &mut self,
        peer: u64,
        update: &BitFieldUpdate,
        queue: &mut Vec<PieceToDownload>,
    ) -> (found: bool)
        requires
            old(self).wf(),
        ensures
            final(self).wf(),
            same_setting(*final(self), *old(self)),
            final(self).registry() == old(self).registry(),
            final(self).table() == next_table(
                old(self).catalog(),
                old(self).table(),
                old(self).registry(),
                PeerMessage::UpdateBitfield { id: peer, update: *update },
            ),
            found <==> old(self).registry().contains_key(peer) && exists|i: int|
                claims_piece(old(self).table(), *update, i),
            final(queue)@ == if found {
                old(queue)@ + update_tasks(old(self).catalog(), old(self).table(), *update)
            } else {
                old(queue)@
            },
    {
        if !self.peers.contains_key(&peer) {
            return false;
        }
        let ghost t0 = self.table();
        let found = match update {
            BitFieldUpdate::BitField(bitfield) => claim_available(
                &mut self.pieces,
                &self.pieces_detail,
                peer,
                bitfield,
                queue,
            ),
            BitFieldUpdate::Piece(piece) => claim_single(
                &mut self.pieces,
                &self.pieces_detail,
                peer,
                *piece,
                queue,
            ),
        };
        proof {
            crate::claims::lemma_claim_keeps_owners(t0, *update, peer);
            match update {
                BitFieldUpdate::Piece(p) => {
                    if found {
                        assert(claims_piece(t0, *update, *p as int));
                    }
                },
                BitFieldUpdate::BitField(b) => {
                    let limit = crate::claims::BATCH_LIMIT as nat;
                    if found {
                        let w = choose|i: int| crate::claims::selected(t0, b@, limit, i);
                        assert(claims_piece(t0, *update, w));
                    } else {
                        assert forall|i: int| !claims_piece(t0, *update, i) by {
                            assert(!crate::claims::selected(t0, b@, limit, i));
                        }
                    }
                },
            }
            if !found {
                crate::claims::lemma_nothing_selected(self.pieces_detail, t0, *update);
                assert(queue@ =~= old(queue)@);
            }
        }
        found
    }

    /// Judges a completed piece whose content hashes to `digest`, and marks
    /// the piece complete if it is verified.
    pub fn check_piece(&mut self, index: usize, digest: &Vec<u8>) -> (outcome: PieceOutcome)
        requires
            old(self).wf(),
        ensures
            final(self).wf(),
            same_setting(*final(self), *old(self)),
            final(self).registry() == old(self).registry(),
            outcome == judge(
                old(self).catalog().spec_hashes(),
                old(self).table(),
                index as int,
                digest@,
            ),
            final(self).table() == after_piece(old(self).table(), index as int, outcome),
    {
        let expected = match self.pieces_detail.expected_hash(index) {
            Some(h) => h,
            None => {
                return PieceOutcome::UnknownPiece;
            },
        };
        if !bytes_equal(digest, &**expected) {
            return PieceOutcome::Mismatch;
        }
        let done = match &self.pieces[index] {
            PieceState::Complete => true,
            _ => false,
        };
        if done {
            return PieceOutcome::AlreadyComplete;
        }
        self.pieces[index] = PieceState::Complete;
        proof {
            assert(self.table() =~= after_piece(
                old(self).table(),
                index as int,
                PieceOutcome::Verified,
            ));
        }
        PieceOutcome::Verified
    }

    /// Handles one event: updates the registry and the table, and says what
    /// is to be done outside.
    pub fn process_cmd(&mut self, msg: PeerMessage) -> (action: SupervisorAction)
        requires
            old(self).wf(),
        ensures
            final(self).wf(),
            same_setting(*final(self), *old(self)),
            final(self).table() == next_table(
                old(self).catalog(),
                old(self).table(),
                old(self).registry(),
                msg,
            ),
            final(self).registry() == next_registry(
                old(self).catalog().num_pieces as nat,
                old(self).registry(),
                msg,
            ),
            action_for(old(self).catalog(), old(self).table(), old(self).registry(), msg, action),
    {
        match msg {
            PeerMessage::UpdateBitfield { id, update } => {
                let mut tasks: Vec<PieceToDownload> = Vec::new();
                let found = self.find_pieces_for_peer(id, &update, &mut tasks);
                self.update_availability(id, update);
                if found {
                    proof {
                        assert(tasks@ =~= update_tasks(
                            old(self).catalog(),
                            old(self).table(),
                            update,
                        ));
                    }
                    SupervisorAction::TasksAvailable { peer: id, tasks }
                } else {
                    SupervisorAction::Idle
                }
            },
            PeerMessage::RemovePeer { id } => {
                self.remove_peer(id);
                SupervisorAction::Idle
            },
            PeerMessage::AddPeer { id } => {
                self.add_peer(id);
                SupervisorAction::Idle
            },
            PeerMessage::AddPiece(piece) => {
                let digest = sha1_of(&piece.buf);
                let outcome = self.check_piece(piece.piece_index, &digest);
                match outcome {
                    PieceOutcome::Verified => SupervisorAction::Store(piece),
                    _ => SupervisorAction::Rejected {
                        piece_index: piece.piece_index,
                        reason: outcome,
                    },
                }
            },
        }
    }
}

} // verus!
