use torrent_supervisor::bitfield::{BitField, BitFieldUpdate};
use torrent_supervisor::integrity::PieceOutcome;
use torrent_supervisor::metadata::{InfoFile, MetaFile, MetaInfo, MetaTorrent, Torrent};
use torrent_supervisor::pieces::{PieceBuffer, PieceToDownload, Pieces, BLOCK_SIZE};
use torrent_supervisor::stackvec::StackVec;
use torrent_supervisor::supervisor::{PeerMessage, Phase, SupervisorAction, TorrentSupervisor};
use std::sync::Arc;

// SHA-1 of the three bytes "abc".
const ABC: [u8; 20] = [
    0xa9, 0x99, 0x3e, 0x36, 0x47, 0x06, 0x81, 0x6a, 0xba, 0x3e, 0x25, 0x71, 0x78, 0x50, 0xc2, 0x6c,
    0x9c, 0xd0, 0xd8, 0x9d,
];

fn torrent(total: i64, piece_length: i64, hashes: Vec<[u8; 20]>) -> Torrent {
    let mut pieces = Vec::new();
    for h in &hashes {
        pieces.extend_from_slice(h);
    }
    Torrent {
        meta: MetaTorrent {
            announce: String::from("http://tracker.example.com/announce"),
            info: MetaInfo {
                pieces,
                piece_length,
                private: None,
                files: InfoFile::Single { name: String::from("file"), length: total, md5sum: None },
            },
            announce_list: None,
            creation_date: None,
            comment: None,
            created_by: None,
            encoding: None,
        },
        info_hash: Arc::new(vec![0; 20]),
    }
}

fn supervisor(num_pieces: usize) -> TorrentSupervisor {
    let mut hashes = vec![[0x11u8; 20]; num_pieces];
    if num_pieces > 0 {
        hashes[0] = ABC;
    }
    let t = torrent((num_pieces * 16384) as i64, 16384, hashes);
    assert!(t.is_valid());
    TorrentSupervisor::new(t)
}

fn full(bits: Vec<bool>) -> BitFieldUpdate {
    BitFieldUpdate::BitField(BitField::from_bools(bits))
}

fn claimed(s: &TorrentSupervisor, n: usize) -> Vec<bool> {
    (0..n).map(|i| s.is_claimed(i)).collect()
}

#[test]
fn full_update_claims_and_departure_releases() {
    let mut s = supervisor(2);
    assert!(matches!(s.process_cmd(PeerMessage::AddPeer { id: 1 }), SupervisorAction::Idle));
    let action = s.process_cmd(PeerMessage::UpdateBitfield { id: 1, update: full(vec![true, false]) });
    match action {
        SupervisorAction::TasksAvailable { peer, tasks } => {
            assert_eq!(peer, 1);
            assert_eq!(tasks, vec![PieceToDownload { piece: 0, start: 0, size: 16384 }]);
        }
        other => panic!("unexpected action {:?}", other),
    }
    assert!(s.is_claimed(0));
    assert!(s.is_claimed_by(0, 1));
    assert!(!s.is_claimed(1));
    assert!(s.peer_has_piece(1, 0));
    assert!(!s.peer_has_piece(1, 1));
    assert!(matches!(s.process_cmd(PeerMessage::RemovePeer { id: 1 }), SupervisorAction::Idle));
    assert!(!s.is_claimed(0));
    assert!(!s.has_peer(1));
}

#[test]
fn single_have_out_of_range_is_rejected() {
    let mut s = supervisor(3);
    s.process_cmd(PeerMessage::AddPeer { id: 2 });
    let action = s.process_cmd(PeerMessage::UpdateBitfield { id: 2, update: BitFieldUpdate::Piece(5) });
    assert!(matches!(action, SupervisorAction::Idle));
    assert_eq!(claimed(&s, 6), vec![false; 6]);
    for i in 0..6 {
        assert!(!s.peer_has_piece(2, i));
    }
    let mut queue = Vec::new();
    assert!(!s.find_pieces_for_peer(2, &BitFieldUpdate::Piece(5), &mut queue));
    assert!(queue.is_empty());
}

#[test]
fn matching_piece_completes_and_mismatch_changes_nothing() {
    let mut s = supervisor(2);
    s.process_cmd(PeerMessage::AddPeer { id: 1 });
    s.process_cmd(PeerMessage::UpdateBitfield { id: 1, update: full(vec![true, true]) });
    let good = PieceBuffer { piece_index: 0, buf: b"abc".to_vec() };
    match s.process_cmd(PeerMessage::AddPiece(good)) {
        SupervisorAction::Store(p) => {
            assert_eq!(p.piece_index, 0);
            assert_eq!(p.buf, b"abc".to_vec());
        }
        other => panic!("unexpected action {:?}", other),
    }
    assert!(s.is_complete(0));
    assert!(!s.is_claimed(0));
    let bad = PieceBuffer { piece_index: 1, buf: b"abc".to_vec() };
    match s.process_cmd(PeerMessage::AddPiece(bad)) {
        SupervisorAction::Rejected { piece_index, reason } => {
            assert_eq!(piece_index, 1);
            assert_eq!(reason, PieceOutcome::Mismatch);
        }
        other => panic!("unexpected action {:?}", other),
    }
    assert!(s.is_claimed(1));
    assert!(!s.is_complete(1));
}

#[test]
fn digest_is_not_the_content_itself() {
    // A catalog whose hash for piece 0 is the content's own bytes must not
    // accept that content.
    let mut content = [0u8; 20];
    content[0] = 7;
    let t = torrent(16384, 16384, vec![content]);
    let mut s = TorrentSupervisor::new(t);
    let action = s.process_cmd(PeerMessage::AddPiece(PieceBuffer { piece_index: 0, buf: content.to_vec() }));
    assert!(matches!(
        action,
        SupervisorAction::Rejected { piece_index: 0, reason: PieceOutcome::Mismatch }
    ));
    assert!(!s.is_complete(0));
}

#[test]
fn unknown_piece_is_reported() {
    let mut s = supervisor(2);
    let action = s.process_cmd(PeerMessage::AddPiece(PieceBuffer { piece_index: 2, buf: b"abc".to_vec() }));
    assert!(matches!(
        action,
        SupervisorAction::Rejected { piece_index: 2, reason: PieceOutcome::UnknownPiece }
    ));
}

#[test]
fn complete_piece_is_verified_once_and_never_claimed_again() {
    let mut s = supervisor(2);
    s.process_cmd(PeerMessage::AddPeer { id: 1 });
    let first = s.process_cmd(PeerMessage::AddPiece(PieceBuffer { piece_index: 0, buf: b"abc".to_vec() }));
    assert!(matches!(first, SupervisorAction::Store(_)));
    let second = s.process_cmd(PeerMessage::AddPiece(PieceBuffer { piece_index: 0, buf: b"abc".to_vec() }));
    assert!(matches!(
        second,
        SupervisorAction::Rejected { piece_index: 0, reason: PieceOutcome::AlreadyComplete }
    ));
    let action = s.process_cmd(PeerMessage::UpdateBitfield { id: 1, update: BitFieldUpdate::Piece(0) });
    assert!(matches!(action, SupervisorAction::Idle));
    assert!(s.is_complete(0));
    let action = s.process_cmd(PeerMessage::UpdateBitfield { id: 1, update: full(vec![true, true]) });
    match action {
        SupervisorAction::TasksAvailable { tasks, .. } => {
            assert_eq!(tasks, vec![PieceToDownload { piece: 1, start: 0, size: 16384 }]);
        }
        other => panic!("unexpected action {:?}", other),
    }
    s.process_cmd(PeerMessage::RemovePeer { id: 1 });
    assert!(s.is_complete(0));
    assert!(!s.is_claimed(1));
}

#[test]
fn full_update_claims_at_most_twenty() {
    let mut s = supervisor(25);
    s.process_cmd(PeerMessage::AddPeer { id: 9 });
    let action = s.process_cmd(PeerMessage::UpdateBitfield { id: 9, update: full(vec![true; 25]) });
    match action {
        SupervisorAction::TasksAvailable { peer, tasks } => {
            assert_eq!(peer, 9);
            assert_eq!(tasks.len(), 20);
            for (k, t) in tasks.iter().enumerate() {
                assert_eq!(*t, PieceToDownload { piece: k, start: 0, size: 16384 });
            }
        }
        other => panic!("unexpected action {:?}", other),
    }
    let mut expected = vec![true; 20];
    expected.extend(vec![false; 5]);
    assert_eq!(claimed(&s, 25), expected);
    let action = s.process_cmd(PeerMessage::UpdateBitfield { id: 9, update: full(vec![true; 25]) });
    match action {
        SupervisorAction::TasksAvailable { tasks, .. } => {
            assert_eq!(tasks.len(), 5);
            assert_eq!(tasks[0].piece, 20);
            assert_eq!(tasks[4].piece, 24);
        }
        other => panic!("unexpected action {:?}", other),
    }
    assert_eq!(claimed(&s, 25), vec![true; 25]);
    let action = s.process_cmd(PeerMessage::UpdateBitfield { id: 9, update: full(vec![true; 25]) });
    assert!(matches!(action, SupervisorAction::Idle));
}

#[test]
fn claimed_piece_is_not_claimed_twice() {
    let mut s = supervisor(3);
    s.process_cmd(PeerMessage::AddPeer { id: 1 });
    s.process_cmd(PeerMessage::AddPeer { id: 2 });
    s.process_cmd(PeerMessage::UpdateBitfield { id: 1, update: BitFieldUpdate::Piece(1) });
    assert!(s.is_claimed_by(1, 1));
    let action = s.process_cmd(PeerMessage::UpdateBitfield { id: 2, update: BitFieldUpdate::Piece(1) });
    assert!(matches!(action, SupervisorAction::Idle));
    assert!(s.is_claimed_by(1, 1));
    assert!(!s.is_claimed_by(1, 2));
    assert!(s.peer_has_piece(2, 1));
    let action = s.process_cmd(PeerMessage::UpdateBitfield { id: 2, update: full(vec![true, true, true, true]) });
    match action {
        SupervisorAction::TasksAvailable { peer, tasks } => {
            assert_eq!(peer, 2);
            assert_eq!(tasks.iter().map(|t| t.piece).collect::<Vec<usize>>(), vec![0, 2]);
        }
        other => panic!("unexpected action {:?}", other),
    }
    assert!(s.is_claimed_by(1, 1));
    assert!(!s.is_claimed(3));
}

#[test]
fn released_piece_can_be_claimed_by_another_peer() {
    let mut s = supervisor(2);
    s.process_cmd(PeerMessage::AddPeer { id: 1 });
    s.process_cmd(PeerMessage::AddPeer { id: 2 });
    s.process_cmd(PeerMessage::UpdateBitfield { id: 1, update: full(vec![true, true]) });
    let action = s.process_cmd(PeerMessage::UpdateBitfield { id: 2, update: full(vec![true, true]) });
    assert!(matches!(action, SupervisorAction::Idle));
    s.process_cmd(PeerMessage::RemovePeer { id: 1 });
    assert_eq!(claimed(&s, 2), vec![false, false]);
    let action = s.process_cmd(PeerMessage::UpdateBitfield { id: 2, update: BitFieldUpdate::Piece(1) });
    match action {
        SupervisorAction::TasksAvailable { peer, tasks } => {
            assert_eq!(peer, 2);
            assert_eq!(tasks, vec![PieceToDownload { piece: 1, start: 0, size: 16384 }]);
        }
        other => panic!("unexpected action {:?}", other),
    }
    assert!(s.is_claimed_by(1, 2));
}

#[test]
fn unknown_peer_changes_nothing() {
    let mut s = supervisor(2);
    let action = s.process_cmd(PeerMessage::UpdateBitfield { id: 3, update: full(vec![true, true]) });
    assert!(matches!(action, SupervisorAction::Idle));
    assert_eq!(claimed(&s, 2), vec![false, false]);
    assert!(!s.has_peer(3));
    s.process_cmd(PeerMessage::RemovePeer { id: 3 });
    assert!(!s.has_peer(3));
}

#[test]
fn joining_again_replaces_the_entry() {
    let mut s = supervisor(2);
    s.process_cmd(PeerMessage::AddPeer { id: 1 });
    s.process_cmd(PeerMessage::UpdateBitfield { id: 1, update: BitFieldUpdate::Piece(1) });
    assert!(s.peer_has_piece(1, 1));
    s.process_cmd(PeerMessage::AddPeer { id: 1 });
    assert!(s.has_peer(1));
    assert!(!s.peer_has_piece(1, 1));
    assert!(s.is_claimed_by(1, 1));
}

#[test]
fn block_tasks_cover_a_short_last_piece() {
    // 2 full blocks in piece 0; piece 1 holds 16384 + 100 bytes.
    let total = 32768 + 16384 + 100;
    let catalog = Pieces::new(total, 32768, BLOCK_SIZE, vec![Arc::new(vec![0u8; 20]), Arc::new(vec![1u8; 20])]).unwrap();
    assert_eq!(catalog.num_pieces(), 2);
    assert_eq!(catalog.piece_len(0), 32768);
    assert_eq!(catalog.piece_len(1), 16484);
    assert_eq!(catalog.nblocks(0), 2);
    assert_eq!(catalog.nblocks(1), 2);
    let mut queue = Vec::new();
    catalog.push_tasks(0, &mut queue);
    catalog.push_tasks(1, &mut queue);
    assert_eq!(
        queue,
        vec![
            PieceToDownload { piece: 0, start: 0, size: 16384 },
            PieceToDownload { piece: 0, start: 16384, size: 16384 },
            PieceToDownload { piece: 1, start: 0, size: 16384 },
            PieceToDownload { piece: 1, start: 16384, size: 100 },
        ]
    );
    assert_eq!(catalog.expected_hash(1), Some(&Arc::new(vec![1u8; 20])));
    assert_eq!(catalog.expected_hash(2), None);
}

#[test]
fn catalog_rejects_bad_geometry() {
    assert!(Pieces::new(100, 0, BLOCK_SIZE, vec![]).is_none());
    assert!(Pieces::new(100, 10, 0, vec![Arc::new(vec![0u8; 20]); 10]).is_none());
    assert!(Pieces::new(100, 10, BLOCK_SIZE, vec![Arc::new(vec![0u8; 20]); 9]).is_none());
    assert!(Pieces::new(101, 10, BLOCK_SIZE, vec![Arc::new(vec![0u8; 20]); 11]).is_some());
    assert!(Pieces::new(0, 10, BLOCK_SIZE, vec![]).is_some());
}

#[test]
fn bootstrapping_walks_the_sources_in_turn() {
    let mut t = torrent(16384, 16384, vec![ABC]);
    t.meta.announce_list = Some(StackVec::from_tiers(vec![
        StackVec::from_strings(vec![String::from("HTTP://A.example.com:80/x"), String::from("not a url")]),
        StackVec::from_strings(vec![]),
        StackVec::from_strings(vec![String::from("udp://b.example.com:6969")]),
    ]));
    let mut s = TorrentSupervisor::new(t);
    assert_eq!(s.phase(), Phase::Bootstrapping);
    assert!(s.find_tracker(0).is_none());
    s.collect_trackers();
    assert_eq!(
        s.trackers(),
        &vec![
            String::from("http://a.example.com/x"),
            String::from("udp://b.example.com:6969"),
            String::from("http://tracker.example.com/announce"),
        ]
    );
    assert_eq!(s.find_tracker(0).unwrap(), "http://a.example.com/x");
    assert_eq!(s.find_tracker(2).unwrap(), "http://tracker.example.com/announce");
    assert_eq!(s.find_tracker(4).unwrap(), "udp://b.example.com:6969");
    assert!(!s.peers_found(0));
    assert_eq!(s.phase(), Phase::Bootstrapping);
    assert!(s.peers_found(3));
    assert_eq!(s.phase(), Phase::Running);
    assert!(s.find_tracker(0).is_none());
    s.finish();
    assert_eq!(s.phase(), Phase::Terminal);
    assert!(!s.peers_found(1));
}

#[test]
fn multi_file_total_and_hashes() {
    let mut t = torrent(0, 10, vec![[1u8; 20], [2u8; 20], [3u8; 20]]);
    t.meta.info.files = InfoFile::Multiple {
        name: String::from("dir"),
        files: StackVec::from_files(vec![
            MetaFile { length: 7, md5sum: None, path: StackVec::from_strings(vec![String::from("a")]) },
            MetaFile { length: 0, md5sum: None, path: StackVec::from_strings(vec![String::from("b")]) },
            MetaFile { length: 14, md5sum: None, path: StackVec::from_strings(vec![String::from("c")]) },
        ]),
    };
    assert_eq!(t.checked_total_size(), Some(21));
    assert_eq!(t.files_total_size(), 21);
    assert!(t.is_valid());
    t.meta.info.pieces.push(9);
    assert_eq!(
        t.sha_pieces(),
        vec![Arc::new(vec![1u8; 20]), Arc::new(vec![2u8; 20]), Arc::new(vec![3u8; 20])]
    );
    assert!(!t.is_valid());
}

#[test]
fn invalid_descriptors_are_recognised() {
    assert!(!torrent(16384, 0, vec![ABC]).is_valid());
    assert!(!torrent(16384, -1, vec![ABC]).is_valid());
    assert!(!torrent(-1, 16384, vec![]).is_valid());
    assert!(!torrent(16385, 16384, vec![ABC]).is_valid());
    assert!(torrent(16385, 16384, vec![ABC, ABC]).is_valid());
    assert_eq!(torrent(-1, 16384, vec![]).checked_total_size(), None);
    let mut t = torrent(0, 10, vec![]);
    t.meta.info.files = InfoFile::Multiple {
        name: String::from("dir"),
        files: StackVec::from_files(vec![
            MetaFile { length: i64::MAX, md5sum: None, path: StackVec::from_strings(vec![]) },
            MetaFile { length: i64::MAX, md5sum: None, path: StackVec::from_strings(vec![]) },
            MetaFile { length: 2, md5sum: None, path: StackVec::from_strings(vec![]) },
        ]),
    };
    assert_eq!(t.checked_total_size(), None);
    t.meta.info.files = InfoFile::Multiple {
        name: String::from("dir"),
        files: StackVec::from_files(vec![
            MetaFile { length: 5, md5sum: None, path: StackVec::from_strings(vec![]) },
            MetaFile { length: -5, md5sum: None, path: StackVec::from_strings(vec![]) },
        ]),
    };
    assert_eq!(t.checked_total_size(), None);
}

#[test]
fn stack_lists_keep_their_items_in_order() {
    let names: Vec<String> = (0..20).map(|i| format!("s{}", i)).collect();
    let list = StackVec::from_strings(names.clone());
    for (i, n) in names.iter().enumerate() {
        assert_eq!(list.item(i), Some(n));
    }
    assert_eq!(list.item(20), None);
    let files = StackVec::from_files(vec![
        MetaFile { length: 3, md5sum: None, path: StackVec::from_strings(vec![String::from("x")]) },
        MetaFile { length: 4, md5sum: Some(String::from("m")), path: StackVec::from_strings(vec![]) },
    ]);
    assert_eq!(files.item(0).unwrap().length, 3);
    assert_eq!(files.item(0).unwrap().path.item(0), Some(&String::from("x")));
    assert_eq!(files.item(1).unwrap().length, 4);
    assert!(files.item(2).is_none());
    let tiers = StackVec::from_tiers(vec![StackVec::from_strings(vec![String::from("a"), String::from("b")]), list]);
    assert!(tiers.item(0).unwrap().item(2).is_none());
    assert_eq!(tiers.item(0).unwrap().item(1), Some(&String::from("b")));
    assert_eq!(tiers.item(1).unwrap().item(19), Some(&String::from("s19")));
    assert!(tiers.item(2).is_none());
}

#[test]
fn announce_sources_come_tier_by_tier() {
    let mut t = torrent(16384, 16384, vec![ABC]);
    t.meta.announce_list = Some(StackVec::from_tiers(vec![
        StackVec::from_strings(vec![String::from("http://one.example/"), String::from("http://two.example/")]),
        StackVec::from_strings(vec![String::from("http://three.example/")]),
    ]));
    let mut it = t.iter_urls();
    assert_eq!(it.size_hint(), (4, None));
    assert_eq!(it.next(), Some(String::from("http://one.example/")));
    assert_eq!(it.next(), Some(String::from("http://two.example/")));
    assert_eq!(it.next(), Some(String::from("http://three.example/")));
    assert_eq!(it.next(), Some(String::from("http://tracker.example.com/announce")));
    assert_eq!(it.next(), None);
}
