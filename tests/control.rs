use synapse::control::{Control, Jobs, RpcError, RpcRequest, RpcResponse, Source, TorrentInfo};

fn control() -> Control {
    Control::new(10, 11, 12, 13, 14, 15, 0)
}

#[test]
fn peers_and_torrents_stay_in_step() {
    let mut c = control();
    let a = c.add_torrent(vec![1u8; 20]).unwrap();
    let b = c.add_torrent(vec![2u8; 20]).unwrap();
    c.add_peer(a, 100);
    c.add_peer(b, 101);
    c.add_peer(a, 102);
    assert_eq!(c.peer_owner(100), Some(a));
    assert_eq!(c.peer_owner(101), Some(b));
    assert_eq!(c.torrent_info(a), Some(TorrentInfo { id: a, paused: false, peers: 2 }));
    assert_eq!(c.remove_peer(100), a);
    assert_eq!(c.peer_owner(100), None);
    assert_eq!(c.torrent_info(a), Some(TorrentInfo { id: a, paused: false, peers: 1 }));
    assert_eq!(c.add_peer_by_hash(&vec![2u8; 20], 103), Some(b));
    assert_eq!(c.add_peer_by_hash(&vec![2u8; 20], 103), None);
    assert_eq!(c.add_peer_by_hash(&vec![9u8; 20], 104), None);
    assert_eq!(c.torrent_info(b), Some(TorrentInfo { id: b, paused: false, peers: 2 }));
}

#[test]
fn duplicate_torrent_is_refused() {
    let mut c = control();
    assert_eq!(c.add_torrent(vec![1u8; 20]), Ok(0));
    assert_eq!(c.add_torrent(vec![1u8; 20]), Err(RpcError::DuplicateTorrent));
    assert_eq!(c.add_torrent(vec![2u8; 20]), Ok(1));
    assert_eq!(c.find_by_hash(&vec![2u8; 20]), Some(1));
}

#[test]
fn removing_a_torrent_drops_its_peers() {
    let mut c = control();
    let a = c.add_torrent(vec![1u8; 20]).unwrap();
    let b = c.add_torrent(vec![2u8; 20]).unwrap();
    c.add_peer(a, 1);
    c.add_peer(a, 2);
    c.add_peer(b, 3);
    assert!(c.remove_torrent(a));
    assert!(!c.remove_torrent(a));
    assert_eq!(c.peer_owner(1), None);
    assert_eq!(c.peer_owner(2), None);
    assert_eq!(c.peer_owner(3), Some(b));
    assert_eq!(c.list_torrents(), vec![b]);
}

#[test]
fn rpc_requests_are_answered() {
    let mut c = control();
    assert_eq!(c.handle_rpc(RpcRequest::AddTorrent(vec![1u8; 20])), RpcResponse::Ack);
    assert_eq!(
        c.handle_rpc(RpcRequest::AddTorrent(vec![1u8; 20])),
        RpcResponse::Failed(RpcError::DuplicateTorrent)
    );
    assert_eq!(c.handle_rpc(RpcRequest::ListTorrents), RpcResponse::Torrents(vec![0]));
    assert_eq!(c.handle_rpc(RpcRequest::PauseTorrent(0)), RpcResponse::Ack);
    assert_eq!(
        c.handle_rpc(RpcRequest::TorrentInfo(0)),
        RpcResponse::TorrentInfo(TorrentInfo { id: 0, paused: true, peers: 0 })
    );
    assert_eq!(c.handle_rpc(RpcRequest::ResumeTorrent(0)), RpcResponse::Ack);
    assert_eq!(
        c.handle_rpc(RpcRequest::TorrentInfo(0)),
        RpcResponse::TorrentInfo(TorrentInfo { id: 0, paused: false, peers: 0 })
    );
    assert_eq!(c.handle_rpc(RpcRequest::PauseTorrent(5)), RpcResponse::Failed(RpcError::TorrentNotFound));
    assert_eq!(c.handle_rpc(RpcRequest::ResumeTorrent(5)), RpcResponse::Failed(RpcError::TorrentNotFound));
    assert_eq!(c.handle_rpc(RpcRequest::TorrentInfo(5)), RpcResponse::Failed(RpcError::TorrentNotFound));
    assert_eq!(c.handle_rpc(RpcRequest::ThrottleUpload(50)), RpcResponse::Ack);
    assert_eq!(c.handle_rpc(RpcRequest::ThrottleDownload(60)), RpcResponse::Ack);
    assert_eq!(c.throttler.ul_rate(), 50);
    assert_eq!(c.throttler.dl_rate(), 60);
    assert_eq!(c.handle_rpc(RpcRequest::RemoveTorrent(0)), RpcResponse::Ack);
    assert_eq!(c.handle_rpc(RpcRequest::RemoveTorrent(0)), RpcResponse::Failed(RpcError::TorrentNotFound));
    assert_eq!(c.handle_rpc(RpcRequest::ListTorrents), RpcResponse::Torrents(vec![]));
    assert_eq!(c.handle_rpc(RpcRequest::Shutdown), RpcResponse::Ack);
}

#[test]
fn events_are_demultiplexed_by_source() {
    let c = control();
    assert_eq!(c.classify(10), Source::Tracker);
    assert_eq!(c.classify(11), Source::Disk);
    assert_eq!(c.classify(12), Source::Control);
    assert_eq!(c.classify(13), Source::JobTimer);
    assert_eq!(c.classify(14), Source::ThrottleTick);
    assert_eq!(c.classify(15), Source::FlushTick);
    assert_eq!(c.classify(99), Source::Peer(99));
}

#[test]
fn jobs_run_at_their_deadlines() {
    let mut c = control();
    assert_eq!(c.update_jobs(999), Jobs { trackers: false, unchoke: false, session: false });
    assert_eq!(c.update_jobs(1000), Jobs { trackers: false, unchoke: true, session: true });
    assert_eq!(c.update_jobs(1500), Jobs { trackers: false, unchoke: false, session: false });
    assert_eq!(c.update_jobs(60000), Jobs { trackers: true, unchoke: true, session: true });
    assert_eq!(c.tracker_update, 60000);
}
