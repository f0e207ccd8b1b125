use hyperg::codec::{Block, GetBlock};
use hyperg::connection::Answer;
use hyperg::download::{
    manifest_of, Action, Download, Phase, BACKUP_EXTENSION, BLOCK_DEADLINE_SECS,
};
use hyperg::error::Error;
use hyperg::filemap::{hash_block, hash_file, FileMap};
use hyperg::peers::{dedup_peers, resolve_host, Host, IpAddress, PeerAddress, PeerSearch, SearchStep};

const HASH: u128 = 0x77;

fn block(file_nr: u32, block_nr: u32, bytes: &[u8]) -> Block {
    Block { hash: HASH, file_nr, block_nr, bytes: bytes.to_vec() }
}

fn request(file_nr: u32, block_nr: u32) -> Action {
    Action::Request {
        request: GetBlock { hash: HASH, file_nr, block_nr },
        deadline_secs: BLOCK_DEADLINE_SECS,
    }
}

fn out_of_step() -> Action {
    Action::Abort(Error::ServiceFail("download"))
}

fn two_block_file(name: &str) -> FileMap {
    FileMap {
        file_name: name.to_string(),
        file_size: 6,
        blocks: vec![hash_block(b"abc"), hash_block(b"def")],
    }
}

#[test]
fn the_block_deadline_is_five_minutes() {
    assert_eq!(BLOCK_DEADLINE_SECS, 300);
    assert_eq!(BACKUP_EXTENSION, "bak");
}

#[test]
fn a_download_runs_through_its_files_and_blocks_in_order() {
    let manifest = vec![
        two_block_file("first"),
        hash_file(b"", "empty".to_string()),
        hash_file(b"xyz", "last".to_string()),
    ];
    let mut download = Download::new(HASH, manifest.clone()).expect("addressable");
    assert_eq!(download.phase(), Phase::Idle);
    assert_eq!(download.manifest(), &manifest);
    assert_eq!(download.file_name(0), Some(&"first".to_string()));
    assert_eq!(download.file_name(3), None);

    assert_eq!(download.start(), Action::OpenFile { file_nr: 0 });
    assert_eq!(download.phase(), Phase::Opening);
    assert_eq!(download.file_opened("/out/first".to_string()), request(0, 0));
    assert_eq!(download.phase(), Phase::Fetching);
    assert_eq!(
        download.block_received(&block(0, 0, b"abc")),
        Action::Write { file_nr: 0, block_nr: 0 }
    );
    assert_eq!(download.phase(), Phase::Writing);
    assert_eq!(download.block_written(), request(0, 1));
    assert_eq!(
        download.block_received(&block(0, 1, b"def")),
        Action::Write { file_nr: 0, block_nr: 1 }
    );
    assert_eq!(download.block_written(), Action::OpenFile { file_nr: 1 });
    assert_eq!(download.file_opened("/out/empty".to_string()), Action::OpenFile { file_nr: 2 });
    assert_eq!(download.file_opened("/out/last".to_string()), request(2, 0));
    assert_eq!(
        download.block_received(&block(2, 0, b"xyz")),
        Action::Write { file_nr: 2, block_nr: 0 }
    );
    assert_eq!(download.block_written(), Action::Finish);
    assert_eq!(download.phase(), Phase::Finished);
    assert_eq!(
        download.into_completed(),
        vec!["/out/first".to_string(), "/out/empty".to_string(), "/out/last".to_string()]
    );
}

#[test]
fn an_empty_manifest_is_complete_at_once() {
    let mut download = Download::new(HASH, vec![]).expect("addressable");
    assert_eq!(download.start(), Action::Finish);
    assert_eq!(download.phase(), Phase::Finished);
    assert!(download.into_completed().is_empty());
}

#[test]
fn a_block_with_the_wrong_hash_aborts_the_download() {
    let manifest = vec![hash_file(b"ok", "done".to_string()), two_block_file("broken")];
    let mut download = Download::new(HASH, manifest).expect("addressable");
    download.start();
    download.file_opened("/out/done".to_string());
    download.block_received(&block(0, 0, b"ok"));
    download.block_written();
    assert_eq!(download.file_opened("/out/broken".to_string()), request(1, 0));
    assert_eq!(
        download.block_received(&block(1, 0, b"abc")),
        Action::Write { file_nr: 1, block_nr: 0 }
    );
    assert_eq!(download.block_written(), request(1, 1));

    let corrupted = block(1, 1, b"deF");
    assert_eq!(
        download.block_received(&corrupted),
        Action::Abort(Error::InvalidBlockHash(hash_block(b"deF")))
    );
    assert_eq!(download.phase(), Phase::Failed);

    assert_eq!(download.block_received(&block(1, 1, b"def")), out_of_step());
    assert_eq!(download.block_written(), out_of_step());
    assert_eq!(download.file_opened("/out/x".to_string()), out_of_step());
    assert_eq!(download.start(), out_of_step());
    assert_eq!(download.failed(Error::MetadataNotFound), out_of_step());
    assert_eq!(download.phase(), Phase::Failed);
    assert_eq!(download.into_completed(), vec!["/out/done".to_string()]);
}

#[test]
fn an_outside_failure_ends_the_download_with_its_error() {
    let mut download = Download::new(HASH, vec![two_block_file("f")]).expect("addressable");
    download.start();
    assert_eq!(
        download.failed(Error::IO("file exists".to_string())),
        Action::Abort(Error::IO("file exists".to_string()))
    );
    assert_eq!(download.phase(), Phase::Failed);
    assert!(download.into_completed().is_empty());
}

#[test]
fn a_report_out_of_step_ends_a_running_download() {
    let mut download = Download::new(HASH, vec![two_block_file("f")]).expect("addressable");
    assert_eq!(download.block_written(), out_of_step());
    assert_eq!(download.phase(), Phase::Failed);

    let mut finished = Download::new(HASH, vec![]).expect("addressable");
    finished.start();
    assert_eq!(finished.start(), out_of_step());
    assert_eq!(finished.failed(Error::MetadataNotFound), out_of_step());
    assert_eq!(finished.phase(), Phase::Finished);
}

#[test]
fn answers_of_the_peer_are_sorted_out() {
    let mut download = Download::new(HASH, vec![two_block_file("f")]).expect("addressable");
    download.start();
    download.file_opened("/out/f".to_string());
    assert_eq!(
        download.answered(&Answer::Block(block(0, 0, b"abc"))),
        Action::Write { file_nr: 0, block_nr: 0 }
    );
    download.block_written();
    assert_eq!(
        download.answered(&Answer::NotFound { hash: HASH }),
        Action::Abort(Error::ResourceNotFound(HASH))
    );
    assert_eq!(download.phase(), Phase::Failed);

    let mut other = Download::new(HASH, vec![two_block_file("f")]).expect("addressable");
    other.start();
    other.file_opened("/out/f".to_string());
    assert_eq!(
        other.answered(&Answer::Meta { hash: HASH, files: vec![] }),
        Action::Abort(Error::ServiceFail("peer"))
    );
}

#[test]
fn the_manifest_is_taken_out_of_its_answer() {
    let files = vec![two_block_file("f")];
    assert_eq!(manifest_of(Answer::Meta { hash: HASH, files: files.clone() }), Ok(files));
    assert_eq!(manifest_of(Answer::NotFound { hash: 9 }), Err(Error::ResourceNotFound(9)));
    assert_eq!(
        manifest_of(Answer::Block(block(0, 0, b"abc"))),
        Err(Error::ServiceFail("peer"))
    );
}

fn peer(last: u32, port: u16) -> PeerAddress {
    PeerAddress { ip: IpAddress::V4(0x0a00_0000 + last), port }
}

#[test]
fn duplicate_peers_collapse() {
    let peers = vec![peer(1, 3282), peer(2, 3282), peer(1, 3282), peer(1, 3283), peer(2, 3282)];
    assert_eq!(dedup_peers(&peers), vec![peer(1, 3282), peer(2, 3282), peer(1, 3283)]);
    assert_eq!(dedup_peers(&vec![]), vec![]);
    let v6 = PeerAddress { ip: IpAddress::V6(1), port: 1 };
    let v4 = PeerAddress { ip: IpAddress::V4(1), port: 1 };
    assert_eq!(dedup_peers(&vec![v6, v4, v6]), vec![v6, v4]);
}

#[test]
fn peers_are_tried_once_each_and_in_order() {
    let mut search = PeerSearch::new(HASH, &vec![peer(1, 1), peer(2, 2), peer(1, 1)]);
    assert_eq!(search.next(), SearchStep::Try(peer(1, 1)));
    assert_eq!(search.next(), SearchStep::Try(peer(2, 2)));
    assert_eq!(search.next(), SearchStep::GiveUp(Error::ResourceNotFound(HASH)));
    assert_eq!(search.next(), SearchStep::GiveUp(Error::ResourceNotFound(HASH)));
}

#[test]
fn a_search_without_peers_gives_up_at_once() {
    let mut search = PeerSearch::new(5, &vec![]);
    assert_eq!(search.next(), SearchStep::GiveUp(Error::ResourceNotFound(5)));
}

#[test]
fn localhost_is_the_loopback_address() {
    assert_eq!(resolve_host("localhost"), Host::Loopback);
    assert_eq!(resolve_host("127.0.0.1"), Host::Address("127.0.0.1".to_string()));
    assert_eq!(resolve_host("Localhost"), Host::Address("Localhost".to_string()));
    assert_eq!(resolve_host(""), Host::Address(String::new()));
}
