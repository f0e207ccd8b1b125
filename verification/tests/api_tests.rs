use hyperg::api::{
    addresses, check, dispatch, downloaded, expiry_of, failure, get_resource_info, id,
    internal_error, invalid_command, list_resources, local_copy, download_hash, remove_resource,
    upload, wants_inline, AddressesResult, Command, CopyJob, DownloadResult, IdResult, Operation,
    PeerInfo, Reply, ResourceFile, ResourceSummary, Status, UploadFile, UploadResult,
    DEFAULT_LIFETIME_SECS,
};
use hyperg::error::Error;
use hyperg::filemap::hash_file;
use hyperg::hex::hash_to_hex;
use hyperg::registry::{FileEntry, Registry};

fn entry(name: &str, path: &str, data: &[u8]) -> FileEntry {
    FileEntry { map: hash_file(data, name.to_string()), path: path.to_string() }
}

fn bad_request(message: &str) -> Reply {
    Reply::Failure { status: Status::BadRequest, message: message.to_string() }
}

fn not_found(message: &str) -> Reply {
    Reply::Failure { status: Status::NotFound, message: message.to_string() }
}

#[test]
fn status_codes() {
    assert_eq!(Status::Success.code(), 200);
    assert_eq!(Status::NoContent.code(), 204);
    assert_eq!(Status::BadRequest.code(), 400);
    assert_eq!(Status::NotFound.code(), 404);
    assert_eq!(Status::InternalServerError.code(), 500);
}

#[test]
fn reply_classes() {
    assert_eq!(Reply::Removed.status(), Status::NoContent);
    assert_eq!(failure(Status::NotFound, "x").status(), Status::NotFound);
    assert_eq!(id(7, "1.0").status(), Status::Success);
    assert_eq!(downloaded(vec![]).status(), Status::Success);
}

#[test]
fn dispatch_of_every_command() {
    assert_eq!(dispatch(Command::Id), Operation::Id);
    assert_eq!(dispatch(Command::Addresses), Operation::Addresses);
    let files = vec![UploadFile { path: "/a".to_string(), file_name: "a".to_string() }];
    assert_eq!(
        dispatch(Command::Upload { files: Some(files.clone()), timeout: Some(3), hash: None }),
        Operation::Upload { files: files.clone(), timeout: Some(3) }
    );
    assert_eq!(
        dispatch(Command::Upload { files: None, timeout: None, hash: Some("ab".to_string()) }),
        Operation::Check { hash: "ab".to_string() }
    );
    assert_eq!(
        dispatch(Command::Upload { files: None, timeout: None, hash: None }),
        Operation::Invalid
    );
    assert_eq!(
        dispatch(Command::Upload {
            files: Some(files),
            timeout: None,
            hash: Some("ab".to_string())
        }),
        Operation::Invalid
    );
    let peers = vec![PeerInfo { address: "10.0.0.1".to_string(), port: 3282 }];
    assert_eq!(
        dispatch(Command::Download {
            hash: "ab".to_string(),
            dest: "/out".to_string(),
            peers: peers.clone(),
            timeout: Some(1),
        }),
        Operation::Download {
            hash: "ab".to_string(),
            dest: "/out".to_string(),
            peers,
            timeout: Some(1)
        }
    );
    assert_eq!(
        dispatch(Command::Download {
            hash: "ab".to_string(),
            dest: "/out".to_string(),
            peers: vec![],
            timeout: None,
        }),
        Operation::LocalCopy { hash: "ab".to_string(), dest: "/out".to_string() }
    );
}

#[test]
fn invalid_command_is_a_client_error() {
    assert_eq!(invalid_command(), bad_request("invalid command"));
}

#[test]
fn expiry_adds_the_lifetime() {
    assert_eq!(DEFAULT_LIFETIME_SECS, 3 * 24 * 3600);
    assert_eq!(expiry_of(1000, None), 1000 + 259_200);
    assert_eq!(expiry_of(1000, Some(5)), 1005);
    assert_eq!(expiry_of(1000, Some(0)), 1000);
    assert_eq!(expiry_of(u64::MAX - 1, Some(1)), u64::MAX);
    assert_eq!(expiry_of(u64::MAX - 1, Some(2)), u64::MAX);
    assert_eq!(expiry_of(u64::MAX, None), u64::MAX);
}

#[test]
fn inline_is_wanted_for_one_small_file_only() {
    assert!(wants_inline(&vec![entry("a", "/a", &[0u8; 199])]));
    assert!(!wants_inline(&vec![entry("a", "/a", &[0u8; 200])]));
    assert!(!wants_inline(&vec![entry("a", "/a", b"1"), entry("b", "/b", b"2")]));
    assert!(!wants_inline(&vec![]));
}

#[test]
fn id_and_addresses() {
    assert_eq!(
        id(0xab, "0.3.1"),
        Reply::Id(IdResult {
            id: "000000000000000000000000000000ab".to_string(),
            version: "0.3.1".to_string()
        })
    );
    assert_eq!(
        addresses("0.0.0.0".to_string(), 3282),
        Reply::Addresses(AddressesResult { address: "0.0.0.0".to_string(), port: 3282 })
    );
}

#[test]
fn upload_registers_and_names_the_hash() {
    let mut registry = Registry::new();
    let reply = upload(&mut registry, vec![entry("a", "/a", b"abc")], b"abc".to_vec(), 50, Some(7));
    assert_eq!(
        reply,
        Reply::Upload(UploadResult { hash: "4a778384a691deb06b4bad3d088b6b49".to_string() })
    );
    let found = registry.lookup(0x4a778384a691deb06b4bad3d088b6b49).expect("registered");
    assert_eq!(found.valid_to, Some(57));
    assert_eq!(found.inline_data, b"abc".to_vec());
}

#[test]
fn check_knows_what_is_registered() {
    let mut registry = Registry::new();
    let hash = registry.register(vec![entry("a", "/a", b"abc")], None, Vec::new());
    assert_eq!(
        check(&registry, &hash_to_hex(hash)),
        Reply::Upload(UploadResult { hash: hash_to_hex(hash) })
    );
    assert_eq!(check(&registry, "4A778384A691DEB06B4BAD3D088B6B49").status(), Status::Success);
    assert_eq!(check(&registry, "abc"), bad_request("hash not found"));
    assert_eq!(check(&registry, "no hash"), bad_request("hash not found"));
    assert_eq!(check(&registry, ""), bad_request("hash not found"));
}

#[test]
fn two_files_are_reported_with_their_total_size() {
    let mut registry = Registry::new();
    let first = vec![1u8; 1234];
    let second = vec![2u8; 4321];
    let reply = upload(
        &mut registry,
        vec![entry("one.bin", "/data/one.bin", &first), entry("two.bin", "/data/two.bin", &second)],
        Vec::new(),
        0,
        None,
    );
    let hash = match reply {
        Reply::Upload(result) => result.hash,
        other => panic!("unexpected reply {:?}", other),
    };
    match get_resource_info(&registry, &hash) {
        Reply::Resource(info) => {
            assert_eq!(info.hash, hash);
            assert_eq!(info.files.len(), 2);
            assert_eq!(info.total_size, 5555);
            assert_eq!(info.valid_to, Some(259_200));
            assert_eq!(
                info.files,
                vec![
                    ResourceFile {
                        path: "/data/one.bin".to_string(),
                        file_name: "one.bin".to_string()
                    },
                    ResourceFile {
                        path: "/data/two.bin".to_string(),
                        file_name: "two.bin".to_string()
                    },
                ]
            );
        },
        other => panic!("unexpected reply {:?}", other),
    }
}

#[test]
fn resource_info_of_what_is_not_there() {
    let registry = Registry::new();
    assert_eq!(get_resource_info(&registry, "ab"), not_found("resource not found"));
    assert_eq!(
        get_resource_info(&registry, "zz"),
        bad_request("invalid digit found in string")
    );
    assert_eq!(
        get_resource_info(&registry, ""),
        bad_request("cannot parse integer from empty string")
    );
    assert_eq!(
        get_resource_info(&registry, "100000000000000000000000000000000"),
        bad_request("number too large to fit in target type")
    );
}

#[test]
fn list_of_resources() {
    let mut registry = Registry::new();
    assert_eq!(list_resources(&registry), Reply::Resources(vec![]));
    let a = registry.register(vec![entry("a", "/a", b"abc")], Some(9), Vec::new());
    let b = registry.register(
        vec![entry("b", "/b", b"hello"), entry("c", "/c", b"world!")],
        None,
        Vec::new(),
    );
    assert_eq!(
        list_resources(&registry),
        Reply::Resources(vec![
            ResourceSummary { hash: hash_to_hex(a), files: 1, total_size: 3, valid_to: Some(9) },
            ResourceSummary { hash: hash_to_hex(b), files: 2, total_size: 11, valid_to: None },
        ])
    );
}

#[test]
fn delete_twice_succeeds_then_finds_nothing() {
    let mut registry = Registry::new();
    let hash = registry.register(vec![entry("a", "/a", b"abc")], None, Vec::new());
    let text = hash_to_hex(hash);
    let first = remove_resource(&mut registry, &text);
    assert_eq!(first, Reply::Removed);
    assert_eq!(first.status().code(), 204);
    let second = remove_resource(&mut registry, &text);
    assert_eq!(second, not_found("resource not found"));
    assert_eq!(second.status().code(), 404);
    assert_eq!(
        remove_resource(&mut registry, "not a hash"),
        bad_request("invalid digit found in string")
    );
}

#[test]
fn download_without_peers_of_an_unknown_hash_is_a_client_error() {
    let registry = Registry::new();
    let operation = dispatch(Command::Download {
        hash: "00000000000000000000000000000abc".to_string(),
        dest: "/out".to_string(),
        peers: vec![],
        timeout: None,
    });
    let hash = match operation {
        Operation::LocalCopy { hash, dest: _ } => hash,
        other => panic!("unexpected operation {:?}", other),
    };
    let reply = local_copy(&registry, &hash).expect_err("nothing is registered");
    assert_eq!(reply, bad_request("hash not found"));
    assert_eq!(reply.status().code(), 400);
}

#[test]
fn local_copy_plans_one_copy_per_file() {
    let mut registry = Registry::new();
    let hash = registry.register(
        vec![entry("a.txt", "/store/1", b"abc"), entry("dir/b.txt", "/store/2", b"xyz")],
        None,
        Vec::new(),
    );
    assert_eq!(
        local_copy(&registry, &hash_to_hex(hash)),
        Ok(vec![
            CopyJob { source: "/store/1".to_string(), file_name: "a.txt".to_string() },
            CopyJob { source: "/store/2".to_string(), file_name: "dir/b.txt".to_string() },
        ])
    );
    assert_eq!(
        local_copy(&registry, "xyz"),
        Err(bad_request("invalid digit found in string"))
    );
}

#[test]
fn download_hash_is_read_or_refused() {
    assert_eq!(download_hash("ff"), Ok(255));
    assert_eq!(download_hash(""), Err(bad_request("cannot parse integer from empty string")));
}

#[test]
fn finished_download_names_its_files() {
    assert_eq!(
        downloaded(vec!["/out/a".to_string()]),
        Reply::Download(DownloadResult { files: vec!["/out/a".to_string()] })
    );
}

#[test]
fn internal_errors_carry_their_message() {
    assert_eq!(
        internal_error(&Error::ResourceNotFound(1)),
        Reply::Failure {
            status: Status::InternalServerError,
            message: "resource 00000000000000000000000000000001 not found".to_string()
        }
    );
}
