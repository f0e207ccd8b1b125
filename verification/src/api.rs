//! The control plane: which operation a command asks for, and what each
//! operation on the registry answers.
//!
//! Nothing here touches a socket or a file. A command comes in as plain
//! values and a reply goes out as plain values; turning them from and into
//! JSON over HTTP is left to the caller.

use crate::filemap::resource_hash;
use crate::hex::{hash_to_hex, hex_string, parse_hash, parse_hash_spec};
use crate::registry::{
    all_genuine, entry_maps, entry_of, holds, is_registration, lemma_removed_is_gone, removed,
    total_size, unique_hashes, FileEntry, Registry, ResourceDescriptor, INLINE_THRESHOLD,
};
use vstd::prelude::*;

verus! {

/// Seconds that a registration lasts when the caller names no lifetime
/// (three days).
pub const DEFAULT_LIFETIME_SECS: u64 = 259_200;

/// Outcome class of a reply.
#[derive(Debug, Clone, Copy, PartialEq, Eq, Structural)]
pub enum Status {
    Success,
    NoContent,
    BadRequest,
    NotFound,
    InternalServerError,
}

impl Status {
    /// The HTTP status code of the class.
    pub fn code(&self) -> (c: u16)
        ensures
            c == match *self {
                Status::Success => 200u16,
                Status::NoContent => 204u16,
                Status::BadRequest => 400u16,
                Status::NotFound => 404u16,
                Status::InternalServerError => 500u16,
            },
    {
        match self {
            Status::Success => 200,
            Status::NoContent => 204,
            Status::BadRequest => 400,
            Status::NotFound => 404,
            Status::InternalServerError => 500,
        }
    }
}

/// A file to share: where it is stored and what it is to be called.
#[derive(Debug, Clone, PartialEq, Eq)]
pub struct UploadFile {
    pub path: String,
    pub file_name: String,
}

/// A peer as a command names it.
#[derive(Debug, Clone, PartialEq, Eq)]
pub struct PeerInfo {
    pub address: String,
    pub port: u16,
}

/// A command of the control plane.
#[derive(Debug, Clone, PartialEq, Eq)]
#[allow(inconsistent_fields)]
pub enum Command {
    /// Asks for the node's identifier.
    Id,
    /// Asks where the node listens for peers.
    Addresses,
    /// Shares files, or asks whether a hash is shared.
    Upload { files: Option<Vec<UploadFile>>, timeout: Option<u64>, hash: Option<String> },
    /// Fetches a resource into a directory.
    Download { hash: String, dest: String, peers: Vec<PeerInfo>, timeout: Option<u64> },
}

/// What a command asks the node to do.
#[derive(Debug, Clone, PartialEq, Eq)]
pub enum Operation {
    Id,
    Addresses,
    /// Register the files.
    Upload { files: Vec<UploadFile>, timeout: Option<u64> },
    /// Tell whether the hash is registered.
    Check { hash: String },
    /// Copy the registered files of the hash into `dest`.
    LocalCopy { hash: String, dest: String },
    /// Fetch the resource from one of the peers into `dest`.
    Download { hash: String, dest: String, peers: Vec<PeerInfo>, timeout: Option<u64> },
    /// The command makes no sense.
    Invalid,
}

/// The operation that a command asks for. An upload names files or a hash,
/// not both and not neither; a download without peers is a local copy.
pub open spec fn route(cmd: Command) -> Operation {
    match cmd {
        Command::Id => Operation::Id,
        Command::Addresses => Operation::Addresses,
        Command::Upload { files: Some(files), timeout, hash: None } => Operation::Upload {
            files,
            timeout,
        },
        Command::Upload { files: None, timeout, hash: Some(hash) } => Operation::Check { hash },
        Command::Upload { files, timeout, hash } => Operation::Invalid,
        Command::Download { hash, dest, peers, timeout } => if peers@.len() == 0 {
            Operation::LocalCopy { hash, dest }
        } else {
            Operation::Download { hash, dest, peers, timeout }
        },
    }
}

/// Decides which operation a command asks for.
pub fn dispatch(cmd: Command) -> (op: Operation)
    ensures
        op == route(cmd),
{
    match cmd {
        Command::Id => Operation::Id,
        Command::Addresses => Operation::Addresses,
        Command::Upload { files: Some(files), timeout, hash: None } => Operation::Upload {
            files,
            timeout,
        },
        Command::Upload { files: None, timeout: _, hash: Some(hash) } => Operation::Check { hash },
        Command::Upload { files: _, timeout: _, hash: _ } => Operation::Invalid,
        Command::Download { hash, dest, peers, timeout } => {
            if peers.len() == 0 {
                Operation::LocalCopy { hash, dest }
            } else {
                Operation::Download { hash, dest, peers, timeout }
            }
        },
    }
}

/// Answer to `Id`.
#[derive(Debug, Clone, PartialEq, Eq)]
pub struct IdResult {
    pub id: String,
    pub version: String,
}

/// Answer to `Addresses`.
#[derive(Debug, Clone, PartialEq, Eq)]
pub struct AddressesResult {
    pub address: String,
    pub port: u16,
}

/// Answer to `Upload` and `Check`.
#[derive(Debug, Clone, PartialEq, Eq)]
pub struct UploadResult {
    pub hash: String,
}

/// Answer to `Download` and `LocalCopy`.
#[derive(Debug, Clone, PartialEq, Eq)]
pub struct DownloadResult {
    pub files: Vec<String>,
}

/// One line of the list of resources.
#[derive(Debug, Clone, PartialEq, Eq)]
pub struct ResourceSummary {
    pub hash: String,
    pub files: usize,
    pub total_size: u128,
    pub valid_to: Option<u64>,
}

/// One file in the description of a resource.
#[derive(Debug, Clone, PartialEq, Eq)]
pub struct ResourceFile {
    pub path: String,
    pub file_name: String,
}

/// The description of a resource.
#[derive(Debug, Clone, PartialEq, Eq)]
pub struct ResourceInfo {
    pub hash: String,
    pub files: Vec<ResourceFile>,
    pub total_size: u128,
    pub valid_to: Option<u64>,
}

/// The reply to a command or to a request about resources.
#[derive(Debug, Clone, PartialEq, Eq)]
pub enum Reply {
    Id(IdResult),
    Addresses(AddressesResult),
    Upload(UploadResult),
    Download(DownloadResult),
    Resources(Vec<ResourceSummary>),
    Resource(ResourceInfo),
    /// The resource was removed; there is nothing to say.
    Removed,
    /// The request failed.
    Failure { status: Status, message: String },
}

/// `r` is the failure of class `status` with the text `message`.
pub open spec fn is_failure(r: Reply, status: Status, message: Seq<char>) -> bool {
    r matches Reply::Failure { status: s, message: m } && s == status && m@ == message
}

/// `r` is the answer that names `hash`.
pub open spec fn is_upload(r: Reply, hash: u128) -> bool {
    r matches Reply::Upload(u) && u.hash@ == hex_string(hash)
}

/// `sum` is the line of the list for `d`.
pub open spec fn summarizes(sum: ResourceSummary, d: ResourceDescriptor) -> bool {
    &&& sum.hash@ == hex_string(d.map_hash)
    &&& sum.files == d.files@.len()
    &&& sum.total_size == total_size(d.files@)
    &&& sum.valid_to == d.valid_to
}

/// `info` is the description of `d`.
pub open spec fn describes(info: ResourceInfo, d: ResourceDescriptor) -> bool {
    &&& info.hash@ == hex_string(d.map_hash)
    &&& info.files@.len() == d.files@.len()
    &&& forall|i: int|
        0 <= i < d.files@.len() ==> (#[trigger] info.files@[i]).path == d.files@[i].path
            && info.files@[i].file_name == d.files@[i].map.file_name
    &&& info.total_size == total_size(d.files@)
    &&& info.valid_to == d.valid_to
}

/// The class of a reply.
pub open spec fn status_of(r: Reply) -> Status {
    match r {
        Reply::Removed => Status::NoContent,
        Reply::Failure { status, message } => status,
        _ => Status::Success,
    }
}

impl Reply {
    /// The class of the reply.
    pub fn status(&self) -> (s: Status)
        ensures
            s == status_of(*self),
    {
        match self {
            Reply::Removed => Status::NoContent,
            Reply::Failure { status, message: _ } => *status,
            _ => Status::Success,
        }
    }
}

/// The failure of class `status` with the text `message`.
pub fn failure(status: Status, message: &str) -> (r: Reply)
    ensures
        is_failure(r, status, message@),
{
    Reply::Failure { status, message: String::from_str(message) }
}

/// The failure that stands for an error inside the node.
pub fn internal_error(error: &crate::error::Error) -> (r: Reply)
    ensures
        is_failure(r, Status::InternalServerError, error.text()),
{
    Reply::Failure { status: Status::InternalServerError, message: error.message() }
}

/// Second from which on a registration made at `now` counts as expired:
/// `timeout` seconds later, or the default lifetime later where no timeout
/// is named; the last second there is, where that is out of range.
pub open spec fn expiry(now: u64, timeout: Option<u64>) -> u64 {
    let lifetime = match timeout {
        Some(t) => t,
        None => DEFAULT_LIFETIME_SECS,
    };
    if now + lifetime > u64::MAX {
        u64::MAX
    } else {
        (now + lifetime) as u64
    }
}

/// Computes the expiry of a registration made at `now`.
pub fn expiry_of(now: u64, timeout: Option<u64>) -> (t: u64)
    ensures
        t == expiry(now, timeout),
{
    let lifetime: u64 = match timeout {
        Some(t) => t,
        None => DEFAULT_LIFETIME_SECS,
    };
    if lifetime > u64::MAX - now {
        u64::MAX
    } else {
        now + lifetime
    }
}

/// Tells whether the bytes of `files` are worth caching: there is exactly
/// one file, and it is smaller than the inline threshold.
pub fn wants_inline(files: &Vec<FileEntry>) -> (yes: bool)
    ensures
        yes == (files@.len() == 1 && files@[0].map.file_size < INLINE_THRESHOLD),
{
    files.len() == 1 && files[0].map.file_size < INLINE_THRESHOLD
}

/// Answers `Id`: the node's identifier as text, and the program's version.
pub fn id(node_id: u128, version: &str) -> (r: Reply)
    ensures
        r matches Reply::Id(i) && i.id@ == hex_string(node_id) && i.version@ == version@,
{
    Reply::Id(IdResult { id: hash_to_hex(node_id), version: String::from_str(version) })
}

/// Answers `Addresses`: where the node listens for peers.
pub fn addresses(host: String, port: u16) -> (r: Reply)
    ensures
        r == Reply::Addresses(AddressesResult { address: host, port }),
{
    Reply::Addresses(AddressesResult { address: host, port })
}

/// Registers `files`, to expire `timeout` seconds after `now`, and answers
/// with the resource hash.
pub fn upload(
    registry: &mut Registry,
    files: Vec<FileEntry>,
    inline_data: Vec<u8>,
    now: u64,
    timeout: Option<u64>,
) -> (r: Reply)
    ensures
        is_upload(r, resource_hash(entry_maps(files@))),
        is_registration(
            old(registry)@,
            final(registry)@,
            resource_hash(entry_maps(files@)),
            files,
            Some(expiry(now, timeout)),
            inline_data@,
        ),
        unique_hashes(final(registry)@),
        all_genuine(final(registry)@),
{
    let valid_to = Some(expiry_of(now, timeout));
    let hash = registry.register(files, valid_to, inline_data);
    Reply::Upload(UploadResult { hash: hash_to_hex(hash) })
}

/// What `check` answers for a registry with entries `s`: the hash if its
/// text can be read and it is registered, and otherwise that it was not
/// found.
pub open spec fn check_spec(s: Seq<ResourceDescriptor>, hash: Seq<char>, r: Reply) -> bool {
    match parse_hash_spec(hash) {
        Ok(h) => if holds(s, h) {
            is_upload(r, h)
        } else {
            is_failure(r, Status::BadRequest, "hash not found"@)
        },
        Err(e) => is_failure(r, Status::BadRequest, "hash not found"@),
    }
}

/// Answers `Check`: tells whether `hash` is registered.
pub fn check(registry: &Registry, hash: &str) -> (r: Reply)
    ensures
        check_spec(registry@, hash@, r),
{
    match parse_hash(hash) {
        Err(_) => failure(Status::BadRequest, "hash not found"),
        Ok(h) => match registry.lookup(h) {
            Some(d) => Reply::Upload(UploadResult { hash: hash_to_hex(d.map_hash) }),
            None => failure(Status::BadRequest, "hash not found"),
        },
    }
}

fn summary(d: &ResourceDescriptor) -> (sum: ResourceSummary)
    ensures
        summarizes(sum, *d),
{
    ResourceSummary {
        hash: hash_to_hex(d.map_hash),
        files: d.files.len(),
        total_size: d.size(),
        valid_to: d.valid_to,
    }
}

/// Lists every registered resource: its hash, how many files it has, how
/// many bytes they hold together, and when it expires.
pub fn list_resources(registry: &Registry) -> (r: Reply)
    ensures
        r matches Reply::Resources(list) && list@.len() == registry@.len() && forall|i: int|
            0 <= i < list@.len() ==> summarizes(#[trigger] list@[i], registry@[i]),
{
    let all = registry.enumerate();
    let mut list: Vec<ResourceSummary> = Vec::new();
    let mut i: usize = 0;
    while i < all.len()
        invariant
            i <= all.len(),
            list@.len() == i,
            forall|k: int| 0 <= k < i ==> summarizes(#[trigger] list@[k], all@[k]),
        decreases all.len() - i,
    {
        list.push(summary(&all[i]));
        i += 1;
    }
    Reply::Resources(list)
}

fn describe(d: &ResourceDescriptor) -> (info: ResourceInfo)
    ensures
        describes(info, *d),
{
    let mut files: Vec<ResourceFile> = Vec::new();
    let mut i: usize = 0;
    while i < d.files.len()
        invariant
            i <= d.files.len(),
            files@.len() == i,
            forall|k: int|
                0 <= k < i ==> (#[trigger] files@[k]).path == d.files@[k].path
                    && files@[k].file_name == d.files@[k].map.file_name,
        decreases d.files.len() - i,
    {
        let entry = &d.files[i];
        files.push(
            ResourceFile { path: entry.path.clone(), file_name: entry.map.file_name.clone() },
        );
        i += 1;
    }
    ResourceInfo {
        hash: hash_to_hex(d.map_hash),
        files,
        total_size: d.size(),
        valid_to: d.valid_to,
    }
}

/// What `get_resource_info` answers for a registry with entries `s`.
pub open spec fn resource_info_spec(s: Seq<ResourceDescriptor>, hash: Seq<char>, r: Reply) -> bool {
    match parse_hash_spec(hash) {
        Ok(h) => match entry_of(s, h) {
            Some(d) => r matches Reply::Resource(info) && describes(info, d),
            None => is_failure(r, Status::NotFound, "resource not found"@),
        },
        Err(e) => is_failure(r, Status::BadRequest, e.text()),
    }
}

/// Describes the resource registered under `hash`: its files, with where
/// each is stored and what it is called, their total size, and the expiry.
pub fn get_resource_info(registry: &Registry, hash: &str) -> (r: Reply)
    ensures
        resource_info_spec(registry@, hash@, r),
{
    match parse_hash(hash) {
        Err(e) => failure(Status::BadRequest, e.message()),
        Ok(h) => match registry.lookup(h) {
            Some(d) => Reply::Resource(describe(d)),
            None => failure(Status::NotFound, "resource not found"),
        },
    }
}

/// What `remove_resource` answers for a registry with entries `s`.
pub open spec fn remove_spec(s: Seq<ResourceDescriptor>, hash: Seq<char>, r: Reply) -> bool {
    match parse_hash_spec(hash) {
        Ok(h) => if holds(s, h) {
            r == Reply::Removed
        } else {
            is_failure(r, Status::NotFound, "resource not found"@)
        },
        Err(e) => is_failure(r, Status::BadRequest, e.text()),
    }
}

/// The entries that `remove_resource` leaves of `s`.
pub open spec fn after_remove(s: Seq<ResourceDescriptor>, hash: Seq<char>) -> Seq<
    ResourceDescriptor,
> {
    match parse_hash_spec(hash) {
        Ok(h) => removed(s, h),
        Err(e) => s,
    }
}

/// Removes the resource registered under `hash`.
pub fn remove_resource(registry: &mut Registry, hash: &str) -> (r: Reply)
    ensures
        remove_spec(old(registry)@, hash@, r),
        final(registry)@ == after_remove(old(registry)@, hash@),
        unique_hashes(final(registry)@),
        all_genuine(final(registry)@),
{
    match parse_hash(hash) {
        Err(e) => {
            let _ = registry.enumerate();
            failure(Status::BadRequest, e.message())
        },
        Ok(h) => match registry.remove(h) {
            Some(_) => Reply::Removed,
            None => failure(Status::NotFound, "resource not found"),
        },
    }
}

/// Removing a resource twice succeeds the first time and finds nothing the
/// second time.
pub proof fn lemma_second_remove_finds_nothing(
    s: Seq<ResourceDescriptor>,
    hash: Seq<char>,
    first: Reply,
    second: Reply,
)
    requires
        unique_hashes(s),
        parse_hash_spec(hash) matches Ok(h) && holds(s, h),
        remove_spec(s, hash, first),
        remove_spec(after_remove(s, hash), hash, second),
    ensures
        status_of(first) == Status::NoContent,
        status_of(second) == Status::NotFound,
        after_remove(after_remove(s, hash), hash) == after_remove(s, hash),
{
    lemma_removed_is_gone(s, parse_hash_spec(hash)->Ok_0);
}

/// A file to copy for a local copy of a resource.
#[derive(Debug, Clone, PartialEq, Eq)]
pub struct CopyJob {
    /// Where the registered file is stored.
    pub source: String,
    /// What the copy is to be called in the destination directory.
    pub file_name: String,
}

/// What `local_copy` answers for a registry with entries `s`.
pub open spec fn local_copy_spec(
    s: Seq<ResourceDescriptor>,
    hash: Seq<char>,
    r: Result<Vec<CopyJob>, Reply>,
) -> bool {
    match parse_hash_spec(hash) {
        Ok(h) => match entry_of(s, h) {
            Some(d) => r matches Ok(jobs) && jobs@.len() == d.files@.len() && forall|i: int|
                0 <= i < jobs@.len() ==> (#[trigger] jobs@[i]).source == d.files@[i].path
                    && jobs@[i].file_name == d.files@[i].map.file_name,
            None => r matches Err(e) && is_failure(e, Status::BadRequest, "hash not found"@),
        },
        Err(e) => r matches Err(f) && is_failure(f, Status::BadRequest, e.text()),
    }
}

/// Plans the download of a resource that names no peers: the registered
/// files of `hash` are to be copied, in order and under their names.
pub fn local_copy(registry: &Registry, hash: &str) -> (r: Result<Vec<CopyJob>, Reply>)
    ensures
        local_copy_spec(registry@, hash@, r),
{
    match parse_hash(hash) {
        Err(e) => Err(failure(Status::BadRequest, e.message())),
        Ok(h) => match registry.lookup(h) {
            None => Err(failure(Status::BadRequest, "hash not found")),
            Some(d) => {
                let mut jobs: Vec<CopyJob> = Vec::new();
                let mut i: usize = 0;
                while i < d.files.len()
                    invariant
                        i <= d.files.len(),
                        jobs@.len() == i,
                        forall|k: int|
                            0 <= k < i ==> (#[trigger] jobs@[k]).source == d.files@[k].path
                                && jobs@[k].file_name == d.files@[k].map.file_name,
                    decreases d.files.len() - i,
                {
                    let entry = &d.files[i];
                    jobs.push(
                        CopyJob {
                            source: entry.path.clone(),
                            file_name: entry.map.file_name.clone(),
                        },
                    );
                    i += 1;
                }
                Ok(jobs)
            },
        },
    }
}

/// Reads the hash of a download; a text that is no hash is answered with a
/// failure.
pub fn download_hash(hash: &str) -> (r: Result<u128, Reply>)
    ensures
        match parse_hash_spec(hash@) {
            Ok(h) => r == Ok::<u128, Reply>(h),
            Err(e) => r matches Err(f) && is_failure(f, Status::BadRequest, e.text()),
        },
{
    match parse_hash(hash) {
        Ok(h) => Ok(h),
        Err(e) => Err(failure(Status::BadRequest, e.message())),
    }
}

/// Answers a download that has completed: the files that were written.
pub fn downloaded(files: Vec<String>) -> (r: Reply)
    ensures
        r == Reply::Download(DownloadResult { files }),
{
    Reply::Download(DownloadResult { files })
}

/// Answers a command that makes no sense.
pub fn invalid_command() -> (r: Reply)
    ensures
        is_failure(r, Status::BadRequest, "invalid command"@),
{
    failure(Status::BadRequest, "invalid command")
}

} // verus!
