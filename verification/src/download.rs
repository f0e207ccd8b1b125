//! Fetching a resource from a peer, block by block.
//!
//! The download itself is a state machine: it tells its driver what to do
//! next (create a file, request a block, append a block) and is told what
//! came of it. It requests blocks in manifest order, lets no block be written
//! whose bytes do not hash to what the manifest says, and stops for good at
//! the first failure.

use crate::codec::{Block, GetBlock};
use crate::connection::Answer;
use crate::error::Error;
use crate::filemap::{block_hash, hash_block, FileMap};
use vstd::prelude::*;

verus! {

/// Seconds a peer is given to deliver one block. With 32 MiB blocks this
/// keeps every download above roughly 110 kB/s.
pub const BLOCK_DEADLINE_SECS: u64 = 300;

/// Extension that a file gets when it is moved aside to make room for a
/// download of the same name.
pub const BACKUP_EXTENSION: &'static str = "bak";

/// Where a download stands.
#[derive(Debug, Clone, Copy, PartialEq, Eq, Structural)]
pub enum Phase {
    /// Not started.
    Idle,
    /// Waiting for the destination of the current file to be created.
    Opening,
    /// Waiting for the current block to arrive.
    Fetching,
    /// Waiting for the current block to be appended to its file.
    Writing,
    /// Every block of every file was written.
    Finished,
    /// Stopped at a failure.
    Failed,
}

/// What the driver of a download has to do next.
#[derive(Debug, Clone, PartialEq, Eq)]
pub enum Action {
    /// Create the destination of file `file_nr`, which must not exist yet
    /// (an older file of that name is first moved aside, as far as that
    /// works); then report `file_opened` or `failed`.
    OpenFile { file_nr: u32 },
    /// Send `request` to the peer and wait no longer than `deadline_secs`
    /// for the block; then report `block_received` or `failed`.
    Request { request: GetBlock, deadline_secs: u64 },
    /// Append the bytes of the block just reported to the end of the current
    /// file; then report `block_written` or `failed`.
    Write { file_nr: u32, block_nr: u32 },
    /// The download is complete.
    Finish,
    /// The download is over and did not complete.
    Abort(Error),
}

/// The largest number of files in a manifest, and of blocks in a file, that
/// requests can address.
pub const ADDRESS_LIMIT: u64 = 0x1_0000_0000;

/// Mathematical state of a download.
pub struct DownloadState {
    /// Hash of the resource.
    pub hash: u128,
    /// The manifest that the peer announced.
    pub manifest: Seq<FileMap>,
    pub phase: Phase,
    /// Number of files that are complete; also the position of the current
    /// file.
    pub file: nat,
    /// Position of the current block in the current file.
    pub block: nat,
    /// Destinations created so far, in file order.
    pub paths: Seq<String>,
    /// The bytes that were accepted for a block, by the positions of its
    /// file and of the block, and handed on to be written.
    pub accepted: Map<(nat, nat), Seq<u8>>,
}

/// Every file and block of the manifest has a position that fits in a
/// request.
pub open spec fn addressable(manifest: Seq<FileMap>) -> bool {
    &&& manifest.len() <= ADDRESS_LIMIT
    &&& forall|i: int|
        0 <= i < manifest.len() ==> (#[trigger] manifest[i]).blocks@.len() <= ADDRESS_LIMIT
}

/// The manifest has a block `b` in a file `f`, and that block comes before
/// block `block` of file `file`.
pub open spec fn precedes(manifest: Seq<FileMap>, f: nat, b: nat, file: nat, block: nat) -> bool {
    &&& f < manifest.len()
    &&& b < manifest[f as int].blocks@.len()
    &&& f < file || (f == file && b < block)
}

/// Bytes were accepted for block `b` of file `f` that hash to what the
/// manifest says.
pub open spec fn verified(
    manifest: Seq<FileMap>,
    accepted: Map<(nat, nat), Seq<u8>>,
    f: nat,
    b: nat,
) -> bool {
    accepted.contains_key((f, b)) && block_hash(accepted[(f, b)])
        == manifest[f as int].blocks@[b as int]
}

/// Every block that comes before block `block` of file `file` was verified.
pub open spec fn verified_before(
    manifest: Seq<FileMap>,
    accepted: Map<(nat, nat), Seq<u8>>,
    file: nat,
    block: nat,
) -> bool {
    forall|f: nat, b: nat| #[trigger]
        precedes(manifest, f, b, file, block) ==> verified(manifest, accepted, f, b)
}

/// What holds before a position holds before every earlier position.
pub proof fn lemma_verified_earlier(
    manifest: Seq<FileMap>,
    accepted: Map<(nat, nat), Seq<u8>>,
    file: nat,
    block: nat,
    earlier_file: nat,
    earlier_block: nat,
)
    requires
        verified_before(manifest, accepted, file, block),
        earlier_file < file || (earlier_file == file && earlier_block <= block),
    ensures
        verified_before(manifest, accepted, earlier_file, earlier_block),
{
    assert forall|f: nat, b: nat| #[trigger]
        precedes(manifest, f, b, earlier_file, earlier_block) implies verified(
        manifest,
        accepted,
        f,
        b,
    ) by {
        assert(precedes(manifest, f, b, file, block));
    }
}

/// Once every block of a file was verified, everything before the next file
/// was.
pub proof fn lemma_verified_file(
    manifest: Seq<FileMap>,
    accepted: Map<(nat, nat), Seq<u8>>,
    file: nat,
    block: nat,
)
    requires
        verified_before(manifest, accepted, file, block),
        file >= manifest.len() || block >= manifest[file as int].blocks@.len(),
    ensures
        verified_before(manifest, accepted, file + 1, 0),
{
    assert forall|f: nat, b: nat| #[trigger]
        precedes(manifest, f, b, file + 1, 0) implies verified(manifest, accepted, f, b) by {
        assert(precedes(manifest, f, b, file, block));
    }
}

/// Accepting bytes that hash to what the manifest says for the next block
/// verifies that block.
pub proof fn lemma_verified_block(
    manifest: Seq<FileMap>,
    accepted: Map<(nat, nat), Seq<u8>>,
    file: nat,
    block: nat,
    bytes: Seq<u8>,
)
    requires
        verified_before(manifest, accepted, file, block),
        file < manifest.len(),
        block < manifest[file as int].blocks@.len(),
        block_hash(bytes) == manifest[file as int].blocks@[block as int],
    ensures
        verified_before(manifest, accepted.insert((file, block), bytes), file, block + 1),
{
    let more = accepted.insert((file, block), bytes);
    assert forall|f: nat, b: nat| #[trigger]
        precedes(manifest, f, b, file, block + 1) implies verified(manifest, more, f, b) by {
        if f == file && b == block {
        } else {
            assert(precedes(manifest, f, b, file, block));
            assert(verified(manifest, accepted, f, b));
            assert((f, b) != (file, block));
        }
    }
}

impl DownloadState {
    /// The manifest has a block `block` in a file `file`.
    pub open spec fn has_block(self, file: nat, block: nat) -> bool {
        file < self.manifest.len() && block < self.manifest[file as int].blocks@.len()
    }

    /// Position of the first block of the current file that was not
    /// accepted yet.
    pub open spec fn reach(self) -> nat {
        if self.phase == Phase::Writing {
            self.block + 1
        } else {
            self.block
        }
    }

    /// The positions are consistent with the phase and with the manifest, and
    /// every block that the download has got past was verified.
    pub open spec fn wf(self) -> bool {
        &&& addressable(self.manifest)
        &&& verified_before(self.manifest, self.accepted, self.file, self.reach())
        &&& match self.phase {
            Phase::Idle => self.file == 0 && self.block == 0 && self.paths.len() == 0,
            Phase::Opening => self.file < self.manifest.len() && self.block == 0
                && self.paths.len() == self.file,
            Phase::Fetching | Phase::Writing => self.file < self.manifest.len() && self.block
                < self.manifest[self.file as int].blocks@.len() && self.paths.len() == self.file
                + 1,
            Phase::Finished => self.file == self.manifest.len() && self.paths.len() == self.file,
            Phase::Failed => self.file <= self.paths.len() <= self.file + 1,
        }
    }

    /// The download has ended, one way or the other.
    pub open spec fn is_over(self) -> bool {
        self.phase == Phase::Finished || self.phase == Phase::Failed
    }

    /// The hash that the manifest gives for the current block.
    pub open spec fn expected(self) -> u128 {
        self.manifest[self.file as int].blocks@[self.block as int]
    }

    /// The request for the current block.
    pub open spec fn request(self) -> Action {
        Action::Request {
            request: GetBlock {
                hash: self.hash,
                file_nr: self.file as u32,
                block_nr: self.block as u32,
            },
            deadline_secs: BLOCK_DEADLINE_SECS,
        }
    }

    /// Destinations of the files that are complete.
    pub open spec fn completed(self) -> Seq<String> {
        self.paths.take(self.file as int)
    }

    /// A report that does not fit the phase ends a running download; a
    /// download that is over stays as it is.
    pub open spec fn out_of_step(self) -> (DownloadState, Action) {
        (
            if self.is_over() {
                self
            } else {
                DownloadState { phase: Phase::Failed, ..self }
            },
            Action::Abort(Error::ServiceFail("download")),
        )
    }

    /// Turning to file `f`: its destination is to be created, or, where the
    /// manifest has no such file, the download is complete.
    pub open spec fn enter_file(self, f: nat) -> (DownloadState, Action) {
        if f >= self.manifest.len() {
            (DownloadState { phase: Phase::Finished, file: f, block: 0, ..self }, Action::Finish)
        } else {
            (
                DownloadState { phase: Phase::Opening, file: f, block: 0, ..self },
                Action::OpenFile { file_nr: f as u32 },
            )
        }
    }

    /// The download begins with its first file.
    pub open spec fn after_start(self) -> (DownloadState, Action) {
        if self.phase == Phase::Idle {
            self.enter_file(0)
        } else {
            self.out_of_step()
        }
    }

    /// The destination of the current file was created at `path`: its first
    /// block is requested; a file without blocks is complete at once.
    pub open spec fn after_file_opened(self, path: String) -> (DownloadState, Action) {
        if self.phase != Phase::Opening {
            self.out_of_step()
        } else {
            let opened = DownloadState { paths: self.paths.push(path), ..self };
            if self.manifest[self.file as int].blocks@.len() == 0 {
                opened.enter_file(self.file + 1)
            } else {
                let next = DownloadState { phase: Phase::Fetching, ..opened };
                (next, next.request())
            }
        }
    }

    /// The peer delivered `bytes` for the current block: they are written if
    /// they hash to what the manifest says, and end the download if not.
    pub open spec fn after_block(self, bytes: Seq<u8>) -> (DownloadState, Action) {
        if self.phase != Phase::Fetching {
            self.out_of_step()
        } else if block_hash(bytes) != self.expected() {
            (
                DownloadState { phase: Phase::Failed, ..self },
                Action::Abort(Error::InvalidBlockHash(block_hash(bytes))),
            )
        } else {
            (
                DownloadState {
                    phase: Phase::Writing,
                    accepted: self.accepted.insert((self.file, self.block), bytes),
                    ..self
                },
                Action::Write { file_nr: self.file as u32, block_nr: self.block as u32 },
            )
        }
    }

    /// The peer answered the request for the current block: a block is
    /// verified, and anything else ends the download.
    pub open spec fn after_answer(self, answer: Answer) -> (DownloadState, Action) {
        match answer {
            Answer::Block(block) => self.after_block(block.bytes@),
            Answer::NotFound { hash } => self.after_failure(Error::ResourceNotFound(hash)),
            Answer::Meta { hash, files } => self.after_failure(Error::ServiceFail("peer")),
        }
    }

    /// The current block was appended to its file: the next block of the
    /// file is requested, or the next file is turned to.
    pub open spec fn after_block_written(self) -> (DownloadState, Action) {
        if self.phase != Phase::Writing {
            self.out_of_step()
        } else if self.block + 1 < self.manifest[self.file as int].blocks@.len() {
            let next = DownloadState { phase: Phase::Fetching, block: self.block + 1, ..self };
            (next, next.request())
        } else {
            self.enter_file(self.file + 1)
        }
    }

    /// Something failed outside: a running download ends with that error.
    pub open spec fn after_failure(self, err: Error) -> (DownloadState, Action) {
        if self.is_over() {
            self.out_of_step()
        } else {
            (DownloadState { phase: Phase::Failed, ..self }, Action::Abort(err))
        }
    }
}

/// `b` stands at the same block as `a`, or at a later one.
pub open spec fn not_behind(a: DownloadState, b: DownloadState) -> bool {
    a.file < b.file || (a.file == b.file && a.block <= b.block)
}

/// A block is handed on to be written only while that block is awaited and
/// only if its bytes hash to what the manifest says; bytes that hash to
/// anything else end the download with an integrity error.
pub proof fn lemma_only_verified_blocks_are_written(s: DownloadState, bytes: Seq<u8>)
    ensures
        s.after_block(bytes).1 is Write <==> s.phase == Phase::Fetching && block_hash(bytes)
            == s.expected(),
        s.phase == Phase::Fetching && block_hash(bytes) != s.expected() ==> s.after_block(
            bytes,
        ).0.phase == Phase::Failed && s.after_block(bytes).1 == Action::Abort(
            Error::InvalidBlockHash(block_hash(bytes)),
        ),
{
}

/// A download that is over stays as it is: whatever is reported to it, its
/// state does not change, and it asks for nothing to be created, requested
/// or written.
pub proof fn lemma_over_is_final(s: DownloadState, path: String, bytes: Seq<u8>, err: Error)
    requires
        s.is_over(),
    ensures
        s.after_start() == (s, Action::Abort(Error::ServiceFail("download"))),
        s.after_file_opened(path) == (s, Action::Abort(Error::ServiceFail("download"))),
        s.after_block(bytes) == (s, Action::Abort(Error::ServiceFail("download"))),
        s.after_block_written() == (s, Action::Abort(Error::ServiceFail("download"))),
        s.after_failure(err) == (s, Action::Abort(Error::ServiceFail("download"))),
{
}

/// Every step leaves the download consistent, never goes back to an earlier
/// block, and keeps the files that were complete.
pub proof fn lemma_steps_go_forward(s: DownloadState, path: String, bytes: Seq<u8>, err: Error)
    requires
        s.wf(),
    ensures
        s.after_start().0.wf() && not_behind(s, s.after_start().0),
        s.after_file_opened(path).0.wf() && not_behind(s, s.after_file_opened(path).0),
        s.after_block(bytes).0.wf() && not_behind(s, s.after_block(bytes).0),
        s.after_block_written().0.wf() && not_behind(s, s.after_block_written().0),
        s.after_failure(err).0.wf() && not_behind(s, s.after_failure(err).0),
        s.completed() == s.after_start().0.completed().take(s.file as int),
        s.completed() == s.after_file_opened(path).0.completed().take(s.file as int),
        s.completed() == s.after_block(bytes).0.completed().take(s.file as int),
        s.completed() == s.after_block_written().0.completed().take(s.file as int),
        s.completed() == s.after_failure(err).0.completed().take(s.file as int),
{
    let m = s.manifest;
    let a = s.accepted;
    lemma_verified_earlier(m, a, s.file, s.reach(), s.file, s.block);
    lemma_verified_earlier(m, a, s.file, s.reach(), 0, 0);
    if s.phase == Phase::Opening && m[s.file as int].blocks@.len() == 0 {
        lemma_verified_file(m, a, s.file, 0);
    }
    if s.phase == Phase::Writing && s.block + 1 >= m[s.file as int].blocks@.len() {
        lemma_verified_file(m, a, s.file, s.block + 1);
    }
    if s.phase == Phase::Fetching && block_hash(bytes) == s.expected() {
        lemma_verified_block(m, a, s.file, s.block, bytes);
    }
}

/// A download that is complete has verified every block: for every block of
/// every file of the manifest, bytes were accepted and handed on to be
/// written that hash to what the manifest says.
pub proof fn lemma_complete_means_verified(s: DownloadState, file: nat, block: nat)
    requires
        s.wf(),
        s.phase == Phase::Finished,
        s.has_block(file, block),
    ensures
        verified(s.manifest, s.accepted, file, block),
{
    assert(precedes(s.manifest, file, block, s.file, s.reach()));
}

/// Blocks are requested in strictly increasing order: the request that
/// follows a written block is for the next block of the same file, or the
/// download turns to the next file.
pub proof fn lemma_next_request_is_later(s: DownloadState)
    requires
        s.wf(),
        s.phase == Phase::Writing,
    ensures
        ({
            let (t, action) = s.after_block_written();
            match action {
                Action::Request { request, deadline_secs } => t.file == s.file && t.block
                    == s.block + 1 && request.hash == s.hash && request.file_nr == s.file
                    && request.block_nr == s.block + 1 && deadline_secs == BLOCK_DEADLINE_SECS,
                Action::OpenFile { file_nr } => t.file == s.file + 1 && file_nr == s.file + 1,
                Action::Finish => t.file == s.file + 1 && t.file == s.manifest.len()
                    && t.completed() == t.paths,
                _ => false,
            }
        }),
{
}

/// A download of one resource from one peer.
pub struct Download {
    hash: u128,
    manifest: Vec<FileMap>,
    phase: Phase,
    file: usize,
    block: usize,
    paths: Vec<String>,
    accepted: Ghost<Map<(nat, nat), Seq<u8>>>,
}

impl View for Download {
    type V = DownloadState;

    closed spec fn view(&self) -> DownloadState {
        DownloadState {
            hash: self.hash,
            manifest: self.manifest@,
            phase: self.phase,
            file: self.file as nat,
            block: self.block as nat,
            paths: self.paths@,
            accepted: self.accepted@,
        }
    }
}

fn is_addressable(manifest: &Vec<FileMap>) -> (ok: bool)
    ensures
        ok == addressable(manifest@),
{
    if manifest.len() as u64 > ADDRESS_LIMIT {
        return false;
    }
    let mut i: usize = 0;
    while i < manifest.len()
        invariant
            i <= manifest.len(),
            forall|k: int| 0 <= k < i ==> (#[trigger] manifest@[k]).blocks@.len() <= ADDRESS_LIMIT,
        decreases manifest.len() - i,
    {
        if manifest[i].blocks.len() as u64 > ADDRESS_LIMIT {
            return false;
        }
        i += 1;
    }
    true
}

impl Download {
    #[verifier::type_invariant]
    spec fn consistent(&self) -> bool {
        self@.wf()
    }

    /// A download of the resource `hash`, whose files the peer announced as
    /// `manifest`. `None` if the manifest has more files, or a file more
    /// blocks, than requests can address.
    pub fn new(hash: u128, manifest: Vec<FileMap>) -> (r: Option<Download>)
        ensures
            match r {
                Some(d) => addressable(manifest@) && d@ == (DownloadState {
                    hash,
                    manifest: manifest@,
                    phase: Phase::Idle,
                    file: 0,
                    block: 0,
                    paths: Seq::empty(),
                    accepted: Map::empty(),
                }) && d@.wf(),
                None => !addressable(manifest@),
            },
    {
        if is_addressable(&manifest) {
            Some(
                Download {
                    hash,
                    manifest,
                    phase: Phase::Idle,
                    file: 0,
                    block: 0,
                    paths: Vec::new(),
                    accepted: Ghost(Map::empty()),
                },
            )
        } else {
            None
        }
    }

    /// Where the download stands.
    pub fn phase(&self) -> (p: Phase)
        ensures
            p == self@.phase,
            self@.wf(),
    {
        proof {
            use_type_invariant(self);
        }
        self.phase
    }

    /// Name of file `file_nr` of the manifest, if there is such a file.
    pub fn file_name(&self, file_nr: u32) -> (name: Option<&String>)
        ensures
            name == if file_nr < self@.manifest.len() {
                Some(&self@.manifest[file_nr as int].file_name)
            } else {
                None
            },
    {
        if (file_nr as usize) < self.manifest.len() {
            Some(&self.manifest[file_nr as usize].file_name)
        } else {
            None
        }
    }

    /// The manifest that is being downloaded.
    pub fn manifest(&self) -> (m: &Vec<FileMap>)
        ensures
            m@ == self@.manifest,
    {
        &self.manifest
    }

    /// A download of nothing that has not started: what stands in for a
    /// download while a step works on it.
    fn idle() -> (d: Download)
        ensures
            d@ == (DownloadState {
                hash: 0,
                manifest: Seq::empty(),
                phase: Phase::Idle,
                file: 0,
                block: 0,
                paths: Seq::empty(),
                accepted: Map::empty(),
            }),
            d@.wf(),
    {
        Download {
            hash: 0,
            manifest: Vec::new(),
            phase: Phase::Idle,
            file: 0,
            block: 0,
            paths: Vec::new(),
            accepted: Ghost(Map::empty()),
        }
    }

    fn take(&mut self) -> (d: Download)
        ensures
            d@ == old(self)@,
            d@.wf(),
    {
        let mut d = Download::idle();
        core::mem::swap(self, &mut d);
        proof {
            use_type_invariant(&d);
        }
        d
    }

    fn out_of_step(self) -> (r: (Download, Action))
        ensures
            (r.0@, r.1) == self@.out_of_step(),
    {
        proof {
            use_type_invariant(&self);
        }
        let ghost before = self@;
        let Download { hash, manifest, phase, file, block, paths, accepted } = self;
        let phase = match phase {
            Phase::Finished => Phase::Finished,
            _ => Phase::Failed,
        };
        proof {
            lemma_verified_earlier(
                manifest@,
                accepted@,
                file as nat,
                before.reach(),
                file as nat,
                block as nat,
            );
        }
        (
            Download { hash, manifest, phase, file, block, paths, accepted },
            Action::Abort(Error::ServiceFail("download")),
        )
    }

    fn enter_file(
        hash: u128,
        manifest: Vec<FileMap>,
        f: usize,
        paths: Vec<String>,
        accepted: Ghost<Map<(nat, nat), Seq<u8>>>,
    ) -> (r: (Download, Action))
        requires
            addressable(manifest@),
            f <= manifest@.len(),
            paths@.len() == f,
            verified_before(manifest@, accepted@, f as nat, 0),
        ensures
            r.0@.hash == hash,
            r.0@.manifest == manifest@,
            r.0@.paths == paths@,
            r.0@.accepted == accepted@,
            r.0@.block == 0,
            r.0@.file == f,
            r.0@.phase == if f >= manifest@.len() {
                Phase::Finished
            } else {
                Phase::Opening
            },
            r.1 == if f >= manifest@.len() {
                Action::Finish
            } else {
                Action::OpenFile { file_nr: f as u32 }
            },
    {
        if f >= manifest.len() {
            (
                Download {
                    hash,
                    manifest,
                    phase: Phase::Finished,
                    file: f,
                    block: 0,
                    paths,
                    accepted,
                },
                Action::Finish,
            )
        } else {
            (
                Download {
                    hash,
                    manifest,
                    phase: Phase::Opening,
                    file: f,
                    block: 0,
                    paths,
                    accepted,
                },
                Action::OpenFile { file_nr: f as u32 },
            )
        }
    }

    fn fetching(
        hash: u128,
        manifest: Vec<FileMap>,
        file: usize,
        block: usize,
        paths: Vec<String>,
        accepted: Ghost<Map<(nat, nat), Seq<u8>>>,
    ) -> (r: (Download, Action))
        requires
            addressable(manifest@),
            file < manifest@.len(),
            block < manifest@[file as int].blocks@.len(),
            paths@.len() == file + 1,
            verified_before(manifest@, accepted@, file as nat, block as nat),
        ensures
            r.0@ == (DownloadState {
                hash,
                manifest: manifest@,
                phase: Phase::Fetching,
                file: file as nat,
                block: block as nat,
                paths: paths@,
                accepted: accepted@,
            }),
            r.1 == r.0@.request(),
    {
        let request = GetBlock { hash, file_nr: file as u32, block_nr: block as u32 };
        (
            Download { hash, manifest, phase: Phase::Fetching, file, block, paths, accepted },
            Action::Request { request, deadline_secs: BLOCK_DEADLINE_SECS },
        )
    }

    fn started(self) -> (r: (Download, Action))
        ensures
            (r.0@, r.1) == self@.after_start(),
    {
        proof {
            use_type_invariant(&self);
        }
        match self.phase {
            Phase::Idle => {
                let Download { hash, manifest, phase: _, file: _, block: _, paths, accepted } =
                    self;
                Download::enter_file(hash, manifest, 0, paths, accepted)
            },
            _ => self.out_of_step(),
        }
    }

    fn opened(self, path: String) -> (r: (Download, Action))
        ensures
            (r.0@, r.1) == self@.after_file_opened(path),
    {
        proof {
            use_type_invariant(&self);
        }
        match self.phase {
            Phase::Opening => {
                let Download { hash, manifest, phase: _, file, block: _, paths, accepted } = self;
                let mut paths = paths;
                paths.push(path);
                let files: usize = manifest.len();
                assert(file < files);
                proof {
                    if manifest@[file as int].blocks@.len() == 0 {
                        lemma_verified_file(manifest@, accepted@, file as nat, 0);
                    }
                }
                if manifest[file].blocks.len() == 0 {
                    Download::enter_file(hash, manifest, file + 1, paths, accepted)
                } else {
                    Download::fetching(hash, manifest, file, 0, paths, accepted)
                }
            },
            _ => self.out_of_step(),
        }
    }

    fn received(self, block: &Block) -> (r: (Download, Action))
        ensures
            (r.0@, r.1) == self@.after_block(block.bytes@),
    {
        proof {
            use_type_invariant(&self);
        }
        match self.phase {
            Phase::Fetching => {
                let Download { hash, manifest, phase: _, file, block: block_nr, paths, accepted } =
                    self;
                let found = hash_block(block.bytes.as_slice());
                if found != manifest[file].blocks[block_nr] {
                    let failed = Download {
                        hash,
                        manifest,
                        phase: Phase::Failed,
                        file,
                        block: block_nr,
                        paths,
                        accepted,
                    };
                    (failed, Action::Abort(Error::InvalidBlockHash(found)))
                } else {
                    let ghost kept = accepted@.insert((file as nat, block_nr as nat), block.bytes@);
                    proof {
                        lemma_verified_block(
                            manifest@,
                            accepted@,
                            file as nat,
                            block_nr as nat,
                            block.bytes@,
                        );
                    }
                    let writing = Download {
                        hash,
                        manifest,
                        phase: Phase::Writing,
                        file,
                        block: block_nr,
                        paths,
                        accepted: Ghost(kept),
                    };
                    (writing, Action::Write { file_nr: file as u32, block_nr: block_nr as u32 })
                }
            },
            _ => self.out_of_step(),
        }
    }

    fn written(self) -> (r: (Download, Action))
        ensures
            (r.0@, r.1) == self@.after_block_written(),
    {
        proof {
            use_type_invariant(&self);
        }
        match self.phase {
            Phase::Writing => {
                let Download { hash, manifest, phase: _, file, block, paths, accepted } = self;
                let files: usize = manifest.len();
                let blocks: usize = manifest[file].blocks.len();
                assert(file < files && block < blocks);
                proof {
                    if block + 1 >= blocks {
                        lemma_verified_file(manifest@, accepted@, file as nat, (block + 1) as nat);
                    }
                }
                if block + 1 < blocks {
                    Download::fetching(hash, manifest, file, block + 1, paths, accepted)
                } else {
                    Download::enter_file(hash, manifest, file + 1, paths, accepted)
                }
            },
            _ => self.out_of_step(),
        }
    }

    fn gave_up(self, err: Error) -> (r: (Download, Action))
        ensures
            (r.0@, r.1) == self@.after_failure(err),
    {
        proof {
            use_type_invariant(&self);
        }
        match self.phase {
            Phase::Finished | Phase::Failed => self.out_of_step(),
            _ => {
                let ghost before = self@;
                let Download { hash, manifest, phase: _, file, block, paths, accepted } = self;
                proof {
                    lemma_verified_earlier(
                        manifest@,
                        accepted@,
                        file as nat,
                        before.reach(),
                        file as nat,
                        block as nat,
                    );
                }
                let failed =
                    Download { hash, manifest, phase: Phase::Failed, file, block, paths, accepted };
                (failed, Action::Abort(err))
            },
        }
    }

    /// Begins the download.
    pub fn start(&mut self) -> (action: Action)
        ensures
            (final(self)@, action) == old(self)@.after_start(),
            final(self)@.wf(),
    {
        let (next, action) = self.take().started();
        proof {
            use_type_invariant(&next);
        }
        *self = next;
        action
    }

    /// Reports that the destination of the current file was created at
    /// `path`.
    pub fn file_opened(&mut self, path: String) -> (action: Action)
        ensures
            (final(self)@, action) == old(self)@.after_file_opened(path),
            final(self)@.wf(),
    {
        let (next, action) = self.take().opened(path);
        proof {
            use_type_invariant(&next);
        }
        *self = next;
        action
    }

    /// Reports the block that the peer delivered for the last request.
    pub fn block_received(&mut self, block: &Block) -> (action: Action)
        ensures
            (final(self)@, action) == old(self)@.after_block(block.bytes@),
            final(self)@.wf(),
    {
        let (next, action) = self.take().received(block);
        proof {
            use_type_invariant(&next);
        }
        *self = next;
        action
    }

    /// Reports what the peer answered to the last request. Where the answer
    /// is a block that is to be written, its bytes are those of `answer`.
    pub fn answered(&mut self, answer: &Answer) -> (action: Action)
        ensures
            (final(self)@, action) == old(self)@.after_answer(*answer),
            final(self)@.wf(),
    {
        match answer {
            Answer::Block(block) => self.block_received(block),
            Answer::NotFound { hash } => self.failed(Error::ResourceNotFound(*hash)),
            Answer::Meta { hash: _, files: _ } => self.failed(Error::ServiceFail("peer")),
        }
    }

    /// Reports that the block was appended to the current file.
    pub fn block_written(&mut self) -> (action: Action)
        ensures
            (final(self)@, action) == old(self)@.after_block_written(),
            final(self)@.wf(),
    {
        let (next, action) = self.take().written();
        proof {
            use_type_invariant(&next);
        }
        *self = next;
        action
    }

    /// Reports that the last action failed with `err`.
    pub fn failed(&mut self, err: Error) -> (action: Action)
        ensures
            (final(self)@, action) == old(self)@.after_failure(err),
            final(self)@.wf(),
    {
        let (next, action) = self.take().gave_up(err);
        proof {
            use_type_invariant(&next);
        }
        *self = next;
        action
    }

    /// Ends the download and hands out the destinations of the files that
    /// are complete, in file order.
    pub fn into_completed(self) -> (files: Vec<String>)
        ensures
            files@ == self@.completed(),
    {
        proof {
            use_type_invariant(&self);
        }
        let Download { hash: _, manifest: _, phase: _, file, block: _, paths, accepted: _ } = self;
        let mut files = paths;
        files.truncate(file);
        files
    }
}

/// What an answer to the request for a manifest gives: the manifest, or the
/// error that says why there is none.
pub open spec fn manifest_in(answer: Answer) -> Result<Vec<FileMap>, Error> {
    match answer {
        Answer::Meta { hash, files } => Ok(files),
        Answer::NotFound { hash } => Err(Error::ResourceNotFound(hash)),
        Answer::Block(block) => Err(Error::ServiceFail("peer")),
    }
}

/// Takes the manifest out of the answer to a request for it.
pub fn manifest_of(answer: Answer) -> (r: Result<Vec<FileMap>, Error>)
    ensures
        r == manifest_in(answer),
{
    match answer {
        Answer::Meta { hash: _, files } => Ok(files),
        Answer::NotFound { hash } => Err(Error::ResourceNotFound(hash)),
        Answer::Block(_) => Err(Error::ServiceFail("peer")),
    }
}

} // verus!
