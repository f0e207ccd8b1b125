//! Answering the requests of a peer from the registry.

use crate::codec::{Block, GetBlock, Message};
use crate::filemap::{block_len, block_range, block_start, FileMap};
use crate::registry::{
    entry_of, lemma_sweep_hides_expired, swept, unique_hashes, Registry, ResourceDescriptor,
};
use vstd::prelude::*;

verus! {

/// What is to be done about a request for a block.
#[derive(Debug, Clone, PartialEq, Eq)]
pub enum Served {
    /// Send this message.
    Reply(Message),
    /// Read `len` bytes at `offset` of the file stored at `path`, and send
    /// them as the block.
    Read { path: String, offset: u64, len: usize },
}

/// The resource `d` has block `block_nr` of file `file_nr`.
pub open spec fn has_block(d: ResourceDescriptor, file_nr: u32, block_nr: u32) -> bool {
    &&& file_nr < d.files@.len()
    &&& block_nr < d.files@[file_nr as int].map.blocks@.len()
    &&& block_len(d.files@[file_nr as int].map.file_size as nat, block_nr as nat) > 0
}

/// `out` is what a registry with entries `s` does about `request`: a block
/// that is not registered is reported as not found; a block of a resource
/// whose bytes are cached is sent from the cache; any other block is read
/// from its file, at the place that the block boundaries give.
pub open spec fn serve_block_spec(s: Seq<ResourceDescriptor>, request: GetBlock, out: Served) -> bool {
    match entry_of(s, request.hash) {
        Some(d) => if !has_block(d, request.file_nr, request.block_nr) {
            out == Served::Reply(Message::NotFound { hash: request.hash })
        } else if d.inline_data@.len() > 0 {
            out matches Served::Reply(Message::Block(b)) && b.hash == request.hash && b.file_nr
                == request.file_nr && b.block_nr == request.block_nr && b.bytes@
                == d.inline_data@
        } else {
            let file = d.files@[request.file_nr as int];
            out matches Served::Read { path, offset, len } && path == file.path && offset
                == block_start(request.block_nr as nat) && len == block_len(
                file.map.file_size as nat,
                request.block_nr as nat,
            )
        },
        None => out == Served::Reply(Message::NotFound { hash: request.hash }),
    }
}

fn copy_bytes(bytes: &Vec<u8>) -> (out: Vec<u8>)
    ensures
        out@ == bytes@,
{
    let mut out: Vec<u8> = Vec::new();
    let mut i: usize = 0;
    while i < bytes.len()
        invariant
            i <= bytes.len(),
            out@ == bytes@.take(i as int),
        decreases bytes.len() - i,
    {
        out.push(bytes[i]);
        assert(bytes@.take(i + 1) == bytes@.take(i as int).push(bytes@[i as int]));
        i += 1;
    }
    assert(bytes@.take(i as int) == bytes@);
    out
}

/// Decides what to do about a request for a block.
pub fn serve_block(registry: &Registry, request: GetBlock) -> (out: Served)
    ensures
        serve_block_spec(registry@, request, out),
{
    let not_found = Served::Reply(Message::NotFound { hash: request.hash });
    match registry.lookup(request.hash) {
        None => not_found,
        Some(d) => {
            if request.file_nr as usize >= d.files.len() {
                return not_found;
            }
            let file = &d.files[request.file_nr as usize];
            if request.block_nr as usize >= file.map.blocks.len() {
                return not_found;
            }
            match block_range(file.map.file_size, request.block_nr) {
                None => not_found,
                Some((offset, len)) => {
                    if d.inline_data.len() > 0 {
                        Served::Reply(
                            Message::Block(
                                Block {
                                    hash: request.hash,
                                    file_nr: request.file_nr,
                                    block_nr: request.block_nr,
                                    bytes: copy_bytes(&d.inline_data),
                                },
                            ),
                        )
                    } else {
                        Served::Read { path: file.path.clone(), offset, len }
                    }
                },
            }
        },
    }
}

/// The answer to `request` once its file was read: the block with the bytes
/// that were read, or, where the file could not be read, that the block was
/// not found.
pub fn block_reply(request: GetBlock, read: Option<Vec<u8>>) -> (m: Message)
    ensures
        m == match read {
            Some(bytes) => Message::Block(
                Block {
                    hash: request.hash,
                    file_nr: request.file_nr,
                    block_nr: request.block_nr,
                    bytes,
                },
            ),
            None => Message::NotFound { hash: request.hash },
        },
{
    match read {
        Some(bytes) => Message::Block(
            Block {
                hash: request.hash,
                file_nr: request.file_nr,
                block_nr: request.block_nr,
                bytes,
            },
        ),
        None => Message::NotFound { hash: request.hash },
    }
}

fn copy_map(map: &FileMap) -> (out: FileMap)
    ensures
        out@ == map@,
{
    let mut blocks: Vec<u128> = Vec::new();
    let mut i: usize = 0;
    while i < map.blocks.len()
        invariant
            i <= map.blocks.len(),
            blocks@ == map.blocks@.take(i as int),
        decreases map.blocks.len() - i,
    {
        blocks.push(map.blocks[i]);
        assert(map.blocks@.take(i + 1) == map.blocks@.take(i as int).push(map.blocks@[i as int]));
        i += 1;
    }
    assert(map.blocks@.take(i as int) == map.blocks@);
    FileMap { file_name: map.file_name.clone(), file_size: map.file_size, blocks }
}

/// `out` is what a registry with entries `s` answers when asked for the
/// manifest of `hash`: the manifests of the resource's files in order, or
/// that the resource was not found.
pub open spec fn serve_meta_spec(s: Seq<ResourceDescriptor>, hash: u128, out: Message) -> bool {
    match entry_of(s, hash) {
        Some(d) => out matches Message::Meta { hash: h, files } && h == hash && files@.len()
            == d.files@.len() && forall|i: int|
            0 <= i < files@.len() ==> (#[trigger] files@[i])@ == d.files@[i].map@,
        None => out == Message::NotFound { hash },
    }
}

/// Answers a request for the manifest of a resource.
pub fn serve_meta(registry: &Registry, hash: u128) -> (out: Message)
    ensures
        serve_meta_spec(registry@, hash, out),
{
    match registry.lookup(hash) {
        None => Message::NotFound { hash },
        Some(d) => {
            let mut files: Vec<FileMap> = Vec::new();
            let mut i: usize = 0;
            while i < d.files.len()
                invariant
                    i <= d.files.len(),
                    files@.len() == i,
                    forall|k: int| 0 <= k < i ==> (#[trigger] files@[k])@ == d.files@[k].map@,
                decreases d.files.len() - i,
            {
                files.push(copy_map(&d.files[i].map));
                i += 1;
            }
            Message::Meta { hash, files }
        },
    }
}

/// Once a sweep has run, what had expired is served no longer: a request
/// for a block of it, or for its manifest, is answered with not found.
pub proof fn lemma_expired_is_not_served(
    s: Seq<ResourceDescriptor>,
    now: u64,
    request: GetBlock,
    block: Served,
    meta: Message,
)
    requires
        unique_hashes(s),
        entry_of(s, request.hash) matches Some(d) && d.expired_at(now),
        serve_block_spec(swept(s, now), request, block),
        serve_meta_spec(swept(s, now), request.hash, meta),
    ensures
        block == Served::Reply(Message::NotFound { hash: request.hash }),
        meta == (Message::NotFound { hash: request.hash }),
{
    lemma_sweep_hides_expired(s, now, request.hash);
}

} // verus!
