//! Content addressing: cutting a file into blocks, naming each block by a
//! digest of its bytes, and naming a set of files by one resource hash.

use sha2::Digest;
use vstd::bytes::{
    spec_u128_from_le_bytes, spec_u128_to_le_bytes, spec_u64_to_le_bytes, u128_from_le_bytes,
    u128_to_le_bytes, u64_to_le_bytes,
};
use vstd::prelude::*;
use vstd::slice::slice_subrange;

verus! {

/// Number of bytes in every block of a file but the last one (32 MiB).
pub const BLOCK_SIZE: usize = 33_554_432;

/// The SHA-256 digest of a byte string.
pub uninterp spec fn sha256(data: Seq<u8>) -> Seq<u8>;

/// Calls `sha2::Sha256::digest`.
///
/// Trusted: the result is the SHA-256 digest of `data`, which is 32 bytes long
/// and depends on nothing but `data`.
#[verifier::external_body]
fn sha256_digest(data: &[u8]) -> (out: Vec<u8>)
    ensures
        out@ == sha256(data@),
        out@.len() == 32,
{
    sha2::Sha256::digest(data).to_vec()
}

/// The 128-bit identifier carried by a digest: its first sixteen bytes, read
/// as a little-endian integer.
pub open spec fn digest_to_hash(digest: Seq<u8>) -> u128 {
    spec_u128_from_le_bytes(digest.subrange(0, 16))
}

/// The content hash of a block.
pub open spec fn block_hash(bytes: Seq<u8>) -> u128 {
    digest_to_hash(sha256(bytes))
}

/// Number of blocks in a file of `file_size` bytes.
pub open spec fn block_count(file_size: nat) -> nat {
    ((file_size + BLOCK_SIZE - 1) / (BLOCK_SIZE as int)) as nat
}

/// Offset of block `index` from the start of its file.
pub open spec fn block_start(index: nat) -> nat {
    index * (BLOCK_SIZE as nat)
}

/// Length of block `index` in a file of `file_size` bytes; zero when the file
/// has no such block.
pub open spec fn block_len(file_size: nat, index: nat) -> nat {
    if block_start(index) >= file_size {
        0
    } else if file_size - block_start(index) > BLOCK_SIZE {
        BLOCK_SIZE as nat
    } else {
        (file_size - block_start(index)) as nat
    }
}

/// The bytes of block `index` of a file with contents `data`.
pub open spec fn block_bytes(data: Seq<u8>, index: nat) -> Seq<u8> {
    data.subrange(
        block_start(index) as int,
        (block_start(index) + block_len(data.len(), index)) as int,
    )
}

/// The hashes of all blocks of a file, in block order.
pub open spec fn file_block_hashes(data: Seq<u8>) -> Seq<u128> {
    Seq::new(block_count(data.len()), |k: int| block_hash(block_bytes(data, k as nat)))
}

/// Manifest of one file: its name, its size, and the hash of each of its
/// blocks. A block is addressed by its position in `blocks`.
#[derive(Debug, Clone, PartialEq, Eq)]
pub struct FileMap {
    pub file_name: String,
    pub file_size: u64,
    pub blocks: Vec<u128>,
}

/// Mathematical value of a [`FileMap`].
pub struct FileMapView {
    pub file_name: Seq<char>,
    pub file_size: u64,
    pub blocks: Seq<u128>,
}

impl View for FileMap {
    type V = FileMapView;

    open spec fn view(&self) -> FileMapView {
        FileMapView { file_name: self.file_name@, file_size: self.file_size, blocks: self.blocks@ }
    }
}

/// The manifest of a file called `file_name` whose contents are `data`.
pub open spec fn file_map_of(file_name: Seq<char>, data: Seq<u8>) -> FileMapView
    recommends
        data.len() <= u64::MAX,
{
    FileMapView {
        file_name,
        file_size: data.len() as u64,
        blocks: file_block_hashes(data),
    }
}

/// The views of a sequence of manifests.
pub open spec fn manifest_view(files: Seq<FileMap>) -> Seq<FileMapView> {
    files.map_values(|f: FileMap| f@)
}

/// Block hashes laid out one after another, sixteen bytes each.
pub open spec fn hashes_bytes(hashes: Seq<u128>) -> Seq<u8>
    decreases hashes.len(),
{
    if hashes.len() == 0 {
        Seq::empty()
    } else {
        hashes_bytes(hashes.drop_last()) + spec_u128_to_le_bytes(hashes.last())
    }
}

/// What one file contributes to the resource hash: its size, then its block
/// hashes. The file's name is not part of it.
pub open spec fn file_digest_input(file: FileMapView) -> Seq<u8> {
    spec_u64_to_le_bytes(file.file_size) + hashes_bytes(file.blocks)
}

/// What a set of files contributes to the resource hash, file after file.
pub open spec fn manifest_digest_input(files: Seq<FileMapView>) -> Seq<u8>
    decreases files.len(),
{
    if files.len() == 0 {
        Seq::empty()
    } else {
        manifest_digest_input(files.drop_last()) + file_digest_input(files.last())
    }
}

/// The resource hash of an ordered set of files.
pub open spec fn resource_hash(files: Seq<FileMapView>) -> u128 {
    digest_to_hash(sha256(manifest_digest_input(files)))
}

/// Two manifests describe the same bytes: sizes and block hashes agree file
/// by file, whatever the files are called.
pub open spec fn same_content(a: Seq<FileMapView>, b: Seq<FileMapView>) -> bool {
    &&& a.len() == b.len()
    &&& forall|i: int|
        0 <= i < a.len() ==> (#[trigger] a[i]).file_size == b[i].file_size && a[i].blocks
            == b[i].blocks
}

/// The manifests of files with the given names and contents.
pub open spec fn file_maps_of(names: Seq<Seq<char>>, contents: Seq<Seq<u8>>) -> Seq<FileMapView>
    recommends
        names.len() == contents.len(),
{
    Seq::new(contents.len(), |i: int| file_map_of(names[i], contents[i]))
}

/// Computes the content hash of a block.
pub fn hash_block(bytes: &[u8]) -> (h: u128)
    ensures
        h == block_hash(bytes@),
{
    let digest = sha256_digest(bytes);
    u128_from_le_bytes(slice_subrange(digest.as_slice(), 0, 16))
}

/// Tells whether `bytes` are the block that a manifest lists under `expected`.
pub fn block_matches(bytes: &[u8], expected: u128) -> (ok: bool)
    ensures
        ok == (block_hash(bytes@) == expected),
{
    hash_block(bytes) == expected
}

/// Builds the manifest of a file from its name and its whole contents.
pub fn hash_file(data: &[u8], file_name: String) -> (m: FileMap)
    ensures
        m@ == file_map_of(file_name@, data@),
{
    let len: usize = data.len();
    let mut blocks: Vec<u128> = Vec::new();
    let mut start: usize = 0;
    while start < len
        invariant
            len == data@.len(),
            start <= len,
            start % BLOCK_SIZE == 0 || start == len,
            blocks@ =~= Seq::new(
                block_count(start as nat),
                |k: int| block_hash(block_bytes(data@, k as nat)),
            ),
        decreases len - start,
    {
        let ghost k: nat = block_count(start as nat);
        assert(block_start(k) == start);
        let end: usize = if len - start > BLOCK_SIZE {
            start + BLOCK_SIZE
        } else {
            len
        };
        assert(block_count(end as nat) == k + 1);
        assert(block_bytes(data@, k) == data@.subrange(start as int, end as int));
        let h = hash_block(slice_subrange(data, start, end));
        blocks.push(h);
        start = end;
    }
    FileMap { file_name, file_size: len as u64, blocks }
}

/// Appending one more block to a file that ends at a block boundary appends
/// one hash to its manifest.
pub proof fn lemma_append_block(data: Seq<u8>, chunk: Seq<u8>)
    requires
        data.len() % (BLOCK_SIZE as nat) == 0,
        0 < chunk.len() <= BLOCK_SIZE,
    ensures
        file_block_hashes(data + chunk) == file_block_hashes(data).push(block_hash(chunk)),
{
    let all = data + chunk;
    let n = block_count(data.len());
    assert(block_count(all.len()) == n + 1);
    assert(block_start(n) == data.len());
    assert(block_bytes(all, n) =~= chunk);
    assert forall|k: nat| k < n implies #[trigger] block_bytes(all, k) == block_bytes(data, k) by {
        assert(block_start(k) + BLOCK_SIZE <= data.len());
        assert(block_bytes(all, k) =~= block_bytes(data, k));
    }
    assert(file_block_hashes(all) =~= file_block_hashes(data).push(block_hash(chunk)));
}

/// Builds the manifest of a file that is read block by block.
pub struct FileMapBuilder {
    file_name: String,
    size: u64,
    blocks: Vec<u128>,
    open: bool,
    data: Ghost<Seq<u8>>,
}

impl FileMapBuilder {
    #[verifier::type_invariant]
    spec fn consistent(&self) -> bool {
        &&& self.size == self.data@.len()
        &&& self.blocks@ == file_block_hashes(self.data@)
        &&& self.open ==> self.size as nat % (BLOCK_SIZE as nat) == 0
    }

    /// The name of the file.
    pub closed spec fn file_name(&self) -> Seq<char> {
        self.file_name@
    }

    /// The bytes that were handed in so far.
    pub closed spec fn data(&self) -> Seq<u8> {
        self.data@
    }

    /// More blocks may follow: no block was shorter than a full block yet.
    pub closed spec fn is_open(&self) -> bool {
        self.open
    }

    /// The builder takes `chunk` as the next block: more blocks may follow,
    /// and the chunk is a block, not empty, and within what remains of the
    /// largest file there can be.
    pub open spec fn takes(&self, chunk: Seq<u8>) -> bool {
        &&& self.is_open()
        &&& 0 < chunk.len() <= BLOCK_SIZE
        &&& self.data().len() + chunk.len() <= u64::MAX
    }

    /// Begins the manifest of a file called `file_name`.
    pub fn new(file_name: String) -> (b: FileMapBuilder)
        ensures
            b.file_name() == file_name@,
            b.data() == Seq::<u8>::empty(),
            b.is_open(),
    {
        assert(file_block_hashes(Seq::<u8>::empty()) =~= Seq::<u128>::empty());
        FileMapBuilder {
            file_name,
            size: 0,
            blocks: Vec::new(),
            open: true,
            data: Ghost(Seq::empty()),
        }
    }

    /// Hands in the next block of the file. Every block but the last must be
    /// a full block; a chunk that the builder does not take changes nothing.
    pub fn push_block(self, chunk: &[u8]) -> (r: (FileMapBuilder, bool))
        ensures
            r.1 == self.takes(chunk@),
            r.0.file_name() == self.file_name(),
            r.0.data() == if self.takes(chunk@) {
                self.data() + chunk@
            } else {
                self.data()
            },
            r.0.is_open() == if self.takes(chunk@) {
                chunk@.len() == BLOCK_SIZE
            } else {
                self.is_open()
            },
    {
        proof {
            use_type_invariant(&self);
        }
        let len: usize = chunk.len();
        if !self.open || len == 0 || len > BLOCK_SIZE || len as u64 > u64::MAX - self.size {
            return (self, false);
        }
        let FileMapBuilder { file_name, size, blocks, open: _, data } = self;
        let mut blocks = blocks;
        blocks.push(hash_block(chunk));
        proof {
            lemma_append_block(data@, chunk@);
        }
        (
            FileMapBuilder {
                file_name,
                size: size + len as u64,
                blocks,
                open: len == BLOCK_SIZE,
                data: Ghost(data@ + chunk@),
            },
            true,
        )
    }

    /// The manifest of the file whose blocks were handed in.
    pub fn finish(self) -> (m: FileMap)
        ensures
            m@ == file_map_of(self.file_name(), self.data()),
    {
        proof {
            use_type_invariant(&self);
        }
        let FileMapBuilder { file_name, size, blocks, open: _, data: _ } = self;
        FileMap { file_name, file_size: size, blocks }
    }
}

/// Byte range of block `block_nr` in a file of `file_size` bytes, as offset
/// and length; `None` when the file has no such block.
pub fn block_range(file_size: u64, block_nr: u32) -> (r: Option<(u64, usize)>)
    ensures
        r == if block_len(file_size as nat, block_nr as nat) == 0 {
            None
        } else {
            Some(
                (
                    block_start(block_nr as nat) as u64,
                    block_len(file_size as nat, block_nr as nat) as usize,
                ),
            )
        },
{
    assert(block_nr * 33_554_432 <= u64::MAX);
    let offset: u64 = (block_nr as u64) * 33_554_432;
    if offset >= file_size {
        None
    } else if file_size - offset > BLOCK_SIZE as u64 {
        Some((offset, BLOCK_SIZE))
    } else {
        Some((offset, (file_size - offset) as usize))
    }
}

/// Appends to `buf` what `file` contributes to the resource hash.
pub(crate) fn push_digest_input(buf: &mut Vec<u8>, file: &FileMap)
    ensures
        final(buf)@ == old(buf)@ + file_digest_input(file@),
{
    let mut size_bytes = u64_to_le_bytes(file.file_size);
    buf.append(&mut size_bytes);
    let mut j: usize = 0;
    while j < file.blocks.len()
        invariant
            j <= file.blocks.len(),
            buf@ == old(buf)@ + spec_u64_to_le_bytes(file.file_size) + hashes_bytes(
                file.blocks@.take(j as int),
            ),
        decreases file.blocks.len() - j,
    {
        let mut hash_bytes = u128_to_le_bytes(file.blocks[j]);
        buf.append(&mut hash_bytes);
        proof {
            let next = file.blocks@.take(j + 1);
            assert(next.drop_last() == file.blocks@.take(j as int));
            assert(next.last() == file.blocks@[j as int]);
        }
        j += 1;
    }
    assert(file.blocks@.take(j as int) == file.blocks@);
    assert(buf@ == old(buf)@ + file_digest_input(file@));
}

/// Turns the bytes that a set of files contributes into its resource hash.
pub(crate) fn digest_input_hash(input: &[u8]) -> (h: u128)
    ensures
        h == digest_to_hash(sha256(input@)),
{
    hash_block(input)
}

/// Computes the resource hash of an ordered set of files from their
/// manifests.
pub fn hash_bundles(files: &Vec<FileMap>) -> (h: u128)
    ensures
        h == resource_hash(manifest_view(files@)),
{
    let ghost views = manifest_view(files@);
    let mut buf: Vec<u8> = Vec::new();
    let mut i: usize = 0;
    while i < files.len()
        invariant
            i <= files.len(),
            views == manifest_view(files@),
            buf@ == manifest_digest_input(views.take(i as int)),
        decreases files.len() - i,
    {
        push_digest_input(&mut buf, &files[i]);
        proof {
            let next = views.take(i + 1);
            assert(next.drop_last() == views.take(i as int));
            assert(next.last() == files@[i as int]@);
        }
        i += 1;
    }
    assert(views.take(i as int) == views);
    digest_input_hash(buf.as_slice())
}

/// Manifests that describe the same bytes feed the same bytes to the digest.
pub proof fn lemma_same_content_same_input(a: Seq<FileMapView>, b: Seq<FileMapView>)
    requires
        same_content(a, b),
    ensures
        manifest_digest_input(a) == manifest_digest_input(b),
    decreases a.len(),
{
    if a.len() > 0 {
        assert(a.last().file_size == b.last().file_size && a.last().blocks == b.last().blocks);
        assert(same_content(a.drop_last(), b.drop_last())) by {
            assert forall|i: int| 0 <= i < a.drop_last().len() implies (
            #[trigger] a.drop_last()[i]).file_size == b.drop_last()[i].file_size
                && a.drop_last()[i].blocks == b.drop_last()[i].blocks by {
                assert(a.drop_last()[i] == a[i]);
                assert(b.drop_last()[i] == b[i]);
            }
        }
        lemma_same_content_same_input(a.drop_last(), b.drop_last());
    }
}

/// The resource hash is a function of file contents alone: two sets of files
/// whose sizes and block hashes agree have the same resource hash, whatever
/// the files are called.
pub proof fn lemma_resource_hash_ignores_names(a: Seq<FileMapView>, b: Seq<FileMapView>)
    requires
        same_content(a, b),
    ensures
        resource_hash(a) == resource_hash(b),
{
    lemma_same_content_same_input(a, b);
}

/// Byte-identical file sets have the identical resource hash: hashing the
/// same contents under other names gives the same result.
pub proof fn lemma_identical_bytes_identical_hash(
    names_a: Seq<Seq<char>>,
    names_b: Seq<Seq<char>>,
    contents: Seq<Seq<u8>>,
)
    requires
        names_a.len() == contents.len(),
        names_b.len() == contents.len(),
    ensures
        resource_hash(file_maps_of(names_a, contents)) == resource_hash(
            file_maps_of(names_b, contents),
        ),
{
    lemma_resource_hash_ignores_names(
        file_maps_of(names_a, contents),
        file_maps_of(names_b, contents),
    );
}

} // verus!
