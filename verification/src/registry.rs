//! The registry of shared resources: which files stand behind which resource
//! hash, and until when.

use crate::filemap::{
    block_hash, digest_input_hash, file_block_hashes, hash_block, manifest_digest_input,
    push_digest_input, resource_hash, FileMap, FileMapView,
};
use vstd::prelude::*;

verus! {

/// A single registered file smaller than this many bytes may be kept in
/// memory as well.
pub const INLINE_THRESHOLD: u64 = 200;

/// One file of a resource: its manifest and where its bytes are stored.
#[derive(Debug, Clone, PartialEq, Eq)]
pub struct FileEntry {
    pub map: FileMap,
    pub path: String,
}

/// The manifests of a resource's files, in order.
pub open spec fn entry_maps(files: Seq<FileEntry>) -> Seq<FileMapView> {
    files.map_values(|e: FileEntry| e.map@)
}

/// Sum of the sizes of a resource's files.
pub open spec fn total_size(files: Seq<FileEntry>) -> nat
    decreases files.len(),
{
    if files.len() == 0 {
        0
    } else {
        total_size(files.drop_last()) + files.last().map.file_size as nat
    }
}

/// `data` may be cached for `files`: there is exactly one file, it is smaller
/// than the inline threshold, and `data` are its bytes as its manifest
/// describes them.
pub open spec fn cacheable(files: Seq<FileEntry>, data: Seq<u8>) -> bool {
    &&& files.len() == 1
    &&& files[0].map.file_size < INLINE_THRESHOLD
    &&& data.len() == files[0].map.file_size
    &&& files[0].map.blocks@ == file_block_hashes(data)
}

/// A registered resource.
#[derive(Debug, Clone, PartialEq, Eq)]
pub struct ResourceDescriptor {
    /// The resource hash.
    pub map_hash: u128,
    /// The files of the resource, in the order in which blocks address them.
    pub files: Vec<FileEntry>,
    /// Second (since the epoch) from which on the entry counts as expired;
    /// `None` for an entry that never expires.
    pub valid_to: Option<u64>,
    /// The bytes of the resource's only file, where they are cached; empty
    /// otherwise.
    pub inline_data: Vec<u8>,
}

impl ResourceDescriptor {
    /// The entry's expiry has elapsed at time `now`.
    pub open spec fn expired_at(&self, now: u64) -> bool {
        self.valid_to matches Some(t) && t <= now
    }

    /// The entry is registered under the hash of its files, and what it
    /// caches, if anything, is the content of its only file.
    pub open spec fn genuine(&self) -> bool {
        &&& self.map_hash == resource_hash(entry_maps(self.files@))
        &&& self.inline_data@.len() == 0 || cacheable(self.files@, self.inline_data@)
    }

    /// Tells whether the entry's expiry has elapsed at time `now`.
    pub fn is_expired(&self, now: u64) -> (b: bool)
        ensures
            b == self.expired_at(now),
    {
        match self.valid_to {
            Some(t) => t <= now,
            None => false,
        }
    }

    /// Sum of the sizes of the resource's files.
    pub fn size(&self) -> (n: u128)
        ensures
            n == total_size(self.files@),
    {
        let mut sum: u128 = 0;
        let mut i: usize = 0;
        while i < self.files.len()
            invariant
                i <= self.files.len(),
                sum == total_size(self.files@.take(i as int)),
                sum <= i * u64::MAX,
            decreases self.files.len() - i,
        {
            proof {
                let next = self.files@.take(i + 1);
                assert(next.drop_last() == self.files@.take(i as int));
                assert(next.last() == self.files@[i as int]);
            }
            sum = sum + self.files[i].map.file_size as u128;
            i += 1;
        }
        assert(self.files@.take(i as int) == self.files@);
        sum
    }
}

/// No two entries have the same resource hash.
pub open spec fn unique_hashes(s: Seq<ResourceDescriptor>) -> bool {
    forall|i: int, j: int|
        #![trigger s[i], s[j]]
        0 <= i < j < s.len() ==> s[i].map_hash != s[j].map_hash
}

/// Every entry is registered under the hash of its files, and caches
/// nothing but the content of its only file.
pub open spec fn all_genuine(s: Seq<ResourceDescriptor>) -> bool {
    forall|i: int| 0 <= i < s.len() ==> (#[trigger] s[i]).genuine()
}

/// Some entry is registered under `hash`.
pub open spec fn holds(s: Seq<ResourceDescriptor>, hash: u128) -> bool {
    exists|i: int| 0 <= i < s.len() && (#[trigger] s[i]).map_hash == hash
}

/// Position of the entry registered under `hash`, where there is one.
pub open spec fn index_of(s: Seq<ResourceDescriptor>, hash: u128) -> int {
    choose|i: int| 0 <= i < s.len() && (#[trigger] s[i]).map_hash == hash
}

/// The entry registered under `hash`, where there is one.
pub open spec fn entry_of(s: Seq<ResourceDescriptor>, hash: u128) -> Option<ResourceDescriptor> {
    if holds(s, hash) {
        Some(s[index_of(s, hash)])
    } else {
        None
    }
}

/// The entries after the expiry of the one registered under `hash` was
/// replaced by `valid_to`; nothing else changes.
pub open spec fn refreshed(s: Seq<ResourceDescriptor>, hash: u128, valid_to: Option<u64>) -> Seq<
    ResourceDescriptor,
> {
    if holds(s, hash) {
        let i = index_of(s, hash);
        s.update(i, ResourceDescriptor { valid_to, ..s[i] })
    } else {
        s
    }
}

/// The bytes that a new entry caches: `data` where it may be cached for
/// `files`, nothing otherwise.
pub open spec fn cached(files: Seq<FileEntry>, data: Seq<u8>) -> Seq<u8> {
    if cacheable(files, data) {
        data
    } else {
        Seq::empty()
    }
}

/// `after` is what `before` becomes when `files` are registered under `hash`
/// with expiry `valid_to` and candidate inline bytes `data`: a known hash only
/// has its expiry replaced; an unknown one gets a new entry at the end.
pub open spec fn is_registration(
    before: Seq<ResourceDescriptor>,
    after: Seq<ResourceDescriptor>,
    hash: u128,
    files: Vec<FileEntry>,
    valid_to: Option<u64>,
    data: Seq<u8>,
) -> bool {
    if holds(before, hash) {
        after == refreshed(before, hash, valid_to)
    } else {
        &&& after.len() == before.len() + 1
        &&& after.drop_last() == before
        &&& after.last().map_hash == hash
        &&& after.last().files == files
        &&& after.last().valid_to == valid_to
        &&& after.last().inline_data@ == cached(files@, data)
    }
}

/// The entries after removing the one registered under `hash`.
pub open spec fn removed(s: Seq<ResourceDescriptor>, hash: u128) -> Seq<ResourceDescriptor> {
    if holds(s, hash) {
        s.remove(index_of(s, hash))
    } else {
        s
    }
}

/// The entries that a sweep at time `now` keeps, in their order.
pub open spec fn swept(s: Seq<ResourceDescriptor>, now: u64) -> Seq<ResourceDescriptor>
    decreases s.len(),
{
    if s.len() == 0 {
        s
    } else if s.last().expired_at(now) {
        swept(s.drop_last(), now)
    } else {
        swept(s.drop_last(), now).push(s.last())
    }
}

/// The hashes of the entries that a sweep at time `now` evicts, in their
/// order.
pub open spec fn evicted_hashes(s: Seq<ResourceDescriptor>, now: u64) -> Seq<u128>
    decreases s.len(),
{
    if s.len() == 0 {
        Seq::empty()
    } else if s.last().expired_at(now) {
        evicted_hashes(s.drop_last(), now).push(s.last().map_hash)
    } else {
        evicted_hashes(s.drop_last(), now)
    }
}

/// In a registry without duplicates, an entry with the hash sits at the
/// position that `index_of` names.
pub proof fn lemma_index_of(s: Seq<ResourceDescriptor>, hash: u128, i: int)
    requires
        unique_hashes(s),
        0 <= i < s.len(),
        s[i].map_hash == hash,
    ensures
        holds(s, hash),
        index_of(s, hash) == i,
{
    let j = index_of(s, hash);
    if j < i {
        assert(s[j].map_hash != s[i].map_hash);
    } else if i < j {
        assert(s[i].map_hash != s[j].map_hash);
    }
}

/// Removing an entry from a registry without duplicates leaves no entry
/// under its hash, and no duplicates.
pub proof fn lemma_remove_keeps_unique(s: Seq<ResourceDescriptor>, i: int)
    requires
        unique_hashes(s),
        0 <= i < s.len(),
    ensures
        unique_hashes(s.remove(i)),
        !holds(s.remove(i), s[i].map_hash),
{
    let r = s.remove(i);
    assert forall|a: int, b: int| 0 <= a < b < r.len() implies (#[trigger] r[a]).map_hash != (
    #[trigger] r[b]).map_hash by {
        let a0 = if a < i { a } else { a + 1 };
        let b0 = if b < i { b } else { b + 1 };
        assert(r[a] == s[a0] && r[b] == s[b0]);
        assert(s[a0].map_hash != s[b0].map_hash);
    }
    assert forall|a: int| 0 <= a < r.len() implies (#[trigger] r[a]).map_hash != s[i].map_hash by {
        let a0 = if a < i { a } else { a + 1 };
        assert(r[a] == s[a0]);
        if a0 < i {
            assert(s[a0].map_hash != s[i].map_hash);
        } else {
            assert(s[i].map_hash != s[a0].map_hash);
        }
    }
}

proof fn lemma_remove_keeps_genuine(s: Seq<ResourceDescriptor>, i: int)
    requires
        all_genuine(s),
        0 <= i < s.len(),
    ensures
        all_genuine(s.remove(i)),
{
    let r = s.remove(i);
    assert forall|a: int| 0 <= a < r.len() implies (#[trigger] r[a]).genuine() by {
        let a0 = if a < i { a } else { a + 1 };
        assert(r[a] == s[a0]);
    }
}

/// A sweep keeps exactly the entries that have not expired.
pub proof fn lemma_swept_entries(s: Seq<ResourceDescriptor>, now: u64)
    ensures
        forall|i: int|
            0 <= i < swept(s, now).len() ==> !(#[trigger] swept(s, now)[i]).expired_at(now)
                && s.contains(swept(s, now)[i]),
        forall|j: int|
            0 <= j < s.len() && !(#[trigger] s[j]).expired_at(now) ==> swept(s, now).contains(s[j]),
    decreases s.len(),
{
    if s.len() > 0 {
        let rest = s.drop_last();
        let last = s.last();
        let w = swept(s, now);
        let w0 = swept(rest, now);
        lemma_swept_entries(rest, now);
        assert forall|i: int| 0 <= i < w.len() implies !(#[trigger] w[i]).expired_at(now)
            && s.contains(w[i]) by {
            if i < w0.len() {
                assert(w[i] == w0[i]);
                assert(rest.contains(w0[i]));
                let k = choose|k: int| 0 <= k < rest.len() && rest[k] == w0[i];
                assert(s[k] == w[i]);
            } else {
                assert(w[i] == last);
                assert(s[s.len() - 1] == last);
            }
        }
        assert forall|j: int| 0 <= j < s.len() && !(#[trigger] s[j]).expired_at(now) implies w.contains(
            s[j],
        ) by {
            if j < rest.len() {
                assert(rest[j] == s[j]);
                assert(w0.contains(rest[j]));
                let k = choose|k: int| 0 <= k < w0.len() && w0[k] == rest[j];
                assert(w[k] == s[j]);
            } else {
                assert(w[w.len() - 1] == s[j]);
            }
        }
    }
}

/// A sweep of a registry without duplicates leaves no duplicates.
pub proof fn lemma_swept_unique(s: Seq<ResourceDescriptor>, now: u64)
    requires
        unique_hashes(s),
    ensures
        unique_hashes(swept(s, now)),
    decreases s.len(),
{
    if s.len() > 0 {
        let rest = s.drop_last();
        let last = s.last();
        let w = swept(s, now);
        let w0 = swept(rest, now);
        assert(unique_hashes(rest)) by {
            assert forall|a: int, b: int| 0 <= a < b < rest.len() implies (#[trigger] rest[a]).map_hash
                != (#[trigger] rest[b]).map_hash by {
                assert(s[a].map_hash != s[b].map_hash);
            }
        }
        lemma_swept_unique(rest, now);
        lemma_swept_entries(rest, now);
        assert forall|a: int, b: int| 0 <= a < b < w.len() implies (#[trigger] w[a]).map_hash != (
        #[trigger] w[b]).map_hash by {
            if b < w0.len() {
                assert(w0[a].map_hash != w0[b].map_hash);
            } else {
                assert(w[b] == last);
                assert(w[a] == w0[a]);
                assert(rest.contains(w0[a]));
                let k = choose|k: int| 0 <= k < rest.len() && rest[k] == w0[a];
                assert(s[k].map_hash != s[s.len() - 1].map_hash);
            }
        }
    }
}

/// After a sweep at time `now`, a hash leads to its entry if that entry has
/// not expired, and to nothing if it has; no entry that is left has expired.
pub proof fn lemma_sweep_hides_expired(s: Seq<ResourceDescriptor>, now: u64, hash: u128)
    requires
        unique_hashes(s),
    ensures
        unique_hashes(swept(s, now)),
        entry_of(swept(s, now), hash) == match entry_of(s, hash) {
            Some(d) => if d.expired_at(now) {
                None
            } else {
                Some(d)
            },
            None => None,
        },
        forall|i: int|
            0 <= i < swept(s, now).len() ==> !(#[trigger] swept(s, now)[i]).expired_at(now),
{
    let w = swept(s, now);
    lemma_swept_unique(s, now);
    lemma_swept_entries(s, now);
    if holds(w, hash) {
        let i = index_of(w, hash);
        assert(s.contains(w[i]));
        let j = choose|j: int| 0 <= j < s.len() && s[j] == w[i];
        lemma_index_of(s, hash, j);
    } else if holds(s, hash) {
        let j = index_of(s, hash);
        if !s[j].expired_at(now) {
            assert(w.contains(s[j]));
            let i = choose|i: int| 0 <= i < w.len() && w[i] == s[j];
            assert(w[i].map_hash == hash);
        }
    }
}

/// Once an entry was removed, its hash leads to nothing: removing it a second
/// time finds no entry and changes nothing.
pub proof fn lemma_removed_is_gone(s: Seq<ResourceDescriptor>, hash: u128)
    requires
        unique_hashes(s),
    ensures
        unique_hashes(removed(s, hash)),
        entry_of(removed(s, hash), hash) is None,
        removed(removed(s, hash), hash) == removed(s, hash),
{
    if holds(s, hash) {
        lemma_remove_keeps_unique(s, index_of(s, hash));
    }
}

/// Registering a hash that is already registered creates no second entry:
/// the registry keeps its length and every entry, and only the expiry of the
/// entry under that hash is replaced.
pub proof fn lemma_registration_of_known_hash(
    before: Seq<ResourceDescriptor>,
    after: Seq<ResourceDescriptor>,
    hash: u128,
    files: Vec<FileEntry>,
    valid_to: Option<u64>,
    data: Seq<u8>,
)
    requires
        unique_hashes(before),
        holds(before, hash),
        is_registration(before, after, hash, files, valid_to, data),
    ensures
        after.len() == before.len(),
        unique_hashes(after),
        forall|i: int|
            0 <= i < before.len() ==> (#[trigger] after[i]) == if before[i].map_hash == hash {
                ResourceDescriptor { valid_to, ..before[i] }
            } else {
                before[i]
            },
{
    let k = index_of(before, hash);
    assert forall|i: int| 0 <= i < before.len() implies (#[trigger] after[i]) == if before[i].map_hash
        == hash {
        ResourceDescriptor { valid_to, ..before[i] }
    } else {
        before[i]
    } by {
        if before[i].map_hash == hash {
            lemma_index_of(before, hash, i);
        }
    }
    assert forall|a: int, b: int| 0 <= a < b < after.len() implies (#[trigger] after[a]).map_hash != (
    #[trigger] after[b]).map_hash by {
        assert(before[a].map_hash != before[b].map_hash);
    }
}

/// Registering the same content twice does not create two entries: files
/// with the same content have the same hash, whatever they are called and
/// wherever they are stored, so the second registration finds the entry of
/// the first, adds none, and only replaces that entry's expiry.
pub proof fn lemma_same_content_registers_once(
    before: Seq<ResourceDescriptor>,
    mid: Seq<ResourceDescriptor>,
    after: Seq<ResourceDescriptor>,
    first: Vec<FileEntry>,
    second: Vec<FileEntry>,
    first_valid_to: Option<u64>,
    second_valid_to: Option<u64>,
    first_data: Seq<u8>,
    second_data: Seq<u8>,
)
    requires
        unique_hashes(before),
        crate::filemap::same_content(entry_maps(first@), entry_maps(second@)),
        is_registration(
            before,
            mid,
            resource_hash(entry_maps(first@)),
            first,
            first_valid_to,
            first_data,
        ),
        is_registration(
            mid,
            after,
            resource_hash(entry_maps(second@)),
            second,
            second_valid_to,
            second_data,
        ),
    ensures
        resource_hash(entry_maps(second@)) == resource_hash(entry_maps(first@)),
        unique_hashes(mid),
        unique_hashes(after),
        after.len() == mid.len(),
        forall|i: int|
            0 <= i < mid.len() ==> (#[trigger] after[i]) == if mid[i].map_hash == resource_hash(
                entry_maps(first@),
            ) {
                ResourceDescriptor { valid_to: second_valid_to, ..mid[i] }
            } else {
                mid[i]
            },
{
    let hash = resource_hash(entry_maps(first@));
    crate::filemap::lemma_resource_hash_ignores_names(entry_maps(first@), entry_maps(second@));
    if holds(before, hash) {
        lemma_registration_of_known_hash(before, mid, hash, first, first_valid_to, first_data);
        let k = index_of(before, hash);
        assert(mid[k].map_hash == hash);
    } else {
        assert(mid[mid.len() - 1].map_hash == hash);
        assert forall|a: int, b: int| 0 <= a < b < mid.len() implies (#[trigger] mid[a]).map_hash != (
        #[trigger] mid[b]).map_hash by {
            assert(mid.drop_last()[a] == mid[a]);
            if b < before.len() {
                assert(mid.drop_last()[b] == mid[b]);
                assert(before[a].map_hash != before[b].map_hash);
            } else {
                assert(before[a].map_hash != hash);
            }
        }
    }
    lemma_registration_of_known_hash(mid, after, hash, second, second_valid_to, second_data);
}

/// What an entry caches is its first block: the cached bytes hash to what
/// the manifest of its only file says.
pub proof fn lemma_cached_block_is_genuine(d: ResourceDescriptor)
    requires
        d.genuine(),
        d.inline_data@.len() > 0,
    ensures
        d.files@.len() == 1,
        d.files@[0].map.blocks@.len() == 1,
        d.files@[0].map.blocks@[0] == block_hash(d.inline_data@),
        d.files@[0].map.file_size == d.inline_data@.len(),
{
    let data = d.inline_data@;
    let hashes = file_block_hashes(data);
    assert(hashes.len() == 1);
    assert(crate::filemap::block_bytes(data, 0) =~= data);
    assert(hashes[0] == block_hash(data));
}

/// The shared resources of one node. No two entries have the same hash;
/// every entry is registered under the hash of its files and caches nothing
/// but the content of its only file.
pub struct Registry {
    entries: Vec<ResourceDescriptor>,
}

impl View for Registry {
    type V = Seq<ResourceDescriptor>;

    closed spec fn view(&self) -> Seq<ResourceDescriptor> {
        self.entries@
    }
}

fn inline_is_cacheable(files: &Vec<FileEntry>, data: &Vec<u8>) -> (ok: bool)
    ensures
        ok == cacheable(files@, data@),
{
    if files.len() != 1 {
        return false;
    }
    let map = &files[0].map;
    if map.file_size >= INLINE_THRESHOLD || data.len() as u64 != map.file_size {
        return false;
    }
    if data.len() == 0 {
        assert(file_block_hashes(data@) =~= Seq::<u128>::empty());
        assert(map.blocks@.len() == 0 <==> map.blocks@ =~= Seq::<u128>::empty());
        map.blocks.len() == 0
    } else {
        proof {
            let hashes = file_block_hashes(data@);
            assert(hashes.len() == 1);
            assert(crate::filemap::block_bytes(data@, 0) =~= data@);
            assert(hashes[0] == block_hash(data@));
            assert(map.blocks@ == hashes <==> map.blocks@.len() == 1 && map.blocks@[0]
                == block_hash(data@)) by {
                if map.blocks@.len() == 1 && map.blocks@[0] == block_hash(data@) {
                    assert(map.blocks@ =~= hashes);
                }
            }
        }
        map.blocks.len() == 1 && map.blocks[0] == hash_block(data.as_slice())
    }
}

fn entries_hash(files: &Vec<FileEntry>) -> (h: u128)
    ensures
        h == resource_hash(entry_maps(files@)),
{
    let ghost views = entry_maps(files@);
    let mut buf: Vec<u8> = Vec::new();
    let mut i: usize = 0;
    while i < files.len()
        invariant
            i <= files.len(),
            views == entry_maps(files@),
            buf@ == manifest_digest_input(views.take(i as int)),
        decreases files.len() - i,
    {
        push_digest_input(&mut buf, &files[i].map);
        proof {
            let next = views.take(i + 1);
            assert(next.drop_last() == views.take(i as int));
            assert(next.last() == files@[i as int].map@);
        }
        i += 1;
    }
    assert(views.take(i as int) == views);
    digest_input_hash(buf.as_slice())
}

impl Registry {
    #[verifier::type_invariant]
    spec fn sound(&self) -> bool {
        unique_hashes(self.entries@) && all_genuine(self.entries@)
    }

    /// An empty registry.
    pub fn new() -> (r: Registry)
        ensures
            r@ == Seq::<ResourceDescriptor>::empty(),
    {
        Registry { entries: Vec::new() }
    }

    fn position(&self, hash: u128) -> (r: Option<usize>)
        ensures
            unique_hashes(self@),
            all_genuine(self@),
            match r {
                Some(i) => i < self@.len() && holds(self@, hash) && index_of(self@, hash) == i,
                None => !holds(self@, hash),
            },
    {
        proof {
            use_type_invariant(self);
        }
        let mut i: usize = 0;
        while i < self.entries.len()
            invariant
                i <= self.entries@.len(),
                unique_hashes(self.entries@),
                all_genuine(self.entries@),
                forall|k: int| 0 <= k < i ==> (#[trigger] self.entries@[k]).map_hash != hash,
            decreases self.entries.len() - i,
        {
            if self.entries[i].map_hash == hash {
                proof {
                    lemma_index_of(self.entries@, hash, i as int);
                }
                return Some(i);
            }
            i += 1;
        }
        None
    }

    /// Registers a resource and returns its hash, which is computed from the
    /// manifests of `files`.
    ///
    /// Where the hash is already registered, the entry keeps its files and
    /// only has its expiry replaced by `valid_to`. Otherwise a new entry is
    /// added; it caches `inline_data` if that is the content of a single
    /// small file, and nothing else.
    pub fn register(
        &mut self,
        files: Vec<FileEntry>,
        valid_to: Option<u64>,
        inline_data: Vec<u8>,
    ) -> (hash: u128)
        ensures
            hash == resource_hash(entry_maps(files@)),
            is_registration(old(self)@, final(self)@, hash, files, valid_to, inline_data@),
            unique_hashes(final(self)@),
            all_genuine(final(self)@),
    {
        let hash = entries_hash(&files);
        let found = self.position(hash);
        let mut entries: Vec<ResourceDescriptor> = Vec::new();
        core::mem::swap(&mut self.entries, &mut entries);
        match found {
            Some(i) => {
                let mut entry = entries.remove(i);
                proof {
                    lemma_remove_keeps_unique(old(self).entries@, i as int);
                    lemma_remove_keeps_genuine(old(self).entries@, i as int);
                }
                entry.valid_to = valid_to;
                entries.insert(i, entry);
                proof {
                    let before = old(self).entries@;
                    let after = entries@;
                    assert(after =~= refreshed(before, hash, valid_to));
                    assert forall|a: int| 0 <= a < after.len() implies (
                    #[trigger] after[a]).genuine() by {
                        assert(before[a].genuine());
                    }
                    assert forall|a: int, b: int| 0 <= a < b < after.len() implies (
                    #[trigger] after[a]).map_hash != (#[trigger] after[b]).map_hash by {
                        assert(before[a].map_hash != before[b].map_hash);
                    }
                }
            },
            None => {
                let kept = if inline_is_cacheable(&files, &inline_data) {
                    inline_data
                } else {
                    Vec::new()
                };
                entries.push(
                    ResourceDescriptor { map_hash: hash, files, valid_to, inline_data: kept },
                );
                proof {
                    let before = old(self).entries@;
                    let after = entries@;
                    assert(after.drop_last() =~= before);
                    assert forall|a: int| 0 <= a < after.len() implies (
                    #[trigger] after[a]).genuine() by {
                        if a < before.len() {
                            assert(before[a].genuine());
                        }
                    }
                    assert forall|a: int, b: int| 0 <= a < b < after.len() implies (
                    #[trigger] after[a]).map_hash != (#[trigger] after[b]).map_hash by {
                        if b < before.len() {
                            assert(before[a].map_hash != before[b].map_hash);
                        } else {
                            assert(before[a].map_hash != hash);
                        }
                    }
                }
            },
        }
        self.entries = entries;
        hash
    }

    /// The entry registered under `hash`.
    pub fn lookup(&self, hash: u128) -> (r: Option<&ResourceDescriptor>)
        ensures
            unique_hashes(self@),
            all_genuine(self@),
            match r {
                Some(d) => entry_of(self@, hash) == Some(*d),
                None => entry_of(self@, hash) is None,
            },
    {
        match self.position(hash) {
            Some(i) => Some(&self.entries[i]),
            None => None,
        }
    }

    /// Takes the entry registered under `hash` out of the registry.
    pub fn remove(&mut self, hash: u128) -> (r: Option<ResourceDescriptor>)
        ensures
            r == entry_of(old(self)@, hash),
            final(self)@ == removed(old(self)@, hash),
            unique_hashes(final(self)@),
            all_genuine(final(self)@),
    {
        let found = self.position(hash);
        let mut entries: Vec<ResourceDescriptor> = Vec::new();
        core::mem::swap(&mut self.entries, &mut entries);
        let r = match found {
            Some(i) => {
                proof {
                    lemma_remove_keeps_unique(entries@, i as int);
                    lemma_remove_keeps_genuine(entries@, i as int);
                }
                Some(entries.remove(i))
            },
            None => None,
        };
        self.entries = entries;
        r
    }

    /// All entries, oldest registration first.
    pub fn enumerate(&self) -> (all: &Vec<ResourceDescriptor>)
        ensures
            all@ == self@,
            unique_hashes(self@),
            all_genuine(self@),
    {
        proof {
            use_type_invariant(self);
        }
        &self.entries
    }

    /// Evicts every entry whose expiry has elapsed at time `now`, and returns
    /// the hashes of the evicted entries.
    pub fn sweep(&mut self, now: u64) -> (evicted: Vec<u128>)
        ensures
            final(self)@ == swept(old(self)@, now),
            evicted@ == evicted_hashes(old(self)@, now),
            unique_hashes(final(self)@),
            all_genuine(final(self)@),
    {
        proof {
            use_type_invariant(&*self);
        }
        let ghost orig = self.entries@;
        let ghost mut done: int = 0;
        let mut entries: Vec<ResourceDescriptor> = Vec::new();
        core::mem::swap(&mut self.entries, &mut entries);
        let mut evicted: Vec<u128> = Vec::new();
        let mut i: usize = 0;
        while i < entries.len()
            invariant
                0 <= done <= orig.len(),
                unique_hashes(entries@),
                all_genuine(entries@),
                i == swept(orig.take(done), now).len(),
                entries@ == swept(orig.take(done), now) + orig.skip(done),
                evicted@ == evicted_hashes(orig.take(done), now),
            decreases orig.len() - done,
        {
            proof {
                let next = orig.take(done + 1);
                assert(orig.skip(done).len() > 0);
                assert(next.drop_last() == orig.take(done));
                assert(next.last() == orig[done]);
                assert(entries@[i as int] == orig.skip(done)[0]);
                assert(orig.skip(done + 1) == orig.skip(done).drop_first());
                lemma_remove_keeps_unique(entries@, i as int);
                lemma_remove_keeps_genuine(entries@, i as int);
            }
            if entries[i].is_expired(now) {
                let entry = entries.remove(i);
                evicted.push(entry.map_hash);
            } else {
                i += 1;
            }
            proof {
                done = done + 1;
            }
        }
        proof {
            assert(orig.take(done) == orig);
        }
        self.entries = entries;
        evicted
    }
}

} // verus!
