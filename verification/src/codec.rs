//! The messages that peers exchange, and their binary framing.

use crate::filemap::{hashes_bytes, manifest_view, FileMap, FileMapView};
use vstd::bytes::{
    lemma_auto_spec_u128_to_from_le_bytes, lemma_auto_spec_u32_to_from_le_bytes,
    lemma_auto_spec_u64_to_from_le_bytes, spec_u128_from_le_bytes, spec_u128_to_le_bytes,
    spec_u32_from_le_bytes, spec_u32_to_le_bytes,
    spec_u64_from_le_bytes, spec_u64_to_le_bytes, u128_from_le_bytes, u128_to_le_bytes,
    u32_from_le_bytes, u32_to_le_bytes, u64_from_le_bytes, u64_to_le_bytes,
};
use vstd::prelude::*;
use vstd::slice::{slice_subrange, slice_to_vec};
use vstd::utf8::{
    decode_utf8, decode_utf8_encode_utf8, encode_utf8, encode_utf8_decode_utf8,
    encode_utf8_valid_utf8, valid_utf8,
};

verus! {

/// Version of the peer protocol that this library speaks.
pub const PROTOCOL_VERSION: u32 = 1;

/// First message of either side on a new connection.
#[derive(Debug, Clone, Copy, PartialEq, Eq, Structural)]
pub struct Handshake {
    /// Protocol version of the sender.
    pub version: u32,
    /// Stable identifier of the sending node.
    pub node_id: u128,
}

/// Request for one block of a resource.
#[derive(Debug, Clone, Copy, PartialEq, Eq, Structural)]
pub struct GetBlock {
    /// Hash of the resource.
    pub hash: u128,
    /// Position of the file in the resource.
    pub file_nr: u32,
    /// Position of the block in the file.
    pub block_nr: u32,
}

/// One block of a file, as it travels between peers.
#[derive(Debug, Clone, PartialEq, Eq)]
pub struct Block {
    /// Hash of the resource that the block belongs to.
    pub hash: u128,
    /// Position of the file in the resource.
    pub file_nr: u32,
    /// Position of the block in the file.
    pub block_nr: u32,
    /// The block's bytes.
    pub bytes: Vec<u8>,
}

/// A message of the peer protocol.
#[derive(Debug, Clone, PartialEq, Eq)]
pub enum Message {
    /// Opens the conversation.
    Handshake(Handshake),
    /// Asks for the manifest of a resource.
    GetMeta { hash: u128 },
    /// The manifest of a resource.
    Meta { hash: u128, files: Vec<FileMap> },
    /// Asks for a block.
    GetBlock(GetBlock),
    /// A block.
    Block(Block),
    /// The resource, or the block, that the last request named is not here.
    NotFound { hash: u128 },
    /// The sender is about to close the connection.
    Bye,
}

/// Mathematical value of a [`Message`].
pub enum MessageView {
    Handshake(Handshake),
    GetMeta { hash: u128 },
    Meta { hash: u128, files: Seq<FileMapView> },
    GetBlock(GetBlock),
    Block { hash: u128, file_nr: u32, block_nr: u32, bytes: Seq<u8> },
    NotFound { hash: u128 },
    Bye,
}

impl View for Message {
    type V = MessageView;

    open spec fn view(&self) -> MessageView {
        match *self {
            Message::Handshake(h) => MessageView::Handshake(h),
            Message::GetMeta { hash } => MessageView::GetMeta { hash },
            Message::Meta { hash, files } => MessageView::Meta {
                hash,
                files: manifest_view(files@),
            },
            Message::GetBlock(get) => MessageView::GetBlock(get),
            Message::Block(block) => MessageView::Block {
                hash: block.hash,
                file_nr: block.file_nr,
                block_nr: block.block_nr,
                bytes: block.bytes@,
            },
            Message::NotFound { hash } => MessageView::NotFound { hash },
            Message::Bye => MessageView::Bye,
        }
    }
}

/// First byte of the body of a handshake.
pub const TAG_HANDSHAKE: u8 = 0;

/// First byte of the body of a request for a manifest.
pub const TAG_GET_META: u8 = 1;

/// First byte of the body of a manifest.
pub const TAG_META: u8 = 2;

/// First byte of the body of a request for a block.
pub const TAG_GET_BLOCK: u8 = 3;

/// First byte of the body of a block.
pub const TAG_BLOCK: u8 = 4;

/// First byte of the body of a not-found message.
pub const TAG_NOT_FOUND: u8 = 5;

/// First byte of the body of a goodbye.
pub const TAG_BYE: u8 = 6;

/// A file of a manifest on the wire: the length of its name in bytes, the
/// name in UTF-8, the file's size, the number of its blocks, and the block
/// hashes. All numbers are little-endian.
pub open spec fn file_wire(file: FileMapView) -> Seq<u8> {
    spec_u32_to_le_bytes(encode_utf8(file.file_name).len() as u32) + encode_utf8(file.file_name)
        + spec_u64_to_le_bytes(file.file_size) + spec_u32_to_le_bytes(file.blocks.len() as u32)
        + hashes_bytes(file.blocks)
}

/// The files of a manifest on the wire, one after the other.
pub open spec fn files_wire(files: Seq<FileMapView>) -> Seq<u8>
    decreases files.len(),
{
    if files.len() == 0 {
        Seq::empty()
    } else {
        file_wire(files.first()) + files_wire(files.drop_first())
    }
}

/// The body of a frame: a tag that tells the kind of message, then the
/// message's fields.
pub open spec fn body_of(m: MessageView) -> Seq<u8> {
    match m {
        MessageView::Handshake(h) => seq![TAG_HANDSHAKE] + spec_u32_to_le_bytes(h.version)
            + spec_u128_to_le_bytes(h.node_id),
        MessageView::GetMeta { hash } => seq![TAG_GET_META] + spec_u128_to_le_bytes(hash),
        MessageView::Meta { hash, files } => seq![TAG_META] + spec_u128_to_le_bytes(hash)
            + spec_u32_to_le_bytes(files.len() as u32) + files_wire(files),
        MessageView::GetBlock(get) => seq![TAG_GET_BLOCK] + spec_u128_to_le_bytes(get.hash)
            + spec_u32_to_le_bytes(get.file_nr) + spec_u32_to_le_bytes(get.block_nr),
        MessageView::Block { hash, file_nr, block_nr, bytes } => seq![TAG_BLOCK]
            + spec_u128_to_le_bytes(hash) + spec_u32_to_le_bytes(file_nr) + spec_u32_to_le_bytes(
            block_nr,
        ) + bytes,
        MessageView::NotFound { hash } => seq![TAG_NOT_FOUND] + spec_u128_to_le_bytes(hash),
        MessageView::Bye => seq![TAG_BYE],
    }
}

/// The name and the number of blocks of every file, and the number of files,
/// are no larger than the wire can say.
pub open spec fn countable(files: Seq<FileMapView>) -> bool {
    &&& files.len() <= u32::MAX
    &&& forall|i: int|
        0 <= i < files.len() ==> encode_utf8((#[trigger] files[i]).file_name).len() <= u32::MAX
            && files[i].blocks.len() <= u32::MAX
}

/// The message fits in a frame: its body is no longer than a frame can say,
/// and so is every part of it whose length is written down.
pub open spec fn fits(m: MessageView) -> bool {
    &&& body_of(m).len() <= u32::MAX
    &&& m matches MessageView::Meta { hash, files } ==> countable(files)
}

/// A message on the wire: the length of its body, then the body.
pub open spec fn frame_of(m: MessageView) -> Seq<u8> {
    spec_u32_to_le_bytes(body_of(m).len() as u32) + body_of(m)
}

/// The number in the four bytes at `at`.
pub open spec fn u32_at(bytes: Seq<u8>, at: int) -> u32 {
    spec_u32_from_le_bytes(bytes.subrange(at, at + 4))
}

/// The number in the eight bytes at `at`.
pub open spec fn u64_at(bytes: Seq<u8>, at: int) -> u64 {
    spec_u64_from_le_bytes(bytes.subrange(at, at + 8))
}

/// The number in the sixteen bytes at `at`.
pub open spec fn u128_at(bytes: Seq<u8>, at: int) -> u128 {
    spec_u128_from_le_bytes(bytes.subrange(at, at + 16))
}

/// The file of a manifest that is written at `at`, and where it ends; `None`
/// where the bytes end too early or the name is not UTF-8.
pub open spec fn parse_file(bytes: Seq<u8>, at: int) -> Option<(FileMapView, int)> {
    if at < 0 || at + 4 > bytes.len() {
        None
    } else {
        let name_len = u32_at(bytes, at) as int;
        let name_end = at + 4 + name_len;
        if name_end + 12 > bytes.len() {
            None
        } else if !valid_utf8(bytes.subrange(at + 4, name_end)) {
            None
        } else {
            let count = u32_at(bytes, name_end + 8) as int;
            let first = name_end + 12;
            if first + 16 * count > bytes.len() {
                None
            } else {
                Some(
                    (
                        FileMapView {
                            file_name: decode_utf8(bytes.subrange(at + 4, name_end)),
                            file_size: u64_at(bytes, name_end),
                            blocks: Seq::new(
                                count as nat,
                                |k: int| u128_at(bytes, first + 16 * k),
                            ),
                        },
                        first + 16 * count,
                    ),
                )
            }
        }
    }
}

/// The `count` files that are written from `at` on, and where they end.
pub open spec fn parse_files(bytes: Seq<u8>, at: int, count: nat) -> Option<
    (Seq<FileMapView>, int),
>
    decreases count,
{
    if count == 0 {
        Some((Seq::empty(), at))
    } else {
        match parse_file(bytes, at) {
            Some((file, next)) => match parse_files(bytes, next, (count - 1) as nat) {
                Some((rest, end)) => Some((seq![file] + rest, end)),
                None => None,
            },
            None => None,
        }
    }
}

/// The message that a body denotes; `None` where it denotes none.
pub open spec fn parse_body(body: Seq<u8>) -> Option<MessageView> {
    if body.len() == 0 {
        None
    } else if body[0] == TAG_HANDSHAKE {
        if body.len() == 21 {
            Some(
                MessageView::Handshake(
                    Handshake { version: u32_at(body, 1), node_id: u128_at(body, 5) },
                ),
            )
        } else {
            None
        }
    } else if body[0] == TAG_GET_META {
        if body.len() == 17 {
            Some(MessageView::GetMeta { hash: u128_at(body, 1) })
        } else {
            None
        }
    } else if body[0] == TAG_META {
        if body.len() < 21 {
            None
        } else {
            match parse_files(body, 21, u32_at(body, 17) as nat) {
                Some((files, end)) => if end == body.len() {
                    Some(MessageView::Meta { hash: u128_at(body, 1), files })
                } else {
                    None
                },
                None => None,
            }
        }
    } else if body[0] == TAG_GET_BLOCK {
        if body.len() == 25 {
            Some(
                MessageView::GetBlock(
                    GetBlock {
                        hash: u128_at(body, 1),
                        file_nr: u32_at(body, 17),
                        block_nr: u32_at(body, 21),
                    },
                ),
            )
        } else {
            None
        }
    } else if body[0] == TAG_BLOCK {
        if body.len() >= 25 {
            Some(
                MessageView::Block {
                    hash: u128_at(body, 1),
                    file_nr: u32_at(body, 17),
                    block_nr: u32_at(body, 21),
                    bytes: body.subrange(25, body.len() as int),
                },
            )
        } else {
            None
        }
    } else if body[0] == TAG_NOT_FOUND {
        if body.len() == 17 {
            Some(MessageView::NotFound { hash: u128_at(body, 1) })
        } else {
            None
        }
    } else if body[0] == TAG_BYE {
        if body.len() == 1 {
            Some(MessageView::Bye)
        } else {
            None
        }
    } else {
        None
    }
}

/// What the bytes received so far hold.
pub enum Parsed {
    /// Not yet a whole frame.
    Incomplete,
    /// A whole frame whose body denotes no message.
    Malformed,
    /// A message, in a frame of `used` bytes.
    Frame { message: MessageView, used: nat },
}

/// What is at the start of `buf`: a frame needs its four bytes of length and
/// as many bytes of body as they say.
pub open spec fn parse_frame(buf: Seq<u8>) -> Parsed {
    if buf.len() < 4 {
        Parsed::Incomplete
    } else if buf.len() < 4 + u32_at(buf, 0) {
        Parsed::Incomplete
    } else {
        match parse_body(buf.subrange(4, 4 + u32_at(buf, 0))) {
            Some(message) => Parsed::Frame { message, used: (4 + u32_at(buf, 0)) as nat },
            None => Parsed::Malformed,
        }
    }
}

/// What `decode` found at the start of the bytes received so far.
#[derive(Debug, Clone, PartialEq, Eq)]
pub enum Decoded {
    /// Not yet a whole frame: more bytes are needed.
    Incomplete,
    /// A whole frame whose body denotes no message.
    Malformed,
    /// A message, in a frame of `used` bytes.
    Frame { message: Message, used: usize },
}

/// Calls `String::from_utf8`.
///
/// Trusted: the call succeeds exactly on valid UTF-8, and the string it
/// gives is the text that the bytes encode.
#[verifier::external_body]
fn text_of(bytes: Vec<u8>) -> (r: Option<String>)
    ensures
        match r {
            Some(text) => valid_utf8(bytes@) && text@ == decode_utf8(bytes@),
            None => !valid_utf8(bytes@),
        },
{
    match String::from_utf8(bytes) {
        Ok(text) => Some(text),
        Err(_) => None,
    }
}

fn read_u32(bytes: &[u8], at: usize) -> (x: u32)
    requires
        at + 4 <= bytes@.len(),
    ensures
        x == u32_at(bytes@, at as int),
{
    let _ = bytes.len();
    u32_from_le_bytes(slice_subrange(bytes, at, at + 4))
}

fn read_u64(bytes: &[u8], at: usize) -> (x: u64)
    requires
        at + 8 <= bytes@.len(),
    ensures
        x == u64_at(bytes@, at as int),
{
    let _ = bytes.len();
    u64_from_le_bytes(slice_subrange(bytes, at, at + 8))
}

fn read_u128(bytes: &[u8], at: usize) -> (x: u128)
    requires
        at + 16 <= bytes@.len(),
    ensures
        x == u128_at(bytes@, at as int),
{
    let _ = bytes.len();
    u128_from_le_bytes(slice_subrange(bytes, at, at + 16))
}

fn decode_file(bytes: &[u8], at: usize) -> (r: Option<(FileMap, usize)>)
    requires
        at <= bytes@.len(),
    ensures
        match r {
            Some((file, end)) => parse_file(bytes@, at as int) == Some((file@, end as int)) && end
                <= bytes@.len(),
            None => parse_file(bytes@, at as int) is None,
        },
{
    let len: usize = bytes.len();
    if len - at < 4 {
        return None;
    }
    let name_len: usize = read_u32(bytes, at) as usize;
    if len - at - 4 < name_len {
        return None;
    }
    let name_end: usize = at + 4 + name_len;
    if len - name_end < 12 {
        return None;
    }
    let file_name = match text_of(slice_to_vec(slice_subrange(bytes, at + 4, name_end))) {
        Some(text) => text,
        None => {
            return None;
        },
    };
    let file_size = read_u64(bytes, name_end);
    let count: usize = read_u32(bytes, name_end + 8) as usize;
    let first: usize = name_end + 12;
    if (len - first) / 16 < count {
        return None;
    }
    let mut blocks: Vec<u128> = Vec::new();
    let mut k: usize = 0;
    while k < count
        invariant
            k <= count,
            len == bytes@.len(),
            first + 16 * count <= bytes@.len(),
            blocks@ == Seq::new(k as nat, |j: int| u128_at(bytes@, first + 16 * j)),
        decreases count - k,
    {
        blocks.push(read_u128(bytes, first + 16 * k));
        assert(blocks@ =~= Seq::new((k + 1) as nat, |j: int| u128_at(bytes@, first + 16 * j)));
        k += 1;
    }
    Some((FileMap { file_name, file_size, blocks }, first + 16 * count))
}

fn decode_files(bytes: &[u8], start: usize, count: u32) -> (r: Option<(Vec<FileMap>, usize)>)
    requires
        start <= bytes@.len(),
    ensures
        match r {
            Some((files, end)) => parse_files(bytes@, start as int, count as nat) == Some(
                (manifest_view(files@), end as int),
            ),
            None => parse_files(bytes@, start as int, count as nat) is None,
        },
{
    let mut files: Vec<FileMap> = Vec::new();
    let mut at: usize = start;
    let mut i: u32 = 0;
    while i < count
        invariant
            i <= count,
            at <= bytes@.len(),
            parse_files(bytes@, start as int, count as nat) == match parse_files(
                bytes@,
                at as int,
                (count - i) as nat,
            ) {
                Some((rest, end)) => Some((manifest_view(files@) + rest, end)),
                None => None,
            },
        decreases count - i,
    {
        let ghost before = manifest_view(files@);
        match decode_file(bytes, at) {
            None => {
                return None;
            },
            Some((file, next)) => {
                proof {
                    let tail = parse_files(bytes@, next as int, (count - i - 1) as nat);
                    if tail is Some {
                        let rest = tail->Some_0.0;
                        assert(before.push(file@) + rest =~= before + (seq![file@] + rest));
                    }
                    assert(manifest_view(files@.push(file)) =~= before.push(file@));
                }
                files.push(file);
                at = next;
                i += 1;
            },
        }
    }
    assert(manifest_view(files@) + Seq::<FileMapView>::empty() =~= manifest_view(files@));
    Some((files, at))
}

fn decode_body(body: &[u8]) -> (r: Option<Message>)
    ensures
        match r {
            Some(message) => parse_body(body@) == Some(message@),
            None => parse_body(body@) is None,
        },
{
    let len: usize = body.len();
    if len == 0 {
        return None;
    }
    let tag: u8 = body[0];
    if tag == TAG_HANDSHAKE {
        if len == 21 {
            Some(
                Message::Handshake(
                    Handshake { version: read_u32(body, 1), node_id: read_u128(body, 5) },
                ),
            )
        } else {
            None
        }
    } else if tag == TAG_GET_META {
        if len == 17 {
            Some(Message::GetMeta { hash: read_u128(body, 1) })
        } else {
            None
        }
    } else if tag == TAG_META {
        if len < 21 {
            None
        } else {
            let hash = read_u128(body, 1);
            match decode_files(body, 21, read_u32(body, 17)) {
                Some((files, end)) => {
                    if end == len {
                        Some(Message::Meta { hash, files })
                    } else {
                        None
                    }
                },
                None => None,
            }
        }
    } else if tag == TAG_GET_BLOCK {
        if len == 25 {
            Some(
                Message::GetBlock(
                    GetBlock {
                        hash: read_u128(body, 1),
                        file_nr: read_u32(body, 17),
                        block_nr: read_u32(body, 21),
                    },
                ),
            )
        } else {
            None
        }
    } else if tag == TAG_BLOCK {
        if len >= 25 {
            Some(
                Message::Block(
                    Block {
                        hash: read_u128(body, 1),
                        file_nr: read_u32(body, 17),
                        block_nr: read_u32(body, 21),
                        bytes: slice_to_vec(slice_subrange(body, 25, len)),
                    },
                ),
            )
        } else {
            None
        }
    } else if tag == TAG_NOT_FOUND {
        if len == 17 {
            Some(Message::NotFound { hash: read_u128(body, 1) })
        } else {
            None
        }
    } else if tag == TAG_BYE {
        if len == 1 {
            Some(Message::Bye)
        } else {
            None
        }
    } else {
        None
    }
}

/// Reads the frame at the start of the bytes received so far.
pub fn decode(buf: &[u8]) -> (r: Decoded)
    ensures
        match r {
            Decoded::Incomplete => parse_frame(buf@) == Parsed::Incomplete,
            Decoded::Malformed => parse_frame(buf@) == Parsed::Malformed,
            Decoded::Frame { message, used } => parse_frame(buf@) == (Parsed::Frame {
                message: message@,
                used: used as nat,
            }) && used <= buf@.len(),
        },
{
    let len: usize = buf.len();
    if len < 4 {
        return Decoded::Incomplete;
    }
    let body_len: usize = read_u32(buf, 0) as usize;
    if len - 4 < body_len {
        return Decoded::Incomplete;
    }
    match decode_body(slice_subrange(buf, 4, 4 + body_len)) {
        Some(message) => Decoded::Frame { message, used: 4 + body_len },
        None => Decoded::Malformed,
    }
}

fn push_u32(out: &mut Vec<u8>, x: u32)
    ensures
        final(out)@ == old(out)@ + spec_u32_to_le_bytes(x),
{
    let mut bytes = u32_to_le_bytes(x);
    out.append(&mut bytes);
}

fn push_u64(out: &mut Vec<u8>, x: u64)
    ensures
        final(out)@ == old(out)@ + spec_u64_to_le_bytes(x),
{
    let mut bytes = u64_to_le_bytes(x);
    out.append(&mut bytes);
}

fn push_u128(out: &mut Vec<u8>, x: u128)
    ensures
        final(out)@ == old(out)@ + spec_u128_to_le_bytes(x),
{
    let mut bytes = u128_to_le_bytes(x);
    out.append(&mut bytes);
}

fn push_bytes(out: &mut Vec<u8>, bytes: &[u8])
    ensures
        final(out)@ == old(out)@ + bytes@,
{
    let mut i: usize = 0;
    while i < bytes.len()
        invariant
            i <= bytes@.len(),
            out@ == old(out)@ + bytes@.take(i as int),
        decreases bytes.len() - i,
    {
        out.push(bytes[i]);
        assert(bytes@.take(i + 1) == bytes@.take(i as int).push(bytes@[i as int]));
        i += 1;
    }
    assert(bytes@.take(i as int) == bytes@);
}

proof fn lemma_files_wire_push(files: Seq<FileMapView>, file: FileMapView)
    ensures
        files_wire(files.push(file)) == files_wire(files) + file_wire(file),
    decreases files.len(),
{
    let all = files.push(file);
    if files.len() == 0 {
        assert(all.drop_first() =~= Seq::<FileMapView>::empty());
        assert(files_wire(all.drop_first()) =~= Seq::<u8>::empty());
        assert(files_wire(files) =~= Seq::<u8>::empty());
        assert(files_wire(all) =~= file_wire(file) + Seq::<u8>::empty());
        assert(files_wire(all) =~= files_wire(files) + file_wire(file));
    } else {
        assert(all.first() == files.first());
        assert(all.drop_first() =~= files.drop_first().push(file));
        lemma_files_wire_push(files.drop_first(), file);
        assert(files_wire(all) =~= files_wire(files) + file_wire(file));
    }
}

fn push_file(out: &mut Vec<u8>, file: &FileMap) -> (ok: bool)
    ensures
        ok == (encode_utf8(file@.file_name).len() <= u32::MAX && file@.blocks.len() <= u32::MAX),
        ok ==> final(out)@ == old(out)@ + file_wire(file@),
{
    let name = file.file_name.as_str().as_bytes();
    if name.len() as u64 > u32::MAX as u64 || file.blocks.len() as u64 > u32::MAX as u64 {
        return false;
    }
    push_u32(out, name.len() as u32);
    push_bytes(out, name);
    push_u64(out, file.file_size);
    push_u32(out, file.blocks.len() as u32);
    let ghost head = out@;
    let mut j: usize = 0;
    while j < file.blocks.len()
        invariant
            j <= file.blocks.len(),
            out@ == head + hashes_bytes(file.blocks@.take(j as int)),
        decreases file.blocks.len() - j,
    {
        push_u128(out, file.blocks[j]);
        proof {
            let next = file.blocks@.take(j + 1);
            assert(next.drop_last() == file.blocks@.take(j as int));
            assert(next.last() == file.blocks@[j as int]);
        }
        j += 1;
    }
    assert(file.blocks@.take(j as int) == file.blocks@);
    assert(out@ =~= old(out)@ + file_wire(file@));
    true
}

fn push_body(out: &mut Vec<u8>, message: &Message) -> (ok: bool)
    requires
        old(out)@.len() == 0,
    ensures
        ok ==> final(out)@ == body_of(message@),
        ok == (message@ matches MessageView::Meta { hash, files } ==> countable(files)),
{
    match message {
        Message::Handshake(h) => {
            out.push(TAG_HANDSHAKE);
            push_u32(out, h.version);
            push_u128(out, h.node_id);
            assert(out@ =~= body_of(message@));
            true
        },
        Message::GetMeta { hash } => {
            out.push(TAG_GET_META);
            push_u128(out, *hash);
            assert(out@ =~= body_of(message@));
            true
        },
        Message::Meta { hash, files } => {
            if files.len() as u64 > u32::MAX as u64 {
                return false;
            }
            out.push(TAG_META);
            push_u128(out, *hash);
            push_u32(out, files.len() as u32);
            let ghost head = out@;
            let ghost views = manifest_view(files@);
            let mut i: usize = 0;
            while i < files.len()
                invariant
                    i <= files.len(),
                    views == manifest_view(files@),
                    message@ == (MessageView::Meta { hash: *hash, files: views }),
                    views.len() <= u32::MAX,
                    out@ == head + files_wire(views.take(i as int)),
                    forall|k: int|
                        0 <= k < i ==> encode_utf8((#[trigger] views[k]).file_name).len()
                            <= u32::MAX && views[k].blocks.len() <= u32::MAX,
                decreases files.len() - i,
            {
                proof {
                    lemma_files_wire_push(views.take(i as int), views[i as int]);
                    assert(views.take(i + 1) =~= views.take(i as int).push(views[i as int]));
                    assert(views[i as int] == files@[i as int]@);
                }
                if !push_file(out, &files[i]) {
                    assert(!(encode_utf8(views[i as int].file_name).len() <= u32::MAX
                        && views[i as int].blocks.len() <= u32::MAX));
                    return false;
                }
                i += 1;
            }
            assert(views.take(i as int) == views);
            assert(out@ =~= body_of(message@));
            true
        },
        Message::GetBlock(get) => {
            out.push(TAG_GET_BLOCK);
            push_u128(out, get.hash);
            push_u32(out, get.file_nr);
            push_u32(out, get.block_nr);
            assert(out@ =~= body_of(message@));
            true
        },
        Message::Block(block) => {
            out.push(TAG_BLOCK);
            push_u128(out, block.hash);
            push_u32(out, block.file_nr);
            push_u32(out, block.block_nr);
            push_bytes(out, block.bytes.as_slice());
            assert(out@ =~= body_of(message@));
            true
        },
        Message::NotFound { hash } => {
            out.push(TAG_NOT_FOUND);
            push_u128(out, *hash);
            assert(out@ =~= body_of(message@));
            true
        },
        Message::Bye => {
            out.push(TAG_BYE);
            assert(out@ =~= body_of(message@));
            true
        },
    }
}

/// Writes a message as a frame; `None` for a message that does not fit in
/// one.
pub fn encode(message: &Message) -> (r: Option<Vec<u8>>)
    ensures
        match r {
            Some(bytes) => fits(message@) && bytes@ == frame_of(message@),
            None => !fits(message@),
        },
{
    let mut body: Vec<u8> = Vec::new();
    if !push_body(&mut body, message) {
        return None;
    }
    if body.len() as u64 > u32::MAX as u64 {
        return None;
    }
    let mut out = u32_to_le_bytes(body.len() as u32);
    out.append(&mut body);
    Some(out)
}

proof fn lemma_u32_at(a: Seq<u8>, x: u32, c: Seq<u8>)
    ensures
        spec_u32_to_le_bytes(x).len() == 4,
        u32_at(a + spec_u32_to_le_bytes(x) + c, a.len() as int) == x,
{
    lemma_auto_spec_u32_to_from_le_bytes();
    let w = spec_u32_to_le_bytes(x);
    assert((a + w + c).subrange(a.len() as int, a.len() as int + 4) =~= w);
}

proof fn lemma_u64_at(a: Seq<u8>, x: u64, c: Seq<u8>)
    ensures
        spec_u64_to_le_bytes(x).len() == 8,
        u64_at(a + spec_u64_to_le_bytes(x) + c, a.len() as int) == x,
{
    lemma_auto_spec_u64_to_from_le_bytes();
    let w = spec_u64_to_le_bytes(x);
    assert((a + w + c).subrange(a.len() as int, a.len() as int + 8) =~= w);
}

proof fn lemma_u128_at(a: Seq<u8>, x: u128, c: Seq<u8>)
    ensures
        spec_u128_to_le_bytes(x).len() == 16,
        u128_at(a + spec_u128_to_le_bytes(x) + c, a.len() as int) == x,
{
    lemma_auto_spec_u128_to_from_le_bytes();
    let w = spec_u128_to_le_bytes(x);
    assert((a + w + c).subrange(a.len() as int, a.len() as int + 16) =~= w);
}

/// Block hashes on the wire take sixteen bytes each, and the `k`-th of them
/// stands in the `k`-th sixteen bytes.
pub proof fn lemma_hashes_bytes(hashes: Seq<u128>)
    ensures
        hashes_bytes(hashes).len() == 16 * hashes.len(),
        forall|k: int|
            0 <= k < hashes.len() ==> #[trigger] hashes_bytes(hashes).subrange(16 * k, 16 * k + 16)
                == spec_u128_to_le_bytes(hashes[k]),
    decreases hashes.len(),
{
    lemma_auto_spec_u128_to_from_le_bytes();
    if hashes.len() > 0 {
        let rest = hashes.drop_last();
        let all = hashes_bytes(hashes);
        lemma_hashes_bytes(rest);
        assert forall|k: int| 0 <= k < hashes.len() implies #[trigger] all.subrange(
            16 * k,
            16 * k + 16,
        ) == spec_u128_to_le_bytes(hashes[k]) by {
            if k < rest.len() {
                assert(all.subrange(16 * k, 16 * k + 16) =~= hashes_bytes(rest).subrange(
                    16 * k,
                    16 * k + 16,
                ));
                assert(rest[k] == hashes[k]);
            } else {
                assert(all.subrange(16 * k, 16 * k + 16) =~= spec_u128_to_le_bytes(hashes.last()));
            }
        }
    }
}

proof fn lemma_parse_file(prefix: Seq<u8>, file: FileMapView, suffix: Seq<u8>)
    requires
        encode_utf8(file.file_name).len() <= u32::MAX,
        file.blocks.len() <= u32::MAX,
    ensures
        parse_file(prefix + file_wire(file) + suffix, prefix.len() as int) == Some(
            (file, (prefix.len() + file_wire(file).len()) as int),
        ),
{
    let name = encode_utf8(file.file_name);
    let n = spec_u32_to_le_bytes(name.len() as u32);
    let s = spec_u64_to_le_bytes(file.file_size);
    let c = spec_u32_to_le_bytes(file.blocks.len() as u32);
    let h = hashes_bytes(file.blocks);
    let bytes = prefix + file_wire(file) + suffix;
    let at = prefix.len() as int;
    lemma_hashes_bytes(file.blocks);
    lemma_auto_spec_u128_to_from_le_bytes();
    encode_utf8_valid_utf8(file.file_name);
    encode_utf8_decode_utf8(file.file_name);
    lemma_u32_at(prefix, name.len() as u32, name + s + c + h + suffix);
    assert(bytes =~= prefix + n + (name + s + c + h + suffix));
    let name_end = at + 4 + name.len();
    assert(bytes.subrange(at + 4, name_end) =~= name);
    lemma_u64_at(prefix + n + name, file.file_size, c + h + suffix);
    assert(bytes =~= (prefix + n + name) + s + (c + h + suffix));
    lemma_u32_at(prefix + n + name + s, file.blocks.len() as u32, h + suffix);
    assert(bytes =~= (prefix + n + name + s) + c + (h + suffix));
    let first = name_end + 12;
    let parsed = Seq::new(file.blocks.len(), |k: int| u128_at(bytes, first + 16 * k));
    assert forall|k: int| 0 <= k < file.blocks.len() implies parsed[k] == file.blocks[k] by {
        assert(bytes.subrange(first + 16 * k, first + 16 * k + 16) =~= h.subrange(
            16 * k,
            16 * k + 16,
        ));
    }
    assert(parsed =~= file.blocks);
    assert(file_wire(file).len() == 4 + name.len() + 8 + 4 + 16 * file.blocks.len());
}

proof fn lemma_parse_files(prefix: Seq<u8>, files: Seq<FileMapView>, suffix: Seq<u8>)
    requires
        forall|i: int|
            0 <= i < files.len() ==> encode_utf8((#[trigger] files[i]).file_name).len() <= u32::MAX
                && files[i].blocks.len() <= u32::MAX,
    ensures
        parse_files(prefix + files_wire(files) + suffix, prefix.len() as int, files.len()) == Some(
            (files, (prefix.len() + files_wire(files).len()) as int),
        ),
    decreases files.len(),
{
    let bytes = prefix + files_wire(files) + suffix;
    if files.len() == 0 {
        assert(files =~= Seq::<FileMapView>::empty());
    } else {
        let file = files.first();
        let rest = files.drop_first();
        assert(files[0] == file);
        lemma_parse_file(prefix, file, files_wire(rest) + suffix);
        assert(bytes =~= prefix + file_wire(file) + (files_wire(rest) + suffix));
        assert forall|i: int| 0 <= i < rest.len() implies encode_utf8(
            (#[trigger] rest[i]).file_name,
        ).len() <= u32::MAX && rest[i].blocks.len() <= u32::MAX by {
            assert(rest[i] == files[i + 1]);
        }
        lemma_parse_files(prefix + file_wire(file), rest, suffix);
        assert(bytes =~= (prefix + file_wire(file)) + files_wire(rest) + suffix);
        assert(seq![file] + rest =~= files);
    }
}

/// The body of a message that fits in a frame denotes that message.
pub proof fn lemma_parse_body_of(m: MessageView)
    requires
        fits(m),
    ensures
        parse_body(body_of(m)) == Some(m),
{
    let body = body_of(m);
    let none = Seq::<u8>::empty();
    match m {
        MessageView::Handshake(h) => {
            let v = spec_u32_to_le_bytes(h.version);
            let n = spec_u128_to_le_bytes(h.node_id);
            lemma_u32_at(seq![TAG_HANDSHAKE], h.version, n);
            lemma_u128_at(seq![TAG_HANDSHAKE] + v, h.node_id, none);
            assert(body =~= seq![TAG_HANDSHAKE] + v + n + none);
        },
        MessageView::GetMeta { hash } => {
            lemma_u128_at(seq![TAG_GET_META], hash, none);
            assert(body =~= seq![TAG_GET_META] + spec_u128_to_le_bytes(hash) + none);
        },
        MessageView::Meta { hash, files } => {
            let h = spec_u128_to_le_bytes(hash);
            let c = spec_u32_to_le_bytes(files.len() as u32);
            let w = files_wire(files);
            lemma_u128_at(seq![TAG_META], hash, c + w);
            assert(body =~= seq![TAG_META] + h + (c + w));
            lemma_u32_at(seq![TAG_META] + h, files.len() as u32, w);
            lemma_parse_files(seq![TAG_META] + h + c, files, none);
            assert(body =~= seq![TAG_META] + h + c + w + none);
        },
        MessageView::GetBlock(get) => {
            let h = spec_u128_to_le_bytes(get.hash);
            let f = spec_u32_to_le_bytes(get.file_nr);
            let b = spec_u32_to_le_bytes(get.block_nr);
            lemma_u128_at(seq![TAG_GET_BLOCK], get.hash, f + b);
            assert(body =~= seq![TAG_GET_BLOCK] + h + (f + b));
            lemma_u32_at(seq![TAG_GET_BLOCK] + h, get.file_nr, b);
            lemma_u32_at(seq![TAG_GET_BLOCK] + h + f, get.block_nr, none);
            assert(body =~= seq![TAG_GET_BLOCK] + h + f + b + none);
        },
        MessageView::Block { hash, file_nr, block_nr, bytes } => {
            let h = spec_u128_to_le_bytes(hash);
            let f = spec_u32_to_le_bytes(file_nr);
            let b = spec_u32_to_le_bytes(block_nr);
            lemma_u128_at(seq![TAG_BLOCK], hash, f + b + bytes);
            assert(body =~= seq![TAG_BLOCK] + h + (f + b + bytes));
            lemma_u32_at(seq![TAG_BLOCK] + h, file_nr, b + bytes);
            assert(body =~= seq![TAG_BLOCK] + h + f + (b + bytes));
            lemma_u32_at(seq![TAG_BLOCK] + h + f, block_nr, bytes);
            assert(body.subrange(25, body.len() as int) =~= bytes);
        },
        MessageView::NotFound { hash } => {
            lemma_u128_at(seq![TAG_NOT_FOUND], hash, none);
            assert(body =~= seq![TAG_NOT_FOUND] + spec_u128_to_le_bytes(hash) + none);
        },
        MessageView::Bye => {},
    }
}

/// What was written can be read: the frame of a message that fits, followed
/// by whatever comes after it, is read as that message in that many bytes.
pub proof fn lemma_decode_encoded(m: MessageView, rest: Seq<u8>)
    requires
        fits(m),
    ensures
        parse_frame(frame_of(m) + rest) == (Parsed::Frame {
            message: m,
            used: frame_of(m).len(),
        }),
{
    let body = body_of(m);
    let buf = frame_of(m) + rest;
    lemma_u32_at(Seq::<u8>::empty(), body.len() as u32, body + rest);
    assert(buf =~= Seq::<u8>::empty() + spec_u32_to_le_bytes(body.len() as u32) + (body + rest));
    assert(buf.subrange(4, 4 + body.len() as int) =~= body);
    lemma_parse_body_of(m);
}

/// A frame is not read before it has arrived whole: every proper beginning
/// of a frame is incomplete.
pub proof fn lemma_partial_frame_is_incomplete(m: MessageView, n: int)
    requires
        fits(m),
        0 <= n < frame_of(m).len(),
    ensures
        parse_frame(frame_of(m).take(n)) == Parsed::Incomplete,
{
    let body = body_of(m);
    let part = frame_of(m).take(n);
    lemma_u32_at(Seq::<u8>::empty(), body.len() as u32, body);
    assert(frame_of(m) =~= Seq::<u8>::empty() + spec_u32_to_le_bytes(body.len() as u32) + body);
    if n >= 4 {
        assert(part.subrange(0, 4) =~= frame_of(m).subrange(0, 4));
    }
}

proof fn lemma_hashes_of_parsed(bytes: Seq<u8>, first: int, count: nat)
    requires
        0 <= first,
        first + 16 * count <= bytes.len(),
    ensures
        hashes_bytes(Seq::new(count, |k: int| u128_at(bytes, first + 16 * k))) == bytes.subrange(
            first,
            first + 16 * count,
        ),
    decreases count,
{
    lemma_auto_spec_u128_to_from_le_bytes();
    let hashes = Seq::new(count, |k: int| u128_at(bytes, first + 16 * k));
    if count == 0 {
        assert(hashes_bytes(hashes) =~= bytes.subrange(first, first));
    } else {
        let fewer = (count - 1) as nat;
        lemma_hashes_of_parsed(bytes, first, fewer);
        assert(hashes.drop_last() =~= Seq::new(fewer, |k: int| u128_at(bytes, first + 16 * k)));
        let last = bytes.subrange(first + 16 * fewer, first + 16 * fewer + 16);
        assert(spec_u128_to_le_bytes(hashes.last()) == last);
        assert(bytes.subrange(first, first + 16 * fewer) + last =~= bytes.subrange(
            first,
            first + 16 * count,
        ));
    }
}

proof fn lemma_file_of_parsed(bytes: Seq<u8>, at: int)
    requires
        parse_file(bytes, at) is Some,
    ensures
        ({
            let (file, end) = parse_file(bytes, at)->Some_0;
            &&& at <= end <= bytes.len()
            &&& file_wire(file) == bytes.subrange(at, end)
            &&& encode_utf8(file.file_name).len() <= u32::MAX
            &&& file.blocks.len() <= u32::MAX
        }),
{
    lemma_auto_spec_u32_to_from_le_bytes();
    lemma_auto_spec_u64_to_from_le_bytes();
    let (file, end) = parse_file(bytes, at)->Some_0;
    let name_len = u32_at(bytes, at) as int;
    let name_end = at + 4 + name_len;
    let name = bytes.subrange(at + 4, name_end);
    let count = u32_at(bytes, name_end + 8) as int;
    let first = name_end + 12;
    decode_utf8_encode_utf8(name);
    lemma_hashes_of_parsed(bytes, first, count as nat);
    assert(encode_utf8(file.file_name) == name);
    assert(spec_u32_to_le_bytes(name_len as u32) == bytes.subrange(at, at + 4));
    assert(spec_u64_to_le_bytes(file.file_size) == bytes.subrange(name_end, name_end + 8));
    assert(spec_u32_to_le_bytes(count as u32) == bytes.subrange(name_end + 8, name_end + 12));
    assert(file_wire(file) =~= bytes.subrange(at, end));
}

proof fn lemma_files_of_parsed(bytes: Seq<u8>, at: int, count: nat)
    requires
        0 <= at <= bytes.len(),
        parse_files(bytes, at, count) is Some,
    ensures
        ({
            let (files, end) = parse_files(bytes, at, count)->Some_0;
            &&& at <= end <= bytes.len()
            &&& files.len() == count
            &&& files_wire(files) == bytes.subrange(at, end)
            &&& forall|i: int|
                0 <= i < files.len() ==> encode_utf8((#[trigger] files[i]).file_name).len()
                    <= u32::MAX && files[i].blocks.len() <= u32::MAX
        }),
    decreases count,
{
    let (files, end) = parse_files(bytes, at, count)->Some_0;
    if count == 0 {
        assert(files_wire(files) =~= bytes.subrange(at, end));
    } else {
        lemma_file_of_parsed(bytes, at);
        let (file, next) = parse_file(bytes, at)->Some_0;
        lemma_files_of_parsed(bytes, next, (count - 1) as nat);
        let (rest, last) = parse_files(bytes, next, (count - 1) as nat)->Some_0;
        assert(files == seq![file] + rest);
        assert(files.first() == file);
        assert(files.drop_first() =~= rest);
        assert(bytes.subrange(at, next) + bytes.subrange(next, end) =~= bytes.subrange(at, end));
        assert forall|i: int| 0 <= i < files.len() implies encode_utf8(
            (#[trigger] files[i]).file_name,
        ).len() <= u32::MAX && files[i].blocks.len() <= u32::MAX by {
            if i > 0 {
                assert(files[i] == rest[i - 1]);
            }
        }
    }
}

/// A body denotes at most one message, and that message is written as
/// exactly that body.
pub proof fn lemma_body_of_parsed(body: Seq<u8>)
    requires
        parse_body(body) is Some,
    ensures
        body_of(parse_body(body)->Some_0) == body,
        parse_body(body)->Some_0 matches MessageView::Meta { hash, files } ==> files.len()
            <= u32::MAX && forall|i: int|
            0 <= i < files.len() ==> encode_utf8((#[trigger] files[i]).file_name).len() <= u32::MAX
                && files[i].blocks.len() <= u32::MAX,
{
    lemma_auto_spec_u32_to_from_le_bytes();
    lemma_auto_spec_u128_to_from_le_bytes();
    let m = parse_body(body)->Some_0;
    let len = body.len() as int;
    assert(seq![body[0]] =~= body.subrange(0, 1));
    match m {
        MessageView::Handshake(h) => {
            assert(spec_u32_to_le_bytes(h.version) == body.subrange(1, 5));
            assert(spec_u128_to_le_bytes(h.node_id) == body.subrange(5, 21));
            assert(body_of(m) =~= body);
        },
        MessageView::GetMeta { hash } => {
            assert(spec_u128_to_le_bytes(hash) == body.subrange(1, 17));
            assert(body_of(m) =~= body);
        },
        MessageView::Meta { hash, files } => {
            lemma_files_of_parsed(body, 21, u32_at(body, 17) as nat);
            assert(spec_u128_to_le_bytes(hash) == body.subrange(1, 17));
            assert(spec_u32_to_le_bytes(files.len() as u32) == body.subrange(17, 21));
            assert(body_of(m) =~= body);
        },
        MessageView::GetBlock(get) => {
            assert(spec_u128_to_le_bytes(get.hash) == body.subrange(1, 17));
            assert(spec_u32_to_le_bytes(get.file_nr) == body.subrange(17, 21));
            assert(spec_u32_to_le_bytes(get.block_nr) == body.subrange(21, 25));
            assert(body_of(m) =~= body);
        },
        MessageView::Block { hash, file_nr, block_nr, bytes } => {
            assert(spec_u128_to_le_bytes(hash) == body.subrange(1, 17));
            assert(spec_u32_to_le_bytes(file_nr) == body.subrange(17, 21));
            assert(spec_u32_to_le_bytes(block_nr) == body.subrange(21, 25));
            assert(body_of(m) =~= body);
        },
        MessageView::NotFound { hash } => {
            assert(spec_u128_to_le_bytes(hash) == body.subrange(1, 17));
            assert(body_of(m) =~= body);
        },
        MessageView::Bye => {
            assert(body_of(m) =~= body);
        },
    }
}

/// What was read was written so: bytes are read as a message only if they
/// begin with the frame of that message, and such a message fits in a
/// frame. No two different byte strings are read as the same frame.
pub proof fn lemma_encode_decoded(buf: Seq<u8>)
    requires
        parse_frame(buf) is Frame,
    ensures
        ({
            let message = parse_frame(buf)->message;
            let used = parse_frame(buf)->used;
            &&& used <= buf.len()
            &&& fits(message)
            &&& frame_of(message) == buf.take(used as int)
        }),
{
    lemma_auto_spec_u32_to_from_le_bytes();
    let message = parse_frame(buf)->message;
    let len = u32_at(buf, 0) as int;
    let body = buf.subrange(4, 4 + len);
    lemma_body_of_parsed(body);
    assert(spec_u32_to_le_bytes(len as u32) == buf.subrange(0, 4));
    assert(frame_of(message) =~= buf.take(4 + len));
}

} // verus!
