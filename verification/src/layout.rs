//! The header as a sequence of bytes.
//!
//! | offset | length          | field     |
//! |--------|-----------------|-----------|
//! | 0      | 8               | signature |
//! | 8      | 8               | version   |
//! | 16     | 16              | uuid      |
//! | 32     | 8               | size      |
//! | 40     | 8               | root      |
//! | 48     | 8               | free      |
//! | 56     | block size − 56 | padding   |
//!
//! The fields follow each other without gaps, and the padding fills the block.
//! The layout is stated here for any block size; the executable header fixes
//! it to [`BLOCK_SIZE`](crate::BLOCK_SIZE).

use crate::endian::{
    lemma_word_image_len, lemma_word_image_of_value, lemma_word_value_of_image, word_image,
    word_value, ByteOrder,
};
use crate::{BLOCK_SIZE, SIGNATURE, VERSION};
use vstd::prelude::*;

verus! {

/// Length of the signature.
pub const SIGNATURE_SIZE: usize = 8;

/// Length of the unique identifier.
pub const UUID_SIZE: usize = 16;

/// Offset of the version.
pub const VERSION_AT: usize = 8;

/// Offset of the unique identifier.
pub const UUID_AT: usize = 16;

/// Offset of the size.
pub const SIZE_AT: usize = 32;

/// Offset of the root pointer.
pub const ROOT_AT: usize = 40;

/// Offset of the free pointer.
pub const FREE_AT: usize = 48;

/// Offset of the padding: the length of all fields before it.
pub const PADDING_AT: usize = 56;

/// Length of a block, as the length of a buffer.
pub const BLOCK_LEN: usize = 4096;

/// Length of the padding in a block of `BLOCK_LEN` bytes.
pub const PADDING_SIZE: usize = 4040;

/// What a header holds: the mathematical model of the record.
pub struct HeaderView {
    pub signature: Seq<u8>,
    pub version: u64,
    pub uuid: Seq<u8>,
    pub size: u64,
    pub root: u64,
    pub free: u64,
    pub padding: Seq<u8>,
}

impl HeaderView {
    /// The fields have the lengths that a block of `block_size` bytes gives
    /// them. No header exists for a block of less than 56 bytes.
    pub open spec fn wf(self, block_size: nat) -> bool {
        &&& self.signature.len() == SIGNATURE_SIZE
        &&& self.uuid.len() == UUID_SIZE
        &&& PADDING_AT + self.padding.len() == block_size
    }

    /// The header carries the signature of the format and the revision that
    /// this library understands. Nothing else counts.
    pub open spec fn valid(self) -> bool {
        self.signature == SIGNATURE@ && self.version == VERSION
    }

    /// The header before formatting: every byte of every field is zero.
    pub open spec fn blank(block_size: nat) -> HeaderView {
        HeaderView {
            signature: Seq::new(SIGNATURE_SIZE as nat, |i: int| 0u8),
            version: 0,
            uuid: Seq::new(UUID_SIZE as nat, |i: int| 0u8),
            size: 0,
            root: 0,
            free: 0,
            padding: Seq::new((block_size - PADDING_AT) as nat, |i: int| 0u8),
        }
    }

    /// The header of a freshly formatted file system.
    pub open spec fn formatted(
        block_size: nat,
        uuid: Seq<u8>,
        size: u64,
        root: u64,
        free: u64,
    ) -> HeaderView {
        HeaderView {
            signature: SIGNATURE@,
            version: VERSION,
            uuid,
            size,
            root,
            free,
            padding: Seq::new((block_size - PADDING_AT) as nat, |i: int| 0u8),
        }
    }
}

/// The bytes of the block that stores `header`, integers in the given order.
pub open spec fn image(header: HeaderView, order: ByteOrder) -> Seq<u8> {
    header.signature + word_image(order, header.version) + header.uuid + word_image(
        order,
        header.size,
    ) + word_image(order, header.root) + word_image(order, header.free) + header.padding
}

/// The header that the bytes of a block store. Every block of at least 56
/// bytes stores one.
pub open spec fn parse(block: Seq<u8>, order: ByteOrder) -> HeaderView {
    HeaderView {
        signature: block.subrange(0, VERSION_AT as int),
        version: word_value(order, block.subrange(VERSION_AT as int, UUID_AT as int)) as u64,
        uuid: block.subrange(UUID_AT as int, SIZE_AT as int),
        size: word_value(order, block.subrange(SIZE_AT as int, ROOT_AT as int)) as u64,
        root: word_value(order, block.subrange(ROOT_AT as int, FREE_AT as int)) as u64,
        free: word_value(order, block.subrange(FREE_AT as int, PADDING_AT as int)) as u64,
        padding: block.subrange(PADDING_AT as int, block.len() as int),
    }
}

/// The first sixteen bytes of every valid block: the signature and the image of
/// the revision.
pub open spec fn identity(order: ByteOrder) -> Seq<u8> {
    SIGNATURE@ + word_image(order, VERSION)
}

/// The constants of this library describe one layout: the padding fills a block
/// of `BLOCK_SIZE` bytes.
pub proof fn lemma_block_constants()
    ensures
        BLOCK_LEN == BLOCK_SIZE,
        PADDING_AT + PADDING_SIZE == BLOCK_SIZE,
        SIGNATURE@.len() == SIGNATURE_SIZE,
{
}

/// Whatever the block size, the record is exactly one block long.
pub proof fn lemma_image_len(header: HeaderView, order: ByteOrder, block_size: nat)
    requires
        header.wf(block_size),
    ensures
        image(header, order).len() == block_size,
{
    lemma_word_image_len(order, header.version);
    lemma_word_image_len(order, header.size);
    lemma_word_image_len(order, header.root);
    lemma_word_image_len(order, header.free);
}

/// Where each field lies in the image.
pub proof fn lemma_image_fields(header: HeaderView, order: ByteOrder, block_size: nat)
    requires
        header.wf(block_size),
    ensures
        image(header, order).len() == block_size,
        image(header, order).subrange(0, VERSION_AT as int) == header.signature,
        image(header, order).subrange(VERSION_AT as int, UUID_AT as int) == word_image(
            order,
            header.version,
        ),
        image(header, order).subrange(UUID_AT as int, SIZE_AT as int) == header.uuid,
        image(header, order).subrange(SIZE_AT as int, ROOT_AT as int) == word_image(
            order,
            header.size,
        ),
        image(header, order).subrange(ROOT_AT as int, FREE_AT as int) == word_image(
            order,
            header.root,
        ),
        image(header, order).subrange(FREE_AT as int, PADDING_AT as int) == word_image(
            order,
            header.free,
        ),
        image(header, order).subrange(PADDING_AT as int, block_size as int) == header.padding,
{
    lemma_image_len(header, order, block_size);
    lemma_word_image_len(order, header.version);
    lemma_word_image_len(order, header.size);
    lemma_word_image_len(order, header.root);
    lemma_word_image_len(order, header.free);
    let whole = image(header, order);
    assert(whole.subrange(0, VERSION_AT as int) =~= header.signature);
    assert(whole.subrange(VERSION_AT as int, UUID_AT as int) =~= word_image(
        order,
        header.version,
    ));
    assert(whole.subrange(UUID_AT as int, SIZE_AT as int) =~= header.uuid);
    assert(whole.subrange(SIZE_AT as int, ROOT_AT as int) =~= word_image(order, header.size));
    assert(whole.subrange(ROOT_AT as int, FREE_AT as int) =~= word_image(order, header.root));
    assert(whole.subrange(FREE_AT as int, PADDING_AT as int) =~= word_image(order, header.free));
    assert(whole.subrange(PADDING_AT as int, block_size as int) =~= header.padding);
}

/// Writing a header to a block and reading the block gives the header back,
/// every field of it, the padding too.
pub proof fn lemma_parse_image(header: HeaderView, order: ByteOrder, block_size: nat)
    requires
        header.wf(block_size),
    ensures
        parse(image(header, order), order) == header,
{
    lemma_image_fields(header, order, block_size);
    lemma_word_value_of_image(order, header.version);
    lemma_word_value_of_image(order, header.size);
    lemma_word_value_of_image(order, header.root);
    lemma_word_value_of_image(order, header.free);
}

/// Reading a block and writing what was read gives the block back, and what was
/// read is a header for blocks of that length.
pub proof fn lemma_image_parse(block: Seq<u8>, order: ByteOrder)
    requires
        block.len() >= PADDING_AT,
    ensures
        parse(block, order).wf(block.len()),
        image(parse(block, order), order) == block,
{
    lemma_word_image_of_value(order, block.subrange(VERSION_AT as int, UUID_AT as int));
    lemma_word_image_of_value(order, block.subrange(SIZE_AT as int, ROOT_AT as int));
    lemma_word_image_of_value(order, block.subrange(ROOT_AT as int, FREE_AT as int));
    lemma_word_image_of_value(order, block.subrange(FREE_AT as int, PADDING_AT as int));
    assert(image(parse(block, order), order) =~= block);
}

/// A block stores a valid header exactly if it starts with the signature and the
/// image of the revision. No byte after the first sixteen has a say.
pub proof fn lemma_valid_by_identity(block: Seq<u8>, order: ByteOrder)
    requires
        block.len() >= PADDING_AT,
    ensures
        parse(block, order).valid() <==> block.subrange(0, UUID_AT as int) == identity(order),
{
    let signature = block.subrange(0, VERSION_AT as int);
    let version = block.subrange(VERSION_AT as int, UUID_AT as int);
    lemma_word_image_len(order, VERSION);
    lemma_word_image_of_value(order, version);
    lemma_word_value_of_image(order, VERSION);
    assert(block.subrange(0, UUID_AT as int) =~= signature + version);
    if block.subrange(0, UUID_AT as int) == identity(order) {
        assert(signature =~= identity(order).subrange(0, VERSION_AT as int));
        assert(version =~= identity(order).subrange(VERSION_AT as int, UUID_AT as int));
        assert(signature =~= SIGNATURE@);
        assert(version =~= word_image(order, VERSION));
    }
}

/// Changing any byte of the signature or of the version of a valid header
/// makes it invalid, whatever the other fields hold.
pub proof fn lemma_identity_change_invalidates(
    header: HeaderView,
    order: ByteOrder,
    block_size: nat,
    index: int,
    value: u8,
)
    requires
        header.wf(block_size),
        header.valid(),
        0 <= index < UUID_AT,
        value != image(header, order)[index],
    ensures
        !parse(image(header, order).update(index, value), order).valid(),
{
    let before = image(header, order);
    let after = before.update(index, value);
    lemma_image_len(header, order, block_size);
    lemma_parse_image(header, order, block_size);
    lemma_valid_by_identity(before, order);
    lemma_valid_by_identity(after, order);
    assert(before.subrange(0, UUID_AT as int)[index] == before[index]);
    assert(after.subrange(0, UUID_AT as int)[index] == value);
}

/// Changing a byte of the padding changes neither the validity of a header
/// nor any other field of it.
pub proof fn lemma_padding_change_keeps_fields(
    header: HeaderView,
    order: ByteOrder,
    block_size: nat,
    index: int,
    value: u8,
)
    requires
        header.wf(block_size),
        PADDING_AT <= index < block_size,
    ensures
        parse(image(header, order).update(index, value), order) == (HeaderView {
            padding: header.padding.update(index - PADDING_AT, value),
            ..header
        }),
        parse(image(header, order).update(index, value), order).valid() == header.valid(),
{
    let before = image(header, order);
    let after = before.update(index, value);
    let changed = HeaderView {
        padding: header.padding.update(index - PADDING_AT, value),
        ..header
    };
    lemma_image_len(header, order, block_size);
    lemma_word_image_len(order, header.version);
    lemma_word_image_len(order, header.size);
    lemma_word_image_len(order, header.root);
    lemma_word_image_len(order, header.free);
    assert(image(changed, order) =~= after);
    lemma_parse_image(changed, order, block_size);
}

} // verus!
