//! The header record and its operations.

use crate::bytes::{copy_from, copy_to, same_bytes};
use crate::endian::{
    lemma_word_image_len, word_from_bytes, word_to_bytes, word_with_byte, ByteOrder,
};
use crate::ident::{is_random_uuid, random_uuid};
use crate::inspect::{debug_text, push_decimal, push_decimal_list};
use crate::layout::{
    image, lemma_parse_image, parse, HeaderView, BLOCK_LEN, FREE_AT, PADDING_AT, PADDING_SIZE,
    ROOT_AT, SIZE_AT, UUID_AT, VERSION_AT,
};
use crate::{BLOCK_SIZE, SIGNATURE, VERSION};
use vstd::prelude::*;
use vstd::string::*;

verus! {

/// The header of the file system. It takes exactly one block.
#[derive(Clone, Copy)]
pub struct Header {
    /// Names the format: `SIGNATURE` in a valid header.
    pub signature: [u8; 8],
    /// Revision of the format: `VERSION` in a valid header.
    pub version: u64,
    /// Identifies this file system among all others.
    pub uuid: [u8; 16],
    /// Capacity of the file system, in blocks.
    pub size: u64,
    /// Address of the block that holds the root of the data tree.
    pub root: u64,
    /// Address of the block that holds the root of the free-space tracker.
    pub free: u64,
    /// Reserved. Written as zeros, and never looked at.
    pub padding: [u8; PADDING_SIZE],
}

impl View for Header {
    type V = HeaderView;

    open spec fn view(&self) -> HeaderView {
        HeaderView {
            signature: self.signature@,
            version: self.version,
            uuid: self.uuid@,
            size: self.size,
            root: self.root,
            free: self.free,
            padding: self.padding@,
        }
    }
}

impl Header {
    /// The header of a disk that is not formatted: every byte is zero. It is
    /// not valid.
    pub fn default() -> (header: Header)
        ensures
            header@ == HeaderView::blank(BLOCK_SIZE as nat),
            !header@.valid(),
    {
        let header = Header {
            signature: [0; 8],
            version: 0,
            uuid: [0; 16],
            size: 0,
            root: 0,
            free: 0,
            padding: [0; PADDING_SIZE],
        };
        proof {
            assert(header@.signature =~= HeaderView::blank(BLOCK_SIZE as nat).signature);
            assert(header@.uuid =~= HeaderView::blank(BLOCK_SIZE as nat).uuid);
            assert(header@.padding =~= HeaderView::blank(BLOCK_SIZE as nat).padding);
        }
        header
    }

    /// A valid header for a disk of `size` blocks, with a new random
    /// identifier. `root` and `free` are taken as they are: that they lie
    /// within `size` is the caller's business.
    pub fn new(size: u64, root: u64, free: u64) -> (header: Header)
        ensures
            header@ == HeaderView::formatted(BLOCK_SIZE as nat, header@.uuid, size, root, free),
            is_random_uuid(header@.uuid),
            header@.valid(),
    {
        Header::with_uuid(random_uuid(), size, root, free)
    }

    /// A valid header for a disk of `size` blocks with the identifier `uuid`.
    pub fn with_uuid(uuid: [u8; 16], size: u64, root: u64, free: u64) -> (header: Header)
        ensures
            header@ == HeaderView::formatted(BLOCK_SIZE as nat, uuid@, size, root, free),
            header@.valid(),
    {
        let header = Header {
            signature: SIGNATURE,
            version: VERSION,
            uuid,
            size,
            root,
            free,
            padding: [0; PADDING_SIZE],
        };
        proof {
            assert(header@.padding =~= HeaderView::formatted(
                BLOCK_SIZE as nat,
                uuid@,
                size,
                root,
                free,
            ).padding);
        }
        header
    }

    /// Whether this is the header of a file system that this library can
    /// read: the signature is `SIGNATURE` and the version is `VERSION`.
    pub fn valid(&self) -> (ok: bool)
        ensures
            ok == self@.valid(),
    {
        same_bytes(&self.signature, &SIGNATURE) && self.version == VERSION
    }

    /// The block that stores this header, its integers in the given byte
    /// order.
    pub fn to_bytes(&self, order: ByteOrder) -> (block: [u8; BLOCK_LEN])
        ensures
            block@ == image(self@, order),
            block@.len() == BLOCK_SIZE,
    {
        let mut block = [0u8; BLOCK_LEN];
        let version = word_to_bytes(order, self.version);
        let size = word_to_bytes(order, self.size);
        let root = word_to_bytes(order, self.root);
        let free = word_to_bytes(order, self.free);
        copy_to(&mut block, 0, &self.signature);
        copy_to(&mut block, VERSION_AT, &version);
        copy_to(&mut block, UUID_AT, &self.uuid);
        copy_to(&mut block, SIZE_AT, &size);
        copy_to(&mut block, ROOT_AT, &root);
        copy_to(&mut block, FREE_AT, &free);
        copy_to(&mut block, PADDING_AT, &self.padding);
        assert(block@ =~= image(self@, order));
        block
    }

    /// The header that a block stores, its integers read in the given byte
    /// order. Any `BLOCK_SIZE` bytes store a header, valid or not; a buffer of
    /// another length stores none.
    pub fn from_bytes(block: &[u8], order: ByteOrder) -> (found: Option<Header>)
        ensures
            found is Some <==> block@.len() == BLOCK_SIZE,
            found matches Some(header) ==> header@ == parse(block@, order),
    {
        if block.len() != BLOCK_LEN {
            return None;
        }
        let mut header = Header::default();
        let mut word = [0u8; 8];
        copy_from(&mut header.signature, block, 0);
        copy_from(&mut word, block, VERSION_AT);
        header.version = word_from_bytes(order, &word);
        copy_from(&mut header.uuid, block, UUID_AT);
        copy_from(&mut word, block, SIZE_AT);
        header.size = word_from_bytes(order, &word);
        copy_from(&mut word, block, ROOT_AT);
        header.root = word_from_bytes(order, &word);
        copy_from(&mut word, block, FREE_AT);
        header.free = word_from_bytes(order, &word);
        copy_from(&mut header.padding, block, PADDING_AT);
        Some(header)
    }

    /// Writes one byte of the block that stores this header, and leaves the
    /// other bytes of the block as they are. Nothing is written at an `index`
    /// outside the block.
    pub fn set_byte(&mut self, order: ByteOrder, index: usize, value: u8) -> (written: bool)
        ensures
            written == (index < BLOCK_SIZE),
            written ==> image(final(self)@, order) == image(old(self)@, order).update(
                index as int,
                value,
            ),
            written ==> final(self)@ == parse(
                image(old(self)@, order).update(index as int, value),
                order,
            ),
            !written ==> *final(self) == *old(self),
    {
        proof {
            lemma_word_image_len(order, self.version);
            lemma_word_image_len(order, self.size);
            lemma_word_image_len(order, self.root);
            lemma_word_image_len(order, self.free);
        }
        if index < VERSION_AT {
            self.signature[index] = value;
        } else if index < UUID_AT {
            self.version = word_with_byte(order, self.version, index - VERSION_AT, value);
        } else if index < SIZE_AT {
            self.uuid[index - UUID_AT] = value;
        } else if index < ROOT_AT {
            self.size = word_with_byte(order, self.size, index - SIZE_AT, value);
        } else if index < FREE_AT {
            self.root = word_with_byte(order, self.root, index - ROOT_AT, value);
        } else if index < PADDING_AT {
            self.free = word_with_byte(order, self.free, index - FREE_AT, value);
        } else if index < BLOCK_LEN {
            self.padding[index - PADDING_AT] = value;
        } else {
            return false;
        }
        proof {
            lemma_word_image_len(order, self.version);
            lemma_word_image_len(order, self.size);
            lemma_word_image_len(order, self.root);
            lemma_word_image_len(order, self.free);
            assert(image(self@, order) =~= image(old(self)@, order).update(index as int, value));
            lemma_parse_image(self@, order, BLOCK_SIZE as nat);
        }
        true
    }

    /// The header as text: each field but the padding, by name, in a form
    /// that depends on nothing but the values of those fields.
    pub fn debug_string(&self) -> (text: String)
        ensures
            text@ == debug_text(self@),
    {
        let mut text = String::new();
        text.append("Header { signature: ");
        push_decimal_list(&mut text, &self.signature);
        text.append(", version: ");
        push_decimal(&mut text, self.version);
        text.append(", uuid: ");
        push_decimal_list(&mut text, &self.uuid);
        text.append(", size: ");
        push_decimal(&mut text, self.size);
        text.append(", root: ");
        push_decimal(&mut text, self.root);
        text.append(", free: ");
        push_decimal(&mut text, self.free);
        text.append(" }");
        assert(text@ =~= debug_text(self@));
        text
    }

    /// The fields of every header have the lengths that the layout gives them
    /// in a block of `BLOCK_SIZE` bytes.
    pub proof fn lemma_wf(self)
        ensures
            self@.wf(BLOCK_SIZE as nat),
    {
    }

    /// A header is what it holds: two headers with the same fields are the
    /// same header.
    pub proof fn lemma_equal_by_view(self, other: Header)
        requires
            self@ == other@,
        ensures
            self == other,
    {
        assert(self.signature =~= other.signature);
        assert(self.uuid =~= other.uuid);
        assert(self.padding =~= other.padding);
    }
}

} // verus!
