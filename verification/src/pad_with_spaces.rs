//! Padding a document to a size: bytes of one value are appended until the
//! document is as long as wanted. A document that is long enough is left as
//! it is. Nothing of the document is read but its length.

use vstd::prelude::*;
use vstd::slice::slice_subrange;

verus! {

/// The size to pad to where none is configured: 2 GiB.
pub const DEFAULT_TARGET_SIZE: u64 = 2147483648;

/// The byte to pad with where none is configured: an ASCII space.
pub const DEFAULT_FILL_BYTE: u8 = 0x20;

/// How many bytes are appended at a time at most: 1 MiB.
pub const CHUNK_SIZE: usize = 1048576;

/// Configurations for [`pad_with_spaces`].
#[derive(Debug, Clone)]
pub struct PadWithSpacesCommand {
    /// The path of the document to pad.
    pub chain_spec_path: String,
    /// Where the padded document goes; the document itself is padded if
    /// absent.
    pub output_path: Option<String>,
    /// The byte to pad with; a space if absent.
    pub ascii_code: Option<u8>,
    /// The size to reach, in bytes; 2 GiB if absent.
    pub target_size: Option<u64>,
}

/// How many bytes a document of `size` bytes lacks to be `target` bytes long.
pub open spec fn deficit(size: int, target: int) -> int {
    if size < target {
        target - size
    } else {
        0
    }
}

/// `count` bytes of value `fill`.
pub open spec fn filling(fill: u8, count: int) -> Seq<u8> {
    Seq::new(count as nat, |i: int| fill)
}

/// The document padded with `fill` to `target` bytes.
pub open spec fn padded(document: Seq<u8>, fill: u8, target: int) -> Seq<u8> {
    document + filling(fill, deficit(document.len() as int, target))
}

impl PadWithSpacesCommand {
    /// The byte that the command pads with.
    pub open spec fn fill(&self) -> u8 {
        match self.ascii_code {
            Some(code) => code,
            None => DEFAULT_FILL_BYTE,
        }
    }

    /// The size that the command pads to.
    pub open spec fn target(&self) -> u64 {
        match self.target_size {
            Some(size) => size,
            None => DEFAULT_TARGET_SIZE,
        }
    }

    /// The byte to pad with.
    pub fn fill_byte(&self) -> (fill: u8)
        ensures
            fill == self.fill(),
    {
        match self.ascii_code {
            Some(code) => code,
            None => DEFAULT_FILL_BYTE,
        }
    }

    /// The size to reach.
    pub fn wanted_size(&self) -> (target: u64)
        ensures
            target == self.target(),
    {
        match self.target_size {
            Some(size) => size,
            None => DEFAULT_TARGET_SIZE,
        }
    }

    /// Tells whether the document is copied to the output path before
    /// anything is appended: it is where an output path is given, and the
    /// document itself then stays as it is.
    pub fn copies_first(&self) -> (copies: bool)
        ensures
            copies == self.output_path is Some,
    {
        self.output_path.is_some()
    }

    /// The path of the file that the bytes are appended to: the output path,
    /// or that of the document where none is given.
    pub fn working_path(&self) -> (path: String)
        ensures
            path@ == (match self.output_path {
                Some(p) => p@,
                None => self.chain_spec_path@,
            }),
    {
        match &self.output_path {
            Some(p) => p.clone(),
            None => self.chain_spec_path.clone(),
        }
    }
}

/// How many bytes to append to a document of `size` bytes so that it is
/// `target` bytes long; none where it is long enough.
pub fn padding_needed(size: u64, target: u64) -> (needed: u64)
    ensures
        needed == deficit(size as int, target as int),
{
    if size >= target {
        0
    } else {
        target - size
    }
}

/// A buffer of [`CHUNK_SIZE`] bytes of value `fill`, to append slices of.
pub fn fill_chunk(fill: u8) -> (chunk: Vec<u8>)
    ensures
        chunk@ == filling(fill, CHUNK_SIZE as int),
{
    let chunk = vec![fill; CHUNK_SIZE];
    assert(chunk@ =~= filling(fill, CHUNK_SIZE as int));
    chunk
}

/// The bytes that are still to be appended.
#[derive(Debug, Clone, Copy, PartialEq, Eq, Structural)]
pub struct Padding {
    /// How many bytes are left to append.
    pub remaining: u64,
}

impl Padding {
    /// What is to be appended to a document of `size` bytes to reach
    /// `target` bytes.
    pub fn plan(size: u64, target: u64) -> (padding: Padding)
        ensures
            padding.remaining == deficit(size as int, target as int),
    {
        Padding { remaining: padding_needed(size, target) }
    }

    /// Tells whether nothing is left to append.
    pub fn is_done(&self) -> (done: bool)
        ensures
            done == (self.remaining == 0),
    {
        self.remaining == 0
    }

    /// The length of the next write: what is left, but at most
    /// [`CHUNK_SIZE`]. That many bytes are taken off what is left.
    pub fn next_chunk(&mut self) -> (len: usize)
        ensures
            len == if old(self).remaining < CHUNK_SIZE {
                old(self).remaining as int
            } else {
                CHUNK_SIZE as int
            },
            final(self).remaining == old(self).remaining - len,
            old(self).remaining > 0 ==> len > 0,
    {
        if self.remaining < CHUNK_SIZE as u64 {
            let len = self.remaining as usize;
            self.remaining = 0;
            len
        } else {
            self.remaining = self.remaining - CHUNK_SIZE as u64;
            CHUNK_SIZE
        }
    }
}

/// Appends `needed` bytes of value `fill` to `document`, a chunk at a time.
/// The length that results has to be one that a vector can have.
pub fn append_padding(document: &mut Vec<u8>, fill: u8, needed: u64)
    requires
        old(document)@.len() + needed <= usize::MAX,
    ensures
        final(document)@ == old(document)@ + filling(fill, needed as int),
{
    let chunk = fill_chunk(fill);
    let mut padding = Padding { remaining: needed };
    let ghost start = document@;
    assert(document@ =~= start + filling(fill, 0));
    while !padding.is_done()
        invariant
            chunk@ == filling(fill, CHUNK_SIZE as int),
            0 <= padding.remaining <= needed,
            document@ == start + filling(fill, needed - padding.remaining),
        decreases padding.remaining,
    {
        let ghost before = document@;
        let ghost left = padding.remaining;
        let len = padding.next_chunk();
        let piece = slice_subrange(chunk.as_slice(), 0, len);
        document.extend_from_slice(piece);
        assert(document@ =~= before + filling(fill, len as int));
        assert(document@ =~= start + filling(fill, needed - left + len));
    }
}

/// Pads `document` as `command` says: where it is shorter than the size
/// wanted, bytes of the fill value are appended until it has that size. The
/// size wanted has to be one that a vector can have.
pub fn pad_with_spaces(command: &PadWithSpacesCommand, document: &mut Vec<u8>)
    requires
        command.target() <= usize::MAX,
    ensures
        final(document)@ == padded(old(document)@, command.fill(), command.target() as int),
{
    let size = document.len() as u64;
    let needed = padding_needed(size, command.wanted_size());
    if needed == 0 {
        assert(document@ =~= padded(document@, command.fill(), command.target() as int));
        return ;
    }
    append_padding(document, command.fill_byte(), needed);
}

/// Padding is idempotent: a padded document is as long as the longer of the
/// document and the size wanted, it begins with the document, every byte
/// after that is the fill byte, and padding it again to the same size,
/// with whatever byte, changes nothing.
pub proof fn lemma_padding_idempotent(document: Seq<u8>, fill: u8, again: u8, target: int)
    ensures
        padded(document, fill, target).len() == if document.len() >= target {
            document.len() as int
        } else {
            target
        },
        padded(document, fill, target).take(document.len() as int) == document,
        forall|i: int|
            document.len() <= i < padded(document, fill, target).len() ==> padded(
                document,
                fill,
                target,
            )[i] == fill,
        padded(padded(document, fill, target), again, target) == padded(document, fill, target),
{
    let once = padded(document, fill, target);
    assert(once.take(document.len() as int) =~= document);
    assert(padded(once, again, target) =~= once);
}

} // verus!
