//! The writer-side description of one entry: the bytes it will embed
//! and how they are to be processed — compression mode and algorithm,
//! encryption, signing, caller flags, id and content version.

use vstd::prelude::*;
use crate::compressor::CompressionAlgorithm;
use crate::flags::Flags;
use crate::reg_entry::RegistryEntry;

verus! {

/// When a leaf's bytes are compressed.
#[derive(Clone, Copy, Debug, PartialEq, Eq, Structural)]
pub enum CompressMode {
    /// Always store the compressed form.
    Always,
    /// Store the compressed form only when it is strictly smaller than
    /// the original; on a tie or worse, store the original.
    Detect,
    /// Always store the original bytes.
    Never,
}

impl Default for CompressMode {
    /// Leaves are not compressed unless asked.
    fn default() -> (r: CompressMode)
        ensures
            r is Never,
    {
        CompressMode::Never
    }
}

/// The model of a leaf.
pub ghost struct LeafModel {
    pub data: Seq<u8>,
    pub id: Seq<char>,
    pub content_version: u8,
    pub compress: CompressMode,
    pub compression_algo: CompressionAlgorithm,
    pub flags: u32,
    pub encrypt: bool,
    pub sign: bool,
}

/// One input to the writer: a fully read byte source plus the
/// processing the builder is to apply to it.
#[derive(Debug)]
pub struct Leaf {
    /// The bytes to embed, read out of the leaf's source.
    pub handle: Vec<u8>,
    /// The id the entry will be fetched by.
    pub id: String,
    /// The caller's version counter for the content.
    pub content_version: u8,
    /// When to compress the bytes.
    pub compress: CompressMode,
    /// Which algorithm compresses them.
    pub compression_algo: CompressionAlgorithm,
    /// Caller flags for the entry; the reserved upper half is stripped
    /// as the entry is committed.
    pub flags: Flags,
    /// Encrypt the (possibly compressed) bytes.
    pub encrypt: bool,
    /// Sign the stored bytes and the entry's record.
    pub sign: bool,
}

impl View for Leaf {
    type V = LeafModel;

    open spec fn view(&self) -> LeafModel {
        LeafModel {
            data: self.handle@,
            id: self.id@,
            content_version: self.content_version,
            compress: self.compress,
            compression_algo: self.compression_algo,
            flags: self.flags@,
            encrypt: self.encrypt,
            sign: self.sign,
        }
    }
}

impl Leaf {
    /// Wraps fully read source bytes in a leaf with the default
    /// configuration.
    pub fn from_handle(handle: Vec<u8>) -> (r: Leaf)
        ensures
            r@.data == handle@,
            r@.id == Seq::<char>::empty(),
            r@.content_version == 0u8,
            r@.compress is Never,
            r@.compression_algo is LZ4,
            r@.flags == 0u32,
            r@.encrypt == false,
            r@.sign == false,
    {
        Leaf {
            handle,
            id: String::new(),
            content_version: 0,
            compress: CompressMode::Never,
            compression_algo: CompressionAlgorithm::LZ4,
            flags: Flags::empty(),
            encrypt: false,
            sign: false,
        }
    }

    /// Consumes the leaf and returns the bytes it wrapped.
    pub fn into_inner(self) -> (r: Vec<u8>)
        ensures
            r@ == self@.data,
    {
        self.handle
    }

    /// The entry record the leaf starts from: its flags and content
    /// version under its id, before the builder commits format bits.
    pub fn to_registry_entry(&self) -> (r: RegistryEntry)
        ensures
            r@.flags == self@.flags,
            r@.content_version == self@.content_version,
            r@.location == 0u64,
            r@.offset == 0u64,
            r@.signature is None,
            r@.id == self@.id,
    {
        RegistryEntry {
            flags: self.flags,
            content_version: self.content_version,
            location: 0,
            offset: 0,
            signature: None,
            id: self.id.clone(),
        }
    }

    /// Copies every configuration field from `other`, keeping this
    /// leaf's bytes and id.
    pub fn template(self, other: &Leaf) -> (r: Leaf)
        ensures
            r@.data == self@.data,
            r@.id == self@.id,
            r@.content_version == other@.content_version,
            r@.compress == other@.compress,
            r@.compression_algo == other@.compression_algo,
            r@.flags == other@.flags,
            r@.encrypt == other@.encrypt,
            r@.sign == other@.sign,
    {
        Leaf {
            handle: self.handle,
            id: self.id,
            content_version: other.content_version,
            compress: other.compress,
            compression_algo: other.compression_algo,
            flags: other.flags,
            encrypt: other.encrypt,
            sign: other.sign,
        }
    }

    /// Sets when the leaf is compressed.
    pub fn compress(self, compress: CompressMode) -> (r: Leaf)
        ensures
            r@ == (LeafModel { compress: compress, ..self@ }),
    {
        Leaf { compress, ..self }
    }

    /// Sets the content version.
    pub fn version(self, content_version: u8) -> (r: Leaf)
        ensures
            r@ == (LeafModel { content_version: content_version, ..self@ }),
    {
        Leaf { content_version, ..self }
    }

    /// Sets the id the entry will be fetched by.
    pub fn id(self, id: &str) -> (r: Leaf)
        ensures
            r@ == (LeafModel { id: id@, ..self@ }),
    {
        Leaf { id: id.to_owned(), ..self }
    }

    /// Sets the caller flags.
    pub fn flags(self, flags: Flags) -> (r: Leaf)
        ensures
            r@ == (LeafModel { flags: flags@, ..self@ }),
    {
        Leaf { flags, ..self }
    }

    /// Sets whether the stored bytes are encrypted.
    pub fn encrypt(self, encrypt: bool) -> (r: Leaf)
        ensures
            r@ == (LeafModel { encrypt: encrypt, ..self@ }),
    {
        Leaf { encrypt, ..self }
    }

    /// Sets whether the entry is signed.
    pub fn sign(self, sign: bool) -> (r: Leaf)
        ensures
            r@ == (LeafModel { sign: sign, ..self@ }),
    {
        Leaf { sign, ..self }
    }

    /// Sets which algorithm compresses the leaf.
    pub fn compression_algo(self, compression_algo: CompressionAlgorithm) -> (r: Leaf)
        ensures
            r@ == (LeafModel { compression_algo: compression_algo, ..self@ }),
    {
        Leaf { compression_algo, ..self }
    }
}

impl Default for Leaf {
    /// A leaf holding no bytes under the default configuration; meant
    /// as a template for others.
    fn default() -> (r: Leaf)
        ensures
            r@.data == Seq::<u8>::empty(),
            r@.id == Seq::<char>::empty(),
            r@.content_version == 0u8,
            r@.compress is Never,
            r@.compression_algo is LZ4,
            r@.flags == 0u32,
            r@.encrypt == false,
            r@.sign == false,
    {
        Leaf::from_handle(Vec::new())
    }
}

} // verus!
