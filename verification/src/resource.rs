//! The reader's output: an entry's decoded bytes together with its
//! flags, content version, and whether its signature verified.

use vstd::prelude::*;
use crate::flags::Flags;

verus! {

/// The model of a fetched resource.
pub ghost struct ResourceModel {
    pub data: Seq<u8>,
    pub flags: u32,
    pub content_version: u8,
    pub authenticated: bool,
}

/// A fetched entry: decoded data and its metadata.
#[derive(Debug)]
pub struct Resource {
    /// The entry's bytes, decrypted and decompressed.
    pub data: Vec<u8>,
    /// The entry's flags.
    pub flags: Flags,
    /// The caller's version counter for the content.
    pub content_version: u8,
    /// Whether the entry's signature verified under the configured key.
    /// Never true without both a key and a signature; advisory only,
    /// a failed check decodes all the same.
    pub authenticated: bool,
}

impl View for Resource {
    type V = ResourceModel;

    open spec fn view(&self) -> ResourceModel {
        ResourceModel {
            data: self.data@,
            flags: self.flags@,
            content_version: self.content_version,
            authenticated: self.authenticated,
        }
    }
}

impl Resource {
    /// A resource holding nothing.
    pub fn empty() -> (r: Resource)
        ensures
            r@.data == Seq::<u8>::empty(),
            r@.flags == 0u32,
            r@.content_version == 0u8,
            r@.authenticated == false,
    {
        Resource { data: Vec::new(), flags: Flags::empty(), content_version: 0, authenticated: false }
    }
}

} // verus!
