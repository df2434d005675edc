//! The two-valued discriminator of a scanned tree node.
use vstd::prelude::*;

verus! {

#[derive(Clone, Copy, PartialEq, Eq, Structural, Debug)]
pub enum FileSystemEntryType {
    Directory,
    File,
}

/// The glyph that marks an entry of each kind in a rendered listing.
pub open spec fn spec_glyph(t: FileSystemEntryType) -> Seq<char> {
    match t {
        FileSystemEntryType::Directory => "\u{1F5C0}"@,
        FileSystemEntryType::File => "\u{1F5CB}"@,
    }
}

impl FileSystemEntryType {
    /// The glyph that marks this kind of entry in a rendered listing.
    pub fn glyph(&self) -> (r: &'static str)
        ensures
            r@ == spec_glyph(*self),
    {
        match self {
            FileSystemEntryType::Directory => "\u{1F5C0}",
            FileSystemEntryType::File => "\u{1F5CB}",
        }
    }
}

} // verus!
