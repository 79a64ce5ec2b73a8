//! Filesystem entries: a tagged value (folder, file, or link — links are
//! reserved), each carrying metadata, keyed by its absolute path.

use vstd::prelude::*;

verus! {

/// Metadata carried by every filesystem entry.
#[derive(Debug)]
pub struct FSEntryMetadata {
    pub is_hidden: bool,
    pub name: String,
    pub created_at: u64,
    pub modified_at: u64,
}

/// Mathematical image of [`FSEntryMetadata`].
pub struct FSEntryMetadataV {
    pub is_hidden: bool,
    pub name: Seq<char>,
    pub created_at: u64,
    pub modified_at: u64,
}

impl View for FSEntryMetadata {
    type V = FSEntryMetadataV;

    open spec fn view(&self) -> FSEntryMetadataV {
        FSEntryMetadataV {
            is_hidden: self.is_hidden,
            name: self.name@,
            created_at: self.created_at,
            modified_at: self.modified_at,
        }
    }
}

impl Clone for FSEntryMetadata {
    fn clone(&self) -> (r: Self)
        ensures
            r@ == self@,
    {
        FSEntryMetadata {
            is_hidden: self.is_hidden,
            name: self.name.clone(),
            created_at: self.created_at,
            modified_at: self.modified_at,
        }
    }
}

/// Capability set shared by the entry variants: visibility, display name and
/// the two timestamps, all read from the variant's metadata.
pub trait FSEntryTrait {
    /// The metadata this entry answers from.
    spec fn metadata_view(&self) -> FSEntryMetadataV;

    fn is_hidden(&self) -> (r: bool)
        ensures
            r == self.metadata_view().is_hidden,
    ;

    fn name(&self) -> (r: String)
        ensures
            r@ == self.metadata_view().name,
    ;

    fn created_at(&self) -> (r: u64)
        ensures
            r == self.metadata_view().created_at,
    ;

    fn modified_at(&self) -> (r: u64)
        ensures
            r == self.metadata_view().modified_at,
    ;
}

/// A folder entry.
#[derive(Debug)]
pub struct FSFolder {
    pub metadata: FSEntryMetadata,
}

impl Clone for FSFolder {
    fn clone(&self) -> (r: Self)
        ensures
            r@ == self@,
    {
        FSFolder { metadata: self.metadata.clone() }
    }
}

impl View for FSFolder {
    type V = FSEntryMetadataV;

    open spec fn view(&self) -> FSEntryMetadataV {
        self.metadata@
    }
}

impl FSEntryTrait for FSFolder {
    open spec fn metadata_view(&self) -> FSEntryMetadataV {
        self.metadata@
    }

    fn is_hidden(&self) -> bool {
        self.metadata.is_hidden
    }

    fn name(&self) -> String {
        self.metadata.name.clone()
    }

    fn created_at(&self) -> u64 {
        self.metadata.created_at
    }

    fn modified_at(&self) -> u64 {
        self.metadata.modified_at
    }
}

/// A file entry, with optional content bytes.
#[derive(Debug)]
pub struct FSFile {
    metadata: FSEntryMetadata,
    pub data: Option<Vec<u8>>,
}

/// Mathematical image of [`FSFile`].
pub struct FSFileV {
    pub metadata: FSEntryMetadataV,
    pub data: Option<Seq<u8>>,
}

impl View for FSFile {
    type V = FSFileV;

    closed spec fn view(&self) -> FSFileV {
        FSFileV {
            metadata: self.metadata@,
            data: match self.data {
                Option::Some(d) => Option::Some(d@),
                Option::None => Option::None,
            },
        }
    }
}

impl Clone for FSFile {
    fn clone(&self) -> (r: Self)
        ensures
            r@ == self@,
    {
        FSFile {
            metadata: self.metadata.clone(),
            data: match &self.data {
                Option::Some(d) => {
                    let c = clone_bytes(d);
                    Option::Some(c)
                },
                Option::None => Option::None,
            },
        }
    }
}

/// Byte-for-byte copy of a byte vector.
fn clone_bytes(v: &Vec<u8>) -> (r: Vec<u8>)
    ensures
        r@ == v@,
{
    let mut r: Vec<u8> = Vec::new();
    let mut i: usize = 0;
    while i < v.len()
        invariant
            i <= v@.len(),
            r@ =~= v@.subrange(0, i as int),
        decreases v@.len() - i,
    {
        r.push(v[i]);
        i = i + 1;
    }
    proof {
        assert(r@ =~= v@);
    }
    r
}

impl FSEntryTrait for FSFile {
    closed spec fn metadata_view(&self) -> FSEntryMetadataV {
        self.metadata@
    }

    fn is_hidden(&self) -> bool {
        self.metadata.is_hidden
    }

    fn name(&self) -> String {
        self.metadata.name.clone()
    }

    fn created_at(&self) -> u64 {
        self.metadata.created_at
    }

    fn modified_at(&self) -> u64 {
        self.metadata.modified_at
    }
}

/// A link entry (reserved by the data model; no operation creates one yet).
#[derive(Debug)]
pub struct FSLink {
    metadata: FSEntryMetadata,
}

impl View for FSLink {
    type V = FSEntryMetadataV;

    closed spec fn view(&self) -> FSEntryMetadataV {
        self.metadata@
    }
}

impl Clone for FSLink {
    fn clone(&self) -> (r: Self)
        ensures
            r@ == self@,
    {
        FSLink { metadata: self.metadata.clone() }
    }
}

impl FSEntryTrait for FSLink {
    closed spec fn metadata_view(&self) -> FSEntryMetadataV {
        self.metadata@
    }

    fn is_hidden(&self) -> bool {
        self.metadata.is_hidden
    }

    fn name(&self) -> String {
        self.metadata.name.clone()
    }

    fn created_at(&self) -> u64 {
        self.metadata.created_at
    }

    fn modified_at(&self) -> u64 {
        self.metadata.modified_at
    }
}

/// The tag of an entry: file, folder, or link.
#[derive(Debug)]
pub enum FSEntryKind {
    File(FSFile),
    Folder(FSFolder),
    Link(FSLink),
}

/// Mathematical image of [`FSEntryKind`].
pub enum FSEntryKindV {
    File(FSFileV),
    Folder(FSEntryMetadataV),
    Link(FSEntryMetadataV),
}

impl View for FSEntryKind {
    type V = FSEntryKindV;

    open spec fn view(&self) -> FSEntryKindV {
        match self {
            FSEntryKind::File(f) => FSEntryKindV::File(f@),
            FSEntryKind::Folder(f) => FSEntryKindV::Folder(f@),
            FSEntryKind::Link(l) => FSEntryKindV::Link(l@),
        }
    }
}

impl Clone for FSEntryKind {
    fn clone(&self) -> (r: Self)
        ensures
            r@ == self@,
    {
        match self {
            FSEntryKind::File(f) => FSEntryKind::File(f.clone()),
            FSEntryKind::Folder(f) => FSEntryKind::Folder(f.clone()),
            FSEntryKind::Link(l) => FSEntryKind::Link(l.clone()),
        }
    }
}

impl FSEntryKindV {
    /// The metadata of the tagged variant.
    pub open spec fn metadata(&self) -> FSEntryMetadataV {
        match self {
            FSEntryKindV::File(f) => f.metadata,
            FSEntryKindV::Folder(m) => *m,
            FSEntryKindV::Link(m) => *m,
        }
    }
}

impl FSEntryTrait for FSEntryKind {
    open spec fn metadata_view(&self) -> FSEntryMetadataV {
        self@.metadata()
    }

    fn is_hidden(&self) -> bool {
        match self {
            FSEntryKind::File(f) => f.is_hidden(),
            FSEntryKind::Folder(f) => f.is_hidden(),
            FSEntryKind::Link(l) => l.is_hidden(),
        }
    }

    fn name(&self) -> String {
        match self {
            FSEntryKind::File(f) => f.name(),
            FSEntryKind::Folder(f) => f.name(),
            FSEntryKind::Link(l) => l.name(),
        }
    }

    fn created_at(&self) -> u64 {
        match self {
            FSEntryKind::File(f) => f.created_at(),
            FSEntryKind::Folder(f) => f.created_at(),
            FSEntryKind::Link(l) => l.created_at(),
        }
    }

    fn modified_at(&self) -> u64 {
        match self {
            FSEntryKind::File(f) => f.modified_at(),
            FSEntryKind::Folder(f) => f.modified_at(),
            FSEntryKind::Link(l) => l.modified_at(),
        }
    }
}

/// A filesystem entry: the absolute path is its sole identity.
#[derive(Debug)]
pub struct FSEntry {
    pub abs_path: String,
    pub entry: FSEntryKind,
}

/// Mathematical image of [`FSEntry`].
pub struct FSEntryV {
    pub abs_path: Seq<char>,
    pub entry: FSEntryKindV,
}

impl View for FSEntry {
    type V = FSEntryV;

    open spec fn view(&self) -> FSEntryV {
        FSEntryV { abs_path: self.abs_path@, entry: self.entry@ }
    }
}

impl Clone for FSEntry {
    fn clone(&self) -> (r: Self)
        ensures
            r@ == self@,
    {
        FSEntry { abs_path: self.abs_path.clone(), entry: self.entry.clone() }
    }
}

impl FSEntry {
    /// The absolute path of this entry.
    pub fn path(&self) -> (r: String)
        ensures
            r@ == self.abs_path@,
    {
        self.abs_path.clone()
    }
}

} // verus!
