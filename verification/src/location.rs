//! Where the objects of a table are stored: paths are a function of the
//! root of the table and the identity of the object, and of nothing else.

use vstd::prelude::*;

use crate::meta::Location;
use crate::meta::LocationView;
use crate::text::decimal;
use crate::text::decimal_text;
use crate::text::lemma_decimal_injective;

verus! {

/// The kinds of objects that a table is made of.
#[derive(Clone, Copy, Debug, PartialEq, Eq, Structural)]
pub enum ObjectKind {
    Block,
    Segment,
    Snapshot,
}

/// The directory of a kind of object under the root of a table.
pub open spec fn kind_directory(kind: ObjectKind) -> Seq<char> {
    match kind {
        ObjectKind::Block => "/_b/"@,
        ObjectKind::Segment => "/_sg/"@,
        ObjectKind::Snapshot => "/_ss/"@,
    }
}

/// The ending of the file name of a kind of object.
pub open spec fn kind_extension(kind: ObjectKind) -> Seq<char> {
    match kind {
        ObjectKind::Block => ".parquet"@,
        ObjectKind::Segment => ".json"@,
        ObjectKind::Snapshot => ".json"@,
    }
}

/// The path of an object: the root of the table, the directory of the kind,
/// the identity in decimal, the format version and the ending of the kind.
pub open spec fn object_path(root: Seq<char>, kind: ObjectKind, id: u128, version: u64) -> Seq<char> {
    root + kind_directory(kind) + decimal_text(id as nat) + "_v"@ + decimal_text(version as nat)
        + kind_extension(kind)
}

/// Allocates the locations of the objects of one table.
#[derive(Clone, Debug)]
pub struct TableMetaLocationGenerator {
    prefix: String,
}

impl TableMetaLocationGenerator {
    /// The generator for the table that is rooted at `prefix`.
    pub fn with_prefix(prefix: String) -> (g: TableMetaLocationGenerator)
        ensures
            g.root() == prefix@,
    {
        TableMetaLocationGenerator { prefix }
    }

    /// The root of the table.
    pub closed spec fn root(&self) -> Seq<char> {
        self.prefix@
    }

    /// The root of the table.
    pub fn prefix(&self) -> (p: &str)
        ensures
            p@ == self.root(),
    {
        self.prefix.as_str()
    }

    /// The location of the object of the given kind, identity and format version.
    pub fn location(&self, kind: ObjectKind, id: u128, version: u64) -> (l: Location)
        ensures
            l@ == (LocationView { path: object_path(self.root(), kind, id, version), version }),
    {
        let mut path = self.prefix.clone();
        path.append(
            match kind {
                ObjectKind::Block => "/_b/",
                ObjectKind::Segment => "/_sg/",
                ObjectKind::Snapshot => "/_ss/",
            },
        );
        let number = decimal(id);
        path.append(number.as_str());
        path.append("_v");
        let format = decimal(version as u128);
        path.append(format.as_str());
        path.append(
            match kind {
                ObjectKind::Block => ".parquet",
                ObjectKind::Segment => ".json",
                ObjectKind::Snapshot => ".json",
            },
        );
        Location { path, version }
    }

    /// The location of the block with the given identity.
    pub fn gen_block_location(&self, id: u128, version: u64) -> (l: Location)
        ensures
            l@ == (LocationView {
                path: object_path(self.root(), ObjectKind::Block, id, version),
                version,
            }),
    {
        self.location(ObjectKind::Block, id, version)
    }

    /// The location of the segment with the given identity.
    pub fn gen_segment_info_location(&self, id: u128, version: u64) -> (l: Location)
        ensures
            l@ == (LocationView {
                path: object_path(self.root(), ObjectKind::Segment, id, version),
                version,
            }),
    {
        self.location(ObjectKind::Segment, id, version)
    }

    /// The location of the snapshot with the given identity.
    pub fn snapshot_location_from_uuid(&self, id: u128, version: u64) -> (l: Location)
        ensures
            l@ == (LocationView {
                path: object_path(self.root(), ObjectKind::Snapshot, id, version),
                version,
            }),
    {
        self.location(ObjectKind::Snapshot, id, version)
    }
}

/// Two texts between the same beginning and the same ending are equal
/// where the whole texts are equal.
pub proof fn lemma_cancel_affixes(head: Seq<char>, a: Seq<char>, b: Seq<char>, tail: Seq<char>)
    requires
        head + a + tail == head + b + tail,
    ensures
        a == b,
{
    let x = head + a + tail;
    let y = head + b + tail;
    assert(x.len() == y.len());
    assert(a.len() == b.len());
    assert forall|i: int| 0 <= i < a.len() implies a[i] == b[i] by {
        assert(x[head.len() + i] == a[i]);
        assert(y[head.len() + i] == b[i]);
    }
    assert(a =~= b);
}

/// Locations are unique: under one root, objects of one kind and format
/// version with different identities are stored at different paths.
pub proof fn lemma_paths_are_unique(
    root: Seq<char>,
    kind: ObjectKind,
    version: u64,
    id1: u128,
    id2: u128,
)
    requires
        object_path(root, kind, id1, version) == object_path(root, kind, id2, version),
    ensures
        id1 == id2,
{
    let head = root + kind_directory(kind);
    let tail = "_v"@ + decimal_text(version as nat) + kind_extension(kind);
    let a = decimal_text(id1 as nat);
    let b = decimal_text(id2 as nat);
    assert(object_path(root, kind, id1, version) =~= head + a + tail);
    assert(object_path(root, kind, id2, version) =~= head + b + tail);
    lemma_cancel_affixes(head, a, b, tail);
    lemma_decimal_injective(id1 as nat, id2 as nat);
}

} // verus!
