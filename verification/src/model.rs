//! The content-addressed tree: folders and files are nodes named by their
//! hash, and a file node lists the blobs (chunks) that make up its content.
use vstd::prelude::*;

verus! {

/// The raw bytes of one chunk of file content.
#[derive(Debug, Clone)]
pub struct Blob {
    pub bytes: Vec<u8>,
}

/// A reference to a blob from a file node: its hash and its size in bytes.
#[derive(Debug, Clone)]
pub struct BlobRef {
    pub hash: String,
    pub size: u64,
}

/// A named child of a folder node.
#[derive(Debug, Clone)]
pub struct Entry {
    pub name: String,
    pub hash: String,
}

/// A node of the tree.
#[derive(Debug, Clone)]
pub enum Node {
    Folder { folders: Vec<Entry>, files: Vec<Entry> },
    File { blobs: Vec<BlobRef> },
}

/// The mathematical value of an [`Entry`].
pub struct EntryView {
    pub name: Seq<char>,
    pub hash: Seq<char>,
}

/// The mathematical value of a [`BlobRef`].
pub struct BlobRefView {
    pub hash: Seq<char>,
    pub size: u64,
}

/// The mathematical value of a [`Node`].
pub enum NodeView {
    Folder { folders: Seq<EntryView>, files: Seq<EntryView> },
    File { blobs: Seq<BlobRefView> },
}

impl View for Entry {
    type V = EntryView;

    open spec fn view(&self) -> EntryView {
        EntryView { name: self.name@, hash: self.hash@ }
    }
}

impl View for BlobRef {
    type V = BlobRefView;

    open spec fn view(&self) -> BlobRefView {
        BlobRefView { hash: self.hash@, size: self.size }
    }
}

impl View for Blob {
    type V = Seq<u8>;

    open spec fn view(&self) -> Seq<u8> {
        self.bytes@
    }
}

pub open spec fn entries_view(v: Seq<Entry>) -> Seq<EntryView> {
    v.map_values(|e: Entry| e@)
}

pub open spec fn blob_refs_view(v: Seq<BlobRef>) -> Seq<BlobRefView> {
    v.map_values(|b: BlobRef| b@)
}

impl View for Node {
    type V = NodeView;

    open spec fn view(&self) -> NodeView {
        match self {
            Node::Folder { folders, files } => NodeView::Folder {
                folders: entries_view(folders@),
                files: entries_view(files@),
            },
            Node::File { blobs } => NodeView::File { blobs: blob_refs_view(blobs@) },
        }
    }
}

/// The hashes of a sequence of hashes written as text.
pub open spec fn hashes_view(v: Seq<String>) -> Seq<Seq<char>> {
    v.map_values(|h: String| h@)
}

/// The hashes of the child nodes of a node: its sub-folders, then its files.
pub open spec fn node_children(n: NodeView) -> Seq<Seq<char>> {
    match n {
        NodeView::Folder { folders, files } => folders.map_values(|e: EntryView| e.hash)
            + files.map_values(|e: EntryView| e.hash),
        NodeView::File { .. } => Seq::empty(),
    }
}

/// The hashes of the blobs that a file node lists (none for a folder).
pub open spec fn node_blobs(n: NodeView) -> Seq<Seq<char>> {
    match n {
        NodeView::Folder { .. } => Seq::empty(),
        NodeView::File { blobs } => blobs.map_values(|b: BlobRefView| b.hash),
    }
}

impl Entry {
    /// A named child entry.
    pub fn new(name: &str, hash: String) -> (r: Entry)
        ensures
            r.name@ == name@,
            r.hash == hash,
    {
        Entry { name: String::from_str(name), hash }
    }

    /// An independent copy of this entry.
    pub fn duplicate(&self) -> (r: Entry)
        ensures
            r@ == self@,
    {
        Entry { name: self.name.clone(), hash: self.hash.clone() }
    }
}

impl BlobRef {
    /// An independent copy of this reference.
    pub fn duplicate(&self) -> (r: BlobRef)
        ensures
            r@ == self@,
    {
        BlobRef { hash: self.hash.clone(), size: self.size }
    }
}

impl Blob {
    /// An independent copy of this blob.
    pub fn duplicate(&self) -> (r: Blob)
        ensures
            r@ == self@,
    {
        let mut bytes: Vec<u8> = Vec::new();
        let mut i: usize = 0;
        while i < self.bytes.len()
            invariant
                0 <= i <= self.bytes.len(),
                bytes@ == self.bytes@.subrange(0, i as int),
            decreases self.bytes.len() - i,
        {
            bytes.push(self.bytes[i]);
            proof {
                assert(self.bytes@.subrange(0, i + 1) =~= self.bytes@.subrange(0, i as int).push(
                    self.bytes@[i as int],
                ));
            }
            i = i + 1;
        }
        proof {
            assert(self.bytes@.subrange(0, self.bytes@.len() as int) =~= self.bytes@);
        }
        Blob { bytes }
    }
}

/// An independent copy of a list of entries.
pub fn duplicate_entries(v: &Vec<Entry>) -> (r: Vec<Entry>)
    ensures
        entries_view(r@) == entries_view(v@),
{
    let mut r: Vec<Entry> = Vec::new();
    let mut i: usize = 0;
    while i < v.len()
        invariant
            0 <= i <= v.len(),
            r@.len() == i,
            forall|k: int| 0 <= k < i ==> (#[trigger] r@[k])@ == v@[k]@,
        decreases v.len() - i,
    {
        r.push(v[i].duplicate());
        i = i + 1;
    }
    assert(entries_view(r@) =~= entries_view(v@));
    r
}

/// An independent copy of a list of blob references.
pub fn duplicate_blob_refs(v: &Vec<BlobRef>) -> (r: Vec<BlobRef>)
    ensures
        blob_refs_view(r@) == blob_refs_view(v@),
{
    let mut r: Vec<BlobRef> = Vec::new();
    let mut i: usize = 0;
    while i < v.len()
        invariant
            0 <= i <= v.len(),
            r@.len() == i,
            forall|k: int| 0 <= k < i ==> (#[trigger] r@[k])@ == v@[k]@,
        decreases v.len() - i,
    {
        r.push(v[i].duplicate());
        i = i + 1;
    }
    assert(blob_refs_view(r@) =~= blob_refs_view(v@));
    r
}

impl Node {
    /// An independent copy of this node.
    pub fn duplicate(&self) -> (r: Node)
        ensures
            r@ == self@,
    {
        match self {
            Node::Folder { folders, files } => Node::Folder {
                folders: duplicate_entries(folders),
                files: duplicate_entries(files),
            },
            Node::File { blobs } => Node::File { blobs: duplicate_blob_refs(blobs) },
        }
    }

    /// A folder node with the given sub-folders and files.
    pub fn folder(folders: Vec<Entry>, files: Vec<Entry>) -> (r: Node)
        ensures
            r@ == (NodeView::Folder { folders: entries_view(folders@), files: entries_view(files@) }),
    {
        Node::Folder { folders, files }
    }

    /// A file node made of the given blobs.
    pub fn file(blobs: Vec<BlobRef>) -> (r: Node)
        ensures
            r@ == (NodeView::File { blobs: blob_refs_view(blobs@) }),
    {
        Node::File { blobs }
    }
}

/// The text of an optional hash.
pub open spec fn option_view(o: Option<String>) -> Option<Seq<char>> {
    match o {
        Some(h) => Some(h@),
        None => None,
    }
}

/// The hashes of `hashes` that a store holding `held` lacks, each once.
pub open spec fn is_missing_list(
    r: Seq<Seq<char>>,
    hashes: Seq<Seq<char>>,
    held: Set<Seq<char>>,
) -> bool {
    &&& r.no_duplicates()
    &&& forall|x: Seq<char>| #[trigger] r.contains(x) <==> (hashes.contains(x) && !held.contains(x))
}

/// Whether `v` holds a hash equal to `h`.
pub fn contains_hash(v: &Vec<String>, h: &String) -> (r: bool)
    ensures
        r == hashes_view(v@).contains(h@),
{
    let mut i: usize = 0;
    while i < v.len()
        invariant
            0 <= i <= v.len(),
            forall|k: int| 0 <= k < i ==> v@[k]@ != h@,
        decreases v.len() - i,
    {
        if v[i] == *h {
            assert(hashes_view(v@)[i as int] == h@);
            return true;
        }
        i = i + 1;
    }
    proof {
        if hashes_view(v@).contains(h@) {
            let k = choose|k: int| 0 <= k < hashes_view(v@).len() && hashes_view(v@)[k] == h@;
            assert(v@[k]@ == h@);
        }
    }
    false
}

/// What a sequence holds after a push: what it held and the new element.
pub proof fn lemma_push_contains<A>(s: Seq<A>, x: A)
    ensures
        forall|y: A| #[trigger] s.push(x).contains(y) <==> s.contains(y) || y == x,
{
    assert forall|y: A| #[trigger] s.push(x).contains(y) <==> s.contains(y) || y == x by {
        if s.contains(y) {
            let j = choose|j: int| 0 <= j < s.len() && s[j] == y;
            assert(s.push(x)[j] == y);
        }
        if y == x {
            assert(s.push(x)[s.len() as int] == y);
        }
        if s.push(x).contains(y) && y != x {
            let j = choose|j: int| 0 <= j < s.push(x).len() && s.push(x)[j] == y;
            assert(s[j] == y);
        }
    }
}

/// Pushing an element that is not there yet keeps a sequence free of
/// duplicates and adds the element to its set.
pub proof fn lemma_push_fresh<A>(s: Seq<A>, x: A)
    requires
        s.no_duplicates(),
        !s.contains(x),
    ensures
        s.push(x).no_duplicates(),
        s.push(x).to_set() == s.to_set().insert(x),
{
    lemma_push_contains(s, x);
    let t = s.push(x);
    assert forall|a: int, b: int| 0 <= a < t.len() && 0 <= b < t.len() && a != b implies t[a] != t[b] by {
        if a < s.len() && b < s.len() {
            assert(t[a] == s[a] && t[b] == s[b]);
        } else if a == s.len() {
            assert(s.contains(s[b]));
        } else {
            assert(s.contains(s[a]));
        }
    }
    assert(t.to_set() =~= s.to_set().insert(x));
}

/// A prefix grows by one element, which it did not hold yet when the
/// sequence has no duplicates.
pub proof fn lemma_prefix_step<A>(s: Seq<A>, i: int)
    requires
        0 <= i < s.len(),
    ensures
        s.subrange(0, i + 1) == s.subrange(0, i).push(s[i]),
        s.no_duplicates() ==> !s.subrange(0, i).contains(s[i]),
{
    assert(s.subrange(0, i + 1) =~= s.subrange(0, i).push(s[i]));
    if s.no_duplicates() && s.subrange(0, i).contains(s[i]) {
        let j = choose|j: int| 0 <= j < i && s.subrange(0, i)[j] == s[i];
        assert(s[j] == s[i]);
    }
}

/// The texts of a list of hashes after a push.
pub proof fn lemma_hashes_push(v: Seq<String>, x: String)
    ensures
        hashes_view(v.push(x)) == hashes_view(v).push(x@),
{
    assert(hashes_view(v.push(x)) =~= hashes_view(v).push(x@));
}

} // verus!
