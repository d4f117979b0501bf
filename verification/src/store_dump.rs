//! A snapshot of a node store and its blob store as text, for debugging:
//! the root, then the tree under it, one line per node and per blob
//! reference, flagging nodes and blobs the stores do not hold.
use vstd::prelude::*;

use crate::blob_repository::{BlobRepository, InMemoryBlobRepository};
use crate::model::{BlobRefView, EntryView, Node, NodeView};
use crate::node_repository::{InMemoryNodeRepository, NodeRepository};
use crate::text::{push_repeat, push_str, repeat_char};
use crate::units::{nat_text, push_decimal};

verus! {

/// A hash cut to its first twelve characters.
pub open spec fn short_hash(h: Seq<char>) -> Seq<char> {
    if h.len() <= 12 {
        h
    } else {
        h.subrange(0, 12)
    }
}

/// Four spaces per level.
pub open spec fn indent(depth: nat) -> Seq<char> {
    repeat_char(' ', 4 * depth)
}

/// The line of a blob reference of a file at `depth`.
pub open spec fn blob_line(depth: nat, b: BlobRefView, held: bool) -> Seq<char> {
    indent(depth) + "    blob ["@ + short_hash(b.hash) + "] "@ + nat_text(b.size as nat) + " bytes"@ + (if held {
        Seq::empty()
    } else {
        "  <- MISSING BLOB"@
    }) + "\n"@
}

/// The lines of the blob references `bs` of a file at `depth`.
pub open spec fn blob_lines(depth: nat, bs: Seq<BlobRefView>, held: Set<Seq<char>>) -> Seq<char>
    decreases bs.len(),
{
    if bs.len() == 0 {
        Seq::empty()
    } else {
        blob_lines(depth, bs.drop_last(), held) + blob_line(depth, bs.last(), held.contains(bs.last().hash))
    }
}

/// The text of the node `hash`, named `name`, at `depth`, and of what lies
/// under it; `levels` bounds how many folder levels are entered below it.
pub open spec fn tree_text(
    m: Map<Seq<char>, NodeView>,
    held: Set<Seq<char>>,
    hash: Seq<char>,
    name: Seq<char>,
    depth: nat,
    levels: nat,
) -> Seq<char>
    decreases levels, 0nat,
{
    if !m.contains_key(hash) {
        indent(depth) + name + "  ["@ + short_hash(hash) + "]  <- MISSING NODE\n"@
    } else {
        match m[hash] {
            NodeView::Folder { folders, files } => indent(depth) + name + "/  ["@ + short_hash(hash) + "]\n"@ + (
            if levels == 0 {
                Seq::empty()
            } else {
                entries_text(m, held, folders + files, depth + 1, (levels - 1) as nat)
            }),
            NodeView::File { blobs } => indent(depth) + name + "  ["@ + short_hash(hash) + "]\n"@ + blob_lines(
                depth,
                blobs,
                held,
            ),
        }
    }
}

/// The texts of the entries `es` of a folder, in order.
pub open spec fn entries_text(
    m: Map<Seq<char>, NodeView>,
    held: Set<Seq<char>>,
    es: Seq<EntryView>,
    depth: nat,
    levels: nat,
) -> Seq<char>
    decreases levels, es.len() + 1,
{
    if es.len() == 0 {
        Seq::empty()
    } else {
        entries_text(m, held, es.drop_last(), depth, levels) + tree_text(
            m,
            held,
            es.last().hash,
            es.last().name,
            depth,
            levels,
        )
    }
}

/// The whole snapshot: the root line, then the tree under the root named
/// `.`, entering at most as many folder levels as the store holds nodes
/// (a tree whose nodes are named by their content never needs more).
pub open spec fn store_text(m: Map<Seq<char>, NodeView>, held: Set<Seq<char>>, root: Option<Seq<char>>) -> Seq<
    char,
> {
    match root {
        Some(r) => "root: "@ + r + "\n\n"@ + tree_text(m, held, r, "."@, 0, m.dom().len()),
        None => "root: (unset)\n"@,
    }
}

fn push_indent(out: &mut String, depth: usize)
    ensures
        final(out)@ == old(out)@ + indent(depth as nat),
{
    let mut i: usize = 0;
    while i < depth
        invariant
            0 <= i <= depth,
            out@ == old(out)@ + indent(i as nat),
        decreases depth - i,
    {
        push_repeat(out, ' ', 4);
        proof {
            assert(old(out)@ + indent((i + 1) as nat) =~= old(out)@ + indent(i as nat) + repeat_char(' ', 4));
        }
        i = i + 1;
    }
}

fn push_short_hash(out: &mut String, hash: &String)
    ensures
        final(out)@ == old(out)@ + short_hash(hash@),
{
    let n = hash.as_str().unicode_len();
    let mut i: usize = 0;
    let end: usize = if n <= 12 {
        n
    } else {
        12
    };
    while i < end
        invariant
            end <= n == hash@.len(),
            end == (if n <= 12 {
                n
            } else {
                12
            }),
            0 <= i <= end,
            out@ == old(out)@ + hash@.subrange(0, i as int),
        decreases end - i,
    {
        crate::text::push_char(out, hash.as_str().get_char(i));
        proof {
            assert(hash@.subrange(0, i + 1) =~= hash@.subrange(0, i as int).push(hash@[i as int]));
        }
        i = i + 1;
    }
    proof {
        assert(hash@.subrange(0, end as int) =~= short_hash(hash@));
    }
}

fn dump_tree(
    nodes: &InMemoryNodeRepository,
    blobs: &InMemoryBlobRepository,
    hash: &String,
    name: &str,
    depth: usize,
    levels: usize,
    out: &mut String,
)
    requires
        depth + levels <= usize::MAX,
    ensures
        final(out)@ == old(out)@ + tree_text(
            nodes.node_map(),
            blobs.blob_map().dom(),
            hash@,
            name@,
            depth as nat,
            levels as nat,
        ),
    decreases levels,
{
    let ghost m = nodes.node_map();
    let ghost held = blobs.blob_map().dom();
    push_indent(out, depth);
    push_str(out, name);
    match nodes.get_node_internal(hash) {
        Ok(Some(Node::Folder { folders, files })) => {
            push_str(out, "/  [");
            push_short_hash(out, hash);
            push_str(out, "]\n");
            proof {
                reveal_strlit("/  [");
                reveal_strlit("]\n");
            }
            if levels > 0 {
                let ghost es = crate::model::entries_view(folders@) + crate::model::entries_view(files@);
                let ghost base = out@;
                let ghost nf = folders@.len() as int;
                let mut i: usize = 0;
                while i < folders.len()
                    invariant
                        nf == folders@.len(),
                        es == crate::model::entries_view(folders@) + crate::model::entries_view(files@),
                        0 <= i <= nf,
                        0 < levels,
                        depth + levels <= usize::MAX,
                        m == nodes.node_map(),
                        held == blobs.blob_map().dom(),
                        out@ == base + entries_text(m, held, es.subrange(0, i as int), (depth + 1) as nat, (levels - 1) as nat),
                    decreases nf - i,
                {
                    let e = &folders[i];
                    proof {
                        assert(es[i as int] == e@);
                        assert(es.subrange(0, i + 1).drop_last() =~= es.subrange(0, i as int));
                    }
                    dump_tree(nodes, blobs, &e.hash, e.name.as_str(), depth + 1, levels - 1, out);
                    i = i + 1;
                }
                let mut j: usize = 0;
                while j < files.len()
                    invariant
                        nf == folders@.len(),
                        es == crate::model::entries_view(folders@) + crate::model::entries_view(files@),
                        0 <= j <= files@.len(),
                        0 < levels,
                        depth + levels <= usize::MAX,
                        m == nodes.node_map(),
                        held == blobs.blob_map().dom(),
                        out@ == base + entries_text(m, held, es.subrange(0, nf + j), (depth + 1) as nat, (levels - 1) as nat),
                    decreases files@.len() - j,
                {
                    let e = &files[j];
                    proof {
                        assert(es[nf + j] == e@);
                        assert(es.subrange(0, nf + j + 1).drop_last() =~= es.subrange(0, nf + j));
                    }
                    dump_tree(nodes, blobs, &e.hash, e.name.as_str(), depth + 1, levels - 1, out);
                    j = j + 1;
                }
                proof {
                    assert(es.subrange(0, nf + files@.len()) =~= es);
                }
            }
        },
        Ok(Some(Node::File { blobs: refs })) => {
            push_str(out, "  [");
            push_short_hash(out, hash);
            push_str(out, "]\n");
            proof {
                reveal_strlit("  [");
                reveal_strlit("]\n");
            }
            let ghost bs = crate::model::blob_refs_view(refs@);
            let ghost base = out@;
            let mut i: usize = 0;
            while i < refs.len()
                invariant
                    bs == crate::model::blob_refs_view(refs@),
                    0 <= i <= refs@.len(),
                    held == blobs.blob_map().dom(),
                    out@ == base + blob_lines(depth as nat, bs.subrange(0, i as int), held),
                decreases refs@.len() - i,
            {
                let b = &refs[i];
                let present = match blobs.contains(&b.hash) {
                    Ok(p) => p,
                    Err(_) => false,
                };
                push_indent(out, depth);
                push_str(out, "    blob [");
                push_short_hash(out, &b.hash);
                push_str(out, "] ");
                push_decimal(out, b.size as u128);
                push_str(out, " bytes");
                if !present {
                    push_str(out, "  <- MISSING BLOB");
                }
                push_str(out, "\n");
                proof {
                    reveal_strlit("    blob [");
                    reveal_strlit("] ");
                    reveal_strlit(" bytes");
                    reveal_strlit("  <- MISSING BLOB");
                    reveal_strlit("\n");
                    assert(bs[i as int] == b@);
                    assert(bs.subrange(0, i + 1).drop_last() =~= bs.subrange(0, i as int));
                    assert(out@ =~= base + blob_lines(depth as nat, bs.subrange(0, i + 1), held));
                }
                i = i + 1;
            }
            proof {
                assert(bs.subrange(0, refs@.len() as int) =~= bs);
            }
        },
        _ => {
            push_str(out, "  [");
            push_short_hash(out, hash);
            push_str(out, "]  <- MISSING NODE\n");
            proof {
                reveal_strlit("  [");
                reveal_strlit("]  <- MISSING NODE\n");
            }
        },
    }
}

/// The snapshot of an in-memory node store and its blob store.
pub fn dump_store_text(node_repository: &InMemoryNodeRepository, blob_repository: &InMemoryBlobRepository) -> (r:
    String)
    ensures
        r@ == store_text(node_repository.node_map(), blob_repository.blob_map().dom(), node_repository.root_view()),
{
    let mut out = String::new();
    match node_repository.root_hash() {
        Ok(Some(root)) => {
            push_str(&mut out, "root: ");
            push_str(&mut out, root.as_str());
            push_str(&mut out, "\n\n");
            let levels = node_repository.len();
            proof {
                reveal_strlit("root: ");
                reveal_strlit("\n\n");
                reveal_strlit(".");
            }
            dump_tree(node_repository, blob_repository, &root, ".", 0, levels, &mut out);
        },
        _ => {
            push_str(&mut out, "root: (unset)\n");
            proof {
                reveal_strlit("root: (unset)\n");
            }
        },
    }
    out
}

} // verus!
