use phaneros::blob_repository::InMemoryBlobRepository;
use phaneros::model::{Blob, BlobRef, Entry, Node};
use phaneros::node_repository::InMemoryNodeRepository;
use phaneros::store_dump::dump_store_text;

#[test]
fn an_empty_store_has_no_root() {
    let nodes = InMemoryNodeRepository::new();
    let blobs = InMemoryBlobRepository::new();
    assert_eq!(dump_store_text(&nodes, &blobs), "root: (unset)\n");
}

#[test]
fn the_tree_is_listed_with_missing_nodes_and_blobs_flagged() {
    let mut nodes = InMemoryNodeRepository::new();
    let mut blobs = InMemoryBlobRepository::new();
    let file_hash = "f0123456789abcdef".to_string();
    let docs_hash = "d0123456789abcdef".to_string();
    let root_hash = "r0123456789abcdef".to_string();
    nodes
        .insert_internal(
            file_hash.clone(),
            Node::file(vec![
                BlobRef { hash: "b1".to_string(), size: 5 },
                BlobRef { hash: "b2".to_string(), size: 7 },
            ]),
        )
        .unwrap();
    nodes
        .insert_internal(docs_hash.clone(), Node::folder(vec![], vec![Entry::new("a.txt", file_hash.clone())]))
        .unwrap();
    nodes
        .insert_internal(
            root_hash.clone(),
            Node::folder(vec![Entry::new("docs", docs_hash.clone())], vec![Entry::new("gone.txt", "zz".to_string())]),
        )
        .unwrap();
    nodes.set_root_internal(root_hash.clone()).unwrap();
    blobs.insert_internal("b1".to_string(), Blob { bytes: b"hello".to_vec() }).unwrap();

    let expected = [
        "root: r0123456789abcdef\n",
        "\n",
        "./  [r0123456789a]\n",
        "    docs/  [d0123456789a]\n",
        "        a.txt  [f0123456789a]\n",
        "            blob [b1] 5 bytes\n",
        "            blob [b2] 7 bytes  <- MISSING BLOB\n",
        "    gone.txt  [zz]  <- MISSING NODE\n",
    ]
    .concat();
    assert_eq!(dump_store_text(&nodes, &blobs), expected);
}
