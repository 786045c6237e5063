use librmrfd::{
    DirEntry, EntryAction, EntryMetadata, ErrorKind, Inventory, InventoryEntriesMessage,
    InventoryGatherer, InventoryKey, ObjectPath, SimpleType, WorkerStep,
};
use std::sync::Arc;

/// A file system that lives in memory.
enum Node {
    File { ino: u64, blocks: u64 },
    Dir { ino: u64, locked: bool, children: Vec<(&'static str, Node)> },
}

fn file(ino: u64, blocks: u64) -> Node {
    Node::File { ino, blocks }
}

fn dir(ino: u64, children: Vec<(&'static str, Node)>) -> Node {
    Node::Dir { ino, locked: false, children }
}

fn locked_dir(ino: u64) -> Node {
    Node::Dir { ino, locked: true, children: Vec::new() }
}

fn open<'a>(node: &'a Node) -> Option<Arc<&'a Node>> {
    match node {
        Node::Dir { locked: false, .. } => Some(Arc::new(node)),
        _ => None,
    }
}

fn child<'a>(node: &'a Node, name: &[u8]) -> &'a Node {
    match node {
        Node::Dir { children, .. } => {
            &children.iter().find(|(n, _)| n.as_bytes() == name).unwrap().1
        }
        _ => panic!("not a directory"),
    }
}

/// Walks `tree`, which is mounted at `root`, with one worker, and returns
/// what the gatherer put out.
fn gather(root: &'static str, tree: &Node, min_blocks: u64) -> Vec<InventoryEntriesMessage> {
    let mut gatherer: InventoryGatherer<&Node> = InventoryGatherer::new(min_blocks, 1, 16);
    let mut output = Vec::new();
    gatherer.load_dir_recursive(ObjectPath::new(root.as_bytes()));
    while let Some(guard) = gatherer.next_work() {
        let opened = match gatherer.worker_step(&guard) {
            WorkerStep::Open { path, full_path } => {
                assert_eq!(full_path, root.as_bytes().to_vec());
                Some((open(tree), path))
            }
            WorkerStep::OpenAt { parent, path } => {
                Some((open(child(*parent, path.name().as_bytes())), path))
            }
            WorkerStep::Emit(message) => {
                output.push(message);
                None
            }
            WorkerStep::Nothing => None,
        };
        match opened {
            Some((Some(handle), path)) => {
                let children = match *handle {
                    Node::Dir { children, .. } => children,
                    _ => unreachable!(),
                };
                for (name, node) in children.iter() {
                    let entry = match node {
                        Node::File { ino, .. } => DirEntry {
                            name: name.as_bytes().to_vec(),
                            file_type: Some(SimpleType::File),
                            inode: *ino,
                        },
                        Node::Dir { ino, .. } => DirEntry {
                            name: name.as_bytes().to_vec(),
                            file_type: Some(SimpleType::Dir),
                            inode: *ino,
                        },
                    };
                    assert!(gatherer.can_queue());
                    match gatherer.process_entry(Some(&entry), handle.clone(), path.clone()) {
                        Ok(EntryAction::Queued) => {}
                        Ok(EntryAction::Stat) => {
                            let metadata = match node {
                                Node::File { blocks, .. } => {
                                    EntryMetadata { dev: Some(1), blocks: Some(*blocks) }
                                }
                                _ => unreachable!(),
                            };
                            match gatherer.process_metadata(&entry, path.clone(), Some(metadata)) {
                                Ok(Some(message)) => output.push(message),
                                Ok(None) => {}
                                Err(kind) => output.push(gatherer.send_error(path.clone(), kind)),
                            }
                        }
                        Err(kind) => output.push(gatherer.send_error(path.clone(), kind)),
                    }
                }
            }
            Some((None, path)) => {
                output.push(gatherer.send_error(path, ErrorKind::OpenFailed));
            }
            None => {}
        }
        gatherer.finish(guard);
    }
    output
}

fn assemble(output: Vec<InventoryEntriesMessage>, min_blocks: u64) -> Inventory {
    let mut inventory = Inventory::new(min_blocks);
    for message in output {
        inventory.receive(message);
    }
    inventory
}

fn count_entries(output: &[InventoryEntriesMessage]) -> usize {
    output.iter().filter(|m| matches!(m, InventoryEntriesMessage::Entry(..))).count()
}

fn count_errors(output: &[InventoryEntriesMessage]) -> usize {
    output.iter().filter(|m| matches!(m, InventoryEntriesMessage::Error(..))).count()
}

fn count_done(output: &[InventoryEntriesMessage]) -> usize {
    output.iter().filter(|m| matches!(m, InventoryEntriesMessage::Done)).count()
}

#[test]
fn empty_tree() {
    let tree = dir(1, vec![]);
    let output = gather("/root", &tree, 64);
    assert_eq!(count_done(&output), 1);
    assert_eq!(count_entries(&output), 0);
    assert_eq!(count_errors(&output), 0);
    let inventory = assemble(output, 64);
    assert!(inventory.is_empty());
    assert!(inventory.is_done());
}

#[test]
fn single_large_file() {
    let tree = dir(1, vec![("big", file(2, 1024))]);
    let output = gather("/root", &tree, 64);
    assert_eq!(output.len(), 2);
    match &output[0] {
        InventoryEntriesMessage::Entry(_, key, path) => {
            assert_eq!(key.blocks, 1024);
            assert_eq!(path.to_pathbuf(), b"/root/big".to_vec());
        }
        _ => panic!("expected an entry"),
    }
    assert!(matches!(output[1], InventoryEntriesMessage::Done));
}

#[test]
fn filtered_file() {
    let tree = dir(1, vec![("small", file(2, 8))]);
    let output = gather("/root", &tree, 64);
    assert_eq!(count_entries(&output), 0);
    assert_eq!(count_done(&output), 1);
    assert_eq!(output.len(), 1);
}

#[test]
fn hard_links() {
    let tree = dir(1, vec![("a", file(50, 1024)), ("dir", dir(3, vec![("b", file(50, 1024))]))]);
    let output = gather("/root", &tree, 64);
    assert_eq!(count_entries(&output), 2);
    assert_eq!(count_done(&output), 1);
    let inventory = assemble(output, 64);
    assert_eq!(inventory.len(), 1);
    let list = inventory.objects(1, InventoryKey::new(1024, 50)).unwrap();
    assert_eq!(list.len(), 2);
    assert_eq!(list.get(0).unwrap().to_pathbuf(), b"/root/a".to_vec());
    assert_eq!(list.get(1).unwrap().to_pathbuf(), b"/root/dir/b".to_vec());
}

#[test]
fn depth_first_ordering() {
    let deep = dir(
        20,
        vec![("f1", file(21, 100)), ("deeper", dir(22, vec![("f2", file(23, 100))]))],
    );
    let shallow = dir(10, vec![("g1", file(11, 100))]);
    let tree = dir(1, vec![("shallow", shallow), ("deep", deep)]);
    let output = gather("/root", &tree, 64);
    let paths: Vec<Vec<u8>> = output
        .iter()
        .filter_map(|m| match m {
            InventoryEntriesMessage::Entry(_, _, path) => Some(path.to_pathbuf()),
            _ => None,
        })
        .collect();
    // Both sub-trees are queued at the same depth, so the smaller inode
    // goes first; what it queues lies deeper and overtakes the sibling.
    assert_eq!(
        paths,
        vec![
            b"/root/shallow/g1".to_vec(),
            b"/root/deep/f1".to_vec(),
            b"/root/deep/deeper/f2".to_vec(),
        ]
    );
    let tree = dir(
        1,
        vec![
            ("a", dir(10, vec![("sub", dir(12, vec![("x", file(13, 100))]))])),
            ("b", dir(11, vec![("y", file(14, 100))])),
        ],
    );
    let output = gather("/root", &tree, 64);
    let paths: Vec<Vec<u8>> = output
        .iter()
        .filter_map(|m| match m {
            InventoryEntriesMessage::Entry(_, _, path) => Some(path.to_pathbuf()),
            _ => None,
        })
        .collect();
    // `a` is listed first and queues `a/sub`, which is deeper than the
    // waiting sibling `b` and so is traversed before it.
    assert_eq!(paths, vec![b"/root/a/sub/x".to_vec(), b"/root/b/y".to_vec()]);
    assert_eq!(count_done(&output), 1);
}

#[test]
fn error_passthrough() {
    let tree = dir(1, vec![("secret", locked_dir(2)), ("big", file(3, 1024))]);
    let output = gather("/root", &tree, 64);
    assert_eq!(count_errors(&output), 1);
    assert_eq!(count_entries(&output), 1);
    assert_eq!(count_done(&output), 1);
    assert!(matches!(output.last(), Some(InventoryEntriesMessage::Done)));
    let inventory = assemble(output, 64);
    assert!(inventory.is_done());
    assert_eq!(inventory.error_count(), 1);
    let (path, kind) = inventory.error_at(0).unwrap();
    assert_eq!(path.to_pathbuf(), b"/root/secret".to_vec());
    assert_eq!(kind, ErrorKind::OpenFailed);
}

#[test]
fn root_cannot_be_opened() {
    let tree = locked_dir(1);
    let output = gather("/root", &tree, 64);
    assert_eq!(output.len(), 2);
    assert!(matches!(output[0], InventoryEntriesMessage::Error(_, ErrorKind::OpenFailed)));
    assert!(matches!(output[1], InventoryEntriesMessage::Done));
}

#[test]
fn no_entry_below_the_minimum_reaches_the_inventory() {
    let tree = dir(
        1,
        vec![
            ("a", file(2, 0)),
            ("b", file(3, 63)),
            ("c", file(4, 64)),
            ("d", dir(5, vec![("e", file(6, 65)), ("f", file(7, 1))])),
        ],
    );
    let output = gather("/root", &tree, 64);
    assert_eq!(count_entries(&output), 2);
    let inventory = assemble(output, 64);
    assert_eq!(inventory.len(), 2);
    for (_, key) in inventory.deletion_order() {
        assert!(key.blocks >= 64);
    }
}
