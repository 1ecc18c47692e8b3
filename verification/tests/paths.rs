use smartdiff::file_system::{
    get_components, FileSystem, GitTreeFileSystem, HistEntry, HistNode,
};
use smartdiff::Error;

fn add_blob(nodes: &mut Vec<HistNode>, content: &[u8]) -> usize {
    nodes.push(HistNode::Blob { content: content.to_vec() });
    nodes.len() - 1
}

fn add_tree(nodes: &mut Vec<HistNode>, entries: Vec<(&str, bool, usize)>) -> usize {
    let entries = entries
        .into_iter()
        .map(|(name, is_symlink, child)| HistEntry {
            name: name.as_bytes().to_vec(),
            is_symlink,
            child,
        })
        .collect();
    nodes.push(HistNode::Tree { entries });
    nodes.len() - 1
}

#[test]
fn components_split_and_reverse() {
    let comps = get_components(b"a/b/c");
    // Stored as a stack: the first component on top, i.e. last.
    assert_eq!(comps.len(), 3);
    assert_eq!(comps[0], b"c".to_vec());
    assert_eq!(comps[1], b"b".to_vec());
    assert_eq!(comps[2], b"a".to_vec());
}

#[test]
fn components_normalize_empty_and_dot() {
    let comps = get_components(b"./a//b/./");
    assert_eq!(comps.len(), 2);
    assert_eq!(comps[0], b"b".to_vec());
    assert_eq!(comps[1], b"a".to_vec());
    let dotdot = get_components(b"../x");
    assert_eq!(dotdot.len(), 2);
    assert_eq!(dotdot[0], b"x".to_vec());
    assert_eq!(dotdot[1], b"..".to_vec());
}

#[test]
fn resolve_plain_file() {
    let mut nodes = Vec::new();
    let file = add_blob(&mut nodes, b"hello");
    let sub = add_tree(&mut nodes, vec![("file.txt", false, file)]);
    let root = add_tree(&mut nodes, vec![("sub", false, sub)]);
    let fs = GitTreeFileSystem { nodes, root };
    assert_eq!(fs.resolve(b"sub/file.txt"), Ok(b"hello".to_vec()));
    assert_eq!(fs.load(b"sub/file.txt"), Ok(b"hello".to_vec()));
}

#[test]
fn resolve_parent_references() {
    let mut nodes = Vec::new();
    let a = add_blob(&mut nodes, b"A");
    let sub = add_tree(&mut nodes, vec![("deep", false, a)]);
    let b = add_blob(&mut nodes, b"B");
    let root = add_tree(&mut nodes, vec![("sub", false, sub), ("b.txt", false, b)]);
    let fs = GitTreeFileSystem { nodes, root };
    assert_eq!(fs.resolve(b"sub/../b.txt"), Ok(b"B".to_vec()));
}

#[test]
fn resolve_out_of_root_traversal() {
    let mut nodes = Vec::new();
    let x = add_blob(&mut nodes, b"X");
    let root = add_tree(&mut nodes, vec![("x", false, x)]);
    let fs = GitTreeFileSystem { nodes, root };
    // From the tree root there is no parent to pop.
    assert_eq!(fs.resolve(b"../../x"), Err(Error::OutOfRootTraversal));
}

#[test]
fn resolve_error_kinds() {
    let mut nodes = Vec::new();
    let file = add_blob(&mut nodes, b"F");
    let sub = add_tree(&mut nodes, vec![("f", false, file)]);
    let root = add_tree(&mut nodes, vec![("sub", false, sub), ("f", false, file)]);
    let fs = GitTreeFileSystem { nodes, root };
    assert_eq!(fs.resolve(b"missing"), Err(Error::NotFound));
    // A blob used as a directory.
    assert_eq!(fs.resolve(b"f/deeper"), Err(Error::NotADirectory));
    // A tree where a file is expected.
    assert_eq!(fs.resolve(b"sub"), Err(Error::NotABlob));
}

#[test]
fn resolve_through_symlink() {
    let mut nodes = Vec::new();
    let target = add_blob(&mut nodes, b"payload");
    let link = add_blob(&mut nodes, b"real/file");
    let real = add_tree(&mut nodes, vec![("file", false, target)]);
    let root = add_tree(
        &mut nodes,
        vec![("real", false, real), ("alias", true, link)],
    );
    let fs = GitTreeFileSystem { nodes, root };
    assert_eq!(fs.resolve(b"alias"), Ok(b"payload".to_vec()));
}

#[test]
fn symlink_to_parent_directory() {
    let mut nodes = Vec::new();
    let target = add_blob(&mut nodes, b"up");
    let link = add_blob(&mut nodes, b"../top.txt");
    let sub = add_tree(&mut nodes, vec![("back", true, link)]);
    let root = add_tree(
        &mut nodes,
        vec![("sub", false, sub), ("top.txt", false, target)],
    );
    let fs = GitTreeFileSystem { nodes, root };
    assert_eq!(fs.resolve(b"sub/back"), Ok(b"up".to_vec()));
}

fn chain_filesystem(links: usize) -> GitTreeFileSystem {
    // Entries link1 -> link2 -> ... -> link{links} -> end, all in one tree.
    let mut nodes = Vec::new();
    let end = add_blob(&mut nodes, b"end");
    let mut entries: Vec<(String, bool, usize)> = Vec::new();
    for i in 1..=links {
        let next = if i == links {
            format!("end")
        } else {
            format!("link{}", i + 1)
        };
        let target = add_blob(&mut nodes, next.as_bytes());
        entries.push((format!("link{}", i), true, target));
    }
    entries.push((format!("end"), false, end));
    let entries = entries
        .into_iter()
        .map(|(name, is_symlink, child)| HistEntry {
            name: name.into_bytes(),
            is_symlink,
            child,
        })
        .collect();
    nodes.push(HistNode::Tree { entries });
    let root = nodes.len() - 1;
    GitTreeFileSystem { nodes, root }
}

#[test]
fn symlink_chain_of_39_resolves() {
    let fs = chain_filesystem(39);
    assert_eq!(fs.resolve(b"link1"), Ok(b"end".to_vec()));
}

#[test]
fn symlink_chain_of_41_hits_the_limit() {
    let fs = chain_filesystem(41);
    assert_eq!(fs.resolve(b"link1"), Err(Error::SymlinkCycle));
}

#[test]
fn symlink_self_cycle_hits_the_limit() {
    let mut nodes = Vec::new();
    let link = add_blob(&mut nodes, b"loop");
    let root = add_tree(&mut nodes, vec![("loop", true, link)]);
    let fs = GitTreeFileSystem { nodes, root };
    assert_eq!(fs.resolve(b"loop"), Err(Error::SymlinkCycle));
}

#[test]
fn malformed_graph_is_rejected_by_load() {
    // An entry pointing outside the node list: `load` reports an I/O error
    // instead of resolving.
    let nodes = vec![HistNode::Tree {
        entries: vec![HistEntry { name: b"bad".to_vec(), is_symlink: false, child: 7 }],
    }];
    let fs = GitTreeFileSystem { nodes, root: 0 };
    assert_eq!(fs.load(b"bad"), Err(Error::IOError));
}
