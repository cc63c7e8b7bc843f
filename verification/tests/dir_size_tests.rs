use venv_rs::dir_size::{
    iterative_dir_size, parallel_dir_size, recursive_dir_size, Chonk, IterativeReader,
    ParallelReader, RecursiveReader,
};
use venv_rs::fstree::FsNode;

fn file(name: &str, size: u64) -> FsNode {
    FsNode::File {
        name: name.to_string(),
        size,
        mtime: 0,
        content: None,
    }
}

fn dir(name: &str, entries: Vec<FsNode>) -> FsNode {
    FsNode::Dir {
        name: name.to_string(),
        mtime: 0,
        entries,
    }
}

fn basic_tree() -> FsNode {
    // mirrors a small fixture directory whose files add up to 22 bytes
    dir(
        "basic",
        vec![
            file("a.txt", 10),
            dir("sub", vec![file("b.txt", 7), file("c.txt", 5)]),
        ],
    )
}

#[test]
fn test_parallel_dir_size() {
    let method = ParallelReader;
    let size = method.get_dir_size(&basic_tree());
    assert_eq!(size, 22);
}

#[test]
fn recursive_and_iterative_agree_on_basic() {
    assert_eq!(RecursiveReader.get_dir_size(&basic_tree()), 22);
    assert_eq!(IterativeReader.get_dir_size(&basic_tree()), 22);
}

#[test]
fn size_strategy_equivalence() {
    // nested directories, a symlinked directory, and zero-byte files
    let tree = dir(
        "root",
        vec![
            file("empty", 0),
            dir(
                "nested",
                vec![
                    dir("deeper", vec![file("x", 3), file("zero", 0)]),
                    file("y", 4),
                ],
            ),
            FsNode::Symlink {
                name: "linked_dir".to_string(),
                size: 11,
                mtime: 0,
            },
        ],
    );
    let r1 = recursive_dir_size(&tree);
    let r2 = iterative_dir_size(&tree);
    let r3 = parallel_dir_size(&tree);
    assert_eq!(r1, r2);
    assert_eq!(r2, r3);
    assert_eq!(r1, 18);
}

#[test]
fn leaf_node_size_is_its_own() {
    assert_eq!(recursive_dir_size(&file("single", 9)), 9);
    assert_eq!(parallel_dir_size(&file("single", 9)), 9);
}
