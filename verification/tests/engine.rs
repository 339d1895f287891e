use rsmv::transfer::transfer;
use rsmv::transfer::TransferError;
use rsmv::tree::Node;

fn file(bytes: &[u8]) -> Node {
    Node::File { data: bytes.to_vec() }
}

fn dir(entries: Vec<(&str, Node)>) -> Node {
    Node::Dir { entries: entries.into_iter().map(|(n, c)| (n.to_string(), c)).collect() }
}

fn node_eq(a: &Node, b: &Node) -> bool {
    match (a, b) {
        (Node::File { data: da }, Node::File { data: db }) => da == db,
        (Node::Special, Node::Special) => true,
        (Node::Dir { entries: ea }, Node::Dir { entries: eb }) => {
            ea.len() == eb.len()
                && ea.iter().all(|(name, child)| {
                    eb.iter().any(|(n2, c2)| n2 == name && node_eq(child, c2))
                })
        },
        _ => false,
    }
}

#[test]
fn file_copy_preserves_source() {
    let src = file(b"12345");
    let r = transfer(Some(&src), &"f.txt".to_string(), None, false).unwrap();
    assert!(node_eq(&r.0, &src));
    let remaining = r.1.expect("source must remain after a copy");
    assert!(node_eq(&remaining, &src));
    assert_eq!(r.2.files_processed, 1);
    assert_eq!(r.2.bytes_processed, 5);
}

#[test]
fn file_move_removes_source() {
    let src = file(b"12345");
    let r = transfer(Some(&src), &"f.txt".to_string(), None, true).unwrap();
    assert!(node_eq(&r.0, &src));
    assert!(r.1.is_none());
    assert_eq!(r.2.files_processed, 1);
    assert_eq!(r.2.bytes_processed, 5);
}

#[test]
fn tree_move_scenario() {
    let src = dir(vec![
        ("a.txt", file(b"aaaaa")),
        ("sub", dir(vec![("b.txt", file(b"bbb"))])),
    ]);
    let r = transfer(Some(&src), &"src".to_string(), None, true).unwrap();
    let expected = dir(vec![
        ("a.txt", file(b"aaaaa")),
        ("sub", dir(vec![("b.txt", file(b"bbb"))])),
    ]);
    assert!(node_eq(&r.0, &expected));
    assert!(r.1.is_none(), "a fully regular tree is removed by a move");
    assert_eq!(r.2.files_processed, 2);
    assert_eq!(r.2.bytes_processed, 8);
}

#[test]
fn tree_copy_keeps_source() {
    let src = dir(vec![
        ("a.txt", file(b"aaaaa")),
        ("sub", dir(vec![("b.txt", file(b"bbb"))])),
    ]);
    let r = transfer(Some(&src), &"src".to_string(), None, false).unwrap();
    assert!(node_eq(&r.0, &src));
    let remaining = r.1.expect("source must remain after a copy");
    assert!(node_eq(&remaining, &src));
    assert_eq!(r.2.files_processed, 2);
    assert_eq!(r.2.bytes_processed, 8);
}

#[test]
fn missing_source_is_not_found() {
    let r = transfer(None, &"x".to_string(), None, false);
    assert_eq!(r.unwrap_err(), TransferError::NotFound);
}

#[test]
fn file_lands_inside_existing_directory() {
    let src = file(b"xyz");
    let dest = dir(vec![("keep.txt", file(b"k"))]);
    let r = transfer(Some(&src), &"f.txt".to_string(), Some(dest), false).unwrap();
    let expected = dir(vec![("keep.txt", file(b"k")), ("f.txt", file(b"xyz"))]);
    assert!(node_eq(&r.0, &expected));
}

#[test]
fn copy_twice_gives_same_destination() {
    let src = file(b"same");
    let name = "f.txt".to_string();
    let first = transfer(Some(&src), &name, None, false).unwrap();
    let second = transfer(Some(&src), &name, None, false).unwrap();
    assert!(node_eq(&first.0, &second.0));
    let again = transfer(Some(&src), &name, Some(first.0), false).unwrap();
    assert!(node_eq(&again.0, &second.0));
}

#[test]
fn tree_copy_twice_gives_same_destination() {
    let src = dir(vec![
        ("a.txt", file(b"aaaaa")),
        ("sub", dir(vec![("b.txt", file(b"bbb"))])),
    ]);
    let name = "src".to_string();
    let first = transfer(Some(&src), &name, None, false).unwrap();
    let again = transfer(Some(&src), &name, Some(first.0), false).unwrap();
    assert!(node_eq(&again.0, &src));
}

#[test]
fn special_source_is_unsupported() {
    let r = transfer(Some(&Node::Special), &"s".to_string(), None, false);
    assert_eq!(r.unwrap_err(), TransferError::UnsupportedSourceType);
}

#[test]
fn directory_onto_file_is_invalid_destination() {
    let src = dir(vec![("a", file(b"a"))]);
    let dest = file(b"plain");
    let r = transfer(Some(&src), &"src".to_string(), Some(dest), false);
    assert_eq!(r.unwrap_err(), TransferError::InvalidDestination);
}

#[test]
fn file_onto_directory_entry_fails() {
    let src = dir(vec![("x", file(b"a"))]);
    let dest = dir(vec![("x", dir(vec![]))]);
    let r = transfer(Some(&src), &"src".to_string(), Some(dest), false);
    assert_eq!(r.unwrap_err(), TransferError::IoFailure);
}

#[test]
fn merge_into_existing_directory() {
    let src = dir(vec![("new.txt", file(b"n")), ("old.txt", file(b"fresh"))]);
    let dest = dir(vec![("old.txt", file(b"stale")), ("keep.txt", file(b"k"))]);
    let r = transfer(Some(&src), &"src".to_string(), Some(dest), false).unwrap();
    let expected = dir(vec![
        ("old.txt", file(b"fresh")),
        ("keep.txt", file(b"k")),
        ("new.txt", file(b"n")),
    ]);
    assert!(node_eq(&r.0, &expected));
    assert_eq!(r.2.files_processed, 2);
    assert_eq!(r.2.bytes_processed, 6);
}

#[test]
fn special_entries_are_skipped_and_stay() {
    let src = dir(vec![("a.txt", file(b"aa")), ("pipe", Node::Special)]);
    let r = transfer(Some(&src), &"src".to_string(), None, true).unwrap();
    let expected = dir(vec![("a.txt", file(b"aa"))]);
    assert!(node_eq(&r.0, &expected));
    let remaining = r.1.expect("the special entry cannot be moved, so it stays");
    let expected_rest = dir(vec![("pipe", Node::Special)]);
    assert!(node_eq(&remaining, &expected_rest));
    assert_eq!(r.2.files_processed, 1);
    assert_eq!(r.2.bytes_processed, 2);
}
