use rgit::workspace::Workspace;

#[test]
fn default_ignores_are_honoured() {
    let ws = Workspace::new(b"/work".to_vec());
    assert!(ws.is_ignored(&b".".to_vec()));
    assert!(ws.is_ignored(&b"..".to_vec()));
    assert!(ws.is_ignored(&b".git".to_vec()));
    assert!(ws.is_ignored(&b"target".to_vec()));
}

#[test]
fn ordinary_names_are_kept() {
    let ws = Workspace::new(b"/work".to_vec());
    assert!(!ws.is_ignored(&b"src".to_vec()));
    assert!(!ws.is_ignored(&b"a.txt".to_vec()));
    assert!(!ws.is_ignored(&b".gitignore".to_vec()));
    assert!(!ws.is_ignored(&b"".to_vec()));
}

#[test]
fn workspace_keeps_its_root() {
    let ws = Workspace::new(b"/somewhere/else".to_vec());
    assert_eq!(ws.path, b"/somewhere/else".to_vec());
}
