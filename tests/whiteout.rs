use std::collections::BTreeSet;

use docker_image::whiteout::{whiteout_action, EntryAction};

fn apply(tree: &mut BTreeSet<String>, path: &str, regular: bool) {
    match whiteout_action(path, regular) {
        EntryAction::Extract => {
            tree.insert(path.to_string());
        }
        EntryAction::ClearDir(d) => {
            let prefix = format!("{}/", d);
            tree.retain(|q| !q.starts_with(&prefix));
        }
        EntryAction::Remove(t) => {
            let prefix = format!("{}/", t);
            tree.retain(|q| *q != t && !q.starts_with(&prefix));
        }
    }
}

#[test]
fn whiteout_deletes_sibling() {
    let mut tree = BTreeSet::new();
    apply(&mut tree, "/dst/etc/a", true);
    apply(&mut tree, "/dst/etc/b", true);
    apply(&mut tree, "/dst/etc/.wh.a", true);
    let expected: BTreeSet<String> = ["/dst/etc/b".to_string()].into_iter().collect();
    assert_eq!(tree, expected);
}

#[test]
fn opaque_marker_empties_directory() {
    let mut tree = BTreeSet::new();
    apply(&mut tree, "/dst/opt/x", true);
    apply(&mut tree, "/dst/opt/y", true);
    apply(&mut tree, "/dst/opt/.wh..opq", true);
    apply(&mut tree, "/dst/opt/z", true);
    let expected: BTreeSet<String> = ["/dst/opt/z".to_string()].into_iter().collect();
    assert_eq!(tree, expected);
}

#[test]
fn whiteout_removes_directory_tree() {
    let mut tree = BTreeSet::new();
    apply(&mut tree, "/dst/a/b/c", true);
    apply(&mut tree, "/dst/a/bb", true);
    apply(&mut tree, "/dst/a/.wh.b", true);
    let expected: BTreeSet<String> = ["/dst/a/bb".to_string()].into_iter().collect();
    assert_eq!(tree, expected);
}

#[test]
fn entry_actions() {
    assert!(matches!(whiteout_action("/dst/etc/.wh.a", true), EntryAction::Remove(t) if t == "/dst/etc/a"));
    assert!(matches!(whiteout_action("/dst/opt/.wh..opq", true), EntryAction::ClearDir(d) if d == "/dst/opt"));
    assert!(matches!(whiteout_action("/dst/etc/passwd", true), EntryAction::Extract));
    assert!(matches!(whiteout_action("/dst/etc/.wh.a", false), EntryAction::Extract));
    assert!(matches!(whiteout_action(".wh.x", true), EntryAction::Remove(t) if t == "x"));
    assert!(matches!(whiteout_action("/dst/.whx", true), EntryAction::Extract));
}

#[test]
fn markers_never_appear_in_tree() {
    let mut tree = BTreeSet::new();
    for p in ["/d/a", "/d/.wh.a", "/d/s/.wh..opq", "/d/s/t", "/d/.wh.missing"] {
        apply(&mut tree, p, true);
    }
    assert!(tree.iter().all(|q| !q.rsplit('/').next().unwrap().starts_with(".wh.")));
    let expected: BTreeSet<String> = ["/d/s/t".to_string()].into_iter().collect();
    assert_eq!(tree, expected);
}
