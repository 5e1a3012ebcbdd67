use scaffold::codec::decode;
use scaffold::materialize::{content_action, plan_paths, PathAction};
use scaffold::model::{ContentEntry, PathEntry, PathError, PathKind, Template};
use scaffold::engine::prepare_contents;

fn entry(kind: PathKind, path: &[u8]) -> PathEntry {
    PathEntry { kind, path: path.to_vec() }
}

#[test]
fn plan_creates_directory_before_nested_file() {
    let root = b"root".to_vec();
    let paths = vec![entry(PathKind::Dir, b"a"), entry(PathKind::File, b"a/b.txt")];
    let plan = plan_paths(&root, &paths).unwrap();
    assert_eq!(plan.len(), 2);
    match &plan[0] {
        PathAction::MkDir(p) => assert_eq!(p, &b"root/a".to_vec()),
        PathAction::MkFile(_) => panic!("directory must come first"),
    }
    match &plan[1] {
        PathAction::MkFile(p) => assert_eq!(p, &b"root/a/b.txt".to_vec()),
        PathAction::MkDir(_) => panic!("file must come second"),
    }
}

#[test]
fn plan_preserves_a_reversed_list_order() {
    // the plan never reorders: a file listed before its directory stays first
    let root = b"root".to_vec();
    let paths = vec![entry(PathKind::File, b"a/b.txt"), entry(PathKind::Dir, b"a")];
    let plan = plan_paths(&root, &paths).unwrap();
    assert!(matches!(plan[0], PathAction::MkFile(_)));
    assert!(matches!(plan[1], PathAction::MkDir(_)));
}

#[test]
fn plan_rejects_escaping_path() {
    let root = b"root".to_vec();
    let paths = vec![entry(PathKind::Dir, b"ok"), entry(PathKind::File, b"../outside")];
    assert_eq!(plan_paths(&root, &paths).unwrap_err(), PathError::EscapesRoot);
}

#[test]
fn content_action_skips_missing_target() {
    let root = b"root".to_vec();
    let c = ContentEntry { file_path: b"missing.txt".to_vec(), payload: b"data".to_vec() };
    let r = content_action(&root, &c, false).unwrap();
    assert!(r.is_none());
}

#[test]
fn content_action_writes_existing_target() {
    let root = b"root".to_vec();
    let c = ContentEntry { file_path: b"a/b.txt".to_vec(), payload: b"data".to_vec() };
    let w = content_action(&root, &c, true).unwrap().unwrap();
    assert_eq!(w.path, b"root/a/b.txt".to_vec());
    assert_eq!(w.payload, b"data".to_vec());
}

#[test]
fn content_action_rejects_escaping_path() {
    let root = b"root".to_vec();
    let c = ContentEntry { file_path: b"../up.txt".to_vec(), payload: b"data".to_vec() };
    assert_eq!(content_action(&root, &c, true).unwrap_err(), PathError::EscapesRoot);
}

#[test]
fn end_to_end_template_generation_plan() {
    let (paths, contents) = decode("dir|src;file|src/main.txt", "src/main.txt|SGVsbG8=").unwrap();
    let template = Template { paths, contents, args: None };
    let prepared = prepare_contents(&template, &Vec::new()).unwrap();
    assert_eq!(prepared.len(), 1);
    assert_eq!(prepared[0].payload, b"Hello".to_vec());

    let root = b"root".to_vec();
    let plan = plan_paths(&root, &template.paths).unwrap();
    assert_eq!(plan.len(), 2);
    match &plan[0] {
        PathAction::MkDir(p) => assert_eq!(p, &b"root/src".to_vec()),
        PathAction::MkFile(_) => panic!("expected the directory first"),
    }
    match &plan[1] {
        PathAction::MkFile(p) => assert_eq!(p, &b"root/src/main.txt".to_vec()),
        PathAction::MkDir(_) => panic!("expected the file second"),
    }
    let w = content_action(&root, &prepared[0], true).unwrap().unwrap();
    assert_eq!(w.path, b"root/src/main.txt".to_vec());
    assert_eq!(w.payload, b"Hello".to_vec());
}
