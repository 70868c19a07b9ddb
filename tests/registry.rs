use backit::files::{FileRegistry, PathKind, RegistryKey};
use backit::ipc::{FileTarget, ServerError, Target};
use backit::sessions::{Session, SessionRegistry};
use backit::ipc::HostId;

fn s(x: &str) -> String {
    x.to_string()
}

fn tags(xs: &[&str]) -> Vec<String> {
    xs.iter().map(|x| x.to_string()).collect()
}

#[test]
fn host_file_with_nickname_is_keyed_by_nickname() {
    let mut reg = FileRegistry::new();
    let key = reg
        .host(&FileTarget::new_file(s("/tmp/a.txt"), Some(s("a"))), &tags(&["docs"]), PathKind::File)
        .unwrap();
    assert_eq!(key, RegistryKey::Nickname(s("a")));
    assert_eq!(reg.count(), 1);
    assert_eq!(reg.entry(0).path(), "/tmp/a.txt");
    assert_eq!(reg.entry(0).tags(), &tags(&["docs"]));
}

#[test]
fn host_without_nickname_is_keyed_by_path() {
    let mut reg = FileRegistry::new();
    let key = reg.host(&FileTarget::new_file(s("/tmp/b"), None), &vec![], PathKind::File).unwrap();
    assert_eq!(key, RegistryKey::Path(s("/tmp/b")));
    let key = reg.host(&FileTarget::new_dir(s("/srv")), &vec![], PathKind::Directory).unwrap();
    assert_eq!(key, RegistryKey::Path(s("/srv")));
    assert_eq!(reg.count(), 2);
}

#[test]
fn host_missing_path_fails() {
    let mut reg = FileRegistry::new();
    let r = reg.host(&FileTarget::new_file(s("/nope"), None), &vec![], PathKind::Missing);
    assert_eq!(r, Err(ServerError::PathNotFound));
    assert_eq!(reg.count(), 0);
}

#[test]
fn host_dir_on_a_file_fails() {
    let mut reg = FileRegistry::new();
    let r = reg.host(&FileTarget::new_dir(s("/tmp/a.txt")), &vec![], PathKind::File);
    assert_eq!(r, Err(ServerError::NotADirectory));
    assert_eq!(reg.count(), 0);
}

#[test]
fn unhost_after_host_same_nickname_leaves_nothing() {
    let mut reg = FileRegistry::new();
    reg.host(&FileTarget::new_file(s("/tmp/a.txt"), Some(s("a"))), &vec![], PathKind::File).unwrap();
    reg.host(&FileTarget::new_file(s("/tmp/b.txt"), Some(s("b"))), &vec![], PathKind::File).unwrap();
    let removed = reg.unhost(&Target::new_nickname(s("a")));
    assert_eq!(removed, vec![RegistryKey::Nickname(s("a"))]);
    assert_eq!(reg.first_match(&Target::new_nickname(s("a"))), None);
    assert_eq!(reg.count(), 1);
}

#[test]
fn host_reused_nickname_replaces_path_and_tags() {
    let mut reg = FileRegistry::new();
    reg.host(&FileTarget::new_file(s("/tmp/old"), Some(s("n"))), &tags(&["x"]), PathKind::File).unwrap();
    reg.host(&FileTarget::new_file(s("/tmp/new"), Some(s("n"))), &tags(&["y"]), PathKind::File).unwrap();
    assert_eq!(reg.count(), 1);
    assert_eq!(reg.entry(0).path(), "/tmp/new");
    assert_eq!(reg.entry(0).tags(), &tags(&["y"]));
    assert_eq!(reg.first_match(&Target::new_tags(tags(&["x"]))), None);
}

#[test]
fn unhost_unmatched_target_is_a_no_op() {
    let mut reg = FileRegistry::new();
    reg.host(&FileTarget::new_file(s("/tmp/a"), None), &tags(&["t"]), PathKind::File).unwrap();
    let removed = reg.unhost(&Target::new_tags(tags(&["zzz"])));
    assert!(removed.is_empty());
    assert_eq!(reg.count(), 1);
}

#[test]
fn tags_match_all_listed() {
    let mut reg = FileRegistry::new();
    reg.host(&FileTarget::new_file(s("/a"), None), &tags(&["docs", "work"]), PathKind::File).unwrap();
    reg.host(&FileTarget::new_file(s("/b"), None), &tags(&["docs"]), PathKind::File).unwrap();
    let found = reg.resolve(&Target::new_tags(tags(&["docs"])));
    let keys: Vec<RegistryKey> = found.iter().map(|(k, _)| k.clone()).collect();
    assert_eq!(keys, vec![RegistryKey::Path(s("/a")), RegistryKey::Path(s("/b"))]);
    assert_eq!(found[1].1.path(), "/b");
    let found = reg.resolve(&Target::new_tags(tags(&["docs", "work"])));
    assert_eq!(found.len(), 1);
    assert_eq!(found[0].0, RegistryKey::Path(s("/a")));
    assert_eq!(found[0].1.tags(), &tags(&["docs", "work"]));
    assert_eq!(reg.first_match(&Target::new_tags(tags(&["work", "docs"]))), Some(0));
}

#[test]
fn adding_a_tag_keeps_earlier_matches() {
    let mut reg = FileRegistry::new();
    let target = FileTarget::new_file(s("/a"), Some(s("a")));
    reg.host(&target, &tags(&["docs"]), PathKind::File).unwrap();
    let query = Target::new_tags(tags(&["docs"]));
    assert_eq!(reg.first_match(&query), Some(0));
    reg.host(&target, &tags(&["docs", "extra"]), PathKind::File).unwrap();
    assert_eq!(reg.first_match(&query), Some(0));
}

#[test]
fn nickname_target_never_matches_dir_or_unnamed() {
    let mut reg = FileRegistry::new();
    reg.host(&FileTarget::new_dir(s("a")), &vec![], PathKind::Directory).unwrap();
    reg.host(&FileTarget::new_file(s("a"), None), &vec![], PathKind::File).unwrap();
    assert_eq!(reg.first_match(&Target::new_nickname(s("a"))), None);
}

#[test]
fn first_match_picks_registry_order() {
    let mut reg = FileRegistry::new();
    reg.host(&FileTarget::new_file(s("/one"), None), &tags(&["t"]), PathKind::File).unwrap();
    reg.host(&FileTarget::new_file(s("/two"), None), &tags(&["t"]), PathKind::File).unwrap();
    assert_eq!(reg.fetch_path(&Target::new_tags(tags(&["t"]))), Some(s("/one")));
}

#[test]
fn push_then_fetch_reads_stored_path() {
    let mut reg = FileRegistry::new();
    let t = Target::new_nickname(s("backup"));
    let path = reg.store_path(&t, s("/store/fresh"));
    assert_eq!(path, "/store/fresh");
    reg.commit_store(&t, path.clone());
    assert_eq!(reg.fetch_path(&t), Some(path.clone()));
    let again = reg.store_path(&t, s("/store/other"));
    assert_eq!(again, path);
    reg.commit_store(&t, again);
    assert_eq!(reg.count(), 1);
}

#[test]
fn push_by_tags_creates_tagged_entry() {
    let mut reg = FileRegistry::new();
    let t = Target::new_tags(tags(&["a", "b"]));
    assert_eq!(reg.fetch_path(&t), None);
    let path = reg.store_path(&t, s("/store/1"));
    reg.commit_store(&t, path);
    assert_eq!(reg.fetch_path(&t), Some(s("/store/1")));
    assert_eq!(reg.entry(0).tags(), &tags(&["a", "b"]));
}

#[test]
fn session_resolves_by_id_before_nickname() {
    let mut reg = SessionRegistry::new();
    reg.insert(Session::new(s("x"), Some(s("alpha")))).unwrap();
    reg.insert(Session::new(s("alpha"), None)).unwrap();
    let i = reg.resolve(&HostId::new_id(s("alpha"))).unwrap();
    assert_eq!(reg.get(i).id(), "alpha");
    let i = reg.resolve(&HostId::new_nickname(s("x"))).unwrap();
    assert_eq!(reg.get(i).id(), "x");
}

#[test]
fn session_duplicate_id_or_nickname_is_refused() {
    let mut reg = SessionRegistry::new();
    reg.insert(Session::new(s("id1"), Some(s("n")))).unwrap();
    assert_eq!(reg.insert(Session::new(s("id1"), None)), Err(ServerError::DuplicateId));
    assert_eq!(reg.insert(Session::new(s("id2"), Some(s("n")))), Err(ServerError::DuplicateId));
    assert_eq!(reg.len(), 1);
}

#[test]
fn connect_then_disconnect_resolves_to_none() {
    let mut reg = SessionRegistry::new();
    reg.insert(Session::new(s("id1"), Some(s("nick")))).unwrap();
    let gone = reg.remove(&HostId::new_id(s("id1"))).unwrap();
    assert_eq!(gone.id(), "id1");
    assert_eq!(reg.resolve(&HostId::new_id(s("id1"))), None);
    assert_eq!(reg.resolve(&HostId::new_nickname(s("nick"))), None);
    assert_eq!(reg.len(), 0);
}

#[test]
fn nickname_free_again_after_disconnect() {
    let mut reg = SessionRegistry::new();
    reg.insert(Session::new(s("id1"), Some(s("nick")))).unwrap();
    reg.remove(&HostId::new_nickname(s("nick"))).unwrap();
    reg.insert(Session::new(s("id2"), Some(s("nick")))).unwrap();
    let i = reg.resolve(&HostId::new_nickname(s("nick"))).unwrap();
    assert_eq!(reg.get(i).id(), "id2");
}

#[test]
fn host_missing_dir_is_not_a_directory() {
    let mut reg = FileRegistry::new();
    let r = reg.host(&FileTarget::new_dir(s("/no/such/dir")), &vec![], PathKind::Missing);
    assert_eq!(r, Err(ServerError::NotADirectory));
    assert_eq!(reg.count(), 0);
}
