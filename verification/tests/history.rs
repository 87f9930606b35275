use githelper::map::PathMap;
use githelper::rewrite::planner::{apply_edits, select_base_entries};
use githelper::inspection::ChangedPath;
use githelper::revert::paths::{merge_by_path, parse_dirty};
use githelper::rewrite::materialize::operation_id;
use githelper::rewrite::materialize_steps::update_index_args;
use githelper::rewrite::model::TreeEntry;
use githelper::rewrite::objects::{parse_commit, parse_signature, parse_tree};
use githelper::rewrite::{ObjectId, RepoPath};

fn hex(c: char) -> String {
    std::iter::repeat(c).take(40).collect()
}

#[test]
fn signatures_keep_name_email_and_date() {
    let sig = parse_signature(b"A U Thor <a@example.com> 1700000000 +0100").unwrap();
    assert_eq!(sig.name, "A U Thor");
    assert_eq!(sig.email, "a@example.com");
    assert_eq!(sig.date, "1700000000 +0100");
    assert!(parse_signature(b"no email 1 +0000").is_err());
    assert!(parse_signature(b"x> y <z 1 +0000").is_err());
}

#[test]
fn commits_are_read_from_cat_file() {
    let text = format!(
        "tree {}\nparent {}\nauthor A <a@x> 1 +0000\ncommitter C <c@x> 2 +0100\n\nsubject\n\nbody\n",
        hex('a'),
        hex('b')
    );
    let commit = parse_commit(text.as_bytes()).unwrap();
    assert_eq!(commit.tree.as_str(), hex('a'));
    assert_eq!(commit.parents.len(), 1);
    assert_eq!(commit.parents[0].as_str(), hex('b'));
    assert_eq!(commit.metadata.author.name, "A");
    assert_eq!(commit.metadata.committer.date, "2 +0100");
    assert_eq!(commit.metadata.message, b"subject\n\nbody\n".to_vec());
    assert!(parse_commit(b"tree abc").is_err());
}

#[test]
fn trees_are_read_from_ls_tree() {
    let listing = format!("100644 blob {}\ta b.txt\0160000 commit {}\tlib/sub\0", hex('a'), hex('b'));
    let tree = parse_tree(listing.as_bytes()).unwrap();
    assert_eq!(tree.len(), 2);
    let entry = tree.get("a b.txt").unwrap();
    assert_eq!(entry.mode, "100644");
    assert_eq!(entry.kind, "blob");
    assert_eq!(tree.get("lib/sub").unwrap().kind, "commit");
}

#[test]
fn index_updates_add_or_remove() {
    let entry = TreeEntry { mode: "100644".to_string(), kind: "blob".to_string(), object: ObjectId::new(hex('c')).unwrap() };
    let add = update_index_args("p", &Some(entry));
    assert_eq!(add, vec!["update-index".to_string(), "--add".to_string(), "--cacheinfo".to_string(), "100644".to_string(), hex('c'), "p".to_string()]);
    let remove = update_index_args("p", &None);
    assert_eq!(remove, vec!["update-index", "--force-remove", "--", "p"]);
}

#[test]
fn operation_ids_name_label_time_and_process() {
    assert_eq!(operation_id("revert", "123", 45), "revert-123-45");
}

#[test]
fn dirty_status_keeps_changes_and_renames() {
    let status = b"1 .M N... 100644 100644 100644 h1 h2 file.txt\0\
2 R. N... 100644 100644 100644 h1 h2 R100 new.txt\0old.txt\0\
? untracked\0u UU N... 1 2 3 4 h1 h2 h3 conflict\0";
    let entries = parse_dirty(status).unwrap();
    assert_eq!(entries.len(), 2);
    assert_eq!(entries[0].path.as_str(), "file.txt");
    assert_eq!(entries[0].status, "M");
    assert_eq!(entries[1].path.as_str(), "new.txt");
    assert_eq!(entries[1].status, "R");
    assert_eq!(entries[1].previous_path.as_ref().unwrap().as_str(), "old.txt");
    assert!(parse_dirty(b"1 .M short\0").is_err());
}

fn changed(path: &str, status: &str) -> ChangedPath {
    ChangedPath { path: RepoPath::new(path.to_string()).unwrap(), previous_path: None, status: status.to_string() }
}

#[test]
fn local_status_wins_over_committed_status() {
    let merged = merge_by_path(
        vec![changed("b", "A"), changed("a", "M")],
        vec![changed("b", "D")],
    );
    let view: Vec<(&str, &str)> = merged.iter().map(|c| (c.path.as_str(), c.status.as_str())).collect();
    assert_eq!(view, vec![("a", "M"), ("b", "D")]);
}

fn entry(c: char) -> TreeEntry {
    TreeEntry { mode: "100644".to_string(), kind: "blob".to_string(), object: ObjectId::new(hex(c)).unwrap() }
}

#[test]
fn uncommit_sets_selected_paths_to_base() {
    let mut base: PathMap<TreeEntry> = PathMap::new();
    base.insert("a".to_string(), entry('1'));
    let mut commit: PathMap<TreeEntry> = PathMap::new();
    commit.insert("a".to_string(), entry('2'));
    commit.insert("b".to_string(), entry('3'));
    commit.insert("c".to_string(), entry('4'));
    let selected = vec![RepoPath::new("a".to_string()).unwrap(), RepoPath::new("c".to_string()).unwrap()];
    let edits = select_base_entries(&base, &selected);
    let edited = apply_edits(commit, &edits);
    assert_eq!(edited.get("a").unwrap().object.as_str(), hex('1'));
    assert_eq!(edited.get("b").unwrap().object.as_str(), hex('3'));
    assert!(edited.get("c").is_none());
    let again = apply_edits(edited, &edits);
    assert_eq!(again.len(), 2);
}
