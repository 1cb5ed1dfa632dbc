use std::collections::BTreeMap;

use amg::scan::{ScanStep, Session, SessionScan};
use amg::walk::{EntryKind, RelPath, SortedWalk};

/// What a fake tree holds at a path.
enum Node {
    Dir,
    UnreadableDir,
    File(Option<String>),
    Symlink,
    Fifo,
}

/// An in-memory directory tree, keyed by path below the root.
struct Tree {
    nodes: BTreeMap<Vec<Vec<u8>>, Node>,
}

fn split(path: &str) -> Vec<Vec<u8>> {
    if path.is_empty() {
        return Vec::new();
    }
    path.split('/').map(|s| s.as_bytes().to_vec()).collect()
}

fn show(names: &[Vec<u8>]) -> String {
    names
        .iter()
        .map(|n| String::from_utf8_lossy(n).into_owned())
        .collect::<Vec<_>>()
        .join("/")
}

impl Tree {
    fn new() -> Tree {
        let mut nodes = BTreeMap::new();
        nodes.insert(Vec::new(), Node::Dir);
        Tree { nodes }
    }

    fn add(&mut self, path: &str, node: Node) {
        let names = split(path);
        for k in 1..names.len() {
            self.nodes.entry(names[..k].to_vec()).or_insert(Node::Dir);
        }
        self.nodes.insert(names, node);
    }

    fn dir(&mut self, path: &str) {
        self.add(path, Node::Dir);
    }

    fn file(&mut self, path: &str, first_line: &str) {
        self.add(path, Node::File(Some(first_line.to_string())));
    }

    fn probe(&self, path: &RelPath) -> EntryKind {
        match self.nodes.get(&path.names) {
            None => EntryKind::Unreadable,
            Some(Node::Symlink) => EntryKind::Symlink,
            Some(Node::Fifo) => EntryKind::Other,
            Some(Node::File(_)) => EntryKind::File,
            Some(Node::UnreadableDir) => EntryKind::Directory(None),
            Some(Node::Dir) => {
                let mut children: Vec<Vec<u8>> = self
                    .nodes
                    .keys()
                    .filter(|k| k.len() == path.names.len() + 1 && k.starts_with(&path.names))
                    .map(|k| k.last().unwrap().clone())
                    .collect();
                // Directory listings come in no particular order.
                children.reverse();
                EntryKind::Directory(Some(children))
            }
        }
    }

    fn first_line(&self, path: &RelPath) -> Option<String> {
        match self.nodes.get(&path.names) {
            Some(Node::File(line)) => line.clone(),
            _ => None,
        }
    }

    fn walk(&self) -> Vec<String> {
        let mut walk = match SortedWalk::new(true) {
            Ok(w) => w,
            Err(_) => panic!("root is listable"),
        };
        let mut out = Vec::new();
        while let Some(p) = walk.next_to_probe() {
            let kind = self.probe(&p);
            if let Some(f) = walk.visit(kind) {
                out.push(show(&f.names));
            }
        }
        out
    }

    /// Runs a scan; also returns the paths whose first line was read.
    fn scan(&self, branch: &str) -> (Option<Session>, Vec<String>) {
        let mut scan = match SessionScan::new(branch.to_string(), true) {
            Ok(s) => s,
            Err(_) => panic!("root is listable"),
        };
        let mut read = Vec::new();
        let mut step = scan.advance();
        loop {
            step = match step {
                ScanStep::Probe(p) => scan.on_probe(self.probe(&p)),
                ScanStep::ReadFirstLine(p) => {
                    read.push(show(&p.names));
                    scan.on_first_line(self.first_line(&p))
                }
                ScanStep::Done(found) => return (found, read),
            }
        }
    }
}

fn record(branch: &str, cwd: &str, id: &str) -> String {
    format!(
        "{{\"timestamp\":\"2025-01-01T00:00:00Z\",\"type\":\"session_meta\",\"payload\":{{\"id\":\"{id}\",\"cwd\":\"{cwd}\",\"git\":{{\"branch\":\"{branch}\"}}}}}}"
    )
}

#[test]
fn walk_yields_files_in_ascending_path_order() {
    let mut t = Tree::new();
    t.file("b/x.jsonl", "");
    t.file("a-b", "");
    t.file("a/c", "");
    t.file("a/b/z", "");
    t.file("ab", "");
    t.file("a/b/a", "");
    t.dir("empty");
    t.file("c", "");
    let got = t.walk();
    assert_eq!(got, vec!["a/b/a", "a/b/z", "a/c", "a-b", "ab", "b/x.jsonl", "c"]);
}

#[test]
fn walk_never_yields_symlinks_or_enters_them() {
    let mut t = Tree::new();
    t.file("a/real.jsonl", "");
    t.add("a/link.jsonl", Node::Symlink);
    t.add("linkdir", Node::Symlink);
    t.add("pipe", Node::Fifo);
    t.file("z", "");
    assert_eq!(t.walk(), vec!["a/real.jsonl", "z"]);
}

#[test]
fn walk_skips_unreadable_subdirectory() {
    let mut t = Tree::new();
    t.file("a/one", "");
    t.add("b", Node::UnreadableDir);
    t.file("c/two", "");
    assert_eq!(t.walk(), vec!["a/one", "c/two"]);
}

#[test]
fn walk_fails_on_unreadable_root() {
    assert!(SortedWalk::new(false).is_err());
    assert!(SessionScan::new("main".to_string(), false).is_err());
}

#[test]
fn walk_of_empty_root_yields_nothing() {
    let t = Tree::new();
    assert!(t.walk().is_empty());
}

#[test]
fn scan_finds_the_one_matching_record() {
    let mut t = Tree::new();
    t.file("2025/01/a.jsonl", &record("main", "/w/a", "id-a"));
    t.file("2025/01/b.jsonl", &record("feature-x", "/w/b", "id-b"));
    t.file("2025/02/c.jsonl", &record("feature-y", "/w/c", "id-c"));
    let (found, _) = t.scan("feature-x");
    let s = found.expect("a session");
    assert_eq!(s.cwd, "/w/b");
    assert_eq!(s.id, "id-b");
    assert_eq!(show(&s.source.names), "2025/01/b.jsonl");
}

#[test]
fn scan_without_matching_record_finds_nothing() {
    let mut t = Tree::new();
    t.file("a.jsonl", &record("main", "/w/a", "id-a"));
    t.file("b.jsonl", &record("feature-xy", "/w/b", "id-b"));
    let (found, read) = t.scan("feature-x");
    assert!(found.is_none());
    assert_eq!(read, vec!["a.jsonl", "b.jsonl"]);
}

#[test]
fn scan_first_match_wins() {
    let mut t = Tree::new();
    t.file("b/two.jsonl", &record("feature-x", "/w/two", "id-two"));
    t.file("a/one.jsonl", &record("feature-x", "/w/one", "id-one"));
    let (found, read) = t.scan("feature-x");
    let s = found.expect("a session");
    assert_eq!(s.id, "id-one");
    assert_eq!(show(&s.source.names), "a/one.jsonl");
    assert_eq!(read, vec!["a/one.jsonl"]);
}

#[test]
fn scan_skips_blank_cwd_bad_json_and_other_extensions() {
    let mut t = Tree::new();
    t.file("a.jsonl", &record("feature-x", "   ", "id-a"));
    t.file("b.jsonl", "{not json feature-x");
    t.file("c.json", &record("feature-x", "/w/c", "id-c"));
    t.file("d.jsonl", &record("feature-x", "/w/d", " "));
    t.add("e.jsonl", Node::File(None));
    t.file("f.jsonl", &record("feature-x", "/w/f", "id-f"));
    let (found, read) = t.scan("feature-x");
    let s = found.expect("a session");
    assert_eq!(s.id, "id-f");
    assert!(!read.contains(&"c.json".to_string()));
    assert_eq!(read, vec!["a.jsonl", "b.jsonl", "d.jsonl", "e.jsonl", "f.jsonl"]);
}

#[test]
fn scan_twice_gives_the_same_result() {
    let mut t = Tree::new();
    t.file("x/1.jsonl", &record("dev", "/w/1", "one"));
    t.file("x/2.jsonl", &record("main", "/w/2", "two"));
    t.file("y/3.jsonl", &record("main", "/w/3", "three"));
    let (a, ra) = t.scan("main");
    let (b, rb) = t.scan("main");
    let (a, b) = (a.expect("a session"), b.expect("a session"));
    assert_eq!((a.cwd, a.id, a.source.names), (b.cwd, b.id, b.source.names));
    assert_eq!(ra, rb);
}

#[test]
fn scan_stops_at_symlinked_record() {
    let mut t = Tree::new();
    t.add("a.jsonl", Node::Symlink);
    t.file("b.jsonl", &record("main", "/w/b", "b"));
    let (found, read) = t.scan("main");
    assert_eq!(found.expect("a session").id, "b");
    assert_eq!(read, vec!["b.jsonl"]);
}
