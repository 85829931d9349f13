use rustagit::commit::{ChangeSet, CommitInfo};
use rustagit::highlight::Highlighter;
use rustagit::site::{Output, Templator, DEFAULT_CSS};
use rustagit::tree::{TreeEntry, TreeNode};
use rustagit::url::UrlResolver;
use rustagit::SiteError;

fn templator(description: &str, clone_url: &str) -> Templator {
    Templator::new(
        "demo".to_string(),
        description.to_string(),
        clone_url.to_string(),
        UrlResolver::new("/out".to_string()),
        Highlighter::new().unwrap(),
    )
}

fn commit(id: &str, parents: &[&str], summary: &str, counts: (usize, usize, usize), patch: Option<&str>) -> CommitInfo {
    CommitInfo {
        id: id.to_string(),
        parents: parents.iter().map(|p| p.to_string()).collect(),
        author_name: b"Ada".to_vec(),
        author_email: b"ada@example.org".to_vec(),
        committer_name: b"Bob".to_vec(),
        committer_email: b"bob@example.org".to_vec(),
        seconds: 1_600_000_000,
        offset_minutes: 120,
        summary: Some(summary.as_bytes().to_vec()),
        message: format!("{}\n", summary).into_bytes(),
        changes: ChangeSet {
            files_changed: counts.0,
            insertions: counts.1,
            deletions: counts.2,
            stat_text: format!(" a.txt | 1 +\n {} file changed\n", counts.0).into_bytes(),
            patches: vec![patch.map(|p| p.as_bytes().to_vec())],
        },
    }
}

fn file(name: &str, content: &[u8]) -> TreeEntry {
    TreeEntry { name: name.as_bytes().to_vec(), node: TreeNode::File(content.to_vec()) }
}

fn dir(name: &str, entries: Vec<TreeEntry>) -> TreeEntry {
    TreeEntry { name: name.as_bytes().to_vec(), node: TreeNode::Directory(entries) }
}

fn location(o: &Output) -> String {
    match o {
        Output::Dir(p) => p.to_text(),
        Output::Stylesheet(p, _) => p.to_text(),
        Output::Page(p, _) => p.to_text(),
        Output::Raw(p, _) => p.to_text(),
    }
}

fn page<'a>(outs: &'a [Output], at: &str) -> &'a str {
    outs.iter()
        .find_map(|o| match o {
            Output::Page(p, t) if p.to_text() == at => Some(t.as_str()),
            _ => None,
        })
        .unwrap_or_else(|| panic!("no page at {}", at))
}

fn two_commits() -> Vec<CommitInfo> {
    vec![
        commit("c2", &["c1"], "Greet the world", (1, 1, 1), Some("-hello\n+hello world\n")),
        commit("c1", &[], "Add a.txt", (1, 1, 0), Some("+hello\n")),
    ]
}

#[test]
fn two_commit_history_scenario() {
    let t = templator("", "");
    let tree = vec![file("a.txt", b"hello world")];
    let mut outs = Vec::new();
    assert_eq!(t.generate(&two_commits(), &tree, &mut outs), Ok(()));
    let log = page(&outs, "/out/log.html");
    assert_eq!(log.matches("<tr><td>").count(), 2);
    let first = log.find("commit/c2.html").unwrap();
    let second = log.find("commit/c1.html").unwrap();
    assert!(first < second);
    assert!(log.contains("<td class=\"numeric\">1</td><td class=\"numeric\">1</td><td class=\"numeric\">0</td>"));
    assert!(log.contains("<td class=\"numeric\">1</td><td class=\"numeric\">1</td><td class=\"numeric\">1</td>"));
    assert!(page(&outs, "/out/commit/c1.html").contains("1 file changed"));
    assert!(page(&outs, "/out/commit/c2.html").contains("<a href=\"../commit/c1.html\">c1</a>"));
    let leaf = page(&outs, "/out/tree/a.txt.html");
    let plain = Highlighter::new().unwrap().highlight("a.txt", "hello world").unwrap();
    assert!(leaf.contains(&format!("<main>{}</main>", plain)));
    assert!(leaf.contains("hello world"));
    assert!(leaf.contains("<pre"));
    assert!(!leaf.contains("This is not a file of UTF-8 honour."));
    assert!(!outs.iter().any(|o| matches!(o, Output::Raw(..))));
}

#[test]
fn run_order_and_counts() {
    let t = templator("A demo", "https://example.org/demo.git");
    let tree = vec![file("a.txt", b"hello world")];
    let mut outs = Vec::new();
    assert_eq!(t.generate(&two_commits(), &tree, &mut outs), Ok(()));
    let locations: Vec<String> = outs.iter().map(location).collect();
    assert_eq!(
        locations,
        vec![
            "/out",
            "/out/commit",
            "/out/rustagit.css",
            "/out/log.html",
            "/out/commit/c2.html",
            "/out/commit/c1.html",
            "/out/tree",
            "/out/tree/index.htm",
            "/out/tree/a.txt.html",
        ]
    );
    assert!(matches!(&outs[0], Output::Dir(_)));
    match &outs[2] {
        Output::Stylesheet(_, css) => assert_eq!(css, DEFAULT_CSS),
        _ => panic!("the stylesheet comes third"),
    }
    let log = page(&outs, "/out/log.html");
    assert!(log.starts_with("<!DOCTYPE html><html><head>"));
    assert!(log.contains("<title>Commit log \u{2013} demo</title>"));
    assert!(log.contains("<link rel=\"stylesheet\" href=\"./rustagit.css\">"));
    assert!(log.contains("<p>A demo</p>"));
    assert!(log.contains("<pre>git clone <a href=\"https://example.org/demo.git\">https://example.org/demo.git</a></pre>"));
    assert!(log.contains("<abbr title=\"2020-09-13 14:26:40 +02:00\">2020-09-13</abbr>"));
    let c1 = page(&outs, "/out/commit/c1.html");
    assert!(c1.contains("<link rel=\"stylesheet\" href=\"../rustagit.css\">"));
    assert!(c1.contains("<dt>author</dt><dd>Ada &lt;<a href=\"mailto:ada@example.org\">ada@example.org</a>&gt;</dd>"));
    assert!(c1.contains("<dt>committer</dt><dd>Bob &lt;<a href=\"mailto:bob@example.org\">bob@example.org</a>&gt;</dd>"));
    assert!(c1.contains("<pre>+hello\n</pre>"));
    assert!(!c1.contains("<dt>parent</dt>"));
}

#[test]
fn empty_history_and_tree() {
    let t = templator("", "");
    let mut outs = Vec::new();
    assert_eq!(t.generate(&Vec::new(), &Vec::new(), &mut outs), Ok(()));
    assert_eq!(outs.len(), 6);
    let log = page(&outs, "/out/log.html");
    assert_eq!(log.matches("<tr><td>").count(), 0);
    assert!(!log.contains("<p>"));
    assert!(page(&outs, "/out/tree/index.htm").contains("<main><ul></ul></main>"));
}

#[test]
fn missing_patch_is_marked() {
    let t = templator("", "");
    let mut outs = Vec::new();
    assert_eq!(t.write_commit(&commit("c9", &[], "Binary", (1, 0, 0), None), &mut outs), Ok(()));
    assert!(page(&outs, "/out/commit/c9.html").contains("</dl>unchanged or binary</main>"));
}

#[test]
fn undecodable_commit_text_fails() {
    let t = templator("", "");
    let mut c = commit("bad", &[], "x", (0, 0, 0), None);
    c.committer_email = vec![0xc3, 0x28];
    let mut outs = Vec::new();
    assert_eq!(t.write_commit(&c, &mut outs), Err(SiteError::InvalidText("bad".to_string())));
    assert!(outs.is_empty());
    let mut c = commit("bad2", &[], "x", (0, 0, 0), Some("ok"));
    c.changes.patches.push(Some(vec![0xff]));
    assert_eq!(t.write_commit(&c, &mut outs), Err(SiteError::InvalidText("bad2".to_string())));
}

#[test]
fn undecodable_summary_stops_the_log() {
    let t = templator("", "");
    let mut cis = two_commits();
    cis[1].summary = None;
    let mut outs = Vec::new();
    assert_eq!(t.generate(&cis, &Vec::new(), &mut outs), Err(SiteError::InvalidText("c1".to_string())));
    assert_eq!(outs.len(), 3);
}

#[test]
fn time_out_of_range_is_an_object_error() {
    let t = templator("", "");
    let mut cis = two_commits();
    cis[0].offset_minutes = 1440;
    let mut outs = Vec::new();
    assert_eq!(t.generate(&cis, &Vec::new(), &mut outs), Err(SiteError::ObjectRead("c2".to_string())));
    assert_eq!(cis[0].time(), None);
    assert_eq!(cis[1].time(), Some("2020-09-13 14:26:40 +02:00".to_string()));
}

#[test]
fn binary_file_gets_raw_copy() {
    let t = templator("", "");
    let bytes = vec![0x89, b'P', b'N', b'G', 0xff, 0x00];
    let tree = vec![dir("img", vec![file("logo.png", &bytes)])];
    let mut outs = Vec::new();
    assert_eq!(t.write_all_tree_nodes(&tree, &mut outs), Ok(()));
    let raw: Vec<&Output> = outs.iter().filter(|o| matches!(o, Output::Raw(..))).collect();
    assert_eq!(raw.len(), 1);
    match raw[0] {
        Output::Raw(p, b) => {
            assert_eq!(p.to_text(), "/out/tree/img/logo.png");
            assert_eq!(b, &bytes);
        }
        _ => unreachable!(),
    }
    let leaf = page(&outs, "/out/tree/img/logo.png.html");
    assert!(leaf.contains("<main><p>This is not a file of UTF-8 honour.</p><a href=\"logo.png\">See raw</a></main>"));
    assert!(leaf.contains("<title>/img/logo.png \u{2013} demo</title>"));
    assert!(leaf.contains("href=\"../../rustagit.css\""));
}

#[test]
fn directory_listing_links_through_root() {
    let t = templator("", "");
    let tree = vec![dir("src", vec![file("lib.rs", b"pub fn f() {}\n"), dir("bin", vec![])]), file("README", b"hi\n")];
    let mut outs = Vec::new();
    assert_eq!(t.write_all_tree_nodes(&tree, &mut outs), Ok(()));
    let locations: Vec<String> = outs.iter().map(location).collect();
    assert_eq!(
        locations,
        vec![
            "/out/tree",
            "/out/tree/index.htm",
            "/out/tree/src",
            "/out/tree/src/index.htm",
            "/out/tree/src/lib.rs.html",
            "/out/tree/src/bin",
            "/out/tree/src/bin/index.htm",
            "/out/tree/README.html",
        ]
    );
    let root = page(&outs, "/out/tree/index.htm");
    assert!(root.contains("<ul><li><a href=\"../tree/src/index.htm\">src/</a></li><li><a href=\"../tree/README.html\">README</a></li></ul>"));
    let src = page(&outs, "/out/tree/src/index.htm");
    assert!(src.contains("<li><a href=\"../../tree/src/lib.rs.html\">lib.rs</a></li>"));
    assert!(src.contains("<li><a href=\"../../tree/src/bin/index.htm\">bin/</a></li>"));
    assert!(src.contains("<title>/src \u{2013} demo</title>"));
}

#[test]
fn file_and_directory_named_alike() {
    let t = templator("", "");
    let tree = vec![file("foo", b"text\n"), dir("foo", vec![file("bar", b"x\n")])];
    let mut outs = Vec::new();
    assert_eq!(t.write_all_tree_nodes(&tree, &mut outs), Ok(()));
    let pages: Vec<String> = outs.iter().filter(|o| matches!(o, Output::Page(..))).map(location).collect();
    assert!(pages.contains(&"/out/tree/foo.html".to_string()));
    assert!(pages.contains(&"/out/tree/foo/index.htm".to_string()));
    let mut unique = pages.clone();
    unique.sort();
    unique.dedup();
    assert_eq!(unique.len(), pages.len());
}

#[test]
fn rerun_never_writes_the_stylesheet_as_a_page() {
    let t = templator("", "");
    let tree = vec![file("rustagit.css", b"body {}\n")];
    let mut outs = Vec::new();
    assert_eq!(t.generate(&two_commits(), &tree, &mut outs), Ok(()));
    let css = "/out/rustagit.css".to_string();
    let writes: Vec<&Output> = outs.iter().filter(|o| location(o) == css).collect();
    assert_eq!(writes.len(), 1);
    assert!(matches!(writes[0], Output::Stylesheet(..)));
}

#[test]
fn unusable_entry_names_fail() {
    let t = templator("", "");
    let mut outs = Vec::new();
    let tree = vec![dir("sub", vec![file("..", b"x")])];
    assert_eq!(t.write_all_tree_nodes(&tree, &mut outs), Err(SiteError::ObjectRead("/sub".to_string())));
    let mut outs = Vec::new();
    let tree = vec![TreeEntry { name: vec![0xff], node: TreeNode::Other }];
    assert_eq!(t.write_all_tree_nodes(&tree, &mut outs), Err(SiteError::InvalidText("/".to_string())));
    assert!(outs.is_empty());
}

#[test]
fn highlighting_prefers_file_name_then_extension() {
    let h = Highlighter::new().unwrap();
    let rust = h.highlight("main.rs", "fn main() {}\n").unwrap();
    let plain = h.highlight("notes.unknownext", "fn main() {}\n").unwrap();
    assert!(rust.starts_with("<pre"));
    assert_ne!(rust, plain);
    let shell = h.highlight("script", "#!/bin/sh\necho hi\n").unwrap();
    let shell_plain = h.highlight("script.unknownext", "echo hi\n").unwrap();
    assert_ne!(shell, shell_plain);
    assert!(h.highlight("a.txt", "a < b & c\n").unwrap().contains("&lt;"));
    assert_eq!(h.highlight("a.txt", "hello world"), h.highlight("notes.unknownext", "hello world"));
}

#[test]
fn file_named_index_keeps_its_own_page() {
    let t = templator("", "");
    let tree = vec![file("index", b"x\n"), file("index.htm", b"y\n")];
    let mut outs = Vec::new();
    assert_eq!(t.write_all_tree_nodes(&tree, &mut outs), Ok(()));
    let pages: Vec<String> = outs.iter().filter(|o| matches!(o, Output::Page(..))).map(location).collect();
    assert_eq!(pages, vec!["/out/tree/index.htm", "/out/tree/index.html", "/out/tree/index.htm.html"]);
}

#[test]
fn history_alone_stops_before_the_tree() {
    let t = templator("", "");
    let mut outs = Vec::new();
    assert_eq!(t.write_history(&two_commits(), &mut outs), Ok(()));
    assert_eq!(outs.len(), 6);
    let mut cis = two_commits();
    cis[0].author_email = vec![0xff];
    let mut outs = Vec::new();
    assert_eq!(t.write_all_commits(&cis, &mut outs), Err(SiteError::InvalidText("c2".to_string())));
    assert!(outs.is_empty());
    let mut cis = two_commits();
    cis[1].message = vec![0xff];
    assert_eq!(t.write_all_commits(&cis, &mut outs), Err(SiteError::InvalidText("c1".to_string())));
    assert_eq!(outs.len(), 1);
}

#[test]
fn colliding_outputs_fail_before_the_directory() {
    let t = templator("", "");
    let mut outs = Vec::new();
    let tree = vec![file("index.htm", &[0xff])];
    assert_eq!(t.write_all_tree_nodes(&tree, &mut outs), Err(SiteError::ObjectRead("/".to_string())));
    assert!(outs.is_empty());
    let tree = vec![dir("sub", vec![file("foo", &[0xff, 0xfe]), dir("foo", vec![])])];
    assert_eq!(t.write_all_tree_nodes(&tree, &mut outs), Err(SiteError::ObjectRead("/sub".to_string())));
    assert_eq!(outs.len(), 2);
    let mut outs = Vec::new();
    let tree = vec![file("x", b"text\n"), dir("x.html", vec![])];
    assert_eq!(t.write_all_tree_nodes(&tree, &mut outs), Err(SiteError::ObjectRead("/".to_string())));
    let tree = vec![dir("index.htm", vec![])];
    assert_eq!(t.write_all_tree_nodes(&tree, &mut outs), Err(SiteError::ObjectRead("/".to_string())));
    let tree = vec![file("x", b"text\n"), file("x.html", &[0xff])];
    assert_eq!(t.write_all_tree_nodes(&tree, &mut outs), Err(SiteError::ObjectRead("/".to_string())));
    assert!(outs.is_empty());
}

#[test]
fn every_location_written_once() {
    let t = templator("", "");
    let tree = vec![
        file("foo", b"text\n"),
        dir("foo", vec![file("bin", &[0xff]), file("index", b"i\n")]),
        file("blob", &[0x00, 0xff]),
    ];
    let mut outs = Vec::new();
    assert_eq!(t.generate(&two_commits(), &tree, &mut outs), Ok(()));
    let mut locations: Vec<String> = outs.iter().map(location).collect();
    let n = locations.len();
    locations.sort();
    locations.dedup();
    assert_eq!(locations.len(), n);
}

#[test]
fn prelude_then_history() {
    let t = templator("", "");
    let mut outs = Vec::new();
    t.write_prelude(&mut outs);
    assert_eq!(outs.iter().map(location).collect::<Vec<_>>(), vec!["/out", "/out/commit", "/out/rustagit.css"]);
    assert_eq!(t.write_log_and_commits(&two_commits(), &mut outs), Ok(()));
    assert_eq!(outs.len(), 6);
}
