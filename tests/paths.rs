use rustagit::url::UrlResolver;

fn base() -> UrlResolver {
    UrlResolver::new("/srv/site".to_string())
}

#[test]
fn well_known_locations() {
    let b = base();
    assert_eq!(b.commit_dir().to_text(), "/srv/site/commit");
    assert_eq!(b.commit_file("abc123").to_text(), "/srv/site/commit/abc123.html");
    assert_eq!(b.commit_log().to_text(), "/srv/site/log.html");
    assert_eq!(b.tree_dir().to_text(), "/srv/site/tree");
    assert_eq!(b.tree_index().to_text(), "/srv/site/tree/index.htm");
    assert_eq!(b.tree_file("README").to_text(), "/srv/site/tree/README.html");
    assert_eq!(b.refs_list().to_text(), "/srv/site/refs.html");
    assert_eq!(b.style_css().to_text(), "/srv/site/rustagit.css");
}

#[test]
fn root_page_escapes_to_current_directory() {
    let b = base();
    let up = b.rel_root_from(&b.commit_log());
    assert_eq!(up.to_text(), ".");
    assert_eq!(up.style_css().to_text(), "./rustagit.css");
}

#[test]
fn nested_pages_escape_once_per_level() {
    let b = base();
    let commit = b.commit_file("abc");
    assert_eq!(b.rel_root_from(&commit).to_text(), "..");
    let path = vec!["src".to_string(), "bin".to_string()];
    let index = b.tree_path(&path).join("index.htm");
    assert_eq!(b.rel_root_from(&b).to_text(), ".");
    let up = b.rel_root_from(&index);
    assert_eq!(up.to_text(), "../../..");
    assert_eq!(up.style_css().to_text(), "../../../rustagit.css");
    assert_eq!(up.tree_index().to_text(), "../../../tree/index.htm");
}

#[test]
fn dot_html_suffixes_last_component() {
    let b = base();
    assert_eq!(b.join("a").join("b").dot_html().to_text(), "/srv/site/a/b.html");
}

#[test]
fn file_and_directory_of_one_name_do_not_collide() {
    let b = base();
    let path = vec!["foo".to_string()];
    let dir_index = b.tree_path(&path).join("index.htm").to_text();
    let file_page = b.tree_path(&path).dot_html().to_text();
    assert_eq!(dir_index, "/srv/site/tree/foo/index.htm");
    assert_eq!(file_page, "/srv/site/tree/foo.html");
    assert_ne!(dir_index, file_page);
}

#[test]
fn file_named_index_is_not_the_index_page() {
    let b = base();
    assert_ne!(b.tree_file("index").to_text(), b.tree_index().to_text());
    assert_eq!(b.tree_file("index").to_text(), "/srv/site/tree/index.html");
}
