use rustagit::commit::push_escaped;
use rustagit::markup::decimal_text;
use rustagit::repository::{name_from_path, sidecar_value, Memo, Repository, SidecarRead};
use rustagit::text::{decode_text, extension_text};
use rustagit::{InvalidUtf, SiteError};

#[test]
fn escapes_markup_characters() {
    let mut out = "<b>".to_string();
    push_escaped(&mut out, "<a href=\"x\">&</a>");
    assert_eq!(out, "<b>&lt;a href=&quot;x&quot;&gt;&amp;&lt;/a&gt;");
    let mut plain = String::new();
    push_escaped(&mut plain, "plain 'text' é");
    assert_eq!(plain, "plain 'text' é");
}

#[test]
fn decimal_numbers() {
    assert_eq!(decimal_text(0), "0");
    assert_eq!(decimal_text(7), "7");
    assert_eq!(decimal_text(1234), "1234");
    assert_eq!(decimal_text(usize::MAX), usize::MAX.to_string());
}

#[test]
fn decoding_tells_text_from_binary() {
    assert_eq!(decode_text(&"héllo".as_bytes().to_vec()), Ok("héllo".to_string()));
    assert_eq!(decode_text(&vec![0xff, 0xfe, 0x00]), Err(InvalidUtf));
    assert_eq!(decode_text(&Vec::new()), Ok(String::new()));
}

#[test]
fn sidecar_text_is_trimmed() {
    assert_eq!(sidecar_value(SidecarRead::Found("  a description \n".to_string())), Ok("a description".to_string()));
    assert_eq!(sidecar_value(SidecarRead::Found("\n\t".to_string())), Ok(String::new()));
}

#[test]
fn extensions_follow_the_last_dot() {
    assert_eq!(extension_text("main.rs"), "rs");
    assert_eq!(extension_text("archive.tar.gz"), "gz");
    assert_eq!(extension_text(".bashrc"), "");
    assert_eq!(extension_text("Makefile"), "");
    assert_eq!(extension_text("trailing."), "");
    assert_eq!(extension_text(".config.toml"), "toml");
}

#[test]
fn sidecar_values() {
    assert_eq!(sidecar_value(SidecarRead::Found(" my project\n".to_string())), Ok("my project".to_string()));
    assert_eq!(sidecar_value(SidecarRead::Missing), Ok(String::new()));
    assert_eq!(
        sidecar_value(SidecarRead::Failed("permission denied".to_string())),
        Err(SiteError::Io("permission denied".to_string()))
    );
}

#[test]
fn names_from_paths() {
    assert_eq!(name_from_path("/home/me/project"), Some("project".to_string()));
    assert_eq!(name_from_path("project"), Some("project".to_string()));
    assert_eq!(name_from_path("/"), None);
    assert_eq!(name_from_path(""), None);
}

#[test]
fn memo_computes_once() {
    let mut m = Memo::new();
    assert_eq!(m.get(), None);
    assert_eq!(m.get_or_try(|| Err(SiteError::Io("x".to_string()))), Err(SiteError::Io("x".to_string())));
    assert_eq!(m.get(), None);
    assert_eq!(m.get_or_try(|| Ok("first".to_string())), Ok("first".to_string()));
    assert_eq!(m.get_or_try(|| Ok("second".to_string())), Ok("first".to_string()));
}

#[test]
fn repository_metadata_is_read_once() {
    let mut r = Repository::new("/srv/git/tool".to_string(), "/srv/git/tool/.git".to_string());
    assert_eq!(r.gitdir(), "/srv/git/tool/.git");
    assert_eq!(r.name(), Ok("tool".to_string()));
    assert_eq!(r.name(), Ok("tool".to_string()));
    let mut calls = 0;
    let first = r.description(|| {
        calls += 1;
        sidecar_value(SidecarRead::Found("A tool\n".to_string()))
    });
    assert_eq!(first, Ok("A tool".to_string()));
    let second = r.description(|| {
        calls += 1;
        Ok("other".to_string())
    });
    assert_eq!(second, Ok("A tool".to_string()));
    assert_eq!(calls, 1);
    assert_eq!(r.url(|| sidecar_value(SidecarRead::Missing)), Ok(String::new()));
}

#[test]
fn repository_root_has_no_name() {
    let mut r = Repository::new("/".to_string(), "/.git".to_string());
    assert!(matches!(r.name(), Err(SiteError::RepositoryOpen(_))));
}
