//! The site generator: what a run writes, in order, and the laws that hold of it.

use vstd::prelude::*;
use vstd::utf8::{decode_utf8, valid_utf8};
use crate::commit::{
    commit_content, commit_markup_text, log_markup, log_rows, log_table, push_escaped, CommitInfo,
};
use crate::error::{Failure, SiteError};
use crate::highlight::{highlighted, Highlighter};
use crate::markup::escaped;
use crate::tree::{
    binary_notice, binary_notice_text, checked_name, entry_name, layout_free, layout_ok, lemma_listing_names, listing, listing_markup, tree_title_text,
    name_check, tree_title, TreeEntry, TreeNode,
};
use crate::url::{escape_parts, joined, names, plain_component, UrlResolver};

verus! {

/// One step of writing the site.
pub enum Output {
    /// Create this directory, and those above it, where absent.
    Dir(UrlResolver),
    /// Create this file with this text, but only where no file is there yet.
    Stylesheet(UrlResolver, String),
    /// Write this page, replacing what is there.
    Page(UrlResolver, String),
    /// Write these bytes, replacing what is there.
    Raw(UrlResolver, Vec<u8>),
}

/// An `Output` as locations, characters and bytes.
pub enum Written {
    Dir(Seq<Seq<char>>),
    Stylesheet(Seq<Seq<char>>, Seq<char>),
    Page(Seq<Seq<char>>, Seq<char>),
    Raw(Seq<Seq<char>>, Seq<u8>),
}

impl View for Output {
    type V = Written;

    open spec fn view(&self) -> Written {
        match self {
            Output::Dir(p) => Written::Dir(p@),
            Output::Stylesheet(p, t) => Written::Stylesheet(p@, t@),
            Output::Page(p, t) => Written::Page(p@, t@),
            Output::Raw(p, b) => Written::Raw(p@, b@),
        }
    }
}

/// The stylesheet that a new site starts with.
pub const DEFAULT_CSS: &'static str = "
        .numeric {
            text-align: right;
        }
        td.numeric {
            font-family: monospace;
        }
    ";

pub open spec fn head_markup(title: Seq<char>, name: Seq<char>, root: Seq<Seq<char>>) -> Seq<char> {
    "<!DOCTYPE html><html><head><meta charset=\"utf-8\"><meta name=\"viewport\" content=\"width=device-width\"><title>"@
        + escaped(title) + " \u{2013} "@ + escaped(name)
        + "</title><link rel=\"stylesheet\" href=\""@ + escaped(
        joined(root.push("rustagit.css"@)),
    ) + "\"></head>"@
}

pub open spec fn description_markup(description: Seq<char>) -> Seq<char> {
    if description.len() == 0 {
        Seq::empty()
    } else {
        "<p>"@ + escaped(description) + "</p>"@
    }
}

pub open spec fn clone_markup(clone_url: Seq<char>) -> Seq<char> {
    if clone_url.len() == 0 {
        Seq::empty()
    } else {
        "<pre>git clone <a href=\""@ + escaped(clone_url) + "\">"@ + escaped(clone_url)
            + "</a></pre>"@
    }
}

pub open spec fn nav_links(root: Seq<Seq<char>>) -> Seq<char> {
    "<ul class=\"inline\"><li><a href=\""@ + escaped(joined(root.push("log.html"@)))
        + "\">Commits</a></li><li><a href=\""@ + escaped(
        joined(root.push("tree"@).push("index.htm"@)),
    ) + "\">Files</a></li><li><a href=\""@ + escaped(joined(root.push("refs.html"@)))
        + "\">Branches and tags</a></li></ul>"@
}

pub open spec fn footer_markup() -> Seq<char> {
    "<footer>Powered by <a href=\"https://git.hinata.iscute.ovh/rustagit/\">Rustagit, static git browser generator</a></footer></body></html>"@
}

/// A whole page: its title, the shared navigation with every link to a root-level page
/// led through `root`, and `content`.
#[verifier::opaque]
pub open spec fn document(
    name: Seq<char>,
    description: Seq<char>,
    clone_url: Seq<char>,
    title: Seq<char>,
    root: Seq<Seq<char>>,
    content: Seq<char>,
) -> Seq<char> {
    head_markup(title, name, root) + "<body><nav><h1>"@ + escaped(name) + "</h1>"@
        + description_markup(description) + clone_markup(clone_url) + nav_links(root)
        + "</nav><main>"@ + content + "</main>"@ + footer_markup()
}

/// The steps of a run, or of a part of one, up to its first failure, and that failure.
pub struct Trace {
    pub steps: Seq<Written>,
    pub failure: Option<Failure>,
}

/// The steps `steps`, all done.
pub open spec fn done(steps: Seq<Written>) -> Trace {
    Trace { steps, failure: None }
}

/// A failure before any step.
pub open spec fn failed(f: Failure) -> Trace {
    Trace { steps: Seq::empty(), failure: Some(f) }
}

/// `a`, and then `b` where `a` did not fail.
pub open spec fn then(a: Trace, b: Trace) -> Trace {
    if a.failure is Some {
        a
    } else {
        Trace { steps: a.steps + b.steps, failure: b.failure }
    }
}

/// One step that may fail.
pub open spec fn step(r: Result<Written, Failure>) -> Trace {
    match r {
        Ok(w) => done(seq![w]),
        Err(f) => failed(f),
    }
}

/// The steps `outs` as locations, characters and bytes.
pub open spec fn views(outs: Seq<Output>) -> Seq<Written> {
    outs.map_values(|o: Output| o@)
}

/// Whether `after` is `before` followed by the steps of `t`, and `r` reports exactly
/// the failure of `t`.
pub open spec fn follows(before: Seq<Output>, after: Seq<Output>, t: Trace, r: Result<(), SiteError>) -> bool {
    &&& views(after) == views(before) + t.steps
    &&& (r is Ok <==> t.failure is None)
    &&& (r matches Err(e) ==> t.failure == Some(e@))
}

proof fn lemma_follows_then(a: Seq<Output>, b: Seq<Output>, c: Seq<Output>, t1: Trace, t2: Trace, r: Result<(), SiteError>)
    requires
        follows(a, b, t1, Ok(())),
        follows(b, c, t2, r),
    ensures
        follows(a, c, then(t1, t2), r),
{
    assert(views(c) =~= views(a) + then(t1, t2).steps);
}

proof fn lemma_follows_stop(a: Seq<Output>, b: Seq<Output>, t1: Trace, t2: Trace, r: Result<(), SiteError>)
    requires
        follows(a, b, t1, r),
        r is Err,
    ensures
        follows(a, b, then(t1, t2), r),
{
}

proof fn lemma_follows_push(a: Seq<Output>, o: Output)
    ensures
        follows(a, a.push(o), done(seq![o@]), Ok(())),
{
    assert(views(a.push(o)) =~= views(a) + seq![o@]);
}

proof fn lemma_follows_none(a: Seq<Output>)
    ensures
        follows(a, a, done(Seq::empty()), Ok(())),
{
    assert(views(a) =~= views(a) + Seq::<Written>::empty());
}

/// Renders a repository's commits and head tree into the pages of a site under `url`.
pub struct Templator {
    pub name: String,
    pub description: String,
    pub clone_url: String,
    pub url: UrlResolver,
    pub highlighter: Highlighter,
}

impl Templator {
    pub fn new(
        name: String,
        description: String,
        clone_url: String,
        url: UrlResolver,
        highlighter: Highlighter,
    ) -> (r: Self)
        ensures
            r.name == name,
            r.description == description,
            r.clone_url == clone_url,
            r.url@ == url@,
    {
        Templator { name, description, clone_url, url, highlighter }
    }

    /// Whether `page` lies below the destination root.
    pub open spec fn below_root(&self, page: Seq<Seq<char>>) -> bool {
        &&& self.url@.len() < page.len()
        &&& page.take(self.url@.len() as int) == self.url@
    }

    /// The way back to the destination root from the directory of `page`.
    pub open spec fn root_from(&self, page: Seq<Seq<char>>) -> Seq<Seq<char>> {
        escape_parts((page.len() - self.url@.len() - 1) as nat)
    }

    /// The whole page at `page` with the title `title` around `content`.
    pub open spec fn page_markup(&self, title: Seq<char>, page: Seq<Seq<char>>, content: Seq<char>) -> Seq<char> {
        document(
            self.name@,
            self.description@,
            self.clone_url@,
            title,
            self.root_from(page),
            content,
        )
    }

    pub open spec fn style_location(&self) -> Seq<Seq<char>> {
        self.url@.push("rustagit.css"@)
    }

    pub open spec fn log_location(&self) -> Seq<Seq<char>> {
        self.url@.push("log.html"@)
    }

    pub open spec fn commit_location(&self, id: Seq<char>) -> Seq<Seq<char>> {
        self.url@.push("commit"@).push(id + ".html"@)
    }

    /// The directory that mirrors the tree path `path`.
    pub open spec fn tree_location(&self, path: Seq<Seq<char>>) -> Seq<Seq<char>> {
        self.url@.push("tree"@) + path
    }

    /// The index page of the directory at the tree path `path`. Its name does not end
    /// in `.html`, so no file's page can take it.
    pub open spec fn index_location(&self, path: Seq<Seq<char>>) -> Seq<Seq<char>> {
        self.tree_location(path).push("index.htm"@)
    }

    /// The page of the file at the (non-empty) tree path `path`.
    pub open spec fn file_location(&self, path: Seq<Seq<char>>) -> Seq<Seq<char>> {
        self.tree_location(path.drop_last()).push(path.last() + ".html"@)
    }

    /// The first steps of a run: the destination, the directory of commit pages, and
    /// the stylesheet where none is there yet.
    pub open spec fn prelude_trace(&self) -> Trace {
        done(
            seq![
                Written::Dir(self.url@),
                Written::Dir(self.url@.push("commit"@)),
                Written::Stylesheet(self.style_location(), DEFAULT_CSS@),
            ],
        )
    }

    /// The commit log page: one row per commit, in the order given.
    pub open spec fn log_plan(&self, cis: Seq<CommitInfo>) -> Result<Written, Failure> {
        match log_rows(cis, escape_parts(0)) {
            Err(f) => Err(f),
            Ok(rows) => Ok(
                Written::Page(
                    self.log_location(),
                    self.page_markup("Commit log"@, self.log_location(), log_table(rows)),
                ),
            ),
        }
    }

    /// The page of one commit.
    pub open spec fn commit_plan(&self, ci: CommitInfo) -> Result<Written, Failure> {
        match commit_content(ci, escape_parts(1)) {
            Err(f) => Err(f),
            Ok(c) => Ok(
                Written::Page(
                    self.commit_location(ci.id@),
                    self.page_markup("Commit "@ + ci.id@, self.commit_location(ci.id@), c),
                ),
            ),
        }
    }

    /// The pages of the commits, in the order given, up to the first failure.
    pub open spec fn commits_trace(&self, cis: Seq<CommitInfo>) -> Trace
        decreases cis.len(),
    {
        if cis.len() == 0 {
            done(Seq::empty())
        } else {
            then(self.commits_trace(cis.drop_last()), step(self.commit_plan(cis.last())))
        }
    }

    /// The page of the file at the tree path `path`: for text, the page around its
    /// highlighted markup; otherwise a raw copy beside the page and a notice linking to it.
    pub open spec fn leaf_trace(&self, path: Seq<Seq<char>>, content: Seq<u8>) -> Trace {
        let page = self.file_location(path);
        let title = tree_title(path);
        if valid_utf8(content) {
            match highlighted(path.last(), decode_utf8(content)) {
                Some(m) => done(seq![Written::Page(page, self.page_markup(title, page, m))]),
                None => failed(Failure::Highlight(title)),
            }
        } else {
            done(
                seq![
                    Written::Raw(self.tree_location(path), content),
                    Written::Page(page, self.page_markup(title, page, binary_notice(path.last()))),
                ],
            )
        }
    }

    /// The mirror of the directory at the tree path `path` and its index page, which
    /// lists the entries `es`; a failure where a name cannot be used, or where two
    /// entries, or an entry and the index page, would take one name in the mirror.
    pub open spec fn branch_trace(&self, path: Seq<Seq<char>>, es: Seq<TreeEntry>) -> Trace {
        let index = self.index_location(path);
        match listing(self.root_from(index), path, es) {
            Err(f) => failed(f),
            Ok(c) => if layout_ok(es) {
                done(
                    seq![
                        Written::Dir(self.tree_location(path)),
                        Written::Page(index, self.page_markup(tree_title(path), index, c)),
                    ],
                )
            } else {
                failed(Failure::ObjectRead(tree_title(path)))
            },
        }
    }

    /// The directory at the tree path `path` with the entries `es`: its index page, then
    /// each entry in stored order, subdirectories depth first, up to the first failure.
    pub open spec fn dir_trace(&self, path: Seq<Seq<char>>, es: Seq<TreeEntry>) -> Trace
        decreases es, 1nat,
    {
        then(self.branch_trace(path, es), self.entries_trace(path, es))
    }

    /// The entries `es` of the directory at `path`, one after the other.
    pub open spec fn entries_trace(&self, path: Seq<Seq<char>>, es: Seq<TreeEntry>) -> Trace
        decreases es, 0nat,
    {
        if es.len() == 0 {
            done(Seq::empty())
        } else {
            then(
                self.entries_trace(path, es.drop_last()),
                match name_check(es.last(), tree_title(path)) {
                    Some(f) => failed(f),
                    None => {
                        let child = path.push(entry_name(es.last()));
                        match es.last().node {
                            TreeNode::Directory(v) => self.dir_trace(child, v@),
                            TreeNode::File(b) => self.leaf_trace(child, b@),
                            TreeNode::Other => done(Seq::empty()),
                        }
                    },
                },
            )
        }
    }

    /// The history part of a run: the first steps, the commit log and the commit pages.
    pub open spec fn history_trace(&self, cis: Seq<CommitInfo>) -> Trace {
        then(self.prelude_trace(), then(step(self.log_plan(cis)), self.commits_trace(cis)))
    }

    /// The whole run: the history, then the mirror of the head tree.
    pub open spec fn site_trace(&self, cis: Seq<CommitInfo>, root: Seq<TreeEntry>) -> Trace {
        then(self.history_trace(cis), self.dir_trace(Seq::empty(), root))
    }
}

impl Templator {
    /// The whole page at `path`, titled `title`, around `content`.
    #[verifier::rlimit(30)]
    fn template_page(&self, title: &str, path: &UrlResolver, content: &str) -> (r: String)
        requires
            self.below_root(path@),
        ensures
            r@ == self.page_markup(title@, path@, content@),
    {
        let root = self.url.rel_root_from(path);
        let style = root.style_css().to_text();
        let log = root.commit_log().to_text();
        let files = root.tree_index().to_text();
        let refs = root.refs_list().to_text();
        let mut out = String::new();
        out.append("<!DOCTYPE html><html><head><meta charset=\"utf-8\"><meta name=\"viewport\" content=\"width=device-width\"><title>");
        push_escaped(&mut out, title);
        out.append(" \u{2013} ");
        push_escaped(&mut out, self.name.as_str());
        out.append("</title><link rel=\"stylesheet\" href=\"");
        push_escaped(&mut out, style.as_str());
        out.append("\"></head>");
        assert(out@ =~= head_markup(title@, self.name@, root@));
        let ghost head = out@;
        out.append("<body><nav><h1>");
        push_escaped(&mut out, self.name.as_str());
        out.append("</h1>");
        let ghost before_description = out@;
        if self.description.as_str().is_empty() {
            assert(description_markup(self.description@) =~= Seq::<char>::empty());
        } else {
            out.append("<p>");
            push_escaped(&mut out, self.description.as_str());
            out.append("</p>");
        }
        assert(out@ =~= before_description + description_markup(self.description@));
        let ghost before_clone = out@;
        if self.clone_url.as_str().is_empty() {
            assert(clone_markup(self.clone_url@) =~= Seq::<char>::empty());
        } else {
            out.append("<pre>git clone <a href=\"");
            push_escaped(&mut out, self.clone_url.as_str());
            out.append("\">");
            push_escaped(&mut out, self.clone_url.as_str());
            out.append("</a></pre>");
        }
        assert(out@ =~= before_clone + clone_markup(self.clone_url@));
        let ghost before_links = out@;
        out.append("<ul class=\"inline\"><li><a href=\"");
        push_escaped(&mut out, log.as_str());
        out.append("\">Commits</a></li><li><a href=\"");
        push_escaped(&mut out, files.as_str());
        out.append("\">Files</a></li><li><a href=\"");
        push_escaped(&mut out, refs.as_str());
        out.append("\">Branches and tags</a></li></ul>");
        assert(out@ =~= before_links + nav_links(root@));
        out.append("</nav><main>");
        out.append(content);
        out.append("</main>");
        out.append("<footer>Powered by <a href=\"https://git.hinata.iscute.ovh/rustagit/\">Rustagit, static git browser generator</a></footer></body></html>");
        assert(out@ =~= self.page_markup(title@, path@, content@)) by {
            reveal(document);
        }
        out
    }

    fn precreate_dirs(&self, out: &mut Vec<Output>)
        ensures
            follows(old(out)@, final(out)@, done(self.prelude_trace().steps.take(2)), Ok(())),
    {
        let ghost start = out@;
        let root = self.url.clone();
        out.push(Output::Dir(root));
        out.push(Output::Dir(self.url.commit_dir()));
        assert(views(out@) =~= views(start) + self.prelude_trace().steps.take(2));
    }

    fn write_default_css_if_not_exists(&self, out: &mut Vec<Output>)
        ensures
            follows(old(out)@, final(out)@, done(self.prelude_trace().steps.skip(2)), Ok(())),
    {
        let ghost start = out@;
        out.push(Output::Stylesheet(self.url.style_css(), DEFAULT_CSS.to_owned()));
        assert(views(out@) =~= views(start) + self.prelude_trace().steps.skip(2));
    }

    fn write_commit_log(&self, cis: &Vec<CommitInfo>, out: &mut Vec<Output>) -> (r: Result<(), SiteError>)
        ensures
            follows(old(out)@, final(out)@, step(self.log_plan(cis@)), r),
    {
        let path = self.url.commit_log();
        assert(path@.take(self.url@.len() as int) =~= self.url@);
        let root = self.url.rel_root_from(&path);
        let table = match log_markup(cis, &root) {
            Ok(t) => t,
            Err(e) => {
                proof {
                    lemma_follows_none(out@);
                }
                return Err(e);
            },
        };
        let page = self.template_page("Commit log", &path, table.as_str());
        let ghost start = out@;
        out.push(Output::Page(path, page));
        proof {
            lemma_follows_push(start, out@.last());
            assert(start.push(out@.last()) =~= out@);
        }
        Ok(())
    }

    /// Adds the page of the commit `ci` to `out`, or fails, adding nothing, where one of
    /// its texts is not text.
    pub fn write_commit(&self, ci: &CommitInfo, out: &mut Vec<Output>) -> (r: Result<(), SiteError>)
        ensures
            follows(old(out)@, final(out)@, step(self.commit_plan(*ci)), r),
    {
        let path = self.url.commit_file(ci.id.as_str());
        assert(path@.take(self.url@.len() as int) =~= self.url@);
        let root = self.url.rel_root_from(&path);
        let content = match commit_markup_text(ci, &root) {
            Ok(c) => c,
            Err(e) => {
                proof {
                    lemma_follows_none(out@);
                }
                return Err(e);
            },
        };
        let mut title = String::new();
        title.append("Commit ");
        title.append(ci.id.as_str());
        let page = self.template_page(title.as_str(), &path, content.as_str());
        let ghost start = out@;
        out.push(Output::Page(path, page));
        proof {
            lemma_follows_push(start, out@.last());
            assert(start.push(out@.last()) =~= out@);
        }
        Ok(())
    }

    /// Adds the page of each commit of `cis` to `out`, in order, up to the first failure;
    /// nothing follows a failure.
    pub fn write_all_commits(&self, cis: &Vec<CommitInfo>, out: &mut Vec<Output>) -> (r: Result<(), SiteError>)
        ensures
            follows(old(out)@, final(out)@, self.commits_trace(cis@), r),
    {
        let ghost start = out@;
        proof {
            lemma_follows_none(start);
        }
        let n = cis.len();
        for i in 0..n
            invariant
                n == cis@.len(),
                start == old(out)@,
                follows(start, out@, self.commits_trace(cis@.take(i as int)), Ok(())),
        {
            assert(cis@.take(i + 1).drop_last() =~= cis@.take(i as int));
            assert(cis@.take(i + 1).last() == cis@[i as int]);
            let ghost before = out@;
            let r = self.write_commit(&cis[i], out);
            proof {
                lemma_follows_then(start, before, out@, self.commits_trace(cis@.take(i as int)), step(self.commit_plan(cis@[i as int])), r);
            }
            if r.is_err() {
                proof {
                    lemma_commits_trace_stops(*self, cis@, (i + 1) as nat);
                }
                return r;
            }
        }
        assert(cis@.take(n as int) =~= cis@);
        Ok(())
    }

    /// Adds the first steps of a run to `out`: the destination and commit directories,
    /// and the stylesheet where none is there.
    pub fn write_prelude(&self, out: &mut Vec<Output>)
        ensures
            follows(old(out)@, final(out)@, self.prelude_trace(), Ok(())),
    {
        let ghost start = out@;
        self.precreate_dirs(out);
        let ghost a = out@;
        self.write_default_css_if_not_exists(out);
        proof {
            lemma_follows_then(start, a, out@, done(self.prelude_trace().steps.take(2)), done(self.prelude_trace().steps.skip(2)), Ok(()));
            assert(self.prelude_trace().steps.take(2) + self.prelude_trace().steps.skip(2) =~= self.prelude_trace().steps);
            assert(then(done(self.prelude_trace().steps.take(2)), done(self.prelude_trace().steps.skip(2))) == self.prelude_trace());
        }
    }

    /// Adds the commit log and then one page per commit to `out`, up to the first failure.
    pub fn write_log_and_commits(&self, cis: &Vec<CommitInfo>, out: &mut Vec<Output>) -> (r: Result<(), SiteError>)
        ensures
            follows(old(out)@, final(out)@, then(step(self.log_plan(cis@)), self.commits_trace(cis@)), r),
    {
        let ghost b = out@;
        let r = self.write_commit_log(cis, out);
        let ghost c = out@;
        if r.is_err() {
            proof {
                lemma_follows_stop(b, c, step(self.log_plan(cis@)), self.commits_trace(cis@), r);
            }
            return r;
        }
        let r2 = self.write_all_commits(cis, out);
        proof {
            lemma_follows_then(b, c, out@, step(self.log_plan(cis@)), self.commits_trace(cis@), r2);
        }
        r2
    }

    /// Adds the history part of a run to `out`: the destination and commit directories,
    /// the stylesheet where none is there, the commit log and one page per commit, up to
    /// the first failure.
    pub fn write_history(&self, cis: &Vec<CommitInfo>, out: &mut Vec<Output>) -> (r: Result<(), SiteError>)
        ensures
            follows(old(out)@, final(out)@, self.history_trace(cis@), r),
    {
        let ghost start = out@;
        self.write_prelude(out);
        let ghost b = out@;
        let r = self.write_log_and_commits(cis, out);
        proof {
            lemma_follows_then(start, b, out@, self.prelude_trace(), then(step(self.log_plan(cis@)), self.commits_trace(cis@)), r);
        }
        r
    }
}

proof fn lemma_commits_trace_stops(t: Templator, cis: Seq<CommitInfo>, k: nat)
    requires
        k <= cis.len(),
        t.commits_trace(cis.take(k as int)).failure is Some,
    ensures
        t.commits_trace(cis) == t.commits_trace(cis.take(k as int)),
    decreases cis.len(),
{
    if k < cis.len() {
        assert(cis.drop_last().take(k as int) =~= cis.take(k as int));
        lemma_commits_trace_stops(t, cis.drop_last(), k);
    } else {
        assert(cis.take(k as int) =~= cis);
    }
}


/// `path` followed by `name`.
fn child_path(path: &Vec<String>, name: String) -> (r: Vec<String>)
    ensures
        names(r@) == names(path@).push(name@),
{
    let mut r: Vec<String> = Vec::new();
    let n = path.len();
    for i in 0..n
        invariant
            n == path@.len(),
            r@.len() == i,
            forall|j: int| 0 <= j < i ==> #[trigger] r@[j]@ == path@[j]@,
    {
        let c = path[i].clone();
        r.push(c);
    }
    assert(names(r@) =~= names(path@));
    let ghost before = r@;
    r.push(name);
    assert(names(r@) =~= names(before).push(name@));
    r
}


proof fn lemma_entries_trace_stops(t: Templator, path: Seq<Seq<char>>, es: Seq<TreeEntry>, k: nat)
    requires
        k <= es.len(),
        t.entries_trace(path, es.take(k as int)).failure is Some,
    ensures
        t.entries_trace(path, es) == t.entries_trace(path, es.take(k as int)),
    decreases es.len(),
{
    if k < es.len() {
        assert(es.drop_last().take(k as int) =~= es.take(k as int));
        lemma_entries_trace_stops(t, path, es.drop_last(), k);
    } else {
        assert(es.take(k as int) =~= es);
    }
}

impl Templator {
    /// Adds the mirror directory of the tree path `path` and its index page, listing
    /// `entries`, to `out`; fails, adding nothing, where a name cannot be used.
    pub fn write_tree_branch(&self, path: &Vec<String>, entries: &Vec<TreeEntry>, out: &mut Vec<Output>) -> (r: Result<(), SiteError>)
        ensures
            follows(old(out)@, final(out)@, self.branch_trace(names(path@), entries@), r),
    {
        let ghost p = names(path@);
        let title = tree_title_text(path);
        let dir = self.url.tree_path(path);
        let index = dir.join("index.htm");
        assert(index@.take(self.url@.len() as int) =~= self.url@);
        let root = self.url.rel_root_from(&index);
        let content = match listing_markup(&root, path, entries) {
            Ok(c) => c,
            Err(e) => {
                proof {
                    lemma_follows_none(out@);
                }
                return Err(e);
            },
        };
        proof {
            lemma_listing_names(root@, p, entries@);
        }
        let mut entry_names: Vec<String> = Vec::new();
        let n = entries.len();
        for i in 0..n
            invariant
                n == entries@.len(),
                title@ == tree_title(p),
                entry_names@.len() == i,
                forall|k: int| 0 <= k < i ==> (#[trigger] entry_names@[k])@ == entry_name(entries@[k]),
                forall|k: int| 0 <= k < n ==> name_check(#[trigger] entries@[k], tree_title(p)) is None,
        {
            match checked_name(&entries[i], &title) {
                Ok(name) => entry_names.push(name),
                Err(e) => {
                    assert(name_check(entries@[i as int], tree_title(p)) is None);
                    return Err(e);
                },
            }
        }
        if !layout_free(entries, &entry_names) {
            proof {
                lemma_follows_none(out@);
            }
            return Err(SiteError::ObjectRead(title));
        }
        let page = self.template_page(title.as_str(), &index, content.as_str());
        let ghost start = out@;
        out.push(Output::Dir(dir));
        out.push(Output::Page(index, page));
        assert(views(out@) =~= views(start) + self.branch_trace(p, entries@).steps);
        Ok(())
    }

    /// Adds the page of the file at the tree path `path`, holding `content`, to `out`:
    /// for text, the page around the highlighter's markup; otherwise a raw copy of the
    /// bytes beside the page and a notice linking to it. Text and binary are told apart
    /// by decoding alone. Fails, adding nothing, only where the highlighter does.
    pub fn write_tree_leaf(&self, path: &Vec<String>, content: &Vec<u8>, out: &mut Vec<Output>) -> (r: Result<(), SiteError>)
        requires
            path@.len() > 0,
            plain_component(path@.last()@),
        ensures
            follows(old(out)@, final(out)@, self.leaf_trace(names(path@), content@), r),
    {
        let ghost p = names(path@);
        let name = &path[path.len() - 1];
        let title = tree_title_text(path);
        let raw = self.url.tree_path(path);
        let page_at = raw.dot_html();
        proof {
            assert(raw@ =~= self.tree_location(p));
            assert(p.last() == name@);
            assert(page_at@ =~= self.file_location(p));
            assert(page_at@.take(self.url@.len() as int) =~= self.url@);
        }
        let ghost start = out@;
        match crate::text::decode_text(content) {
            Ok(text) => {
                match self.highlighter.highlight(name.as_str(), text.as_str()) {
                    Some(markup) => {
                        let page = self.template_page(title.as_str(), &page_at, markup.as_str());
                        out.push(Output::Page(page_at, page));
                        assert(views(out@) =~= views(start) + self.leaf_trace(p, content@).steps);
                        Ok(())
                    },
                    None => {
                        proof {
                            lemma_follows_none(out@);
                        }
                        Err(SiteError::Highlight(title))
                    },
                }
            },
            Err(_) => {
                let notice = binary_notice_text(name.as_str());
                let page = self.template_page(title.as_str(), &page_at, notice.as_str());
                let mut bytes: Vec<u8> = Vec::new();
                let n = content.len();
                for i in 0..n
                    invariant
                        n == content@.len(),
                        bytes@ == content@.take(i as int),
                {
                    bytes.push(content[i]);
                    assert(bytes@ =~= content@.take(i + 1));
                }
                assert(content@.take(n as int) =~= content@);
                out.push(Output::Raw(raw, bytes));
                out.push(Output::Page(page_at, page));
                assert(views(out@) =~= views(start) + self.leaf_trace(p, content@).steps);
                Ok(())
            },
        }
    }

    /// Adds the mirror of the directory at the tree path `path`, with the entries
    /// `entries`, to `out`: its index page, then each entry in stored order, the
    /// subdirectories depth first. Nothing follows the first failure.
    fn write_dir(&self, path: &Vec<String>, entries: &Vec<TreeEntry>, out: &mut Vec<Output>) -> (r: Result<(), SiteError>)
        ensures
            follows(old(out)@, final(out)@, self.dir_trace(names(path@), entries@), r),
        decreases entries@,
    {
        let ghost p = names(path@);
        let ghost start = out@;
        let rb = self.write_tree_branch(path, entries, out);
        if rb.is_err() {
            proof {
                lemma_follows_stop(start, out@, self.branch_trace(p, entries@), self.entries_trace(p, entries@), rb);
            }
            return rb;
        }
        let ghost mid = out@;
        let title = tree_title_text(path);
        proof {
            lemma_follows_none(mid);
        }
        let n = entries.len();
        for i in 0..n
            invariant
                n == entries@.len(),
                p == names(path@),
                title@ == tree_title(p),
                start == old(out)@,
                follows(start, mid, self.branch_trace(p, entries@), Ok(())),
                follows(mid, out@, self.entries_trace(p, entries@.take(i as int)), Ok(())),
        {
            let ghost before = out@;
            let ghost done_so_far = self.entries_trace(p, entries@.take(i as int));
            assert(entries@.take(i + 1).drop_last() =~= entries@.take(i as int));
            assert(entries@.take(i + 1).last() == entries@[i as int]);
            let name = match checked_name(&entries[i], &title) {
                Ok(name) => name,
                Err(f) => {
                    proof {
                        lemma_follows_none(out@);
                        lemma_follows_then(mid, before, out@, done_so_far, failed(f@), Err(f));
                        lemma_entries_trace_stops(*self, p, entries@, (i + 1) as nat);
                        lemma_follows_then(start, mid, out@, self.branch_trace(p, entries@), self.entries_trace(p, entries@), Err(f));
                    }
                    return Err(f);
                },
            };
            let child = child_path(path, name);
            let r = match &entries[i].node {
                TreeNode::Directory(v) => {
                    proof {
                        assert(decreases_to!(entries@ => entries@[i as int]));
                    }
                    self.write_dir(&child, v, out)
                },
                TreeNode::File(b) => {
                    assert(names(child@).last() == child@.last()@);
                    self.write_tree_leaf(&child, b, out)
                },
                TreeNode::Other => {
                    proof {
                        lemma_follows_none(out@);
                    }
                    Ok(())
                },
            };
            proof {
                let e = entries@[i as int];
                let child_p = p.push(entry_name(e));
                assert(names(child@) == child_p);
                let et = match e.node {
                    TreeNode::Directory(v) => self.dir_trace(child_p, v@),
                    TreeNode::File(b) => self.leaf_trace(child_p, b@),
                    TreeNode::Other => done(Seq::empty()),
                };
                assert(follows(before, out@, et, r));
                assert(self.entries_trace(p, entries@.take(i + 1)) == then(done_so_far, et));
                lemma_follows_then(mid, before, out@, done_so_far, et, r);
            }
            if r.is_err() {
                proof {
                    lemma_entries_trace_stops(*self, p, entries@, (i + 1) as nat);
                    lemma_follows_then(start, mid, out@, self.branch_trace(p, entries@), self.entries_trace(p, entries@), r);
                }
                return r;
            }
        }
        proof {
            assert(entries@.take(n as int) =~= entries@);
            lemma_follows_then(start, mid, out@, self.branch_trace(p, entries@), self.entries_trace(p, entries@), Ok(()));
        }
        Ok(())
    }

    /// Adds the mirror of the head tree, whose root holds `root`, to `out`: every
    /// reachable entry once, in stored order, subdirectories depth first. Nothing follows
    /// the first failure.
    pub fn write_all_tree_nodes(&self, root: &Vec<TreeEntry>, out: &mut Vec<Output>) -> (r: Result<(), SiteError>)
        ensures
            follows(old(out)@, final(out)@, self.dir_trace(Seq::empty(), root@), r),
    {
        let path: Vec<String> = Vec::new();
        assert(names(path@) =~= Seq::<Seq<char>>::empty());
        self.write_dir(&path, root, out)
    }

    /// Adds every step of the run to `out`, in order: the destination and commit
    /// directories, the stylesheet where none is there, the commit log, one page per
    /// commit, and the mirror of the head tree. Succeeds where every step does; nothing
    /// follows the first failure, and the steps added before it stay.
    pub fn generate(&self, cis: &Vec<CommitInfo>, root: &Vec<TreeEntry>, out: &mut Vec<Output>) -> (r: Result<(), SiteError>)
        ensures
            follows(old(out)@, final(out)@, self.site_trace(cis@, root@), r),
    {
        let ghost start = out@;
        let r = self.write_history(cis, out);
        let ghost a = out@;
        if r.is_err() {
            proof {
                lemma_follows_stop(start, a, self.history_trace(cis@), self.dir_trace(Seq::empty(), root@), r);
            }
            return r;
        }
        let r2 = self.write_all_tree_nodes(root, out);
        proof {
            lemma_follows_then(start, a, out@, self.history_trace(cis@), self.dir_trace(Seq::empty(), root@), r2);
        }
        r2
    }
}

} // verus!
