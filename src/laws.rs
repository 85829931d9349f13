//! What holds of every run of the site generator.

use vstd::prelude::*;
use vstd::utf8::{decode_utf8, valid_utf8};
use crate::commit::{log_row, log_rows, CommitInfo};
use crate::error::Failure;
use crate::highlight::highlighted;
use crate::site::{done, then, Templator, Trace, Written};
use crate::tree::{binary_notice, entry_name, index_name, layout_ok, occupies, tree_title, TreeEntry, TreeNode};
use crate::url::escape_parts;

verus! {

/// No file's page takes the location of a directory's index page, and a file and a
/// directory of the same name in the same directory never share a location: the file's
/// page is neither the directory's index page nor the directory's mirror.
pub proof fn lemma_file_and_directory_apart(
    t: Templator,
    dir: Seq<Seq<char>>,
    name: Seq<char>,
    other: Seq<Seq<char>>,
)
    ensures
        t.file_location(dir.push(name)) != t.index_location(other),
        t.file_location(dir.push(name)) != t.index_location(dir.push(name)),
        t.file_location(dir.push(name)) != t.tree_location(dir.push(name)),
{
    let path = dir.push(name);
    assert(path.drop_last() =~= dir);
    let file = t.file_location(path);
    reveal_strlit(".html");
    reveal_strlit("index.htm");
    assert(file.last() == name + ".html"@);
    assert(file.last().last() == 'l');
    assert(t.index_location(other).last().last() == 'm');
    assert(t.tree_location(path).last() == name);
    assert((name + ".html"@).len() != name.len());
}

/// A file that is not text gets a raw copy of exactly its bytes, in the same directory
/// as its page and under the file's own name, and a page holding the notice that links
/// to that copy. A file that is text gets no raw copy: its page holds the highlighter's
/// markup for it, or the run stops there with the highlighter's failure.
pub proof fn lemma_binary_and_text_files(t: Templator, path: Seq<Seq<char>>, content: Seq<u8>)
    requires
        path.len() > 0,
    ensures
        !valid_utf8(content) ==> t.leaf_trace(path, content) == done(
            seq![
                Written::Raw(t.tree_location(path), content),
                Written::Page(
                    t.file_location(path),
                    t.page_markup(tree_title(path), t.file_location(path), binary_notice(path.last())),
                ),
            ],
        ),
        t.tree_location(path).drop_last() == t.file_location(path).drop_last(),
        t.tree_location(path).last() == path.last(),
        valid_utf8(content) && highlighted(path.last(), decode_utf8(content)) is Some ==> t.leaf_trace(
            path,
            content,
        ) == done(
            seq![
                Written::Page(
                    t.file_location(path),
                    t.page_markup(
                        tree_title(path),
                        t.file_location(path),
                        highlighted(path.last(), decode_utf8(content))->Some_0,
                    ),
                ),
            ],
        ),
        valid_utf8(content) && highlighted(path.last(), decode_utf8(content)) is None ==> t.leaf_trace(
            path,
            content,
        ).steps.len() == 0 && t.leaf_trace(path, content).failure == Some(Failure::Highlight(tree_title(path))),
{
    assert(t.tree_location(path).drop_last() =~= t.tree_location(path.drop_last()));
}

proof fn lemma_log_rows_each(cis: Seq<CommitInfo>, root: Seq<Seq<char>>)
    requires
        log_rows(cis, root) is Ok,
    ensures
        log_rows(cis, root)->Ok_0.len() == cis.len(),
        forall|i: int|
            0 <= i < cis.len() ==> log_row(cis[i], root) == Ok::<Seq<char>, Failure>(
                #[trigger] log_rows(cis, root)->Ok_0[i],
            ),
    decreases cis.len(),
{
    if cis.len() > 0 {
        lemma_log_rows_each(cis.drop_last(), root);
        assert forall|i: int| 0 <= i < cis.len() implies log_row(cis[i], root) == Ok::<
            Seq<char>,
            Failure,
        >(#[trigger] log_rows(cis, root)->Ok_0[i]) by {
            if i < cis.len() - 1 {
                assert(cis.drop_last()[i] == cis[i]);
            }
        }
    }
}

proof fn lemma_commits_trace_each(t: Templator, cis: Seq<CommitInfo>)
    requires
        t.commits_trace(cis).failure is None,
    ensures
        t.commits_trace(cis).steps.len() == cis.len(),
        forall|i: int|
            0 <= i < cis.len() ==> t.commit_plan(cis[i]) == Ok::<Written, Failure>(
                #[trigger] t.commits_trace(cis).steps[i],
            ),
    decreases cis.len(),
{
    if cis.len() > 0 {
        lemma_commits_trace_each(t, cis.drop_last());
        assert forall|i: int| 0 <= i < cis.len() implies t.commit_plan(cis[i]) == Ok::<
            Written,
            Failure,
        >(#[trigger] t.commits_trace(cis).steps[i]) by {
            if i < cis.len() - 1 {
                assert(cis.drop_last()[i] == cis[i]);
            }
        }
    }
}

/// A run that fails nowhere is its first steps, the log page, the commit pages and the
/// tree, in that order.
proof fn lemma_site_trace_parts(t: Templator, cis: Seq<CommitInfo>, root: Seq<TreeEntry>)
    requires
        t.site_trace(cis, root).failure is None,
    ensures
        t.log_plan(cis) is Ok,
        t.commits_trace(cis).failure is None,
        t.dir_trace(Seq::empty(), root).failure is None,
        t.site_trace(cis, root).steps == t.prelude_trace().steps + seq![t.log_plan(cis)->Ok_0]
            + t.commits_trace(cis).steps + t.dir_trace(Seq::empty(), root).steps,
        t.prelude_trace().steps.len() == 3,
{
    assert(t.site_trace(cis, root).steps =~= t.prelude_trace().steps + seq![t.log_plan(cis)->Ok_0]
        + t.commits_trace(cis).steps + t.dir_trace(Seq::empty(), root).steps);
}

/// A run over N commits that fails nowhere writes a log page with exactly N rows, the
/// i-th for the i-th commit in the order given, and exactly N commit pages after it,
/// the i-th at the location named by the i-th commit's id.
pub proof fn lemma_one_row_and_page_per_commit(t: Templator, cis: Seq<CommitInfo>, root: Seq<TreeEntry>)
    requires
        t.site_trace(cis, root).failure is None,
    ensures
        log_rows(cis, escape_parts(0)) is Ok,
        log_rows(cis, escape_parts(0))->Ok_0.len() == cis.len(),
        forall|i: int|
            0 <= i < cis.len() ==> log_row(cis[i], escape_parts(0)) == Ok::<Seq<char>, Failure>(
                #[trigger] log_rows(cis, escape_parts(0))->Ok_0[i],
            ),
        t.site_trace(cis, root).steps[3] == t.log_plan(cis)->Ok_0,
        t.site_trace(cis, root).steps.len() >= 4 + cis.len(),
        forall|i: int|
            0 <= i < cis.len() ==> #[trigger] t.site_trace(cis, root).steps[4 + i] == t.commit_plan(
                cis[i],
            )->Ok_0,
        forall|i: int|
            0 <= i < cis.len() ==> ((#[trigger] t.commit_plan(cis[i])) matches Ok(Written::Page(at, _))
                && at == t.commit_location(cis[i].id@)),
{
    lemma_site_trace_parts(t, cis, root);
    lemma_log_rows_each(cis, escape_parts(0));
    lemma_commits_trace_each(t, cis);
    let ws = t.site_trace(cis, root).steps;
    let head = t.prelude_trace().steps + seq![t.log_plan(cis)->Ok_0];
    let pages = t.commits_trace(cis).steps;
    let tree = t.dir_trace(Seq::empty(), root).steps;
    assert(ws == head + pages + tree);
    assert(ws[3] == head[3]);
    assert forall|i: int| 0 <= i < cis.len() implies #[trigger] ws[4 + i] == t.commit_plan(cis[i])->Ok_0 by {
        assert((head + pages + tree)[4 + i] == pages[i]);
    }
    assert forall|i: int| 0 <= i < cis.len() implies ((#[trigger] t.commit_plan(cis[i])) matches Ok(
        Written::Page(at, _),
    ) && at == t.commit_location(cis[i].id@)) by {
        assert(t.commit_plan(cis[i]) == Ok::<Written, Failure>(pages[i]));
    }
}

/// What a file of the destination holds.
pub enum Stored {
    Text(Seq<char>),
    Bytes(Seq<u8>),
}

/// The files of the destination after the steps `ws`, starting from `fs`.
pub open spec fn apply(fs: Map<Seq<Seq<char>>, Stored>, ws: Seq<Written>) -> Map<Seq<Seq<char>>, Stored>
    decreases ws.len(),
{
    if ws.len() == 0 {
        fs
    } else {
        let prior = apply(fs, ws.drop_last());
        match ws.last() {
            Written::Dir(_) => prior,
            Written::Stylesheet(at, text) => if prior.contains_key(at) {
                prior
            } else {
                prior.insert(at, Stored::Text(text))
            },
            Written::Page(at, text) => prior.insert(at, Stored::Text(text)),
            Written::Raw(at, bytes) => prior.insert(at, Stored::Bytes(bytes)),
        }
    }
}

/// What a step that writes a file puts there.
pub open spec fn stored(w: Written) -> Stored {
    match w {
        Written::Raw(_, bytes) => Stored::Bytes(bytes),
        Written::Page(_, text) => Stored::Text(text),
        Written::Stylesheet(_, text) => Stored::Text(text),
        Written::Dir(_) => Stored::Bytes(Seq::empty()),
    }
}

/// The location that a step writes or creates.
pub open spec fn written_at(w: Written) -> Seq<Seq<char>> {
    match w {
        Written::Dir(at) => at,
        Written::Stylesheet(at, _) => at,
        Written::Page(at, _) => at,
        Written::Raw(at, _) => at,
    }
}

/// Whether a step, where it writes a file, writes it at least two levels below the
/// destination root.
pub open spec fn deep_write(t: Templator, w: Written) -> bool {
    match w {
        Written::Dir(_) => true,
        Written::Stylesheet(_, _) => false,
        Written::Page(at, _) => at.len() >= t.url@.len() + 2,
        Written::Raw(at, _) => at.len() >= t.url@.len() + 2,
    }
}

pub open spec fn all_deep(t: Templator, ws: Seq<Written>) -> bool {
    forall|i: int| 0 <= i < ws.len() ==> deep_write(t, #[trigger] ws[i])
}

proof fn lemma_all_deep_then(t: Templator, a: Trace, b: Trace)
    requires
        all_deep(t, a.steps),
        all_deep(t, b.steps),
    ensures
        all_deep(t, then(a, b).steps),
{
    if a.failure is None {
        assert forall|i: int| 0 <= i < (a.steps + b.steps).len() implies deep_write(
            t,
            #[trigger] (a.steps + b.steps)[i],
        ) by {
            if i < a.steps.len() {
                assert((a.steps + b.steps)[i] == a.steps[i]);
            } else {
                assert((a.steps + b.steps)[i] == b.steps[i - a.steps.len()]);
            }
        }
    }
}

proof fn lemma_dir_trace_deep(t: Templator, path: Seq<Seq<char>>, es: Seq<TreeEntry>)
    ensures
        all_deep(t, t.dir_trace(path, es).steps),
    decreases es, 1nat,
{
    let b = t.branch_trace(path, es);
    assert(all_deep(t, b.steps));
    lemma_entries_trace_deep(t, path, es);
    lemma_all_deep_then(t, b, t.entries_trace(path, es));
}

proof fn lemma_entries_trace_deep(t: Templator, path: Seq<Seq<char>>, es: Seq<TreeEntry>)
    ensures
        all_deep(t, t.entries_trace(path, es).steps),
    decreases es, 0nat,
{
    if es.len() > 0 {
        lemma_entries_trace_deep(t, path, es.drop_last());
        let child = path.push(entry_name(es.last()));
        let et = match crate::tree::name_check(es.last(), tree_title(path)) {
            Some(f) => crate::site::failed(f),
            None => match es.last().node {
                TreeNode::Directory(v) => t.dir_trace(child, v@),
                TreeNode::File(b) => t.leaf_trace(child, b@),
                TreeNode::Other => done(Seq::empty()),
            },
        };
        match es.last().node {
            TreeNode::Directory(v) => {
                lemma_dir_trace_deep(t, child, v@);
            },
            _ => {},
        }
        assert(all_deep(t, et.steps));
        lemma_all_deep_then(t, t.entries_trace(path, es.drop_last()), et);
    }
}

proof fn lemma_apply_grows(fs: Map<Seq<Seq<char>>, Stored>, ws: Seq<Written>)
    ensures
        forall|k: Seq<Seq<char>>| fs.contains_key(k) ==> #[trigger] apply(fs, ws).contains_key(k),
    decreases ws.len(),
{
    if ws.len() > 0 {
        lemma_apply_grows(fs, ws.drop_last());
        assert forall|k: Seq<Seq<char>>| fs.contains_key(k) implies #[trigger] apply(fs, ws).contains_key(k) by {
            assert(apply(fs, ws.drop_last()).contains_key(k));
        }
    }
}

proof fn lemma_apply_keeps(fs: Map<Seq<Seq<char>>, Stored>, ws: Seq<Written>, at: Seq<Seq<char>>)
    requires
        fs.contains_key(at),
        forall|i: int|
            0 <= i < ws.len() ==> (#[trigger] ws[i]) is Dir || ws[i] is Stylesheet || written_at(ws[i])
                != at,
    ensures
        apply(fs, ws).contains_key(at),
        apply(fs, ws)[at] == fs[at],
    decreases ws.len(),
{
    if ws.len() > 0 {
        assert forall|i: int| 0 <= i < ws.drop_last().len() implies (#[trigger] ws.drop_last()[i]) is Dir
            || ws.drop_last()[i] is Stylesheet || written_at(ws.drop_last()[i]) != at by {
            assert(ws.drop_last()[i] == ws[i]);
        }
        lemma_apply_keeps(fs, ws.drop_last(), at);
        lemma_apply_grows(fs, ws.drop_last());
        assert(ws.last() == ws[ws.len() - 1]);
    }
}

proof fn lemma_apply_last_write(fs: Map<Seq<Seq<char>>, Stored>, ws: Seq<Written>, i: int)
    requires
        0 <= i < ws.len(),
        ws[i] is Page || ws[i] is Raw,
        forall|j: int| i < j < ws.len() ==> written_at(#[trigger] ws[j]) != written_at(ws[i]),
    ensures
        apply(fs, ws).contains_key(written_at(ws[i])),
        apply(fs, ws)[written_at(ws[i])] == stored(ws[i]),
    decreases ws.len(),
{
    if i < ws.len() - 1 {
        assert forall|j: int| i < j < ws.drop_last().len() implies written_at(
            #[trigger] ws.drop_last()[j],
        ) != written_at(ws.drop_last()[i]) by {
            assert(ws.drop_last()[j] == ws[j]);
        }
        lemma_apply_last_write(fs, ws.drop_last(), i);
        assert(written_at(ws[ws.len() - 1]) != written_at(ws[i]));
        assert(ws.last() == ws[ws.len() - 1]);
    }
}

proof fn lemma_site_writes_avoid_style(t: Templator, cis: Seq<CommitInfo>, root: Seq<TreeEntry>)
    requires
        t.site_trace(cis, root).failure is None,
    ensures
        forall|i: int|
            0 <= i < t.site_trace(cis, root).steps.len() ==> (#[trigger] t.site_trace(cis, root).steps[i]) is Dir
                || t.site_trace(cis, root).steps[i] is Stylesheet || written_at(
                t.site_trace(cis, root).steps[i],
            ) != t.style_location(),
{
    lemma_site_trace_parts(t, cis, root);
    lemma_commits_trace_each(t, cis);
    lemma_dir_trace_deep(t, Seq::empty(), root);
    let ws = t.site_trace(cis, root).steps;
    let head = t.prelude_trace().steps + seq![t.log_plan(cis)->Ok_0];
    let pages = t.commits_trace(cis).steps;
    let tree = t.dir_trace(Seq::empty(), root).steps;
    assert(ws == head + pages + tree);
    let style = t.style_location();
    assert forall|i: int| 0 <= i < ws.len() implies (#[trigger] ws[i]) is Dir || ws[i] is Stylesheet
        || written_at(ws[i]) != style by {
        if i < 3 {
            assert(ws[i] == t.prelude_trace().steps[i]);
        } else if i == 3 {
            reveal_strlit("log.html");
            reveal_strlit("rustagit.css");
            assert(ws[3] == head[3]);
            assert(written_at(ws[i]) == t.log_location());
            assert("log.html"@.len() != "rustagit.css"@.len());
            assert(written_at(ws[i]).last() != style.last());
        } else if i < 4 + pages.len() {
            assert(ws[i] == pages[i - 4]);
            assert(t.commit_plan(cis[i - 4]) == Ok::<Written, Failure>(pages[i - 4]));
        } else {
            assert(ws[i] == tree[i - 4 - pages.len()]);
            assert(deep_write(t, tree[i - 4 - pages.len()]));
        }
    }
}

/// Running over a destination that already holds a stylesheet leaves that stylesheet
/// as it was, while every page of the run is written anew: after the run, each page's
/// location holds what the run's last write there put.
pub proof fn lemma_stylesheet_kept(
    t: Templator,
    cis: Seq<CommitInfo>,
    root: Seq<TreeEntry>,
    fs: Map<Seq<Seq<char>>, Stored>,
)
    requires
        t.site_trace(cis, root).failure is None,
        fs.contains_key(t.style_location()),
    ensures
        apply(fs, t.site_trace(cis, root).steps).contains_key(t.style_location()),
        apply(fs, t.site_trace(cis, root).steps)[t.style_location()] == fs[t.style_location()],
        forall|i: int|
            0 <= i < t.site_trace(cis, root).steps.len() && (#[trigger] t.site_trace(cis, root).steps[i]) is Page
                && (forall|j: int|
                i < j < t.site_trace(cis, root).steps.len() ==> written_at(
                    #[trigger] t.site_trace(cis, root).steps[j],
                ) != written_at(t.site_trace(cis, root).steps[i])) ==> apply(
                fs,
                t.site_trace(cis, root).steps,
            )[written_at(t.site_trace(cis, root).steps[i])] == Stored::Text(
                t.site_trace(cis, root).steps[i]->Page_1,
            ),
{
    let ws = t.site_trace(cis, root).steps;
    lemma_site_writes_avoid_style(t, cis, root);
    lemma_apply_keeps(fs, ws, t.style_location());
    assert forall|i: int|
        0 <= i < ws.len() && (#[trigger] ws[i]) is Page && (forall|j: int|
            i < j < ws.len() ==> written_at(#[trigger] ws[j]) != written_at(ws[i])) implies apply(
        fs,
        ws,
    )[written_at(ws[i])] == Stored::Text(ws[i]->Page_1) by {
        lemma_apply_last_write(fs, ws, i);
    }
}

/// Whether no two steps among `ws` share a location.
pub open spec fn locations_distinct(ws: Seq<Written>) -> bool {
    forall|i: int, j: int|
        #![trigger ws[i], ws[j]]
        0 <= i < j < ws.len() ==> written_at(ws[i]) != written_at(ws[j])
}

/// Whether `at` lies in the mirror of the tree path `path`, or is that mirror.
pub open spec fn under(t: Templator, path: Seq<Seq<char>>, at: Seq<Seq<char>>) -> bool {
    let k = t.tree_location(path).len();
    at.len() >= k && at.take(k as int) == t.tree_location(path)
}

/// Whether `at` is where a step for the entry `e` of the directory `path` may write:
/// a name that `e` takes in the directory's mirror, or, for a directory, a location
/// below its own mirror.
pub open spec fn slot_of(t: Templator, path: Seq<Seq<char>>, e: TreeEntry, at: Seq<Seq<char>>) -> bool {
    let k = t.tree_location(path).len();
    &&& at.len() > k
    &&& at.take(k as int) == t.tree_location(path)
    &&& {
        ||| (at.len() == k + 1 && occupies(e, at[k as int]))
        ||| (e.node is Directory && at.len() >= k + 2 && at[k as int] == entry_name(e))
    }
}

pub open spec fn in_slot(t: Templator, path: Seq<Seq<char>>, es: Seq<TreeEntry>, at: Seq<Seq<char>>) -> bool {
    exists|i: int| 0 <= i < es.len() && #[trigger] slot_of(t, path, es[i], at)
}

proof fn lemma_suffix_cancel(a: Seq<char>, b: Seq<char>, s: Seq<char>)
    requires
        a + s == b + s,
    ensures
        a == b,
{
    assert(a =~= (a + s).subrange(0, a.len() as int));
    assert(b =~= (b + s).subrange(0, b.len() as int));
}

proof fn lemma_slots_apart(
    t: Templator,
    path: Seq<Seq<char>>,
    e1: TreeEntry,
    e2: TreeEntry,
    a1: Seq<Seq<char>>,
    a2: Seq<Seq<char>>,
)
    requires
        slot_of(t, path, e1, a1),
        slot_of(t, path, e2, a2),
        forall|c: Seq<char>| !(#[trigger] occupies(e1, c) && occupies(e2, c)),
    ensures
        a1 != a2,
{
    let k = t.tree_location(path).len();
    if a1 == a2 {
        if a1.len() == k + 1 {
            assert(occupies(e1, a1[k as int]) && occupies(e2, a1[k as int]));
        } else {
            assert(occupies(e1, entry_name(e1)) && occupies(e2, entry_name(e1)));
        }
    }
}

proof fn lemma_index_apart(t: Templator, path: Seq<Seq<char>>, e: TreeEntry, at: Seq<Seq<char>>)
    requires
        slot_of(t, path, e, at),
        !occupies(e, index_name()),
    ensures
        at != t.index_location(path),
{
}

proof fn lemma_distinct_concat(a: Seq<Written>, b: Seq<Written>)
    requires
        locations_distinct(a),
        locations_distinct(b),
        forall|i: int, j: int|
            #![trigger a[i], b[j]]
            0 <= i < a.len() && 0 <= j < b.len() ==> written_at(a[i]) != written_at(b[j]),
    ensures
        locations_distinct(a + b),
{
    let c = a + b;
    assert forall|i: int, j: int|
        #![trigger c[i], c[j]]
        0 <= i < j < c.len() implies written_at(c[i]) != written_at(c[j]) by {
        if j < a.len() {
            assert(c[i] == a[i] && c[j] == a[j]);
        } else if i >= a.len() {
            assert(c[i] == b[i - a.len()] && c[j] == b[j - a.len()]);
        } else {
            assert(c[i] == a[i] && c[j] == b[j - a.len()]);
        }
    }
}

proof fn lemma_layout_init(es: Seq<TreeEntry>)
    requires
        es.len() > 0,
        layout_ok(es),
    ensures
        layout_ok(es.drop_last()),
{
    let init = es.drop_last();
    assert forall|i: int| 0 <= i < init.len() implies !occupies(#[trigger] init[i], index_name()) by {
        assert(init[i] == es[i]);
    }
    assert forall|i: int, j: int, c: Seq<char>|
        #![trigger occupies(init[i], c), occupies(init[j], c)]
        0 <= i < j < init.len() && occupies(init[i], c) implies !occupies(init[j], c) by {
        assert(init[i] == es[i] && init[j] == es[j]);
    }
}

proof fn lemma_dir_locations(t: Templator, path: Seq<Seq<char>>, es: Seq<TreeEntry>)
    ensures
        locations_distinct(t.dir_trace(path, es).steps),
        forall|i: int|
            0 <= i < t.dir_trace(path, es).steps.len() ==> under(
                t,
                path,
                written_at(#[trigger] t.dir_trace(path, es).steps[i]),
            ),
    decreases es, 1nat,
{
    let b = t.branch_trace(path, es);
    let rest = t.entries_trace(path, es);
    if b.failure is None {
        assert(layout_ok(es));
        lemma_entries_locations(t, path, es);
        let ws = b.steps + rest.steps;
        let k = t.tree_location(path).len();
        assert(t.index_location(path).take(k as int) =~= t.tree_location(path));
        assert(t.tree_location(path).take(k as int) =~= t.tree_location(path));
        assert(locations_distinct(b.steps)) by {
            assert(written_at(b.steps[0]).len() != written_at(b.steps[1]).len());
        }
        assert forall|i: int, j: int|
            #![trigger b.steps[i], rest.steps[j]]
            0 <= i < b.steps.len() && 0 <= j < rest.steps.len() implies written_at(b.steps[i])
                != written_at(rest.steps[j]) by {
            let w = written_at(rest.steps[j]);
            assert(in_slot(t, path, es, w));
            let x = choose|x: int| 0 <= x < es.len() && #[trigger] slot_of(t, path, es[x], w);
            lemma_index_apart(t, path, es[x], w);
        }
        lemma_distinct_concat(b.steps, rest.steps);
        assert forall|i: int| 0 <= i < ws.len() implies under(t, path, written_at(#[trigger] ws[i])) by {
            if i >= 2 {
                assert(ws[i] == rest.steps[i - 2]);
                let w = written_at(rest.steps[i - 2]);
                assert(in_slot(t, path, es, w));
            }
        }
    }
}

proof fn lemma_entries_locations(t: Templator, path: Seq<Seq<char>>, es: Seq<TreeEntry>)
    requires
        layout_ok(es),
    ensures
        locations_distinct(t.entries_trace(path, es).steps),
        forall|i: int|
            0 <= i < t.entries_trace(path, es).steps.len() ==> in_slot(
                t,
                path,
                es,
                written_at(#[trigger] t.entries_trace(path, es).steps[i]),
            ),
    decreases es, 0nat,
{
    if es.len() > 0 {
        let init = es.drop_last();
        let e = es.last();
        let last = es.len() - 1;
        assert(es[last] == e);
        lemma_layout_init(es);
        lemma_entries_locations(t, path, init);
        let prev = t.entries_trace(path, init);
        let child = path.push(entry_name(e));
        let k = t.tree_location(path).len();
        assert(t.tree_location(child) =~= t.tree_location(path).push(entry_name(e)));
        assert(t.tree_location(path).push(entry_name(e)).take(k as int) =~= t.tree_location(path));
        let et = match crate::tree::name_check(e, tree_title(path)) {
            Some(f) => crate::site::failed(f),
            None => match e.node {
                TreeNode::Directory(v) => t.dir_trace(child, v@),
                TreeNode::File(b) => t.leaf_trace(child, b@),
                TreeNode::Other => done(Seq::empty()),
            },
        };
        assert(t.entries_trace(path, es) == then(prev, et));
        match e.node {
            TreeNode::Directory(v) => {
                lemma_dir_locations(t, child, v@);
                assert forall|j: int| 0 <= j < et.steps.len() implies slot_of(
                    t,
                    path,
                    e,
                    written_at(#[trigger] et.steps[j]),
                ) by {
                    let w = written_at(et.steps[j]);
                    assert(under(t, child, w));
                    assert(w.take(k as int) =~= w.take(k as int + 1).take(k as int));
                    assert(w[k as int] == w.take(k as int + 1)[k as int]);
                }
            },
            TreeNode::File(b) => {
                assert(child.drop_last() =~= path);
                assert(t.file_location(child) =~= t.tree_location(path).push(entry_name(e) + ".html"@));
                assert(t.file_location(child).take(k as int) =~= t.tree_location(path));
                assert forall|j: int| 0 <= j < et.steps.len() implies slot_of(
                    t,
                    path,
                    e,
                    written_at(#[trigger] et.steps[j]),
                ) by {
                }
                assert(locations_distinct(et.steps)) by {
                    if et.steps.len() == 2 {
                        assert((entry_name(e) + ".html"@).len() != entry_name(e).len()) by {
                            reveal_strlit(".html");
                        }
                        assert(written_at(et.steps[0])[k as int] != written_at(et.steps[1])[k as int]);
                    }
                }
            },
            TreeNode::Other => {},
        }
        let ws = t.entries_trace(path, es).steps;
        if prev.failure is None {
            assert(ws == prev.steps + et.steps);
            assert forall|i: int, j: int|
                #![trigger prev.steps[i], et.steps[j]]
                0 <= i < prev.steps.len() && 0 <= j < et.steps.len() implies written_at(prev.steps[i])
                    != written_at(et.steps[j]) by {
                let w = written_at(prev.steps[i]);
                assert(in_slot(t, path, init, w));
                let x = choose|x: int| 0 <= x < init.len() && #[trigger] slot_of(t, path, init[x], w);
                assert(init[x] == es[x]);
                assert forall|c: Seq<char>| !(#[trigger] occupies(es[x], c) && occupies(e, c)) by {
                    if occupies(es[x], c) {
                        assert(!occupies(es[last], c));
                    }
                }
                lemma_slots_apart(t, path, es[x], e, w, written_at(et.steps[j]));
            }
            lemma_distinct_concat(prev.steps, et.steps);
            assert forall|i: int| 0 <= i < ws.len() implies in_slot(t, path, es, written_at(#[trigger] ws[i])) by {
                if i < prev.steps.len() {
                    assert(ws[i] == prev.steps[i]);
                    let w = written_at(prev.steps[i]);
                    assert(in_slot(t, path, init, w));
                    let x = choose|x: int| 0 <= x < init.len() && #[trigger] slot_of(t, path, init[x], w);
                    assert(init[x] == es[x]);
                } else {
                    assert(ws[i] == et.steps[i - prev.steps.len()]);
                    assert(slot_of(t, path, es[last], written_at(ws[i])));
                }
            }
        } else {
            assert forall|i: int| 0 <= i < ws.len() implies in_slot(t, path, es, written_at(#[trigger] ws[i])) by {
                let w = written_at(prev.steps[i]);
                assert(in_slot(t, path, init, w));
                let x = choose|x: int| 0 <= x < init.len() && #[trigger] slot_of(t, path, init[x], w);
                assert(init[x] == es[x]);
            }
        }
    }
}

/// Every step of the tree's mirror writes or creates a location of its own, below the
/// mirror's root: directories, index pages, file pages and raw copies never share one.
/// A directory whose entries would share one fails before anything is written for it.
pub proof fn lemma_tree_locations_distinct(t: Templator, root: Seq<TreeEntry>)
    ensures
        locations_distinct(t.dir_trace(Seq::empty(), root).steps),
        forall|i: int|
            0 <= i < t.dir_trace(Seq::empty(), root).steps.len() ==> under(
                t,
                Seq::empty(),
                written_at(#[trigger] t.dir_trace(Seq::empty(), root).steps[i]),
            ),
{
    lemma_dir_locations(t, Seq::empty(), root);
}

/// Where the commits' ids are distinct, every step of a run that fails nowhere writes
/// or creates a location of its own: the destination, the commit directory, the
/// stylesheet, the log page, one page per commit, and every step of the tree's mirror.
pub proof fn lemma_site_locations_distinct(t: Templator, cis: Seq<CommitInfo>, root: Seq<TreeEntry>)
    requires
        t.site_trace(cis, root).failure is None,
        forall|i: int, j: int| 0 <= i < j < cis.len() ==> (#[trigger] cis[i]).id@ != (#[trigger] cis[j]).id@,
    ensures
        locations_distinct(t.site_trace(cis, root).steps),
{
    lemma_site_trace_parts(t, cis, root);
    lemma_commits_trace_each(t, cis);
    lemma_tree_locations_distinct(t, root);
    let u = t.url@.len();
    let head = t.prelude_trace().steps + seq![t.log_plan(cis)->Ok_0];
    let pages = t.commits_trace(cis).steps;
    let tree = t.dir_trace(Seq::empty(), root).steps;
    assert(t.tree_location(Seq::empty()) =~= t.url@.push("tree"@));
    reveal_strlit("commit");
    reveal_strlit("tree");
    reveal_strlit("log.html");
    reveal_strlit("rustagit.css");
    assert(head[3] == t.log_plan(cis)->Ok_0);
    assert(locations_distinct(head)) by {
        assert forall|i: int, j: int| #![trigger head[i], head[j]] 0 <= i < j < head.len() implies written_at(
            head[i],
        ) != written_at(head[j]) by {
            if i > 0 {
                assert(written_at(head[i])[u as int].len() != written_at(head[j])[u as int].len());
            }
        }
    }
    assert forall|i: int, j: int|
        #![trigger pages[i], pages[j]]
        0 <= i < j < pages.len() implies written_at(pages[i]) != written_at(pages[j]) by {
        assert(t.commit_plan(cis[i]) == Ok::<Written, Failure>(pages[i]));
        assert(t.commit_plan(cis[j]) == Ok::<Written, Failure>(pages[j]));
        if written_at(pages[i]) == written_at(pages[j]) {
            assert(written_at(pages[i])[u as int + 1] == cis[i].id@ + ".html"@);
            assert(written_at(pages[j])[u as int + 1] == cis[j].id@ + ".html"@);
            lemma_suffix_cancel(cis[i].id@, cis[j].id@, ".html"@);
        }
    }
    assert forall|i: int, j: int|
        #![trigger head[i], pages[j]]
        0 <= i < head.len() && 0 <= j < pages.len() implies written_at(head[i]) != written_at(pages[j]) by {
        assert(t.commit_plan(cis[j]) == Ok::<Written, Failure>(pages[j]));
    }
    lemma_distinct_concat(head, pages);
    let hp = head + pages;
    assert forall|i: int, j: int|
        #![trigger hp[i], tree[j]]
        0 <= i < hp.len() && 0 <= j < tree.len() implies written_at(hp[i]) != written_at(tree[j]) by {
        let w = written_at(tree[j]);
        assert(under(t, Seq::empty(), w));
        assert(w.take(u as int + 1)[u as int] == w[u as int]);
        assert(w[u as int] == "tree"@);
        if i < head.len() {
            assert(hp[i] == head[i]);
            if i > 0 {
                assert(written_at(head[i])[u as int].len() != w[u as int].len());
            }
        } else {
            assert(hp[i] == pages[i - head.len()]);
            assert(t.commit_plan(cis[i - head.len()]) == Ok::<Written, Failure>(pages[i - head.len()]));
            assert(written_at(hp[i])[u as int] == "commit"@);
            assert("commit"@.len() != "tree"@.len());
        }
    }
    lemma_distinct_concat(hp, tree);
    assert(t.site_trace(cis, root).steps == hp + tree);
}

/// Where the commits' ids are distinct, a run that fails nowhere leaves every page it
/// writes, and every raw copy, holding exactly what the run wrote there, whatever the
/// destination held before: every file but the stylesheet is written anew.
pub proof fn lemma_every_file_written_anew(
    t: Templator,
    cis: Seq<CommitInfo>,
    root: Seq<TreeEntry>,
    fs: Map<Seq<Seq<char>>, Stored>,
)
    requires
        t.site_trace(cis, root).failure is None,
        forall|i: int, j: int| 0 <= i < j < cis.len() ==> (#[trigger] cis[i]).id@ != (#[trigger] cis[j]).id@,
    ensures
        forall|i: int|
            0 <= i < t.site_trace(cis, root).steps.len() && ((#[trigger] t.site_trace(cis, root).steps[i]) is Page
                || t.site_trace(cis, root).steps[i] is Raw) ==> apply(fs, t.site_trace(cis, root).steps)[written_at(
                t.site_trace(cis, root).steps[i],
            )] == stored(t.site_trace(cis, root).steps[i]),
{
    let ws = t.site_trace(cis, root).steps;
    lemma_site_locations_distinct(t, cis, root);
    assert forall|i: int| 0 <= i < ws.len() && ((#[trigger] ws[i]) is Page || ws[i] is Raw) implies apply(
        fs,
        ws,
    )[written_at(ws[i])] == stored(ws[i]) by {
        assert forall|j: int| i < j < ws.len() implies written_at(#[trigger] ws[j]) != written_at(ws[i]) by {
            assert(written_at(ws[i]) != written_at(ws[j]));
        }
        lemma_apply_last_write(fs, ws, i);
    }
}

/// Two runs over the same commits and tree add the same steps and end alike: a rerun on
/// the same repository state gives the same output.
pub proof fn lemma_runs_agree(
    t: Templator,
    cis: Seq<CommitInfo>,
    root: Seq<TreeEntry>,
    before1: Seq<crate::site::Output>,
    after1: Seq<crate::site::Output>,
    r1: Result<(), crate::error::SiteError>,
    before2: Seq<crate::site::Output>,
    after2: Seq<crate::site::Output>,
    r2: Result<(), crate::error::SiteError>,
)
    requires
        crate::site::follows(before1, after1, t.site_trace(cis, root), r1),
        crate::site::follows(before2, after2, t.site_trace(cis, root), r2),
    ensures
        crate::site::views(after1).skip(before1.len() as int) == crate::site::views(after2).skip(
            before2.len() as int,
        ),
        r1 is Ok <==> r2 is Ok,
        r1 matches Err(e1) ==> r2 matches Err(e2) && e1@ == e2@,
{
    assert(crate::site::views(after1).skip(before1.len() as int) =~= t.site_trace(cis, root).steps);
    assert(crate::site::views(after2).skip(before2.len() as int) =~= t.site_trace(cis, root).steps);
}

} // verus!
