//! The head tree as plain values, and the markup of directory listings and of files
//! that are not text.

use vstd::prelude::*;
use vstd::utf8::{decode_utf8, valid_utf8};
use crate::commit::push_escaped;
use crate::error::{Failure, SiteError};
use crate::markup::escaped;
use crate::text::decode_text;
use crate::url::{dot, dot_dot, joined, names, plain_component, UrlResolver};

verus! {

/// What a tree entry holds.
pub enum TreeNode {
    /// A subtree, its entries in the order the repository stores them.
    Directory(Vec<TreeEntry>),
    /// A file's content.
    File(Vec<u8>),
    /// Anything else, such as a submodule's commit.
    Other,
}

/// A named entry of a tree.
pub struct TreeEntry {
    pub name: Vec<u8>,
    pub node: TreeNode,
}

/// The title of the page of the tree path `path`: the path below the tree's root,
/// starting with `/`.
pub open spec fn tree_title(path: Seq<Seq<char>>) -> Seq<char> {
    seq!['/'] + joined(path)
}

pub open spec fn entry_name(e: TreeEntry) -> Seq<char> {
    decode_utf8(e.name@)
}

/// Why the name of `e`, listed on the page titled `title`, cannot be used, if it cannot:
/// it is not text, or it is not one path component.
pub open spec fn name_check(e: TreeEntry, title: Seq<char>) -> Option<Failure> {
    if !valid_utf8(e.name@) {
        Some(Failure::InvalidText(title))
    } else if !plain_component(entry_name(e)) {
        Some(Failure::ObjectRead(title))
    } else {
        None
    }
}

/// The link from a listing whose way back to the root is `root` to the page of the
/// entry `e` of the directory `path`: a directory's index, or a file's page.
pub open spec fn entry_link(root: Seq<Seq<char>>, path: Seq<Seq<char>>, e: TreeEntry) -> Seq<char> {
    let at = (root.push("tree"@) + path).push(entry_name(e));
    if e.node is Directory {
        joined(at.push("index.htm"@))
    } else {
        joined(at.drop_last().push(entry_name(e) + ".html"@))
    }
}

/// One line of a directory listing; subdirectories carry a trailing `/`.
pub open spec fn entry_item(root: Seq<Seq<char>>, path: Seq<Seq<char>>, e: TreeEntry) -> Seq<char> {
    "<li><a href=\""@ + escaped(entry_link(root, path, e)) + "\">"@ + escaped(entry_name(e)) + (if e.node is Directory {
        "/"@
    } else {
        Seq::empty()
    }) + "</a></li>"@
}

/// The lines of the listing of `es`, or the first name that cannot be used.
pub open spec fn listing_items(
    root: Seq<Seq<char>>,
    path: Seq<Seq<char>>,
    es: Seq<TreeEntry>,
) -> Result<Seq<char>, Failure>
    decreases es.len(),
{
    if es.len() == 0 {
        Ok(Seq::empty())
    } else {
        match listing_items(root, path, es.drop_last()) {
            Err(f) => Err(f),
            Ok(items) => match name_check(es.last(), tree_title(path)) {
                Some(f) => Err(f),
                None => Ok(items + entry_item(root, path, es.last())),
            },
        }
    }
}

/// The listing of the directory `path` with the entries `es`.
pub open spec fn listing(root: Seq<Seq<char>>, path: Seq<Seq<char>>, es: Seq<TreeEntry>) -> Result<
    Seq<char>,
    Failure,
> {
    match listing_items(root, path, es) {
        Err(f) => Err(f),
        Ok(items) => Ok("<ul>"@ + items + "</ul>"@),
    }
}

/// The page content for a file that is not text: a notice and a link to its raw
/// copy `raw_name` beside the page.
pub open spec fn binary_notice(raw_name: Seq<char>) -> Seq<char> {
    "<p>This is not a file of UTF-8 honour.</p><a href=\""@ + escaped(raw_name) + "\">See raw</a>"@
}

/// Whether `s` is one path component that names an entry.
pub fn is_plain_component(s: &str) -> (r: bool)
    ensures
        r == plain_component(s@),
{
    let n = s.unicode_len();
    if n == 0 {
        return false;
    }
    proof {
        reveal_strlit(".");
        reveal_strlit("..");
    }
    if n == 1 && s.get_char(0) == '.' {
        assert(s@ =~= dot());
        return false;
    }
    if n == 2 && s.get_char(0) == '.' && s.get_char(1) == '.' {
        assert(s@ =~= dot_dot());
        return false;
    }
    assert(s@ != dot() && s@ != dot_dot()) by {
        if s@ == dot() {
            assert(s@[0] == dot()[0]);
        }
        if s@ == dot_dot() {
            assert(s@[0] == dot_dot()[0] && s@[1] == dot_dot()[1]);
        }
    }
    let mut i: usize = 0;
    while i < n
        invariant
            i <= n,
            n == s@.len(),
            forall|j: int| 0 <= j < i ==> s@[j] != '/',
        decreases n - i,
    {
        if s.get_char(i) == '/' {
            return false;
        }
        i = i + 1;
    }
    true
}

/// The name of `e` as text, or why it cannot be used.
pub fn checked_name(e: &TreeEntry, title: &String) -> (r: Result<String, SiteError>)
    ensures
        r is Ok <==> name_check(*e, title@) is None,
        r matches Ok(n) ==> n@ == entry_name(*e),
        r matches Err(f) ==> name_check(*e, title@) == Some(f@),
{
    match decode_text(&e.name) {
        Ok(n) => {
            if is_plain_component(n.as_str()) {
                Ok(n)
            } else {
                Err(SiteError::ObjectRead(title.clone()))
            }
        },
        Err(_) => Err(SiteError::InvalidText(title.clone())),
    }
}

/// The listing of the directory `path` with the entries `es`, seen from a page whose
/// way back to the root is `root`; a failure names the directory by its title.
pub fn listing_markup(
    root: &UrlResolver,
    path: &Vec<String>,
    es: &Vec<TreeEntry>,
) -> (r: Result<String, SiteError>)
    ensures
        r is Ok <==> listing(root@, names(path@), es@) is Ok,
        r matches Ok(s) ==> listing(root@, names(path@), es@) == Ok::<Seq<char>, Failure>(s@),
        r matches Err(f) ==> listing(root@, names(path@), es@) == Err::<Seq<char>, Failure>(f@),
{
    let ghost p = names(path@);
    let title = tree_title_text(path);
    let title = &title;
    let dir = root.tree_path(path);
    let mut items = String::new();
    let n = es.len();
    for i in 0..n
        invariant
            n == es@.len(),
            dir@ == root@.push("tree"@) + p,
            p == names(path@),
            title@ == tree_title(p),
            listing_items(root@, p, es@.take(i as int)) == Ok::<Seq<char>, Failure>(items@),
    {
        assert(es@.take(i + 1).drop_last() =~= es@.take(i as int));
        assert(es@.take(i + 1).last() == es@[i as int]);
        let name = match checked_name(&es[i], title) {
            Ok(name) => name,
            Err(f) => {
                proof {
                    lemma_listing_err_extends(root@, p, es@, (i + 1) as nat);
                }
                return Err(f);
            },
        };
        let at = dir.join(name.as_str());
        let link = match &es[i].node {
            TreeNode::Directory(_) => at.join("index.htm").to_text(),
            _ => dir.join(name.as_str()).dot_html().to_text(),
        };
        items.append("<li><a href=\"");
        push_escaped(&mut items, link.as_str());
        items.append("\">");
        push_escaped(&mut items, name.as_str());
        match &es[i].node {
            TreeNode::Directory(_) => items.append("/"),
            _ => {},
        }
        items.append("</a></li>");
        assert(items@ =~= listing_items(root@, p, es@.take(i as int))->Ok_0 + entry_item(
            root@,
            p,
            es@[i as int],
        ));
    }
    assert(es@.take(n as int) =~= es@);
    let mut out = String::new();
    out.append("<ul>");
    out.append(items.as_str());
    out.append("</ul>");
    assert(out@ =~= "<ul>"@ + items@ + "</ul>"@);
    Ok(out)
}

proof fn lemma_listing_err_extends(
    root: Seq<Seq<char>>,
    path: Seq<Seq<char>>,
    es: Seq<TreeEntry>,
    k: nat,
)
    requires
        k <= es.len(),
        listing_items(root, path, es.take(k as int)) is Err,
    ensures
        listing_items(root, path, es) == listing_items(root, path, es.take(k as int)),
    decreases es.len(),
{
    if k < es.len() {
        assert(es.drop_last().take(k as int) =~= es.take(k as int));
        lemma_listing_err_extends(root, path, es.drop_last(), k);
    } else {
        assert(es.take(k as int) =~= es);
    }
}

/// The notice page content for a file that is not text, linking to `raw_name`.
pub fn binary_notice_text(raw_name: &str) -> (r: String)
    ensures
        r@ == binary_notice(raw_name@),
{
    let mut out = String::new();
    out.append("<p>This is not a file of UTF-8 honour.</p><a href=\"");
    push_escaped(&mut out, raw_name);
    out.append("\">See raw</a>");
    assert(out@ =~= binary_notice(raw_name@));
    out
}

/// The title of the page of the tree path `path`.
pub fn tree_title_text(path: &Vec<String>) -> (r: String)
    ensures
        r@ == tree_title(names(path@)),
{
    let mut text = String::new();
    text.append("/");
    let n = path.len();
    proof {
        reveal_strlit("/");
    }
    assert(text@ =~= seq!['/'] + joined(names(path@.take(0))));
    for i in 0..n
        invariant
            n == path@.len(),
            text@ == seq!['/'] + joined(names(path@.take(i as int))),
    {
        proof {
            reveal_strlit("/");
        }
        if i > 0 {
            text.append("/");
        }
        text.append(path[i].as_str());
        assert(names(path@.take(i + 1)).drop_last() =~= names(path@.take(i as int)));
        assert(names(path@.take(i + 1)).last() == path@[i as int]@);
        if i == 0 {
            assert(names(path@.take(1)) =~= seq![path@[0]@]);
        }
        assert(text@ =~= seq!['/'] + joined(names(path@.take(i + 1))));
    }
    assert(path@.take(n as int) =~= path@);
    text
}

pub open spec fn index_name() -> Seq<char> {
    "index.htm"@
}

/// Whether the entry `e` takes the name `c` in its directory's mirror: a directory takes
/// its own name, a file its page's name, and a file that is not text also the name of
/// its raw copy.
pub open spec fn occupies(e: TreeEntry, c: Seq<char>) -> bool {
    match e.node {
        TreeNode::Directory(_) => c == entry_name(e),
        TreeNode::File(b) => c == entry_name(e) + ".html"@ || (!valid_utf8(b@) && c == entry_name(e)),
        TreeNode::Other => false,
    }
}

/// Whether the entries `es` take pairwise distinct names in their directory's mirror,
/// none of them the name of the directory's index page.
pub open spec fn layout_ok(es: Seq<TreeEntry>) -> bool {
    &&& forall|i: int| 0 <= i < es.len() ==> !occupies(#[trigger] es[i], index_name())
    &&& forall|i: int, j: int, c: Seq<char>|
        #![trigger occupies(es[i], c), occupies(es[j], c)]
        0 <= i < j < es.len() && occupies(es[i], c) ==> !occupies(es[j], c)
}

pub open spec fn in_list(v: Seq<String>, c: Seq<char>) -> bool {
    exists|k: int| 0 <= k < v.len() && (#[trigger] v[k])@ == c
}

/// The names that the entry `e`, whose name is `name`, takes in its directory's mirror.
fn taken_names(e: &TreeEntry, name: &String) -> (r: Vec<String>)
    requires
        name@ == entry_name(*e),
    ensures
        forall|c: Seq<char>| occupies(*e, c) <==> #[trigger] in_list(r@, c),
{
    let mut r: Vec<String> = Vec::new();
    match &e.node {
        TreeNode::Directory(_) => {
            r.push(name.clone());
            assert forall|c: Seq<char>| occupies(*e, c) <==> #[trigger] in_list(r@, c) by {
                if occupies(*e, c) {
                    assert(r@[0]@ == c);
                }
            }
        },
        TreeNode::File(b) => {
            let page = name.clone().concat(".html");
            r.push(page);
            let text = decode_text(b);
            if text.is_err() {
                r.push(name.clone());
            }
            assert forall|c: Seq<char>| occupies(*e, c) <==> #[trigger] in_list(r@, c) by {
                if occupies(*e, c) {
                    if c == entry_name(*e) + ".html"@ {
                        assert(r@[0]@ == c);
                    } else {
                        assert(r@[1]@ == c);
                    }
                }
            }
        },
        TreeNode::Other => {},
    }
    r
}

fn list_contains(v: &Vec<String>, s: &String) -> (r: bool)
    ensures
        r == in_list(v@, s@),
{
    let n = v.len();
    for k in 0..n
        invariant
            n == v@.len(),
            forall|x: int| 0 <= x < k ==> v@[x]@ != s@,
    {
        if v[k].eq(s) {
            assert(v@[k as int]@ == s@);
            return true;
        }
    }
    false
}

fn lists_share(a: &Vec<String>, b: &Vec<String>) -> (r: bool)
    ensures
        r == exists|c: Seq<char>| #[trigger] in_list(a@, c) && in_list(b@, c),
{
    let n = a.len();
    for k in 0..n
        invariant
            n == a@.len(),
            forall|x: int| 0 <= x < k ==> !in_list(b@, (#[trigger] a@[x])@),
    {
        if list_contains(b, &a[k]) {
            assert(in_list(a@, a@[k as int]@));
            return true;
        }
    }
    assert forall|c: Seq<char>| !(#[trigger] in_list(a@, c) && in_list(b@, c)) by {
        if in_list(a@, c) {
            let x = choose|x: int| 0 <= x < a@.len() && (#[trigger] a@[x])@ == c;
        }
    }
    false
}

/// Whether the entries `es`, whose names are `names`, take pairwise distinct names in
/// their directory's mirror, none of them the index page's.
pub fn layout_free(es: &Vec<TreeEntry>, names: &Vec<String>) -> (r: bool)
    requires
        names@.len() == es@.len(),
        forall|i: int| 0 <= i < es@.len() ==> (#[trigger] names@[i])@ == entry_name(es@[i]),
    ensures
        r == layout_ok(es@),
{
    let n = es.len();
    let mut taken: Vec<Vec<String>> = Vec::new();
    for i in 0..n
        invariant
            n == es@.len(),
            names@.len() == es@.len(),
            forall|i: int| 0 <= i < es@.len() ==> (#[trigger] names@[i])@ == entry_name(es@[i]),
            taken@.len() == i,
            forall|k: int, c: Seq<char>|
                0 <= k < i ==> (occupies(es@[k], c) <==> #[trigger] in_list(taken@[k]@, c)),
    {
        taken.push(taken_names(&es[i], &names[i]));
    }
    for i in 0..n
        invariant
            n == es@.len(),
            taken@.len() == n,
            forall|k: int, c: Seq<char>|
                0 <= k < n ==> (occupies(es@[k], c) <==> #[trigger] in_list(taken@[k]@, c)),
            forall|k: int| 0 <= k < i ==> !occupies(#[trigger] es@[k], index_name()),
    {
        let index = "index.htm".to_owned();
        if list_contains(&taken[i], &index) {
            assert(occupies(es@[i as int], index_name()));
            return false;
        }
        assert(!in_list(taken@[i as int]@, index_name()));
    }
    for i in 0..n
        invariant
            n == es@.len(),
            taken@.len() == n,
            forall|k: int, c: Seq<char>|
                0 <= k < n ==> (occupies(es@[k], c) <==> #[trigger] in_list(taken@[k]@, c)),
            forall|k: int| 0 <= k < n ==> !occupies(#[trigger] es@[k], index_name()),
            forall|x: int, y: int, c: Seq<char>|
                #![trigger occupies(es@[x], c), occupies(es@[y], c)]
                0 <= x < i && x < y < n && occupies(es@[x], c) ==> !occupies(es@[y], c),
    {
        for j in i + 1..n
            invariant
                n == es@.len(),
                i < n,
                taken@.len() == n,
                forall|k: int, c: Seq<char>|
                    0 <= k < n ==> (occupies(es@[k], c) <==> #[trigger] in_list(taken@[k]@, c)),
                forall|x: int, y: int, c: Seq<char>|
                    #![trigger occupies(es@[x], c), occupies(es@[y], c)]
                    0 <= x < i && x < y < n && occupies(es@[x], c) ==> !occupies(es@[y], c),
                forall|y: int, c: Seq<char>|
                    #![trigger occupies(es@[y], c)]
                    i < y < j && occupies(es@[i as int], c) ==> !occupies(es@[y], c),
        {
            if lists_share(&taken[i], &taken[j]) {
                let ghost c = choose|c: Seq<char>| #[trigger] in_list(taken@[i as int]@, c) && in_list(taken@[j as int]@, c);
                assert(occupies(es@[i as int], c) && occupies(es@[j as int], c));
                return false;
            }
            assert forall|c: Seq<char>| occupies(es@[i as int], c) implies !occupies(es@[j as int], c) by {
                assert(in_list(taken@[i as int]@, c));
            }
        }
    }
    true
}

/// Where a listing can be written, every name in it can be used.
pub proof fn lemma_listing_names(root: Seq<Seq<char>>, path: Seq<Seq<char>>, es: Seq<TreeEntry>)
    requires
        listing_items(root, path, es) is Ok,
    ensures
        forall|i: int| 0 <= i < es.len() ==> name_check(#[trigger] es[i], tree_title(path)) is None,
    decreases es.len(),
{
    if es.len() > 0 {
        lemma_listing_names(root, path, es.drop_last());
        assert forall|i: int| 0 <= i < es.len() implies name_check(#[trigger] es[i], tree_title(path)) is None by {
            if i < es.len() - 1 {
                assert(es.drop_last()[i] == es[i]);
            }
        }
    }
}

} // verus!
