//! Destination-relative output locations and the links between generated pages.

use vstd::prelude::*;

verus! {

/// The components of `parts`, separated by `/`.
pub open spec fn joined(parts: Seq<Seq<char>>) -> Seq<char>
    decreases parts.len(),
{
    if parts.len() == 0 {
        Seq::empty()
    } else if parts.len() == 1 {
        parts[0]
    } else {
        joined(parts.drop_last()) + seq!['/'] + parts.last()
    }
}

pub open spec fn dot() -> Seq<char> {
    seq!['.']
}

pub open spec fn dot_dot() -> Seq<char> {
    seq!['.', '.']
}

/// The relative location of the destination root seen from a directory `depth`
/// levels below it: `depth` parent steps, or the current directory at the root.
pub open spec fn escape_parts(depth: nat) -> Seq<Seq<char>> {
    if depth == 0 {
        seq![dot()]
    } else {
        Seq::new(depth, |i: int| dot_dot())
    }
}

/// The number of parent steps among `parts`.
pub open spec fn count_parent_steps(parts: Seq<Seq<char>>) -> nat
    decreases parts.len(),
{
    if parts.len() == 0 {
        0
    } else {
        count_parent_steps(parts.drop_last()) + if parts.last() == dot_dot() {
            1nat
        } else {
            0nat
        }
    }
}

/// A path component that names an entry: neither empty, nor `.` or `..`, and free of `/`.
pub open spec fn plain_component(c: Seq<char>) -> bool {
    &&& c.len() > 0
    &&& c != dot()
    &&& c != dot_dot()
    &&& forall|i: int| 0 <= i < c.len() ==> c[i] != '/'
}

pub open spec fn all_plain(parts: Seq<Seq<char>>) -> bool {
    forall|i: int| 0 <= i < parts.len() ==> plain_component(#[trigger] parts[i])
}

/// Where a relative path `rel`, followed from the directory `dir`, leads.
pub open spec fn resolve(dir: Seq<Seq<char>>, rel: Seq<Seq<char>>) -> Seq<Seq<char>>
    decreases rel.len(),
{
    if rel.len() == 0 {
        dir
    } else {
        let step = rel[0];
        let next = if step == dot() {
            dir
        } else if step == dot_dot() {
            if dir.len() == 0 {
                dir
            } else {
                dir.drop_last()
            }
        } else {
            dir.push(step)
        };
        resolve(next, rel.drop_first())
    }
}

proof fn lemma_resolve_concat(dir: Seq<Seq<char>>, a: Seq<Seq<char>>, b: Seq<Seq<char>>)
    ensures
        resolve(dir, a + b) == resolve(resolve(dir, a), b),
    decreases a.len(),
{
    if a.len() == 0 {
        assert(a + b =~= b);
    } else {
        assert((a + b).drop_first() =~= a.drop_first() + b);
        assert((a + b)[0] == a[0]);
        let step = a[0];
        let next = if step == dot() {
            dir
        } else if step == dot_dot() {
            if dir.len() == 0 {
                dir
            } else {
                dir.drop_last()
            }
        } else {
            dir.push(step)
        };
        lemma_resolve_concat(next, a.drop_first(), b);
    }
}

proof fn lemma_resolve_parent_steps(dir: Seq<Seq<char>>, k: nat)
    requires
        k <= dir.len(),
    ensures
        resolve(dir, Seq::new(k, |i: int| dot_dot())) == dir.subrange(0, dir.len() - k),
    decreases k,
{
    let steps = Seq::new(k, |i: int| dot_dot());
    if k == 0 {
        assert(dir.subrange(0, dir.len() as int) =~= dir);
    } else {
        assert(steps[0] == dot_dot());
        assert(dot_dot() != dot()) by {
            assert(dot_dot().len() != dot().len());
        }
        assert(steps.drop_first() =~= Seq::new((k - 1) as nat, |i: int| dot_dot()));
        lemma_resolve_parent_steps(dir.drop_last(), (k - 1) as nat);
        assert(dir.drop_last().subrange(0, dir.drop_last().len() - (k - 1)) =~= dir.subrange(
            0,
            dir.len() - k,
        ));
    }
}

proof fn lemma_resolve_plain(dir: Seq<Seq<char>>, a: Seq<Seq<char>>)
    requires
        all_plain(a),
    ensures
        resolve(dir, a) == dir + a,
    decreases a.len(),
{
    if a.len() == 0 {
        assert(dir + a =~= dir);
    } else {
        assert(plain_component(a[0]));
        assert(all_plain(a.drop_first())) by {
            assert forall|i: int| 0 <= i < a.drop_first().len() implies plain_component(
                #[trigger] a.drop_first()[i],
            ) by {
                assert(a.drop_first()[i] == a[i + 1]);
            }
        }
        lemma_resolve_plain(dir.push(a[0]), a.drop_first());
        assert(dir.push(a[0]) + a.drop_first() =~= dir + a);
    }
}

proof fn lemma_parent_steps_count(k: nat)
    ensures
        count_parent_steps(Seq::new(k, |i: int| dot_dot())) == k,
    decreases k,
{
    if k > 0 {
        assert(Seq::new(k, |i: int| dot_dot()).drop_last() =~= Seq::new(
            (k - 1) as nat,
            |i: int| dot_dot(),
        ));
        lemma_parent_steps_count((k - 1) as nat);
    }
}

/// The way back to the root from a page `depth` directories below it holds exactly
/// `depth` parent steps, and none for a page at the root itself. Followed from the
/// directory of the page `root + below`, and then followed by the root-relative path
/// `asset`, it leads to `root + asset`.
pub proof fn lemma_root_escape(root: Seq<Seq<char>>, below: Seq<Seq<char>>, asset: Seq<Seq<char>>)
    requires
        below.len() > 0,
        all_plain(asset),
    ensures
        count_parent_steps(escape_parts((below.len() - 1) as nat)) == below.len() - 1,
        below.len() == 1 ==> escape_parts((below.len() - 1) as nat) == seq![dot()],
        resolve((root + below).drop_last(), escape_parts((below.len() - 1) as nat) + asset)
            == root + asset,
{
    let depth = (below.len() - 1) as nat;
    let dir = (root + below).drop_last();
    let esc = escape_parts(depth);
    lemma_resolve_concat(dir, esc, asset);
    if depth == 0 {
        assert(dot() != dot_dot()) by {
            assert(dot_dot().len() != dot().len());
        }
        assert(esc.len() == 1 && esc[0] == dot() && esc.last() == dot());
        assert(count_parent_steps(esc) == 0) by {
            assert(esc.drop_last() =~= Seq::<Seq<char>>::empty());
            assert(count_parent_steps(esc.drop_last()) == 0);
        }
        assert(esc.drop_first() =~= Seq::<Seq<char>>::empty());
        assert(resolve(dir, esc.drop_first()) == dir);
        assert(resolve(dir, esc) == dir);
        assert(dir =~= root);
    } else {
        lemma_parent_steps_count(depth);
        lemma_resolve_parent_steps(dir, depth);
        assert(dir.subrange(0, dir.len() - depth) =~= root);
    }
    lemma_resolve_plain(resolve(dir, esc), asset);
}

/// The texts of `v`.
pub open spec fn names(v: Seq<String>) -> Seq<Seq<char>> {
    v.map_values(|s: String| s@)
}

/// An output location: the destination root, followed by the components below it.
/// The root stands as the first component, whatever separators it holds itself.
pub struct UrlResolver {
    parts: Vec<String>,
}

impl View for UrlResolver {
    type V = Seq<Seq<char>>;

    closed spec fn view(&self) -> Seq<Seq<char>> {
        self.parts@.map_values(|s: String| s@)
    }
}

impl Clone for UrlResolver {
    fn clone(&self) -> (r: Self)
        ensures
            r@ == self@,
    {
        let mut parts: Vec<String> = Vec::new();
        let n = self.parts.len();
        for i in 0..n
            invariant
                n == self.parts@.len(),
                parts@.len() == i,
                forall|j: int| 0 <= j < i ==> #[trigger] parts@[j]@ == self.parts@[j]@,
        {
            parts.push(self.parts[i].clone());
        }
        let r = UrlResolver { parts };
        assert(r@ =~= self@);
        r
    }
}

impl UrlResolver {
    /// The destination root itself.
    pub fn new(base: String) -> (r: Self)
        ensures
            r@ == seq![base@],
    {
        let mut parts: Vec<String> = Vec::new();
        parts.push(base);
        let r = UrlResolver { parts };
        assert(r@ =~= seq![base@]);
        r
    }

    /// The location of `name` inside this one.
    pub fn join(&self, name: &str) -> (r: Self)
        ensures
            r@ == self@.push(name@),
    {
        let mut r = self.clone();
        r.parts.push(name.to_owned());
        assert(r@ =~= self@.push(name@));
        r
    }

    /// The same location with the page suffix added to its last component.
    pub fn dot_html(&self) -> (r: Self)
        requires
            self@.len() > 1,
            plain_component(self@.last()),
        ensures
            r@ == self@.drop_last().push(self@.last() + ".html"@),
    {
        let mut parts: Vec<String> = Vec::new();
        let n = self.parts.len();
        for i in 0..n - 1
            invariant
                n == self.parts@.len(),
                n > 0,
                parts@.len() == i,
                forall|j: int| 0 <= j < i ==> #[trigger] parts@[j]@ == self.parts@[j]@,
        {
            parts.push(self.parts[i].clone());
        }
        let last = self.parts[n - 1].clone().concat(".html");
        parts.push(last);
        let r = UrlResolver { parts };
        assert(r@ =~= self@.drop_last().push(self@.last() + ".html"@));
        r
    }

    /// The directory that holds one page per commit.
    pub fn commit_dir(&self) -> (r: Self)
        ensures
            r@ == self@.push("commit"@),
    {
        self.join("commit")
    }

    /// The page of the commit with the id `commit`.
    pub fn commit_file(&self, commit: &str) -> (r: Self)
        ensures
            r@ == self@.push("commit"@).push(commit@ + ".html"@),
    {
        let mut name = commit.to_owned();
        name.append(".html");
        self.commit_dir().join(name.as_str())
    }

    /// The commit log page.
    pub fn commit_log(&self) -> (r: Self)
        ensures
            r@ == self@.push("log.html"@),
    {
        self.join("log.html")
    }

    /// The directory that mirrors the head tree.
    pub fn tree_dir(&self) -> (r: Self)
        ensures
            r@ == self@.push("tree"@),
    {
        self.join("tree")
    }

    /// The index page of the root of the tree. Its name does not end in `.html`, so no
    /// file's page can take it.
    pub fn tree_index(&self) -> (r: Self)
        ensures
            r@ == self@.push("tree"@).push("index.htm"@),
    {
        self.tree_dir().join("index.htm")
    }

    /// The page of the file `name` at the root of the tree.
    pub fn tree_file(&self, name: &str) -> (r: Self)
        requires
            plain_component(name@),
        ensures
            r@ == self@.push("tree"@).push(name@ + ".html"@),
    {
        self.tree_dir().join(name).dot_html()
    }

    /// The page that lists branches and tags.
    pub fn refs_list(&self) -> (r: Self)
        ensures
            r@ == self@.push("refs.html"@),
    {
        self.join("refs.html")
    }

    /// The shared stylesheet.
    pub fn style_css(&self) -> (r: Self)
        ensures
            r@ == self@.push("rustagit.css"@),
    {
        self.join("rustagit.css")
    }

    /// The way back to this location from the directory that holds the page `path`:
    /// one parent step for each directory between that page and this location, and the
    /// current directory where there is none, or where `path` is this location itself.
    pub fn rel_root_from(&self, path: &UrlResolver) -> (r: Self)
        requires
            self@.len() <= path@.len(),
            path@.subrange(0, self@.len() as int) == self@,
        ensures
            self@.len() < path@.len() ==> r@ == escape_parts((path@.len() - self@.len() - 1) as nat),
            self@.len() == path@.len() ==> r@ == escape_parts(0),
    {
        let depth: usize = if path.parts.len() > self.parts.len() {
            path.parts.len() - self.parts.len() - 1
        } else {
            0
        };
        let mut parts: Vec<String> = Vec::new();
        if depth == 0 {
            let step = ".".to_owned();
            proof {
                reveal_strlit(".");
            }
            assert(step@ =~= dot());
            parts.push(step);
        } else {
            for i in 0..depth
                invariant
                    parts@.len() == i,
                    forall|j: int| 0 <= j < i ==> #[trigger] parts@[j]@ == dot_dot(),
            {
                let step = "..".to_owned();
                proof {
                    reveal_strlit("..");
                }
                assert(step@ =~= dot_dot());
                parts.push(step);
            }
        }
        let r = UrlResolver { parts };
        assert(r@ =~= escape_parts(depth as nat));
        r
    }

    /// The location of the tree path `path` inside the mirror of the tree.
    pub fn tree_path(&self, path: &Vec<String>) -> (r: Self)
        ensures
            r@ == self@.push("tree"@) + names(path@),
    {
        let mut r = self.tree_dir();
        let n = path.len();
        for i in 0..n
            invariant
                n == path@.len(),
                r@ == self@.push("tree"@) + names(path@.take(i as int)),
        {
            r = r.join(path[i].as_str());
            assert(names(path@.take(i + 1)) =~= names(path@.take(i as int)).push(path@[i as int]@));
        }
        assert(path@.take(n as int) =~= path@);
        r
    }

    /// The location written out, its components separated by `/`.
    pub fn to_text(&self) -> (r: String)
        ensures
            r@ == joined(self@),
    {
        let mut text = String::new();
        let n = self.parts.len();
        for i in 0..n
            invariant
                n == self.parts@.len(),
                text@ == joined(self@.take(i as int)),
        {
            if i > 0 {
                text.append("/");
            }
            text.append(self.parts[i].as_str());
            proof {
                reveal_strlit("/");
                assert(self@.take(i + 1).drop_last() =~= self@.take(i as int));
            }
        }
        assert(self@.take(n as int) =~= self@);
        text
    }
}

} // verus!
