//! One level of the project file tree: which entries are hidden, and the
//! order they are shown in (directories first, then by name).
use vstd::prelude::*;

use crate::text::str_eq;

verus! {

/// A node of the file tree as the front end receives it.
#[derive(Debug)]
pub struct FileNode {
    pub name: String,
    pub path: String,
    pub is_dir: bool,
    pub children: Vec<FileNode>,
    pub depth: usize,
}

/// One directory entry as read from disk: its name (lossily decoded), the
/// raw bytes of its name (the sort key), its path and whether it is a
/// directory.
#[derive(Debug)]
pub struct DirEntryInfo {
    pub name: String,
    pub name_bytes: Vec<u8>,
    pub path: String,
    pub is_dir: bool,
}

/// The names of tool and build directories the tree leaves out.
pub open spec fn ignored_names() -> Seq<Seq<char>> {
    seq![
        ".git"@, ".svn"@, ".hg"@, "node_modules"@, "target"@, "build"@, "dist"@,
        "__pycache__"@, ".venv"@, "venv"@, ".idea"@, ".vscode"@, ".DS_Store"@, ".next"@,
        ".nuxt"@, ".cache"@, "Pods"@, "DerivedData"@, ".dart_tool"@, ".gradle"@,
        "coverage"@,
    ]
}

/// Bytes `a` come strictly before bytes `b` in lexicographic order.
pub open spec fn bytes_lt(a: Seq<u8>, b: Seq<u8>) -> bool
    decreases a.len(),
{
    if a.len() == 0 {
        b.len() > 0
    } else if b.len() == 0 {
        false
    } else if a[0] != b[0] {
        a[0] < b[0]
    } else {
        bytes_lt(a.drop_first(), b.drop_first())
    }
}

/// Entry `a` is shown before entry `b`: directories before files, then by
/// the bytes of the name.
pub open spec fn shown_before(a: DirEntryInfo, b: DirEntryInfo) -> bool {
    (a.is_dir && !b.is_dir) || (a.is_dir == b.is_dir && bytes_lt(a.name_bytes@, b.name_bytes@))
}

/// `s` with `x` inserted after the last element not shown after it.
pub open spec fn insert_sorted(s: Seq<DirEntryInfo>, x: DirEntryInfo) -> Seq<DirEntryInfo>
    decreases s.len(),
{
    if s.len() == 0 {
        seq![x]
    } else if shown_before(x, s.last()) {
        insert_sorted(s.drop_last(), x).push(s.last())
    } else {
        s.push(x)
    }
}

/// The stable sort of the entries by `shown_before`.
pub open spec fn sorted_entries(s: Seq<DirEntryInfo>) -> Seq<DirEntryInfo>
    decreases s.len(),
{
    if s.len() == 0 {
        s
    } else {
        insert_sorted(sorted_entries(s.drop_last()), s.last())
    }
}

/// The entries the tree shows.
pub open spec fn shown(s: Seq<DirEntryInfo>) -> Seq<DirEntryInfo> {
    s.filter(|e: DirEntryInfo| !ignored_names().contains(e.name@))
}

/// The plain fields of a node.
pub open spec fn node_fields(n: FileNode) -> (Seq<char>, Seq<char>, bool, nat, usize) {
    (n.name@, n.path@, n.is_dir, n.children@.len(), n.depth)
}

/// The node of an entry at a depth: no children yet (they load when the
/// directory is expanded).
pub open spec fn node_of(e: DirEntryInfo, depth: usize) -> (Seq<char>, Seq<char>, bool, nat, usize) {
    (e.name@, e.path@, e.is_dir, 0, depth)
}

/// The tree's view of a node: its name, path, kind, number of children and
/// depth, compared field by field.
pub open spec fn same_node(a: FileNode, b: FileNode) -> bool
    decreases a,
{
    &&& a.name@ == b.name@
    &&& a.path@ == b.path@
    &&& a.is_dir == b.is_dir
    &&& a.depth == b.depth
    &&& a.children@.len() == b.children@.len()
    &&& forall|i: int|
        0 <= i < a.children@.len() ==> same_node(#[trigger] a.children@[i], b.children@[i])
}

/// A copy of a node and, recursively, of its children.
pub fn copy_node(n: &FileNode) -> (r: FileNode)
    ensures
        same_node(*n, r),
    decreases n,
{
    let mut children: Vec<FileNode> = Vec::new();
    let mut i = 0usize;
    while i < n.children.len()
        invariant
            i <= n.children@.len(),
            children@.len() == i,
            forall|k: int| 0 <= k < i ==> same_node(#[trigger] n.children@[k], children@[k]),
        decreases n.children@.len() - i,
    {
        let c = copy_node(&n.children[i]);
        children.push(c);
        i += 1;
    }
    FileNode {
        name: n.name.clone(),
        path: n.path.clone(),
        is_dir: n.is_dir,
        children,
        depth: n.depth,
    }
}

/// Whether bytes `a` come strictly before bytes `b`.
pub fn bytes_less(a: &Vec<u8>, b: &Vec<u8>) -> (r: bool)
    ensures
        r == bytes_lt(a@, b@),
{
    let mut i = 0usize;
    assert(a@.subrange(0, a@.len() as int) =~= a@);
    assert(b@.subrange(0, b@.len() as int) =~= b@);
    while i < a.len() && i < b.len()
        invariant
            i <= a@.len(),
            i <= b@.len(),
            bytes_lt(a@, b@) == bytes_lt(a@.subrange(i as int, a@.len() as int), b@.subrange(i as int, b@.len() as int)),
        decreases a@.len() - i,
    {
        let ghost sa = a@.subrange(i as int, a@.len() as int);
        let ghost sb = b@.subrange(i as int, b@.len() as int);
        if a[i] != b[i] {
            return a[i] < b[i];
        }
        assert(sa.drop_first() =~= a@.subrange(i + 1, a@.len() as int));
        assert(sb.drop_first() =~= b@.subrange(i + 1, b@.len() as int));
        i += 1;
    }
    i < b.len()
}

/// Whether entry `a` is shown before entry `b`.
pub fn entry_before(a: &DirEntryInfo, b: &DirEntryInfo) -> (r: bool)
    ensures
        r == shown_before(*a, *b),
{
    if a.is_dir != b.is_dir {
        a.is_dir
    } else {
        bytes_less(&a.name_bytes, &b.name_bytes)
    }
}

/// `insert_sorted` stops at the last element that `x` is not shown before.
proof fn lemma_insert_split(s: Seq<DirEntryInfo>, x: DirEntryInfo, j: int)
    requires
        0 <= j <= s.len(),
        forall|k: int| j <= k < s.len() ==> shown_before(x, #[trigger] s[k]),
    ensures
        insert_sorted(s, x) == insert_sorted(s.subrange(0, j), x) + s.subrange(j, s.len() as int),
    decreases s.len() - j,
{
    if j < s.len() {
        let t = s.drop_last();
        assert(t.subrange(0, j) =~= s.subrange(0, j));
        lemma_insert_split(t, x, j);
        assert(insert_sorted(s, x) == insert_sorted(t, x).push(s.last()));
        assert(s.subrange(j, s.len() as int) =~= t.subrange(j, t.len() as int).push(s.last()));
        assert(insert_sorted(s, x) =~= insert_sorted(s.subrange(0, j), x) + s.subrange(j, s.len() as int));
    } else {
        assert(s.subrange(0, j) =~= s);
        assert(s.subrange(j, s.len() as int) =~= Seq::<DirEntryInfo>::empty());
        assert(insert_sorted(s, x) + Seq::<DirEntryInfo>::empty() =~= insert_sorted(s, x));
    }
}

/// Inserts `x` into `v` after the last entry it is not shown before.
fn insert_entry(v: &mut Vec<DirEntryInfo>, x: DirEntryInfo)
    ensures
        final(v)@ == insert_sorted(old(v)@, x),
{
    let mut j = v.len();
    while j > 0
        invariant
            j <= v@.len(),
            v@ == old(v)@,
            forall|k: int| j <= k < v@.len() ==> shown_before(x, #[trigger] v@[k]),
        ensures
            j <= v@.len(),
            v@ == old(v)@,
            forall|k: int| j <= k < v@.len() ==> shown_before(x, #[trigger] v@[k]),
            j == 0 || !shown_before(x, v@[j - 1]),
        decreases j,
    {
        if !entry_before(&x, &v[j - 1]) {
            break;
        }
        j -= 1;
    }
    proof {
        let s = v@;
        lemma_insert_split(s, x, j as int);
        let p = s.subrange(0, j as int);
        if j > 0 {
            assert(p.drop_last() =~= s.subrange(0, j - 1));
            assert(p.last() == s[j - 1]);
        }
        assert(insert_sorted(p, x) =~= p.push(x));
        assert(insert_sorted(s, x) =~= s.insert(j as int, x));
    }
    v.insert(j, x);
}

/// The nodes of a directory listing at a depth: the shown entries in the
/// order they are shown, without children.
pub open spec fn level_nodes(entries: Seq<DirEntryInfo>, depth: usize) -> Seq<(Seq<char>, Seq<char>, bool, nat, usize)> {
    sorted_entries(shown(entries)).map_values(|e: DirEntryInfo| node_of(e, depth))
}

/// The plain fields of each node.
pub open spec fn nodes_fields(nodes: Seq<FileNode>) -> Seq<(Seq<char>, Seq<char>, bool, nat, usize)> {
    nodes.map_values(|n: FileNode| node_fields(n))
}

/// The project file tree: its root and the first level below it.
#[derive(Debug)]
pub struct FileTree {
    pub root: String,
    pub children: Vec<FileNode>,
}

impl FileTree {
    /// Whether the tree leaves out an entry of this name.
    pub fn should_ignore(name: &str) -> (r: bool)
        ensures
            r == ignored_names().contains(name@),
    {
        let names = [
            ".git", ".svn", ".hg", "node_modules", "target", "build", "dist", "__pycache__", ".venv",
            "venv", ".idea", ".vscode", ".DS_Store", ".next", ".nuxt", ".cache", "Pods",
            "DerivedData", ".dart_tool", ".gradle", "coverage",
        ];
        let mut i = 0usize;
        assert(names@.map_values(|s: &str| s@) =~= ignored_names());
        while i < names.len()
            invariant
                i <= names@.len(),
                names@.map_values(|s: &str| s@) == ignored_names(),
                forall|j: int| 0 <= j < i ==> ignored_names()[j] != name@,
            decreases names@.len() - i,
        {
            if str_eq(name, names[i]) {
                assert(ignored_names()[i as int] == name@);
                return true;
            }
            i += 1;
        }
        assert(!ignored_names().contains(name@));
        false
    }

    /// One level of the tree from a directory listing: ignored entries are left
    /// out, directories come first, then entries by the bytes of their name.
    /// A listing that could not be read gives its error.
    pub fn scan_level(listing: Result<Vec<DirEntryInfo>, String>, depth: usize) -> (r: Result<
        Vec<FileNode>,
        String,
    >)
        ensures
            match (listing, r) {
                (Ok(entries), Ok(nodes)) => nodes_fields(nodes@) == level_nodes(entries@, depth),
                (Err(e), Err(f)) => f@ == e@,
                _ => false,
            },
    {
        let entries = match listing {
            Ok(v) => v,
            Err(e) => return Err(e),
        };
        let ghost all = entries@;
        let mut rest = entries;
        let mut sorted: Vec<DirEntryInfo> = Vec::new();
        let ghost mut done: Seq<DirEntryInfo> = Seq::empty();
        proof {
            reveal(Seq::filter);
            assert(done + rest@ =~= all);
        }
        while rest.len() > 0
            invariant
                all == done + rest@,
                sorted@ == sorted_entries(shown(done)),
            decreases rest@.len(),
        {
            let e = rest.remove(0);
            let ghost before = done;
            proof {
                done = done.push(e);
                assert(done + rest@ =~= all);
                assert(done.drop_last() =~= before);
                reveal(Seq::filter);
            }
            if !FileTree::should_ignore(e.name.as_str()) {
                proof {
                    assert(shown(done) =~= shown(before).push(e));
                    assert(shown(done).drop_last() =~= shown(before));
                }
                insert_entry(&mut sorted, e);
            } else {
                assert(shown(done) =~= shown(before));
            }
        }
        assert(done =~= all);
        let mut nodes: Vec<FileNode> = Vec::new();
        let ghost order = sorted@;
        let total: usize = sorted.len();
        let mut k = 0usize;
        let mut left = sorted;
        while left.len() > 0
            invariant
                k + left@.len() == order.len(),
                order.len() == total,
                left@ == order.subrange(k as int, order.len() as int),
                nodes@.len() == k,
                forall|i: int| 0 <= i < k ==> node_fields(#[trigger] nodes@[i]) == node_of(order[i], depth),
            decreases left@.len(),
        {
            let e = left.remove(0);
            nodes.push(FileNode { name: e.name, path: e.path, is_dir: e.is_dir, children: Vec::new(), depth });
            k += 1;
            assert(left@ =~= order.subrange(k as int, order.len() as int));
        }
        assert(nodes_fields(nodes@) =~= level_nodes(all, depth));
        Ok(nodes)
    }

    /// The tree of a project root. A root that is not a directory gives
    /// "Not a directory"; otherwise the first level is read from the listing.
    pub fn new(root: &str, root_is_dir: bool, listing: Result<Vec<DirEntryInfo>, String>) -> (r: Result<FileTree, String>)
        ensures
            !root_is_dir ==> (r matches Err(e) && e@ == "Not a directory"@),
            root_is_dir ==> match (listing, r) {
                (Ok(entries), Ok(t)) => t.root@ == root@ && nodes_fields(t.children@) == level_nodes(entries@, 0),
                (Err(e), Err(f)) => f@ == e@,
                _ => false,
            },
    {
        if !root_is_dir {
            return Err("Not a directory".to_owned());
        }
        let children = match FileTree::scan_level(listing, 0) {
            Ok(c) => c,
            Err(e) => return Err(e),
        };
        Ok(FileTree { root: root.to_owned(), children })
    }

    /// The nodes of the first level, copied.
    pub fn to_nodes(&self) -> (r: Vec<FileNode>)
        ensures
            r@.len() == self.children@.len(),
            forall|i: int| 0 <= i < r@.len() ==> same_node(self.children@[i], #[trigger] r@[i]),
    {
        let mut r: Vec<FileNode> = Vec::new();
        let mut i = 0usize;
        while i < self.children.len()
            invariant
                i <= self.children@.len(),
                r@.len() == i,
                forall|k: int| 0 <= k < i ==> same_node(self.children@[k], #[trigger] r@[k]),
            decreases self.children@.len() - i,
        {
            r.push(copy_node(&self.children[i]));
            i += 1;
        }
        r
    }
}

/// No entry of `s` is shown before one that comes earlier in `s`.
pub open spec fn in_shown_order(s: Seq<DirEntryInfo>) -> bool {
    forall|i: int, j: int| 0 <= i < j < s.len() ==> !shown_before(#[trigger] s[j], #[trigger] s[i])
}

proof fn lemma_bytes_lt_irreflexive(a: Seq<u8>)
    ensures
        !bytes_lt(a, a),
    decreases a.len(),
{
    if a.len() > 0 {
        lemma_bytes_lt_irreflexive(a.drop_first());
    }
}

proof fn lemma_bytes_lt_transitive(a: Seq<u8>, b: Seq<u8>, c: Seq<u8>)
    requires
        bytes_lt(a, b),
        bytes_lt(b, c),
    ensures
        bytes_lt(a, c),
    decreases a.len(),
{
    if a.len() > 0 && b.len() > 0 && c.len() > 0 && a[0] == b[0] && b[0] == c[0] {
        lemma_bytes_lt_transitive(a.drop_first(), b.drop_first(), c.drop_first());
    }
}

proof fn lemma_bytes_lt_total(a: Seq<u8>, b: Seq<u8>)
    ensures
        a == b || bytes_lt(a, b) || bytes_lt(b, a),
    decreases a.len(),
{
    if a.len() > 0 && b.len() > 0 && a[0] == b[0] {
        lemma_bytes_lt_total(a.drop_first(), b.drop_first());
        if a.drop_first() == b.drop_first() {
            assert(a =~= seq![a[0]] + a.drop_first());
            assert(b =~= seq![b[0]] + b.drop_first());
        }
    } else if a.len() == 0 && b.len() == 0 {
        assert(a =~= b);
    }
}

/// `shown_before` orders entries strictly and weakly: it is asymmetric and
/// "not shown before" is transitive.
proof fn lemma_shown_before_order(a: DirEntryInfo, b: DirEntryInfo, c: DirEntryInfo)
    ensures
        shown_before(a, b) ==> !shown_before(b, a),
        !shown_before(a, b) && !shown_before(b, c) ==> !shown_before(a, c),
{
    let (x, y, z) = (a.name_bytes@, b.name_bytes@, c.name_bytes@);
    lemma_bytes_lt_irreflexive(x);
    lemma_bytes_lt_irreflexive(y);
    lemma_bytes_lt_irreflexive(z);
    lemma_bytes_lt_total(x, y);
    lemma_bytes_lt_total(y, z);
    lemma_bytes_lt_total(x, z);
    if bytes_lt(x, y) && bytes_lt(y, x) {
        lemma_bytes_lt_transitive(x, y, x);
    }
    if bytes_lt(z, y) && bytes_lt(y, x) {
        lemma_bytes_lt_transitive(z, y, x);
    }
    if bytes_lt(x, z) && bytes_lt(z, y) {
        lemma_bytes_lt_transitive(x, z, y);
    }
    if bytes_lt(y, x) && bytes_lt(x, z) {
        lemma_bytes_lt_transitive(y, x, z);
    }
}

proof fn lemma_insert_sorted_contents(s: Seq<DirEntryInfo>, x: DirEntryInfo)
    ensures
        insert_sorted(s, x).to_multiset() == s.to_multiset().insert(x),
        insert_sorted(s, x).len() == s.len() + 1,
    decreases s.len(),
{
    broadcast use vstd::seq_lib::group_to_multiset_ensures;

    if s.len() > 0 {
        let t = s.drop_last();
        assert(t.push(s.last()) =~= s);
        if shown_before(x, s.last()) {
            lemma_insert_sorted_contents(t, x);
            assert(insert_sorted(s, x).to_multiset() =~= s.to_multiset().insert(x));
        }
    }
}

proof fn lemma_insert_sorted_ordered(s: Seq<DirEntryInfo>, x: DirEntryInfo)
    requires
        in_shown_order(s),
    ensures
        in_shown_order(insert_sorted(s, x)),
    decreases s.len(),
{
    broadcast use vstd::seq_lib::group_to_multiset_ensures;

    if s.len() > 0 {
        let t = s.drop_last();
        let last = s.last();
        if shown_before(x, last) {
            lemma_insert_sorted_ordered(t, x);
            lemma_insert_sorted_contents(t, x);
            let u = insert_sorted(t, x);
            assert forall|i: int| 0 <= i < u.len() implies !shown_before(last, #[trigger] u[i]) by {
                assert(u.to_multiset().count(u[i]) > 0);
                if u[i] == x {
                    lemma_shown_before_order(x, last, x);
                } else {
                    assert(t.contains(u[i]));
                    let k = choose|k: int| 0 <= k < t.len() && t[k] == u[i];
                    assert(s[k] == u[i] && s[s.len() - 1] == last);
                }
            }
            let r = u.push(last);
            assert forall|i: int, j: int| 0 <= i < j < r.len() implies !shown_before(#[trigger] r[j], #[trigger] r[i]) by {
                if j == r.len() - 1 {
                    assert(r[i] == u[i]);
                } else {
                    assert(r[i] == u[i] && r[j] == u[j]);
                }
            }
        } else {
            let r = s.push(x);
            assert forall|i: int, j: int| 0 <= i < j < r.len() implies !shown_before(#[trigger] r[j], #[trigger] r[i]) by {
                if j == r.len() - 1 && i < s.len() - 1 {
                    assert(r[i] == s[i]);
                    lemma_shown_before_order(x, last, s[i]);
                } else if j < r.len() - 1 {
                    assert(r[i] == s[i] && r[j] == s[j]);
                }
            }
        }
    }
}

proof fn lemma_sorted_entries(s: Seq<DirEntryInfo>)
    ensures
        in_shown_order(sorted_entries(s)),
        sorted_entries(s).to_multiset() == s.to_multiset(),
    decreases s.len(),
{
    broadcast use vstd::seq_lib::group_to_multiset_ensures;

    if s.len() > 0 {
        let t = s.drop_last();
        lemma_sorted_entries(t);
        lemma_insert_sorted_ordered(sorted_entries(t), s.last());
        lemma_insert_sorted_contents(sorted_entries(t), s.last());
        assert(t.push(s.last()) =~= s);
    }
}

/// A level of the tree lists directories before files, and within each
/// group orders entries by the bytes of their names.
pub proof fn lemma_level_in_order(entries: Seq<DirEntryInfo>)
    ensures
        in_shown_order(sorted_entries(shown(entries))),
{
    lemma_sorted_entries(shown(entries));
}

/// A level of the tree holds exactly the entries whose names are not
/// ignored, each as often as the listing holds it.
pub proof fn lemma_level_keeps_shown(entries: Seq<DirEntryInfo>)
    ensures
        sorted_entries(shown(entries)).to_multiset() == entries.filter(
            |e: DirEntryInfo| !ignored_names().contains(e.name@),
        ).to_multiset(),
        forall|e: DirEntryInfo|
            sorted_entries(shown(entries)).contains(e) ==> !ignored_names().contains(e.name@),
{
    broadcast use vstd::seq_lib::group_to_multiset_ensures;
    broadcast use vstd::seq_lib::group_filter_ensures;

    lemma_sorted_entries(shown(entries));
    let r = sorted_entries(shown(entries));
    assert forall|e: DirEntryInfo| r.contains(e) implies !ignored_names().contains(e.name@) by {
        assert(r.to_multiset().count(e) > 0);
        assert(shown(entries).contains(e));
        let k = choose|k: int| 0 <= k < shown(entries).len() && shown(entries)[k] == e;
    }
}

} // verus!
