use crate::adb::{info_view, string_views, AdbHelper};
use vstd::string::StringExecFns;
use crate::text::{chars_of, find_char, index_of, slice_chars, string_of};
use crate::fs_types::{file_type_of, FileInfo, FileType};
use vstd::prelude::*;

verus! {

/// One entry of the tree: its name within its parent, its kind, its
/// metadata, and the positions of its children in the tree's arena.
#[derive(Debug)]
pub struct FsEntry {
    pub name: String,
    pub file_type: FileType,
    pub metadata: FileInfo,
    pub children: Vec<usize>,
}

/// Position among `kids`, from `k` on, of the first child named `name`, or -1.
pub open spec fn named(nodes: Seq<FsEntry>, kids: Seq<usize>, name: Seq<char>, k: int) -> int
    decreases kids.len() - k,
{
    if k < 0 || k >= kids.len() {
        -1
    } else if kids[k] < nodes.len() && nodes[kids[k] as int].name@ == name {
        k
    } else {
        named(nodes, kids, name, k + 1)
    }
}

/// The first child of node `i` named `name`.
pub open spec fn child_named(nodes: Seq<FsEntry>, i: int, name: Seq<char>) -> Option<int> {
    let kids = nodes[i].children@;
    let p = named(nodes, kids, name, 0);
    if p < 0 {
        None
    } else {
        Some(kids[p] as int)
    }
}

/// The node that a path of names leads to from the root, node 0.
pub open spec fn resolve(nodes: Seq<FsEntry>, path: Seq<Seq<char>>) -> Option<int>
    decreases path.len(),
{
    if path.len() == 0 {
        Some(0)
    } else {
        match resolve(nodes, path.drop_last()) {
            Some(p) => child_named(nodes, p, path.last()),
            None => None,
        }
    }
}

/// Length of the longest start of `path` that leads to a node.
pub open spec fn known_prefix(nodes: Seq<FsEntry>, path: Seq<Seq<char>>) -> nat
    decreases path.len(),
{
    if path.len() == 0 || resolve(nodes, path) is Some {
        path.len()
    } else {
        known_prefix(nodes, path.drop_last())
    }
}

/// The arena is a tree rooted at node 0: every child lies after its parent.
pub open spec fn tree_wf(nodes: Seq<FsEntry>) -> bool {
    &&& nodes.len() >= 1
    &&& forall|i: int, k: int|
        0 <= i < nodes.len() && 0 <= k < nodes[i].children@.len() ==> i
            < #[trigger] nodes[i].children@[k] < nodes.len()
}

/// `b` is `a` with nodes added after it, the old nodes keeping their names
/// and each old node keeping its children or gaining some after them.
pub open spec fn grows(a: Seq<FsEntry>, b: Seq<FsEntry>) -> bool {
    &&& a.len() <= b.len()
    &&& forall|j: int| 0 <= j < a.len() ==> (#[trigger] b[j]).name@ == a[j].name@
    &&& forall|j: int|
        0 <= j < a.len() ==> a[j].children@.len() <= (#[trigger] b[j]).children@.len()
            && b[j].children@.subrange(0, a[j].children@.len() as int) == a[j].children@
}

/// The fields of `FileInfo::default()`, as `info_view` lists them.
pub open spec fn default_info() -> (int, Seq<char>, int, int, int, Seq<char>, Seq<char>, int) {
    (0, Seq::empty(), 0, 0, 0, Seq::empty(), Seq::empty(), 0)
}

/// Paths of names, one per component.
pub open spec fn path_view(p: Seq<String>) -> Seq<Seq<char>> {
    p.map_values(|s: String| s@)
}

/// The pieces of `s` between `c`s, from position `start` on, as `str::split` gives them.
pub open spec fn split_from(s: Seq<char>, c: char, start: int) -> Seq<Seq<char>>
    decreases s.len() - start,
{
    if start < 0 || start > s.len() {
        Seq::empty()
    } else {
        let e = index_of(s, c, start);
        if e < start || e >= s.len() {
            seq![s.subrange(start, s.len() as int)]
        } else {
            seq![s.subrange(start, e)] + split_from(s, c, e + 1)
        }
    }
}

/// The components that `Path::iter` gives for a path whose pieces between
/// separators are `ps`: the root first when the path is absolute, then each
/// non-empty piece, a `.` counting only as the first piece of a relative path.
pub open spec fn components_of(ps: Seq<Seq<char>>, rooted: bool) -> Seq<Seq<char>>
    decreases ps.len(),
{
    if ps.len() == 0 {
        if rooted {
            seq![seq!['/']]
        } else {
            Seq::empty()
        }
    } else {
        let prev = components_of(ps.drop_last(), rooted);
        let x = ps.last();
        if x.len() > 0 && (x != seq!['.'] || (ps.len() == 1 && !rooted)) {
            prev.push(x)
        } else {
            prev
        }
    }
}

pub open spec fn path_components_of(s: Seq<char>) -> Seq<Seq<char>> {
    components_of(split_from(s, '/', 0), s.len() > 0 && s[0] == '/')
}

/// `base` with `name` appended as `PathBuf::push` appends it.
pub open spec fn join(base: Seq<char>, name: Seq<char>) -> Seq<char> {
    if name.len() > 0 && name[0] == '/' {
        name
    } else if base.len() == 0 || base.last() == '/' {
        base + name
    } else {
        base + seq!['/'] + name
    }
}

/// The row for entry `c` reached inside `base`: its path, kind and number
/// of children.
pub open spec fn row_of(nodes: Seq<FsEntry>, c: int, base: Seq<char>) -> (Seq<char>, FileType, nat) {
    (join(base, nodes[c].name@), nodes[c].file_type, nodes[c].children@.len())
}

/// Rows for the first `k` children of node `i`, reached as `base`.
pub open spec fn kid_rows(nodes: Seq<FsEntry>, i: int, base: Seq<char>, k: int) -> Seq<
    (Seq<char>, FileType, nat),
>
    decreases k,
{
    if k <= 0 {
        Seq::empty()
    } else {
        kid_rows(nodes, i, base, k - 1).push(row_of(nodes, nodes[i].children@[k - 1] as int, base))
    }
}

/// The directories among the first `k` children of node `i`, each with its
/// path inside `base`.
pub open spec fn kid_dirs(nodes: Seq<FsEntry>, i: int, base: Seq<char>, k: int) -> Seq<(int, Seq<char>)>
    decreases k,
{
    if k <= 0 {
        Seq::empty()
    } else {
        let prev = kid_dirs(nodes, i, base, k - 1);
        let c = nodes[i].children@[k - 1] as int;
        if 0 <= c < nodes.len() && nodes[c].file_type == FileType::Directory {
            prev.push((c, join(base, nodes[c].name@)))
        } else {
            prev
        }
    }
}

/// The rows of one level: the children of each directory of `f`, the
/// directories in order and each one's children in stored order.
pub open spec fn level_rows(nodes: Seq<FsEntry>, f: Seq<(int, Seq<char>)>) -> Seq<
    (Seq<char>, FileType, nat),
>
    decreases f.len(),
{
    if f.len() == 0 {
        Seq::empty()
    } else {
        let i = f.last().0;
        level_rows(nodes, f.drop_last()) + kid_rows(nodes, i, f.last().1, nodes[i].children@.len() as int)
    }
}

/// The next level: the directories among the children of each directory of `f`.
pub open spec fn level_next(nodes: Seq<FsEntry>, f: Seq<(int, Seq<char>)>) -> Seq<(int, Seq<char>)>
    decreases f.len(),
{
    if f.len() == 0 {
        Seq::empty()
    } else {
        let i = f.last().0;
        level_next(nodes, f.drop_last()) + kid_dirs(nodes, i, f.last().1, nodes[i].children@.len() as int)
    }
}

/// Breadth-first rows below the directories `f`: the rows of their level,
/// then those of the next level, for at most `fuel` levels.
pub open spec fn bfs_rows(nodes: Seq<FsEntry>, f: Seq<(int, Seq<char>)>, fuel: nat) -> Seq<
    (Seq<char>, FileType, nat),
>
    decreases fuel,
{
    if fuel == 0 || f.len() == 0 {
        Seq::empty()
    } else {
        level_rows(nodes, f) + bfs_rows(nodes, level_next(nodes, f), (fuel - 1) as nat)
    }
}

pub open spec fn frontier_view(f: Seq<(usize, Vec<char>)>) -> Seq<(int, Seq<char>)> {
    f.map_values(|e: (usize, Vec<char>)| (e.0 as int, e.1@))
}

pub open spec fn row_views(v: Seq<(String, FileType, usize)>) -> Seq<(Seq<char>, FileType, nat)> {
    v.map_values(|e: (String, FileType, usize)| (e.0@, e.1, e.2 as nat))
}

/// The children of node `i`: name, kind and metadata of each, in order.
pub open spec fn children_rows(nodes: Seq<FsEntry>, i: int) -> Seq<
    (Seq<char>, FileType, (int, Seq<char>, int, int, int, Seq<char>, Seq<char>, int)),
> {
    Seq::new(
        nodes[i].children@.len(),
        |k: int|
            {
                let c = nodes[i].children@[k] as int;
                (nodes[c].name@, nodes[c].file_type, info_view(nodes[c].metadata))
            },
    )
}

pub open spec fn child_views(v: Seq<(String, FileType, FileInfo)>) -> Seq<
    (Seq<char>, FileType, (int, Seq<char>, int, int, int, Seq<char>, Seq<char>, int)),
> {
    v.map_values(|e: (String, FileType, FileInfo)| (e.0@, e.1, info_view(e.2)))
}

/// `base` with `name` appended as `PathBuf::push` appends it.
pub fn join_path(base: &Vec<char>, name: &Vec<char>) -> (r: Vec<char>)
    ensures
        r@ == join(base@, name@),
{
    if name.len() > 0 && name[0] == '/' {
        return slice_chars(name, 0, name.len());
    }
    let mut out = slice_chars(base, 0, base.len());
    if base.len() > 0 && base[base.len() - 1] != '/' {
        out.push('/');
    }
    let ghost start = out@;
    let mut k: usize = 0;
    while k < name.len()
        invariant
            k <= name@.len(),
            out@ == start + name@.take(k as int),
        decreases name@.len() - k,
    {
        out.push(name[k]);
        proof {
            assert(name@.take(k + 1) =~= name@.take(k as int).push(name@[k as int]));
        }
        k = k + 1;
    }
    proof {
        assert(name@.take(k as int) =~= name@);
        assert(base@.subrange(0, base@.len() as int) =~= base@);
        if base@.len() > 0 && base@.last() != '/' {
            assert(start =~= base@ + seq!['/']);
        } else {
            assert(start =~= base@);
        }
    }
    out
}

/// The children of node `i` that are directories, in order.
pub open spec fn dir_kids(nodes: Seq<FsEntry>, kids: Seq<usize>) -> Seq<usize> {
    kids.filter(is_dir_in(nodes))
}

/// Holds of the positions of directories in `nodes`.
pub open spec fn is_dir_in(nodes: Seq<FsEntry>) -> spec_fn(usize) -> bool {
    |c: usize| c < nodes.len() && nodes[c as int].file_type == FileType::Directory
}

/// Path of the entry `name` inside the directory at `base`.
pub open spec fn child_path(base: Seq<char>, name: Seq<char>) -> Seq<char> {
    if base == seq!['/'] {
        seq!['/'] + name
    } else {
        base + seq!['/'] + name
    }
}

/// A directory and, recursively, the directories inside it.
pub struct DirTree {
    pub name: String,
    pub path: String,
    pub rows: Vec<DirTree>,
}

/// `f` lists the directories among the children of node `i`, in order,
/// each with its name, its path inside `base`, and its own directories.
pub open spec fn forest_matches(nodes: Seq<FsEntry>, i: int, base: Seq<char>, f: Seq<DirTree>) -> bool
    decreases nodes.len() - i, 0int,
{
    if !(0 <= i < nodes.len()) {
        f.len() == 0
    } else {
        let ds = dir_kids(nodes, nodes[i].children@);
        &&& f.len() == ds.len()
        &&& forall|k: int|
            0 <= k < f.len() ==> i < ds[k] && tree_matches(
                nodes,
                ds[k] as int,
                child_path(base, nodes[ds[k] as int].name@),
                #[trigger] f[k],
            )
    }
}

/// `t` is directory `c`, at `path`, with its own directories.
pub open spec fn tree_matches(nodes: Seq<FsEntry>, c: int, path: Seq<char>, t: DirTree) -> bool
    decreases nodes.len() - c, 1int,
{
    &&& 0 <= c < nodes.len()
    &&& t.name@ == nodes[c].name@
    &&& t.path@ == path
    &&& forest_matches(nodes, c, path, t.rows@)
}

/// A directory listing: each child's name and, for a directory with
/// children, its own listing.
pub struct Listing {
    pub entries: Vec<(String, Option<Listing>)>,
}

/// `l` lists node `c`: a directory with children gets a listing of each
/// child in order; any other node gets none.
pub open spec fn listing_matches(nodes: Seq<FsEntry>, c: int, l: Option<Listing>) -> bool
    decreases nodes.len() - c,
{
    if !(0 <= c < nodes.len()) {
        l is None
    } else if nodes[c].file_type == FileType::Directory && nodes[c].children@.len() > 0 {
        let kids = nodes[c].children@;
        &&& l is Some
        &&& l->0.entries@.len() == kids.len()
        &&& forall|k: int|
            0 <= k < kids.len() ==> c < kids[k] < nodes.len() && (#[trigger] l->0.entries@[k]).0@
                == nodes[kids[k] as int].name@ && listing_matches(nodes, kids[k] as int, l->0.entries@[k].1)
    } else {
        l is None
    }
}

/// The name a subtree is shown under: the last component of `path` when it
/// names an entry, else `[ROOT]`.
pub open spec fn display_name(path: Seq<char>) -> Seq<char> {
    let cs = path_components_of(path);
    if path.len() > 0 && cs.len() > 0 && cs.last() != seq!['/'] && cs.last() != seq!['.']
        && cs.last() != seq!['.', '.'] {
        cs.last()
    } else {
        seq!['[', 'R', 'O', 'O', 'T', ']']
    }
}

/// The directory that subtree paths start from: `/` for an empty path.
pub open spec fn subtree_base(path: Seq<char>) -> Seq<char> {
    if path.len() == 0 {
        seq!['/']
    } else {
        path
    }
}

/// Path of the entry `name` inside the directory at `base`.
pub fn child_path_chars(base: &Vec<char>, name: &Vec<char>) -> (r: Vec<char>)
    ensures
        r@ == child_path(base@, name@),
{
    let mut out: Vec<char>;
    if base.len() == 1 && base[0] == '/' {
        out = Vec::new();
        out.push('/');
        proof {
            assert(base@ =~= seq!['/']);
        }
    } else {
        out = slice_chars(base, 0, base.len());
        out.push('/');
        proof {
            assert(base@.subrange(0, base@.len() as int) =~= base@);
            if base@ == seq!['/'] {
                assert(base@[0] == '/');
            }
        }
    }
    let ghost start = out@;
    let mut k: usize = 0;
    while k < name.len()
        invariant
            k <= name@.len(),
            out@ == start + name@.take(k as int),
        decreases name@.len() - k,
    {
        out.push(name[k]);
        proof {
            assert(name@.take(k + 1) =~= name@.take(k as int).push(name@[k as int]));
        }
        k = k + 1;
    }
    proof {
        assert(name@.take(k as int) =~= name@);
    }
    out
}

/// Splits a path into its components as `Path::iter` does.
pub fn path_components(s: &str) -> (r: Vec<String>)
    ensures
        string_views(r@) == path_components_of(s@),
{
    let text = chars_of(s);
    let n = text.len();
    let rooted = n > 0 && text[0] == '/';
    let ghost ps = split_from(text@, '/', 0);
    let mut out: Vec<String> = Vec::new();
    if rooted {
        let mut root: Vec<char> = Vec::new();
        root.push('/');
        proof {
            assert(root@ =~= seq!['/']);
        }
        out.push(string_of(root.as_slice()));
        proof {
            assert(string_views(out@) =~= seq![seq!['/']]);
        }
    }
    let ghost mut done: Seq<Seq<char>> = Seq::empty();
    proof {
        assert(components_of(done, rooted) =~= string_views(out@));
        assert(done + split_from(text@, '/', 0) =~= ps);
    }
    let mut pos: usize = 0;
    let mut more = true;
    while more
        invariant
            n == text@.len(),
            rooted == (text@.len() > 0 && text@[0] == '/'),
            ps == split_from(text@, '/', 0),
            pos <= n,
            more ==> done + split_from(text@, '/', pos as int) == ps,
            !more ==> done == ps,
            more ==> ((pos == 0) == (done.len() == 0)),
            string_views(out@) == components_of(done, rooted),
        decreases n - pos + (if more {
            1int
        } else {
            0int
        }),
    {
        let (piece, next) = match find_char(&text, '/', pos) {
            Some(e) => (slice_chars(&text, pos, e), Some(e + 1)),
            None => (slice_chars(&text, pos, n), None),
        };
        let keep = piece.len() > 0 && (!(piece.len() == 1 && piece[0] == '.') || (pos == 0
            && !rooted));
        proof {
            let ps2 = done.push(piece@);
            assert(ps2.drop_last() =~= done);
            assert(piece@ == seq!['.'] <==> (piece@.len() == 1 && piece@[0] == '.')) by {
                if piece@.len() == 1 && piece@[0] == '.' {
                    assert(piece@ =~= seq!['.']);
                }
            }
        }
        if keep {
            let st = string_of(piece.as_slice());
            proof {
                assert(string_views(out@.push(st)) =~= string_views(out@).push(st@));
            }
            out.push(st);
        }
        proof {
            match next {
                Some(e1) => {
                    assert(done.push(piece@) + split_from(text@, '/', e1 as int) =~= done
                        + split_from(text@, '/', pos as int));
                },
                None => {
                    assert(done.push(piece@) =~= done + split_from(text@, '/', pos as int));
                },
            }
            done = done.push(piece@);
        }
        match next {
            Some(e1) => {
                pos = e1;
            },
            None => {
                more = false;
            },
        }
    }
    out
}

proof fn lemma_named_grows(a: Seq<FsEntry>, b: Seq<FsEntry>, ka: Seq<usize>, kb: Seq<usize>, name: Seq<char>, k: int)
    requires
        grows(a, b),
        ka.len() <= kb.len(),
        kb.subrange(0, ka.len() as int) == ka,
        forall|j: int| 0 <= j < ka.len() ==> #[trigger] ka[j] < a.len(),
        0 <= k <= ka.len(),
        named(a, ka, name, k) >= 0,
    ensures
        named(b, kb, name, k) == named(a, ka, name, k),
    decreases ka.len() - k,
{
    assert(kb[k] == ka[k]);
    if !(a[ka[k] as int].name@ == name) {
        lemma_named_grows(a, b, ka, kb, name, k + 1);
    }
}

/// What led to a node still leads to it once the tree has grown.
proof fn lemma_resolve_grows(a: Seq<FsEntry>, b: Seq<FsEntry>, path: Seq<Seq<char>>)
    requires
        tree_wf(a),
        grows(a, b),
        resolve(a, path) is Some,
    ensures
        resolve(b, path) == resolve(a, path),
    decreases path.len(),
{
    if path.len() > 0 {
        lemma_resolve_grows(a, b, path.drop_last());
        let p = resolve(a, path.drop_last())->0;
        assert(0 <= p < a.len()) by {
            lemma_resolve_in_tree(a, path.drop_last());
        }
        let ka = a[p].children@;
        let kb = b[p].children@;
        assert forall|j: int| 0 <= j < ka.len() implies #[trigger] ka[j] < a.len() by {
            assert(p < a[p].children@[j] < a.len());
        }
        lemma_named_grows(a, b, ka, kb, path.last(), 0);
        let q = named(a, ka, path.last(), 0);
        lemma_named_range(a, ka, path.last(), 0);
        assert(kb.subrange(0, ka.len() as int)[q] == kb[q]);
    }
}

/// Every node that a path leads to lies in the arena.
pub proof fn lemma_resolve_in_tree(nodes: Seq<FsEntry>, path: Seq<Seq<char>>)
    requires
        tree_wf(nodes),
        resolve(nodes, path) is Some,
    ensures
        0 <= resolve(nodes, path)->0 < nodes.len(),
    decreases path.len(),
{
    if path.len() > 0 {
        lemma_resolve_in_tree(nodes, path.drop_last());
        let p = resolve(nodes, path.drop_last())->0;
        let kids = nodes[p].children@;
        let q = named(nodes, kids, path.last(), 0);
        lemma_named_range(nodes, kids, path.last(), 0);
        assert(p < nodes[p].children@[q] < nodes.len());
    }
}

proof fn lemma_named_range(nodes: Seq<FsEntry>, kids: Seq<usize>, name: Seq<char>, k: int)
    requires
        0 <= k,
    ensures
        named(nodes, kids, name, k) == -1 || k <= named(nodes, kids, name, k) < kids.len(),
    decreases kids.len() - k,
{
    if k < kids.len() {
        lemma_named_range(nodes, kids, name, k + 1);
    }
}

/// Appending a child that no earlier child's name matches makes it the match.
proof fn lemma_named_append(nodes: Seq<FsEntry>, kids: Seq<usize>, x: usize, name: Seq<char>, k: int)
    requires
        0 <= k <= kids.len(),
        named(nodes, kids, name, k) == -1,
        x < nodes.len(),
        nodes[x as int].name@ == name,
    ensures
        named(nodes, kids.push(x), name, k) == kids.len(),
    decreases kids.len() - k,
{
    if k < kids.len() {
        lemma_named_append(nodes, kids, x, name, k + 1);
    }
}

/// A start of a path that leads to a node is led to by every shorter start.
proof fn lemma_prefix_closed(nodes: Seq<FsEntry>, path: Seq<Seq<char>>, i: int)
    requires
        0 <= i <= path.len(),
        resolve(nodes, path) is Some,
    ensures
        resolve(nodes, path.take(i)) is Some,
    decreases path.len() - i,
{
    if i < path.len() {
        assert(path.drop_last() =~= path.take(path.len() - 1));
        lemma_prefix_closed(nodes, path.drop_last(), i);
        assert(path.drop_last().take(i) =~= path.take(i));
    } else {
        assert(path.take(i) =~= path);
    }
}

/// `known_prefix` is the length of the longest start that leads to a node.
proof fn lemma_known_prefix(nodes: Seq<FsEntry>, path: Seq<Seq<char>>, i: int)
    requires
        0 <= i <= path.len(),
    ensures
        known_prefix(nodes, path) <= path.len(),
        resolve(nodes, path.take(known_prefix(nodes, path) as int)) is Some,
        i <= known_prefix(nodes, path) ==> resolve(nodes, path.take(i)) is Some,
        i > known_prefix(nodes, path) ==> resolve(nodes, path.take(i)) is None,
    decreases path.len(),
{
    if path.len() == 0 || resolve(nodes, path) is Some {
        assert(path.take(path.len() as int) =~= path);
        if i <= path.len() {
            lemma_prefix_closed(nodes, path, i);
        }
    } else {
        let d = path.drop_last();
        if i < path.len() {
            lemma_known_prefix(nodes, d, i);
            assert(d.take(i) =~= path.take(i));
        } else {
            lemma_known_prefix(nodes, d, 0);
            assert(path.take(i) =~= path);
        }
        let kp = known_prefix(nodes, d) as int;
        assert(d.take(kp) =~= path.take(kp));
    }
}

proof fn lemma_named_absent_grows(a: Seq<FsEntry>, b: Seq<FsEntry>, kids: Seq<usize>, name: Seq<char>, k: int)
    requires
        grows(a, b),
        forall|j: int| 0 <= j < kids.len() ==> #[trigger] kids[j] < a.len(),
        0 <= k <= kids.len(),
        named(a, kids, name, k) == -1,
    ensures
        named(b, kids, name, k) == -1,
    decreases kids.len() - k,
{
    if k < kids.len() {
        lemma_named_absent_grows(a, b, kids, name, k + 1);
    }
}

proof fn lemma_grows_trans(a: Seq<FsEntry>, b: Seq<FsEntry>, c: Seq<FsEntry>)
    requires
        grows(a, b),
        grows(b, c),
    ensures
        grows(a, c),
{
    assert forall|j: int| 0 <= j < a.len() implies a[j].children@.len() <= (#[trigger] c[j]).children@.len()
        && c[j].children@.subrange(0, a[j].children@.len() as int) == a[j].children@ by {
        assert(b[j].children@.subrange(0, a[j].children@.len() as int) == a[j].children@);
        assert(c[j].children@.subrange(0, b[j].children@.len() as int) == b[j].children@);
        assert(c[j].children@.subrange(0, a[j].children@.len() as int) =~= b[j].children@.subrange(
            0,
            a[j].children@.len() as int,
        ));
    }
}

proof fn lemma_grows_refl(a: Seq<FsEntry>)
    ensures
        grows(a, a),
{
    assert forall|j: int| 0 <= j < a.len() implies (#[trigger] a[j]).children@.subrange(
        0,
        a[j].children@.len() as int,
    ) == a[j].children@ by {
        assert(a[j].children@.subrange(0, a[j].children@.len() as int) =~= a[j].children@);
    }
}

impl FsEntry {
    /// A directory entry with the given name and metadata and no children.
    pub fn new(name: String, metadata: FileInfo) -> (r: Self)
        ensures
            r.name == name,
            r.file_type == FileType::Directory,
            r.metadata == metadata,
            r.children@.len() == 0,
    {
        FsEntry { name, file_type: FileType::Directory, metadata, children: Vec::new() }
    }
}

/// The device's file tree, held as an arena whose node 0 is the root.
pub struct FSNode {
    nodes: Vec<FsEntry>,
}

impl FSNode {
    #[verifier::type_invariant]
    spec fn inv(&self) -> bool {
        tree_wf(self.nodes@)
    }

    pub closed spec fn view(&self) -> Seq<FsEntry> {
        self.nodes@
    }

    /// A tree holding only its root, a directory with the given metadata.
    pub fn new(metadata: FileInfo) -> (r: Self)
        ensures
            r@.len() == 1,
            r@[0].file_type == FileType::Directory,
            r@[0].metadata == metadata,
            r@[0].children@.len() == 0,
    {
        let root = FsEntry::new(String::new(), metadata);
        let mut nodes: Vec<FsEntry> = Vec::new();
        nodes.push(root);
        FSNode { nodes }
    }

    pub fn len(&self) -> (r: usize)
        ensures
            r == self@.len(),
    {
        self.nodes.len()
    }

    pub fn node(&self, i: usize) -> (r: &FsEntry)
        requires
            i < self@.len(),
        ensures
            *r == self@[i as int],
    {
        &self.nodes[i]
    }

    /// The first child of node `i` named `name`.
    pub fn find_child(&self, i: usize, name: &String) -> (r: Option<usize>)
        requires
            i < self@.len(),
        ensures
            r is None ==> child_named(self@, i as int, name@) is None,
            r is Some ==> child_named(self@, i as int, name@) == Some(r->0 as int),
    {
        proof {
            use_type_invariant(self);
        }
        let kids = &self.nodes[i].children;
        let mut k: usize = 0;
        while k < kids.len()
            invariant
                tree_wf(self.nodes@),
                i < self.nodes@.len(),
                kids@ == self.nodes@[i as int].children@,
                k <= kids@.len(),
                named(self.nodes@, kids@, name@, 0) == named(self.nodes@, kids@, name@, k as int),
            decreases kids@.len() - k,
        {
            let c = kids[k];
            assert(i < self.nodes@[i as int].children@[k as int] < self.nodes@.len());
            if self.nodes[c].name == *name {
                return Some(c);
            }
            k = k + 1;
        }
        None
    }

    /// The node that `path` leads to from the root.
    pub fn lookup(&self, path: &Vec<String>) -> (r: Option<usize>)
        ensures
            r is None ==> resolve(self@, path_view(path@)) is None,
            r is Some ==> resolve(self@, path_view(path@)) == Some(r->0 as int) && r->0 < self@.len(),
    {
        proof {
            use_type_invariant(self);
        }
        let ghost pv = path_view(path@);
        let mut cur: usize = 0;
        let mut i: usize = 0;
        while i < path.len()
            invariant
                tree_wf(self.nodes@),
                pv == path_view(path@),
                i <= path@.len(),
                resolve(self.nodes@, pv.take(i as int)) == Some(cur as int),
                cur < self.nodes@.len(),
            decreases path@.len() - i,
        {
            proof {
                assert(pv.take(i + 1).drop_last() =~= pv.take(i as int));
                assert(pv.take(i + 1).last() == path@[i as int]@);
            }
            match self.find_child(cur, &path[i]) {
                Some(c) => {
                    proof {
                        lemma_resolve_in_tree(self.nodes@, pv.take(i + 1));
                    }
                    cur = c;
                },
                None => {
                    proof {
                        assert(resolve(self.nodes@, pv.take(i + 1)) is None);
                        lemma_known_prefix(self.nodes@, pv, i + 1);
                        lemma_known_prefix(self.nodes@, pv, path@.len() as int);
                        assert(pv.take(path@.len() as int) =~= pv);
                    }
                    return None;
                },
            }
            i = i + 1;
        }
        proof {
            assert(pv.take(i as int) =~= pv);
        }
        Some(cur)
    }

    /// Adds the entry at `path`, split into components as `Path::iter`
    /// splits it; see `add_path`.
    pub fn add_child(&mut self, path: &str, file_type: FileType, metadata: FileInfo) -> (r: usize)
        ensures
            resolve(final(self)@, path_components_of(path@)) is Some,
            final(self)@[resolve(final(self)@, path_components_of(path@))->0].file_type == file_type,
            final(self)@[resolve(final(self)@, path_components_of(path@))->0].metadata == metadata,
            forall|p: Seq<Seq<char>>|
                #[trigger] resolve(old(self)@, p) is Some ==> resolve(final(self)@, p) == resolve(
                    old(self)@,
                    p,
                ),
            r == path_components_of(path@).len() - known_prefix(old(self)@, path_components_of(path@)),
            final(self)@.len() == old(self)@.len() + r,
            forall|j: int|
                0 <= j < old(self)@.len() && j != resolve(final(self)@, path_components_of(path@))->0
                    ==> (#[trigger] final(self)@[j]).file_type == old(self)@[j].file_type
                    && final(self)@[j].metadata == old(self)@[j].metadata,
            forall|j: int|
                old(self)@.len() <= j < final(self)@.len() && j != resolve(
                    final(self)@,
                    path_components_of(path@),
                )->0 ==> (#[trigger] final(self)@[j]).file_type == FileType::Directory && info_view(
                    final(self)@[j].metadata,
                ) == default_info(),
    {
        let comps = path_components(path);
        proof {
            assert(path_view(comps@) == string_views(comps@));
        }
        self.add_path(&comps, file_type, metadata)
    }

    /// Adds the entry at `path`, creating the directories on the way that
    /// are missing, and gives it `file_type` and `metadata`. Returns how many
    /// nodes were created.
    pub fn add_path(&mut self, path: &Vec<String>, file_type: FileType, metadata: FileInfo) -> (r:
        usize)
        ensures
            resolve(final(self)@, path_view(path@)) is Some,
            final(self)@[resolve(final(self)@, path_view(path@))->0].file_type == file_type,
            final(self)@[resolve(final(self)@, path_view(path@))->0].metadata == metadata,
            forall|p: Seq<Seq<char>>|
                #[trigger] resolve(old(self)@, p) is Some ==> resolve(final(self)@, p) == resolve(
                    old(self)@,
                    p,
                ),
            r == path@.len() - known_prefix(old(self)@, path_view(path@)),
            final(self)@.len() == old(self)@.len() + r,
            forall|j: int|
                0 <= j < old(self)@.len() && j != resolve(final(self)@, path_view(path@))->0 ==> (
                #[trigger] final(self)@[j]).file_type == old(self)@[j].file_type && final(self)@[j].metadata
                    == old(self)@[j].metadata,
            forall|j: int|
                old(self)@.len() <= j < final(self)@.len() && j != resolve(final(self)@, path_view(path@))->0
                    ==> (#[trigger] final(self)@[j]).file_type == FileType::Directory && info_view(
                    final(self)@[j].metadata,
                ) == default_info(),
    {
        let mut held = FSNode::new(FileInfo::default());
        std::mem::swap(self, &mut held);
        proof {
            use_type_invariant(&held);
        }
        let FSNode { mut nodes } = held;
        let ghost start = nodes@;
        let ghost pv = path_view(path@);
        let ghost kp = known_prefix(start, pv) as int;
        proof {
            lemma_known_prefix(start, pv, 0);
            lemma_grows_refl(start);
            assert(pv.take(0) =~= Seq::<Seq<char>>::empty());
        }
        let mut cur: usize = 0;
        let mut i: usize = 0;
        let mut created: usize = 0;
        while i < path.len()
            invariant
                tree_wf(start),
                tree_wf(nodes@),
                grows(start, nodes@),
                pv == path_view(path@),
                pv.len() == path@.len(),
                kp == known_prefix(start, pv) as int,
                0 <= kp <= pv.len(),
                i <= path@.len(),
                cur < nodes@.len(),
                resolve(nodes@, pv.take(i as int)) == Some(cur as int),
                created == (if i <= kp {
                    0
                } else {
                    i - kp
                }),
                i <= kp ==> nodes@ == start,
                i > kp ==> nodes@[cur as int].children@.len() == 0,
                nodes@.len() == start.len() + created,
                forall|j: int|
                    0 <= j < start.len() ==> (#[trigger] nodes@[j]).file_type == start[j].file_type
                        && nodes@[j].metadata == start[j].metadata,
                forall|j: int|
                    start.len() <= j < nodes@.len() ==> (#[trigger] nodes@[j]).file_type
                        == FileType::Directory && info_view(nodes@[j].metadata) == default_info(),
            decreases path@.len() - i,
        {
            proof {
                assert(pv.take(i + 1).drop_last() =~= pv.take(i as int));
                assert(pv.take(i + 1).last() == path@[i as int]@);
            }
            let mut found: Option<usize> = None;
            let mut k: usize = 0;
            let kids_len = nodes[cur].children.len();
            while k < kids_len && found.is_none()
                invariant
                    tree_wf(nodes@),
                    cur < nodes@.len(),
                    i < path@.len(),
                    kids_len == nodes@[cur as int].children@.len(),
                    k <= kids_len,
                    found is None ==> named(nodes@, nodes@[cur as int].children@, path@[i as int]@, 0)
                        == named(nodes@, nodes@[cur as int].children@, path@[i as int]@, k as int),
                    found is Some ==> child_named(nodes@, cur as int, path@[i as int]@) == Some(
                        found->0 as int,
                    ),
                decreases kids_len - k + (if found is None {
                    1int
                } else {
                    0int
                }),
            {
                let c = nodes[cur].children[k];
                assert(cur < nodes@[cur as int].children@[k as int] < nodes@.len());
                if nodes[c].name == path[i] {
                    found = Some(c);
                } else {
                    k = k + 1;
                }
            }
            match found {
                Some(c) => {
                    proof {
                        if i >= kp {
                            if i > kp {
                                assert(nodes@[cur as int].children@.len() == 0);
                            } else {
                                lemma_known_prefix(start, pv, i + 1);
                            }
                        }
                        lemma_resolve_in_tree(nodes@, pv.take(i + 1));
                    }
                    cur = c;
                },
                None => {
                    proof {
                        if i < kp {
                            lemma_known_prefix(start, pv, i + 1);
                        }
                    }
                    let ghost before = nodes@;
                    let fresh = nodes.len();
                    nodes.push(FsEntry::new(path[i].clone(), FileInfo::default()));
                    nodes[cur].children.push(fresh);
                    proof {
                        let kids = before[cur as int].children@;
                        assert(nodes@[cur as int].children@ == kids.push(fresh));
                        assert forall|j: int| 0 <= j < before.len() implies (#[trigger] nodes@[j]).name@
                            == before[j].name@ by {}
                        assert forall|j: int| 0 <= j < before.len() implies before[j].children@.len()
                            <= (#[trigger] nodes@[j]).children@.len() && nodes@[j].children@.subrange(
                            0,
                            before[j].children@.len() as int,
                        ) == before[j].children@ by {
                            if j == cur {
                                assert(kids.push(fresh).subrange(0, kids.len() as int) =~= kids);
                            } else {
                                assert(nodes@[j].children@.subrange(0, before[j].children@.len() as int)
                                    =~= before[j].children@);
                            }
                        }
                        assert(grows(before, nodes@));
                        assert forall|j: int| 0 <= j < start.len() implies (#[trigger] nodes@[j]).file_type
                            == start[j].file_type && nodes@[j].metadata == start[j].metadata by {
                            assert(nodes@[j].file_type == before[j].file_type);
                        }
                        assert forall|j: int| start.len() <= j < nodes@.len() implies (
                        #[trigger] nodes@[j]).file_type == FileType::Directory && info_view(
                            nodes@[j].metadata,
                        ) == default_info() by {
                            if j < before.len() {
                                assert(nodes@[j].file_type == before[j].file_type);
                                assert(nodes@[j].metadata == before[j].metadata);
                            } else {
                                assert(j == fresh);
                            }
                        }
                        assert forall|a: int, b: int|
                            0 <= a < nodes@.len() && 0 <= b < nodes@[a].children@.len() implies a
                            < #[trigger] nodes@[a].children@[b] < nodes@.len() by {
                            if a < before.len() && a != cur {
                                assert(nodes@[a].children@ == before[a].children@);
                            }
                            if a == cur && b < kids.len() {
                                assert(nodes@[a].children@[b] == kids[b]);
                            }
                        }
                        assert(tree_wf(nodes@));
                        lemma_grows_trans(start, before, nodes@);
                        lemma_resolve_grows(before, nodes@, pv.take(i as int));
                        assert forall|j: int| 0 <= j < kids.len() implies #[trigger] kids[j]
                            < before.len() by {
                            assert(cur < before[cur as int].children@[j] < before.len());
                        }
                        lemma_named_absent_grows(before, nodes@, kids, path@[i as int]@, 0);
                        lemma_named_append(nodes@, kids, fresh, path@[i as int]@, 0);
                        assert(resolve(nodes@, pv.take(i + 1)) == Some(fresh as int));
                    }
                    cur = fresh;
                    created = created + 1;
                },
            }
            i = i + 1;
        }
        proof {
            assert(pv.take(i as int) =~= pv);
        }
        let ghost before = nodes@;
        nodes[cur].file_type = file_type;
        nodes[cur].metadata = metadata;
        proof {
            assert forall|j: int| 0 <= j < before.len() implies (#[trigger] nodes@[j]).name@
                == before[j].name@ && nodes@[j].children@ == before[j].children@ by {}
            lemma_grows_refl(before);
            assert(grows(before, nodes@));
            assert forall|j: int| 0 <= j < start.len() && j != cur implies (#[trigger] nodes@[j]).file_type
                == start[j].file_type && nodes@[j].metadata == start[j].metadata by {
                assert(nodes@[j] == before[j]);
            }
            assert forall|j: int| start.len() <= j < nodes@.len() && j != cur implies (
            #[trigger] nodes@[j]).file_type == FileType::Directory && info_view(nodes@[j].metadata)
                == default_info() by {
                assert(nodes@[j] == before[j]);
            }
            assert(tree_wf(nodes@));
            lemma_grows_trans(start, before, nodes@);
            lemma_resolve_grows(before, nodes@, pv);
            assert forall|p: Seq<Seq<char>>| #[trigger] resolve(start, p) is Some implies resolve(
                nodes@,
                p,
            ) == resolve(start, p) by {
                lemma_resolve_grows(start, nodes@, p);
            }
        }
        *self = FSNode { nodes };
        created
    }

    /// Name, kind and metadata of each child of node `i`, in order.
    pub fn children_of(&self, i: usize) -> (r: Vec<(String, FileType, FileInfo)>)
        requires
            i < self@.len(),
        ensures
            child_views(r@)
                == children_rows(self@, i as int),
    {
        proof {
            use_type_invariant(self);
        }
        let kids = &self.nodes[i].children;
        let mut out: Vec<(String, FileType, FileInfo)> = Vec::new();
        let mut k: usize = 0;
        while k < kids.len()
            invariant
                tree_wf(self.nodes@),
                i < self.nodes@.len(),
                kids@ == self.nodes@[i as int].children@,
                k <= kids@.len(),
                child_views(out@)
                    == children_rows(self.nodes@, i as int).take(k as int),
            decreases kids@.len() - k,
        {
            let c = kids[k];
            assert(i < self.nodes@[i as int].children@[k as int] < self.nodes@.len());
            let node = &self.nodes[c];
            let e = (node.name.clone(), node.file_type, node.metadata.copy());
            proof {
                assert(info_view(e.2) == info_view(self.nodes@[c as int].metadata));
                assert(e.0@ == self.nodes@[c as int].name@);
                assert(children_rows(self.nodes@, i as int)[k as int] == (e.0@, e.1, info_view(e.2)));
                assert(child_views(out@.push(e)) =~= child_views(out@).push((e.0@, e.1, info_view(e.2))));
                assert(children_rows(self.nodes@, i as int).take(k + 1) =~= children_rows(self.nodes@, i as int).take(k as int).push((e.0@, e.1, info_view(e.2))));
            }
            out.push(e);
            k = k + 1;
        }
        proof {
            assert(children_rows(self.nodes@, i as int).take(k as int) =~= children_rows(
                self.nodes@,
                i as int,
            ));
        }
        out
    }

    /// Appends to `out` the rows of the level `frontier` and returns the next level.
    fn expand_level(
        &self,
        frontier: &Vec<(usize, Vec<char>)>,
        out: &mut Vec<(String, FileType, usize)>,
        Ghost(lo): Ghost<int>,
    ) -> (next: Vec<(usize, Vec<char>)>)
        requires
            forall|q: int| 0 <= q < frontier@.len() ==> lo <= (#[trigger] frontier@[q]).0 < self@.len(),
        ensures
            row_views(final(out)@) == row_views(old(out)@) + level_rows(self@, frontier_view(frontier@)),
            frontier_view(next@) == level_next(self@, frontier_view(frontier@)),
            forall|q: int| 0 <= q < next@.len() ==> lo < (#[trigger] next@[q]).0 < self@.len(),
    {
        proof {
            use_type_invariant(self);
        }
        let ghost nodes = self.nodes@;
        let ghost fv = frontier_view(frontier@);
        let ghost start = row_views(out@);
        let mut next: Vec<(usize, Vec<char>)> = Vec::new();
        let mut q: usize = 0;
        proof {
            assert(fv.take(0) =~= Seq::<(int, Seq<char>)>::empty());
            assert(start + level_rows(nodes, fv.take(0)) =~= start);
            assert(frontier_view(next@) =~= level_next(nodes, fv.take(0)));
        }
        while q < frontier.len()
            invariant
                tree_wf(nodes),
                nodes == self.nodes@,
                fv == frontier_view(frontier@),
                q <= frontier@.len(),
                forall|j: int| 0 <= j < frontier@.len() ==> lo <= (#[trigger] frontier@[j]).0 < nodes.len(),
                row_views(out@) == start + level_rows(nodes, fv.take(q as int)),
                frontier_view(next@) == level_next(nodes, fv.take(q as int)),
                forall|j: int| 0 <= j < next@.len() ==> lo < (#[trigger] next@[j]).0 < nodes.len(),
            decreases frontier@.len() - q,
        {
            let i = frontier[q].0;
            let base = &frontier[q].1;
            let n = self.nodes[i].children.len();
            let ghost out_q = row_views(out@);
            let ghost next_q = frontier_view(next@);
            proof {
                assert(fv[q as int] == (i as int, base@));
            }
            let mut k: usize = 0;
            while k < n
                invariant
                    tree_wf(nodes),
                    nodes == self.nodes@,
                    lo <= i < nodes.len(),
                    n == nodes[i as int].children@.len(),
                    k <= n,
                    row_views(out@) == out_q + kid_rows(nodes, i as int, base@, k as int),
                    frontier_view(next@) == next_q + kid_dirs(nodes, i as int, base@, k as int),
                    forall|j: int| 0 <= j < next@.len() ==> lo < (#[trigger] next@[j]).0 < nodes.len(),
                decreases n - k,
            {
                let c = self.nodes[i].children[k];
                assert(i < nodes[i as int].children@[k as int] < nodes.len());
                let node = &self.nodes[c];
                let p = join_path(base, &chars_of(node.name.as_str()));
                let row = (string_of(p.as_slice()), node.file_type, node.children.len());
                proof {
                    assert(row_views(out@.push(row)) =~= row_views(out@).push(
                        row_of(nodes, c as int, base@),
                    ));
                }
                out.push(row);
                if node.file_type == FileType::Directory {
                    let ghost pv = p@;
                    proof {
                        assert(frontier_view(next@.push((c, p))) =~= frontier_view(next@).push(
                            (c as int, pv),
                        ));
                    }
                    next.push((c, p));
                }
                k = k + 1;
            }
            proof {
                let t = fv.take(q + 1);
                assert(t.drop_last() =~= fv.take(q as int));
                assert(t.last() == fv[q as int]);
            }
            q = q + 1;
        }
        proof {
            assert(fv.take(q as int) =~= fv);
        }
        next
    }

    /// Every entry below the node that `path` names, breadth-first: the
    /// node's children, then their children, level by level, each with its
    /// path, kind and number of children; only directories are entered.
    /// Nothing when `path` names no node.
    pub fn list_folders_tree(&self, path: &str) -> (r: Vec<(String, FileType, usize)>)
        ensures
            resolve(self@, path_components_of(path@)) is None ==> r@.len() == 0,
            resolve(self@, path_components_of(path@)) is Some ==> row_views(r@) == bfs_rows(
                self@,
                seq![(resolve(self@, path_components_of(path@))->0, path@)],
                self@.len(),
            ),
    {
        proof {
            use_type_invariant(self);
        }
        let comps = path_components(path);
        let mut out: Vec<(String, FileType, usize)> = Vec::new();
        match self.lookup(&comps) {
            Some(t) => {
                let mut frontier: Vec<(usize, Vec<char>)> = Vec::new();
                let base = chars_of(path);
                frontier.push((t, base));
                let ghost total = bfs_rows(self@, seq![(t as int, path@)], self@.len());
                proof {
                    assert(frontier_view(frontier@) =~= seq![(t as int, path@)]);
                    assert(row_views(out@) =~= Seq::<(Seq<char>, FileType, nat)>::empty());
                    assert(row_views(out@) + total =~= total);
                }
                let mut d: usize = 0;
                let len = self.nodes.len();
                while frontier.len() > 0
                    invariant
                        tree_wf(self.nodes@),
                        len == self.nodes@.len(),
                        d <= self.nodes@.len(),
                        forall|q: int|
                            0 <= q < frontier@.len() ==> d <= (#[trigger] frontier@[q]).0 < self.nodes@.len(),
                        row_views(out@) + bfs_rows(
                            self.nodes@,
                            frontier_view(frontier@),
                            (self.nodes@.len() - d) as nat,
                        ) == total,
                    decreases self.nodes@.len() - d,
                {
                    assert(d <= frontier@[0].0 < self.nodes@.len());
                    let ghost before = row_views(out@);
                    let ghost fv = frontier_view(frontier@);
                    let next = self.expand_level(&frontier, &mut out, Ghost(d as int));
                    proof {
                        assert(bfs_rows(self.nodes@, fv, (self.nodes@.len() - d) as nat) == level_rows(
                            self.nodes@,
                            fv,
                        ) + bfs_rows(self.nodes@, level_next(self.nodes@, fv), (self.nodes@.len() - d - 1) as nat));
                        assert(row_views(out@) + bfs_rows(
                            self.nodes@,
                            frontier_view(next@),
                            (self.nodes@.len() - d - 1) as nat,
                        ) =~= before + bfs_rows(self.nodes@, fv, (self.nodes@.len() - d) as nat));
                    }
                    frontier = next;
                    d = d + 1;
                }
                proof {
                    assert(row_views(out@) + bfs_rows(
                        self.nodes@,
                        frontier_view(frontier@),
                        (self.nodes@.len() - d) as nat,
                    ) =~= row_views(out@));
                }
            },
            None => {},
        }
        out
    }

    /// Name, kind and metadata of each child of the node that `path` names;
    /// nothing when it names no node.
    pub fn list_children(&self, path: &str) -> (r: Vec<(String, FileType, FileInfo)>)
        ensures
            resolve(self@, path_components_of(path@)) is None ==> r@.len() == 0,
            resolve(self@, path_components_of(path@)) is Some ==> child_views(r@) == children_rows(self@, resolve(self@, path_components_of(path@))->0),
    {
        let comps = path_components(path);
        match self.lookup(&comps) {
            Some(i) => self.children_of(i),
            None => Vec::new(),
        }
    }

    /// The node that `path` names, if any.
    pub fn get_child(&self, path: &str) -> (r: Option<usize>)
        ensures
            r is None ==> resolve(self@, path_components_of(path@)) is None,
            r is Some ==> resolve(self@, path_components_of(path@)) == Some(r->0 as int) && r->0
                < self@.len(),
    {
        let comps = path_components(path);
        self.lookup(&comps)
    }

    /// The directories among the children of node `i`, each with its path
    /// inside `base` and, recursively, its own directories.
    pub fn dir_forest(&self, i: usize, base: &Vec<char>) -> (r: Vec<DirTree>)
        requires
            i < self@.len(),
        ensures
            forest_matches(self@, i as int, base@, r@),
        decreases self@.len() - i,
    {
        proof {
            use_type_invariant(self);
        }
        let ghost nodes = self.nodes@;
        let ghost kids = nodes[i as int].children@;
        let ghost pred = is_dir_in(nodes);
        let n = self.nodes[i].children.len();
        let mut out: Vec<DirTree> = Vec::new();
        let mut k: usize = 0;
        proof {
            assert(kids.take(0) =~= Seq::<usize>::empty());
            assert(Seq::<usize>::empty().filter(pred) =~= Seq::<usize>::empty()) by {
                reveal(Seq::filter);
            }
        }
        while k < n
            invariant
                tree_wf(nodes),
                nodes == self.nodes@,
                i < nodes.len(),
                kids == nodes[i as int].children@,
                n == kids.len(),
                pred == is_dir_in(nodes),
                k <= n,
                out@.len() == kids.take(k as int).filter(pred).len(),
                forall|j: int|
                    0 <= j < kids.take(k as int).filter(pred).len() ==> i < #[trigger] kids.take(
                        k as int,
                    ).filter(pred)[j],
                forall|j: int|
                    0 <= j < out@.len() ==> tree_matches(
                        nodes,
                        kids.take(k as int).filter(pred)[j] as int,
                        child_path(base@, nodes[kids.take(k as int).filter(pred)[j] as int].name@),
                        #[trigger] out@[j],
                    ),
            decreases n - k,
        {
            let c = self.nodes[i].children[k];
            proof {
                assert(i < nodes[i as int].children@[k as int] < nodes.len());
                assert(kids.take(k + 1) =~= kids.take(k as int).push(c));
                kids.take(k as int).lemma_filter_push(c, pred);
                assert(pred(c) == (nodes[c as int].file_type == FileType::Directory));
            }
            let ghost prev = kids.take(k as int).filter(pred);
            let ghost prev_out = out@;
            let node = &self.nodes[c];
            if node.file_type == FileType::Directory {
                let name = chars_of(node.name.as_str());
                let p = child_path_chars(base, &name);
                let rows = self.dir_forest(c, &p);
                let t = DirTree { name: node.name.clone(), path: string_of(p.as_slice()), rows };
                proof {
                    assert(tree_matches(nodes, c as int, child_path(base@, nodes[c as int].name@), t));
                }
                out.push(t);
                proof {
                    let next = kids.take(k + 1).filter(pred);
                    assert(next == prev.push(c));
                    assert forall|j: int| 0 <= j < next.len() implies i < #[trigger] next[j] by {
                        if j < prev.len() {
                            assert(next[j] == prev[j]);
                        }
                    }
                    assert forall|j: int| 0 <= j < out@.len() implies tree_matches(
                        nodes,
                        next[j] as int,
                        child_path(base@, nodes[next[j] as int].name@),
                        #[trigger] out@[j],
                    ) by {
                        if j < prev_out.len() {
                            assert(out@[j] == prev_out[j]);
                            assert(next[j] == prev[j]);
                        }
                    }
                }
            } else {
                proof {
                    assert(kids.take(k + 1).filter(pred) == prev);
                }
            }
            k = k + 1;
        }
        proof {
            assert(kids.take(k as int) =~= kids);
            assert(dir_kids(nodes, kids) == kids.take(k as int).filter(pred));
        }
        out
    }

    /// The directories below the node that `path` names, for display: each
    /// with its name, its path and its own directories; nothing when `path`
    /// names no directory.
    pub fn subtree_as_json(&self, path: &str) -> (r: Vec<DirTree>)
        ensures
            ({
                let t = resolve(self@, path_components_of(path@));
                if t is Some && self@[t->0].file_type == FileType::Directory {
                    forest_matches(self@, t->0, subtree_base(path@), r@)
                } else {
                    r@.len() == 0
                }
            }),
    {
        match self.get_child(path) {
            Some(t) => {
                if self.nodes[t].file_type == FileType::Directory {
                    let text = chars_of(path);
                    let base = if text.len() == 0 {
                        let mut b: Vec<char> = Vec::new();
                        b.push('/');
                        proof {
                            assert(b@ =~= seq!['/']);
                        }
                        b
                    } else {
                        text
                    };
                    self.dir_forest(t, &base)
                } else {
                    Vec::new()
                }
            },
            None => Vec::new(),
        }
    }

    /// The node that `path` names, shown under its last component (or
    /// `[ROOT]`) with the directories below it when it is a directory.
    pub fn subtree_json(&self, path: &str) -> (r: Option<DirTree>)
        ensures
            ({
                let t = resolve(self@, path_components_of(path@));
                &&& r is Some <==> t is Some
                &&& r is Some ==> {
                    let d = r->0;
                    &&& d.name@ == display_name(path@)
                    &&& d.path@ == path@
                    &&& if self@[t->0].file_type == FileType::Directory {
                        forest_matches(self@, t->0, subtree_base(path@), d.rows@)
                    } else {
                        d.rows@.len() == 0
                    }
                }
            }),
    {
        match self.get_child(path) {
            Some(t) => {
                let rows = self.subtree_as_json(path);
                let name = display_name_of(path);
                Some(DirTree { name, path: String::from_str(path), rows })
            },
            None => None,
        }
    }

    /// The whole tree, as `subtree_json` shows it from the root.
    pub fn to_tree_json(&self) -> (r: Option<DirTree>)
        ensures
            r is Some,
            r->0.name@ == seq!['[', 'R', 'O', 'O', 'T', ']'],
            r->0.path@.len() == 0,
            self@[0].file_type == FileType::Directory ==> forest_matches(self@, 0, seq!['/'], r->0.rows@),
            self@[0].file_type != FileType::Directory ==> r->0.rows@.len() == 0,
    {
        let r = self.subtree_json("");
        proof {
            reveal_strlit("");
            assert(""@ =~= Seq::<char>::empty());
            assert(""@.subrange(0, 0) =~= Seq::<char>::empty());
            assert(index_of(""@, '/', 0) == -1);
            assert(split_from(""@, '/', 0) =~= seq![Seq::<char>::empty()]);
            let ps = seq![Seq::<char>::empty()];
            assert(ps.drop_last() =~= Seq::<Seq<char>>::empty());
            assert(components_of(ps.drop_last(), false) =~= Seq::<Seq<char>>::empty());
            assert(components_of(ps, false) =~= Seq::<Seq<char>>::empty());
            assert(path_components_of(""@) =~= Seq::<Seq<char>>::empty());
        }
        r
    }


    /// The listing of node `c`.
    pub fn listing(&self, c: usize) -> (r: Option<Listing>)
        requires
            c < self@.len(),
        ensures
            listing_matches(self@, c as int, r),
        decreases self@.len() - c,
    {
        proof {
            use_type_invariant(self);
        }
        let node = &self.nodes[c];
        if node.file_type != FileType::Directory || node.children.len() == 0 {
            return None;
        }
        let n = node.children.len();
        let mut entries: Vec<(String, Option<Listing>)> = Vec::new();
        let mut k: usize = 0;
        while k < n
            invariant
                tree_wf(self.nodes@),
                c < self.nodes@.len(),
                n == self.nodes@[c as int].children@.len(),
                k <= n,
                entries@.len() == k,
                forall|j: int|
                    0 <= j < k ==> c < self.nodes@[c as int].children@[j] < self.nodes@.len() && (
                    #[trigger] entries@[j]).0@ == self.nodes@[self.nodes@[c as int].children@[j] as int].name@
                        && listing_matches(
                        self.nodes@,
                        self.nodes@[c as int].children@[j] as int,
                        entries@[j].1,
                    ),
            decreases n - k,
        {
            let d = self.nodes[c].children[k];
            assert(c < self.nodes@[c as int].children@[k as int] < self.nodes@.len());
            let sub = self.listing(d);
            entries.push((self.nodes[d].name.clone(), sub));
            k = k + 1;
        }
        Some(Listing { entries })
    }

    /// The listing of the node that `path` names; none when it names no
    /// node, or names a file or an empty directory.
    pub fn list_directory_as_json(&self, path: &str) -> (r: Option<Listing>)
        ensures
            resolve(self@, path_components_of(path@)) is None ==> r is None,
            resolve(self@, path_components_of(path@)) is Some ==> listing_matches(
                self@,
                resolve(self@, path_components_of(path@))->0,
                r,
            ),
    {
        match self.get_child(path) {
            Some(t) => self.listing(t),
            None => None,
        }
    }

}


/// The name a subtree is shown under.
pub fn display_name_of(path: &str) -> (r: String)
    ensures
        r@ == display_name(path@),
{
    let cs = path_components(path);
    let n = cs.len();
    if !path.is_empty() && n > 0 {
        let last = chars_of(cs[n - 1].as_str());
        let special = (last.len() == 1 && (last[0] == '/' || last[0] == '.')) || (last.len() == 2
            && last[0] == '.' && last[1] == '.');
        proof {
            assert(string_views(cs@)[n - 1] == cs@[n - 1]@);
            assert(special <==> (last@ == seq!['/'] || last@ == seq!['.'] || last@ == seq!['.', '.']))
                by {
                if last@.len() == 1 {
                    assert(last@ == seq![last@[0]]) by {
                        assert(last@ =~= seq![last@[0]]);
                    }
                }
                if last@.len() == 2 {
                    assert(last@ =~= seq![last@[0], last@[1]]);
                }
            }
        }
        if !special {
            return cs[n - 1].clone();
        }
    }
    let mut root: Vec<char> = Vec::new();
    root.push('[');
    root.push('R');
    root.push('O');
    root.push('O');
    root.push('T');
    root.push(']');
    proof {
        assert(root@ =~= seq!['[', 'R', 'O', 'O', 'T', ']']);
    }
    string_of(root.as_slice())
}

/// The first character of a mode string, or `?` for an empty one.
pub open spec fn mode_char(p: Seq<char>) -> char {
    if p.len() > 0 {
        p[0]
    } else {
        '?'
    }
}

/// The device's file tree, with a count of the nodes that refreshes created.
pub struct FileSystem {
    pub root: FSNode,
    pub adb: AdbHelper,
    pub count: usize,
}

impl FileSystem {
    /// An empty tree, read from the device with the given serial as root.
    pub fn new(device_serial: Option<String>) -> (r: Self)
        ensures
            r.root@.len() == 1,
            r.count == 0,
            r.adb.device_serial == device_serial,
            r.adb.root,
    {
        FileSystem { root: FSNode::new(FileInfo::default()), adb: AdbHelper::new(device_serial).with_root(), count: 0 }
    }

    /// Rebuilds the tree from `entries`, path and metadata of each file,
    /// the kind of each taken from its mode string. Every entry's path then
    /// leads to a node, and `count` grows by the number of nodes created
    /// (held at `usize::MAX`).
    pub fn refresh(&mut self, entries: Vec<(String, FileInfo)>)
        ensures
            forall|k: int|
                0 <= k < entries@.len() ==> resolve(
                    final(self).root@,
                    path_components_of(#[trigger] entries@[k].0@),
                ) is Some,
            final(self).count == if old(self).count + final(self).root@.len() - 1 <= usize::MAX {
                old(self).count + final(self).root@.len() - 1
            } else {
                usize::MAX as int
            },
    {
        let mut tree = FSNode::new(FileInfo::default());
        let n = entries.len();
        let mut i: usize = 0;
        while i < n
            invariant
                n == entries@.len(),
                i <= n,
                forall|k: int|
                    0 <= k < i ==> resolve(tree@, path_components_of(#[trigger] entries@[k].0@))
                        is Some,
                tree@.len() >= 1,
            decreases n - i,
        {
            let (path, info) = (&entries[i].0, &entries[i].1);
            let mode = chars_of(info.permissions.as_str());
            let c: char = if mode.len() > 0 {
                mode[0]
            } else {
                '?'
            };
            let kind = FileType::from(&c);
            let ghost before = tree@;
            tree.add_child(path.as_str(), kind, info.copy());
            proof {
                assert forall|k: int| 0 <= k < i + 1 implies resolve(
                    tree@,
                    path_components_of(#[trigger] entries@[k].0@),
                ) is Some by {
                    if k < i {
                        assert(resolve(before, path_components_of(entries@[k].0@)) is Some);
                    }
                }
            }
            i = i + 1;
        }
        let created = tree.len() - 1;
        let total: usize = if self.count <= usize::MAX - created {
            self.count + created
        } else {
            usize::MAX
        };
        self.root = tree;
        self.count = total;
    }

    /// See `FSNode::list_directory_as_json`.
    pub fn list_directory_as_json(&self, path: &str) -> (r: Option<Listing>)
        ensures
            resolve(self.root@, path_components_of(path@)) is None ==> r is None,
            resolve(self.root@, path_components_of(path@)) is Some ==> listing_matches(
                self.root@,
                resolve(self.root@, path_components_of(path@))->0,
                r,
            ),
    {
        self.root.list_directory_as_json(path)
    }

    /// See `FSNode::subtree_json`.
    pub fn subtree_json(&self, path: &str) -> (r: Option<DirTree>)
        ensures
            ({
                let t = resolve(self.root@, path_components_of(path@));
                &&& r is Some <==> t is Some
                &&& r is Some ==> {
                    let d = r->0;
                    &&& d.name@ == display_name(path@)
                    &&& d.path@ == path@
                    &&& if self.root@[t->0].file_type == FileType::Directory {
                        forest_matches(self.root@, t->0, subtree_base(path@), d.rows@)
                    } else {
                        d.rows@.len() == 0
                    }
                }
            }),
    {
        self.root.subtree_json(path)
    }

    /// See `FSNode::to_tree_json`.
    pub fn to_tree_json(&self) -> (r: Option<DirTree>)
        ensures
            r is Some,
            r->0.name@ == seq!['[', 'R', 'O', 'O', 'T', ']'],
            r->0.path@.len() == 0,
            self.root@[0].file_type == FileType::Directory ==> forest_matches(self.root@, 0, seq!['/'], r->0.rows@),
            self.root@[0].file_type != FileType::Directory ==> r->0.rows@.len() == 0,
    {
        self.root.to_tree_json()
    }

    /// See `FSNode::subtree_as_json`.
    pub fn subtree_as_json(&self, path: &str) -> (r: Vec<DirTree>)
        ensures
            ({
                let t = resolve(self.root@, path_components_of(path@));
                if t is Some && self.root@[t->0].file_type == FileType::Directory {
                    forest_matches(self.root@, t->0, subtree_base(path@), r@)
                } else {
                    r@.len() == 0
                }
            }),
    {
        self.root.subtree_as_json(path)
    }

}

} // verus!
