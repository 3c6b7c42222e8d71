//! The destination preview: the planned files as a folder tree per root directory, each
//! folder with how many files and bytes it will receive.

use crate::config::Config;
use crate::plan::{lemma_planned_size_prefix, planned_size, root_path, root_path_spec, DestStatus, Plan, PlannedFile, PlannedRender, Root};
use crate::dupes::{lemma_lex_irrefl, lemma_lex_total, lemma_lex_trans, lex_less, lex_lt};
use crate::template::{dir_segments_spec, opt_strings_view, Template};
use crate::paths::{comp_views, components, path_components};
use crate::text;
use vstd::prelude::*;

verus! {

/// A folder or file of the preview.
#[derive(Debug)]
pub struct TreeNode {
    pub name: String,
    pub is_dir: bool,
    pub files: usize,
    pub bytes: u64,
    pub status: Option<DestStatus>,
    /// A directory a token produced (as opposed to one written literally in the template),
    /// so the preview can colour it by depth. Always false for files and for roots.
    pub dynamic: bool,
    pub children: Vec<TreeNode>,
}

/// A [`TreeNode`] as values.
pub struct TreeView {
    pub name: Seq<char>,
    pub is_dir: bool,
    pub files: int,
    pub bytes: int,
    pub status: Option<DestStatus>,
    pub dynamic: bool,
    pub children: Seq<TreeView>,
}

pub open spec fn tv(n: TreeNode) -> TreeView
    decreases n, 1nat,
{
    TreeView {
        name: n.name@,
        is_dir: n.is_dir,
        files: n.files as int,
        bytes: n.bytes as int,
        status: n.status,
        dynamic: n.dynamic,
        children: tvs(n.children@),
    }
}

pub open spec fn tvs(cs: Seq<TreeNode>) -> Seq<TreeView>
    decreases cs, 0nat,
{
    if cs.len() == 0 {
        seq![]
    } else {
        tvs(cs.drop_last()).push(tv(cs.last()))
    }
}

proof fn lemma_tvs(cs: Seq<TreeNode>)
    ensures
        tvs(cs).len() == cs.len(),
        forall|i: int| 0 <= i < cs.len() ==> #[trigger] tvs(cs)[i] == tv(cs[i]),
    decreases cs.len(),
{
    if cs.len() > 0 {
        lemma_tvs(cs.drop_last());
    }
}

/// The first child named `name`.
pub open spec fn find_child(cs: Seq<TreeView>, name: Seq<char>) -> Option<int>
    decreases cs.len(),
{
    if cs.len() == 0 {
        None
    } else {
        match find_child(cs.drop_last(), name) {
            Some(i) => Some(i),
            None => if cs.last().name == name {
                Some(cs.len() - 1)
            } else {
                None
            },
        }
    }
}

/// The node for the `d`-th component under `t`, created when missing, with this file
/// counted: a directory gains a file and its bytes, the file's own node is set to it.
pub open spec fn descend(
    t: TreeView,
    comps: Seq<Seq<char>>,
    d: int,
    bytes: int,
    st: DestStatus,
    lits: Seq<Set<Seq<char>>>,
) -> TreeView
    decreases comps.len() - d,
{
    if d < 0 || d >= comps.len() {
        t
    } else {
        let name = comps[d];
        let last = d + 1 == comps.len();
        let dynamic = !last && !(d < lits.len() && lits[d].contains(name));
        let cs = match find_child(t.children, name) {
            Some(_) => t.children,
            None => t.children.push(
                TreeView { name, is_dir: !last, files: 0, bytes: 0, status: None, dynamic, children: seq![] },
            ),
        };
        let i = match find_child(t.children, name) {
            Some(i) => i,
            None => t.children.len() as int,
        };
        let c = cs[i];
        let c1 = if last {
            TreeView { name: c.name, is_dir: c.is_dir, files: 1, bytes, status: Some(st), dynamic: c.dynamic, children: c.children }
        } else {
            TreeView {
                name: c.name,
                is_dir: c.is_dir,
                files: c.files + 1,
                bytes: c.bytes + bytes,
                status: c.status,
                dynamic: c.dynamic,
                children: c.children,
            }
        };
        TreeView {
            name: t.name,
            is_dir: t.is_dir,
            files: t.files,
            bytes: t.bytes,
            status: t.status,
            dynamic: t.dynamic,
            children: cs.update(i, descend(c1, comps, d + 1, bytes, st, lits)),
        }
    }
}

/// `t` with the file at `comps` (of `bytes` bytes and status `st`) added: the node counts it,
/// and so does every directory on its way.
pub open spec fn inserted(t: TreeView, comps: Seq<Seq<char>>, bytes: int, st: DestStatus, lits: Seq<Set<Seq<char>>>) -> TreeView {
    descend(
        TreeView {
            name: t.name,
            is_dir: t.is_dir,
            files: t.files + 1,
            bytes: t.bytes + bytes,
            status: t.status,
            dynamic: t.dynamic,
            children: t.children,
        },
        comps,
        0,
        bytes,
        st,
        lits,
    )
}

/// The node reached from `t` by taking the children at the positions of `path`.
pub open spec fn node_at(t: TreeView, path: Seq<int>) -> Option<TreeView>
    decreases path.len(),
{
    if path.len() == 0 {
        Some(t)
    } else if 0 <= path[0] < t.children.len() {
        node_at(t.children[path[0]], path.drop_first())
    } else {
        None
    }
}

/// No node of `t` has counted more than `f` files or `b` bytes.
pub open spec fn bounded(t: TreeView, f: int, b: int) -> bool {
    forall|p: Seq<int>| #![trigger node_at(t, p)] within(node_at(t, p), f, b)
}

/// A node, if there is one, counts at most `f` files and `b` bytes.
pub open spec fn within(o: Option<TreeView>, f: int, b: int) -> bool {
    match o {
        Some(n) => 0 <= n.files <= f && 0 <= n.bytes <= b,
        None => true,
    }
}

proof fn lemma_bounded_child(t: TreeView, f: int, b: int, i: int)
    requires
        bounded(t, f, b),
        0 <= i < t.children.len(),
    ensures
        bounded(t.children[i], f, b),
{
    assert forall|p: Seq<int>| #![trigger node_at(t.children[i], p)] within(node_at(t.children[i], p), f, b) by {
        let q = seq![i] + p;
        assert(q.drop_first() =~= p);
        assert(node_at(t, q) == node_at(t.children[i], p));
    }
}

proof fn lemma_bounded_node(t: TreeView, f: int, b: int)
    requires
        0 <= t.files <= f,
        0 <= t.bytes <= b,
        forall|i: int| 0 <= i < t.children.len() ==> bounded(#[trigger] t.children[i], f, b),
    ensures
        bounded(t, f, b),
{
    assert forall|p: Seq<int>| #![trigger node_at(t, p)] within(node_at(t, p), f, b) by {
        if p.len() > 0 && 0 <= p[0] < t.children.len() {
            assert(bounded(t.children[p[0]], f, b));
            assert(node_at(t.children[p[0]], p.drop_first()) == node_at(t, p));
        }
    }
}

proof fn lemma_bounded_weaken(t: TreeView, f: int, b: int, f2: int, b2: int)
    requires
        bounded(t, f, b),
        f <= f2,
        b <= b2,
    ensures
        bounded(t, f2, b2),
{
    assert forall|p: Seq<int>| #![trigger node_at(t, p)] within(node_at(t, p), f2, b2) by {
        assert(within(node_at(t, p), f, b));
    }
}

proof fn lemma_bounded_self(t: TreeView, f: int, b: int)
    requires
        bounded(t, f, b),
    ensures
        0 <= t.files <= f,
        0 <= t.bytes <= b,
{
    assert(node_at(t, seq![]) == Some(t));
}


fn find_child_exec(cs: &Vec<TreeNode>, name: &Vec<char>) -> (r: Option<usize>)
    ensures
        match r {
            Some(i) => find_child(tvs(cs@), name@) == Some(i as int) && i < cs.len(),
            None => find_child(tvs(cs@), name@) is None,
        },
{
    proof {
        lemma_tvs(cs@);
    }
    let mut i: usize = 0;
    while i < cs.len()
        invariant
            i <= cs.len(),
            tvs(cs@).len() == cs.len(),
            forall|k: int| 0 <= k < cs.len() ==> #[trigger] tvs(cs@)[k] == tv(cs@[k]),
            find_child(tvs(cs@).take(i as int), name@) is None,
        decreases cs.len() - i,
    {
        assert(tvs(cs@).take(i + 1).drop_last() =~= tvs(cs@).take(i as int));
        if text::eq_chars(&text::chars_of(cs[i].name.as_str()), name) {
            proof {
                lemma_find_child_stays(tvs(cs@), name@, i as int + 1, cs.len() as int);
                assert(tvs(cs@).take(cs.len() as int) =~= tvs(cs@));
            }
            return Some(i);
        }
        i = i + 1;
    }
    assert(tvs(cs@).take(cs.len() as int) =~= tvs(cs@));
    None
}

proof fn lemma_find_child_stays(cs: Seq<TreeView>, name: Seq<char>, k: int, n: int)
    requires
        0 < k <= n <= cs.len(),
        find_child(cs.take(k), name) is Some,
    ensures
        find_child(cs.take(n), name) == find_child(cs.take(k), name),
    decreases n - k,
{
    if k < n {
        lemma_find_child_stays(cs, name, k, n - 1);
        assert(cs.take(n).drop_last() =~= cs.take(n - 1));
    }
}

proof fn lemma_find_child_bound(cs: Seq<TreeView>, name: Seq<char>)
    ensures
        find_child(cs, name) matches Some(i) ==> 0 <= i < cs.len() && cs[i].name == name,
    decreases cs.len(),
{
    if cs.len() > 0 {
        lemma_find_child_bound(cs.drop_last(), name);
    }
}

fn contains_name(list: &Vec<String>, name: &Vec<char>) -> (r: bool)
    ensures
        r == list@.map_values(|s: String| s@).contains(name@),
{
    let ghost lv = list@.map_values(|s: String| s@);
    let mut i: usize = 0;
    while i < list.len()
        invariant
            i <= list.len(),
            lv == list@.map_values(|s: String| s@),
            forall|k: int| 0 <= k < i ==> lv[k] != name@,
        decreases list.len() - i,
    {
        if text::eq_chars(&text::chars_of(list[i].as_str()), name) {
            assert(lv[i as int] == name@);
            return true;
        }
        i = i + 1;
    }
    false
}

/// Every child of `t` is bounded by `f` files and `b` bytes.
pub open spec fn below(t: TreeView, f: int, b: int) -> bool {
    forall|i: int| 0 <= i < t.children.len() ==> bounded(#[trigger] t.children[i], f, b)
}

/// The literal folder names by depth, as sets.
pub open spec fn lit_view(v: Seq<Vec<String>>) -> Seq<Set<Seq<char>>> {
    v.map_values(|l: Vec<String>| l@.map_values(|s: String| s@).to_set())
}

proof fn lemma_bounded_leaf(t: TreeView, f: int, b: int)
    requires
        0 <= t.files <= f,
        0 <= t.bytes <= b,
        t.children.len() == 0,
    ensures
        bounded(t, f, b),
{
    lemma_bounded_node(t, f, b);
}

/// Count the file at `comps[d..]` under `node`, creating the nodes it needs.
#[verifier::spinoff_prover]
#[verifier::rlimit(40)]
fn descend_exec(
    node: &mut TreeNode,
    comps: &Vec<Vec<char>>,
    d: usize,
    bytes: u64,
    st: DestStatus,
    lits: &Vec<Vec<String>>,
    Ghost(f): Ghost<int>,
    Ghost(b): Ghost<int>,
)
    requires
        d <= comps.len(),
        below(tv(*old(node)), f, b),
        0 <= old(node).files <= f + 1,
        old(node).bytes <= b + bytes,
        0 <= f,
        0 <= b,
        f + 1 <= usize::MAX,
        b + bytes <= u64::MAX,
    ensures
        tv(*final(node)) == descend(tv(*old(node)), comp_views(comps@), d as int, bytes as int, st, lit_view(lits@)),
        bounded(tv(*final(node)), f + 1, b + bytes),
    decreases comps.len() - d,
{
    proof {
        lemma_tvs(node.children@);
    }
    let ghost t0 = tv(*node);
    if d >= comps.len() {
        proof {
            assert forall|i: int| 0 <= i < t0.children.len() implies bounded(#[trigger] t0.children[i], f + 1, b + bytes) by {
                lemma_bounded_weaken(t0.children[i], f, b, f + 1, b + bytes);
            }
            lemma_bounded_node(t0, f + 1, b + bytes);
        }
        return;
    }
    let ghost cv = comp_views(comps@);
    let ghost lv = lit_view(lits@);
    let name = &comps[d];
    assert(cv[d as int] == name@);
    let last = d + 1 == comps.len();
    let literal = d < lits.len() && contains_name(&lits[d], name);
    proof {
        if d < lits.len() {
            assert(lv[d as int] == lits@[d as int]@.map_values(|s: String| s@).to_set());
        }
    }
    let dynamic = !last && !literal;
    let idx = match find_child_exec(&node.children, name) {
        Some(i) => i,
        None => {
            node.children.push(TreeNode {
                name: text::string_of(name),
                is_dir: !last,
                files: 0,
                bytes: 0,
                status: None,
                dynamic,
                children: Vec::new(),
            });
            proof {
                lemma_tvs(node.children@);
                assert(tvs(Seq::<TreeNode>::empty()) =~= Seq::<TreeView>::empty());
                assert(tvs(node.children@) =~= t0.children.push(
                    TreeView { name: cv[d as int], is_dir: !last, files: 0, bytes: 0, status: None, dynamic, children: seq![] },
                ));
            }
            node.children.len() - 1
        },
    };
    let ghost cs = tvs(node.children@);
    proof {
        lemma_tvs(node.children@);
        lemma_find_child_bound(t0.children, name@);
    }
    let ghost c0 = cs[idx as int];
    proof {
        if idx < t0.children.len() {
            assert(c0 == t0.children[idx as int]);
        } else {
            lemma_bounded_leaf(c0, f, b);
        }
        lemma_bounded_self(c0, f, b);
    }
    let mut child = node.children.remove(idx);
    assert(tv(child) == c0);
    if last {
        child.files = 1;
        child.bytes = bytes;
        child.status = Some(st);
    } else {
        child.files = child.files + 1;
        child.bytes = child.bytes + bytes;
    }
    proof {
        assert forall|i: int| 0 <= i < tv(child).children.len() implies bounded(#[trigger] tv(child).children[i], f, b) by {
            assert(tv(child).children[i] == c0.children[i]);
            lemma_bounded_child(c0, f, b, i);
        }
    }
    descend_exec(&mut child, comps, d + 1, bytes, st, lits, Ghost(f), Ghost(b));
    node.children.insert(idx, child);
    proof {
        lemma_tvs(node.children@);
        assert(tvs(node.children@) =~= cs.update(idx as int, tv(node.children@[idx as int])));
        assert forall|i: int| 0 <= i < tv(*node).children.len() implies bounded(#[trigger] tv(*node).children[i], f + 1, b + bytes) by {
            if i != idx {
                if i < t0.children.len() {
                    lemma_bounded_weaken(t0.children[i], f, b, f + 1, b + bytes);
                } else {
                    lemma_bounded_weaken(cs[i], f, b, f + 1, b + bytes);
                }
            }
        }
        lemma_bounded_node(tv(*node), f + 1, b + bytes);
    }
}

/// No node of `t` counts more files or bytes than `t` itself.
pub open spec fn tree_wf(t: TreeView) -> bool {
    bounded(t, t.files, t.bytes)
}

/// Count the file at `rel` (of `bytes` bytes, status `st`) in the tree under `node`: the node
/// and each folder on the way gain the file and its bytes, the file's own node is set to it.
fn insert(node: &mut TreeNode, comps: &Vec<Vec<char>>, bytes: u64, st: DestStatus, lits: &Vec<Vec<String>>)
    requires
        tree_wf(tv(*old(node))),
        old(node).files < usize::MAX,
        old(node).bytes + bytes <= u64::MAX,
    ensures
        tv(*final(node)) == inserted(tv(*old(node)), comp_views(comps@), bytes as int, st, lit_view(lits@)),
        tree_wf(tv(*final(node))),
        final(node).files == old(node).files + 1,
        final(node).bytes == old(node).bytes + bytes,
{
    let ghost t0 = tv(*node);
    let ghost f = node.files as int;
    let ghost b = node.bytes as int;
    proof {
        lemma_bounded_self(t0, f, b);
    }
    node.files = node.files + 1;
    node.bytes = node.bytes + bytes;
    proof {
        assert(tv(*node).children == t0.children);
        assert forall|i: int| 0 <= i < tv(*node).children.len() implies bounded(#[trigger] tv(*node).children[i], f, b) by {
            lemma_bounded_child(t0, f, b, i);
        }
    }
    descend_exec(node, comps, 0, bytes, st, lits, Ghost(f), Ghost(b));
}

/// The longest of the segment lists.
pub open spec fn max_len(segs: Seq<Seq<Option<Seq<char>>>>) -> int
    decreases segs.len(),
{
    if segs.len() == 0 {
        0
    } else {
        let m = max_len(segs.drop_last());
        if segs.last().len() > m {
            segs.last().len() as int
        } else {
            m
        }
    }
}

/// Segment list `seg` has the literal folder `n` at depth `j`.
pub open spec fn has_at(seg: Seq<Option<Seq<char>>>, j: int, n: Seq<char>) -> bool {
    0 <= j < seg.len() && seg[j] == Some(n)
}

/// One of the first `k` segment lists has the literal folder `n` at depth `j`.
pub open spec fn seen(segs: Seq<Seq<Option<Seq<char>>>>, k: int, j: int, n: Seq<char>) -> bool {
    exists|m: int| 0 <= m < k && #[trigger] has_at(segs[m], j, n)
}

/// By depth, the folder names some segment list has literally at that depth.
pub open spec fn lit_sets(segs: Seq<Seq<Option<Seq<char>>>>) -> Seq<Set<Seq<char>>> {
    Seq::new(
        max_len(segs) as nat,
        |j: int| Set::new(|n: Seq<char>| exists|k: int| 0 <= k < segs.len() && #[trigger] has_at(segs[k], j, n)),
    )
}

/// The folder segments of each template.
pub open spec fn template_segs(ts: Seq<&Template>) -> Seq<Seq<Option<Seq<char>>>> {
    ts.map_values(|t: &Template| dir_segments_spec(t.parts_spec()))
}

proof fn lemma_max_len(segs: Seq<Seq<Option<Seq<char>>>>)
    ensures
        max_len(segs) >= 0,
        forall|k: int| 0 <= k < segs.len() ==> #[trigger] segs[k].len() <= max_len(segs),
    decreases segs.len(),
{
    if segs.len() > 0 {
        lemma_max_len(segs.drop_last());
        assert forall|k: int| 0 <= k < segs.len() implies #[trigger] segs[k].len() <= max_len(segs) by {
            if k < segs.len() - 1 {
                assert(segs.drop_last()[k] == segs[k]);
            }
        }
    }
}

/// Folder names written literally by the templates that feed one root, by depth. A rendered
/// component that is not in its depth's set came from a token.
fn literal_dirs(templates: &Vec<&Template>) -> (r: Vec<Vec<String>>)
    ensures
        lit_view(r@) == lit_sets(template_segs(templates@)),
{
    let ghost segs = template_segs(templates@);
    let mut out: Vec<Vec<String>> = Vec::new();
    let mut k: usize = 0;
    while k < templates.len()
        invariant
            k <= templates.len(),
            segs == template_segs(templates@),
            out.len() == max_len(segs.take(k as int)),
            forall|j: int, n: Seq<char>|
                0 <= j < out.len() ==> (#[trigger] lit_view(out@)[j].contains(n) <==> seen(segs, k as int, j, n)),
        decreases templates.len() - k,
    {
        let cur = templates[k].dir_segments();
        let ghost cv = opt_strings_view(cur@);
        assert(cv == segs[k as int]);
        let ghost before = out.len() as int;
        let mut i: usize = 0;
        while i < cur.len()
            invariant
                k < templates.len(),
                i <= cur.len(),
                segs == template_segs(templates@),
                cv == opt_strings_view(cur@),
                cv == segs[k as int],
                before == max_len(segs.take(k as int)),
                out.len() == if i > before { i as int } else { before },
                forall|j: int, n: Seq<char>|
                    0 <= j < out.len() ==> (#[trigger] lit_view(out@)[j].contains(n) <==> seen(segs, k as int, j, n) || (j < i
                        && has_at(cv, j, n))),
            decreases cur.len() - i,
        {
            if out.len() <= i {
                let ghost pre = out@;
                out.push(Vec::new());
                proof {
                    lemma_max_len(segs.take(k as int));
                    assert forall|j: int, n: Seq<char>| 0 <= j < out.len() implies (#[trigger] lit_view(out@)[j].contains(n) <==> seen(segs, k as int, j, n) || (j < i && has_at(cv, j, n))) by {
                        if j == i {
                            assert(out@[j]@.map_values(|s: String| s@) =~= Seq::<Seq<char>>::empty());
                            assert(!lit_view(out@)[j].contains(n));
                            if seen(segs, k as int, j, n) {
                                let m = choose|m: int| 0 <= m < k && #[trigger] has_at(segs[m], j, n);
                                assert(segs.take(k as int)[m] == segs[m]);
                                assert(segs.take(k as int)[m].len() <= before);
                            }
                        } else {
                            assert(out@[j] == pre[j]);
                            assert(lit_view(out@)[j] == lit_view(pre)[j]);
                            assert(lit_view(pre)[j].contains(n) <==> seen(segs, k as int, j, n) || (j < i && has_at(cv, j, n)));
                        }
                    }
                }
            }
            let ghost mid = out@;
            match &cur[i] {
                Some(name) => {
                    let nm = name.clone();
                    assert(nm@ == name@);
                    let mut v = out.remove(i);
                    v.push(nm);
                    out.insert(i, v);
                    proof {
                        assert(cv[i as int] == Some(name@));
                        assert forall|j: int, n: Seq<char>| 0 <= j < out.len() implies (#[trigger] lit_view(out@)[j].contains(n) <==> seen(segs, k as int, j, n) || (j < i + 1 && has_at(cv, j, n))) by {
                            if j == i {
                                let old_names = mid[j]@.map_values(|s: String| s@);
                                assert(out@[j]@ == mid[j]@.push(nm));
                                assert(out@[j]@.map_values(|s: String| s@) =~= old_names.push(name@));
                                assert(lit_view(mid)[j].contains(n) == old_names.contains(n));
                                assert(lit_view(mid)[j].contains(n) <==> seen(segs, k as int, j, n) || (j < i && has_at(cv, j, n)));
                                if old_names.push(name@).contains(n) && n != name@ {
                                    let w = choose|w: int| 0 <= w < old_names.push(name@).len() && old_names.push(name@)[w] == n;
                                    assert(old_names[w] == n);
                                }
                                if n == name@ {
                                    assert(old_names.push(name@)[old_names.len() as int] == n);
                                }
                                if old_names.contains(n) {
                                    let w = choose|w: int| 0 <= w < old_names.len() && old_names[w] == n;
                                    assert(old_names.push(name@)[w] == n);
                                }
                            } else {
                                assert(out@[j] == mid[j]);
                                assert(lit_view(out@)[j] == lit_view(mid)[j]);
                                assert(lit_view(mid)[j].contains(n) <==> seen(segs, k as int, j, n) || (j < i && has_at(cv, j, n)));
                            }
                        }
                    }
                },
                None => {
                    proof {
                        assert(cv[i as int] == None::<Seq<char>>);
                    }
                },
            }
            i = i + 1;
        }
        proof {
            assert(segs.take(k + 1).drop_last() =~= segs.take(k as int));
            assert(segs.take(k + 1).last() == segs[k as int]);
            assert forall|j: int, n: Seq<char>| 0 <= j < out.len() implies (#[trigger] lit_view(out@)[j].contains(n) <==> seen(segs, k + 1, j, n)) by {
                if has_at(segs[k as int], j, n) {
                    assert(has_at(cv, j, n));
                }
                if seen(segs, k + 1, j, n) && !seen(segs, k as int, j, n) {
                    let m = choose|m: int| 0 <= m < k + 1 && #[trigger] has_at(segs[m], j, n);
                    assert(m == k);
                }
            }
        }
        k = k + 1;
    }
    proof {
        assert(segs.take(k as int) =~= segs);
        lemma_max_len(segs);
        assert forall|j: int| 0 <= j < out.len() implies #[trigger] lit_view(out@)[j] =~= lit_sets(segs)[j] by {
            assert forall|n: Seq<char>| lit_view(out@)[j].contains(n) == lit_sets(segs)[j].contains(n) by {
                if lit_sets(segs)[j].contains(n) {
                    let m = choose|m: int| 0 <= m < segs.len() && #[trigger] has_at(segs[m], j, n);
                    assert(0 <= m < k && has_at(segs[m], j, n));
                }
            }
        }
        assert(lit_view(out@) =~= lit_sets(segs));
    }
    out
}

/// One file counted in the preview: the root folder it lands in, the components of its path
/// below that folder, its size, its status, and the literal folder names of its templates.
pub struct Event {
    pub root: Seq<char>,
    pub comps: Seq<Seq<char>>,
    pub bytes: int,
    pub status: DestStatus,
    pub lits: Seq<Set<Seq<char>>>,
}

/// The literal folder names by depth of the templates that feed `root`.
pub open spec fn root_lits(cfg: Config, root: Root) -> Seq<Set<Seq<char>>> {
    let t = cfg.templates;
    match root {
        Root::Archive => lit_sets(
            seq![
                dir_segments_spec(t.raw.parts_spec()),
                dir_segments_spec(t.paired_image.parts_spec()),
                dir_segments_spec(t.image.parts_spec()),
            ],
        ),
        Root::Video => lit_sets(seq![dir_segments_spec(t.video.parts_spec())]),
        Root::Other => lit_sets(seq![dir_segments_spec(t.other.parts_spec())]),
        Root::Render => lit_sets(
            seq![dir_segments_spec(t.render_exr.parts_spec()), dir_segments_spec(t.render_jpeg.parts_spec())],
        ),
    }
}

pub open spec fn file_event(cfg: Config, f: PlannedFile) -> Event {
    Event {
        root: root_path_spec(cfg, f.root),
        comps: components(f.rel@),
        bytes: f.size as int,
        status: f.status,
        lits: root_lits(cfg, f.root),
    }
}

pub open spec fn opt_path(o: Option<String>) -> Seq<Seq<char>> {
    match o {
        Some(s) => seq![s@],
        None => seq![],
    }
}

/// The render outputs of a plan, each render's EXR before its JPEG.
pub open spec fn render_paths(rs: Seq<PlannedRender>) -> Seq<Seq<char>>
    decreases rs.len(),
{
    if rs.len() == 0 {
        seq![]
    } else {
        render_paths(rs.drop_last()) + opt_path(rs.last().exr) + opt_path(rs.last().jpeg)
    }
}

/// The components of `p` below `base`, when `base`'s components begin `p`'s; else all of
/// `p`'s (std's `strip_prefix`, or the path itself where it fails).
pub open spec fn rel_comps(base: Seq<Seq<char>>, p: Seq<Seq<char>>) -> Seq<Seq<char>> {
    if base.len() <= p.len() && p.take(base.len() as int) == base {
        p.skip(base.len() as int)
    } else {
        p
    }
}

pub open spec fn render_event(cfg: Config, p: Seq<char>, exists: bool) -> Event {
    Event {
        root: cfg.render_root@,
        comps: rel_comps(components(cfg.render_root@), components(p)),
        bytes: 0,
        status: if exists {
            DestStatus::ExistsDifferent
        } else {
            DestStatus::New
        },
        lits: root_lits(cfg, Root::Render),
    }
}

/// What the preview counts, in order: the planned files, then the render outputs, each
/// marked by whether its file already exists.
pub open spec fn events(plan: Plan, cfg: Config, exists: Seq<bool>) -> Seq<Event> {
    let rp = render_paths(plan.renders@);
    plan.files@.map_values(|f: PlannedFile| file_event(cfg, f)) + Seq::new(
        rp.len(),
        |i: int| render_event(cfg, rp[i], exists[i]),
    )
}

/// An empty root folder.
pub open spec fn new_root(name: Seq<char>) -> TreeView {
    TreeView { name, is_dir: true, files: 0, bytes: 0, status: None, dynamic: false, children: seq![] }
}

/// Where a root named `name` goes among `roots`: before the first whose name sorts after it.
pub open spec fn slot(roots: Seq<TreeView>, name: Seq<char>) -> int
    decreases roots.len(),
{
    if roots.len() == 0 {
        0
    } else if lex_lt(name, roots[0].name) {
        0
    } else {
        1 + slot(roots.drop_first(), name)
    }
}

/// `roots` with event `e` counted in its root, which is added in name order when missing.
pub open spec fn grow(roots: Seq<TreeView>, e: Event) -> Seq<TreeView> {
    match find_child(roots, e.root) {
        Some(i) => roots.update(i, inserted(roots[i], e.comps, e.bytes, e.status, e.lits)),
        None => roots.insert(slot(roots, e.root), inserted(new_root(e.root), e.comps, e.bytes, e.status, e.lits)),
    }
}

/// The roots after counting `evs` in order.
pub open spec fn forest(evs: Seq<Event>) -> Seq<TreeView>
    decreases evs.len(),
{
    if evs.len() == 0 {
        seq![]
    } else {
        grow(forest(evs.drop_last()), evs.last())
    }
}

/// Each root is well formed and counts at most `k` files and `b` bytes.
pub open spec fn forest_ok(roots: Seq<TreeView>, k: int, b: int) -> bool {
    forall|i: int| 0 <= i < roots.len() ==> {
        &&& tree_wf(#[trigger] roots[i])
        &&& roots[i].files <= k
        &&& roots[i].bytes <= b
    }
}

proof fn lemma_slot_bound(roots: Seq<TreeView>, name: Seq<char>)
    ensures
        0 <= slot(roots, name) <= roots.len(),
    decreases roots.len(),
{
    if roots.len() > 0 {
        lemma_slot_bound(roots.drop_first(), name);
    }
}

fn slot_exec(roots: &Vec<TreeNode>, name: &Vec<char>) -> (r: usize)
    ensures
        r == slot(tvs(roots@), name@),
{
    proof {
        lemma_tvs(roots@);
    }
    let ghost v = tvs(roots@);
    let mut i: usize = 0;
    assert(v.skip(0) =~= v);
    while i < roots.len()
        invariant
            i <= roots.len(),
            v == tvs(roots@),
            v.len() == roots.len(),
            forall|k: int| 0 <= k < roots.len() ==> #[trigger] v[k] == tv(roots@[k]),
            slot(v, name@) == i + slot(v.skip(i as int), name@),
        decreases roots.len() - i,
    {
        let other = text::chars_of(roots[i].name.as_str());
        assert(v.skip(i as int)[0] == v[i as int]);
        if lex_less(name, &other) {
            return i;
        }
        assert(v.skip(i as int).drop_first() =~= v.skip(i + 1));
        i = i + 1;
    }
    i
}

/// Count event `e` (with its components, lits and numbers in exec form) among `roots`.
fn grow_exec(
    roots: &mut Vec<TreeNode>,
    root: &str,
    comps: &Vec<Vec<char>>,
    bytes: u64,
    st: DestStatus,
    lits: &Vec<Vec<String>>,
    Ghost(k): Ghost<int>,
    Ghost(b): Ghost<int>,
)
    requires
        forest_ok(tvs(old(roots)@), k, b),
        0 <= k < usize::MAX,
        0 <= b,
        b + bytes <= u64::MAX,
    ensures
        tvs(final(roots)@) == grow(
            tvs(old(roots)@),
            Event { root: root@, comps: comp_views(comps@), bytes: bytes as int, status: st, lits: lit_view(lits@) },
        ),
        forest_ok(tvs(final(roots)@), k + 1, b + bytes),
{
    let ghost v = tvs(roots@);
    let ghost e = Event { root: root@, comps: comp_views(comps@), bytes: bytes as int, status: st, lits: lit_view(lits@) };
    proof {
        lemma_tvs(roots@);
    }
    let name = text::chars_of(root);
    match find_child_exec(roots, &name) {
        Some(i) => {
            let mut node = roots.remove(i);
            assert(tv(node) == v[i as int]);
            insert(&mut node, comps, bytes, st, lits);
            roots.insert(i, node);
            proof {
                lemma_tvs(roots@);
                assert(tvs(roots@) =~= v.update(i as int, tv(roots@[i as int])));
                assert forall|j: int| 0 <= j < tvs(roots@).len() implies {
                    &&& tree_wf(#[trigger] tvs(roots@)[j])
                    &&& tvs(roots@)[j].files <= k + 1
                    &&& tvs(roots@)[j].bytes <= b + bytes
                } by {
                    if j != i {
                        assert(tvs(roots@)[j] == v[j]);
                    }
                }
            }
        },
        None => {
            let j = slot_exec(roots, &name);
            proof {
                lemma_slot_bound(v, name@);
            }
            let mut node = TreeNode {
                name: text::string_of(&name),
                is_dir: true,
                files: 0,
                bytes: 0,
                status: None,
                dynamic: false,
                children: Vec::new(),
            };
            proof {
                assert(tvs(node.children@) =~= Seq::<TreeView>::empty());
                assert(tv(node) == new_root(root@));
                lemma_bounded_leaf(tv(node), 0, 0);
            }
            insert(&mut node, comps, bytes, st, lits);
            roots.insert(j, node);
            proof {
                lemma_tvs(roots@);
                assert(tvs(roots@) =~= v.insert(j as int, tv(roots@[j as int])));
                assert forall|m: int| 0 <= m < tvs(roots@).len() implies {
                    &&& tree_wf(#[trigger] tvs(roots@)[m])
                    &&& tvs(roots@)[m].files <= k + 1
                    &&& tvs(roots@)[m].bytes <= b + bytes
                } by {
                    if m < j {
                        assert(tvs(roots@)[m] == v[m]);
                    } else if m > j {
                        assert(tvs(roots@)[m] == v[m - 1]);
                    }
                }
            }
        },
    }
}

fn strip_comps(base: &Vec<Vec<char>>, p: &Vec<Vec<char>>) -> (r: Vec<Vec<char>>)
    ensures
        comp_views(r@) == rel_comps(comp_views(base@), comp_views(p@)),
{
    let ghost bv = comp_views(base@);
    let ghost pv = comp_views(p@);
    let mut start: usize = 0;
    if base.len() <= p.len() {
        let mut i: usize = 0;
        let mut same = true;
        while i < base.len()
            invariant
                i <= base.len() <= p.len(),
                bv == comp_views(base@),
                pv == comp_views(p@),
                same ==> forall|m: int| 0 <= m < i ==> bv[m] == pv[m],
                !same ==> pv.take(bv.len() as int) != bv,
            decreases base.len() - i,
        {
            if same && !text::eq_chars(&base[i], &p[i]) {
                assert(pv.take(bv.len() as int)[i as int] != bv[i as int]);
                same = false;
            }
            i = i + 1;
        }
        if same {
            assert(pv.take(bv.len() as int) =~= bv);
            start = base.len();
        }
    }
    let mut out: Vec<Vec<char>> = Vec::new();
    let mut j: usize = start;
    while j < p.len()
        invariant
            start <= j <= p.len(),
            pv == comp_views(p@),
            comp_views(out@) == pv.subrange(start as int, j as int),
        decreases p.len() - j,
    {
        let w = p[j].clone();
        assert(w@ =~= p@[j as int]@);
        let ghost before = comp_views(out@);
        out.push(w);
        assert(comp_views(out@) =~= before.push(w@));
        assert(comp_views(out@) =~= pv.subrange(start as int, j + 1));
        j = j + 1;
    }
    assert(pv.subrange(0, pv.len() as int) =~= pv);
    assert(pv.skip(start as int) =~= pv.subrange(start as int, pv.len() as int));
    out
}

proof fn lemma_render_paths_prefix(rs: Seq<PlannedRender>, j: int)
    requires
        0 <= j <= rs.len(),
    ensures
        render_paths(rs.take(j)).len() <= render_paths(rs).len(),
        forall|i: int| 0 <= i < render_paths(rs.take(j)).len() ==> #[trigger] render_paths(rs)[i] == render_paths(rs.take(j))[i],
    decreases rs.len() - j,
{
    if j == rs.len() {
        assert(rs.take(j) =~= rs);
    } else {
        lemma_render_paths_prefix(rs, j + 1);
        assert(rs.take(j + 1).drop_last() =~= rs.take(j));
    }
}

/// Count the render output at `p` (found on disk or not) under the render root.
fn add_render(
    roots: &mut Vec<TreeNode>,
    cfg: &Config,
    p: &String,
    found: bool,
    lits: &Vec<Vec<String>>,
    Ghost(k): Ghost<int>,
    Ghost(b): Ghost<int>,
)
    requires
        forest_ok(tvs(old(roots)@), k, b),
        0 <= k < usize::MAX,
        0 <= b <= u64::MAX,
        lit_view(lits@) == root_lits(*cfg, Root::Render),
    ensures
        tvs(final(roots)@) == grow(tvs(old(roots)@), render_event(*cfg, p@, found)),
        forest_ok(tvs(final(roots)@), k + 1, b),
{
    let base = path_components(cfg.render_root.as_str());
    let pc = path_components(p.as_str());
    let comps = strip_comps(&base, &pc);
    let st = if found {
        DestStatus::ExistsDifferent
    } else {
        DestStatus::New
    };
    grow_exec(roots, cfg.render_root.as_str(), &comps, 0, st, lits, Ghost(k), Ghost(b));
}

/// One tree per distinct root directory (roots that share a path are merged), in name
/// order, from the plan and, for each render output in order, whether its file exists.
pub fn tree_with(plan: &Plan, cfg: &Config, exists: &Vec<bool>) -> (r: Vec<TreeNode>)
    requires
        exists.len() == render_paths(plan.renders@).len(),
        plan.files.len() + exists.len() < usize::MAX,
        planned_size(plan.files@) <= u64::MAX,
    ensures
        tvs(r@) == forest(events(*plan, *cfg, exists@)),
{
    let t = &cfg.templates;
    let mut ta: Vec<&Template> = Vec::new();
    ta.push(&t.raw);
    ta.push(&t.paired_image);
    ta.push(&t.image);
    let mut tv_: Vec<&Template> = Vec::new();
    tv_.push(&t.video);
    let mut to: Vec<&Template> = Vec::new();
    to.push(&t.other);
    let mut tr: Vec<&Template> = Vec::new();
    tr.push(&t.render_exr);
    tr.push(&t.render_jpeg);
    let archive = literal_dirs(&ta);
    let video = literal_dirs(&tv_);
    let other = literal_dirs(&to);
    let render = literal_dirs(&tr);
    proof {
        assert(template_segs(ta@) =~= seq![
            dir_segments_spec(t.raw.parts_spec()),
            dir_segments_spec(t.paired_image.parts_spec()),
            dir_segments_spec(t.image.parts_spec()),
        ]);
        assert(template_segs(tv_@) =~= seq![dir_segments_spec(t.video.parts_spec())]);
        assert(template_segs(to@) =~= seq![dir_segments_spec(t.other.parts_spec())]);
        assert(template_segs(tr@) =~= seq![dir_segments_spec(t.render_exr.parts_spec()), dir_segments_spec(t.render_jpeg.parts_spec())]);
    }
    let ghost evs = events(*plan, *cfg, exists@);
    let ghost nf = plan.files.len() as int;
    let ghost rp = render_paths(plan.renders@);
    let mut roots: Vec<TreeNode> = Vec::new();
    assert(tvs(roots@) =~= Seq::<TreeView>::empty());
    assert(evs.take(0) =~= Seq::<Event>::empty());
    let mut i: usize = 0;
    while i < plan.files.len()
        invariant
            i <= plan.files.len(),
            evs == events(*plan, *cfg, exists@),
            nf == plan.files.len(),
            plan.files.len() + exists.len() < usize::MAX,
            planned_size(plan.files@) <= u64::MAX,
            lit_view(archive@) == root_lits(*cfg, Root::Archive),
            lit_view(video@) == root_lits(*cfg, Root::Video),
            lit_view(other@) == root_lits(*cfg, Root::Other),
            lit_view(render@) == root_lits(*cfg, Root::Render),
            tvs(roots@) == forest(evs.take(i as int)),
            forest_ok(tvs(roots@), i as int, planned_size(plan.files@.take(i as int)) as int),
        decreases plan.files.len() - i,
    {
        let f = &plan.files[i];
        let lits = match f.root {
            Root::Archive => &archive,
            Root::Video => &video,
            Root::Other => &other,
            Root::Render => &render,
        };
        assert(lit_view(lits@) == root_lits(*cfg, f.root));
        let comps = path_components(f.rel.as_str());
        let rootp = root_path(cfg, f.root);
        assert((Event {
            root: rootp@,
            comps: comp_views(comps@),
            bytes: f.size as int,
            status: f.status,
            lits: lit_view(lits@),
        }) == file_event(*cfg, *f));
        proof {
            lemma_planned_size_prefix(plan.files@, i + 1);
            assert(plan.files@.take(i + 1).drop_last() =~= plan.files@.take(i as int));
            assert(evs.take(i + 1).drop_last() =~= evs.take(i as int));
            assert(evs.take(i + 1).last() == file_event(*cfg, plan.files@[i as int]));
        }
        grow_exec(
            &mut roots,
            rootp.as_str(),
            &comps,
            f.size,
            f.status,
            lits,
            Ghost(i as int),
            Ghost(planned_size(plan.files@.take(i as int)) as int),
        );
        i = i + 1;
    }
    assert(plan.files@.take(nf) =~= plan.files@);
    let mut q: usize = 0;
    let mut j: usize = 0;
    while j < plan.renders.len()
        invariant
            j <= plan.renders.len(),
            evs == events(*plan, *cfg, exists@),
            nf == plan.files.len(),
            rp == render_paths(plan.renders@),
            exists.len() == rp.len(),
            plan.files.len() + exists.len() < usize::MAX,
            planned_size(plan.files@) <= u64::MAX,
            lit_view(render@) == root_lits(*cfg, Root::Render),
            q == render_paths(plan.renders@.take(j as int)).len(),
            tvs(roots@) == forest(evs.take(nf + q)),
            forest_ok(tvs(roots@), nf + q, planned_size(plan.files@) as int),
        decreases plan.renders.len() - j,
    {
        let r = &plan.renders[j];
        let ghost pre = render_paths(plan.renders@.take(j as int));
        proof {
            assert(plan.renders@.take(j + 1).drop_last() =~= plan.renders@.take(j as int));
            assert(plan.renders@.take(j + 1).last() == plan.renders@[j as int]);
            lemma_render_paths_prefix(plan.renders@, j + 1);
        }
        let ghost cur = render_paths(plan.renders@.take(j + 1));
        assert(cur == pre + opt_path(r.exr) + opt_path(r.jpeg));
        match &r.exr {
            Some(p) => {
                proof {
                    assert(cur[q as int] == p@);
                    assert(rp[q as int] == p@);
                    assert(evs.take(nf + q + 1).drop_last() =~= evs.take(nf + q));
                    assert(evs[nf + q] == render_event(*cfg, p@, exists@[q as int]));
                    assert(evs.take(nf + q + 1).last() == evs[nf + q]);
                }
                add_render(&mut roots, cfg, p, exists[q], &render, Ghost(nf + q), Ghost(planned_size(plan.files@) as int));
                assert(tvs(roots@) == forest(evs.take(nf + q + 1)));
                q = q + 1;
            },
            None => {},
        }
        assert(q == (pre + opt_path(r.exr)).len());
        match &r.jpeg {
            Some(p) => {
                proof {
                    assert(cur[q as int] == p@);
                    assert(rp[q as int] == p@);
                    assert(evs.take(nf + q + 1).drop_last() =~= evs.take(nf + q));
                    assert(evs[nf + q] == render_event(*cfg, p@, exists@[q as int]));
                    assert(evs.take(nf + q + 1).last() == evs[nf + q]);
                }
                add_render(&mut roots, cfg, p, exists[q], &render, Ghost(nf + q), Ghost(planned_size(plan.files@) as int));
                assert(tvs(roots@) == forest(evs.take(nf + q + 1)));
                q = q + 1;
            },
            None => {},
        }
        j = j + 1;
    }
    proof {
        assert(plan.renders@.take(j as int) =~= plan.renders@);
        assert(evs.take(nf + q) =~= evs);
    }
    roots
}

/// One tree per distinct root directory, in name order. `on_disk` reports whether a file is
/// at a path: a render output found there is shown as one that will be written under
/// another name.
pub fn tree<F: Fn(&str) -> bool>(plan: &Plan, cfg: &Config, on_disk: &F) -> (r: Vec<TreeNode>)
    requires
        forall|p: &str| #[trigger] call_requires(*on_disk, (p,)),
        plan.files.len() + render_paths(plan.renders@).len() < usize::MAX,
        planned_size(plan.files@) <= u64::MAX,
    ensures
        exists|found: Seq<bool>|
            {
                &&& found.len() == render_paths(plan.renders@).len()
                &&& forall|i: int| 0 <= i < found.len() ==> #[trigger] answered(*on_disk, render_paths(plan.renders@)[i], found[i])
                &&& tvs(r@) == forest(events(*plan, *cfg, found))
            },
{
    let ghost rp = render_paths(plan.renders@);
    let mut found: Vec<bool> = Vec::new();
    let mut j: usize = 0;
    while j < plan.renders.len()
        invariant
            j <= plan.renders.len(),
            rp == render_paths(plan.renders@),
            forall|p: &str| #[trigger] call_requires(*on_disk, (p,)),
            found.len() == render_paths(plan.renders@.take(j as int)).len(),
            forall|i: int| 0 <= i < found.len() ==> #[trigger] answered(*on_disk, rp[i], found@[i]),
        decreases plan.renders.len() - j,
    {
        let r = &plan.renders[j];
        let ghost pre = render_paths(plan.renders@.take(j as int));
        proof {
            assert(plan.renders@.take(j + 1).drop_last() =~= plan.renders@.take(j as int));
            assert(plan.renders@.take(j + 1).last() == plan.renders@[j as int]);
            lemma_render_paths_prefix(plan.renders@, j + 1);
        }
        let ghost cur = render_paths(plan.renders@.take(j + 1));
        assert(cur == pre + opt_path(r.exr) + opt_path(r.jpeg));
        match &r.exr {
            Some(p) => {
                let s = p.as_str();
                let b = on_disk(s);
                proof {
                    assert(cur[found.len() as int] == p@);
                    assert(rp[found.len() as int] == p@);
                    assert(answered(*on_disk, p@, b));
                }
                found.push(b);
            },
            None => {},
        }
        assert(found.len() == (pre + opt_path(r.exr)).len());
        match &r.jpeg {
            Some(p) => {
                let s = p.as_str();
                let b = on_disk(s);
                proof {
                    assert(cur[found.len() as int] == p@);
                    assert(rp[found.len() as int] == p@);
                    assert(answered(*on_disk, p@, b));
                }
                found.push(b);
            },
            None => {},
        }
        j = j + 1;
    }
    assert(plan.renders@.take(j as int) =~= plan.renders@);
    tree_with(plan, cfg, &found)
}

/// `b` is an answer `f` can give for a path that reads `p`.
pub open spec fn answered<F: Fn(&str) -> bool>(f: F, p: Seq<char>, b: bool) -> bool {
    exists|s: &str| s@ == p && #[trigger] call_ensures(f, (s,), b)
}

/// The names of `roots` strictly increase.
pub open spec fn sorted_names(roots: Seq<TreeView>) -> bool {
    forall|i: int, j: int| 0 <= i < j < roots.len() ==> lex_lt(#[trigger] roots[i].name, #[trigger] roots[j].name)
}

/// How many of `evs` land in root `r`.
pub open spec fn count_for(evs: Seq<Event>, r: Seq<char>) -> int
    decreases evs.len(),
{
    if evs.len() == 0 {
        0
    } else {
        count_for(evs.drop_last(), r) + if evs.last().root == r {
            1int
        } else {
            0int
        }
    }
}

/// How many bytes of `evs` land in root `r`.
pub open spec fn bytes_for(evs: Seq<Event>, r: Seq<char>) -> int
    decreases evs.len(),
{
    if evs.len() == 0 {
        0
    } else {
        bytes_for(evs.drop_last(), r) + if evs.last().root == r {
            evs.last().bytes
        } else {
            0
        }
    }
}

proof fn lemma_find_child_none(cs: Seq<TreeView>, name: Seq<char>)
    requires
        find_child(cs, name) is None,
    ensures
        forall|k: int| 0 <= k < cs.len() ==> (#[trigger] cs[k]).name != name,
    decreases cs.len(),
{
    if cs.len() > 0 {
        lemma_find_child_none(cs.drop_last(), name);
        assert forall|k: int| 0 <= k < cs.len() implies (#[trigger] cs[k]).name != name by {
            if k < cs.len() - 1 {
                assert(cs.drop_last()[k] == cs[k]);
            }
        }
    }
}

proof fn lemma_slot_splits(roots: Seq<TreeView>, name: Seq<char>)
    requires
        sorted_names(roots),
        forall|k: int| 0 <= k < roots.len() ==> (#[trigger] roots[k]).name != name,
    ensures
        0 <= slot(roots, name) <= roots.len(),
        forall|k: int| 0 <= k < slot(roots, name) ==> lex_lt(#[trigger] roots[k].name, name),
        forall|k: int| slot(roots, name) <= k < roots.len() ==> lex_lt(name, #[trigger] roots[k].name),
    decreases roots.len(),
{
    lemma_slot_bound(roots, name);
    if roots.len() > 0 {
        if lex_lt(name, roots[0].name) {
            assert forall|k: int| 0 <= k < roots.len() implies lex_lt(name, #[trigger] roots[k].name) by {
                if k > 0 {
                    lemma_lex_trans(name, roots[0].name, roots[k].name);
                }
            }
        } else {
            let rest = roots.drop_first();
            assert forall|k: int| 0 <= k < rest.len() implies (#[trigger] rest[k]).name != name by {
                assert(rest[k] == roots[k + 1]);
            }
            assert forall|i: int, j: int| 0 <= i < j < rest.len() implies lex_lt(#[trigger] rest[i].name, #[trigger] rest[j].name) by {
                assert(rest[i] == roots[i + 1] && rest[j] == roots[j + 1]);
            }
            lemma_slot_splits(rest, name);
            lemma_lex_total(name, roots[0].name);
            assert forall|k: int| 0 <= k < slot(roots, name) implies lex_lt(#[trigger] roots[k].name, name) by {
                if k > 0 {
                    assert(rest[k - 1] == roots[k]);
                }
            }
            assert forall|k: int| slot(roots, name) <= k < roots.len() implies lex_lt(name, #[trigger] roots[k].name) by {
                assert(rest[k - 1] == roots[k]);
            }
        }
    }
}

proof fn lemma_inserted_keeps(t: TreeView, comps: Seq<Seq<char>>, bytes: int, st: DestStatus, lits: Seq<Set<Seq<char>>>)
    ensures
        inserted(t, comps, bytes, st, lits).name == t.name,
        inserted(t, comps, bytes, st, lits).files == t.files + 1,
        inserted(t, comps, bytes, st, lits).bytes == t.bytes + bytes,
{
}

proof fn lemma_count_absent(evs: Seq<Event>, r: Seq<char>)
    requires
        forall|k: int| 0 <= k < evs.len() ==> (#[trigger] evs[k]).root != r,
    ensures
        count_for(evs, r) == 0,
        bytes_for(evs, r) == 0,
    decreases evs.len(),
{
    if evs.len() > 0 {
        assert forall|k: int| 0 <= k < evs.len() - 1 implies (#[trigger] evs.drop_last()[k]).root != r by {
            assert(evs.drop_last()[k] == evs[k]);
        }
        lemma_count_absent(evs.drop_last(), r);
    }
}

/// The preview's roots: one per folder the events land in, with distinct names in
/// increasing order, each counting exactly the files and bytes that land in it.
pub proof fn lemma_forest_roots(evs: Seq<Event>)
    ensures
        sorted_names(forest(evs)),
        forall|i: int|
            0 <= i < forest(evs).len() ==> (#[trigger] forest(evs)[i]).files == count_for(evs, forest(evs)[i].name)
                && forest(evs)[i].bytes == bytes_for(evs, forest(evs)[i].name),
        forall|k: int| 0 <= k < evs.len() ==> exists|i: int| 0 <= i < forest(evs).len() && #[trigger] forest(evs)[i].name == (#[trigger] evs[k]).root,
    decreases evs.len(),
{
    if evs.len() > 0 {
        let pre = evs.drop_last();
        let e = evs.last();
        let f0 = forest(pre);
        let f1 = forest(evs);
        lemma_forest_roots(pre);
        lemma_inserted_keeps(new_root(e.root), e.comps, e.bytes, e.status, e.lits);
        assert forall|k: int| 0 <= k < pre.len() implies #[trigger] pre[k] == evs[k] by {}
        match find_child(f0, e.root) {
            Some(i) => {
                lemma_find_child_bound(f0, e.root);
                lemma_inserted_keeps(f0[i], e.comps, e.bytes, e.status, e.lits);
                assert(f1 == f0.update(i, inserted(f0[i], e.comps, e.bytes, e.status, e.lits)));
                assert forall|a: int, b: int| 0 <= a < b < f1.len() implies lex_lt(#[trigger] f1[a].name, #[trigger] f1[b].name) by {
                    assert(f1[a].name == f0[a].name && f1[b].name == f0[b].name);
                }
                assert forall|j: int| 0 <= j < f1.len() implies (#[trigger] f1[j]).files == count_for(evs, f1[j].name)
                    && f1[j].bytes == bytes_for(evs, f1[j].name) by {
                    if j != i {
                        if f0[j].name == e.root {
                            if j < i {
                                assert(lex_lt(f0[j].name, f0[i].name));
                            } else {
                                assert(lex_lt(f0[i].name, f0[j].name));
                            }
                            lemma_lex_irrefl(e.root);
                        }
                    }
                }
                assert forall|k: int| 0 <= k < evs.len() implies exists|m: int| 0 <= m < f1.len() && #[trigger] f1[m].name == (#[trigger] evs[k]).root by {
                    if k < pre.len() {
                        let m = choose|m: int| 0 <= m < f0.len() && #[trigger] f0[m].name == (#[trigger] pre[k]).root;
                        assert(f1[m].name == f0[m].name);
                    } else {
                        assert(f1[i].name == e.root);
                    }
                }
            },
            None => {
                lemma_find_child_none(f0, e.root);
                lemma_slot_splits(f0, e.root);
                let sl = slot(f0, e.root);
                let nr = inserted(new_root(e.root), e.comps, e.bytes, e.status, e.lits);
                assert(f1 == f0.insert(sl, nr));
                assert forall|k: int| 0 <= k < pre.len() implies (#[trigger] pre[k]).root != e.root by {
                    let m = choose|m: int| 0 <= m < f0.len() && #[trigger] f0[m].name == (#[trigger] pre[k]).root;
                    assert(f0[m].name != e.root);
                }
                lemma_count_absent(pre, e.root);
                assert forall|a: int, b: int| 0 <= a < b < f1.len() implies lex_lt(#[trigger] f1[a].name, #[trigger] f1[b].name) by {
                    if a < sl && b < sl {
                        assert(f1[a] == f0[a] && f1[b] == f0[b]);
                    } else if a < sl && b == sl {
                        assert(f1[a] == f0[a]);
                    } else if a < sl {
                        assert(f1[a] == f0[a] && f1[b] == f0[b - 1]);
                        lemma_lex_trans(f0[a].name, e.root, f0[b - 1].name);
                    } else if a == sl {
                        assert(f1[b] == f0[b - 1]);
                    } else {
                        assert(f1[a] == f0[a - 1] && f1[b] == f0[b - 1]);
                    }
                }
                assert forall|j: int| 0 <= j < f1.len() implies (#[trigger] f1[j]).files == count_for(evs, f1[j].name)
                    && f1[j].bytes == bytes_for(evs, f1[j].name) by {
                    if j < sl {
                        assert(f1[j] == f0[j]);
                    } else if j > sl {
                        assert(f1[j] == f0[j - 1]);
                    }
                }
                assert forall|k: int| 0 <= k < evs.len() implies exists|m: int| 0 <= m < f1.len() && #[trigger] f1[m].name == (#[trigger] evs[k]).root by {
                    if k < pre.len() {
                        let m = choose|m: int| 0 <= m < f0.len() && #[trigger] f0[m].name == (#[trigger] pre[k]).root;
                        if m < sl {
                            assert(f1[m] == f0[m]);
                        } else {
                            assert(f1[m + 1] == f0[m]);
                        }
                    } else {
                        assert(f1[sl].name == e.root);
                    }
                }
            },
        }
    }
}

} // verus!
