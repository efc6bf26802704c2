//! Depth-first, post-order resolution of dependencies between named nodes
//! (master repositories, parent profiles), driven step by step.
//!
//! The caller opens each node that the walk asks for and hands back the names
//! that node depends on; the walk decides what to open next. Every name is
//! opened at most once, so cycles end the recursion.
use vstd::prelude::*;

use crate::text::{chars_eq, chars_of};
use crate::util::strings_view;

verus! {

struct Frame {
    node: String,
    children: Vec<String>,
    next: usize,
}

/// A node on the walk's stack: its dependencies and how many were visited.
pub struct FrameView {
    pub node: Seq<char>,
    pub children: Seq<Seq<char>>,
    pub next: nat,
}

spec fn frame_view(f: Frame) -> FrameView {
    FrameView { node: f.node@, children: strings_view(f.children@), next: f.next as nat }
}

spec fn frames_view(fs: Seq<Frame>) -> Seq<FrameView> {
    Seq::new(fs.len(), |i: int| frame_view(fs[i]))
}

pub open spec fn nodes_of(fs: Seq<FrameView>) -> Seq<Seq<char>> {
    Seq::new(fs.len(), |i: int| fs[i].node)
}

/// What remains to be done for the frames: unvisited children, plus one pop each.
pub open spec fn work(fs: Seq<FrameView>) -> nat
    decreases fs.len(),
{
    if fs.len() == 0 {
        0
    } else {
        work(fs.drop_last()) + (fs.last().children.len() - fs.last().next) as nat + 1
    }
}

/// Whether every name of `cs` is in `s`.
pub open spec fn all_in(cs: Seq<Seq<char>>, s: Seq<Seq<char>>) -> bool {
    forall|j: int| 0 <= j < cs.len() ==> s.contains(#[trigger] cs[j])
}

/// Each name of `p` depends on the next one.
pub open spec fn is_path(g: Map<Seq<char>, Seq<Seq<char>>>, p: Seq<Seq<char>>) -> bool {
    &&& p.len() > 0
    &&& forall|k: int|
        0 <= k < p.len() - 1 ==> g.contains_key(#[trigger] p[k]) && g[p[k]].contains(p[k + 1])
}

/// `b` can be reached from `a` by following dependencies (zero or more).
pub open spec fn reaches(g: Map<Seq<char>, Seq<Seq<char>>>, a: Seq<char>, b: Seq<char>) -> bool {
    exists|p: Seq<Seq<char>>| #[trigger] is_path(g, p) && p[0] == a && p.last() == b
}

/// Post-order: every dependency of a reported name is reported before it,
/// unless it lies on a cycle back to that name.
pub open spec fn post_ordered(out: Seq<Seq<char>>, g: Map<Seq<char>, Seq<Seq<char>>>) -> bool {
    forall|i: int, j: int|
        0 <= i < out.len() && 0 <= j < g[out[i]].len() ==> out.take(i).contains(
            #[trigger] g[out[i]][j],
        ) || reaches(g, g[out[i]][j], out[i])
}

/// The abstract state of a walk.
pub struct WalkModel {
    pub root: Seq<char>,
    pub include_root: bool,
    pub seen: Seq<Seq<char>>,
    pub out: Seq<Seq<char>>,
    pub frames: Seq<FrameView>,
    pub pending: Option<Seq<char>>,
    pub root_done: bool,
    pub graph: Map<Seq<char>, Seq<Seq<char>>>,
}

/// Whether a name is finished: reported, or the root once its frame is gone.
pub open spec fn finished(m: WalkModel, n: Seq<char>) -> bool {
    m.out.contains(n) || (n == m.root && m.root_done)
}

pub open spec fn frame_ok(m: WalkModel, f: FrameView) -> bool {
    &&& m.seen.contains(f.node)
    &&& f.next <= f.children.len()
    &&& m.graph.contains_key(f.node)
    &&& m.graph[f.node] == f.children
    &&& all_in(f.children.take(f.next as int), m.seen)
}

/// The walk's invariant.
pub open spec fn inv(m: WalkModel) -> bool {
    let nodes = nodes_of(m.frames);
    &&& m.seen.no_duplicates()
    &&& m.out.no_duplicates()
    &&& nodes.no_duplicates()
    &&& m.seen.len() > 0 && m.seen[0] == m.root
    &&& m.graph.contains_key(m.root)
    &&& m.frames.len() > 0 ==> m.frames[0].node == m.root
    &&& forall|i: int| 1 <= i < m.frames.len() ==> #[trigger] m.frames[i].node != m.root
    &&& (m.frames.len() == 0) == m.root_done
    &&& m.root_done ==> m.pending is None
    &&& forall|i: int| 0 <= i < m.frames.len() ==> #[trigger] frame_ok(m, m.frames[i])
    // every name seen is finished, on the stack, or pending, and only one of these
    &&& forall|n: Seq<char>|
        #[trigger] m.seen.contains(n) ==> finished(m, n) || nodes.contains(n) || m.pending
            == Some(n)
    &&& forall|n: Seq<char>|
        #[trigger] m.out.contains(n) ==> m.seen.contains(n) && !nodes.contains(n) && m.pending
            != Some(n)
    &&& match m.pending {
        Some(p) => m.seen.contains(p) && !nodes.contains(p) && p != m.root && !m.graph.contains_key(
            p,
        ),
        None => true,
    }
    // the root is reported only when asked for, and then only once finished
    &&& m.out.contains(m.root) == (m.include_root && m.root_done)
    // finished names have all their dependencies seen
    &&& forall|n: Seq<char>|
        #[trigger] finished(m, n) ==> m.graph.contains_key(n) && all_in(m.graph[n], m.seen)
    // only the root and the opened names have known dependencies
    &&& forall|n: Seq<char>| #[trigger] m.graph.contains_key(n) ==> m.seen.contains(n)
    // each frame was opened as the dependency its parent frame last visited
    &&& forall|k: int|
        0 <= k < m.frames.len() - 1 ==> (#[trigger] m.frames[k]).next >= 1
            && m.frames[k].children[m.frames[k].next - 1] == m.frames[k + 1].node
    &&& match m.pending {
        Some(p) => m.frames.len() > 0 && m.frames.last().next >= 1 && m.frames.last().children[m.frames.last().next - 1] == p,
        None => true,
    }
    &&& post_ordered(m.out, m.graph)
}

proof fn lemma_push_contains(s: Seq<Seq<char>>, x: Seq<char>)
    ensures
        forall|n: Seq<char>| #[trigger] s.push(x).contains(n) <==> (s.contains(n) || n == x),
{
    assert forall|n: Seq<char>| #[trigger] s.push(x).contains(n) implies (s.contains(n) || n
        == x) by {
        let i = choose|i: int| 0 <= i < s.push(x).len() && s.push(x)[i] == n;
        if i < s.len() {
            assert(s[i] == n);
        }
    }
    assert forall|n: Seq<char>| (s.contains(n) || n == x) implies #[trigger] s.push(x).contains(
        n,
    ) by {
        if n == x {
            assert(s.push(x)[s.len() as int] == x);
        } else {
            let i = choose|i: int| 0 <= i < s.len() && s[i] == n;
            assert(s.push(x)[i] == n);
        }
    }
}

/// Membership in a sequence after a push.
pub proof fn lemma_push_contains_pub(s: Seq<Seq<char>>, x: Seq<char>)
    ensures
        forall|n: Seq<char>| #[trigger] s.push(x).contains(n) <==> (s.contains(n) || n == x),
{
    lemma_push_contains(s, x);
}

proof fn lemma_push_no_dup(s: Seq<Seq<char>>, x: Seq<char>)
    requires
        s.no_duplicates(),
        !s.contains(x),
    ensures
        s.push(x).no_duplicates(),
{
    let t = s.push(x);
    assert forall|a: int, b: int| 0 <= a < b < t.len() implies t[a] != t[b] by {
        if b == t.len() - 1 {
            assert(s[a] == t[a]);
        }
    }
}

proof fn lemma_all_in_grow(cs: Seq<Seq<char>>, s: Seq<Seq<char>>, x: Seq<char>)
    requires
        all_in(cs, s),
    ensures
        all_in(cs, s.push(x)),
{
    lemma_push_contains(s, x);
    assert forall|j: int| 0 <= j < cs.len() implies s.push(x).contains(#[trigger] cs[j]) by {
        assert(s.contains(cs[j]));
    }
}

proof fn lemma_nodes_drop_last(fs: Seq<FrameView>)
    requires
        fs.len() > 0,
    ensures
        nodes_of(fs.drop_last()) == nodes_of(fs).drop_last(),
        nodes_of(fs).last() == fs.last().node,
{
    assert(nodes_of(fs.drop_last()) =~= nodes_of(fs).drop_last());
}

/// Advancing the top frame past a dependency.
pub open spec fn bump_top(fs: Seq<FrameView>) -> Seq<FrameView> {
    let t = fs.last();
    fs.drop_last().push(FrameView { node: t.node, children: t.children, next: t.next + 1 })
}

proof fn lemma_bump_top(m: WalkModel, c: Seq<char>)
    requires
        inv(m),
        m.pending is None,
        m.frames.len() > 0,
        m.frames.last().next < m.frames.last().children.len(),
        c == m.frames.last().children[m.frames.last().next as int],
    ensures
        m.seen.contains(c) ==> inv(WalkModel { frames: bump_top(m.frames), ..m }),
        !m.seen.contains(c) ==> inv(
            WalkModel { frames: bump_top(m.frames), seen: m.seen.push(c), pending: Some(c), ..m },
        ),
        !m.seen.contains(c) ==> c != m.root,
        work(bump_top(m.frames)) < work(m.frames),
{
    let fs = m.frames;
    let nfs = bump_top(fs);
    let t = fs.last();
    let nt = nfs.last();
    assert(nfs.drop_last() =~= fs.drop_last());
    assert(nodes_of(nfs) =~= nodes_of(fs));
    assert(nt.children.take(nt.next as int) =~= t.children.take(t.next as int).push(c));
    assert(frame_ok(m, t));
    assert(m.seen.contains(m.root)) by {
        assert(m.seen[0] == m.root);
    }
    if m.seen.contains(c) {
        let m2 = WalkModel { frames: nfs, ..m };
        assert forall|i: int| 0 <= i < nfs.len() implies #[trigger] frame_ok(m2, nfs[i]) by {
            if i < nfs.len() - 1 {
                assert(nfs[i] == fs[i]);
                assert(frame_ok(m, fs[i]));
            } else {
                assert forall|j: int| 0 <= j < nt.next implies m.seen.contains(
                    #[trigger] nt.children.take(nt.next as int)[j],
                ) by {
                    if j < nt.next - 1 {
                        assert(nt.children.take(nt.next as int)[j] == t.children.take(
                            t.next as int,
                        )[j]);
                    }
                }
            }
        }
        assert forall|i: int| 1 <= i < nfs.len() implies #[trigger] nfs[i].node != m.root by {
            assert(nfs[i].node == fs[i].node);
        }
        assert(nfs[0].node == fs[0].node);
    } else {
        let seen2 = m.seen.push(c);
        let m2 = WalkModel { frames: nfs, seen: seen2, pending: Some(c), ..m };
        lemma_push_contains(m.seen, c);
        lemma_push_no_dup(m.seen, c);
        assert(seen2[0] == m.seen[0]);
        assert(!nodes_of(fs).contains(c)) by {
            if nodes_of(fs).contains(c) {
                let i = choose|i: int| 0 <= i < nodes_of(fs).len() && nodes_of(fs)[i] == c;
                assert(frame_ok(m, fs[i]));
            }
        }
        assert forall|i: int| 0 <= i < nfs.len() implies #[trigger] frame_ok(m2, nfs[i]) by {
            if i < nfs.len() - 1 {
                assert(nfs[i] == fs[i]);
                assert(frame_ok(m, fs[i]));
                lemma_all_in_grow(fs[i].children.take(fs[i].next as int), m.seen, c);
            } else {
                lemma_all_in_grow(t.children.take(t.next as int), m.seen, c);
                assert forall|j: int| 0 <= j < nt.next implies seen2.contains(
                    #[trigger] nt.children.take(nt.next as int)[j],
                ) by {
                    if j < nt.next - 1 {
                        assert(nt.children.take(nt.next as int)[j] == t.children.take(
                            t.next as int,
                        )[j]);
                    }
                }
            }
        }
        assert forall|i: int| 1 <= i < nfs.len() implies #[trigger] nfs[i].node != m.root by {
            assert(nfs[i].node == fs[i].node);
        }
        assert(nfs[0].node == fs[0].node);
        assert forall|n: Seq<char>| #[trigger] seen2.contains(n) implies finished(m2, n)
            || nodes_of(nfs).contains(n) || m2.pending == Some(n) by {
            if n != c {
                assert(m.seen.contains(n));
            }
        }
        assert forall|n: Seq<char>| #[trigger] finished(m2, n) implies m2.graph.contains_key(n)
            && all_in(m2.graph[n], seen2) by {
            assert(finished(m, n));
            lemma_all_in_grow(m.graph[n], m.seen, c);
        }
    }
}

/// Recording the dependencies of a new name keeps every path, and so the
/// post-order of what was reported.
proof fn lemma_post_ordered_insert(
    out: Seq<Seq<char>>,
    g: Map<Seq<char>, Seq<Seq<char>>>,
    key: Seq<char>,
    v: Seq<Seq<char>>,
)
    requires
        post_ordered(out, g),
        !g.contains_key(key),
        forall|i: int| 0 <= i < out.len() ==> g.contains_key(#[trigger] out[i]),
    ensures
        post_ordered(out, g.insert(key, v)),
{
    let g2 = g.insert(key, v);
    assert forall|i: int, j: int|
        0 <= i < out.len() && 0 <= j < g2[out[i]].len() implies out.take(i).contains(
        #[trigger] g2[out[i]][j],
    ) || reaches(g2, g2[out[i]][j], out[i]) by {
        assert(g.contains_key(out[i]));
        assert(g2[out[i]] == g[out[i]]);
        let c = g[out[i]][j];
        if !out.take(i).contains(c) {
            assert(reaches(g, c, out[i]));
            let p = choose|p: Seq<Seq<char>>| #[trigger] is_path(g, p) && p[0] == c && p.last() == out[i];
            assert forall|k: int| 0 <= k < p.len() - 1 implies g2.contains_key(#[trigger] p[k])
                && g2[p[k]].contains(p[k + 1]) by {
                assert(g.contains_key(p[k]));
            }
            assert(is_path(g2, p));
        }
    }
}

/// Every name on the stack reaches the top of the stack.
proof fn lemma_stack_reaches(m: WalkModel, q: int)
    requires
        inv(m),
        0 <= q < m.frames.len(),
    ensures
        reaches(m.graph, m.frames[q].node, m.frames.last().node),
{
    let nodes = nodes_of(m.frames);
    let p = nodes.subrange(q, nodes.len() as int);
    assert forall|k: int| 0 <= k < p.len() - 1 implies m.graph.contains_key(#[trigger] p[k])
        && m.graph[p[k]].contains(p[k + 1]) by {
        let f = m.frames[q + k];
        assert(frame_ok(m, f));
        assert(p[k] == f.node);
        assert(p[k + 1] == m.frames[q + k + 1].node);
        assert(f.next >= 1 && f.children[f.next - 1] == m.frames[q + k + 1].node);
        assert(m.graph[p[k]][f.next - 1] == p[k + 1]);
    }
    assert(is_path(m.graph, p));
    assert(p[0] == m.frames[q].node);
    assert(p.last() == m.frames.last().node);
}

proof fn lemma_pop(m: WalkModel)
    requires
        inv(m),
        m.pending is None,
        m.frames.len() > 0,
        m.frames.last().next == m.frames.last().children.len(),
    ensures
        ({
            let t = m.frames.last();
            let fs = m.frames.drop_last();
            let last = fs.len() == 0;
            let out = if !last || m.include_root {
                m.out.push(t.node)
            } else {
                m.out
            };
            &&& last == (t.node == m.root)
            &&& inv(WalkModel { frames: fs, out: out, root_done: last, ..m })
        }),
        work(m.frames.drop_last()) < work(m.frames),
{
    let t = m.frames.last();
    let fs = m.frames.drop_last();
    let last = fs.len() == 0;
    let out = if !last || m.include_root {
        m.out.push(t.node)
    } else {
        m.out
    };
    let m2 = WalkModel { frames: fs, out: out, root_done: last, ..m };
    let nodes = nodes_of(m.frames);
    lemma_nodes_drop_last(m.frames);
    assert(frame_ok(m, t));
    assert(t.children.take(t.next as int) =~= t.children);
    assert(nodes.contains(t.node)) by {
        assert(nodes[nodes.len() - 1] == t.node);
    }
    assert(!nodes_of(fs).contains(t.node)) by {
        if nodes_of(fs).contains(t.node) {
            let i = choose|i: int| 0 <= i < nodes_of(fs).len() && nodes_of(fs)[i] == t.node;
            assert(nodes[i] == nodes[nodes.len() - 1]);
        }
    }
    if last {
        assert(t.node == m.root);
    } else {
        assert(t.node != m.root) by {
            assert(m.frames[m.frames.len() - 1].node != m.root);
        }
    }
    assert(!m.out.contains(t.node));
    if !last || m.include_root {
        lemma_push_contains(m.out, t.node);
        lemma_push_no_dup(m.out, t.node);
    }
    assert forall|n: Seq<char>| #[trigger] nodes_of(fs).contains(n) implies nodes.contains(n)
        && n != t.node by {
        let i = choose|i: int| 0 <= i < nodes_of(fs).len() && nodes_of(fs)[i] == n;
        assert(nodes[i] == n);
    }
    assert forall|n: Seq<char>| #[trigger] m.seen.contains(n) implies finished(m2, n)
        || nodes_of(fs).contains(n) || m2.pending == Some(n) by {
        if n != t.node {
            assert(finished(m, n) || nodes.contains(n));
            if nodes.contains(n) {
                let i = choose|i: int| 0 <= i < nodes.len() && nodes[i] == n;
                assert(i < nodes.len() - 1);
                assert(nodes_of(fs)[i] == n);
            }
        }
    }
    assert forall|n: Seq<char>| #[trigger] out.contains(n) implies m.seen.contains(n)
        && !nodes_of(fs).contains(n) && m2.pending != Some(n) by {
        if n != t.node {
            assert(m.out.contains(n));
        }
    }
    assert forall|n: Seq<char>| #[trigger] finished(m2, n) implies m.graph.contains_key(n) && all_in(
        m.graph[n],
        m.seen,
    ) by {
        if n != t.node {
            assert(finished(m, n));
        }
    }
    assert forall|i: int| 0 <= i < fs.len() implies #[trigger] frame_ok(m2, fs[i]) by {
        assert(fs[i] == m.frames[i]);
        assert(frame_ok(m, m.frames[i]));
    }
    assert forall|i: int| 1 <= i < fs.len() implies #[trigger] fs[i].node != m.root by {
        assert(fs[i] == m.frames[i]);
    }
    if fs.len() > 0 {
        assert(fs[0] == m.frames[0]);
    }
    assert forall|k: int| 0 <= k < fs.len() - 1 implies (#[trigger] fs[k]).next >= 1
        && fs[k].children[fs[k].next - 1] == fs[k + 1].node by {
        assert(fs[k] == m.frames[k] && fs[k + 1] == m.frames[k + 1]);
    }
    if !last || m.include_root {
        let i0 = m.out.len() as int;
        assert(m.graph[t.node] == t.children);
        assert forall|i: int, j: int|
            0 <= i < out.len() && 0 <= j < m.graph[out[i]].len() implies out.take(i).contains(
            #[trigger] m.graph[out[i]][j],
        ) || reaches(m.graph, m.graph[out[i]][j], out[i]) by {
            if i < i0 {
                assert(out.take(i) =~= m.out.take(i));
                assert(out[i] == m.out[i]);
            } else {
                assert(out.take(i) =~= m.out);
                assert(out[i] == t.node);
                let c = t.children[j];
                assert(m.seen.contains(c)) by {
                    assert(t.children.take(t.next as int)[j] == c);
                }
                assert(!m.root_done);
                if nodes.contains(c) {
                    let q = choose|q: int| 0 <= q < nodes.len() && nodes[q] == c;
                    lemma_stack_reaches(m, q);
                }
            }
        }
    }
}

proof fn lemma_opened(m: WalkModel, cs: Seq<Seq<char>>)
    requires
        inv(m),
        m.pending is Some,
    ensures
        ({
            let p = m.pending->0;
            let f = FrameView { node: p, children: cs, next: 0 };
            inv(
                WalkModel {
                    frames: m.frames.push(f),
                    pending: None,
                    graph: m.graph.insert(p, cs),
                    ..m
                },
            )
        }),
{
    let p = m.pending->0;
    let f = FrameView { node: p, children: cs, next: 0 };
    let fs = m.frames.push(f);
    let g = m.graph.insert(p, cs);
    let m2 = WalkModel { frames: fs, pending: None, graph: g, ..m };
    assert(nodes_of(fs) =~= nodes_of(m.frames).push(p));
    lemma_push_contains(nodes_of(m.frames), p);
    lemma_push_no_dup(nodes_of(m.frames), p);
    assert(f.children.take(0) =~= Seq::<Seq<char>>::empty());
    assert(!m.root_done);
    assert forall|i: int| 0 <= i < fs.len() implies #[trigger] frame_ok(m2, fs[i]) by {
        if i < fs.len() - 1 {
            assert(fs[i] == m.frames[i]);
            assert(frame_ok(m, m.frames[i]));
            assert(fs[i].node != p) by {
                assert(nodes_of(m.frames)[i] == fs[i].node);
            }
        }
    }
    assert forall|i: int| 1 <= i < fs.len() implies #[trigger] fs[i].node != m.root by {
        if i < fs.len() - 1 {
            assert(fs[i] == m.frames[i]);
        }
    }
    if m.frames.len() > 0 {
        assert(fs[0] == m.frames[0]);
    }
    assert forall|n: Seq<char>| #[trigger] finished(m2, n) implies g.contains_key(n) && all_in(
        g[n],
        m.seen,
    ) by {
        assert(finished(m, n));
        assert(n != p);
    }
    assert forall|n: Seq<char>| #[trigger] g.contains_key(n) implies m.seen.contains(n) by {
        if n != p {
            assert(m.graph.contains_key(n));
        }
    }
    assert forall|k: int| 0 <= k < fs.len() - 1 implies (#[trigger] fs[k]).next >= 1
        && fs[k].children[fs[k].next - 1] == fs[k + 1].node by {
        assert(fs[k] == m.frames[k]);
        if k < m.frames.len() - 1 {
            assert(fs[k + 1] == m.frames[k + 1]);
        }
    }
    assert forall|i: int| 0 <= i < m.out.len() implies m.graph.contains_key(#[trigger] m.out[i]) by {
        assert(m.out.contains(m.out[i]));
        assert(finished(m, m.out[i]));
    }
    lemma_post_ordered_insert(m.out, m.graph, p, cs);
}

proof fn lemma_start(root: Seq<char>, cs: Seq<Seq<char>>, include_root: bool)
    ensures
        inv(
            WalkModel {
                root: root,
                include_root: include_root,
                seen: seq![root],
                out: seq![],
                frames: seq![FrameView { node: root, children: cs, next: 0 }],
                pending: None,
                root_done: false,
                graph: map![root => cs],
            },
        ),
{
    let m = WalkModel {
        root: root,
        include_root: include_root,
        seen: seq![root],
        out: seq![],
        frames: seq![FrameView { node: root, children: cs, next: 0 }],
        pending: None,
        root_done: false,
        graph: map![root => cs],
    };
    assert(m.frames[0].children.take(0) =~= Seq::<Seq<char>>::empty());
    assert(m.seen[0] == root);
    assert(frame_ok(m, m.frames[0]));
    assert(nodes_of(m.frames) =~= seq![root]);
    assert forall|n: Seq<char>| #[trigger] m.seen.contains(n) implies nodes_of(m.frames).contains(
        n,
    ) by {
        assert(n == m.seen[0]);
        assert(nodes_of(m.frames)[0] == root);
    }
    assert forall|n: Seq<char>| #[trigger] m.graph.contains_key(n) implies m.seen.contains(n) by {
        assert(m.seen[0] == root);
    }
}

/// The state once the pending name is opened and found to depend on `cs`:
/// its frame goes on top of the stack and its dependencies are recorded.
pub open spec fn opened_state(m: WalkModel, cs: Seq<Seq<char>>) -> WalkModel {
    let p = m.pending->0;
    WalkModel {
        frames: m.frames.push(FrameView { node: p, children: cs, next: 0 }),
        pending: None,
        graph: m.graph.insert(p, cs),
        ..m
    }
}

/// Depth-first, post-order: from state `m`, the state in which the walk next
/// has to open a name, with that name, or the final state and `None`. The
/// top frame visits its next dependency, in the listed order: a name not yet
/// seen is the one to open; a seen one is passed over. A frame whose
/// dependencies are all visited is popped and its name reported (the root
/// only when asked for).
pub open spec fn settle(m: WalkModel) -> (WalkModel, Option<Seq<char>>)
    decreases work(m.frames),
{
    if m.frames.len() == 0 {
        (m, None)
    } else {
        let t = m.frames.last();
        if t.next < t.children.len() {
            let c = t.children[t.next as int];
            let fs = bump_top(m.frames);
            proof {
                assert(fs.drop_last() =~= m.frames.drop_last());
            }
            if m.seen.contains(c) {
                settle(WalkModel { frames: fs, ..m })
            } else {
                (WalkModel { frames: fs, seen: m.seen.push(c), pending: Some(c), ..m }, Some(c))
            }
        } else {
            let fs = m.frames.drop_last();
            let last = fs.len() == 0;
            let out = if !last || m.include_root {
                m.out.push(t.node)
            } else {
                m.out
            };
            settle(WalkModel { frames: fs, out: out, root_done: last, ..m })
        }
    }
}

/// The next thing the caller must do.
pub enum WalkStep {
    /// Open the node of this name and pass the names it depends on to
    /// [`PostOrderWalk::advance`].
    Open(String),
    /// The walk is complete; [`PostOrderWalk::resolved`] holds the result.
    Done,
}

/// A depth-first walk from a root node.
pub struct PostOrderWalk {
    root: String,
    include_root: bool,
    stack: Vec<Frame>,
    seen: Vec<String>,
    out: Vec<String>,
    pending: Option<String>,
    root_done: bool,
    graph: Ghost<Map<Seq<char>, Seq<Seq<char>>>>,
}

fn contains_string(v: &Vec<String>, s: &String) -> (r: bool)
    ensures
        r == strings_view(v@).contains(s@),
{
    let key = chars_of(s.as_str());
    let mut i: usize = 0;
    while i < v.len()
        invariant
            i <= v@.len(),
            key@ == s@,
            forall|k: int| 0 <= k < i ==> v@[k]@ != s@,
        decreases v@.len() - i,
    {
        let c = chars_of(v[i].as_str());
        if chars_eq(c.as_slice(), key.as_slice()) {
            assert(strings_view(v@)[i as int] == s@);
            return true;
        }
        i += 1;
    }
    assert(!strings_view(v@).contains(s@)) by {
        if strings_view(v@).contains(s@) {
            let k = choose|k: int| 0 <= k < strings_view(v@).len() && strings_view(v@)[k] == s@;
            assert(v@[k]@ == s@);
        }
    }
    false
}

fn copy_strings(v: &Vec<String>) -> (r: Vec<String>)
    ensures
        strings_view(r@) == strings_view(v@),
{
    let mut r: Vec<String> = Vec::new();
    let mut i: usize = 0;
    while i < v.len()
        invariant
            i <= v@.len(),
            r@.len() == i,
            forall|k: int| 0 <= k < i ==> #[trigger] r@[k]@ == v@[k]@,
        decreases v@.len() - i,
    {
        r.push(v[i].clone());
        i += 1;
    }
    assert(strings_view(r@) =~= strings_view(v@));
    r
}

impl PostOrderWalk {
    /// The abstract state of the walk.
    pub closed spec fn model(&self) -> WalkModel {
        WalkModel {
            root: self.root@,
            include_root: self.include_root,
            seen: strings_view(self.seen@),
            out: strings_view(self.out@),
            frames: frames_view(self.stack@),
            pending: match self.pending {
                Some(p) => Some(p@),
                None => None,
            },
            root_done: self.root_done,
            graph: self.graph@,
        }
    }

    /// The walk's internal consistency.
    pub open spec fn wf(&self) -> bool {
        inv(self.model())
    }

    /// Whether the walk has finished.
    pub open spec fn spec_done(&self) -> bool {
        self.model().frames.len() == 0 && self.model().pending is None
    }

    /// Start a walk at `root`, whose dependencies are `children`. When
    /// `include_root` is set, the root is resolved last, after all the others.
    pub fn new(root: &str, children: Vec<String>, include_root: bool) -> (w: PostOrderWalk)
        ensures
            w.wf(),
            w.model().root == root@,
            w.model().include_root == include_root,
            w.model().seen == seq![root@],
            w.model().out == Seq::<Seq<char>>::empty(),
            w.model().graph == map![root@ => strings_view(children@)],
            w.model().pending is None,
            !w.spec_done(),
    {
        let ghost cs = strings_view(children@);
        let ghost g0 = map![root@ => cs];
        let mut seen: Vec<String> = Vec::new();
        seen.push(root.to_owned());
        let mut stack: Vec<Frame> = Vec::new();
        stack.push(Frame { node: root.to_owned(), children, next: 0 });
        let w = PostOrderWalk {
            root: root.to_owned(),
            include_root,
            stack,
            seen,
            out: Vec::new(),
            pending: None,
            root_done: false,
            graph: Ghost(g0),
        };
        proof {
            lemma_start(root@, cs, include_root);
            assert(w.model().seen =~= seq![root@]);
            assert(w.model().out =~= Seq::<Seq<char>>::empty());
            assert(w.model().frames =~= seq![FrameView { node: root@, children: cs, next: 0 }]);
        }
        w
    }

    /// The name the walk waits for.
    pub fn pending_name(&self) -> (r: String)
        requires
            self.wf(),
            self.model().pending is Some,
        ensures
            r@ == self.model().pending->0,
    {
        match &self.pending {
            Some(p) => p.clone(),
            None => String::new(),
        }
    }

    /// The names resolved so far.
    pub fn resolved(&self) -> (r: Vec<String>)
        ensures
            strings_view(r@) == self.model().out,
    {
        copy_strings(&self.out)
    }

    /// Take the next step: `opened` carries the dependencies of the node that
    /// the previous step asked to open (and is `None` on the first step).
    pub fn advance(&mut self, opened: Option<Vec<String>>) -> (r: WalkStep)
        requires
            old(self).wf(),
            old(self).model().pending is Some <==> opened is Some,
            !old(self).spec_done(),
        ensures
            final(self).wf(),
            final(self).model().root == old(self).model().root,
            final(self).model().include_root == old(self).model().include_root,
            match r {
                WalkStep::Open(n) => {
                    &&& !old(self).model().seen.contains(n@)
                    &&& n@ != old(self).model().root
                    &&& final(self).model().seen == old(self).model().seen.push(n@)
                    &&& final(self).model().pending == Some(n@)
                    &&& !final(self).spec_done()
                },
                WalkStep::Done => final(self).spec_done() && final(self).model().seen == old(
                    self,
                ).model().seen,
            },
            // what is recorded of the opened node's dependencies
            match (old(self).model().pending, opened) {
                (Some(p), Some(c)) => final(self).model().graph == old(self).model().graph.insert(
                    p,
                    strings_view(c@),
                ),
                _ => final(self).model().graph == old(self).model().graph,
            },
            // the step itself
            ({
                let m1 = if opened is Some {
                    opened_state(old(self).model(), strings_view(opened->0@))
                } else {
                    old(self).model()
                };
                &&& final(self).model() == settle(m1).0
                &&& match r {
                    WalkStep::Open(n) => settle(m1).1 == Some(n@),
                    WalkStep::Done => settle(m1).1 is None,
                }
            }),
    {
        let ghost m1 = if opened is Some {
            opened_state(old(self).model(), strings_view(opened->0@))
        } else {
            old(self).model()
        };
        if let Some(children) = opened {
            let ghost m0 = self.model();
            let ghost cv = strings_view(children@);
            let node = match self.pending.take() {
                Some(n) => n,
                None => {
                    proof {
                        assert(false);
                    }
                    String::new()
                },
            };
            proof {
                lemma_opened(m0, cv);
                self.graph@ = self.graph@.insert(node@, cv);
            }
            self.stack.push(Frame { node, children, next: 0 });
            proof {
                assert(self.model().frames =~= m0.frames.push(
                    FrameView { node: m0.pending->0, children: cv, next: 0 },
                ));
                assert(self.model() == WalkModel {
                    frames: m0.frames.push(FrameView { node: m0.pending->0, children: cv, next: 0 }),
                    pending: None,
                    graph: m0.graph.insert(m0.pending->0, cv),
                    ..m0
                });
            }
        }
        assert(self.model().seen == old(self).model().seen);
        assert(self.model().graph == match (old(self).model().pending, opened) {
            (Some(p), Some(c)) => old(self).model().graph.insert(p, strings_view(c@)),
            _ => old(self).model().graph,
        });
        assert(self.model() == m1);
        loop
            invariant
                self.wf(),
                settle(self.model()) == settle(m1),
                m1 == (if opened is Some {
                    opened_state(old(self).model(), strings_view(opened->0@))
                } else {
                    old(self).model()
                }),
                self.model().pending is None,
                self.model().root == old(self).model().root,
                self.model().include_root == old(self).model().include_root,
                self.model().seen == old(self).model().seen,
                self.model().graph == match (old(self).model().pending, opened) {
                    (Some(p), Some(c)) => old(self).model().graph.insert(p, strings_view(c@)),
                    _ => old(self).model().graph,
                },
            decreases work(self.model().frames),
        {
            if self.stack.len() == 0 {
                proof {
                    assert(self.model().frames.len() == 0);
                    assert(settle(self.model()) == (self.model(), None::<Seq<char>>));
                }
                return WalkStep::Done;
            }
            let ghost m = self.model();
            let mut top = self.stack.pop().unwrap();
            proof {
                assert(frames_view(self.stack@) =~= m.frames.drop_last());
                assert(frame_view(top) == m.frames.last());
            }
            if top.next < top.children.len() {
                let child = top.children[top.next].clone();
                top.next += 1;
                proof {
                    lemma_bump_top(m, child@);
                }
                if contains_string(&self.seen, &child) {
                    self.stack.push(top);
                    proof {
                        assert(frames_view(self.stack@) =~= bump_top(m.frames));
                        assert(self.model() == WalkModel { frames: bump_top(m.frames), ..m });
                    }
                } else {
                    self.seen.push(child.clone());
                    self.pending = Some(child.clone());
                    self.stack.push(top);
                    proof {
                        assert(frames_view(self.stack@) =~= bump_top(m.frames));
                        assert(strings_view(self.seen@) =~= m.seen.push(child@));
                        assert(self.model() == WalkModel {
                            frames: bump_top(m.frames),
                            seen: m.seen.push(child@),
                            pending: Some(child@),
                            ..m
                        });
                        assert(m.frames.last().children[m.frames.last().next as int] == child@);
                        assert(!m.seen.contains(child@));
                        assert(settle(m) == (self.model(), Some(child@)));
                    }
                    return WalkStep::Open(child);
                }
            } else {
                let node = top.node;
                proof {
                    assert(frame_ok(m, m.frames[m.frames.len() - 1]));
                    lemma_pop(m);
                }
                if self.stack.len() == 0 {
                    self.root_done = true;
                    if self.include_root {
                        self.out.push(node);
                    }
                } else {
                    self.out.push(node);
                }
                proof {
                    let last = m.frames.drop_last().len() == 0;
                    let out = if !last || m.include_root {
                        m.out.push(m.frames.last().node)
                    } else {
                        m.out
                    };
                    assert(strings_view(self.out@) =~= out);
                    assert(self.model() == WalkModel {
                        frames: m.frames.drop_last(),
                        out: out,
                        root_done: last,
                        ..m
                    });
                }
            }
        }
    }
}

} // verus!

verus! {

/// Once a walk is done, what it resolved is closed under dependencies: every
/// name that the root or a resolved node depends on was itself resolved (or
/// is the root), no name was resolved twice, and the root is among the
/// resolved names exactly when it was asked for. The order is post-order:
/// each dependency of a resolved name comes before it, unless it lies on a
/// cycle back to that name.
pub proof fn lemma_walk_done_closed(w: PostOrderWalk)
    requires
        w.wf(),
        w.spec_done(),
    ensures
        w.model().out.no_duplicates(),
        w.model().out.contains(w.model().root) == w.model().include_root,
        forall|n: Seq<char>|
            (w.model().out.contains(n) || n == w.model().root) ==> #[trigger] w.model().graph.contains_key(n),
        forall|n: Seq<char>, j: int|
            (w.model().out.contains(n) || n == w.model().root) && 0 <= j < w.model().graph[n].len()
                ==> #[trigger] w.model().out.contains(w.model().graph[n][j]) || w.model().graph[n][j]
                == w.model().root,
        post_ordered(w.model().out, w.model().graph),
{
    let m = w.model();
    assert(m.root_done);
    assert forall|n: Seq<char>| (m.out.contains(n) || n == m.root) implies #[trigger] m.graph.contains_key(n) by {
        assert(finished(m, n));
    }
    assert forall|n: Seq<char>, j: int|
        (m.out.contains(n) || n == m.root) && 0 <= j < m.graph[n].len() implies #[trigger] m.out.contains(m.graph[n][j]) || m.graph[n][j] == m.root by {
        assert(finished(m, n));
        assert(all_in(m.graph[n], m.seen));
        let c = m.graph[n][j];
        assert(m.seen.contains(c));
        assert(finished(m, c) || nodes_of(m.frames).contains(c) || m.pending == Some(c));
        if nodes_of(m.frames).contains(c) {
            let i = choose|i: int| 0 <= i < nodes_of(m.frames).len() && nodes_of(m.frames)[i] == c;
        }
    }
}

} // verus!
