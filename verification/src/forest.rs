//! The model of the platform's nodes.
//!
//! A platform keeps its nodes in a table that only grows: a handle is the
//! place of a node in that table, and a node that leaves the document keeps
//! its handle. The model of the table is a sequence of [`NodeView`]s. Each
//! change that a platform can make is a function from one such sequence to
//! the next.

use vstd::prelude::*;

verus! {

/// What a node is.
#[derive(Clone, Copy, Debug, PartialEq, Eq, Structural)]
pub enum NodeKind {
    Element,
    Text,
    /// An invisible element that keeps a place for content to come.
    Placeholder,
}

/// The model of one node.
pub struct NodeView {
    pub kind: NodeKind,
    /// The tag name of an element; empty for the other kinds.
    pub tag: Seq<char>,
    /// The namespace of an element; empty where it has none.
    pub namespace: Seq<char>,
    /// The text content.
    pub text: Seq<char>,
    /// The attributes, each under its namespace (empty for none) and name.
    pub attrs: Map<(Seq<char>, Seq<char>), Seq<char>>,
    /// The installed handlers: event name and whether it bubbles.
    pub handlers: Set<(Seq<char>, bool)>,
    /// The children, in document order.
    pub children: Seq<usize>,
    pub parent: Option<usize>,
}

/// A lifecycle event that was posted to the host.
pub struct PostedView {
    pub name: Seq<char>,
    pub node_id: u32,
    pub bubbles: bool,
}

/// A node as it is right after its creation: no attributes, no handlers, no
/// children, no parent.
pub open spec fn fresh_node(
    kind: NodeKind,
    tag: Seq<char>,
    namespace: Seq<char>,
    text: Seq<char>,
) -> NodeView {
    NodeView {
        kind,
        tag,
        namespace,
        text,
        attrs: Map::empty(),
        handlers: Set::empty(),
        children: Seq::empty(),
        parent: None,
    }
}

pub open spec fn fresh_element(tag: Seq<char>, namespace: Seq<char>) -> NodeView {
    fresh_node(NodeKind::Element, tag, namespace, Seq::empty())
}

pub open spec fn fresh_text(content: Seq<char>) -> NodeView {
    fresh_node(NodeKind::Text, Seq::empty(), Seq::empty(), content)
}

pub open spec fn fresh_placeholder() -> NodeView {
    fresh_node(NodeKind::Placeholder, Seq::empty(), Seq::empty(), Seq::empty())
}

/// Every handle that a node holds is a handle of the table.
pub open spec fn node_wf(f: Seq<NodeView>, n: int) -> bool {
    &&& forall|j: int| 0 <= j < f[n].children.len() ==> (#[trigger] f[n].children[j]) < f.len()
    &&& f[n].parent matches Some(p) ==> p < f.len()
}

pub open spec fn forest_wf(f: Seq<NodeView>) -> bool {
    forall|n: int| 0 <= n < f.len() ==> #[trigger] node_wf(f, n)
}

/// The table is well formed and no longer than a table can be.
pub open spec fn sound(f: Seq<NodeView>) -> bool {
    forest_wf(f) && f.len() <= usize::MAX
}

/// Every handle of `hs` is a handle of the table.
pub open spec fn handles_in(f: Seq<NodeView>, hs: Seq<usize>) -> bool {
    forall|i: int| 0 <= i < hs.len() ==> (#[trigger] hs[i]) < f.len()
}

/// The first place of `x` in `s`, or the length of `s` where `x` is not in it.
pub open spec fn first_index(s: Seq<usize>, x: usize) -> int
    decreases s.len(),
{
    if s.len() == 0 {
        0
    } else if s[0] == x {
        0
    } else {
        1 + first_index(s.drop_first(), x)
    }
}

pub proof fn lemma_first_index(s: Seq<usize>, x: usize, i: int)
    requires
        0 <= i <= s.len(),
        forall|j: int| 0 <= j < i ==> s[j] != x,
        i == s.len() || s[i] == x,
    ensures
        first_index(s, x) == i,
    decreases s.len(),
{
    if s.len() > 0 && s[0] != x {
        let t = s.drop_first();
        assert forall|j: int| 0 <= j < i - 1 implies t[j] != x by {
            assert(t[j] == s[j + 1]);
        }
        lemma_first_index(t, x, i - 1);
    }
}

pub proof fn lemma_first_index_bounds(s: Seq<usize>, x: usize)
    ensures
        0 <= first_index(s, x) <= s.len(),
        first_index(s, x) < s.len() ==> s[first_index(s, x)] == x,
    decreases s.len(),
{
    if s.len() > 0 && s[0] != x {
        lemma_first_index_bounds(s.drop_first(), x);
    }
}

/// Whether the way up from `n`, from parent to parent, meets `a` within
/// `steps` steps. The node `n` itself counts.
pub open spec fn climbs(f: Seq<NodeView>, n: usize, a: usize, steps: nat) -> bool
    decreases steps,
{
    n == a || (steps > 0 && match f[n as int].parent {
        Some(p) => climbs(f, p, a, (steps - 1) as nat),
        None => false,
    })
}

/// Whether `a` is `n` or one of the nodes above it. (No way up is longer than
/// the table.)
pub open spec fn holds(f: Seq<NodeView>, a: usize, n: usize) -> bool {
    climbs(f, n, a, f.len())
}

/// Takes `c` out of the children of its parent. A node without a parent stays
/// as it is.
pub open spec fn detach(f: Seq<NodeView>, c: usize) -> Seq<NodeView> {
    match f[c as int].parent {
        None => f,
        Some(p) => {
            let kids = f[p as int].children;
            let i = first_index(kids, c);
            let f1 = if i < kids.len() {
                f.update(p as int, NodeView { children: kids.remove(i), ..f[p as int] })
            } else {
                f
            };
            f1.update(c as int, NodeView { parent: None, ..f1[c as int] })
        },
    }
}

/// Puts `c` among the children of `p`, at place `i`.
pub open spec fn attach_at(f: Seq<NodeView>, p: usize, i: int, c: usize) -> Seq<NodeView> {
    let f1 = f.update(
        p as int,
        NodeView { children: f[p as int].children.insert(i, c), ..f[p as int] },
    );
    f1.update(c as int, NodeView { parent: Some(p), ..f1[c as int] })
}

/// Moves `c` to the end of the children of `p`. Nothing happens where `c` is
/// `p` or above it: no node comes to lie under itself.
pub open spec fn append_one(f: Seq<NodeView>, p: usize, c: usize) -> Seq<NodeView> {
    if holds(f, c, p) {
        f
    } else {
        let f1 = detach(f, c);
        attach_at(f1, p, f1[p as int].children.len() as int, c)
    }
}

/// Moves the nodes of `cs`, one after the other, to the end of the children of
/// `p`: they end up there in the order of `cs`.
pub open spec fn append_all(f: Seq<NodeView>, p: usize, cs: Seq<usize>) -> Seq<NodeView>
    decreases cs.len(),
{
    if cs.len() == 0 {
        f
    } else {
        append_one(append_all(f, p, cs.drop_last()), p, cs.last())
    }
}

/// Whether `c` can become a sibling of `r`: `r` has a parent, and `c` is
/// neither `r` nor that parent nor above it.
pub open spec fn can_join(f: Seq<NodeView>, r: usize, c: usize) -> bool {
    c != r && (f[r as int].parent matches Some(p) && !holds(f, c, p))
}

/// Moves `c` to the place just before `r` among the children of the parent
/// of `r`. Nothing happens where `c` cannot become a sibling of `r`.
pub open spec fn insert_one_before(f: Seq<NodeView>, r: usize, c: usize) -> Seq<NodeView> {
    if !can_join(f, r, c) {
        f
    } else {
        let f1 = detach(f, c);
        let p = f1[r as int].parent.unwrap();
        attach_at(f1, p, first_index(f1[p as int].children, r), c)
    }
}

/// Moves the nodes of `cs` before `r`: they end up there in the order of `cs`.
pub open spec fn insert_all_before(f: Seq<NodeView>, r: usize, cs: Seq<usize>) -> Seq<NodeView>
    decreases cs.len(),
{
    if cs.len() == 0 {
        f
    } else {
        insert_one_before(insert_all_before(f, r, cs.drop_last()), r, cs.last())
    }
}

/// Moves `c` to the place just after `r` among the children of the parent of
/// `r`. Nothing happens where `c` cannot become a sibling of `r`.
pub open spec fn insert_one_after(f: Seq<NodeView>, r: usize, c: usize) -> Seq<NodeView> {
    if !can_join(f, r, c) {
        f
    } else {
        let f1 = detach(f, c);
        let p = f1[r as int].parent.unwrap();
        let kids = f1[p as int].children;
        let i = first_index(kids, r);
        attach_at(f1, p, if i < kids.len() { i + 1 } else { i }, c)
    }
}

/// Moves the nodes of `cs` after `r`: they end up there in the order of `cs`.
/// The last one is placed first, so that each lands right behind `r`.
pub open spec fn insert_all_after(f: Seq<NodeView>, r: usize, cs: Seq<usize>) -> Seq<NodeView>
    decreases cs.len(),
{
    if cs.len() == 0 {
        f
    } else {
        insert_one_after(insert_all_after(f, r, cs.drop_first()), r, cs.first())
    }
}

/// Puts the nodes of `cs` in the place of `r`: they are moved before `r`, and
/// `r` is then taken out, unless it is one of them. Nothing happens where `r`
/// has no parent.
pub open spec fn replace(f: Seq<NodeView>, r: usize, cs: Seq<usize>) -> Seq<NodeView> {
    if f[r as int].parent is None {
        f
    } else if cs.contains(r) {
        insert_all_before(f, r, cs)
    } else {
        detach(insert_all_before(f, r, cs), r)
    }
}

pub open spec fn set_text(f: Seq<NodeView>, n: usize, content: Seq<char>) -> Seq<NodeView> {
    f.update(n as int, NodeView { text: content, ..f[n as int] })
}

pub open spec fn set_attribute(
    f: Seq<NodeView>,
    n: usize,
    namespace: Seq<char>,
    name: Seq<char>,
    value: Seq<char>,
) -> Seq<NodeView> {
    f.update(
        n as int,
        NodeView { attrs: f[n as int].attrs.insert((namespace, name), value), ..f[n as int] },
    )
}

pub open spec fn remove_attribute(
    f: Seq<NodeView>,
    n: usize,
    namespace: Seq<char>,
    name: Seq<char>,
) -> Seq<NodeView> {
    f.update(
        n as int,
        NodeView { attrs: f[n as int].attrs.remove((namespace, name)), ..f[n as int] },
    )
}

pub open spec fn add_handler(f: Seq<NodeView>, n: usize, event: Seq<char>, bubbles: bool) -> Seq<
    NodeView,
> {
    f.update(
        n as int,
        NodeView { handlers: f[n as int].handlers.insert((event, bubbles)), ..f[n as int] },
    )
}

pub open spec fn remove_handler(
    f: Seq<NodeView>,
    n: usize,
    event: Seq<char>,
    bubbles: bool,
) -> Seq<NodeView> {
    f.update(
        n as int,
        NodeView { handlers: f[n as int].handlers.remove((event, bubbles)), ..f[n as int] },
    )
}

/// Taking a node out keeps the table well formed.
pub proof fn lemma_detach(f: Seq<NodeView>, c: usize)
    requires
        forest_wf(f),
        c < f.len(),
    ensures
        forest_wf(detach(f, c)),
        detach(f, c).len() == f.len(),
        forall|n: int| 0 <= n < f.len() && n != c ==> (#[trigger] detach(f, c)[n]).parent == f[n].parent,
{
    let g = detach(f, c);
    assert(node_wf(f, c as int));
    match f[c as int].parent {
        None => {},
        Some(p) => {
            let kids = f[p as int].children;
            let i = first_index(kids, c);
            lemma_first_index_bounds(kids, c);
            assert forall|n: int| 0 <= n < g.len() implies #[trigger] node_wf(g, n) by {
                assert(node_wf(f, n));
                assert(node_wf(f, p as int));
                if n == p as int && i < kids.len() {
                    assert forall|j: int| 0 <= j < g[n].children.len() implies (
                    #[trigger] g[n].children[j]) < g.len() by {
                        if j < i {
                            assert(g[n].children[j] == kids[j]);
                        } else {
                            assert(g[n].children[j] == kids[j + 1]);
                        }
                    }
                }
            }
        },
    }
}

/// Putting a node among the children of another keeps the table well formed.
pub proof fn lemma_attach_at(f: Seq<NodeView>, p: usize, i: int, c: usize)
    requires
        forest_wf(f),
        p < f.len(),
        c < f.len(),
        0 <= i <= f[p as int].children.len(),
    ensures
        forest_wf(attach_at(f, p, i, c)),
        attach_at(f, p, i, c).len() == f.len(),
        forall|n: int|
            0 <= n < f.len() && n != c ==> (#[trigger] attach_at(f, p, i, c)[n]).parent
                == f[n].parent,
{
    let g = attach_at(f, p, i, c);
    let kids = f[p as int].children;
    assert forall|n: int| 0 <= n < g.len() implies #[trigger] node_wf(g, n) by {
        assert(node_wf(f, n));
        assert(node_wf(f, p as int));
        if n == p as int {
            assert forall|j: int| 0 <= j < g[n].children.len() implies (
            #[trigger] g[n].children[j]) < g.len() by {
                if j < i {
                    assert(g[n].children[j] == kids[j]);
                } else if j == i {
                    assert(g[n].children[j] == c);
                } else {
                    assert(g[n].children[j] == kids[j - 1]);
                }
            }
        }
    }
}

/// A change of one node that leaves its children and parent alone keeps the
/// table well formed.
pub proof fn lemma_update_data(f: Seq<NodeView>, n: usize, v: NodeView)
    requires
        forest_wf(f),
        n < f.len(),
        v.children == f[n as int].children,
        v.parent == f[n as int].parent,
    ensures
        forest_wf(f.update(n as int, v)),
{
    let g = f.update(n as int, v);
    assert forall|m: int| 0 <= m < g.len() implies #[trigger] node_wf(g, m) by {
        assert(node_wf(f, m));
    }
}

/// A new node without children, and with a parent of the table or none, keeps
/// the table well formed.
pub proof fn lemma_push_fresh(f: Seq<NodeView>, v: NodeView)
    requires
        forest_wf(f),
        v.children.len() == 0,
        v.parent matches Some(p) ==> p < f.len(),
    ensures
        forest_wf(f.push(v)),
{
    let g = f.push(v);
    assert forall|m: int| 0 <= m < g.len() implies #[trigger] node_wf(g, m) by {
        if m < f.len() {
            assert(node_wf(f, m));
        }
    }
}

/// The node `n` without those of its handlers that do not bubble and are for
/// an event of `events`.
pub open spec fn without_handlers(f: Seq<NodeView>, n: usize, events: Seq<Seq<char>>) -> Seq<
    NodeView,
> {
    f.update(
        n as int,
        NodeView {
            handlers: Set::new(
                |k: (Seq<char>, bool)|
                    f[n as int].handlers.contains(k) && (k.1 || !events.contains(k.0)),
            ),
            ..f[n as int]
        },
    )
}

/// The child of `n` at place `i`, if it has that many.
pub open spec fn child_at(f: Seq<NodeView>, n: usize, i: u8) -> Option<usize> {
    if (i as int) < f[n as int].children.len() {
        Some(f[n as int].children[i as int])
    } else {
        None
    }
}

/// The node that `path` leads to from `root`: each byte of the path is the
/// place of the next node among the children of the one before.
pub open spec fn resolve(f: Seq<NodeView>, root: usize, path: Seq<u8>) -> Option<usize>
    decreases path.len(),
{
    if path.len() == 0 {
        Some(root)
    } else {
        match resolve(f, root, path.drop_last()) {
            None => None,
            Some(n) => child_at(f, n, path.last()),
        }
    }
}

/// In a table whose first `n` nodes have their parents among themselves, the
/// way up from one of them meets no other node.
pub proof fn lemma_climbs_within(f: Seq<NodeView>, n: int, from: usize, a: usize, steps: nat)
    requires
        0 <= from < n <= f.len(),
        a >= n,
        forall|m: int| 0 <= m < n ==> (#[trigger] f[m].parent matches Some(p) ==> p < n),
    ensures
        !climbs(f, from, a, steps),
    decreases steps,
{
    if steps > 0 {
        match f[from as int].parent {
            Some(p) => lemma_climbs_within(f, n, p, a, (steps - 1) as nat),
            None => {},
        }
    }
}

/// A path that leads somewhere leads to a node of the table.
pub proof fn lemma_resolve(f: Seq<NodeView>, root: usize, path: Seq<u8>)
    requires
        forest_wf(f),
        root < f.len(),
    ensures
        resolve(f, root, path) matches Some(n) ==> n < f.len(),
    decreases path.len(),
{
    if path.len() > 0 {
        lemma_resolve(f, root, path.drop_last());
        match resolve(f, root, path.drop_last()) {
            None => {},
            Some(n) => {
                assert(node_wf(f, n as int));
            },
        }
    }
}

/// What a subtree looks like to someone who cannot tell handles apart.
pub enum Shape {
    /// The subtree was not followed further.
    Cut,
    Node {
        kind: NodeKind,
        tag: Seq<char>,
        namespace: Seq<char>,
        text: Seq<char>,
        attrs: Map<(Seq<char>, Seq<char>), Seq<char>>,
        children: Seq<Shape>,
    },
}

/// The shape of the subtree under `n`, followed `depth` levels down.
pub open spec fn shape(f: Seq<NodeView>, n: usize, depth: nat) -> Shape
    decreases depth,
{
    if depth == 0 {
        Shape::Cut
    } else {
        Shape::Node {
            kind: f[n as int].kind,
            tag: f[n as int].tag,
            namespace: f[n as int].namespace,
            text: f[n as int].text,
            attrs: f[n as int].attrs,
            children: Seq::new(
                f[n as int].children.len(),
                |i: int| shape(f, f[n as int].children[i], (depth - 1) as nat),
            ),
        }
    }
}

/// The subtree under `a` in `f` and the one under `b` in `g` are equal in
/// structure, text and attributes, however far one follows them.
pub open spec fn same_shape(f: Seq<NodeView>, a: usize, g: Seq<NodeView>, b: usize) -> bool {
    forall|depth: nat| shape(f, a, depth) == shape(g, b, depth)
}

/// A node with the text and attributes of `v`, without handlers and children.
pub open spec fn bare_copy(v: NodeView, parent: Option<usize>) -> NodeView {
    NodeView { handlers: Set::empty(), children: Seq::empty(), parent, ..v }
}

/// The node `n` with one more child, `c`, at the end. The child is not told.
pub open spec fn push_child(f: Seq<NodeView>, n: usize, c: usize) -> Seq<NodeView> {
    f.update(n as int, NodeView { children: f[n as int].children.push(c), ..f[n as int] })
}

/// `post` is `pre` with a copy of the subtree under `src`: the nodes of `pre`
/// are as they were, the copy is made of new nodes only, its top is `dst` and
/// has no parent, and it has the shape of the original.
pub open spec fn is_copy(pre: Seq<NodeView>, post: Seq<NodeView>, src: usize, dst: usize) -> bool {
    &&& pre.len() <= dst < post.len()
    &&& post.take(pre.len() as int) == pre
    &&& post[dst as int].parent is None
    &&& forall|n: int, j: int|
        pre.len() <= n < post.len() && 0 <= j < post[n].children.len() ==> pre.len() <= (
        #[trigger] post[n].children[j]) < post.len()
    &&& forall|n: int|
        pre.len() <= n < post.len() ==> (#[trigger] post[n].parent matches Some(p) ==> pre.len()
            <= p < post.len())
    &&& forall|n: int|
        pre.len() <= n < post.len() ==> (#[trigger] post[n].handlers) == Set::<
            (Seq<char>, bool),
        >::empty()
    &&& same_shape(post, dst, pre, src)
}

} // verus!
