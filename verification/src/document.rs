//! A platform that keeps its nodes in memory.
//!
//! [`Document`] is the plainest platform there is: a table of nodes that link
//! to each other by handle. It serves where no display is attached, and it is
//! the platform against which the interpreter can be run and looked at.

use vstd::prelude::*;
use crate::assoc::{as_map, lemma_absent, lemma_lookup, lemma_push, lemma_remove, lemma_update, unique_keys};
use crate::forest::{
    add_handler, append_all, append_one, bare_copy, can_join, climbs, holds, is_copy, push_child,
    shape, attach_at, detach, first_index, forest_wf, fresh_node,
    handles_in, insert_all_after, insert_all_before, insert_one_after, insert_one_before,
    lemma_attach_at, lemma_detach, lemma_first_index, lemma_first_index_bounds,
    lemma_push_fresh, lemma_update_data, node_wf, remove_attribute,
    remove_handler, replace, resolve, set_attribute, set_text, NodeKind, NodeView, PostedView,
};
use crate::platform::Platform;
use crate::text::str_eq;

verus! {

pub struct Attribute {
    /// Empty for an attribute without a namespace.
    pub namespace: String,
    pub name: String,
    pub value: String,
}

pub struct Handler {
    pub event: String,
    pub bubbles: bool,
}

/// A lifecycle event as the host received it.
pub struct PostedEvent {
    pub name: String,
    pub node_id: u32,
    pub bubbles: bool,
}

pub struct Node {
    pub kind: NodeKind,
    pub tag: String,
    pub namespace: String,
    pub text: String,
    pub attrs: Vec<Attribute>,
    pub handlers: Vec<Handler>,
    pub children: Vec<usize>,
    pub parent: Option<usize>,
}

pub open spec fn attr_pairs(attrs: Seq<Attribute>) -> Seq<((Seq<char>, Seq<char>), Seq<char>)> {
    Seq::new(attrs.len(), |i: int| ((attrs[i].namespace@, attrs[i].name@), attrs[i].value@))
}

pub open spec fn handler_pairs(handlers: Seq<Handler>) -> Seq<((Seq<char>, bool), ())> {
    Seq::new(handlers.len(), |i: int| ((handlers[i].event@, handlers[i].bubbles), ()))
}

impl View for Node {
    type V = NodeView;

    open spec fn view(&self) -> NodeView {
        NodeView {
            kind: self.kind,
            tag: self.tag@,
            namespace: self.namespace@,
            text: self.text@,
            attrs: as_map(attr_pairs(self.attrs@)),
            handlers: as_map(handler_pairs(self.handlers@)).dom(),
            children: self.children@,
            parent: self.parent,
        }
    }
}

impl Node {
    /// No attribute and no handler is listed twice.
    pub open spec fn lists_wf(&self) -> bool {
        &&& unique_keys(attr_pairs(self.attrs@))
        &&& unique_keys(handler_pairs(self.handlers@))
    }
}

impl View for PostedEvent {
    type V = PostedView;

    open spec fn view(&self) -> PostedView {
        PostedView { name: self.name@, node_id: self.node_id, bubbles: self.bubbles }
    }
}

/// A table of nodes in memory, and the lifecycle events posted so far.
pub struct Document {
    pub nodes: Vec<Node>,
    pub posted: Vec<PostedEvent>,
}

fn find_attr(attrs: &Vec<Attribute>, namespace: &str, name: &str) -> (r: Option<usize>)
    ensures
        match r {
            Some(i) => i < attrs@.len() && attr_pairs(attrs@)[i as int].0 == (namespace@, name@),
            None => forall|i: int|
                0 <= i < attrs@.len() ==> (#[trigger] attr_pairs(attrs@)[i]).0 != (
                    namespace@,
                    name@,
                ),
        },
{
    let mut i: usize = 0;
    while i < attrs.len()
        invariant
            i <= attrs@.len(),
            forall|j: int|
                0 <= j < i ==> (#[trigger] attr_pairs(attrs@)[j]).0 != (namespace@, name@),
        decreases attrs@.len() - i,
    {
        if str_eq(attrs[i].namespace.as_str(), namespace) && str_eq(attrs[i].name.as_str(), name) {
            return Some(i);
        }
        i += 1;
    }
    None
}

fn find_handler(handlers: &Vec<Handler>, event: &str, bubbles: bool) -> (r: Option<usize>)
    ensures
        match r {
            Some(i) => i < handlers@.len() && handler_pairs(handlers@)[i as int].0 == (
                event@,
                bubbles,
            ),
            None => forall|i: int|
                0 <= i < handlers@.len() ==> (#[trigger] handler_pairs(handlers@)[i]).0 != (
                    event@,
                    bubbles,
                ),
        },
{
    let mut i: usize = 0;
    while i < handlers.len()
        invariant
            i <= handlers@.len(),
            forall|j: int|
                0 <= j < i ==> (#[trigger] handler_pairs(handlers@)[j]).0 != (event@, bubbles),
        decreases handlers@.len() - i,
    {
        if handlers[i].bubbles == bubbles && str_eq(handlers[i].event.as_str(), event) {
            return Some(i);
        }
        i += 1;
    }
    None
}

/// The first place of `x` in `v`, or the length of `v`.
fn index_in(v: &Vec<usize>, x: usize) -> (i: usize)
    ensures
        i == first_index(v@, x),
{
    let mut i: usize = 0;
    while i < v.len()
        invariant
            i <= v@.len(),
            forall|j: int| 0 <= j < i ==> v@[j] != x,
        decreases v@.len() - i,
    {
        if v[i] == x {
            proof {
                lemma_first_index(v@, x, i as int);
            }
            return i;
        }
        i += 1;
    }
    proof {
        lemma_first_index(v@, x, i as int);
    }
    i
}

fn copy_attrs(attrs: &Vec<Attribute>) -> (r: Vec<Attribute>)
    ensures
        attr_pairs(r@) == attr_pairs(attrs@),
{
    let mut r: Vec<Attribute> = Vec::new();
    let mut i: usize = 0;
    while i < attrs.len()
        invariant
            i <= attrs@.len(),
            r@.len() == i,
            forall|j: int| 0 <= j < i ==> attr_pairs(r@)[j] == attr_pairs(attrs@)[j],
        decreases attrs@.len() - i,
    {
        let a = &attrs[i];
        r.push(
            Attribute { namespace: a.namespace.clone(), name: a.name.clone(), value: a.value.clone() },
        );
        i += 1;
    }
    assert(attr_pairs(r@) =~= attr_pairs(attrs@));
    r
}

/// What the copy at place `i` of the new nodes must look like while the
/// children of the first `done` copies are linked in full, and those of the
/// next one up to `partial`.
spec fn copy_ok(
    pre: Seq<NodeView>,
    fresh: Seq<NodeView>,
    order: Seq<usize>,
    copy_of: Seq<Option<usize>>,
    done: int,
    partial: int,
    i: int,
) -> bool {
    let orig = pre[order[i] as int];
    let copy = fresh[i];
    let upto = if i < done {
        orig.children.len() as int
    } else if i == done {
        partial
    } else {
        0
    };
    &&& order[i] < pre.len()
    &&& copy_of[order[i] as int] == Some((pre.len() + i) as usize)
    &&& copy.kind == orig.kind
    &&& copy.tag == orig.tag
    &&& copy.namespace == orig.namespace
    &&& copy.text == orig.text
    &&& copy.attrs == orig.attrs
    &&& copy.handlers == Set::<(Seq<char>, bool)>::empty()
    &&& copy.parent matches Some(p) ==> pre.len() <= p < pre.len() + order.len()
    &&& copy.children.len() == upto
    &&& upto <= orig.children.len()
    &&& forall|j: int|
        0 <= j < upto ==> copy_of[orig.children[j] as int] == Some(#[trigger] copy.children[j])
}

/// The state of a copy in progress: `order` lists the nodes reached so far,
/// `copy_of` says where the copy of each is, and the copies are the new nodes
/// of `cur`, in the order of `order`.
spec fn copying(
    pre: Seq<NodeView>,
    cur: Seq<NodeView>,
    order: Seq<usize>,
    copy_of: Seq<Option<usize>>,
    done: int,
    partial: int,
) -> bool {
    let n0 = pre.len() as int;
    &&& forest_wf(pre)
    &&& cur.len() == n0 + order.len()
    &&& cur.len() <= usize::MAX
    &&& copy_of.len() == n0
    &&& cur.take(n0) == pre
    &&& forall|x: int|
        0 <= x < n0 ==> ((#[trigger] copy_of[x]) matches Some(y) ==> n0 <= y < n0 + order.len()
            && order[y - n0] == x)
    &&& forall|i: int|
        0 <= i < order.len() ==> #[trigger] copy_ok(
            pre,
            cur.skip(n0),
            order,
            copy_of,
            done,
            partial,
            i,
        )
}

/// No more nodes are reached than there are.
proof fn lemma_order_bounded(
    pre: Seq<NodeView>,
    cur: Seq<NodeView>,
    order: Seq<usize>,
    copy_of: Seq<Option<usize>>,
    done: int,
    partial: int,
)
    requires
        copying(pre, cur, order, copy_of, done, partial),
    ensures
        order.len() <= pre.len(),
        forall|i: int| 0 <= i < order.len() ==> (#[trigger] order[i]) < pre.len(),
{
    let n0 = pre.len() as int;
    assert forall|a: int, b: int|
        0 <= a < order.len() && 0 <= b < order.len() && a != b implies order[a] != order[b] by {
        assert(copy_ok(pre, cur.skip(n0), order, copy_of, done, partial, a));
        assert(copy_ok(pre, cur.skip(n0), order, copy_of, done, partial, b));
    }
    assert forall|a: int| 0 <= a < order.len() implies (#[trigger] order[a]) < n0 by {
        assert(copy_ok(pre, cur.skip(n0), order, copy_of, done, partial, a));
    }
    lemma_pigeonhole(order, pre.len());
}

/// A list of distinct numbers below `n` has at most `n` entries.
proof fn lemma_pigeonhole(s: Seq<usize>, n: nat)
    requires
        forall|a: int, b: int| 0 <= a < s.len() && 0 <= b < s.len() && a != b ==> s[a] != s[b],
        forall|a: int| 0 <= a < s.len() ==> s[a] < n,
    ensures
        s.len() <= n,
    decreases n,
{
    if s.len() > 0 {
        assert(s[0] < n);
        let top = (n - 1) as nat;
        if exists|i: int| 0 <= i < s.len() && s[i] == top {
            let i = choose|i: int| 0 <= i < s.len() && s[i] == top;
            let t = s.remove(i);
            assert forall|a: int| 0 <= a < t.len() implies #[trigger] t[a] == s[if a < i {
                a
            } else {
                a + 1
            }] by {}
            assert forall|a: int| 0 <= a < t.len() implies t[a] < top by {
                let a1 = if a < i { a } else { a + 1 };
                assert(t[a] == s[a1]);
                assert(s[a1] != s[i]);
            }
            assert forall|a: int, b: int|
                0 <= a < t.len() && 0 <= b < t.len() && a != b implies t[a] != t[b] by {
                let a1 = if a < i { a } else { a + 1 };
                let b1 = if b < i { b } else { b + 1 };
                assert(t[a] == s[a1]);
                assert(t[b] == s[b1]);
            }
            lemma_pigeonhole(t, top);
        } else {
            lemma_pigeonhole(s, top);
        }
    }
}

/// Before any node is reached, the copy is in order.
proof fn lemma_begin(pre: Seq<NodeView>, copy_of: Seq<Option<usize>>)
    requires
        forest_wf(pre),
        pre.len() <= usize::MAX,
        copy_of.len() == pre.len(),
        forall|x: int| 0 <= x < copy_of.len() ==> copy_of[x] is None,
    ensures
        copying(pre, pre, Seq::<usize>::empty(), copy_of, 0, 0),
{
    assert(pre.take(pre.len() as int) =~= pre);
}

/// Reaching a new node `c`, whose copy goes to the end of the table with the
/// parent `parent`, keeps the copy in order.
proof fn lemma_discover(
    pre: Seq<NodeView>,
    cur: Seq<NodeView>,
    order: Seq<usize>,
    copy_of: Seq<Option<usize>>,
    done: int,
    partial: int,
    c: usize,
    parent: Option<usize>,
)
    requires
        copying(pre, cur, order, copy_of, done, partial),
        0 <= done < order.len() || (done == 0 && partial == 0 && order.len() == 0),
        c < pre.len(),
        copy_of[c as int] is None,
        parent matches Some(p) ==> pre.len() <= p < pre.len() + order.len(),
        cur.len() < usize::MAX,
    ensures
        copying(
            pre,
            cur.push(bare_copy(pre[c as int], parent)),
            order.push(c),
            copy_of.update(c as int, Some(cur.len() as usize)),
            done,
            partial,
        ),
{
    let n0 = pre.len() as int;
    let cur2 = cur.push(bare_copy(pre[c as int], parent));
    let order2 = order.push(c);
    let copy2 = copy_of.update(c as int, Some(cur.len() as usize));
    assert(cur2.take(n0) =~= cur.take(n0));
    assert forall|x: int| 0 <= x < n0 implies ((#[trigger] copy2[x]) matches Some(y) ==> n0 <= y
        < n0 + order2.len() && order2[y - n0] == x) by {
        if x != c {
            assert(copy2[x] == copy_of[x]);
        }
    }
    assert forall|i: int| 0 <= i < order2.len() implies #[trigger] copy_ok(
        pre,
        cur2.skip(n0),
        order2,
        copy2,
        done,
        partial,
        i,
    ) by {
        if i < order.len() {
            assert(copy_ok(pre, cur.skip(n0), order, copy_of, done, partial, i));
            assert(cur2.skip(n0)[i] == cur.skip(n0)[i]);
            assert(order2[i] == order[i]);
            assert(order[i] != c);
            let orig = pre[order[i] as int];
            let copy = cur.skip(n0)[i];
            assert(node_wf(pre, order[i] as int));
            assert forall|j: int| 0 <= j < copy.children.len() implies copy2[orig.children[j] as int]
                == Some(#[trigger] copy.children[j]) by {
                assert(orig.children[j] < n0);
                assert(copy_of[orig.children[j] as int] == Some(copy.children[j]));
            }
        } else {
            assert(cur2.skip(n0)[i] == bare_copy(pre[c as int], parent));
            assert(order2[i] == c);
        }
    }
}

/// Linking the next child of the copy in work keeps the copy in order.
proof fn lemma_link(
    pre: Seq<NodeView>,
    cur: Seq<NodeView>,
    order: Seq<usize>,
    copy_of: Seq<Option<usize>>,
    done: int,
    partial: int,
    cc: usize,
)
    requires
        copying(pre, cur, order, copy_of, done, partial),
        0 <= done < order.len(),
        order[done] < pre.len(),
        0 <= partial < pre[order[done] as int].children.len(),
        copy_of[pre[order[done] as int].children[partial] as int] == Some(cc),
    ensures
        copying(
            pre,
            push_child(cur, (pre.len() + done) as usize, cc),
            order,
            copy_of,
            done,
            partial + 1,
        ),
        cc < cur.len(),
{
    let n0 = pre.len() as int;
    let cur2 = push_child(cur, (n0 + done) as usize, cc);
    assert(cur2.take(n0) =~= cur.take(n0));
    assert(copy_ok(pre, cur.skip(n0), order, copy_of, done, partial, done));
    assert(node_wf(pre, order[done] as int));
    let x = pre[order[done] as int].children[partial];
    assert(x < n0);
    assert(copy_of[x as int] matches Some(y) ==> n0 <= y < n0 + order.len());
    assert forall|i: int| 0 <= i < order.len() implies #[trigger] copy_ok(
        pre,
        cur2.skip(n0),
        order,
        copy_of,
        done,
        partial + 1,
        i,
    ) by {
        assert(copy_ok(pre, cur.skip(n0), order, copy_of, done, partial, i));
        assert(cur.skip(n0)[i] == cur[n0 + i]);
        assert(cur2.skip(n0)[i] == cur2[n0 + i]);
        if i == done {
            assert(cur2[n0 + i].children == cur[n0 + i].children.push(cc));
        }
    }
}

/// When the children of the copy in work are all linked, the next copy is in
/// work.
proof fn lemma_advance(
    pre: Seq<NodeView>,
    cur: Seq<NodeView>,
    order: Seq<usize>,
    copy_of: Seq<Option<usize>>,
    done: int,
)
    requires
        0 <= done < order.len(),
        order[done] < pre.len(),
        copying(pre, cur, order, copy_of, done, pre[order[done] as int].children.len() as int),
    ensures
        copying(pre, cur, order, copy_of, done + 1, 0),
{
    let n0 = pre.len() as int;
    let full = pre[order[done] as int].children.len() as int;
    assert forall|i: int| 0 <= i < order.len() implies #[trigger] copy_ok(
        pre,
        cur.skip(n0),
        order,
        copy_of,
        done + 1,
        0,
        i,
    ) by {
        assert(copy_ok(pre, cur.skip(n0), order, copy_of, done, full, i));
    }
}

/// A finished copy has the shape of its original, to any depth.
proof fn lemma_copied_shape(
    pre: Seq<NodeView>,
    cur: Seq<NodeView>,
    order: Seq<usize>,
    copy_of: Seq<Option<usize>>,
    i: int,
    depth: nat,
)
    requires
        copying(pre, cur, order, copy_of, order.len() as int, 0),
        0 <= i < order.len(),
    ensures
        shape(cur, (pre.len() + i) as usize, depth) == shape(pre, order[i], depth),
    decreases depth,
{
    let n0 = pre.len() as int;
    assert(copy_ok(pre, cur.skip(n0), order, copy_of, order.len() as int, 0, i));
    assert(cur.skip(n0)[i] == cur[n0 + i]);
    if depth > 0 {
        let copy = cur[n0 + i];
        let orig = pre[order[i] as int];
        let d = (depth - 1) as nat;
        assert(node_wf(pre, order[i] as int));
        let a = Seq::new(copy.children.len(), |j: int| shape(cur, copy.children[j], d));
        let b = Seq::new(orig.children.len(), |j: int| shape(pre, orig.children[j], d));
        assert forall|j: int| 0 <= j < copy.children.len() implies a[j] == b[j] by {
            let x = orig.children[j];
            let y = copy.children[j];
            assert(x < n0);
            assert(copy_of[x as int] == Some(y));
            let i2 = y - n0;
            assert(order[i2] == x);
            lemma_copied_shape(pre, cur, order, copy_of, i2, d);
            assert((pre.len() + i2) as usize == y);
        }
        assert(a =~= b);
        assert(shape(cur, (pre.len() + i) as usize, depth).arrow_Node_children() == a);
        assert(shape(pre, order[i], depth).arrow_Node_children() == b);
    }
}

/// A finished copy is a copy in the sense of [`is_copy`].
proof fn lemma_copy_complete(
    pre: Seq<NodeView>,
    cur: Seq<NodeView>,
    order: Seq<usize>,
    copy_of: Seq<Option<usize>>,
    node: usize,
)
    requires
        copying(pre, cur, order, copy_of, order.len() as int, 0),
        order.len() >= 1,
        order[0] == node,
        cur[pre.len() as int].parent is None,
    ensures
        is_copy(pre, cur, node, pre.len() as usize),
{
    let n0 = pre.len() as int;
    let fresh = cur.skip(n0);
    assert forall|n: int, j: int|
        pre.len() <= n < cur.len() && 0 <= j < cur[n].children.len() implies pre.len() <= (
    #[trigger] cur[n].children[j]) < cur.len() by {
        let i = n - n0;
        assert(copy_ok(pre, fresh, order, copy_of, order.len() as int, 0, i));
        assert(fresh[i] == cur[n]);
        assert(node_wf(pre, order[i] as int));
        let x = pre[order[i] as int].children[j];
        assert(x < n0);
        assert(copy_of[x as int] == Some(cur[n].children[j]));
    }
    assert forall|n: int| pre.len() <= n < cur.len() implies (#[trigger] cur[n].parent matches Some(
        p,
    ) ==> pre.len() <= p < cur.len()) by {
        let i = n - n0;
        assert(copy_ok(pre, fresh, order, copy_of, order.len() as int, 0, i));
        assert(fresh[i] == cur[n]);
    }
    assert forall|n: int| pre.len() <= n < cur.len() implies (#[trigger] cur[n].handlers) == Set::<
        (Seq<char>, bool),
    >::empty() by {
        let i = n - n0;
        assert(copy_ok(pre, fresh, order, copy_of, order.len() as int, 0, i));
        assert(fresh[i] == cur[n]);
    }
    assert forall|depth: nat| shape(cur, pre.len() as usize, depth) == shape(
        pre,
        node,
        depth,
    ) by {
        lemma_copied_shape(pre, cur, order, copy_of, 0, depth);
    }
}


/// A path that leads nowhere after some of its steps leads nowhere.
proof fn lemma_resolve_stuck(f: Seq<NodeView>, root: usize, path: Seq<u8>, k: int)
    requires
        0 <= k <= path.len(),
        resolve(f, root, path.take(k)) is None,
    ensures
        resolve(f, root, path) is None,
    decreases path.len() - k,
{
    if k < path.len() {
        let next = path.take(k + 1);
        assert(next.drop_last() =~= path.take(k));
        lemma_resolve_stuck(f, root, path, k + 1);
    } else {
        assert(path.take(k) =~= path);
    }
}

impl Document {
    pub open spec fn spec_forest(&self) -> Seq<NodeView> {
        Seq::new(self.nodes@.len(), |i: int| self.nodes@[i]@)
    }

    pub open spec fn spec_posted(&self) -> Seq<PostedView> {
        Seq::new(self.posted@.len(), |i: int| self.posted@[i]@)
    }

    pub open spec fn spec_inv(&self) -> bool {
        &&& forest_wf(self.spec_forest())
        &&& self.nodes@.len() <= usize::MAX
        &&& forall|i: int| 0 <= i < self.nodes@.len() ==> (#[trigger] self.nodes@[i]).lists_wf()
    }

    /// A document without nodes.
    pub fn new() -> (d: Self)
        ensures
            d.spec_inv(),
            d.spec_forest() == Seq::<NodeView>::empty(),
            d.spec_posted() == Seq::<PostedView>::empty(),
    {
        let d = Document { nodes: Vec::new(), posted: Vec::new() };
        assert(d.spec_forest() =~= Seq::<NodeView>::empty());
        assert(d.spec_posted() =~= Seq::<PostedView>::empty());
        d
    }

    /// The value of the attribute `name` of `node`, where `namespace` is
    /// empty for an attribute without one.
    pub fn attribute(&self, node: usize, name: &str, namespace: &str) -> (r: Option<String>)
        requires
            self.spec_inv(),
            node < self.nodes@.len(),
        ensures
            match r {
                Some(v) => self.spec_forest()[node as int].attrs.contains_key((namespace@, name@))
                    && v@ == self.spec_forest()[node as int].attrs[(namespace@, name@)],
                None => !self.spec_forest()[node as int].attrs.contains_key((namespace@, name@)),
            },
    {
        match find_attr(&self.nodes[node].attrs, namespace, name) {
            Some(i) => {
                proof {
                    lemma_lookup(attr_pairs(self.nodes@[node as int].attrs@), i as int);
                }
                Some(self.nodes[node].attrs[i].value.clone())
            },
            None => {
                proof {
                    lemma_absent(attr_pairs(self.nodes@[node as int].attrs@), (namespace@, name@));
                }
                None
            },
        }
    }

    /// Whether the handler for `event` is installed on `node`.
    pub fn has_handler(&self, node: usize, event: &str, bubbles: bool) -> (b: bool)
        requires
            self.spec_inv(),
            node < self.nodes@.len(),
        ensures
            b == self.spec_forest()[node as int].handlers.contains((event@, bubbles)),
    {
        match find_handler(&self.nodes[node].handlers, event, bubbles) {
            Some(i) => {
                proof {
                    lemma_lookup(handler_pairs(self.nodes@[node as int].handlers@), i as int);
                }
                true
            },
            None => {
                proof {
                    lemma_absent(handler_pairs(self.nodes@[node as int].handlers@), (event@, bubbles));
                }
                false
            },
        }
    }

    fn create(&mut self, kind: NodeKind, tag: &str, namespace: &str, text: &str) -> (h: usize)
        requires
            old(self).spec_inv(),
        ensures
            final(self).spec_inv(),
            h == old(self).spec_forest().len(),
            final(self).spec_forest() == old(self).spec_forest().push(
                fresh_node(kind, tag@, namespace@, text@),
            ),
            final(self).spec_posted() == old(self).spec_posted(),
    {
        let h = self.nodes.len();
        let node = Node {
            kind,
            tag: tag.to_owned(),
            namespace: namespace.to_owned(),
            text: text.to_owned(),
            attrs: Vec::new(),
            handlers: Vec::new(),
            children: Vec::new(),
            parent: None,
        };
        proof {
            assert(node@.attrs =~= Map::empty());
            assert(node@.handlers =~= Set::empty());
            assert(node@ == fresh_node(kind, tag@, namespace@, text@));
            lemma_push_fresh(self.spec_forest(), node@);
        }
        self.nodes.push(node);
        let grown = self.nodes.len();
        assert(grown == h + 1);
        assert(self.spec_forest() =~= old(self).spec_forest().push(
            fresh_node(kind, tag@, namespace@, text@),
        ));
        assert(self.spec_posted() =~= old(self).spec_posted());
        h
    }

    fn set_attr(&mut self, node: usize, name: &str, value: &str, namespace: &str)
        requires
            old(self).spec_inv(),
            node < old(self).nodes@.len(),
        ensures
            final(self).spec_inv(),
            final(self).spec_forest() == set_attribute(
                old(self).spec_forest(),
                node,
                namespace@,
                name@,
                value@,
            ),
            final(self).spec_posted() == old(self).spec_posted(),
    {
        let ghost before = attr_pairs(self.nodes@[node as int].attrs@);
        let ghost f = self.spec_forest();
        let found = find_attr(&self.nodes[node].attrs, namespace, name);
        match found {
            Some(i) => {
                proof {
                    lemma_update(before, i as int, value@);
                }
                self.nodes[node].attrs[i].value = value.to_owned();
                assert(attr_pairs(self.nodes@[node as int].attrs@) =~= before.update(
                    i as int,
                    ((namespace@, name@), value@),
                ));
            },
            None => {
                proof {
                    lemma_push(before, (namespace@, name@), value@);
                }
                self.nodes[node].attrs.push(
                    Attribute {
                        namespace: namespace.to_owned(),
                        name: name.to_owned(),
                        value: value.to_owned(),
                    },
                );
                assert(attr_pairs(self.nodes@[node as int].attrs@) =~= before.push(
                    ((namespace@, name@), value@),
                ));
            },
        }
        proof {
            lemma_update_data(f, node, self.nodes@[node as int]@);
            assert(self.spec_forest() =~= set_attribute(f, node, namespace@, name@, value@));
            assert(self.spec_posted() =~= old(self).spec_posted());
        }
    }

    fn remove_attr(&mut self, node: usize, name: &str, namespace: &str)
        requires
            old(self).spec_inv(),
            node < old(self).nodes@.len(),
        ensures
            final(self).spec_inv(),
            final(self).spec_forest() == remove_attribute(
                old(self).spec_forest(),
                node,
                namespace@,
                name@,
            ),
            final(self).spec_posted() == old(self).spec_posted(),
    {
        let ghost before = attr_pairs(self.nodes@[node as int].attrs@);
        let ghost f = self.spec_forest();
        let found = find_attr(&self.nodes[node].attrs, namespace, name);
        match found {
            Some(i) => {
                proof {
                    lemma_remove(before, i as int);
                }
                let _ = self.nodes[node].attrs.remove(i);
                assert(attr_pairs(self.nodes@[node as int].attrs@) =~= before.remove(i as int));
            },
            None => {
                proof {
                    lemma_absent(before, (namespace@, name@));
                    assert(as_map(before).remove((namespace@, name@)) =~= as_map(before));
                }
            },
        }
        proof {
            lemma_update_data(f, node, self.nodes@[node as int]@);
            assert(self.spec_forest() =~= remove_attribute(f, node, namespace@, name@));
            assert(self.spec_posted() =~= old(self).spec_posted());
        }
    }

    fn add_listener(&mut self, node: usize, event: &str, bubbles: bool)
        requires
            old(self).spec_inv(),
            node < old(self).nodes@.len(),
        ensures
            final(self).spec_inv(),
            final(self).spec_forest() == add_handler(old(self).spec_forest(), node, event@, bubbles),
            final(self).spec_posted() == old(self).spec_posted(),
    {
        let ghost before = handler_pairs(self.nodes@[node as int].handlers@);
        let ghost f = self.spec_forest();
        let found = find_handler(&self.nodes[node].handlers, event, bubbles);
        match found {
            Some(i) => {
                proof {
                    lemma_lookup(before, i as int);
                    assert(as_map(before).dom().insert((event@, bubbles)) =~= as_map(before).dom());
                }
            },
            None => {
                proof {
                    lemma_push(before, (event@, bubbles), ());
                }
                self.nodes[node].handlers.push(Handler { event: event.to_owned(), bubbles });
                assert(handler_pairs(self.nodes@[node as int].handlers@) =~= before.push(
                    ((event@, bubbles), ()),
                ));
                assert(as_map(before).insert((event@, bubbles), ()).dom() =~= as_map(
                    before,
                ).dom().insert((event@, bubbles)));
            },
        }
        proof {
            lemma_update_data(f, node, self.nodes@[node as int]@);
            assert(self.spec_forest() =~= add_handler(f, node, event@, bubbles));
            assert(self.spec_posted() =~= old(self).spec_posted());
        }
    }

    fn remove_listener(&mut self, node: usize, event: &str, bubbles: bool)
        requires
            old(self).spec_inv(),
            node < old(self).nodes@.len(),
        ensures
            final(self).spec_inv(),
            final(self).spec_forest() == remove_handler(
                old(self).spec_forest(),
                node,
                event@,
                bubbles,
            ),
            final(self).spec_posted() == old(self).spec_posted(),
    {
        let ghost before = handler_pairs(self.nodes@[node as int].handlers@);
        let ghost f = self.spec_forest();
        let found = find_handler(&self.nodes[node].handlers, event, bubbles);
        match found {
            Some(i) => {
                proof {
                    lemma_remove(before, i as int);
                }
                let _ = self.nodes[node].handlers.remove(i);
                assert(handler_pairs(self.nodes@[node as int].handlers@) =~= before.remove(
                    i as int,
                ));
                assert(as_map(before).remove((event@, bubbles)).dom() =~= as_map(
                    before,
                ).dom().remove((event@, bubbles)));
            },
            None => {
                proof {
                    lemma_absent(before, (event@, bubbles));
                    assert(as_map(before).dom().remove((event@, bubbles)) =~= as_map(
                        before,
                    ).dom());
                }
            },
        }
        proof {
            lemma_update_data(f, node, self.nodes@[node as int]@);
            assert(self.spec_forest() =~= remove_handler(f, node, event@, bubbles));
            assert(self.spec_posted() =~= old(self).spec_posted());
        }
    }

    fn write_text(&mut self, node: usize, content: &str)
        requires
            old(self).spec_inv(),
            node < old(self).nodes@.len(),
        ensures
            final(self).spec_inv(),
            final(self).spec_forest() == set_text(old(self).spec_forest(), node, content@),
            final(self).spec_posted() == old(self).spec_posted(),
    {
        let ghost f = self.spec_forest();
        self.nodes[node].text = content.to_owned();
        proof {
            lemma_update_data(f, node, self.nodes@[node as int]@);
            assert(self.spec_forest() =~= set_text(f, node, content@));
            assert(self.spec_posted() =~= old(self).spec_posted());
        }
    }

    fn detach_node(&mut self, c: usize)
        requires
            old(self).spec_inv(),
            c < old(self).nodes@.len(),
        ensures
            final(self).spec_inv(),
            final(self).spec_forest() == detach(old(self).spec_forest(), c),
            final(self).nodes@.len() == old(self).nodes@.len(),
            final(self).spec_posted() == old(self).spec_posted(),
    {
        let ghost f = self.spec_forest();
        proof {
            lemma_detach(f, c);
            assert(node_wf(f, c as int));
        }
        match self.nodes[c].parent {
            None => {},
            Some(p) => {
                let i = index_in(&self.nodes[p].children, c);
                if i < self.nodes[p].children.len() {
                    let _ = self.nodes[p].children.remove(i);
                }
                self.nodes[c].parent = None;
            },
        }
        proof {
            assert(self.spec_forest() =~= detach(f, c));
            assert(self.spec_posted() =~= old(self).spec_posted());
        }
    }

    fn attach_node(&mut self, p: usize, i: usize, c: usize)
        requires
            old(self).spec_inv(),
            p < old(self).nodes@.len(),
            c < old(self).nodes@.len(),
            i <= old(self).nodes@[p as int].children@.len(),
        ensures
            final(self).spec_inv(),
            final(self).spec_forest() == attach_at(old(self).spec_forest(), p, i as int, c),
            final(self).nodes@.len() == old(self).nodes@.len(),
            final(self).spec_posted() == old(self).spec_posted(),
    {
        let ghost f = self.spec_forest();
        proof {
            lemma_attach_at(f, p, i as int, c);
        }
        self.nodes[p].children.insert(i, c);
        self.nodes[c].parent = Some(p);
        proof {
            assert(self.spec_forest() =~= attach_at(f, p, i as int, c));
            assert(self.spec_posted() =~= old(self).spec_posted());
        }
    }

    /// Whether `a` is `n` or above it.
    fn is_above(&self, a: usize, n: usize) -> (b: bool)
        requires
            self.spec_inv(),
            a < self.nodes@.len(),
            n < self.nodes@.len(),
        ensures
            b == holds(self.spec_forest(), a, n),
    {
        let mut cur = n;
        let mut steps = self.nodes.len();
        loop
            invariant
                self.spec_inv(),
                cur < self.nodes@.len(),
                holds(self.spec_forest(), a, n) == climbs(self.spec_forest(), cur, a, steps as nat),
            decreases steps,
        {
            if cur == a {
                return true;
            }
            if steps == 0 {
                return false;
            }
            proof {
                assert(node_wf(self.spec_forest(), cur as int));
            }
            match self.nodes[cur].parent {
                None => {
                    return false;
                },
                Some(p) => {
                    cur = p;
                    steps = steps - 1;
                },
            }
        }
    }

    fn append_node(&mut self, parent: usize, c: usize)
        requires
            old(self).spec_inv(),
            parent < old(self).nodes@.len(),
            c < old(self).nodes@.len(),
        ensures
            final(self).spec_inv(),
            final(self).spec_forest() == append_one(old(self).spec_forest(), parent, c),
            final(self).nodes@.len() == old(self).nodes@.len(),
            final(self).spec_posted() == old(self).spec_posted(),
    {
        if !self.is_above(c, parent) {
            self.detach_node(c);
            let n = self.nodes[parent].children.len();
            self.attach_node(parent, n, c);
        }
    }

    fn append_nodes(&mut self, parent: usize, children: &[usize])
        requires
            old(self).spec_inv(),
            parent < old(self).nodes@.len(),
            handles_in(old(self).spec_forest(), children@),
        ensures
            final(self).spec_inv(),
            final(self).spec_forest() == append_all(old(self).spec_forest(), parent, children@),
            final(self).nodes@.len() == old(self).nodes@.len(),
            final(self).spec_posted() == old(self).spec_posted(),
    {
        let ghost f0 = self.spec_forest();
        let mut k: usize = 0;
        while k < children.len()
            invariant
                k <= children@.len(),
                self.spec_inv(),
                self.nodes@.len() == f0.len(),
                parent < f0.len(),
                handles_in(f0, children@),
                self.spec_forest() == append_all(f0, parent, children@.take(k as int)),
                self.spec_posted() == old(self).spec_posted(),
            decreases children@.len() - k,
        {
            let c = children[k];
            assert(children@[k as int] < f0.len());
            self.append_node(parent, c);
            proof {
                let next = children@.take(k + 1);
                assert(next.drop_last() =~= children@.take(k as int));
                assert(next.last() == c);
            }
            k += 1;
        }
        assert(children@.take(k as int) =~= children@);
    }

    /// Whether `c` can become a sibling of `reference`.
    fn joins(&self, reference: usize, c: usize) -> (b: bool)
        requires
            self.spec_inv(),
            reference < self.nodes@.len(),
            c < self.nodes@.len(),
        ensures
            b == can_join(self.spec_forest(), reference, c),
    {
        if c == reference {
            return false;
        }
        proof {
            assert(node_wf(self.spec_forest(), reference as int));
        }
        match self.nodes[reference].parent {
            None => false,
            Some(p) => !self.is_above(c, p),
        }
    }

    fn insert_node_before(&mut self, reference: usize, c: usize)
        requires
            old(self).spec_inv(),
            reference < old(self).nodes@.len(),
            c < old(self).nodes@.len(),
        ensures
            final(self).spec_inv(),
            final(self).spec_forest() == insert_one_before(old(self).spec_forest(), reference, c),
            final(self).nodes@.len() == old(self).nodes@.len(),
            final(self).spec_posted() == old(self).spec_posted(),
    {
        if self.joins(reference, c) {
            let ghost f = self.spec_forest();
            self.detach_node(c);
            proof {
                lemma_detach(f, c);
                assert(self.spec_forest()[reference as int].parent == f[reference as int].parent);
                assert(node_wf(self.spec_forest(), reference as int));
            }
            let p = self.nodes[reference].parent.unwrap();
            let i = index_in(&self.nodes[p].children, reference);
            proof {
                lemma_first_index_bounds(self.nodes@[p as int].children@, reference);
            }
            self.attach_node(p, i, c);
        }
    }

    fn insert_node_after(&mut self, reference: usize, c: usize)
        requires
            old(self).spec_inv(),
            reference < old(self).nodes@.len(),
            c < old(self).nodes@.len(),
        ensures
            final(self).spec_inv(),
            final(self).spec_forest() == insert_one_after(old(self).spec_forest(), reference, c),
            final(self).nodes@.len() == old(self).nodes@.len(),
            final(self).spec_posted() == old(self).spec_posted(),
    {
        if self.joins(reference, c) {
            let ghost f = self.spec_forest();
            self.detach_node(c);
            proof {
                lemma_detach(f, c);
                assert(self.spec_forest()[reference as int].parent == f[reference as int].parent);
                assert(node_wf(self.spec_forest(), reference as int));
            }
            let p = self.nodes[reference].parent.unwrap();
            let i = index_in(&self.nodes[p].children, reference);
            proof {
                lemma_first_index_bounds(self.nodes@[p as int].children@, reference);
            }
            let at = if i < self.nodes[p].children.len() {
                i + 1
            } else {
                i
            };
            self.attach_node(p, at, c);
        }
    }

    fn insert_nodes_before(&mut self, reference: usize, nodes: &[usize])
        requires
            old(self).spec_inv(),
            reference < old(self).nodes@.len(),
            handles_in(old(self).spec_forest(), nodes@),
        ensures
            final(self).spec_inv(),
            final(self).spec_forest() == insert_all_before(
                old(self).spec_forest(),
                reference,
                nodes@,
            ),
            final(self).nodes@.len() == old(self).nodes@.len(),
            final(self).spec_posted() == old(self).spec_posted(),
    {
        let ghost f0 = self.spec_forest();
        let mut k: usize = 0;
        while k < nodes.len()
            invariant
                k <= nodes@.len(),
                self.spec_inv(),
                self.nodes@.len() == f0.len(),
                reference < f0.len(),
                handles_in(f0, nodes@),
                self.spec_forest() == insert_all_before(f0, reference, nodes@.take(k as int)),
                self.spec_posted() == old(self).spec_posted(),
            decreases nodes@.len() - k,
        {
            let c = nodes[k];
            assert(nodes@[k as int] < f0.len());
            self.insert_node_before(reference, c);
            proof {
                let next = nodes@.take(k + 1);
                assert(next.drop_last() =~= nodes@.take(k as int));
                assert(next.last() == c);
            }
            k += 1;
        }
        assert(nodes@.take(k as int) =~= nodes@);
    }

    fn insert_nodes_after(&mut self, reference: usize, nodes: &[usize])
        requires
            old(self).spec_inv(),
            reference < old(self).nodes@.len(),
            handles_in(old(self).spec_forest(), nodes@),
        ensures
            final(self).spec_inv(),
            final(self).spec_forest() == insert_all_after(
                old(self).spec_forest(),
                reference,
                nodes@,
            ),
            final(self).nodes@.len() == old(self).nodes@.len(),
            final(self).spec_posted() == old(self).spec_posted(),
    {
        let ghost f0 = self.spec_forest();
        let mut k: usize = nodes.len();
        assert(nodes@.skip(k as int) =~= Seq::<usize>::empty());
        while k > 0
            invariant
                k <= nodes@.len(),
                self.spec_inv(),
                self.nodes@.len() == f0.len(),
                reference < f0.len(),
                handles_in(f0, nodes@),
                self.spec_forest() == insert_all_after(f0, reference, nodes@.skip(k as int)),
                self.spec_posted() == old(self).spec_posted(),
            decreases k,
        {
            let c = nodes[k - 1];
            assert(nodes@[k - 1] < f0.len());
            self.insert_node_after(reference, c);
            proof {
                let next = nodes@.skip(k - 1);
                assert(next.drop_first() =~= nodes@.skip(k as int));
                assert(next.first() == c);
            }
            k -= 1;
        }
        assert(nodes@.skip(0) =~= nodes@);
    }

    fn replace_node(&mut self, node: usize, with: &[usize])
        requires
            old(self).spec_inv(),
            node < old(self).nodes@.len(),
            handles_in(old(self).spec_forest(), with@),
        ensures
            final(self).spec_inv(),
            final(self).spec_forest() == replace(old(self).spec_forest(), node, with@),
            final(self).nodes@.len() == old(self).nodes@.len(),
            final(self).spec_posted() == old(self).spec_posted(),
    {
        if self.nodes[node].parent.is_none() {
            return ;
        }
        let mut among = false;
        let mut k: usize = 0;
        while k < with.len()
            invariant
                k <= with@.len(),
                among == with@.take(k as int).contains(node),
            decreases with@.len() - k,
        {
            if with[k] == node {
                among = true;
            }
            proof {
                let next = with@.take(k + 1);
                let prev = with@.take(k as int);
                assert(next =~= prev.push(with@[k as int]));
                if prev.contains(node) {
                    let j = choose|j: int| 0 <= j < prev.len() && prev[j] == node;
                    assert(next[j] == node);
                }
                if with@[k as int] == node {
                    assert(next[k as int] == node);
                }
            }
            k += 1;
        }
        assert(with@.take(k as int) =~= with@);
        self.insert_nodes_before(node, with);
        if !among {
            self.detach_node(node);
        }
    }

    fn walk(&self, root: usize, path: &[u8]) -> (r: Option<usize>)
        requires
            self.spec_inv(),
            root < self.nodes@.len(),
        ensures
            r == resolve(self.spec_forest(), root, path@),
    {
        let mut cur = root;
        let mut k: usize = 0;
        while k < path.len()
            invariant
                k <= path@.len(),
                self.spec_inv(),
                cur < self.nodes@.len(),
                resolve(self.spec_forest(), root, path@.take(k as int)) == Some(cur),
            decreases path@.len() - k,
        {
            let i = path[k] as usize;
            proof {
                let next = path@.take(k + 1);
                assert(next.drop_last() =~= path@.take(k as int));
                assert(next.last() == path@[k as int]);
                assert(node_wf(self.spec_forest(), cur as int));
            }
            if i < self.nodes[cur].children.len() {
                cur = self.nodes[cur].children[i];
            } else {
                proof {
                    lemma_resolve_stuck(self.spec_forest(), root, path@, k + 1);
                }
                return None;
            }
            k += 1;
        }
        assert(path@.take(k as int) =~= path@);
        Some(cur)
    }

    fn post(&mut self, name: &str, node_id: u32, bubbles: bool)
        requires
            old(self).spec_inv(),
        ensures
            final(self).spec_inv(),
            final(self).spec_forest() == old(self).spec_forest(),
            final(self).spec_posted() == old(self).spec_posted().push(
                PostedView { name: name@, node_id, bubbles },
            ),
    {
        self.posted.push(PostedEvent { name: name.to_owned(), node_id, bubbles });
        assert(self.spec_forest() =~= old(self).spec_forest());
        assert(self.spec_posted() =~= old(self).spec_posted().push(
            PostedView { name: name@, node_id, bubbles },
        ));
    }

    fn push_copy(&mut self, x: usize, parent: Option<usize>) -> (h: usize)
        requires
            old(self).spec_inv(),
            x < old(self).nodes@.len(),
            parent matches Some(p) ==> p < old(self).nodes@.len(),
        ensures
            final(self).spec_inv(),
            h == old(self).nodes@.len(),
            final(self).spec_forest() == old(self).spec_forest().push(
                bare_copy(old(self).spec_forest()[x as int], parent),
            ),
            final(self).spec_posted() == old(self).spec_posted(),
            old(self).nodes@.len() < usize::MAX,
    {
        let h = self.nodes.len();
        let ghost f = self.spec_forest();
        let src = &self.nodes[x];
        let node = Node {
            kind: src.kind,
            tag: src.tag.clone(),
            namespace: src.namespace.clone(),
            text: src.text.clone(),
            attrs: copy_attrs(&src.attrs),
            handlers: Vec::new(),
            children: Vec::new(),
            parent,
        };
        proof {
            assert(node@.handlers =~= Set::empty());
            assert(node@ == bare_copy(f[x as int], parent));
            lemma_push_fresh(f, node@);
        }
        self.nodes.push(node);
        let grown = self.nodes.len();
        assert(grown == h + 1);
        assert(self.spec_forest() =~= f.push(bare_copy(f[x as int], parent)));
        assert(self.spec_posted() =~= old(self).spec_posted());
        h
    }

    fn push_kid(&mut self, n: usize, c: usize)
        requires
            old(self).spec_inv(),
            n < old(self).nodes@.len(),
            c < old(self).nodes@.len(),
        ensures
            final(self).spec_inv(),
            final(self).spec_forest() == push_child(old(self).spec_forest(), n, c),
            final(self).nodes@.len() == old(self).nodes@.len(),
            final(self).spec_posted() == old(self).spec_posted(),
    {
        let ghost f = self.spec_forest();
        self.nodes[n].children.push(c);
        proof {
            let g = push_child(f, n, c);
            assert(self.spec_forest() =~= g);
            assert forall|m: int| 0 <= m < g.len() implies #[trigger] node_wf(g, m) by {
                assert(node_wf(f, m));
            }
            assert(self.spec_posted() =~= old(self).spec_posted());
        }
    }

    fn copy_subtree(&mut self, node: usize) -> (h: usize)
        requires
            old(self).spec_inv(),
            node < old(self).nodes@.len(),
        ensures
            final(self).spec_inv(),
            is_copy(old(self).spec_forest(), final(self).spec_forest(), node, h),
            final(self).spec_posted() == old(self).spec_posted(),
    {
        let ghost pre = self.spec_forest();
        let n0 = self.nodes.len();
        let mut copy_of: Vec<Option<usize>> = Vec::new();
        while copy_of.len() < n0
            invariant
                copy_of@.len() <= n0,
                forall|x: int| 0 <= x < copy_of@.len() ==> copy_of@[x] is None,
            decreases n0 - copy_of@.len(),
        {
            copy_of.push(None);
        }
        let mut order: Vec<usize> = Vec::new();
        let ghost none_yet = copy_of@;
        let top = self.push_copy(node, None);
        copy_of[node] = Some(top);
        order.push(node);
        proof {
            lemma_begin(pre, none_yet);
            lemma_discover(pre, pre, Seq::<usize>::empty(), none_yet, 0, 0, node, None);
            assert(order@ =~= Seq::<usize>::empty().push(node));
        }
        let mut k: usize = 0;
        while k < order.len()
            invariant
                n0 == pre.len(),
                node < n0,
                self.spec_inv(),
                self.spec_posted() == old(self).spec_posted(),
                self.nodes@.len() == n0 + order@.len(),
                k <= order@.len(),
                order@.len() >= 1,
                order@[0] == node,
                top == n0,
                self.spec_forest()[n0 as int].parent is None,
                copying(pre, self.spec_forest(), order@, copy_of@, k as int, 0),
            decreases n0 - k,
        {
            proof {
                lemma_order_bounded(pre, self.spec_forest(), order@, copy_of@, k as int, 0);
                assert(self.spec_forest().take(n0 as int)[order@[k as int] as int]
                    == self.spec_forest()[order@[k as int] as int]);
            }
            let x = order[k];
            let kids_len = self.nodes[x].children.len();
            let mut j: usize = 0;
            while j < kids_len
                invariant
                    n0 == pre.len(),
                    node < n0,
                    self.spec_inv(),
                    self.spec_posted() == old(self).spec_posted(),
                    self.nodes@.len() == n0 + order@.len(),
                    k < order@.len(),
                    order@.len() >= 1,
                    order@[0] == node,
                    x == order@[k as int],
                    x < n0,
                    kids_len == pre[x as int].children.len(),
                    j <= kids_len,
                    self.spec_forest()[n0 as int].parent is None,
                    copying(pre, self.spec_forest(), order@, copy_of@, k as int, j as int),
                decreases kids_len - j,
            {
                let ghost cur = self.spec_forest();
                proof {
                    assert(cur.take(n0 as int)[x as int] == cur[x as int]);
                    assert(node_wf(pre, x as int));
                }
                let c = self.nodes[x].children[j];
                assert(c == pre[x as int].children[j as int]);
                assert(c < n0);
                let known = copy_of[c];
                let cc = match known {
                    Some(cc) => cc,
                    None => {
                        let ghost ord = order@;
                        let ghost cof = copy_of@;
                        let cc = self.push_copy(c, Some(n0 + k));
                        copy_of[c] = Some(cc);
                        order.push(c);
                        proof {
                            assert(cur.take(n0 as int)[c as int] == cur[c as int]);
                            lemma_discover(
                                pre,
                                cur,
                                ord,
                                cof,
                                k as int,
                                j as int,
                                c,
                                Some((n0 + k) as usize),
                            );
                        }
                        cc
                    },
                };
                proof {
                    lemma_link(
                        pre,
                        self.spec_forest(),
                        order@,
                        copy_of@,
                        k as int,
                        j as int,
                        cc,
                    );
                }
                self.push_kid(n0 + k, cc);
                j += 1;
            }
            proof {
                lemma_advance(pre, self.spec_forest(), order@, copy_of@, k as int);
            }
            k += 1;
        }
        proof {
            lemma_copy_complete(pre, self.spec_forest(), order@, copy_of@, node);
        }
        top
    }
}

impl Platform for Document {
    open spec fn forest(&self) -> Seq<NodeView> {
        self.spec_forest()
    }

    open spec fn posted(&self) -> Seq<PostedView> {
        self.spec_posted()
    }

    open spec fn inv(&self) -> bool {
        self.spec_inv()
    }

    fn create_element(&mut self, tag: &str) -> (h: usize) {
        proof {
            reveal_strlit("");
            assert(""@ =~= Seq::<char>::empty());
        }
        self.create(NodeKind::Element, tag, "", "")
    }

    fn create_element_ns(&mut self, tag: &str, namespace: &str) -> (h: usize) {
        proof {
            reveal_strlit("");
            assert(""@ =~= Seq::<char>::empty());
        }
        self.create(NodeKind::Element, tag, namespace, "")
    }

    fn create_text(&mut self, content: &str) -> (h: usize) {
        proof {
            reveal_strlit("");
            assert(""@ =~= Seq::<char>::empty());
        }
        self.create(NodeKind::Text, "", "", content)
    }

    fn create_placeholder(&mut self) -> (h: usize) {
        proof {
            reveal_strlit("");
            assert(""@ =~= Seq::<char>::empty());
        }
        self.create(NodeKind::Placeholder, "", "", "")
    }

    fn clone_subtree(&mut self, node: usize) -> (h: usize) {
        self.copy_subtree(node)
    }

    fn append(&mut self, parent: usize, children: &[usize]) {
        self.append_nodes(parent, children)
    }

    fn insert_before(&mut self, reference: usize, nodes: &[usize]) {
        self.insert_nodes_before(reference, nodes)
    }

    fn insert_after(&mut self, reference: usize, nodes: &[usize]) {
        self.insert_nodes_after(reference, nodes)
    }

    fn replace(&mut self, node: usize, with: &[usize]) {
        self.replace_node(node, with)
    }

    fn remove(&mut self, node: usize) {
        self.detach_node(node)
    }

    fn set_attribute(&mut self, node: usize, name: &str, value: &str, namespace: &str) {
        self.set_attr(node, name, value, namespace)
    }

    fn remove_attribute(&mut self, node: usize, name: &str, namespace: &str) {
        self.remove_attr(node, name, namespace)
    }

    fn set_text(&mut self, node: usize, content: &str) {
        self.write_text(node, content)
    }

    fn register_listener(&mut self, node: usize, event: &str, bubbles: bool) {
        self.add_listener(node, event, bubbles)
    }

    fn unregister_listener(&mut self, node: usize, event: &str, bubbles: bool) {
        self.remove_listener(node, event, bubbles)
    }

    fn is_text(&self, node: usize) -> (b: bool) {
        match self.nodes[node].kind {
            NodeKind::Text => true,
            _ => false,
        }
    }

    fn load_child_by_path(&self, root: usize, path: &[u8]) -> (r: Option<usize>) {
        self.walk(root, path)
    }

    fn post_lifecycle_event(&mut self, name: &str, node_id: u32, bubbles: bool) {
        self.post(name, node_id, bubbles)
    }
}

} // verus!
