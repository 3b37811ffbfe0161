//! What holds of the operations taken together.

use vstd::prelude::*;
use crate::error::{BatchError, ErrorKind};
use crate::forest::{
    append_all, append_one, attach_at, can_join, child_at, detach, first_index, forest_wf,
    fresh_text, lemma_update_data, resolve,
    handles_in, holds, insert_all_after, insert_all_before, insert_one_after, insert_one_before,
    is_copy, lemma_attach_at, lemma_climbs_within, lemma_detach, lemma_first_index,
    lemma_first_index_bounds, lemma_resolve, node_wf, replace, same_shape, shape, NodeKind,
    NodeView,
};
use crate::listeners::{count_in, listening, released, retained, ListenerKey};
use crate::semantics::{
    assign_id_ref_step, effect, failed, flag, hydrate_text_ref_step, load_template_effect,
    located, new_event_listener_step, outcome, remove_event_listener_step, remove_step,
    replace_with_step, runs, unhooked, StateView,
};
use crate::templates::slot_of;
use crate::wire::{parse_at, OpView};

verus! {

/// The shape of a subtree depends on the nodes under it alone: where two
/// tables agree on a range of handles that holds all its children, they agree
/// on the shape of every subtree of the range.
pub proof fn lemma_shape_frame(
    f: Seq<NodeView>,
    g: Seq<NodeView>,
    lo: int,
    hi: int,
    n: usize,
    depth: nat,
)
    requires
        0 <= lo <= n < hi,
        hi <= f.len(),
        hi <= g.len(),
        forall|m: int| lo <= m < hi ==> #[trigger] g[m] == f[m],
        forall|m: int, j: int|
            lo <= m < hi && 0 <= j < f[m].children.len() ==> lo <= (#[trigger] f[m].children[j])
                < hi,
    ensures
        shape(g, n, depth) == shape(f, n, depth),
    decreases depth,
{
    if depth > 0 {
        let d = (depth - 1) as nat;
        assert(g[n as int] == f[n as int]);
        let kids = f[n as int].children;
        let a = Seq::new(kids.len(), |j: int| shape(g, kids[j], d));
        let b = Seq::new(kids.len(), |j: int| shape(f, kids[j], d));
        assert forall|j: int| 0 <= j < kids.len() implies a[j] == b[j] by {
            lemma_shape_frame(f, g, lo, hi, kids[j], d);
        }
        assert(a =~= b);
        assert(shape(g, n, depth)->children =~= a);
        assert(shape(f, n, depth)->children =~= b);
    }
}

/// Two copies of one subtree are different nodes, made of different nodes,
/// and both have the shape of the original, which has kept its own.
pub proof fn law_copies_are_equal_and_distinct(
    f0: Seq<NodeView>,
    f1: Seq<NodeView>,
    f2: Seq<NodeView>,
    proto: usize,
    a: usize,
    b: usize,
)
    requires
        forest_wf(f0),
        proto < f0.len(),
        is_copy(f0, f1, proto, a),
        is_copy(f1, f2, proto, b),
    ensures
        proto < a < b,
        f0.len() <= a < f1.len() <= b < f2.len(),
        same_shape(f2, a, f2, b),
        same_shape(f2, a, f0, proto),
        same_shape(f2, proto, f0, proto),
{
    assert forall|depth: nat|
        shape(f2, a, depth) == shape(f0, proto, depth) && shape(f2, b, depth) == shape(
            f0,
            proto,
            depth,
        ) && shape(f2, proto, depth) == shape(f0, proto, depth) by {
        lemma_prefix(f0, f1);
        lemma_prefix(f1, f2);
        // the original looks the same in all three tables
        assert forall|m: int, j: int|
            0 <= m < f0.len() && 0 <= j < f0[m].children.len() implies 0 <= (
        #[trigger] f0[m].children[j]) < f0.len() by {
            assert(node_wf(f0, m));
        }
        lemma_shape_frame(f0, f1, 0, f0.len() as int, proto, depth);
        lemma_shape_frame(f0, f2, 0, f0.len() as int, proto, depth);
        // the first copy looks the same after the second was made
        lemma_shape_frame(f1, f2, f0.len() as int, f1.len() as int, a, depth);
    }
}

/// Where `g` starts with `f`, the nodes of `f` are nodes of `g`.
proof fn lemma_prefix(f: Seq<NodeView>, g: Seq<NodeView>)
    requires
        f.len() <= g.len(),
        g.take(f.len() as int) == f,
    ensures
        forall|m: int| 0 <= m < f.len() ==> #[trigger] g[m] == f[m],
{
    assert forall|m: int| 0 <= m < f.len() implies #[trigger] g[m] == f[m] by {
        assert(g.take(f.len() as int)[m] == g[m]);
    }
}

/// Whatever is changed in the nodes of one copy, be it a text or an
/// attribute, shows neither in the other copy nor in the original: `g` is
/// the table after any change that leaves every node outside the first copy
/// as it was.
pub proof fn law_copies_are_independent(
    f0: Seq<NodeView>,
    f1: Seq<NodeView>,
    f2: Seq<NodeView>,
    g: Seq<NodeView>,
    proto: usize,
    a: usize,
    b: usize,
)
    requires
        forest_wf(f0),
        proto < f0.len(),
        is_copy(f0, f1, proto, a),
        is_copy(f1, f2, proto, b),
        g.len() == f2.len(),
        forall|m: int| 0 <= m < g.len() && !(f0.len() <= m < f1.len()) ==> #[trigger] g[m] == f2[m],
    ensures
        same_shape(g, b, f2, b),
        same_shape(g, proto, f2, proto),
{
    lemma_prefix(f0, f1);
    lemma_prefix(f1, f2);
    assert forall|depth: nat|
        shape(g, b, depth) == shape(f2, b, depth) && shape(g, proto, depth) == shape(
            f2,
            proto,
            depth,
        ) by {
        assert forall|m: int, j: int|
            0 <= m < f0.len() && 0 <= j < f2[m].children.len() implies 0 <= (
        #[trigger] f2[m].children[j]) < f0.len() by {
            assert(node_wf(f0, m));
            assert(f2[m] == f0[m]);
        }
        lemma_shape_frame(f2, g, 0, f0.len() as int, proto, depth);
        lemma_shape_frame(f2, g, f1.len() as int, f2.len() as int, b, depth);
    }
}

/// The same, the other way round: a change in the nodes of the second copy
/// shows neither in the first copy nor in the original.
pub proof fn law_copies_are_independent_of_later_ones(
    f0: Seq<NodeView>,
    f1: Seq<NodeView>,
    f2: Seq<NodeView>,
    g: Seq<NodeView>,
    proto: usize,
    a: usize,
    b: usize,
)
    requires
        forest_wf(f0),
        proto < f0.len(),
        is_copy(f0, f1, proto, a),
        is_copy(f1, f2, proto, b),
        g.len() == f2.len(),
        forall|m: int| 0 <= m < f1.len() ==> #[trigger] g[m] == f2[m],
    ensures
        same_shape(g, a, f2, a),
        same_shape(g, proto, f2, proto),
{
    lemma_prefix(f0, f1);
    lemma_prefix(f1, f2);
    assert forall|depth: nat|
        shape(g, a, depth) == shape(f2, a, depth) && shape(g, proto, depth) == shape(
            f2,
            proto,
            depth,
        ) by {
        assert forall|m: int, j: int|
            0 <= m < f0.len() && 0 <= j < f2[m].children.len() implies 0 <= (
        #[trigger] f2[m].children[j]) < f0.len() by {
            assert(node_wf(f0, m));
            assert(f2[m] == f0[m]);
        }
        assert forall|m: int, j: int|
            f0.len() <= m < f1.len() && 0 <= j < f2[m].children.len() implies f0.len() <= (
        #[trigger] f2[m].children[j]) < f1.len() by {
            assert(f2[m] == f1[m]);
        }
        lemma_shape_frame(f2, g, 0, f0.len() as int, proto, depth);
        lemma_shape_frame(f2, g, f0.len() as int, f1.len() as int, a, depth);
    }
}

/// A template that is loaded twice gives two different nodes with the shape
/// of the slot, and the slot keeps its shape.
pub proof fn law_template_loaded_twice(
    s0: StateView,
    s1: StateView,
    s2: StateView,
    tmpl_id: u16,
    index: u16,
    first: u32,
    second: u32,
)
    requires
        s0.wf(),
        load_template_effect(s0, tmpl_id, index, first, s1, Ok(())),
        load_template_effect(s1, tmpl_id, index, second, s2, Ok(())),
    ensures
        slot_of(s0.templates, tmpl_id, index) is Ok,
        s1.stack.last() != s2.stack.last(),
        s1.nodes[first] == s1.stack.last(),
        s2.nodes[second] == s2.stack.last(),
        same_shape(s2.forest, s1.stack.last(), s2.forest, s2.stack.last()),
        same_shape(
            s2.forest,
            s2.stack.last(),
            s0.forest,
            slot_of(s0.templates, tmpl_id, index)->Ok_0,
        ),
        same_shape(
            s2.forest,
            slot_of(s0.templates, tmpl_id, index)->Ok_0,
            s0.forest,
            slot_of(s0.templates, tmpl_id, index)->Ok_0,
        ),
{
    let proto = slot_of(s0.templates, tmpl_id, index)->Ok_0;
    assert(s0.templates[tmpl_id][index as int] < s0.forest.len());
    law_copies_are_equal_and_distinct(
        s0.forest,
        s1.forest,
        s2.forest,
        proto,
        s1.stack.last(),
        s2.stack.last(),
    );
    assert forall|depth: nat|
        shape(s2.forest, s2.stack.last(), depth) == shape(s0.forest, proto, depth) by {
        assert(shape(s2.forest, s1.stack.last(), depth) == shape(s0.forest, proto, depth));
        assert(shape(s2.forest, s1.stack.last(), depth) == shape(
            s2.forest,
            s2.stack.last(),
            depth,
        ));
    }
}

/// A run of retentions (`true`) and releases (`false`) of one key.
pub open spec fn replay(m: Map<ListenerKey, nat>, key: ListenerKey, ops: Seq<bool>) -> Map<
    ListenerKey,
    nat,
>
    decreases ops.len(),
{
    if ops.len() == 0 {
        m
    } else if ops.last() {
        retained(replay(m, key, ops.drop_last()), key)
    } else {
        released(replay(m, key, ops.drop_last()), key)
    }
}

/// How many of `ops` are retentions.
pub open spec fn retentions(ops: Seq<bool>) -> int
    decreases ops.len(),
{
    if ops.len() == 0 {
        0
    } else {
        retentions(ops.drop_last()) + if ops.last() {
            1int
        } else {
            0int
        }
    }
}

/// How many of `ops` are releases.
pub open spec fn releases(ops: Seq<bool>) -> int {
    ops.len() - retentions(ops)
}

/// No release of `ops` comes when the count, which starts at `count`, is 0.
pub open spec fn never_short(count: nat, ops: Seq<bool>) -> bool {
    forall|i: int| 0 <= i <= ops.len() ==> count + retentions(#[trigger] ops.take(i)) >= releases(ops.take(i))
}

/// After a run of retentions and releases of one key, in which no release
/// comes at a count of 0, the count is where it was, plus the retentions,
/// minus the releases. No other key is touched.
pub proof fn law_net_count(m: Map<ListenerKey, nat>, key: ListenerKey, ops: Seq<bool>)
    requires
        never_short(count_in(m, key), ops),
    ensures
        count_in(replay(m, key, ops), key) == count_in(m, key) + retentions(ops) - releases(ops),
        forall|k: ListenerKey|
            k != key ==> #[trigger] count_in(replay(m, key, ops), k) == count_in(m, k),
    decreases ops.len(),
{
    if ops.len() > 0 {
        let before = ops.drop_last();
        assert forall|i: int| 0 <= i <= before.len() implies count_in(m, key) + retentions(
            #[trigger] before.take(i),
        ) >= releases(before.take(i)) by {
            assert(before.take(i) =~= ops.take(i));
        }
        law_net_count(m, key, before);
        assert forall|k: ListenerKey| k != key implies #[trigger] count_in(
            replay(m, key, ops),
            k,
        ) == count_in(m, k) by {
            assert(count_in(replay(m, key, before), k) == count_in(m, k));
        }
        assert(ops.take(ops.len() as int) =~= ops);
        assert(ops.take(before.len() as int) =~= before);
        assert(count_in(m, key) + retentions(ops.take(ops.len() as int)) >= releases(
            ops.take(ops.len() as int),
        ));
    }
}

/// A count never goes below 0: a release at 0 changes nothing. And the
/// release that brings a count to 0 is the one release that takes the record
/// away.
pub proof fn law_release_at_zero(m: Map<ListenerKey, nat>, key: ListenerKey)
    ensures
        count_in(m, key) == 0 ==> count_in(released(m, key), key) == 0,
        !m.contains_key(key) ==> released(m, key) == m,
        count_in(m, key) == 1 ==> !released(m, key).contains_key(key),
        count_in(m, key) > 1 ==> count_in(released(m, key), key) == count_in(m, key) - 1,
{
}

/// The first listener for an event on a node installs the handler, the
/// release of that listener takes the handler away again, and one more
/// release changes nothing at all.
pub proof fn law_listen_and_unlisten(
    s0: StateView,
    s1: StateView,
    s2: StateView,
    s3: StateView,
    event: Seq<char>,
    id: u32,
    bubbles: u8,
)
    requires
        s0.wf(),
        s0.nodes.contains_key(id),
        !s0.listeners.contains_key((id, event, flag(bubbles))),
        outcome(new_event_listener_step(s0, event, id, bubbles), s0, s1, Ok(())),
        outcome(remove_event_listener_step(s1, event, id, bubbles), s1, s2, Ok(())),
        outcome(remove_event_listener_step(s2, event, id, bubbles), s2, s3, Ok(())),
    ensures
        count_in(s1.listeners, (id, event, flag(bubbles))) == 1,
        s1.forest[s0.nodes[id] as int].handlers.contains((event, flag(bubbles))),
        count_in(s2.listeners, (id, event, flag(bubbles))) == 0,
        !s2.forest[s0.nodes[id] as int].handlers.contains((event, flag(bubbles))),
        s2.listeners == s0.listeners,
        s3 == s2,
{
    assert(s0.nodes[id] < s0.forest.len());
    assert(s2.listeners =~= s0.listeners);
}

/// Two tables of one length whose nodes have the same handlers.
pub open spec fn same_handlers(f: Seq<NodeView>, g: Seq<NodeView>) -> bool {
    g.len() == f.len() && forall|m: int|
        0 <= m < f.len() ==> (#[trigger] g[m]).handlers == f[m].handlers
}

proof fn lemma_detach_keeps_handlers(f: Seq<NodeView>, c: usize)
    requires
        forest_wf(f),
        c < f.len(),
    ensures
        same_handlers(f, detach(f, c)),
{
    assert(node_wf(f, c as int));
}

proof fn lemma_insert_one_before_keeps_handlers(f: Seq<NodeView>, r: usize, c: usize)
    requires
        forest_wf(f),
        r < f.len(),
        c < f.len(),
    ensures
        same_handlers(f, insert_one_before(f, r, c)),
{
    if can_join(f, r, c) {
        lemma_detach(f, c);
        lemma_detach_keeps_handlers(f, c);
        let f1 = detach(f, c);
        assert(f1[r as int].parent == f[r as int].parent);
        assert(node_wf(f1, r as int));
    }
}

proof fn lemma_insert_before_keeps_handlers(f: Seq<NodeView>, r: usize, cs: Seq<usize>)
    requires
        forest_wf(f),
        r < f.len(),
        handles_in(f, cs),
    ensures
        same_handlers(f, insert_all_before(f, r, cs)),
    decreases cs.len(),
{
    if cs.len() > 0 {
        let g = insert_all_before(f, r, cs.drop_last());
        lemma_insert_before_keeps_handlers(f, r, cs.drop_last());
        law_insert_before_keeps_form(f, r, cs.drop_last());
        lemma_insert_one_before_keeps_handlers(g, r, cs.last());
    }
}

/// Taking a node out, or putting others in its place, changes no handler of
/// any node.
pub proof fn law_moves_keep_handlers(f: Seq<NodeView>, r: usize, cs: Seq<usize>)
    requires
        forest_wf(f),
        r < f.len(),
        handles_in(f, cs),
    ensures
        same_handlers(f, detach(f, r)),
        same_handlers(f, replace(f, r, cs)),
{
    lemma_detach_keeps_handlers(f, r);
    lemma_insert_before_keeps_handlers(f, r, cs);
    law_insert_before_keeps_form(f, r, cs);
    lemma_detach_keeps_handlers(insert_all_before(f, r, cs), r);
}

/// What the node `h` that `id` was bound to has lost once its listeners that
/// do not bubble are purged: the records, and the handler of each record. A
/// handler that bubbles, or that no record stood for, is where it was.
pub open spec fn purge_done(pre: StateView, id: u32, h: usize, post: StateView) -> bool {
    &&& forall|event: Seq<char>| !post.listeners.contains_key((id, event, false))
    &&& forall|event: Seq<char>|
        pre.listeners.contains_key((id, event, false)) ==> !(
        #[trigger] post.forest[h as int].handlers.contains((event, false)))
    &&& forall|k: (Seq<char>, bool)|
        k.1 || !pre.listeners.contains_key((id, k.0, false)) ==> (
        #[trigger] post.forest[h as int].handlers.contains(k)) == pre.forest[h as int].handlers.contains(
            k,
        )
    &&& forall|m: int|
        0 <= m < pre.forest.len() && m != h ==> (#[trigger] post.forest[m]).handlers
            == pre.forest[m].handlers
    &&& forall|k: ListenerKey|
        k.0 != id || k.2 ==> #[trigger] count_in(post.listeners, k) == count_in(pre.listeners, k)
    &&& !post.nodes.contains_key(id)
}

proof fn lemma_unhooked_form(pre: StateView, id: u32)
    requires
        pre.wf(),
        pre.nodes.contains_key(id),
    ensures
        forest_wf(unhooked(pre.forest, pre.listeners, pre.nodes[id], id)),
        unhooked(pre.forest, pre.listeners, pre.nodes[id], id).len() == pre.forest.len(),
{
    let h = pre.nodes[id];
    assert(h < pre.forest.len());
    lemma_update_data(pre.forest, h, unhooked(pre.forest, pre.listeners, h, id)[h as int]);
}

/// Removing a node leaves it without a listener that does not bubble, however
/// often such a listener was retained: the records are gone from the table,
/// and the handlers are gone from the node, which is then taken out. The
/// listeners that bubble and those of other nodes are as they were.
pub proof fn law_remove_purges(pre: StateView, id: u32, post: StateView)
    requires
        pre.wf(),
        outcome(remove_step(pre, id), pre, post, Ok(())),
    ensures
        purge_done(pre, id, pre.nodes[id], post),
        post.forest[pre.nodes[id] as int].parent is None,
{
    let h = pre.nodes[id];
    let f1 = unhooked(pre.forest, pre.listeners, h, id);
    lemma_unhooked_form(pre, id);
    law_moves_keep_handlers(f1, h, Seq::<usize>::empty());
    lemma_detach(f1, h);
    assert(node_wf(f1, h as int));
    assert forall|m: int| 0 <= m < pre.forest.len() implies (#[trigger] post.forest[m]).handlers
        == f1[m].handlers by {}
}

/// Replacing a node leaves it without a listener that does not bubble,
/// however often such a listener was retained: the records are gone from the
/// table, and the handlers are gone from the node, which then gives its place
/// away. The listeners that bubble and those of other nodes are as they were.
pub proof fn law_replace_purges(pre: StateView, id: u32, n: u16, post: StateView)
    requires
        pre.wf(),
        outcome(replace_with_step(pre, id, n), pre, post, Ok(())),
    ensures
        purge_done(pre, id, pre.nodes[id], post),
{
    let h = pre.nodes[id];
    let f1 = unhooked(pre.forest, pre.listeners, h, id);
    lemma_unhooked_form(pre, id);
    assert(handles_in(f1, pre.top(n as int)));
    law_moves_keep_handlers(f1, h, pre.top(n as int));
    assert forall|m: int| 0 <= m < pre.forest.len() implies (#[trigger] post.forest[m]).handlers
        == f1[m].handlers by {}
}

/// One more listener raises the count of its key by one and leaves every
/// other count, the stack and the node ids alone. The handler is installed
/// with the first listener of the key, and with no later one: then the nodes
/// stay as they are.
pub proof fn law_new_listener(
    pre: StateView,
    event: Seq<char>,
    id: u32,
    bubbles: u8,
    post: StateView,
)
    requires
        pre.wf(),
        outcome(new_event_listener_step(pre, event, id, bubbles), pre, post, Ok(())),
    ensures
        count_in(post.listeners, (id, event, flag(bubbles))) == count_in(
            pre.listeners,
            (id, event, flag(bubbles)),
        ) + 1,
        forall|k: ListenerKey|
            k != (id, event, flag(bubbles)) ==> #[trigger] count_in(post.listeners, k) == count_in(
                pre.listeners,
                k,
            ),
        post.stack == pre.stack,
        post.nodes == pre.nodes,
        pre.listeners.contains_key((id, event, flag(bubbles))) ==> post.forest == pre.forest,
        !pre.listeners.contains_key((id, event, flag(bubbles))) ==> post.forest[pre.nodes[id] as int].handlers
            == pre.forest[pre.nodes[id] as int].handlers.insert((event, flag(bubbles))),
        forall|m: int|
            0 <= m < pre.forest.len() && m != pre.nodes[id] ==> #[trigger] post.forest[m]
                == pre.forest[m],
{
    let h = pre.nodes[id];
    assert(h < pre.forest.len());
    let key = (id, event, flag(bubbles));
    if pre.listeners.contains_key(key) {
        assert(listening(pre.listeners, id));
    }
}

/// Hydrating a text node gives it the new text in place: the node keeps its
/// handle, which `id` is bound to, and no node is created.
pub proof fn law_hydrate_text_in_place(
    pre: StateView,
    array: Seq<u8>,
    value: Seq<char>,
    id: u32,
    post: StateView,
)
    requires
        pre.wf(),
        located(pre.forest, pre.stack, array) matches Ok(n) && pre.forest[n as int].kind
            == NodeKind::Text,
        outcome(hydrate_text_ref_step(pre, array, value, id), pre, post, Ok(())),
    ensures
        post.nodes[id] == located(pre.forest, pre.stack, array)->Ok_0,
        post.forest.len() == pre.forest.len(),
        post.forest[post.nodes[id] as int].text == value,
        post.forest[post.nodes[id] as int].kind == NodeKind::Text,
        post.forest[post.nodes[id] as int].parent == pre.forest[post.nodes[id] as int].parent,
        forall|m: int| 0 <= m < pre.forest.len() && m != post.nodes[id] ==> post.forest[m] == pre.forest[m],
        post.stack == pre.stack,
{
    let n = located(pre.forest, pre.stack, array)->Ok_0;
    lemma_resolve(pre.forest, pre.stack.last(), array);
}

/// Hydrating a node `n` that is not a text node creates a text node with the
/// new text, which `id` is bound to from then on. Where `n` has a parent, the
/// text node becomes a child of that parent and `n` ceases to be one; the text
/// node takes the very place of `n` among the children. Where `n` has no
/// parent there is no place to take, and the text node stays on its own.
pub proof fn law_hydrate_text_replaces(
    pre: StateView,
    array: Seq<u8>,
    value: Seq<char>,
    id: u32,
    post: StateView,
    n: usize,
)
    requires
        pre.wf(),
        located(pre.forest, pre.stack, array) == Ok::<usize, ErrorKind>(n),
        pre.forest[n as int].kind != NodeKind::Text,
        outcome(hydrate_text_ref_step(pre, array, value, id), pre, post, Ok(())),
    ensures
        post.nodes[id] == pre.forest.len(),
        post.nodes[id] != n,
        post.forest.len() == pre.forest.len() + 1,
        post.forest[post.nodes[id] as int].kind == NodeKind::Text,
        post.forest[post.nodes[id] as int].text == value,
        post.forest[post.nodes[id] as int].parent == pre.forest[n as int].parent,
        post.forest[n as int].parent is None,
        pre.forest[n as int].parent is None ==> post.forest == pre.forest.push(fresh_text(value)),
        forall|m: int|
            0 <= m < pre.forest.len() && pre.forest[n as int].parent != Some(m as usize) ==> (
            #[trigger] post.forest[m]).children == pre.forest[m].children,
        post.stack == pre.stack,
        pre.forest[n as int].parent matches Some(p) ==> (p != n && pre.forest[p as int].children.contains(
            n,
        ) ==> post.forest[p as int].children == pre.forest[p as int].children.update(
            first_index(pre.forest[p as int].children, n),
            post.nodes[id],
        )),
{
    lemma_resolve(pre.forest, pre.stack.last(), array);
    assert(node_wf(pre.forest, n as int));
    let h = pre.forest.len() as usize;
    let f1 = pre.forest.push(fresh_text(value));
    let with = seq![h];
    assert(with.drop_last() =~= Seq::<usize>::empty());
    assert(with.last() == h);
    assert(!with.contains(n)) by {
        if with.contains(n) {
            let j = choose|j: int| 0 <= j < with.len() && with[j] == n;
            assert(with[j] == h);
        }
    }
    assert(post.forest == replace(f1, n, with));
    assert(f1[n as int] == pre.forest[n as int]);
    assert(f1[h as int] == fresh_text(value));
    match pre.forest[n as int].parent {
        None => {},
        Some(p) => {
            let kids = pre.forest[p as int].children;
            let i = first_index(kids, n);
            lemma_first_index_bounds(kids, n);
            assert(f1[p as int] == pre.forest[p as int]);
            // the text node goes before the node
            let f2 = insert_all_before(f1, n, with);
            assert(insert_all_before(f1, n, with.drop_last()) == f1);
            assert(f2 == insert_one_before(f1, n, h));
            assert(!holds(f1, h, p)) by {
                assert forall|m: int| 0 <= m < pre.forest.len() implies (
                #[trigger] f1[m].parent matches Some(q) ==> q < pre.forest.len()) by {
                    assert(node_wf(pre.forest, m));
                }
                lemma_climbs_within(f1, pre.forest.len() as int, p, h, f1.len());
            }
            assert(can_join(f1, n, h));
            assert(detach(f1, h) == f1);
            assert(f2 == attach_at(f1, p, i, h));
            let kids1 = kids.insert(i, h);
            assert(f2[p as int].children == kids1);
            assert(f2[h as int].parent == Some(p));
            assert(f2[n as int].parent == Some(p));
            // and the node goes out
            assert(post.forest == detach(f2, n));
            if p != n && kids.contains(n) {
                let j = choose|j: int| 0 <= j < kids.len() && kids[j] == n;
                lemma_first_index_prefix(kids, n, j);
                assert forall|j: int| 0 <= j < i + 1 implies kids1[j] != n by {
                    if j < i {
                        assert(kids1[j] == kids[j]);
                        lemma_first_index_prefix(kids, n, j);
                    }
                }
                assert(kids1[i + 1] == kids[i]);
                lemma_first_index(kids1, n, i + 1);
                assert(kids1.remove(i + 1) =~= kids.update(i, h));
            }
        },
    }
}

/// A path that does not pass the replaced node before its end leads, up to
/// its last step, where it led before the replacement.
proof fn lemma_way_unchanged(
    f: Seq<NodeView>,
    g: Seq<NodeView>,
    top: usize,
    path: Seq<u8>,
    k: int,
    n: usize,
    p: usize,
    i: int,
    h: usize,
)
    requires
        0 <= k <= path.len(),
        forest_wf(f),
        top < f.len(),
        p < f.len() <= g.len(),
        forall|m: int| 0 <= m < f.len() && m != p ==> (#[trigger] g[m]).children == f[m].children,
        0 <= i < f[p as int].children.len(),
        f[p as int].children[i] == n,
        g[p as int].children == f[p as int].children.update(i, h),
        forall|j: int| 0 <= j <= k ==> resolve(f, top, #[trigger] path.take(j)) != Some(n),
    ensures
        resolve(g, top, path.take(k)) == resolve(f, top, path.take(k)),
    decreases k,
{
    if k > 0 {
        let shorter = path.take(k - 1);
        assert(path.take(k).drop_last() =~= shorter);
        lemma_way_unchanged(f, g, top, path, k - 1, n, p, i, h);
        lemma_resolve(f, top, shorter);
        match resolve(f, top, shorter) {
            None => {},
            Some(m) => {
                let b = path.take(k).last();
                if m == p && b == i {
                    assert(child_at(f, m, b) == Some(n));
                    assert(resolve(f, top, path.take(k)) == Some(n));
                }
            },
        }
    }
}

/// After a node `n` was replaced in hydration, the same path leads to the
/// text node that took its place: whoever asks for the node at the path
/// again gets the text node, not `n`. This is so for a path of at least one
/// step in a table that is a tree along the path: the last step is taken
/// from the parent `p` of `n`, which lists `n` once and at the place that the
/// path names, and the way down does not come by `n` before its end.
pub proof fn law_hydrated_path_finds_text(
    pre: StateView,
    array: Seq<u8>,
    value: Seq<char>,
    id: u32,
    post: StateView,
    n: usize,
    p: usize,
    other: u32,
)
    requires
        pre.wf(),
        array.len() > 0,
        located(pre.forest, pre.stack, array) == Ok::<usize, ErrorKind>(n),
        pre.forest[n as int].kind != NodeKind::Text,
        outcome(hydrate_text_ref_step(pre, array, value, id), pre, post, Ok(())),
        resolve(pre.forest, pre.stack.last(), array.drop_last()) == Some(p),
        pre.forest[n as int].parent == Some(p),
        p != n,
        first_index(pre.forest[p as int].children, n) == array.last(),
        forall|k: int|
            0 <= k < array.len() ==> resolve(pre.forest, pre.stack.last(), #[trigger] array.take(k))
                != Some(n),
    ensures
        located(post.forest, post.stack, array) == Ok::<usize, ErrorKind>(post.nodes[id]),
        post.nodes[id] != n,
        assign_id_ref_step(post, array, other) matches Ok(s) && s.nodes[other] == post.nodes[id],
{
    let top = pre.stack.last();
    let kids = pre.forest[p as int].children;
    let i = array.last() as int;
    lemma_resolve(pre.forest, top, array.drop_last());
    assert(child_at(pre.forest, p, array.last()) == Some(n));
    assert(kids[i] == n);
    assert(kids.contains(n));
    law_hydrate_text_replaces(pre, array, value, id, post, n);
    let h = post.nodes[id];
    assert forall|m: int| 0 <= m < pre.forest.len() && m != p implies (
    #[trigger] post.forest[m]).children == pre.forest[m].children by {
        assert(pre.forest[n as int].parent != Some(m as usize));
    }
    lemma_way_unchanged(pre.forest, post.forest, top, array, array.len() - 1, n, p, i, h);
    assert(array.take(array.len() - 1) =~= array.drop_last());
    assert(resolve(post.forest, top, array.drop_last()) == Some(p));
    assert(child_at(post.forest, p, array.last()) == Some(h));
}

/// No place before the first place of `x` holds `x`.
proof fn lemma_first_index_prefix(s: Seq<usize>, x: usize, j: int)
    requires
        0 <= j < s.len(),
    ensures
        s[j] == x ==> first_index(s, x) <= j,
        j < first_index(s, x) ==> s[j] != x,
    decreases s.len(),
{
    if s[0] != x && j > 0 {
        lemma_first_index_prefix(s.drop_first(), x, j - 1);
    }
}

/// How deep the stack is after an instruction, given how deep it was before,
/// or nothing where the instruction needs more operands than there are. This
/// is a matter of the instruction alone, not of the nodes and tables.
pub open spec fn depth_after(op: OpView, depth: int) -> Option<int> {
    let (needs, takes, gives): (int, int, int) = match op {
        OpView::MountToRoot => (1, depth - 1, 0),
        OpView::PushRoot { root } => (0, 0, 1),
        OpView::AppendChildren { id, many } => (many as int, many as int, 0),
        OpView::PopRoot => (1, 1, 0),
        OpView::ReplaceWith { id, n } => (n as int, n as int, 0),
        OpView::InsertAfter { id, n } => (n as int, n as int, 0),
        OpView::InsertBefore { id, n } => (n as int, n as int, 0),
        OpView::Remove { id } => (0, 0, 0),
        OpView::CreateRawText { text } => (0, 0, 1),
        OpView::CreateTextNode { text, id } => (0, 0, 1),
        OpView::CreatePlaceholder { id } => (0, 0, 1),
        OpView::NewEventListener { event_name, id, bubbles } => (0, 0, 0),
        OpView::RemoveEventListener { event_name, id, bubbles } => (0, 0, 0),
        OpView::SetText { id, text } => (0, 0, 0),
        OpView::SetAttribute { id, field, value, ns } => (0, 0, 0),
        OpView::RemoveAttribute { id, field, ns } => (0, 0, 0),
        OpView::AssignId { ptr, len, id } => (1, 0, 0),
        OpView::HydrateText { ptr, len, value, id } => (1, 0, 0),
        OpView::ReplacePlaceholder { ptr, len, n } => (n + 1, n as int, 0),
        OpView::LoadTemplate { tmpl_id, index, id } => (0, 0, 1),
        OpView::AppendChildrenToTop { many } => (many + 1, many as int, 0),
        OpView::SetTopAttribute { field, value, ns } => (1, 0, 0),
        OpView::AddPlaceholder => (0, 0, 1),
        OpView::CreateElement { element } => (0, 0, 1),
        OpView::CreateElementNs { element, ns } => (0, 0, 1),
        OpView::AddTemplates { tmpl_id, len } => (len as int, len as int, 0),
        OpView::ForeignEventListener { event, id, bubbles } => (0, 0, 0),
        OpView::AssignIdRef { array, id } => (1, 0, 0),
        OpView::HydrateTextRef { array, value, id } => (1, 0, 0),
        OpView::ReplacePlaceholderRef { array, n } => (n + 1, n as int, 0),
        OpView::DefineName { kind, code, name } => (0, 0, 0),
    };
    if depth < needs {
        None
    } else {
        Some(depth - takes + gives)
    }
}

/// An instruction that succeeds leaves the stack as deep as the instruction
/// and the depth before it say. An instruction that needs more operands than
/// there are fails, and an instruction fails with a stack underflow in that
/// case only.
#[verifier::rlimit(100)]
pub proof fn law_depth_of_instruction(
    pre: StateView,
    op: OpView,
    post: StateView,
    r: Result<(), ErrorKind>,
)
    requires
        effect(pre, op, post, r),
    ensures
        r is Ok ==> depth_after(op, pre.stack.len() as int) == Some(post.stack.len() as int),
        depth_after(op, pre.stack.len() as int) is None ==> r is Err,
        r == Err::<(), ErrorKind>(ErrorKind::StackUnderflow) ==> depth_after(
            op,
            pre.stack.len() as int,
        ) is None,
        r is Err ==> post.stack == pre.stack,
{
    match op {
        OpView::LoadTemplate { tmpl_id, index, id } => {},
        _ => {},
    }
}

/// How deep the stack is after the batch that starts at `at`, or nothing
/// where the batch cannot be read to its end or needs more operands than
/// there are.
pub open spec fn depth_after_batch(stream: Seq<u8>, at: int, depth: int) -> Option<int>
    decreases stream.len() - at,
{
    if at >= stream.len() {
        Some(depth)
    } else {
        match parse_at(stream, at) {
            None => None,
            Some((op, next)) => if at < next <= stream.len() {
                match depth_after(op, depth) {
                    None => None,
                    Some(d) => depth_after_batch(stream, next, d),
                }
            } else {
                None
            },
        }
    }
}

/// A batch that succeeds leaves the stack as deep as its instructions and
/// the depth before it say: the depth at the end is the depth at the start
/// plus what the instructions push, minus what they take.
pub proof fn law_depth_of_batch(
    pre: StateView,
    stream: Seq<u8>,
    at: int,
    index: int,
    post: StateView,
    r: Result<usize, BatchError>,
)
    requires
        runs(pre, stream, at, index, post, r),
        r is Ok,
    ensures
        depth_after_batch(stream, at, pre.stack.len() as int) == Some(post.stack.len() as int),
    decreases stream.len() - at,
{
    if at < stream.len() {
        match parse_at(stream, at) {
            None => {},
            Some((op, next)) => {
                let (mid, r1) = choose|mid: StateView, r1: Result<(), ErrorKind>|
                    #[trigger] effect(pre, op, mid, r1) && match r1 {
                        Err(kind) => post == mid && failed(r, index, kind),
                        Ok(_) => if at < next <= stream.len() {
                            runs(mid, stream, next, index + 1, post, r)
                        } else {
                            false
                        },
                    };
                law_depth_of_instruction(pre, op, mid, r1);
                law_depth_of_batch(mid, stream, next, index + 1, post, r);
            },
        }
    }
}

/// A batch that meets an instruction for which the stack is too shallow
/// fails at that instruction: it cannot succeed.
pub proof fn law_short_stack_fails(
    pre: StateView,
    stream: Seq<u8>,
    at: int,
    index: int,
    post: StateView,
    r: Result<usize, BatchError>,
)
    requires
        runs(pre, stream, at, index, post, r),
        depth_after_batch(stream, at, pre.stack.len() as int) is None,
    ensures
        r is Err,
{
    if r is Ok {
        law_depth_of_batch(pre, stream, at, index, post, r);
    }
}

proof fn lemma_append_one(f: Seq<NodeView>, p: usize, c: usize)
    requires
        forest_wf(f),
        p < f.len(),
        c < f.len(),
    ensures
        forest_wf(append_one(f, p, c)),
        append_one(f, p, c).len() == f.len(),
{
    if !holds(f, c, p) {
        lemma_detach(f, c);
        let f1 = detach(f, c);
        lemma_attach_at(f1, p, f1[p as int].children.len() as int, c);
    }
}

/// Appending keeps the table well formed and as long as it was.
pub proof fn law_append_keeps_form(f: Seq<NodeView>, p: usize, cs: Seq<usize>)
    requires
        forest_wf(f),
        p < f.len(),
        handles_in(f, cs),
    ensures
        forest_wf(append_all(f, p, cs)),
        append_all(f, p, cs).len() == f.len(),
    decreases cs.len(),
{
    if cs.len() > 0 {
        law_append_keeps_form(f, p, cs.drop_last());
        lemma_append_one(append_all(f, p, cs.drop_last()), p, cs.last());
    }
}

proof fn lemma_insert_one_before(f: Seq<NodeView>, r: usize, c: usize)
    requires
        forest_wf(f),
        r < f.len(),
        c < f.len(),
    ensures
        forest_wf(insert_one_before(f, r, c)),
        insert_one_before(f, r, c).len() == f.len(),
        insert_one_before(f, r, c)[r as int].parent is Some == f[r as int].parent is Some,
{
    if can_join(f, r, c) {
        lemma_detach(f, c);
        let f1 = detach(f, c);
        assert(f1[r as int].parent == f[r as int].parent);
        assert(node_wf(f1, r as int));
        let p = f1[r as int].parent.unwrap();
        lemma_first_index_bounds(f1[p as int].children, r);
        lemma_attach_at(f1, p, first_index(f1[p as int].children, r), c);
        assert(attach_at(f1, p, first_index(f1[p as int].children, r), c)[r as int].parent
            == f1[r as int].parent);
    }
}

/// Inserting before a node keeps the table well formed and as long as it
/// was, and the node keeps its parent.
pub proof fn law_insert_before_keeps_form(f: Seq<NodeView>, r: usize, cs: Seq<usize>)
    requires
        forest_wf(f),
        r < f.len(),
        handles_in(f, cs),
    ensures
        forest_wf(insert_all_before(f, r, cs)),
        insert_all_before(f, r, cs).len() == f.len(),
        insert_all_before(f, r, cs)[r as int].parent is Some == f[r as int].parent is Some,
    decreases cs.len(),
{
    if cs.len() > 0 {
        law_insert_before_keeps_form(f, r, cs.drop_last());
        lemma_insert_one_before(insert_all_before(f, r, cs.drop_last()), r, cs.last());
    }
}

proof fn lemma_insert_one_after(f: Seq<NodeView>, r: usize, c: usize)
    requires
        forest_wf(f),
        r < f.len(),
        c < f.len(),
    ensures
        forest_wf(insert_one_after(f, r, c)),
        insert_one_after(f, r, c).len() == f.len(),
        insert_one_after(f, r, c)[r as int].parent is Some == f[r as int].parent is Some,
{
    if can_join(f, r, c) {
        lemma_detach(f, c);
        let f1 = detach(f, c);
        assert(f1[r as int].parent == f[r as int].parent);
        assert(node_wf(f1, r as int));
        let p = f1[r as int].parent.unwrap();
        let kids = f1[p as int].children;
        let i = first_index(kids, r);
        lemma_first_index_bounds(kids, r);
        let at = if i < kids.len() { i + 1 } else { i };
        lemma_attach_at(f1, p, at, c);
        assert(attach_at(f1, p, at, c)[r as int].parent == f1[r as int].parent);
    }
}

/// Inserting after a node keeps the table well formed and as long as it was,
/// and the node keeps its parent.
pub proof fn law_insert_after_keeps_form(f: Seq<NodeView>, r: usize, cs: Seq<usize>)
    requires
        forest_wf(f),
        r < f.len(),
        handles_in(f, cs),
    ensures
        forest_wf(insert_all_after(f, r, cs)),
        insert_all_after(f, r, cs).len() == f.len(),
        insert_all_after(f, r, cs)[r as int].parent is Some == f[r as int].parent is Some,
    decreases cs.len(),
{
    if cs.len() > 0 {
        law_insert_after_keeps_form(f, r, cs.drop_first());
        lemma_insert_one_after(insert_all_after(f, r, cs.drop_first()), r, cs.first());
    }
}

/// Replacing a node keeps the table well formed and as long as it was.
pub proof fn law_replace_keeps_form(f: Seq<NodeView>, r: usize, cs: Seq<usize>)
    requires
        forest_wf(f),
        r < f.len(),
        handles_in(f, cs),
    ensures
        forest_wf(replace(f, r, cs)),
        replace(f, r, cs).len() == f.len(),
{
    law_insert_before_keeps_form(f, r, cs);
    lemma_detach(insert_all_before(f, r, cs), r);
}

} // verus!
