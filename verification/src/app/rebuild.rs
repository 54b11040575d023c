//! What survives when the scene is built anew.
//!
//! Nodes get new ids, so a scroller or an outside texture is found again by
//! its identity: its name, or its place below the nearest named node.
use vstd::prelude::*;

use crate::node::dirty;
use crate::node::scroll::{jumped, scrollable_ids, scrolls_at};
use crate::node::tree::{
    forest, forest_parent, forest_size, live, live_ids, node_at, strings_equal, with_node, Node,
    NodeTree,
};
use crate::node::{NodeId, ScrollAxis};
use crate::num::{eq2, equals2, zero, Num};

verus! {

/// A name of a node.
#[derive(Clone, Debug)]
pub struct Named {
    pub name: String,
    pub node: NodeId,
}

/// A number in decimal digits.
pub open spec fn decimal(n: nat) -> Seq<char>
    decreases n,
{
    if n < 10 {
        seq![digit(n)]
    } else {
        decimal(n / 10).push(digit(n % 10))
    }
}

pub open spec fn digit(d: nat) -> char {
    if d == 0 {
        '0'
    } else if d == 1 {
        '1'
    } else if d == 2 {
        '2'
    } else if d == 3 {
        '3'
    } else if d == 4 {
        '4'
    } else if d == 5 {
        '5'
    } else if d == 6 {
        '6'
    } else if d == 7 {
        '7'
    } else if d == 8 {
        '8'
    } else {
        '9'
    }
}

fn digit_str(d: usize) -> (r: &'static str)
    requires
        d < 10,
    ensures
        r@ == seq![digit(d as nat)],
{
    proof {
        reveal_strlit("0");
        reveal_strlit("1");
        reveal_strlit("2");
        reveal_strlit("3");
        reveal_strlit("4");
        reveal_strlit("5");
        reveal_strlit("6");
        reveal_strlit("7");
        reveal_strlit("8");
        reveal_strlit("9");
    }
    let r: &'static str = match d {
        0 => "0",
        1 => "1",
        2 => "2",
        3 => "3",
        4 => "4",
        5 => "5",
        6 => "6",
        7 => "7",
        8 => "8",
        _ => "9",
    };
    assert(r@ =~= seq![digit(d as nat)]);
    r
}

fn append_decimal(s: &mut String, n: usize)
    ensures
        final(s)@ == old(s)@ + decimal(n as nat),
    decreases n,
{
    if n < 10 {
        s.append(digit_str(n));
    } else {
        append_decimal(s, n / 10);
        s.append(digit_str(n % 10));
        assert(s@ =~= old(s)@ + decimal(n as nat));
    }
}

/// The first name of a node at or after `i`.
pub open spec fn name_of(names: Seq<Named>, node: NodeId, i: nat) -> Option<Seq<char>>
    decreases names.len() - i,
{
    if i >= names.len() {
        None
    } else if names[i as int].node == node {
        Some(names[i as int].name@)
    } else {
        name_of(names, node, i + 1)
    }
}

/// The identity of a node: its name; else the identity of its parent and its
/// place among the children; a root without a name has its place among the
/// roots.
pub open spec fn identity<N>(
    nodes: Seq<Option<Node<N>>>,
    roots: Seq<NodeId>,
    names: Seq<Named>,
    id: NodeId,
) -> Seq<char>
    decreases id.index,
{
    match name_of(names, id, 0) {
        Some(name) => name,
        None => match node_at(nodes, id).parent {
            Some(p) => if p.index < id.index {
                identity(nodes, roots, names, p) + seq!['/'] + decimal(
                    node_at(nodes, p).children@.index_of(id) as nat,
                )
            } else {
                Seq::empty()
            },
            None => seq!['#', 'r', 'o', 'o', 't'] + decimal(roots.index_of(id) as nat),
        },
    }
}

fn find_name(names: &Vec<Named>, node: NodeId) -> (r: Option<usize>)
    ensures
        match r {
            Some(i) => i < names@.len() && name_of(names@, node, 0) == Some(names@[i as int].name@),
            None => name_of(names@, node, 0) is None,
        },
{
    let mut i: usize = 0;
    while i < names.len()
        invariant
            i <= names@.len(),
            name_of(names@, node, i as nat) == name_of(names@, node, 0),
        decreases names.len() - i,
    {
        if names[i].node == node {
            return Some(i);
        }
        i = i + 1;
    }
    None
}

fn position_in(ids: &Vec<NodeId>, id: NodeId) -> (r: usize)
    requires
        ids@.contains(id),
        ids@.no_duplicates(),
    ensures
        r == ids@.index_of(id),
        r < ids@.len(),
{
    let ghost k = ids@.index_of(id);
    let mut i: usize = 0;
    while i < ids.len()
        invariant
            i <= ids@.len(),
            0 <= k < ids@.len(),
            ids@[k] == id,
            ids@.no_duplicates(),
            forall|j: int| 0 <= j < i ==> ids@[j] != id,
        decreases ids.len() - i,
    {
        if ids[i] == id {
            assert(i == k);
            return i;
        }
        i = i + 1;
    }
    assert(false);
    0
}

/// The identity of a live node.
pub fn scroll_identity<N: Num>(tree: &NodeTree<N>, names: &Vec<Named>, id: NodeId) -> (r: Option<
    String,
>)
    requires
        tree.wf(),
    ensures
        match r {
            Some(s) => live(tree.nodes(), id) && s@ == identity(
                tree.nodes(),
                tree.root_ids(),
                names@,
                id,
            ),
            None => !live(tree.nodes(), id),
        },
    decreases id.index,
{
    let node = match tree.get(id) {
        Some(n) => n,
        None => return None,
    };
    if let Some(i) = find_name(names, id) {
        return Some(names[i].name.clone());
    }
    proof {
        forest_parent(tree.nodes(), tree.root_ids(), id);
    }
    match node.parent {
        Some(p) => {
            let mut s: String = match scroll_identity(tree, names, p) {
                Some(s) => s,
                None => return None,
            };
            let above = match tree.get(p) {
                Some(n) => n,
                None => return None,
            };
            proof {
                forest_parent(tree.nodes(), tree.root_ids(), p);
                reveal_strlit("/");
                assert("/"@ =~= seq!['/']);
            }
            let place: usize = position_in(&above.children, id);
            s.append("/");
            append_decimal(&mut s, place);
            Some(s)
        },
        None => {
            proof {
                let k = tree.root_ids().index_of(id);
                crate::node::tree::forest_root(tree.nodes(), tree.root_ids(), k);
                reveal_strlit("#root");
                assert("#root"@ =~= seq!['#', 'r', 'o', 'o', 't']);
            }
            let place: usize = position_in(tree.roots(), id);
            let mut s: String = "#root".to_owned();
            append_decimal(&mut s, place);
            Some(s)
        },
    }
}

/// Where a scroller was.
#[derive(Clone, Debug)]
pub struct SavedScroll<N> {
    pub key: String,
    pub offset: [N; 2],
}

/// Where a scroller was, by its identity.
pub struct ScrollKey<N> {
    pub key: Seq<char>,
    pub offset: [N; 2],
}

/// How far a node is scrolled.
pub open spec fn offset_at<N: Num>(nodes: Seq<Option<Node<N>>>, id: NodeId) -> [N; 2] {
    if live(nodes, id) && node_at(nodes, id).scroll is Some {
        node_at(nodes, id).scroll->0.current
    } else {
        [zero(), zero()]
    }
}

/// The scrollers among the first `n` of `ids` that are not at their start.
pub open spec fn scrolls_saved<N: Num>(
    nodes: Seq<Option<Node<N>>>,
    roots: Seq<NodeId>,
    names: Seq<Named>,
    ids: Seq<NodeId>,
    n: nat,
) -> Seq<ScrollKey<N>>
    decreases n,
{
    if n == 0 {
        Seq::empty()
    } else {
        let before = scrolls_saved(nodes, roots, names, ids, (n - 1) as nat);
        let off = offset_at(nodes, ids[n - 1]);
        if live(nodes, ids[n - 1]) && !equals2(off, [zero(), zero()]) {
            before.push(
                ScrollKey { key: identity(nodes, roots, names, ids[n - 1]), offset: off },
            )
        } else {
            before
        }
    }
}

/// The saved values are those of the keys.
pub open spec fn saved_as<N>(saved: Seq<SavedScroll<N>>, keys: Seq<ScrollKey<N>>) -> bool {
    &&& saved.len() == keys.len()
    &&& forall|i: int|
        0 <= i < saved.len() ==> (#[trigger] saved[i]).key@ == keys[i].key && saved[i].offset
            == keys[i].offset
}

/// Saves where every scroller is that is not at its start.
pub fn snapshot_scrolls<N: Num>(tree: &NodeTree<N>, names: &Vec<Named>) -> (r: Vec<SavedScroll<N>>)
    requires
        tree.wf(),
    ensures
        ({
            let ids = scrollable_ids(tree.nodes(), tree.nodes().len());
            saved_as(
                r@,
                scrolls_saved(tree.nodes(), tree.root_ids(), names@, ids, ids.len()),
            )
        }),
{
    let ids = tree.scrollables();
    let z: N = N::of_ratio(0, 1);
    let mut out: Vec<SavedScroll<N>> = Vec::new();
    let mut i: usize = 0;
    while i < ids.len()
        invariant
            i <= ids@.len(),
            tree.wf(),
            z == zero::<N>(),
            saved_as(
                out@,
                scrolls_saved(tree.nodes(), tree.root_ids(), names@, ids@, i as nat),
            ),
        decreases ids.len() - i,
    {
        let id: NodeId = ids[i];
        let off: [N; 2] = match tree.get(id) {
            Some(n) => match n.scroll {
                Some(s) => s.current,
                None => [z, z],
            },
            None => [z, z],
        };
        assert(off == offset_at(tree.nodes(), id));
        if !eq2(off, [z, z]) {
            if let Some(key) = scroll_identity(tree, names, id) {
                out.push(SavedScroll { key, offset: off });
            }
        }
        i = i + 1;
    }
    out
}

/// The last saved value before position `n` with this key.
pub open spec fn last_saved<N>(saved: Seq<SavedScroll<N>>, key: Seq<char>, n: nat) -> Option<[N; 2]>
    decreases n,
{
    if n == 0 {
        None
    } else if saved[n - 1].key@ == key {
        Some(saved[n - 1].offset)
    } else {
        last_saved(saved, key, (n - 1) as nat)
    }
}

/// A scroller and where it goes.
#[derive(Copy, Clone, Debug)]
pub struct Restore<N> {
    pub node: NodeId,
    pub offset: [N; 2],
}

/// The scrollers among the first `n` of `ids` that were saved, and where they
/// go.
pub open spec fn scrolls_matched<N: Num>(
    nodes: Seq<Option<Node<N>>>,
    roots: Seq<NodeId>,
    names: Seq<Named>,
    saved: Seq<SavedScroll<N>>,
    ids: Seq<NodeId>,
    n: nat,
) -> Seq<Restore<N>>
    decreases n,
{
    if n == 0 {
        Seq::empty()
    } else {
        let before = scrolls_matched(nodes, roots, names, saved, ids, (n - 1) as nat);
        let id = ids[n - 1];
        let found = last_saved(saved, identity(nodes, roots, names, id), saved.len());
        if live(nodes, id) && found is Some {
            before.push(Restore { node: id, offset: found->0 })
        } else {
            before
        }
    }
}

fn find_saved<N: Num>(saved: &Vec<SavedScroll<N>>, key: &String) -> (r: Option<[N; 2]>)
    ensures
        r == last_saved(saved@, key@, saved@.len()),
{
    let mut i: usize = saved.len();
    while i > 0
        invariant
            i <= saved@.len(),
            last_saved(saved@, key@, i as nat) == last_saved(saved@, key@, saved@.len()),
        decreases i,
    {
        i = i - 1;
        if strings_equal(&saved[i].key, key) {
            return Some(saved[i].offset);
        }
    }
    None
}

/// Finds the scrollers of the new tree that were saved.
pub fn match_scrolls<N: Num>(
    tree: &NodeTree<N>,
    names: &Vec<Named>,
    saved: &Vec<SavedScroll<N>>,
) -> (r: Vec<Restore<N>>)
    requires
        tree.wf(),
    ensures
        ({
            let ids = scrollable_ids(tree.nodes(), tree.nodes().len());
            r@ == scrolls_matched(
                tree.nodes(),
                tree.root_ids(),
                names@,
                saved@,
                ids,
                ids.len(),
            )
        }),
{
    let ids = tree.scrollables();
    let mut out: Vec<Restore<N>> = Vec::new();
    let mut i: usize = 0;
    while i < ids.len()
        invariant
            i <= ids@.len(),
            tree.wf(),
            out@ == scrolls_matched(
                tree.nodes(),
                tree.root_ids(),
                names@,
                saved@,
                ids@,
                i as nat,
            ),
        decreases ids.len() - i,
    {
        let id: NodeId = ids[i];
        if let Some(key) = scroll_identity(tree, names, id) {
            if let Some(offset) = find_saved(saved, &key) {
                out.push(Restore { node: id, offset });
            }
        }
        i = i + 1;
    }
    out
}

/// The nodes after a scroller was put somewhere, as far as its content
/// reaches.
pub open spec fn scroll_restored<N: Num>(nodes: Seq<Option<Node<N>>>, r: Restore<N>) -> Seq<
    Option<Node<N>>,
> {
    let across = with_node(
        nodes,
        r.node,
        jumped(node_at(nodes, r.node), ScrollAxis::X, r.offset[0]),
    );
    with_node(across, r.node, jumped(node_at(across, r.node), ScrollAxis::Y, r.offset[1]))
}

/// The nodes after the first `n` were.
pub open spec fn scrolls_restored<N: Num>(
    nodes: Seq<Option<Node<N>>>,
    restores: Seq<Restore<N>>,
    n: nat,
) -> Seq<Option<Node<N>>>
    decreases n,
{
    if n == 0 {
        nodes
    } else {
        scroll_restored(scrolls_restored(nodes, restores, (n - 1) as nat), restores[n - 1])
    }
}

/// One of the first `n` scrollers is there.
pub open spec fn any_there<N: Num>(
    nodes: Seq<Option<Node<N>>>,
    restores: Seq<Restore<N>>,
    n: nat,
) -> bool {
    exists|k: int| 0 <= k < n && live(nodes, (#[trigger] restores[k]).node)
}

/// Puts scrollers where they were. The result says whether there are any.
pub fn restore_scrolls<N: Num>(tree: &mut NodeTree<N>, restores: &Vec<Restore<N>>) -> (r: bool)
    requires
        old(tree).wf(),
    ensures
        final(tree).wf(),
        final(tree).root_ids() == old(tree).root_ids(),
        final(tree).nodes() == scrolls_restored(
            old(tree).nodes(),
            restores@,
            restores@.len(),
        ),
        r == (restores@.len() > 0),
        final(tree).dirty_mask() == dirty::marked_if(
            old(tree).dirty_mask(),
            any_there(old(tree).nodes(), restores@, restores@.len()),
            dirty::SCROLL,
        ),
{
    let ghost mask = tree.dirty_mask();
    let mut i: usize = 0;
    while i < restores.len()
        invariant
            i <= restores@.len(),
            tree.wf(),
            tree.root_ids() == old(tree).root_ids(),
            tree.nodes() == scrolls_restored(old(tree).nodes(), restores@, i as nat),
            forall|id: NodeId| #[trigger]
                live(tree.nodes(), id) <==> live(old(tree).nodes(), id),
            mask == old(tree).dirty_mask(),
            tree.dirty_mask() == dirty::marked_if(
                mask,
                any_there(old(tree).nodes(), restores@, i as nat),
                dirty::SCROLL,
            ),
        decreases restores.len() - i,
    {
        proof {
            dirty::marks_stick(mask, dirty::SCROLL);
        }
        let r = restores[i];
        let ghost before = tree.nodes();
        tree.set_scroll_immediate(r.node, ScrollAxis::X, r.offset[0]);
        tree.set_scroll_immediate(r.node, ScrollAxis::Y, r.offset[1]);
        assert forall|id: NodeId| #[trigger]
            live(tree.nodes(), id) <==> live(old(tree).nodes(), id) by {
            assert(live(before, id) <==> live(old(tree).nodes(), id));
            assert(live(tree.nodes(), id) <==> live(before, id));
        }
        assert(any_there(old(tree).nodes(), restores@, i as nat + 1) == (any_there(
            old(tree).nodes(),
            restores@,
            i as nat,
        ) || live(old(tree).nodes(), restores@[i as int].node)));
        i = i + 1;
    }
    restores.len() > 0
}

/// A node that shows an outside texture.
#[derive(Clone, Debug)]
pub struct SavedNode {
    pub key: String,
    pub node: NodeId,
}

pub struct NodeKey {
    pub key: Seq<char>,
    pub node: NodeId,
}

/// The nodes among the first `n` of `ids` that show an outside texture.
pub open spec fn externals_saved<N>(
    nodes: Seq<Option<Node<N>>>,
    roots: Seq<NodeId>,
    names: Seq<Named>,
    ids: Seq<NodeId>,
    n: nat,
) -> Seq<NodeKey>
    decreases n,
{
    if n == 0 {
        Seq::empty()
    } else {
        let before = externals_saved(nodes, roots, names, ids, (n - 1) as nat);
        let id = ids[n - 1];
        if live(nodes, id) && node_at(nodes, id).external {
            before.push(NodeKey { key: identity(nodes, roots, names, id), node: id })
        } else {
            before
        }
    }
}

/// Saves the identities of all nodes that show an outside texture.
pub fn snapshot_externals<N: Num>(tree: &NodeTree<N>, names: &Vec<Named>) -> (r: Vec<SavedNode>)
    requires
        tree.wf(),
    ensures
        ({
            let ids = live_ids(tree.nodes(), tree.nodes().len());
            let keys = externals_saved(tree.nodes(), tree.root_ids(), names@, ids, ids.len());
            &&& r@.len() == keys.len()
            &&& forall|i: int|
                0 <= i < r@.len() ==> (#[trigger] r@[i]).key@ == keys[i].key && r@[i].node
                    == keys[i].node
        }),
{
    let ids = tree.iter_ids();
    let mut out: Vec<SavedNode> = Vec::new();
    let mut i: usize = 0;
    while i < ids.len()
        invariant
            i <= ids@.len(),
            tree.wf(),
            ({
                let keys = externals_saved(
                    tree.nodes(),
                    tree.root_ids(),
                    names@,
                    ids@,
                    i as nat,
                );
                &&& out@.len() == keys.len()
                &&& forall|j: int|
                    0 <= j < out@.len() ==> (#[trigger] out@[j]).key@ == keys[j].key && out@[j].node
                        == keys[j].node
            }),
        decreases ids.len() - i,
    {
        let id: NodeId = ids[i];
        let shows: bool = match tree.get(id) {
            Some(n) => n.external,
            None => false,
        };
        if shows {
            if let Some(key) = scroll_identity(tree, names, id) {
                out.push(SavedNode { key, node: id });
            }
        }
        i = i + 1;
    }
    out
}

/// The last saved node before position `n` with this key.
pub open spec fn last_node(saved: Seq<SavedNode>, key: Seq<char>, n: nat) -> Option<NodeId>
    decreases n,
{
    if n == 0 {
        None
    } else if saved[n - 1].key@ == key {
        Some(saved[n - 1].node)
    } else {
        last_node(saved, key, (n - 1) as nat)
    }
}

/// A node before and after the scene was built anew.
#[derive(Copy, Clone, Debug, PartialEq, Eq, Structural)]
pub struct Moved {
    pub from: NodeId,
    pub to: NodeId,
}

/// The nodes among the first `n` of `ids` that show an outside texture and
/// did so before.
pub open spec fn externals_matched<N>(
    nodes: Seq<Option<Node<N>>>,
    roots: Seq<NodeId>,
    names: Seq<Named>,
    saved: Seq<SavedNode>,
    ids: Seq<NodeId>,
    n: nat,
) -> Seq<Moved>
    decreases n,
{
    if n == 0 {
        Seq::empty()
    } else {
        let before = externals_matched(nodes, roots, names, saved, ids, (n - 1) as nat);
        let id = ids[n - 1];
        let found = last_node(saved, identity(nodes, roots, names, id), saved.len());
        if live(nodes, id) && node_at(nodes, id).external && found is Some {
            before.push(Moved { from: found->0, to: id })
        } else {
            before
        }
    }
}

fn find_node(saved: &Vec<SavedNode>, key: &String) -> (r: Option<NodeId>)
    ensures
        r == last_node(saved@, key@, saved@.len()),
{
    let mut i: usize = saved.len();
    while i > 0
        invariant
            i <= saved@.len(),
            last_node(saved@, key@, i as nat) == last_node(saved@, key@, saved@.len()),
        decreases i,
    {
        i = i - 1;
        if strings_equal(&saved[i].key, key) {
            return Some(saved[i].node);
        }
    }
    None
}

/// Finds the nodes of the new tree that take over an outside texture.
pub fn match_externals<N: Num>(
    tree: &NodeTree<N>,
    names: &Vec<Named>,
    saved: &Vec<SavedNode>,
) -> (r: Vec<Moved>)
    requires
        tree.wf(),
    ensures
        ({
            let ids = live_ids(tree.nodes(), tree.nodes().len());
            r@ == externals_matched(
                tree.nodes(),
                tree.root_ids(),
                names@,
                saved@,
                ids,
                ids.len(),
            )
        }),
{
    let ids = tree.iter_ids();
    let mut out: Vec<Moved> = Vec::new();
    let mut i: usize = 0;
    while i < ids.len()
        invariant
            i <= ids@.len(),
            tree.wf(),
            out@ == externals_matched(
                tree.nodes(),
                tree.root_ids(),
                names@,
                saved@,
                ids@,
                i as nat,
            ),
        decreases ids.len() - i,
    {
        let id: NodeId = ids[i];
        let shows: bool = match tree.get(id) {
            Some(n) => n.external,
            None => false,
        };
        if shows {
            if let Some(key) = scroll_identity(tree, names, id) {
                if let Some(from) = find_node(saved, &key) {
                    out.push(Moved { from, to: id });
                }
            }
        }
        i = i + 1;
    }
    out
}

/// Removes every node, for the scene to be built anew. The result are the
/// ids that are gone.
pub fn clear_tree<N: Num>(tree: &mut NodeTree<N>) -> (r: Vec<NodeId>)
    requires
        old(tree).wf(),
    ensures
        final(tree).wf(),
        final(tree).nodes().len() == old(tree).nodes().len(),
        final(tree).root_ids().len() == 0,
        forall|id: NodeId| !#[trigger] live(final(tree).nodes(), id),
        forall|id: NodeId| #[trigger] r@.contains(id) <==> live(old(tree).nodes(), id),
        final(tree).dirty_mask() == dirty::marked_if(
            old(tree).dirty_mask(),
            r@.len() > 0,
            dirty::TREE,
        ),
{
    let mut roots: Vec<NodeId> = Vec::new();
    let all = tree.roots();
    let mut i: usize = 0;
    while i < all.len()
        invariant
            i <= all@.len(),
            roots@ == all@.take(i as int),
        decreases all.len() - i,
    {
        roots.push(all[i]);
        i = i + 1;
        assert(roots@ =~= all@.take(i as int));
    }
    assert(roots@ =~= tree.root_ids());
    let ghost nodes = tree.nodes();
    let gone = crate::node::prune::remove_all(tree, &roots);
    proof {
        assert forall|id: NodeId| !#[trigger] live(tree.nodes(), id) by {
            if live(tree.nodes(), id) {
                let i = id.index as int;
                assert(crate::node::prune::survives(
                    nodes[i],
                    tree.nodes()[i],
                    crate::node::prune::below_any(nodes, roots@, roots@.len() as int, i),
                    tree.nodes(),
                ));
                every_node_is_below_a_root(nodes, roots@, id);
            }
        }
        if tree.root_ids().len() > 0 {
            crate::node::tree::forest_root(tree.nodes(), tree.root_ids(), 0);
        }
    }
    gone
}

proof fn every_node_is_below_a_root<N>(nodes: Seq<Option<Node<N>>>, roots: Seq<NodeId>, id: NodeId)
    requires
        forest(nodes, roots),
        live(nodes, id),
    ensures
        crate::node::prune::below_any(nodes, roots, roots.len() as int, id.index as int),
    decreases id.index,
{
    forest_parent(nodes, roots, id);
    match node_at(nodes, id).parent {
        Some(p) => {
            every_node_is_below_a_root(nodes, roots, p);
            let k = choose|k: int|
                0 <= k < roots.len() && crate::node::tree::descends(
                    nodes,
                    #[trigger] roots[k],
                    p.index as int,
                );
            assert(crate::node::tree::descends(nodes, roots[k], id.index as int));
        },
        None => {
            let k = roots.index_of(id);
            assert(crate::node::tree::descends(nodes, roots[k], id.index as int));
        },
    }
}

/// A node keeps its identity in a tree that was built the same way: names and
/// structure are all that it depends on.
pub proof fn identity_depends_on_structure<N>(
    nodes: Seq<Option<Node<N>>>,
    others: Seq<Option<Node<N>>>,
    roots: Seq<NodeId>,
    names: Seq<Named>,
    id: NodeId,
)
    requires
        forest(nodes, roots),
        live(nodes, id),
        nodes.len() == others.len(),
        forall|i: NodeId|
            #![trigger live(others, i)]
            live(nodes, i) ==> live(others, i) && node_at(others, i).parent == node_at(
                nodes,
                i,
            ).parent && node_at(others, i).children@ == node_at(nodes, i).children@,
    ensures
        identity(others, roots, names, id) == identity(nodes, roots, names, id),
    decreases id.index,
{
    forest_parent(nodes, roots, id);
    assert(live(others, id));
    if let Some(p) = node_at(nodes, id).parent {
        assert(live(others, p));
        identity_depends_on_structure(nodes, others, roots, names, p);
    }
}

/// The ids of scrollers are those of nodes that scroll, each once.
proof fn scrollables_are_distinct<N>(nodes: Seq<Option<Node<N>>>, n: nat)
    requires
        n <= nodes.len() <= u32::MAX,
    ensures
        scrollable_ids(nodes, n).no_duplicates(),
        forall|id: NodeId| #[trigger]
            scrollable_ids(nodes, n).contains(id) <==> id.index < n && scrolls_at(nodes, id),
    decreases n,
{
    if n > 0 {
        let before = scrollable_ids(nodes, (n - 1) as nat);
        let all = scrollable_ids(nodes, n);
        let last = NodeId { index: (n - 1) as u32 };
        scrollables_are_distinct(nodes, (n - 1) as nat);
        if scrolls_at(nodes, last) {
            assert(all == before.push(last));
            assert(!before.contains(last));
            assert forall|id: NodeId| #[trigger] all.contains(id) <==> before.contains(id) || id
                == last by {
                if before.contains(id) {
                    let k = choose|k: int| 0 <= k < before.len() && before[k] == id;
                    assert(all[k] == id);
                }
                if id == last {
                    assert(all[before.len() as int] == id);
                }
                if all.contains(id) && id != last {
                    let k = choose|k: int| 0 <= k < all.len() && all[k] == id;
                    assert(before[k] == id);
                }
            }
            assert forall|a: int, b: int|
                0 <= a < all.len() && 0 <= b < all.len() && a != b implies all[a] != all[b] by {
                if a < before.len() {
                    assert(before.contains(before[a]));
                }
                if b < before.len() {
                    assert(before.contains(before[b]));
                }
            }
        } else {
            assert(all == before);
        }
    }
}

/// Only one scroller that is not at its start has the identity of `id`.
pub open spec fn stands_alone<N: Num>(
    nodes: Seq<Option<Node<N>>>,
    roots: Seq<NodeId>,
    names: Seq<Named>,
    id: NodeId,
) -> bool {
    forall|o: NodeId|
        scrolls_at(nodes, o) && o != id && !equals2(
            offset_at(nodes, o),
            [zero(), zero()],
        ) ==> #[trigger] identity(nodes, roots, names, o) != identity(nodes, roots, names, id)
}

/// The saved place of a scroller that stands alone is found.
proof fn saved_place_is_found<N: Num>(
    nodes: Seq<Option<Node<N>>>,
    roots: Seq<NodeId>,
    names: Seq<Named>,
    ids: Seq<NodeId>,
    keys: Seq<ScrollKey<N>>,
    saved: Seq<SavedScroll<N>>,
    id: NodeId,
    n: nat,
)
    requires
        n <= ids.len(),
        forall|k: int| 0 <= k < ids.len() ==> scrolls_at(nodes, #[trigger] ids[k]),
        !equals2(offset_at(nodes, id), [zero(), zero()]),
        stands_alone(nodes, roots, names, id),
        scrolls_saved(nodes, roots, names, ids, n).len() <= keys.len(),
        forall|k: int|
            0 <= k < scrolls_saved(nodes, roots, names, ids, n).len() ==> #[trigger] keys[k]
                == scrolls_saved(nodes, roots, names, ids, n)[k],
        saved_as(saved, keys),
    ensures
        last_saved(
            saved,
            identity(nodes, roots, names, id),
            scrolls_saved(nodes, roots, names, ids, n).len(),
        ) == (if ids.take(n as int).contains(id) {
            Some(offset_at(nodes, id))
        } else {
            None
        }),
    decreases n,
{
    let key = identity(nodes, roots, names, id);
    if n == 0 {
        assert(ids.take(0).len() == 0);
    } else {
        let before = scrolls_saved(nodes, roots, names, ids, (n - 1) as nat);
        let all = scrolls_saved(nodes, roots, names, ids, n);
        let x = ids[n - 1];
        assert(forall|k: int| 0 <= k < before.len() ==> all[k] == before[k]);
        assert forall|k: int| 0 <= k < before.len() implies #[trigger] keys[k] == before[k] by {
            assert(keys[k] == all[k]);
        }
        saved_place_is_found(nodes, roots, names, ids, keys, saved, id, (n - 1) as nat);
        let short = ids.take(n - 1);
        let long = ids.take(n as int);
        assert(long =~= short.push(x));
        assert(long.contains(id) == (short.contains(id) || x == id)) by {
            if short.contains(id) {
                let k = choose|k: int| 0 <= k < short.len() && short[k] == id;
                assert(long[k] == id);
            }
            assert(long[n - 1] == x);
            if long.contains(id) && x != id {
                let k = choose|k: int| 0 <= k < long.len() && long[k] == id;
                assert(short[k] == id);
            }
        }
        if all.len() > before.len() {
            let k = before.len() as int;
            assert(keys[k] == all[k]);
            assert(saved[k].key@ == keys[k].key);
            assert(all[k].key == identity(nodes, roots, names, x));
            if x != id {
                assert(scrolls_at(nodes, x));
                assert(saved[k].key@ != key);
            }
        }
    }
}

/// Restoring depends only on the scrollers that were restored so far.
proof fn restoring_goes_in_order<N: Num>(
    nodes: Seq<Option<Node<N>>>,
    restores: Seq<Restore<N>>,
    next: Restore<N>,
    n: nat,
)
    requires
        n <= restores.len(),
    ensures
        scrolls_restored(nodes, restores.push(next), n) == scrolls_restored(nodes, restores, n),
    decreases n,
{
    if n > 0 {
        restoring_goes_in_order(nodes, restores, next, (n - 1) as nat);
    }
}

/// A scroller is restored once, and others leave it alone.
proof fn restored_once<N: Num>(
    nodes: Seq<Option<Node<N>>>,
    roots: Seq<NodeId>,
    names: Seq<Named>,
    saved: Seq<SavedScroll<N>>,
    ids: Seq<NodeId>,
    id: NodeId,
    offset: [N; 2],
    n: nat,
)
    requires
        n <= ids.len(),
        ids.no_duplicates(),
        live(nodes, id),
        last_saved(saved, identity(nodes, roots, names, id), saved.len()) == Some(offset),
    ensures
        ({
            let found = scrolls_matched(nodes, roots, names, saved, ids, n);
            let after = scrolls_restored(nodes, found, found.len());
            &&& live(after, id)
            &&& node_at(after, id) == (if ids.take(n as int).contains(id) {
                node_at(scroll_restored(nodes, Restore { node: id, offset }), id)
            } else {
                node_at(nodes, id)
            })
        }),
    decreases n,
{
    if n == 0 {
        assert(ids.take(0).len() == 0);
    } else {
        restored_once(nodes, roots, names, saved, ids, id, offset, (n - 1) as nat);
        let found = scrolls_matched(nodes, roots, names, saved, ids, (n - 1) as nat);
        let x = ids[n - 1];
        let short = ids.take(n - 1);
        let long = ids.take(n as int);
        assert(long =~= short.push(x));
        assert(long.contains(id) == (short.contains(id) || x == id)) by {
            if short.contains(id) {
                let k = choose|k: int| 0 <= k < short.len() && short[k] == id;
                assert(long[k] == id);
            }
            assert(long[n - 1] == x);
            if long.contains(id) && x != id {
                let k = choose|k: int| 0 <= k < long.len() && long[k] == id;
                assert(short[k] == id);
            }
        }
        if x == id && short.contains(id) {
            let k = choose|k: int| 0 <= k < short.len() && short[k] == id;
            assert(ids[k] == ids[n - 1]);
        }
        let place = last_saved(saved, identity(nodes, roots, names, x), saved.len());
        if live(nodes, x) && place is Some {
            let r = Restore { node: x, offset: place->0 };
            restoring_goes_in_order(nodes, found, r, found.len());
            assert(scrolls_matched(nodes, roots, names, saved, ids, n) == found.push(r));
        }
    }
}

/// A scroller keeps its place when the scene is built anew: the scroller of
/// the new scene that has its identity is put where the old one was, as far
/// as the new content reaches. Two scrollers of one identity would contend
/// for the place, so the old one has to stand alone.
pub proof fn scrollers_keep_their_place<N: Num>(
    nodes: Seq<Option<Node<N>>>,
    roots: Seq<NodeId>,
    names: Seq<Named>,
    saved: Seq<SavedScroll<N>>,
    id: NodeId,
    fresh: Seq<Option<Node<N>>>,
    fresh_roots: Seq<NodeId>,
    fresh_names: Seq<Named>,
    again: NodeId,
)
    requires
        forest(nodes, roots),
        forest(fresh, fresh_roots),
        saved_as(
            saved,
            scrolls_saved(
                nodes,
                roots,
                names,
                scrollable_ids(nodes, nodes.len()),
                scrollable_ids(nodes, nodes.len()).len(),
            ),
        ),
        scrolls_at(nodes, id),
        !equals2(offset_at(nodes, id), [zero(), zero()]),
        stands_alone(nodes, roots, names, id),
        scrolls_at(fresh, again),
        identity(fresh, fresh_roots, fresh_names, again) == identity(nodes, roots, names, id),
    ensures
        ({
            let ids = scrollable_ids(fresh, fresh.len());
            let found = scrolls_matched(fresh, fresh_roots, fresh_names, saved, ids, ids.len());
            let after = scrolls_restored(fresh, found, found.len());
            &&& live(after, again)
            &&& node_at(after, again) == node_at(
                scroll_restored(fresh, Restore { node: again, offset: offset_at(nodes, id) }),
                again,
            )
        }),
{
    forest_size(nodes, roots);
    forest_size(fresh, fresh_roots);
    let ids = scrollable_ids(nodes, nodes.len());
    scrollables_are_distinct(nodes, nodes.len());
    assert forall|k: int| 0 <= k < ids.len() implies scrolls_at(nodes, #[trigger] ids[k]) by {
        assert(ids.contains(ids[k]));
    }
    let keys = scrolls_saved(nodes, roots, names, ids, ids.len());
    saved_place_is_found(nodes, roots, names, ids, keys, saved, id, ids.len());
    assert(ids.contains(id));
    assert(ids.take(ids.len() as int) =~= ids);
    let others = scrollable_ids(fresh, fresh.len());
    scrollables_are_distinct(fresh, fresh.len());
    restored_once(
        fresh,
        fresh_roots,
        fresh_names,
        saved,
        others,
        again,
        offset_at(nodes, id),
        others.len(),
    );
    assert(others.contains(again));
    assert(others.take(others.len() as int) =~= others);
}

/// The number that decimal digits stand for.
pub open spec fn read_decimal(s: Seq<char>) -> nat
    decreases s.len(),
{
    if s.len() == 0 {
        0
    } else {
        10 * read_decimal(s.drop_last()) + read_digit(s.last())
    }
}

/// The number that a digit stands for.
pub open spec fn read_digit(c: char) -> nat {
    (c as u32 - '0' as u32) as nat
}

/// Digits read back as the number that they were written for, and two numbers
/// have different digits.
pub proof fn numbers_read_back(n: nat)
    ensures
        read_decimal(decimal(n)) == n,
        decimal(n).len() > 0,
        forall|i: int| 0 <= i < decimal(n).len() ==> '0' <= #[trigger] decimal(n)[i] <= '9',
    decreases n,
{
    reveal_with_fuel(read_decimal, 3);
    if n < 10 {
        assert(decimal(n).drop_last() =~= Seq::<char>::empty());
        assert(decimal(n).last() == digit(n));
    } else {
        numbers_read_back(n / 10);
        assert(decimal(n).drop_last() =~= decimal(n / 10));
        assert(decimal(n).last() == digit(n % 10));
    }
}

/// A name is the identity of its node, wherever the node stands.
pub proof fn names_are_identities<N>(
    nodes: Seq<Option<Node<N>>>,
    roots: Seq<NodeId>,
    names: Seq<Named>,
    k: int,
)
    requires
        0 <= k < names.len(),
        forall|j: int| 0 <= j < k ==> (#[trigger] names[j]).node != names[k].node,
    ensures
        identity(nodes, roots, names, names[k].node) == names[k].name@,
{
    first_name(names, 0, k);
}

proof fn first_name(names: Seq<Named>, i: nat, k: int)
    requires
        i <= k < names.len(),
        forall|j: int| i <= j < k ==> (#[trigger] names[j]).node != names[k].node,
    ensures
        name_of(names, names[k].node, i) == Some(names[k].name@),
    decreases k - i,
{
    if i < k {
        let n = names[i as int];
        first_name(names, i + 1, k);
    }
}

/// Children without a name differ in their identity from their siblings without
/// one: it begins with that of the parent and goes on with their place.
pub proof fn siblings_have_their_own_identity<N>(
    nodes: Seq<Option<Node<N>>>,
    roots: Seq<NodeId>,
    names: Seq<Named>,
    p: NodeId,
    a: int,
    b: int,
)
    requires
        0 <= a < node_at(nodes, p).children@.len(),
        0 <= b < node_at(nodes, p).children@.len(),
        node_at(nodes, p).children@[a] != node_at(nodes, p).children@[b],
        ({
            let (x, y) = (node_at(nodes, p).children@[a], node_at(nodes, p).children@[b]);
            &&& node_at(nodes, x).parent == Some(p) && node_at(nodes, y).parent == Some(p)
            &&& p.index < x.index && p.index < y.index
            &&& name_of(names, x, 0) is None && name_of(names, y, 0) is None
        }),
    ensures
        ({
            let (x, y) = (node_at(nodes, p).children@[a], node_at(nodes, p).children@[b]);
            let above = identity(nodes, roots, names, p);
            &&& identity(nodes, roots, names, x) != identity(nodes, roots, names, y)
            &&& above.len() < identity(nodes, roots, names, x).len()
            &&& identity(nodes, roots, names, x).take(above.len() as int) == above
        }),
{
    let kids = node_at(nodes, p).children@;
    let (x, y) = (kids[a], kids[b]);
    let above = identity(nodes, roots, names, p);
    let head = above + seq!['/'];
    let (i, j) = (kids.index_of(x), kids.index_of(y));
    assert(kids.contains(x) && kids.contains(y));
    assert(kids[i] == x && kids[j] == y && 0 <= i && 0 <= j);
    let (u, v) = (decimal(i as nat), decimal(j as nat));
    numbers_read_back(i as nat);
    numbers_read_back(j as nat);
    let (s, t) = (identity(nodes, roots, names, x), identity(nodes, roots, names, y));
    assert(s == head + u && t == head + v);
    assert(s.skip(head.len() as int) =~= u);
    assert(t.skip(head.len() as int) =~= v);
    assert(s.take(above.len() as int) =~= above);
}

/// In exact numbers, a scroller that is put back is where it was and is going
/// nowhere else, on both axes, as far as its content reaches. No other node
/// moves.
pub proof fn restored_scrollers_are_where_they_were<N: Num>(
    value: spec_fn(N) -> real,
    nodes: Seq<Option<Node<N>>>,
    r: Restore<N>,
    k: int,
)
    requires
        crate::num::computes_exactly(value),
        live(nodes, r.node),
        node_at(nodes, r.node).scroll is Some,
        k == 0 || k == 1,
    ensures
        ({
            let after = scroll_restored(nodes, r);
            let n = node_at(nodes, r.node);
            let s = node_at(after, r.node).scroll->0;
            let max = crate::scrolling::limit(value, n, k);
            let to = value(r.offset[k]);
            &&& 0real <= to <= max ==> value(s.current[k]) == to
            &&& to > max ==> value(s.current[k]) == max
            &&& to < 0real ==> value(s.current[k]) == 0real
            &&& s.target[k] == s.current[k]
            &&& forall|j: int|
                0 <= j < nodes.len() && j != r.node.index ==> #[trigger] after[j] == nodes[j]
        }),
{
    let n = node_at(nodes, r.node);
    let across = jumped(n, ScrollAxis::X, r.offset[0]);
    crate::pointing::dragged_content_is_there_at_once(value, n, ScrollAxis::X, r.offset[0]);
    crate::pointing::dragged_content_is_there_at_once(value, across, ScrollAxis::Y, r.offset[1]);
}

/// What is matched belongs together: the node shows an outside texture, and the
/// one that it takes over from was saved under its identity.
pub proof fn matched_textures_belong_together<N>(
    nodes: Seq<Option<Node<N>>>,
    roots: Seq<NodeId>,
    names: Seq<Named>,
    saved: Seq<SavedNode>,
    ids: Seq<NodeId>,
    n: nat,
    k: int,
)
    requires
        n <= ids.len(),
        0 <= k < externals_matched(nodes, roots, names, saved, ids, n).len(),
    ensures
        ({
            let m = externals_matched(nodes, roots, names, saved, ids, n)[k];
            &&& live(nodes, m.to)
            &&& node_at(nodes, m.to).external
            &&& ids.contains(m.to)
            &&& exists|j: int|
                0 <= j < saved.len() && (#[trigger] saved[j]).node == m.from && saved[j].key@
                    == identity(nodes, roots, names, m.to)
        }),
    decreases n,
{
    let before = externals_matched(nodes, roots, names, saved, ids, (n - 1) as nat);
    if k < before.len() {
        matched_textures_belong_together(nodes, roots, names, saved, ids, (n - 1) as nat, k);
    } else {
        let id = ids[n - 1];
        saved_nodes_are_found(saved, identity(nodes, roots, names, id), saved.len());
        assert(ids.contains(id));
    }
}

proof fn saved_nodes_are_found(saved: Seq<SavedNode>, key: Seq<char>, n: nat)
    requires
        n <= saved.len(),
        last_node(saved, key, n) is Some,
    ensures
        exists|j: int|
            0 <= j < n && (#[trigger] saved[j]).node == last_node(saved, key, n)->0
                && saved[j].key@ == key,
    decreases n,
{
    if saved[n - 1].key@ != key {
        saved_nodes_are_found(saved, key, (n - 1) as nat);
        let j = choose|j: int|
            0 <= j < n - 1 && (#[trigger] saved[j]).node == last_node(
                saved,
                key,
                (n - 1) as nat,
            )->0 && saved[j].key@ == key;
        assert(saved[j].key@ == key);
    } else {
        assert(saved[n - 1].key@ == key);
    }
}

} // verus!
