//! From links and joints that refer to each other by name to an ordered
//! forest over dense link identifiers.

use vstd::prelude::*;
use crate::description::link_names;
use crate::description::JointDescriptor;
use crate::description::LinkDescriptor;
use crate::error::Error;
use crate::index::distinct;
use crate::index::holds;
use crate::index::NameIndex;

verus! {

/// A joint with both its links resolved: an edge from parent to child.
#[derive(Clone, Copy, Debug, PartialEq, Eq, Structural)]
pub struct Edge {
    pub parent: usize,
    pub child: usize,
}

/// Place `j` holds the first name that an earlier place holds too.
pub open spec fn first_repeat(names: Seq<Seq<char>>, j: int) -> bool {
    &&& 0 <= j < names.len()
    &&& distinct(names.take(j))
    &&& holds(names.take(j), names[j])
}

/// Both links that the joint names exist.
pub open spec fn resolves(names: Seq<Seq<char>>, joint: JointDescriptor) -> bool {
    holds(names, joint.parent@) && holds(names, joint.child@)
}

/// Every joint names links that exist.
pub open spec fn all_resolve(names: Seq<Seq<char>>, joints: Seq<JointDescriptor>) -> bool {
    forall|k: int| 0 <= k < joints.len() ==> resolves(names, #[trigger] joints[k])
}

/// Joint `k` is the first that names a link that does not exist.
pub open spec fn first_dangling(names: Seq<Seq<char>>, joints: Seq<JointDescriptor>, k: int)
    -> bool {
    &&& 0 <= k < joints.len()
    &&& !resolves(names, joints[k])
    &&& all_resolve(names, joints.take(k))
}

/// The name that a dangling joint is reported with: its parent where that
/// does not exist, else its child.
pub open spec fn missing_name(names: Seq<Seq<char>>, joint: JointDescriptor) -> Seq<char> {
    if !holds(names, joint.parent@) {
        joint.parent@
    } else {
        joint.child@
    }
}

/// No link is the child of two joints.
pub open spec fn single_parent(joints: Seq<JointDescriptor>) -> bool {
    forall|a: int, b: int|
        0 <= a < b < joints.len() ==> (#[trigger] joints[a]).child@ != (#[trigger] joints[b]).child@
}

/// Joint `b` is the first whose child is the child of an earlier joint.
pub open spec fn first_second_parent(joints: Seq<JointDescriptor>, b: int) -> bool {
    &&& 0 <= b < joints.len()
    &&& single_parent(joints.take(b))
    &&& exists|a: int| 0 <= a < b && (#[trigger] joints[a]).child@ == joints[b].child@
}

/// The joints `path[0]`, `path[1]`, ... lead from parent to child and
/// back to where they started: the child of each is the parent of the next,
/// and the child of the last is the parent of the first.
pub open spec fn is_cycle(joints: Seq<JointDescriptor>, path: Seq<int>) -> bool {
    &&& path.len() > 0
    &&& forall|i: int| 0 <= i < path.len() ==> 0 <= #[trigger] path[i] < joints.len()
    &&& forall|i: int, j: int|
        0 <= i && j == i + 1 && j < path.len() ==> joints[#[trigger] path[i]].child@
            == joints[#[trigger] path[j]].parent@
    &&& joints[path[path.len() - 1]].child@ == joints[path[0]].parent@
}

/// Some joints close a cycle.
pub open spec fn cyclic(joints: Seq<JointDescriptor>) -> bool {
    exists|path: Seq<int>| is_cycle(joints, path)
}

/// What is to be said of a description: the first of the four faults that
/// it has, or that it has none.
pub enum Verdict {
    Duplicate,
    Dangling,
    SecondParent,
    Cyclic,
    Valid,
}

/// The verdict on links with these names and these joints. The faults are
/// looked for in a fixed order: a repeated link name, then a joint that
/// names no link, then a link with two parents, then a cycle.
pub open spec fn verdict(names: Seq<Seq<char>>, joints: Seq<JointDescriptor>) -> Verdict {
    if !distinct(names) {
        Verdict::Duplicate
    } else if !all_resolve(names, joints) {
        Verdict::Dangling
    } else if !single_parent(joints) {
        Verdict::SecondParent
    } else if cyclic(joints) {
        Verdict::Cyclic
    } else {
        Verdict::Valid
    }
}

/// The error that a description with a fault is refused with: that of its
/// verdict, with the name or names that the verdict's first fault gives.
pub open spec fn refusal(names: Seq<Seq<char>>, joints: Seq<JointDescriptor>, e: Error) -> bool {
    match verdict(names, joints) {
        Verdict::Duplicate => e matches Error::DuplicateLink(n) && exists|j: int|
            #[trigger] first_repeat(names, j) && n@ == names[j],
        Verdict::Dangling => e matches Error::UnknownLinkReference { joint, link } && exists|k: int|
            #[trigger] first_dangling(names, joints, k) && joint@ == joints[k].name@ && link@
                == missing_name(names, joints[k]),
        Verdict::SecondParent => e matches Error::MultipleParents(n) && exists|b: int|
            #[trigger] first_second_parent(joints, b) && n@ == joints[b].child@,
        Verdict::Cyclic => e matches Error::CyclicKinematics,
        Verdict::Valid => false,
    }
}

/// The edges are the joints, resolved against the names.
pub open spec fn edges_resolve(
    names: Seq<Seq<char>>,
    joints: Seq<JointDescriptor>,
    edges: Seq<Edge>,
) -> bool {
    &&& edges.len() == joints.len()
    &&& forall|k: int|
        0 <= k < edges.len() ==> {
            &&& (#[trigger] edges[k]).parent < names.len()
            &&& edges[k].child < names.len()
            &&& names[edges[k].parent as int] == joints[k].parent@
            &&& names[edges[k].child as int] == joints[k].child@
        }
}

/// `parent_joint` gives for each link the one edge that ends in it.
pub open spec fn parents_of(edges: Seq<Edge>, parent_joint: Seq<Option<usize>>) -> bool {
    &&& forall|k: int|
        0 <= k < edges.len() ==> (#[trigger] edges[k]).child < parent_joint.len() && (
        parent_joint[edges[k].child as int] matches Some(q) && q == k)
    &&& forall|c: int|
        0 <= c < parent_joint.len() ==> match #[trigger] parent_joint[c] {
            Some(k) => k < edges.len() && edges[k as int].child == c,
            None => true,
        }
}

/// Gives each link its identifier, and finds the first repeated name.
fn index_links(links: &Vec<LinkDescriptor>) -> (r: Result<NameIndex, Error>)
    ensures
        match r {
            Ok(index) => index.wf() && index@ == link_names(links@) && distinct(
                link_names(links@),
            ),
            Err(e) => e matches Error::DuplicateLink(n) && exists|j: int|
                #[trigger] first_repeat(link_names(links@), j) && n@ == link_names(links@)[j],
        },
{
    let ghost names = link_names(links@);
    let mut index = NameIndex::new();
    let mut i: usize = 0;
    assert(index@ =~= names.take(0));
    while i < links.len()
        invariant
            i <= links.len(),
            names == link_names(links@),
            index.wf(),
            index@ == names.take(i as int),
        decreases links.len() - i,
    {
        let name = links[i].name.clone();
        proof {
            index.lemma_distinct();
        }
        match index.insert(name) {
            Ok(_) => {
                assert(index@ =~= names.take(i + 1));
            },
            Err(_) => {
                assert(first_repeat(names, i as int));
                return Err(Error::DuplicateLink(links[i].name.clone()));
            },
        }
        i += 1;
    }
    assert(names.take(i as int) =~= names);
    proof {
        index.lemma_distinct();
    }
    Ok(index)
}

/// Resolves each joint's two names, and finds the first joint that names a
/// link that does not exist.
fn resolve_joints(index: &NameIndex, joints: &Vec<JointDescriptor>) -> (r: Result<Vec<Edge>, Error>)
    requires
        index.wf(),
    ensures
        match r {
            Ok(edges) => edges_resolve(index@, joints@, edges@),
            Err(e) => e matches Error::UnknownLinkReference { joint, link } && exists|k: int|
                #[trigger] first_dangling(index@, joints@, k) && joint@ == joints@[k].name@ && link@
                    == missing_name(index@, joints@[k]),
        },
{
    let mut edges: Vec<Edge> = Vec::new();
    let mut k: usize = 0;
    while k < joints.len()
        invariant
            k <= joints.len(),
            index.wf(),
            edges_resolve(index@, joints@.take(k as int), edges@),
        decreases joints.len() - k,
    {
        let joint = &joints[k];
        proof {
            assert forall|q: int| 0 <= q < k implies resolves(
                index@,
                #[trigger] joints@.take(k as int)[q],
            ) by {
                let e = edges@[q];
                assert(index@[e.parent as int] == joints@.take(k as int)[q].parent@);
                assert(index@[e.child as int] == joints@.take(k as int)[q].child@);
            }
        }
        let parent = match index.lookup(&joint.parent) {
            Some(id) => id,
            None => {
                assert(first_dangling(index@, joints@, k as int));
                return Err(
                    Error::UnknownLinkReference {
                        joint: joint.name.clone(),
                        link: joint.parent.clone(),
                    },
                );
            },
        };
        let child = match index.lookup(&joint.child) {
            Some(id) => id,
            None => {
                assert(first_dangling(index@, joints@, k as int));
                assert(holds(index@, joint.parent@));
                return Err(
                    Error::UnknownLinkReference {
                        joint: joint.name.clone(),
                        link: joint.child.clone(),
                    },
                );
            },
        };
        edges.push(Edge { parent, child });
        assert(edges_resolve(index@, joints@.take(k + 1), edges@)) by {
            assert forall|q: int| 0 <= q < edges@.len() implies {
                &&& (#[trigger] edges@[q]).parent < index@.len()
                &&& edges@[q].child < index@.len()
                &&& index@[edges@[q].parent as int] == joints@.take(k + 1)[q].parent@
                &&& index@[edges@[q].child as int] == joints@.take(k + 1)[q].child@
            } by {
                if q < k {
                    assert(joints@.take(k as int)[q] == joints@.take(k + 1)[q]);
                }
            }
        }
        k += 1;
    }
    assert(joints@.take(k as int) =~= joints@);
    Ok(edges)
}

/// Two joints have the same child link exactly if their edges end in the
/// same identifier.
proof fn lemma_same_child(
    names: Seq<Seq<char>>,
    joints: Seq<JointDescriptor>,
    edges: Seq<Edge>,
    a: int,
    b: int,
)
    requires
        distinct(names),
        edges_resolve(names, joints, edges),
        0 <= a < joints.len(),
        0 <= b < joints.len(),
    ensures
        joints[a].child@ == joints[b].child@ <==> edges[a].child == edges[b].child,
        joints[a].child@ == joints[b].parent@ <==> edges[a].child == edges[b].parent,
{
    let ea = edges[a];
    let eb = edges[b];
    assert(names[ea.child as int] == joints[a].child@);
    assert(names[eb.child as int] == joints[b].child@);
    assert(names[eb.parent as int] == joints[b].parent@);
}

/// Records for each link the joint that it is the child of, and finds the
/// first joint whose child already has one.
fn assign_parents(index: &NameIndex, joints: &Vec<JointDescriptor>, edges: &Vec<Edge>) -> (r:
    Result<Vec<Option<usize>>, Error>)
    requires
        index.wf(),
        edges_resolve(index@, joints@, edges@),
    ensures
        match r {
            Ok(parent_joint) => parent_joint@.len() == index@.len() && parents_of(
                edges@,
                parent_joint@,
            ) && single_parent(joints@),
            Err(e) => e matches Error::MultipleParents(n) && exists|b: int|
                #[trigger] first_second_parent(joints@, b) && n@ == joints@[b].child@,
        },
{
    let n: usize = index.len();
    let mut parent_joint: Vec<Option<usize>> = Vec::new();
    let mut i: usize = 0;
    while i < n
        invariant
            i <= n,
            parent_joint@.len() == i,
            forall|c: int| 0 <= c < i ==> (#[trigger] parent_joint@[c]).is_none(),
        decreases n - i,
    {
        parent_joint.push(None);
        i += 1;
    }
    proof {
        index.lemma_distinct();
    }
    let mut k: usize = 0;
    while k < edges.len()
        invariant
            k <= edges.len(),
            n == index@.len(),
            distinct(index@),
            edges_resolve(index@, joints@, edges@),
            parent_joint@.len() == n,
            parents_of(edges@.take(k as int), parent_joint@),
            single_parent(joints@.take(k as int)),
        decreases edges.len() - k,
    {
        let child: usize = edges[k].child;
        match parent_joint[child] {
            Some(a) => {
                assert(edges@.take(k as int)[a as int].child == child);
                proof {
                    lemma_same_child(index@, joints@, edges@, a as int, k as int);
                }
                assert(first_second_parent(joints@, k as int));
                return Err(Error::MultipleParents(joints[k].child.clone()));
            },
            None => {},
        }
        let ghost before = parent_joint@;
        parent_joint.set(child, Some(k));
        proof {
            assert forall|q: int| 0 <= q < k + 1 implies (#[trigger] edges@.take(k + 1)[q]).child
                < parent_joint@.len() && (parent_joint@[edges@.take(k + 1)[q].child as int]
                matches Some(w) && w == q) by {
                if q < k {
                    assert(edges@.take(k as int)[q].child != child);
                }
            }
            assert forall|c: int| 0 <= c < parent_joint@.len() implies match #[trigger] parent_joint@[c] {
                Some(q) => q < edges@.take(k + 1).len() && edges@.take(k + 1)[q as int].child == c,
                None => true,
            } by {
                if c != child {
                    assert(parent_joint@[c] == before[c]);
                    match before[c] {
                        Some(q) => {
                            assert(edges@.take(k as int)[q as int].child == c);
                        },
                        None => {},
                    }
                }
            }
            assert forall|a: int, b: int| 0 <= a < b < k + 1 implies (#[trigger] joints@.take(
                k + 1,
            )[a]).child@ != (#[trigger] joints@.take(k + 1)[b]).child@ by {
                if b < k {
                    assert(joints@.take(k as int)[a].child@ != joints@.take(k as int)[b].child@);
                } else {
                    lemma_same_child(index@, joints@, edges@, a, b);
                    assert(edges@.take(k as int)[a].child == edges@[a].child);
                }
            }
        }
        k += 1;
    }
    assert(edges@.take(k as int) =~= edges@);
    assert(joints@.take(k as int) =~= joints@);
    Ok(parent_joint)
}


/// The edges `path[0]`, `path[1]`, ... lead from parent to child and back
/// to where they started.
pub open spec fn edge_cycle(edges: Seq<Edge>, path: Seq<int>) -> bool {
    &&& path.len() > 0
    &&& forall|i: int| 0 <= i < path.len() ==> 0 <= #[trigger] path[i] < edges.len()
    &&& forall|i: int, j: int|
        0 <= i && j == i + 1 && j < path.len() ==> edges[#[trigger] path[i]].child
            == edges[#[trigger] path[j]].parent
    &&& edges[path[path.len() - 1]].child == edges[path[0]].parent
}

/// `rank` gives every link a number above that of its parent.
pub open spec fn ranked(edges: Seq<Edge>, rank: Seq<nat>) -> bool {
    forall|k: int|
        0 <= k < edges.len() ==> {
            &&& (#[trigger] edges[k]).parent < rank.len()
            &&& edges[k].child < rank.len()
            &&& rank[edges[k].parent as int] < rank[edges[k].child as int]
        }
}

/// The edges close no cycle: the links can be numbered so that each has a
/// number above its parent's.
pub open spec fn acyclic(edges: Seq<Edge>, links: nat) -> bool {
    exists|rank: Seq<nat>| rank.len() == links && #[trigger] ranked(edges, rank)
}

/// Along a cycle of ranked edges the rank of the child grows with each
/// step.
proof fn lemma_rank_climbs(edges: Seq<Edge>, rank: Seq<nat>, path: Seq<int>, i: int)
    requires
        ranked(edges, rank),
        edge_cycle(edges, path),
        0 <= i < path.len(),
    ensures
        rank[edges[path[i]].child as int] >= rank[edges[path[0]].child as int] + i,
    decreases i,
{
    if i > 0 {
        lemma_rank_climbs(edges, rank, path, i - 1);
        let a = path[i - 1];
        let b = path[i];
        assert(edges[a].child == edges[b].parent);
        assert(rank[edges[b].parent as int] < rank[edges[b].child as int]);
    }
}

/// Ranked edges close no cycle.
pub proof fn lemma_ranked_has_no_cycle(edges: Seq<Edge>, rank: Seq<nat>, path: Seq<int>)
    requires
        ranked(edges, rank),
    ensures
        !edge_cycle(edges, path),
{
    if edge_cycle(edges, path) {
        let last = path.len() - 1;
        lemma_rank_climbs(edges, rank, path, last);
        let a = path[last];
        let b = path[0];
        assert(edges[a].child == edges[b].parent);
        assert(rank[edges[b].parent as int] < rank[edges[b].child as int]);
    }
}

/// The mark of a link that the search has not reached.
const NEW: u8 = 0;

/// The mark of a link on the way that the search is climbing.
const OPEN: u8 = 1;

/// The mark of a link that the search is done with.
const DONE: u8 = 2;

/// How many links the search has not reached yet.
spec fn unvisited(state: Seq<u8>) -> nat
    decreases state.len(),
{
    if state.len() == 0 {
        0
    } else {
        unvisited(state.drop_last()) + if state.last() == NEW {
            1nat
        } else {
            0nat
        }
    }
}

proof fn lemma_visit_one(state: Seq<u8>, v: int, mark: u8)
    requires
        0 <= v < state.len(),
        state[v] == NEW,
        mark != NEW,
    ensures
        unvisited(state.update(v, mark)) + 1 == unvisited(state),
    decreases state.len(),
{
    if v == state.len() - 1 {
        assert(state.update(v, mark).drop_last() =~= state.drop_last());
    } else {
        lemma_visit_one(state.drop_last(), v, mark);
        assert(state.update(v, mark).drop_last() =~= state.drop_last().update(v, mark));
    }
}

/// The link `v` stands on the way that the search is climbing.
spec fn on_chain(chain: Seq<usize>, v: int) -> bool {
    exists|i: int| 0 <= i < chain.len() && #[trigger] chain[i] == v
}

/// The link `c` has the parent `p`.
spec fn child_of(edges: Seq<Edge>, parent_joint: Seq<Option<usize>>, c: int, p: int) -> bool {
    parent_joint[c] matches Some(k) && edges[k as int].parent == p
}

/// Each link on the way is the child of the next.
spec fn chain_linked(edges: Seq<Edge>, parent_joint: Seq<Option<usize>>, chain: Seq<usize>) -> bool {
    forall|i: int, j: int|
        #![trigger chain[i], chain[j]]
        0 <= i && j == i + 1 && j < chain.len() ==> child_of(
            edges,
            parent_joint,
            chain[i] as int,
            chain[j] as int,
        )
}

/// The links on the way are those marked open, each once.
spec fn chain_open(state: Seq<u8>, chain: Seq<usize>) -> bool {
    &&& forall|i: int|
        0 <= i < chain.len() ==> (#[trigger] chain[i]) < state.len() && state[chain[i] as int]
            == OPEN
    &&& forall|i: int, j: int| 0 <= i < j < chain.len() ==> #[trigger] chain[i] != #[trigger] chain[j]
    &&& forall|v: int| 0 <= v < state.len() && #[trigger] state[v] == OPEN ==> on_chain(chain, v)
}

/// Each link that the search is done with has a parent that it is done
/// with too, of lower rank.
spec fn settled(
    edges: Seq<Edge>,
    parent_joint: Seq<Option<usize>>,
    state: Seq<u8>,
    rank: Seq<nat>,
) -> bool {
    forall|v: int|
        0 <= v < state.len() && #[trigger] state[v] == DONE ==> match parent_joint[v] {
            Some(k) => state[edges[k as int].parent as int] == DONE
                && rank[edges[k as int].parent as int] < rank[v],
            None => true,
        }
}

/// The parent of `v`, if it has one, is a link that the search is done
/// with.
spec fn parent_done(
    edges: Seq<Edge>,
    parent_joint: Seq<Option<usize>>,
    state: Seq<u8>,
    v: int,
) -> bool {
    match parent_joint[v] {
        Some(k) => state[edges[k as int].parent as int] == DONE,
        None => true,
    }
}

/// What holds of the marks, the ranks and the way at every step of the
/// search.
spec fn searching(
    edges: Seq<Edge>,
    parent_joint: Seq<Option<usize>>,
    state: Seq<u8>,
    rank: Seq<nat>,
    chain: Seq<usize>,
) -> bool {
    &&& state.len() == parent_joint.len()
    &&& rank.len() == parent_joint.len()
    &&& parents_of(edges, parent_joint)
    &&& forall|k: int| 0 <= k < edges.len() ==> (#[trigger] edges[k]).parent < parent_joint.len()
    &&& forall|v: int| 0 <= v < state.len() ==> #[trigger] state[v] <= DONE
    &&& chain_open(state, chain)
    &&& chain_linked(edges, parent_joint, chain)
    &&& settled(edges, parent_joint, state, rank)
}

/// The edges of the links on the way from place `j` to the top, taken from
/// the top down, close a cycle if the parent of the top is the link at
/// place `j`.
proof fn lemma_way_closes(
    edges: Seq<Edge>,
    parent_joint: Seq<Option<usize>>,
    chain: Seq<usize>,
    j: int,
)
    requires
        parents_of(edges, parent_joint),
        chain_linked(edges, parent_joint, chain),
        0 <= j < chain.len(),
        forall|i: int| 0 <= i < chain.len() ==> (#[trigger] chain[i]) < parent_joint.len(),
        child_of(edges, parent_joint, chain[chain.len() - 1] as int, chain[j] as int),
    ensures
        exists|path: Seq<int>| edge_cycle(edges, path),
{
    let m = chain.len() - 1;
    let path = Seq::new(
        (m - j + 1) as nat,
        |a: int| parent_joint[chain[m - a] as int].unwrap() as int,
    );
    assert forall|a: int| 0 <= a < path.len() implies 0 <= #[trigger] path[a] < edges.len()
        && edges[path[a]].child == chain[m - a] by {
        let c = chain[m - a];
        if a > 0 {
            assert(child_of(edges, parent_joint, c as int, chain[m - a + 1] as int));
        }
    }
    assert forall|a: int, b: int| 0 <= a && b == a + 1 && b < path.len() implies edges[#[trigger] path[a]].child
        == edges[#[trigger] path[b]].parent by {
        assert(child_of(edges, parent_joint, chain[m - b] as int, chain[m - a] as int));
    }
    assert(edges[path[path.len() - 1]].child == chain[j]);
    assert(edge_cycle(edges, path));
}

/// Climbs from the link `start` from child to parent and marks each link
/// on the way open, until it meets a link without a parent or with a
/// parent that the search is done with, or a link that is open: then the
/// way has closed a cycle.
fn climb(
    edges: &Vec<Edge>,
    parent_joint: &Vec<Option<usize>>,
    state: &mut Vec<u8>,
    chain: &mut Vec<usize>,
    start: usize,
    Ghost(rank): Ghost<Seq<nat>>,
) -> (closed: bool)
    requires
        searching(edges@, parent_joint@, old(state)@, rank, old(chain)@),
        old(chain)@.len() == 0,
        start < old(state)@.len(),
        old(state)@[start as int] == NEW,
    ensures
        closed ==> exists|path: Seq<int>| edge_cycle(edges@, path),
        !closed ==> {
            &&& searching(edges@, parent_joint@, final(state)@, rank, final(chain)@)
            &&& final(chain)@.len() > 0
            &&& parent_done(
                edges@,
                parent_joint@,
                final(state)@,
                final(chain)@[final(chain)@.len() - 1] as int,
            )
            &&& final(state)@[start as int] != NEW
            &&& forall|v: int|
                0 <= v < old(state)@.len() && old(state)@[v] == DONE ==> #[trigger] final(state)@[v]
                    == DONE
        },
{
    let mut cur: usize = start;
    let mut climbing: bool = true;
    while climbing
        invariant
            searching(edges@, parent_joint@, state@, rank, chain@),
            start < state@.len(),
            state@.len() == old(state)@.len(),
            chain@.len() > 0 ==> state@[start as int] != NEW,
            forall|v: int|
                0 <= v < state@.len() && old(state)@[v] == DONE ==> #[trigger] state@[v] == DONE,
            climbing ==> cur < state@.len() && state@[cur as int] == NEW,
            climbing && chain@.len() > 0 ==> child_of(
                edges@,
                parent_joint@,
                chain@[chain@.len() - 1] as int,
                cur as int,
            ),
            climbing && chain@.len() == 0 ==> cur == start,
            !climbing ==> chain@.len() > 0 && parent_done(
                edges@,
                parent_joint@,
                state@,
                chain@[chain@.len() - 1] as int,
            ),
        decreases unvisited(state@),
    {
        let ghost state_before = state@;
        let ghost chain_before = chain@;
        proof {
            lemma_visit_one(state@, cur as int, OPEN);
        }
        state.set(cur, OPEN);
        chain.push(cur);
        let ghost m = chain@.len() - 1;
        proof {
            assert(chain@[m] == cur);
            assert(chain_open(state@, chain@)) by {
                assert forall|a: int| 0 <= a < chain@.len() implies (#[trigger] chain@[a])
                    < state@.len() && state@[chain@[a] as int] == OPEN by {
                    if a < m {
                        assert(chain_before[a] == chain@[a]);
                    }
                }
                assert forall|a: int, b: int| 0 <= a < b < chain@.len() implies #[trigger] chain@[a]
                    != #[trigger] chain@[b] by {
                    assert(chain_before[a] == chain@[a]);
                    if b < m {
                        assert(chain_before[b] == chain@[b]);
                    }
                }
                assert forall|v: int| 0 <= v < state@.len() && #[trigger] state@[v]
                    == OPEN implies on_chain(chain@, v) by {
                    if v == cur {
                        assert(chain@[m] == v);
                    } else {
                        assert(state_before[v] == OPEN);
                        let a = choose|a: int|
                            0 <= a < chain_before.len() && #[trigger] chain_before[a] == v;
                        assert(chain@[a] == v);
                    }
                }
            }
            assert(chain_linked(edges@, parent_joint@, chain@)) by {
                assert forall|a: int, b: int|
                    #![trigger chain@[a], chain@[b]]
                    0 <= a && b == a + 1 && b < chain@.len() implies child_of(
                    edges@,
                    parent_joint@,
                    chain@[a] as int,
                    chain@[b] as int,
                ) by {
                    assert(chain_before[a] == chain@[a]);
                    if b < m {
                        assert(chain_before[b] == chain@[b]);
                    }
                }
            }
            assert(settled(edges@, parent_joint@, state@, rank)) by {
                assert forall|v: int| 0 <= v < state@.len() && #[trigger] state@[v]
                    == DONE implies match parent_joint@[v] {
                    Some(k) => state@[edges@[k as int].parent as int] == DONE
                        && rank[edges@[k as int].parent as int] < rank[v],
                    None => true,
                } by {
                    assert(state_before[v] == DONE);
                }
            }
        }
        match parent_joint[cur] {
            None => {
                climbing = false;
            },
            Some(k) => {
                let parent: usize = edges[k].parent;
                if state[parent] == DONE {
                    climbing = false;
                } else if state[parent] == OPEN {
                    proof {
                        assert(on_chain(chain@, parent as int));
                        let j = choose|j: int| 0 <= j < chain@.len() && #[trigger] chain@[j] == parent;
                        lemma_way_closes(edges@, parent_joint@, chain@, j);
                    }
                    return true;
                } else {
                    cur = parent;
                }
            },
        }
    }
    false
}

/// Takes the links off the way from the top down and marks each done, with
/// a rank above that of its parent.
fn settle(
    edges: &Vec<Edge>,
    parent_joint: &Vec<Option<usize>>,
    state: &mut Vec<u8>,
    chain: &mut Vec<usize>,
    Ghost(rank): Ghost<Seq<nat>>,
) -> (ranked: Ghost<Seq<nat>>)
    requires
        searching(edges@, parent_joint@, old(state)@, rank, old(chain)@),
        old(chain)@.len() > 0,
        parent_done(
            edges@,
            parent_joint@,
            old(state)@,
            old(chain)@[old(chain)@.len() - 1] as int,
        ),
    ensures
        searching(edges@, parent_joint@, final(state)@, ranked@, final(chain)@),
        final(chain)@.len() == 0,
        forall|v: int|
            0 <= v < old(state)@.len() ==> (old(state)@[v] == NEW) == (#[trigger] final(state)@[v]
                == NEW),
        forall|v: int|
            0 <= v < old(state)@.len() && old(state)@[v] == DONE ==> #[trigger] final(state)@[v]
                == DONE,
{
    let ghost mut rank = rank;
    while chain.len() > 0
        invariant
            searching(edges@, parent_joint@, state@, rank, chain@),
            state@.len() == old(state)@.len(),
            chain@.len() > 0 ==> parent_done(
                edges@,
                parent_joint@,
                state@,
                chain@[chain@.len() - 1] as int,
            ),
            forall|v: int|
                0 <= v < state@.len() ==> (old(state)@[v] == NEW) == (#[trigger] state@[v] == NEW),
            forall|v: int|
                0 <= v < state@.len() && old(state)@[v] == DONE ==> #[trigger] state@[v] == DONE,
        decreases chain@.len(),
    {
        let ghost state_before = state@;
        let ghost chain_before = chain@;
        let v: usize = chain.pop().unwrap();
        proof {
            let above: nat = match parent_joint@[v as int] {
                Some(k) => rank[edges@[k as int].parent as int] + 1,
                None => 0,
            };
            rank = rank.update(v as int, above);
        }
        state.set(v, DONE);
        proof {
            let m = chain_before.len() - 1;
            assert(chain_before[m] == v);
            assert(chain_open(state@, chain@)) by {
                assert forall|a: int| 0 <= a < chain@.len() implies (#[trigger] chain@[a])
                    < state@.len() && state@[chain@[a] as int] == OPEN by {
                    assert(chain_before[a] == chain@[a]);
                    assert(chain_before[a] != chain_before[m]);
                }
                assert forall|a: int, b: int| 0 <= a < b < chain@.len() implies #[trigger] chain@[a]
                    != #[trigger] chain@[b] by {
                    assert(chain_before[a] == chain@[a]);
                    assert(chain_before[b] == chain@[b]);
                }
                assert forall|w: int| 0 <= w < state@.len() && #[trigger] state@[w]
                    == OPEN implies on_chain(chain@, w) by {
                    assert(state_before[w] == OPEN);
                    let a = choose|a: int|
                        0 <= a < chain_before.len() && #[trigger] chain_before[a] == w;
                    assert(chain@[a] == w);
                }
            }
            assert(chain_linked(edges@, parent_joint@, chain@)) by {
                assert forall|a: int, b: int|
                    #![trigger chain@[a], chain@[b]]
                    0 <= a && b == a + 1 && b < chain@.len() implies child_of(
                    edges@,
                    parent_joint@,
                    chain@[a] as int,
                    chain@[b] as int,
                ) by {
                    assert(chain_before[a] == chain@[a]);
                    assert(chain_before[b] == chain@[b]);
                }
            }
            assert(settled(edges@, parent_joint@, state@, rank)) by {
                assert forall|w: int| 0 <= w < state@.len() && #[trigger] state@[w]
                    == DONE implies match parent_joint@[w] {
                    Some(k) => state@[edges@[k as int].parent as int] == DONE
                        && rank[edges@[k as int].parent as int] < rank[w],
                    None => true,
                } by {
                    if w != v {
                        assert(state_before[w] == DONE);
                    }
                }
            }
            if chain@.len() > 0 {
                let t = chain@.len() - 1;
                assert(chain_before[t] == chain@[t]);
                assert(child_of(
                    edges@,
                    parent_joint@,
                    chain_before[t] as int,
                    chain_before[t + 1] as int,
                ));
            }
        }
    }
    Ghost(rank)
}

/// Searches the edges for a cycle: climbs from each link that no earlier
/// climb has reached.
fn find_cycle(edges: &Vec<Edge>, parent_joint: &Vec<Option<usize>>) -> (found: bool)
    requires
        parents_of(edges@, parent_joint@),
        forall|k: int| 0 <= k < edges@.len() ==> (#[trigger] edges@[k]).parent < parent_joint@.len(),
    ensures
        found ==> exists|path: Seq<int>| edge_cycle(edges@, path),
        !found ==> acyclic(edges@, parent_joint@.len()),
{
    let n: usize = parent_joint.len();
    let mut state: Vec<u8> = Vec::new();
    let mut i: usize = 0;
    while i < n
        invariant
            i <= n,
            state@.len() == i,
            forall|v: int| 0 <= v < i ==> #[trigger] state@[v] == NEW,
        decreases n - i,
    {
        state.push(NEW);
        i += 1;
    }
    let ghost mut rank: Seq<nat> = Seq::new(n as nat, |v: int| 0nat);
    let mut chain: Vec<usize> = Vec::new();
    let mut start: usize = 0;
    while start < n
        invariant
            start <= n,
            n == parent_joint@.len(),
            searching(edges@, parent_joint@, state@, rank, chain@),
            chain@.len() == 0,
            forall|v: int| 0 <= v < start ==> #[trigger] state@[v] == DONE,
        decreases n - start,
    {
        if state[start] == NEW {
            if climb(edges, parent_joint, &mut state, &mut chain, start, Ghost(rank)) {
                return true;
            }
            let ranked = settle(edges, parent_joint, &mut state, &mut chain, Ghost(rank));
            proof {
                rank = ranked@;
            }
        }
        start += 1;
    }
    proof {
        assert(ranked(edges@, rank)) by {
            assert forall|k: int| 0 <= k < edges@.len() implies {
                &&& (#[trigger] edges@[k]).parent < rank.len()
                &&& edges@[k].child < rank.len()
                &&& rank[edges@[k].parent as int] < rank[edges@[k].child as int]
            } by {
                let c = edges@[k].child;
                assert(parent_joint@[c as int] matches Some(q) && q == k);
                assert(state@[c as int] == DONE);
            }
        }
    }
    false
}

/// The children of the link `p` in the order of the edges.
pub open spec fn children_of(edges: Seq<Edge>, p: int) -> Seq<usize>
    decreases edges.len(),
{
    if edges.len() == 0 {
        Seq::empty()
    } else if edges.last().parent == p {
        children_of(edges.drop_last(), p).push(edges.last().child)
    } else {
        children_of(edges.drop_last(), p)
    }
}

/// `roots` lists the links without a parent, each once, in rising order.
pub open spec fn roots_of(parent_joint: Seq<Option<usize>>, roots: Seq<usize>) -> bool {
    &&& forall|j: int|
        0 <= j < roots.len() ==> (#[trigger] roots[j]) < parent_joint.len()
            && parent_joint[roots[j] as int].is_none()
    &&& forall|i: int, j: int| 0 <= i < j < roots.len() ==> #[trigger] roots[i] < #[trigger] roots[j]
    &&& forall|v: int|
        0 <= v < parent_joint.len() && (#[trigger] parent_joint[v]).is_none() ==> roots.contains(
            v as usize,
        )
}

/// Lists for each link its children, in the order of the edges.
fn link_children(edges: &Vec<Edge>, n: usize) -> (children: Vec<Vec<usize>>)
    requires
        forall|k: int| 0 <= k < edges@.len() ==> (#[trigger] edges@[k]).parent < n,
    ensures
        children@.len() == n,
        forall|p: int| 0 <= p < n ==> (#[trigger] children@[p])@ == children_of(edges@, p),
{
    let mut children: Vec<Vec<usize>> = Vec::new();
    let mut i: usize = 0;
    while i < n
        invariant
            i <= n,
            children@.len() == i,
            forall|p: int| 0 <= p < i ==> (#[trigger] children@[p])@.len() == 0,
        decreases n - i,
    {
        children.push(Vec::new());
        i += 1;
    }
    let mut k: usize = 0;
    while k < edges.len()
        invariant
            k <= edges.len(),
            children@.len() == n,
            forall|q: int| 0 <= q < edges@.len() ==> (#[trigger] edges@[q]).parent < n,
            forall|p: int|
                0 <= p < n ==> (#[trigger] children@[p])@ == children_of(edges@.take(k as int), p),
        decreases edges.len() - k,
    {
        let edge = edges[k];
        let ghost before = children@;
        children[edge.parent].push(edge.child);
        proof {
            let now = edges@.take(k + 1);
            assert(now.drop_last() =~= edges@.take(k as int));
            assert forall|p: int| 0 <= p < n implies (#[trigger] children@[p])@ == children_of(
                now,
                p,
            ) by {
                assert(before[p]@ == children_of(edges@.take(k as int), p));
            }
        }
        k += 1;
    }
    assert(edges@.take(k as int) =~= edges@);
    children
}

/// Lists the links without a parent, in rising order.
fn collect_roots(parent_joint: &Vec<Option<usize>>) -> (roots: Vec<usize>)
    ensures
        roots_of(parent_joint@, roots@),
{
    let mut roots: Vec<usize> = Vec::new();
    let mut v: usize = 0;
    while v < parent_joint.len()
        invariant
            v <= parent_joint.len(),
            forall|j: int|
                0 <= j < roots@.len() ==> (#[trigger] roots@[j]) < v
                    && parent_joint@[roots@[j] as int].is_none(),
            forall|i: int, j: int|
                0 <= i < j < roots@.len() ==> #[trigger] roots@[i] < #[trigger] roots@[j],
            forall|w: int|
                0 <= w < v && (#[trigger] parent_joint@[w]).is_none() ==> roots@.contains(w as usize),
        decreases parent_joint.len() - v,
    {
        if parent_joint[v].is_none() {
            let ghost before = roots@;
            roots.push(v);
            proof {
                assert(roots@[before.len() as int] == v);
                assert forall|w: int|
                    0 <= w < v + 1 && (#[trigger] parent_joint@[w]).is_none() implies roots@.contains(
                    w as usize,
                ) by {
                    if w < v {
                        assert(before.contains(w as usize));
                        let j = choose|j: int| 0 <= j < before.len() && before[j] == w as usize;
                        assert(roots@[j] == w as usize);
                    }
                }
            }
        }
        v += 1;
    }
    roots
}

/// The links and joints of a description as an ordered forest. Links are
/// known by their place in the description, joints too.
#[derive(Clone, Debug)]
pub struct SceneSkeleton {
    /// The names of the links, by identifier.
    pub index: NameIndex,
    /// The joints as edges, by joint.
    pub edges: Vec<Edge>,
    /// For each link the joint that attaches it to its parent.
    pub parent_joint: Vec<Option<usize>>,
    /// For each link its children, in the order of their joints.
    pub children: Vec<Vec<usize>>,
    /// The links without a parent, in the order of the description.
    pub roots: Vec<usize>,
}

impl SceneSkeleton {
    /// The skeleton is a forest: each link is the child of at most one
    /// joint, the joints close no cycle, and the lists of children and of
    /// roots say what the joints say.
    pub open spec fn wf(&self) -> bool {
        &&& self.index.wf()
        &&& self.parent_joint@.len() == self.index@.len()
        &&& self.children@.len() == self.index@.len()
        &&& forall|k: int|
            0 <= k < self.edges@.len() ==> (#[trigger] self.edges@[k]).parent < self.index@.len()
        &&& parents_of(self.edges@, self.parent_joint@)
        &&& forall|p: int|
            0 <= p < self.children@.len() ==> (#[trigger] self.children@[p])@ == children_of(
                self.edges@,
                p,
            )
        &&& roots_of(self.parent_joint@, self.roots@)
        &&& acyclic(self.edges@, self.index@.len())
    }

    /// The skeleton is that of these links and joints: link `i` has the
    /// identifier `i`, and edge `k` is joint `k` with its names resolved.
    pub open spec fn describes(&self, links: Seq<LinkDescriptor>, joints: Seq<JointDescriptor>)
        -> bool {
        &&& self.index@ == link_names(links)
        &&& edges_resolve(link_names(links), joints, self.edges@)
    }

    /// The parent of the link `v`, if it has one.
    pub open spec fn parent(&self, v: int) -> Option<usize> {
        match self.parent_joint@[v] {
            Some(k) => Some(self.edges@[k as int].parent),
            None => None,
        }
    }

    /// The link reached from `v` by going from child to parent `steps`
    /// times, or as often as there is a parent to go to.
    pub open spec fn ancestor(&self, v: int, steps: nat) -> int
        decreases steps,
    {
        if steps == 0 {
            v
        } else {
            match self.parent(self.ancestor(v, (steps - 1) as nat)) {
                Some(p) => p as int,
                None => self.ancestor(v, (steps - 1) as nat),
            }
        }
    }

    /// One step further from `v` is one step from the parent of `v`.
    proof fn lemma_ancestor_shift(&self, v: int, p: usize, steps: nat)
        requires
            self.parent(v) == Some(p),
        ensures
            self.ancestor(v, steps + 1) == self.ancestor(p as int, steps),
        decreases steps,
    {
        assert(self.ancestor(v, 0) == v);
        assert(self.ancestor(p as int, 0) == p);
        if steps > 0 {
            self.lemma_ancestor_shift(v, p, (steps - 1) as nat);
            assert(self.ancestor(v, steps) == self.ancestor(p as int, (steps - 1) as nat));
        }
    }

    proof fn lemma_rooted_by_rank(&self, rank: Seq<nat>, v: int)
        requires
            self.wf(),
            rank.len() == self.index@.len(),
            ranked(self.edges@, rank),
            0 <= v < self.index@.len(),
        ensures
            exists|steps: nat|
                self.roots@.contains(#[trigger] self.ancestor(v, steps) as usize) && 0
                    <= self.ancestor(v, steps) < self.index@.len(),
        decreases rank[v],
    {
        match self.parent_joint@[v] {
            None => {
                assert(self.ancestor(v, 0) == v);
            },
            Some(k) => {
                assert(self.edges@[k as int].child == v);
                let p = self.edges@[k as int].parent;
                self.lemma_rooted_by_rank(rank, p as int);
                let steps = choose|steps: nat|
                    self.roots@.contains(#[trigger] self.ancestor(p as int, steps) as usize) && 0
                        <= self.ancestor(p as int, steps) < self.index@.len();
                self.lemma_ancestor_shift(v, p, steps);
                assert(self.roots@.contains(self.ancestor(v, steps + 1) as usize));
            },
        }
    }

    /// In a forest every link stands in a tree: going from child to parent
    /// often enough leads from any link to a root.
    pub proof fn law_every_link_has_a_root(&self, v: int)
        requires
            self.wf(),
            0 <= v < self.index@.len(),
        ensures
            exists|steps: nat|
                self.roots@.contains(#[trigger] self.ancestor(v, steps) as usize) && 0
                    <= self.ancestor(v, steps) < self.index@.len(),
    {
        let rank = choose|rank: Seq<nat>|
            rank.len() == self.index@.len() && #[trigger] ranked(self.edges@, rank);
        self.lemma_rooted_by_rank(rank, v);
    }

    /// The number of links.
    pub fn node_count(&self) -> (n: usize)
        ensures
            n == self.index@.len(),
    {
        self.index.len()
    }

    /// The number of joints.
    pub fn joint_count(&self) -> (n: usize)
        ensures
            n == self.edges@.len(),
    {
        self.edges.len()
    }

    /// The identifier of the link with this name.
    pub fn id_of(&self, name: &String) -> (r: Option<usize>)
        requires
            self.wf(),
        ensures
            match r {
                Some(id) => id < self.index@.len() && self.index@[id as int] == name@,
                None => !holds(self.index@, name@),
            },
    {
        self.index.lookup(name)
    }

    /// The parent of a link, if it has one.
    pub fn parent_of(&self, id: usize) -> (r: Option<usize>)
        requires
            self.wf(),
            id < self.index@.len(),
        ensures
            r == self.parent(id as int),
            r matches Some(p) ==> p < self.index@.len(),
    {
        match self.parent_joint[id] {
            Some(k) => Some(self.edges[k].parent),
            None => None,
        }
    }

    /// The root of the tree that a link stands in.
    pub fn root_of(&self, id: usize) -> (root: usize)
        requires
            self.wf(),
            id < self.index@.len(),
        ensures
            root < self.index@.len(),
            self.parent(root as int).is_none(),
            self.roots@.contains(root),
            exists|steps: nat| self.ancestor(id as int, steps) == root,
    {
        let ghost rank = choose|rank: Seq<nat>|
            rank.len() == self.index@.len() && #[trigger] ranked(self.edges@, rank);
        let mut cur: usize = id;
        let ghost mut steps: nat = 0;
        loop
            invariant
                self.wf(),
                cur < self.index@.len(),
                rank.len() == self.index@.len(),
                ranked(self.edges@, rank),
                self.ancestor(id as int, steps) == cur,
            decreases rank[cur as int],
        {
            match self.parent_joint[cur] {
                None => {
                    return cur;
                },
                Some(k) => {
                    assert(self.edges@[k as int].child == cur);
                    proof {
                        assert(self.ancestor(id as int, (steps + 1) as nat) == self.edges@[k as int].parent);
                        steps = steps + 1;
                    }
                    cur = self.edges[k].parent;
                },
            }
        }
    }
}

/// Builds the forest of a description.
///
/// The description is refused for the first of these faults that it has:
/// a link name that occurs twice (the error names it at its second
/// occurrence, the first in the order of the links); a joint that names a
/// link that does not exist (the error names the first such joint and the
/// missing link, the parent where both are missing); a link that is the
/// child of two joints (the error names the child of the first joint that
/// repeats one); a cycle. A description without fault always gives a
/// forest, with as many nodes as the description has links.
pub fn build(links: &Vec<LinkDescriptor>, joints: &Vec<JointDescriptor>) -> (r: Result<
    SceneSkeleton,
    Error,
>)
    ensures
        match r {
            Ok(skeleton) => {
                &&& verdict(link_names(links@), joints@) is Valid
                &&& skeleton.wf()
                &&& skeleton.describes(links@, joints@)
                &&& skeleton.index@.len() == links@.len()
                &&& skeleton.edges@.len() == joints@.len()
            },
            Err(e) => refusal(link_names(links@), joints@, e),
        },
{
    let ghost names = link_names(links@);
    let index = match index_links(links) {
        Ok(index) => index,
        Err(e) => {
            proof {
                let j = choose|j: int| #[trigger] first_repeat(names, j);
                let i = choose|i: int| 0 <= i < names.take(j).len() && names.take(j)[i] == names[j];
                assert(names[i] == names[j]);
            }
            return Err(e);
        },
    };
    let edges = match resolve_joints(&index, joints) {
        Ok(edges) => edges,
        Err(e) => {
            proof {
                let k = choose|k: int| #[trigger] first_dangling(names, joints@, k);
                assert(!resolves(names, joints@[k]));
            }
            return Err(e);
        },
    };
    proof {
        assert forall|k: int| 0 <= k < joints@.len() implies resolves(names, #[trigger] joints@[k]) by {
            let e = edges@[k];
            assert(names[e.parent as int] == joints@[k].parent@);
            assert(names[e.child as int] == joints@[k].child@);
        }
    }
    let parent_joint = match assign_parents(&index, joints, &edges) {
        Ok(parent_joint) => parent_joint,
        Err(e) => {
            proof {
                let b = choose|b: int| #[trigger] first_second_parent(joints@, b);
                let a = choose|a: int| 0 <= a < b && (#[trigger] joints@[a]).child@ == joints@[b].child@;
                assert(joints@[a].child@ == joints@[b].child@);
            }
            return Err(e);
        },
    };
    if find_cycle(&edges, &parent_joint) {
        proof {
            let path = choose|path: Seq<int>| edge_cycle(edges@, path);
            assert(is_cycle(joints@, path)) by {
                assert forall|i: int, j: int|
                    0 <= i && j == i + 1 && j < path.len() implies joints@[#[trigger] path[i]].child@
                    == joints@[#[trigger] path[j]].parent@ by {
                    lemma_same_child(names, joints@, edges@, path[i], path[j]);
                }
                lemma_same_child(names, joints@, edges@, path[path.len() - 1], path[0]);
            }
        }
        return Err(Error::CyclicKinematics);
    }
    proof {
        let rank = choose|rank: Seq<nat>|
            rank.len() == parent_joint@.len() && #[trigger] ranked(edges@, rank);
        assert forall|path: Seq<int>| !is_cycle(joints@, path) by {
            if is_cycle(joints@, path) {
                assert(edge_cycle(edges@, path)) by {
                    assert forall|i: int, j: int|
                        0 <= i && j == i + 1 && j < path.len() implies edges@[#[trigger] path[i]].child
                        == edges@[#[trigger] path[j]].parent by {
                        lemma_same_child(names, joints@, edges@, path[i], path[j]);
                    }
                    lemma_same_child(names, joints@, edges@, path[path.len() - 1], path[0]);
                }
                lemma_ranked_has_no_cycle(edges@, rank, path);
            }
        }
    }
    let children = link_children(&edges, index.len());
    let roots = collect_roots(&parent_joint);
    Ok(SceneSkeleton { index, edges, parent_joint, children, roots })
}


/// At most one place holds the first repeated name, so the error of a
/// description with a repeated link name is fixed by the description.
pub proof fn lemma_first_repeat_unique(names: Seq<Seq<char>>, i: int, j: int)
    requires
        first_repeat(names, i),
        first_repeat(names, j),
    ensures
        i == j,
{
    if i < j {
        let a = choose|a: int| 0 <= a < names.take(i).len() && names.take(i)[a] == names[i];
        assert(names.take(j)[a] == names.take(j)[i]);
    } else if j < i {
        let a = choose|a: int| 0 <= a < names.take(j).len() && names.take(j)[a] == names[j];
        assert(names.take(i)[a] == names.take(i)[j]);
    }
}

/// At most one joint is the first dangling one.
pub proof fn lemma_first_dangling_unique(
    names: Seq<Seq<char>>,
    joints: Seq<JointDescriptor>,
    i: int,
    j: int,
)
    requires
        first_dangling(names, joints, i),
        first_dangling(names, joints, j),
    ensures
        i == j,
{
    if i < j {
        assert(joints.take(j)[i] == joints[i]);
    } else if j < i {
        assert(joints.take(i)[j] == joints[j]);
    }
}

/// At most one joint is the first to give a link a second parent.
pub proof fn lemma_first_second_parent_unique(joints: Seq<JointDescriptor>, i: int, j: int)
    requires
        first_second_parent(joints, i),
        first_second_parent(joints, j),
    ensures
        i == j,
{
    if i < j {
        let a = choose|a: int| 0 <= a < i && (#[trigger] joints[a]).child@ == joints[i].child@;
        assert(joints.take(j)[a].child@ == joints.take(j)[i].child@);
    } else if j < i {
        let a = choose|a: int| 0 <= a < j && (#[trigger] joints[a]).child@ == joints[j].child@;
        assert(joints.take(i)[a].child@ == joints.take(i)[j].child@);
    }
}

/// Names that are not distinct have a first repeated one.
proof fn lemma_first_repeat_exists(names: Seq<Seq<char>>, i: int, j: int)
    requires
        0 <= i < j < names.len(),
        names[i] == names[j],
    ensures
        exists|r: int| #[trigger] first_repeat(names, r) && r <= j,
    decreases j,
{
    if distinct(names.take(j)) {
        assert(names.take(j)[i] == names[j]);
        assert(first_repeat(names, j));
    } else {
        let (a, b) = choose|a: int, b: int|
            0 <= a < b < names.take(j).len() && names.take(j)[a] == names.take(j)[b];
        lemma_first_repeat_exists(names, a, b);
    }
}

/// A link name that occurs at two places makes the verdict `Duplicate`,
/// wherever the two places are and whatever the joints say. The name that
/// the error gives stands at one place only, at or before the second of
/// the two.
pub proof fn law_repeated_name_is_duplicate(
    names: Seq<Seq<char>>,
    joints: Seq<JointDescriptor>,
    i: int,
    j: int,
)
    requires
        0 <= i < j < names.len(),
        names[i] == names[j],
    ensures
        verdict(names, joints) is Duplicate,
        exists|r: int|
            #[trigger] first_repeat(names, r) && r <= j && forall|q: int|
                first_repeat(names, q) ==> q == r,
{
    lemma_first_repeat_exists(names, i, j);
    let r = choose|r: int| #[trigger] first_repeat(names, r) && r <= j;
    assert forall|q: int| first_repeat(names, q) implies q == r by {
        lemma_first_repeat_unique(names, q, r);
    }
}

/// Joints of which two have the same child have a first that repeats one.
proof fn lemma_first_second_parent_exists(joints: Seq<JointDescriptor>, a: int, b: int)
    requires
        0 <= a < b < joints.len(),
        joints[a].child@ == joints[b].child@,
    ensures
        exists|r: int| #[trigger] first_second_parent(joints, r) && r <= b,
    decreases b,
{
    if single_parent(joints.take(b)) {
        assert(first_second_parent(joints, b));
    } else {
        let (c, d) = choose|c: int, d: int|
            0 <= c < d < joints.take(b).len() && (#[trigger] joints.take(b)[c]).child@ == (
            #[trigger] joints.take(b)[d]).child@;
        lemma_first_second_parent_exists(joints, c, d);
    }
}

/// Among links with distinct names and joints that all resolve, two joints
/// with the same child make the verdict `SecondParent`, and the error
/// names the child of one joint only, at or before the second of the two.
pub proof fn law_second_parent_is_named(
    names: Seq<Seq<char>>,
    joints: Seq<JointDescriptor>,
    a: int,
    b: int,
)
    requires
        distinct(names),
        all_resolve(names, joints),
        0 <= a < b < joints.len(),
        joints[a].child@ == joints[b].child@,
    ensures
        verdict(names, joints) is SecondParent,
        exists|r: int|
            #[trigger] first_second_parent(joints, r) && r <= b && forall|q: int|
                first_second_parent(joints, q) ==> q == r,
{
    lemma_first_second_parent_exists(joints, a, b);
    let r = choose|r: int| #[trigger] first_second_parent(joints, r) && r <= b;
    assert forall|q: int| first_second_parent(joints, q) implies q == r by {
        lemma_first_second_parent_unique(joints, q, r);
    }
}

/// Among links with distinct names, a joint that names a link that does
/// not exist makes the verdict `Dangling`; and where every joint before it
/// resolves, it is the joint that the error names.
pub proof fn law_dangling_joint_is_named(
    names: Seq<Seq<char>>,
    joints: Seq<JointDescriptor>,
    k: int,
)
    requires
        distinct(names),
        0 <= k < joints.len(),
        !resolves(names, joints[k]),
    ensures
        verdict(names, joints) is Dangling,
        all_resolve(names, joints.take(k)) ==> first_dangling(names, joints, k) && forall|h: int|
            first_dangling(names, joints, h) ==> h == k,
{
    if all_resolve(names, joints.take(k)) {
        assert forall|h: int| first_dangling(names, joints, h) implies h == k by {
            lemma_first_dangling_unique(names, joints, h, k);
        }
    }
}

/// Joints that lead from a link back to it make the verdict `Cyclic`,
/// given that no earlier fault is found: the link names are distinct,
/// every joint resolves, and no link has two parents.
pub proof fn law_closed_path_is_cyclic(
    names: Seq<Seq<char>>,
    joints: Seq<JointDescriptor>,
    path: Seq<int>,
)
    requires
        distinct(names),
        all_resolve(names, joints),
        single_parent(joints),
        is_cycle(joints, path),
    ensures
        verdict(names, joints) is Cyclic,
{
}

/// Three links and three joints that lead from the first link to the
/// second, from the second to the third and from the third back to the
/// first make the verdict `Cyclic`.
pub proof fn law_three_joint_cycle(names: Seq<Seq<char>>, joints: Seq<JointDescriptor>)
    requires
        names.len() == 3,
        distinct(names),
        joints.len() == 3,
        joints[0].parent@ == names[0] && joints[0].child@ == names[1],
        joints[1].parent@ == names[1] && joints[1].child@ == names[2],
        joints[2].parent@ == names[2] && joints[2].child@ == names[0],
    ensures
        verdict(names, joints) is Cyclic,
{
    assert(names[0] != names[1] && names[0] != names[2] && names[1] != names[2]);
    assert(holds(names, names[0]) && holds(names, names[1]) && holds(names, names[2]));
    assert(all_resolve(names, joints));
    assert(single_parent(joints));
    let path = seq![0int, 1int, 2int];
    assert(is_cycle(joints, path));
}

/// A description has no fault exactly if its link names are distinct,
/// every joint resolves, no link has two parents and no joints close a
/// cycle.
pub proof fn law_valid_verdict(names: Seq<Seq<char>>, joints: Seq<JointDescriptor>)
    ensures
        verdict(names, joints) is Valid <==> distinct(names) && all_resolve(names, joints)
            && single_parent(joints) && !cyclic(joints),
{
}

} // verus!
