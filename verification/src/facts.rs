//! The fact accumulator and its mathematical views.
//!
//! Relations are multisets kept as append-only sequences: duplicates
//! are permitted and emission order is observable.

use vstd::prelude::*;

verus! {

/// A named region within a type, akin to a lifetime.
pub type Origin = String;

/// An externally visible label of a point in the control-flow graph.
pub type Node = String;

/// The emitted relations, keyed by the node at which they occur.
pub struct Facts {
    pub access_origin: Vec<(Origin, Node)>,
    pub cfg_edge: Vec<(Node, Node)>,
    pub clear_origin: Vec<(Origin, Node)>,
    pub introduce_subset: Vec<(Origin, Origin, Node)>,
    pub invalidate_origin: Vec<(Origin, Node)>,
    pub node_text: Vec<(String, Node)>,
}

/// A node named by position: the enclosing block's name and the
/// statement index within it. Concrete labels are derived from this
/// by a naming scheme.
#[verifier::ext_equal]
pub ghost struct NodeKey {
    pub block: Seq<char>,
    pub idx: int,
}

/// The mathematical value of an emitted fact set, with nodes kept as
/// positions rather than rendered labels.
#[verifier::ext_equal]
pub ghost struct AFacts {
    pub access_origin: Seq<(Seq<char>, NodeKey)>,
    pub cfg_edge: Seq<(NodeKey, NodeKey)>,
    pub clear_origin: Seq<(Seq<char>, NodeKey)>,
    pub introduce_subset: Seq<(Seq<char>, Seq<char>, NodeKey)>,
    pub invalidate_origin: Seq<(Seq<char>, NodeKey)>,
    pub node_text: Seq<(Seq<char>, NodeKey)>,
}

impl AFacts {
    /// No facts.
    pub open spec fn empty() -> AFacts {
        AFacts {
            access_origin: Seq::empty(),
            cfg_edge: Seq::empty(),
            clear_origin: Seq::empty(),
            introduce_subset: Seq::empty(),
            invalidate_origin: Seq::empty(),
            node_text: Seq::empty(),
        }
    }

    /// The facts of `self` followed, relation by relation, by those
    /// of `other`.
    pub open spec fn add(self, other: AFacts) -> AFacts {
        AFacts {
            access_origin: self.access_origin + other.access_origin,
            cfg_edge: self.cfg_edge + other.cfg_edge,
            clear_origin: self.clear_origin + other.clear_origin,
            introduce_subset: self.introduce_subset + other.introduce_subset,
            invalidate_origin: self.invalidate_origin + other.invalidate_origin,
            node_text: self.node_text + other.node_text,
        }
    }
}

pub broadcast proof fn lemma_afacts_add_empty(a: AFacts)
    ensures
        #[trigger] a.add(AFacts::empty()) == a,
        #[trigger] AFacts::empty().add(a) == a,
{
    assert(a.add(AFacts::empty()) =~~= a);
    assert(AFacts::empty().add(a) =~~= a);
}

pub broadcast proof fn lemma_afacts_add_assoc(a: AFacts, b: AFacts, c: AFacts)
    ensures
        #[trigger] a.add(b).add(c) == a.add(b.add(c)),
{
    assert(a.add(b).add(c) =~~= a.add(b.add(c)));
}

/// The mathematical value of an emitted fact set with rendered node
/// labels, as the accumulator stores it.
#[verifier::ext_equal]
pub ghost struct FactsView {
    pub access_origin: Seq<(Seq<char>, Seq<char>)>,
    pub cfg_edge: Seq<(Seq<char>, Seq<char>)>,
    pub clear_origin: Seq<(Seq<char>, Seq<char>)>,
    pub introduce_subset: Seq<(Seq<char>, Seq<char>, Seq<char>)>,
    pub invalidate_origin: Seq<(Seq<char>, Seq<char>)>,
    pub node_text: Seq<(Seq<char>, Seq<char>)>,
}

impl FactsView {
    /// The facts of `self` followed, relation by relation, by those
    /// of `other`.
    pub open spec fn add_view(self, other: FactsView) -> FactsView {
        FactsView {
            access_origin: self.access_origin + other.access_origin,
            cfg_edge: self.cfg_edge + other.cfg_edge,
            clear_origin: self.clear_origin + other.clear_origin,
            introduce_subset: self.introduce_subset + other.introduce_subset,
            invalidate_origin: self.invalidate_origin + other.invalidate_origin,
            node_text: self.node_text + other.node_text,
        }
    }
}

/// The view of the accumulator's contents.
pub open spec fn facts_view(f: Facts) -> FactsView {
    FactsView {
        access_origin: f.access_origin@.map_values(|p: (Origin, Node)| (p.0@, p.1@)),
        cfg_edge: f.cfg_edge@.map_values(|p: (Node, Node)| (p.0@, p.1@)),
        clear_origin: f.clear_origin@.map_values(|p: (Origin, Node)| (p.0@, p.1@)),
        introduce_subset: f.introduce_subset@.map_values(
            |p: (Origin, Origin, Node)| (p.0@, p.1@, p.2@),
        ),
        invalidate_origin: f.invalidate_origin@.map_values(|p: (Origin, Node)| (p.0@, p.1@)),
        node_text: f.node_text@.map_values(|p: (String, Node)| (p.0@, p.1@)),
    }
}

impl Facts {
    /// A fresh, empty accumulator.
    pub fn new() -> (r: Facts)
        ensures
            facts_view(r) == empty_view(),
    {
        let r = Facts {
            access_origin: Vec::new(),
            cfg_edge: Vec::new(),
            clear_origin: Vec::new(),
            introduce_subset: Vec::new(),
            invalidate_origin: Vec::new(),
            node_text: Vec::new(),
        };
        proof {
            assert(facts_view(r) =~~= empty_view());
        }
        r
    }
}

/// The empty fact view.
pub open spec fn empty_view() -> FactsView {
    FactsView {
        access_origin: Seq::empty(),
        cfg_edge: Seq::empty(),
        clear_origin: Seq::empty(),
        introduce_subset: Seq::empty(),
        invalidate_origin: Seq::empty(),
        node_text: Seq::empty(),
    }
}

pub broadcast proof fn lemma_add_view_empty(a: FactsView)
    ensures
        #[trigger] a.add_view(empty_view()) == a,
        #[trigger] empty_view().add_view(a) == a,
{
    assert(a.add_view(empty_view()) =~~= a);
    assert(empty_view().add_view(a) =~~= a);
}

pub broadcast proof fn lemma_add_view_assoc(a: FactsView, b: FactsView, c: FactsView)
    ensures
        #[trigger] a.add_view(b).add_view(c) == a.add_view(b.add_view(c)),
{
    assert(a.add_view(b).add_view(c) =~~= a.add_view(b.add_view(c)));
}

/// One `access_origin` fact.
pub open spec fn view_access(o: Seq<char>, n: Seq<char>) -> FactsView {
    FactsView { access_origin: seq![(o, n)], ..empty_view() }
}

/// One `clear_origin` fact.
pub open spec fn view_clear(o: Seq<char>, n: Seq<char>) -> FactsView {
    FactsView { clear_origin: seq![(o, n)], ..empty_view() }
}

/// One `invalidate_origin` fact.
pub open spec fn view_invalidate(o: Seq<char>, n: Seq<char>) -> FactsView {
    FactsView { invalidate_origin: seq![(o, n)], ..empty_view() }
}

/// One `introduce_subset` fact.
pub open spec fn view_subset(o1: Seq<char>, o2: Seq<char>, n: Seq<char>) -> FactsView {
    FactsView { introduce_subset: seq![(o1, o2, n)], ..empty_view() }
}

/// One `node_text` fact.
pub open spec fn view_text(t: Seq<char>, n: Seq<char>) -> FactsView {
    FactsView { node_text: seq![(t, n)], ..empty_view() }
}

/// One `cfg_edge` fact.
pub open spec fn view_edge(a: Seq<char>, b: Seq<char>) -> FactsView {
    FactsView { cfg_edge: seq![(a, b)], ..empty_view() }
}

/// Appends one `access_origin` fact.
pub fn push_access(facts: &mut Facts, o: Origin, node: Node)
    ensures
        facts_view(*final(facts)) == facts_view(*old(facts)).add_view(view_access(o@, node@)),
{
    let ghost ov = o@;
    let ghost nv = node@;
    let ghost before = *facts;
    facts.access_origin.push((o, node));
    proof {
        assert(facts_view(*facts).access_origin =~~= facts_view(before).access_origin.push(
            (ov, nv),
        ));
        assert(facts_view(*facts) =~~= facts_view(before).add_view(view_access(ov, nv)));
    }
}

/// Appends one `clear_origin` fact.
pub fn push_clear(facts: &mut Facts, o: Origin, node: Node)
    ensures
        facts_view(*final(facts)) == facts_view(*old(facts)).add_view(view_clear(o@, node@)),
{
    let ghost ov = o@;
    let ghost nv = node@;
    let ghost before = *facts;
    facts.clear_origin.push((o, node));
    proof {
        assert(facts_view(*facts).clear_origin =~~= facts_view(before).clear_origin.push(
            (ov, nv),
        ));
        assert(facts_view(*facts) =~~= facts_view(before).add_view(view_clear(ov, nv)));
    }
}

/// Appends one `invalidate_origin` fact.
pub fn push_invalidate(facts: &mut Facts, o: Origin, node: Node)
    ensures
        facts_view(*final(facts)) == facts_view(*old(facts)).add_view(view_invalidate(o@, node@)),
{
    let ghost ov = o@;
    let ghost nv = node@;
    let ghost before = *facts;
    facts.invalidate_origin.push((o, node));
    proof {
        assert(facts_view(*facts).invalidate_origin =~~= facts_view(
            before,
        ).invalidate_origin.push((ov, nv)));
        assert(facts_view(*facts) =~~= facts_view(before).add_view(view_invalidate(ov, nv)));
    }
}

/// Appends one `introduce_subset` fact.
pub fn push_subset(facts: &mut Facts, o1: Origin, o2: Origin, node: Node)
    ensures
        facts_view(*final(facts)) == facts_view(*old(facts)).add_view(
            view_subset(o1@, o2@, node@),
        ),
{
    let ghost v1 = o1@;
    let ghost v2 = o2@;
    let ghost nv = node@;
    let ghost before = *facts;
    facts.introduce_subset.push((o1, o2, node));
    proof {
        assert(facts_view(*facts).introduce_subset =~~= facts_view(
            before,
        ).introduce_subset.push((v1, v2, nv)));
        assert(facts_view(*facts) =~~= facts_view(before).add_view(view_subset(v1, v2, nv)));
    }
}

/// Appends one `node_text` fact.
pub fn push_text(facts: &mut Facts, t: String, node: Node)
    ensures
        facts_view(*final(facts)) == facts_view(*old(facts)).add_view(view_text(t@, node@)),
{
    let ghost tv = t@;
    let ghost nv = node@;
    let ghost before = *facts;
    facts.node_text.push((t, node));
    proof {
        assert(facts_view(*facts).node_text =~~= facts_view(before).node_text.push((tv, nv)));
        assert(facts_view(*facts) =~~= facts_view(before).add_view(view_text(tv, nv)));
    }
}

/// Appends one `cfg_edge` fact.
pub fn push_edge(facts: &mut Facts, a: Node, b: Node)
    ensures
        facts_view(*final(facts)) == facts_view(*old(facts)).add_view(view_edge(a@, b@)),
{
    let ghost av = a@;
    let ghost bv = b@;
    let ghost before = *facts;
    facts.cfg_edge.push((a, b));
    proof {
        assert(facts_view(*facts).cfg_edge =~~= facts_view(before).cfg_edge.push((av, bv)));
        assert(facts_view(*facts) =~~= facts_view(before).add_view(view_edge(av, bv)));
    }
}

} // verus!
