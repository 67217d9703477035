//! What a graph mutation does to the store, as a model: nodes keyed by label and id, edges
//! keyed by their ends and relation, each with its properties. Every mutation merges what it
//! names and then sets properties, so applying it again changes nothing.
use vstd::prelude::*;

use crate::number::Decimal;
use crate::upload::{EntityKind, GraphMutation};

verus! {

/// A property value held by a node or an edge.
pub enum PropValue {
    Text(Seq<char>),
    Num(Decimal),
}

/// A node's label and id.
pub type NodeKey = (Seq<char>, Seq<char>);

/// An edge's source, relation and target.
pub type EdgeKey = (NodeKey, Seq<char>, NodeKey);

/// The store's contents.
pub struct GraphModel {
    pub nodes: Map<NodeKey, Map<Seq<char>, PropValue>>,
    pub edges: Map<EdgeKey, Map<Seq<char>, PropValue>>,
}

pub open spec fn empty_graph() -> GraphModel {
    GraphModel { nodes: Map::empty(), edges: Map::empty() }
}

/// The node merged: kept with its properties when present, added bare otherwise.
pub open spec fn merge_node(nodes: Map<NodeKey, Map<Seq<char>, PropValue>>, k: NodeKey) -> Map<
    NodeKey,
    Map<Seq<char>, PropValue>,
> {
    if nodes.contains_key(k) {
        nodes
    } else {
        nodes.insert(k, Map::empty())
    }
}

pub open spec fn entity_label(e: EntityKind) -> Seq<char> {
    match e {
        EntityKind::Gene => "Gene"@,
        EntityKind::Pheno => "Pheno"@,
    }
}

pub open spec fn relation(e: EntityKind) -> Seq<char> {
    match e {
        EntityKind::Gene => "IMPACTS"@,
        EntityKind::Pheno => "CONTROLS"@,
    }
}

/// The store after `m` is applied to `g`.
pub open spec fn apply(g: GraphModel, m: GraphMutation) -> GraphModel {
    match m {
        GraphMutation::FactorNode { id, name } => {
            let k = ("Factor"@, id@);
            let merged = merge_node(g.nodes, k);
            GraphModel {
                nodes: merged.insert(k, merged[k].insert("name"@, PropValue::Text(name@))),
                edges: g.edges,
            }
        },
        GraphMutation::EntityEdge { entity, entity_id, factor_id, weight } => {
            let n1 = (entity_label(entity), entity_id@);
            let n2 = ("Factor"@, factor_id@);
            let e = (n1, relation(entity), n2);
            let props = if g.edges.contains_key(e) {
                g.edges[e]
            } else {
                Map::empty()
            };
            GraphModel {
                nodes: merge_node(merge_node(g.nodes, n1), n2),
                edges: g.edges.insert(e, props.insert("weight"@, PropValue::Num(weight))),
            }
        },
    }
}

/// Applying a mutation a second time leaves the store as the first application left it: no
/// node, edge or property is duplicated or changed.
pub proof fn lemma_upsert_idempotent(g: GraphModel, m: GraphMutation)
    ensures
        apply(apply(g, m), m) == apply(g, m),
{
    let once = apply(g, m);
    let twice = apply(once, m);
    match m {
        GraphMutation::FactorNode { id, name } => {
            let k = ("Factor"@, id@);
            assert(once.nodes.contains_key(k));
            assert(merge_node(once.nodes, k) == once.nodes);
            assert(once.nodes[k].insert("name"@, PropValue::Text(name@)) =~= once.nodes[k]);
            assert(twice.nodes =~= once.nodes);
            assert(twice.edges =~= once.edges);
        },
        GraphMutation::EntityEdge { entity, entity_id, factor_id, weight } => {
            let n1 = (entity_label(entity), entity_id@);
            let n2 = ("Factor"@, factor_id@);
            let e = (n1, relation(entity), n2);
            assert(once.nodes.contains_key(n1));
            assert(once.nodes.contains_key(n2));
            assert(merge_node(once.nodes, n1) == once.nodes);
            assert(merge_node(merge_node(once.nodes, n1), n2) == once.nodes);
            assert(once.edges.contains_key(e));
            assert(once.edges[e].insert("weight"@, PropValue::Num(weight)) =~= once.edges[e]);
            assert(twice.edges =~= once.edges);
            assert(twice.nodes =~= once.nodes);
        },
    }
}

/// Against an empty store, submitting a mutation twice gives the store that submitting it
/// once gives.
pub proof fn lemma_upsert_twice_from_empty(m: GraphMutation)
    ensures
        apply(apply(empty_graph(), m), m) == apply(empty_graph(), m),
{
    lemma_upsert_idempotent(empty_graph(), m);
}

/// A property value held in memory.
#[derive(Debug, PartialEq, Eq)]
pub enum Prop {
    Text(String),
    Num(Decimal),
}

pub open spec fn prop_view(p: Prop) -> PropValue {
    match p {
        Prop::Text(s) => PropValue::Text(s@),
        Prop::Num(d) => PropValue::Num(d),
    }
}

/// Properties written in order; a later write of a name replaces an earlier one.
pub open spec fn props_view(ps: Seq<(String, Prop)>) -> Map<Seq<char>, PropValue>
    decreases ps.len(),
{
    if ps.len() == 0 {
        Map::empty()
    } else {
        props_view(ps.drop_last()).insert(ps.last().0@, prop_view(ps.last().1))
    }
}

/// One write of a node: its label, id and all its properties after the write.
pub struct NodeEntry {
    pub label: String,
    pub id: String,
    pub props: Vec<(String, Prop)>,
}

/// One write of an edge: its ends, relation and all its properties after the write.
pub struct EdgeEntry {
    pub source: (String, String),
    pub relation: String,
    pub target: (String, String),
    pub props: Vec<(String, Prop)>,
}

pub open spec fn node_key(e: NodeEntry) -> NodeKey {
    (e.label@, e.id@)
}

pub open spec fn edge_key(e: EdgeEntry) -> EdgeKey {
    ((e.source.0@, e.source.1@), e.relation@, (e.target.0@, e.target.1@))
}

/// Node writes in order; the last write of a node holds its state.
pub open spec fn nodes_view(es: Seq<NodeEntry>) -> Map<NodeKey, Map<Seq<char>, PropValue>>
    decreases es.len(),
{
    if es.len() == 0 {
        Map::empty()
    } else {
        nodes_view(es.drop_last()).insert(node_key(es.last()), props_view(es.last().props@))
    }
}

/// Edge writes in order; the last write of an edge holds its state.
pub open spec fn edges_view(es: Seq<EdgeEntry>) -> Map<EdgeKey, Map<Seq<char>, PropValue>>
    decreases es.len(),
{
    if es.len() == 0 {
        Map::empty()
    } else {
        edges_view(es.drop_last()).insert(edge_key(es.last()), props_view(es.last().props@))
    }
}

proof fn lemma_nodes_suffix(es: Seq<NodeEntry>, i: int, k: NodeKey)
    requires
        0 <= i <= es.len(),
        forall|j: int| i <= j < es.len() ==> node_key(#[trigger] es[j]) != k,
    ensures
        nodes_view(es).contains_key(k) == nodes_view(es.take(i)).contains_key(k),
        nodes_view(es)[k] == nodes_view(es.take(i))[k],
    decreases es.len() - i,
{
    if i < es.len() {
        assert(es.drop_last().len() == es.len() - 1);
        assert forall|j: int| i <= j < es.drop_last().len() implies node_key(
            #[trigger] es.drop_last()[j],
        ) != k by {
            assert(es.drop_last()[j] == es[j]);
        }
        lemma_nodes_suffix(es.drop_last(), i, k);
        assert(es.drop_last().take(i) =~= es.take(i));
        assert(node_key(es[es.len() - 1]) != k);
    } else {
        assert(es.take(i) =~= es);
    }
}

proof fn lemma_edges_suffix(es: Seq<EdgeEntry>, i: int, k: EdgeKey)
    requires
        0 <= i <= es.len(),
        forall|j: int| i <= j < es.len() ==> edge_key(#[trigger] es[j]) != k,
    ensures
        edges_view(es).contains_key(k) == edges_view(es.take(i)).contains_key(k),
        edges_view(es)[k] == edges_view(es.take(i))[k],
    decreases es.len() - i,
{
    if i < es.len() {
        assert forall|j: int| i <= j < es.drop_last().len() implies edge_key(
            #[trigger] es.drop_last()[j],
        ) != k by {
            assert(es.drop_last()[j] == es[j]);
        }
        lemma_edges_suffix(es.drop_last(), i, k);
        assert(es.drop_last().take(i) =~= es.take(i));
        assert(edge_key(es[es.len() - 1]) != k);
    } else {
        assert(es.take(i) =~= es);
    }
}

proof fn lemma_props_suffix(ps: Seq<(String, Prop)>, i: int, k: Seq<char>)
    requires
        0 <= i <= ps.len(),
        forall|j: int| i <= j < ps.len() ==> (#[trigger] ps[j]).0@ != k,
    ensures
        props_view(ps).contains_key(k) == props_view(ps.take(i)).contains_key(k),
        props_view(ps)[k] == props_view(ps.take(i))[k],
    decreases ps.len() - i,
{
    if i < ps.len() {
        assert forall|j: int| i <= j < ps.drop_last().len() implies (#[trigger] ps.drop_last()[j]).0@
            != k by {
            assert(ps.drop_last()[j] == ps[j]);
        }
        lemma_props_suffix(ps.drop_last(), i, k);
        assert(ps.drop_last().take(i) =~= ps.take(i));
        assert(ps[ps.len() - 1].0@ != k);
    } else {
        assert(ps.take(i) =~= ps);
    }
}

fn copy_prop(p: &Prop) -> (r: Prop)
    ensures
        prop_view(r) == prop_view(*p),
{
    match p {
        Prop::Text(s) => Prop::Text(s.clone()),
        Prop::Num(d) => Prop::Num(*d),
    }
}

/// The latest value written for `name` among `ps`.
fn lookup_prop(ps: &Vec<(String, Prop)>, name: &String) -> (r: Option<Prop>)
    ensures
        r is None <==> !props_view(ps@).contains_key(name@),
        r matches Some(p) ==> prop_view(p) == props_view(ps@)[name@],
{
    let ghost k = name@;
    let mut i: usize = ps.len();
    while i > 0
        invariant
            i <= ps@.len(),
            k == name@,
            forall|j: int| i <= j < ps@.len() ==> (#[trigger] ps@[j]).0@ != k,
        decreases i,
    {
        if ps[i - 1].0.eq(name) {
            proof {
                lemma_props_suffix(ps@, i as int, k);
                let t = ps@.take(i as int);
                assert(t.drop_last() =~= ps@.take(i - 1));
                assert(t.last() == ps@[i - 1]);
            }
            return Some(copy_prop(&ps[i - 1].1));
        }
        i = i - 1;
    }
    proof {
        lemma_props_suffix(ps@, 0, k);
        assert(ps@.take(0) =~= Seq::<(String, Prop)>::empty());
    }
    None
}

fn copy_props(ps: &Vec<(String, Prop)>) -> (r: Vec<(String, Prop)>)
    ensures
        props_view(r@) == props_view(ps@),
{
    let mut r: Vec<(String, Prop)> = Vec::new();
    let mut i: usize = 0;
    while i < ps.len()
        invariant
            i <= ps@.len(),
            props_view(r@) == props_view(ps@.take(i as int)),
        decreases ps@.len() - i,
    {
        let (name, value) = &ps[i];
        let copy = match value {
            Prop::Text(s) => Prop::Text(s.clone()),
            Prop::Num(d) => Prop::Num(*d),
        };
        let ghost before = r@;
        r.push((name.clone(), copy));
        assert(r@.drop_last() =~= before);
        assert(ps@.take(i + 1).drop_last() =~= ps@.take(i as int));
        i = i + 1;
    }
    assert(ps@.take(ps@.len() as int) =~= ps@);
    r
}

/// A graph store held in memory, written as a log of node and edge states.
pub struct MemoryGraph {
    pub nodes: Vec<NodeEntry>,
    pub edges: Vec<EdgeEntry>,
}

impl MemoryGraph {
    pub open spec fn view(&self) -> GraphModel {
        GraphModel { nodes: nodes_view(self.nodes@), edges: edges_view(self.edges@) }
    }

    pub fn new() -> (r: MemoryGraph)
        ensures
            r.view() == empty_graph(),
    {
        let r = MemoryGraph { nodes: Vec::new(), edges: Vec::new() };
        assert(r.view().nodes =~= Map::<NodeKey, Map<Seq<char>, PropValue>>::empty());
        assert(r.view().edges =~= Map::<EdgeKey, Map<Seq<char>, PropValue>>::empty());
        r
    }

    /// The position of the latest write of node `(label, id)`.
    fn find_node(&self, label: &String, id: &String) -> (r: Option<usize>)
        ensures
            r is None <==> !self.view().nodes.contains_key((label@, id@)),
            r matches Some(i) ==> i < self.nodes@.len() && props_view(self.nodes@[i as int].props@)
                == self.view().nodes[(label@, id@)],
    {
        let ghost k = (label@, id@);
        let mut i: usize = self.nodes.len();
        while i > 0
            invariant
                i <= self.nodes@.len(),
                k == (label@, id@),
                forall|j: int| i <= j < self.nodes@.len() ==> node_key(#[trigger] self.nodes@[j]) != k,
            decreases i,
        {
            let e = &self.nodes[i - 1];
            if e.label.eq(label) && e.id.eq(id) {
                proof {
                    lemma_nodes_suffix(self.nodes@, i as int, k);
                    let t = self.nodes@.take(i as int);
                    assert(t.drop_last() =~= self.nodes@.take(i - 1));
                    assert(t.last() == self.nodes@[i - 1]);
                    assert(node_key(self.nodes@[i - 1]) == k);
                    assert(nodes_view(t) == nodes_view(t.drop_last()).insert(
                        node_key(t.last()),
                        props_view(t.last().props@),
                    ));
                }
                return Some(i - 1);
            }
            i = i - 1;
        }
        proof {
            lemma_nodes_suffix(self.nodes@, 0, k);
            assert(self.nodes@.take(0) =~= Seq::<NodeEntry>::empty());
        }
        None
    }

    /// The position of the latest write of edge `k`.
    fn find_edge(&self, source: &(String, String), relation: &String, target: &(String, String)) -> (r: Option<usize>)
        ensures
            r is None <==> !self.view().edges.contains_key(
                ((source.0@, source.1@), relation@, (target.0@, target.1@)),
            ),
            r matches Some(i) ==> i < self.edges@.len() && props_view(self.edges@[i as int].props@)
                == self.view().edges[((source.0@, source.1@), relation@, (target.0@, target.1@))],
    {
        let ghost k = ((source.0@, source.1@), relation@, (target.0@, target.1@));
        let mut i: usize = self.edges.len();
        while i > 0
            invariant
                i <= self.edges@.len(),
                k == ((source.0@, source.1@), relation@, (target.0@, target.1@)),
                forall|j: int| i <= j < self.edges@.len() ==> edge_key(#[trigger] self.edges@[j]) != k,
            decreases i,
        {
            let e = &self.edges[i - 1];
            if e.source.0.eq(&source.0) && e.source.1.eq(&source.1) && e.relation.eq(relation)
                && e.target.0.eq(&target.0) && e.target.1.eq(&target.1) {
                proof {
                    lemma_edges_suffix(self.edges@, i as int, k);
                    let t = self.edges@.take(i as int);
                    assert(t.drop_last() =~= self.edges@.take(i - 1));
                    assert(t.last() == self.edges@[i - 1]);
                    assert(edge_key(self.edges@[i - 1]) == k);
                    assert(edges_view(t) == edges_view(t.drop_last()).insert(
                        edge_key(t.last()),
                        props_view(t.last().props@),
                    ));
                }
                return Some(i - 1);
            }
            i = i - 1;
        }
        proof {
            lemma_edges_suffix(self.edges@, 0, k);
            assert(self.edges@.take(0) =~= Seq::<EdgeEntry>::empty());
        }
        None
    }

    /// The properties of node `(label, id)`, empty when it is absent.
    fn node_props(&self, label: &String, id: &String) -> (r: Vec<(String, Prop)>)
        ensures
            props_view(r@) == if self.view().nodes.contains_key((label@, id@)) {
                self.view().nodes[(label@, id@)]
            } else {
                Map::empty()
            },
    {
        match self.find_node(label, id) {
            Some(i) => copy_props(&self.nodes[i].props),
            None => {
                let r: Vec<(String, Prop)> = Vec::new();
                assert(props_view(r@) =~= Map::<Seq<char>, PropValue>::empty());
                r
            },
        }
    }

    /// The current value of property `name` of node `(label, id)`, if any.
    pub fn node_property(&self, label: &String, id: &String, name: &String) -> (r: Option<Prop>)
        ensures
            r is Some <==> self.view().nodes.contains_key((label@, id@))
                && self.view().nodes[(label@, id@)].contains_key(name@),
            r matches Some(p) ==> prop_view(p) == self.view().nodes[(label@, id@)][name@],
    {
        match self.find_node(label, id) {
            Some(i) => lookup_prop(&self.nodes[i].props, name),
            None => None,
        }
    }

    /// The current value of property `name` of edge `(source, relation, target)`, if any.
    pub fn edge_property(
        &self,
        source: &(String, String),
        relation: &String,
        target: &(String, String),
        name: &String,
    ) -> (r: Option<Prop>)
        ensures
            ({
                let k = ((source.0@, source.1@), relation@, (target.0@, target.1@));
                &&& r is Some <==> self.view().edges.contains_key(k)
                    && self.view().edges[k].contains_key(name@)
                &&& r matches Some(p) ==> prop_view(p) == self.view().edges[k][name@]
            }),
    {
        match self.find_edge(source, relation, target) {
            Some(i) => lookup_prop(&self.edges[i].props, name),
            None => None,
        }
    }

    /// Adds node `(label, id)` without properties when it is absent.
    fn merge_node(&mut self, label: &String, id: &String)
        ensures
            final(self).view() == (GraphModel {
                nodes: merge_node(old(self).view().nodes, (label@, id@)),
                edges: old(self).view().edges,
            }),
    {
        if self.find_node(label, id).is_none() {
            let props: Vec<(String, Prop)> = Vec::new();
            assert(props_view(props@) =~= Map::<Seq<char>, PropValue>::empty());
            let ghost before = self.nodes@;
            self.nodes.push(NodeEntry { label: label.clone(), id: id.clone(), props });
            assert(self.nodes@.drop_last() =~= before);
        }
    }

    /// Applies one upsert.
    pub fn submit(&mut self, m: &GraphMutation)
        ensures
            final(self).view() == apply(old(self).view(), *m),
    {
        match m {
            GraphMutation::FactorNode { id, name } => {
                let label = String::from_str("Factor");
                let mut props = self.node_props(&label, id);
                let ghost props0 = props@;
                props.push((String::from_str("name"), Prop::Text(name.clone())));
                assert(props@.drop_last() =~= props0);
                let ghost before = self.nodes@;
                self.nodes.push(NodeEntry { label, id: id.clone(), props });
                assert(self.nodes@.drop_last() =~= before);
                proof {
                    let k = ("Factor"@, id@);
                    let merged = merge_node(old(self).view().nodes, k);
                    assert(merged.insert(k, merged[k].insert("name"@, PropValue::Text(name@)))
                        =~= old(self).view().nodes.insert(k, props_view(props0).insert("name"@, PropValue::Text(name@))));
                }
            },
            GraphMutation::EntityEdge { entity, entity_id, factor_id, weight } => {
                let label = match entity {
                    EntityKind::Gene => String::from_str("Gene"),
                    EntityKind::Pheno => String::from_str("Pheno"),
                };
                let relation = match entity {
                    EntityKind::Gene => String::from_str("IMPACTS"),
                    EntityKind::Pheno => String::from_str("CONTROLS"),
                };
                let factor = String::from_str("Factor");
                let source = (label.clone(), entity_id.clone());
                let target = (factor.clone(), factor_id.clone());
                let mut props = match self.find_edge(&source, &relation, &target) {
                    Some(i) => copy_props(&self.edges[i].props),
                    None => {
                        let r: Vec<(String, Prop)> = Vec::new();
                        assert(props_view(r@) =~= Map::<Seq<char>, PropValue>::empty());
                        r
                    },
                };
                let ghost props0 = props@;
                props.push((String::from_str("weight"), Prop::Num(*weight)));
                assert(props@.drop_last() =~= props0);
                self.merge_node(&label, entity_id);
                self.merge_node(&factor, factor_id);
                let ghost before = self.edges@;
                self.edges.push(EdgeEntry { source, relation, target, props });
                assert(self.edges@.drop_last() =~= before);
            },
        }
    }

    /// The number of distinct nodes.
    pub fn node_count(&self) -> (r: usize)
        ensures
            r as nat == self.view().nodes.dom().len(),
    {
        proof {
            lemma_nodes_finite(self.nodes@);
        }
        let mut seen: Vec<(String, String)> = Vec::new();
        let mut i: usize = 0;
        while i < self.nodes.len()
            invariant
                i <= self.nodes@.len(),
                seen@.len() == nodes_view(self.nodes@.take(i as int)).dom().len(),
                seen@.len() <= i,
                forall|k: NodeKey| #[trigger] nodes_view(self.nodes@.take(i as int)).contains_key(k) <==> exists|j: int| 0 <= j < seen@.len() && (seen@[j].0@, seen@[j].1@) == k,
            decreases self.nodes@.len() - i,
        {
            let e = &self.nodes[i];
            let mut found = false;
            let mut j: usize = 0;
            while j < seen.len()
                invariant
                    j <= seen@.len(),
                    found ==> exists|t: int| 0 <= t < seen@.len() && (seen@[t].0@, seen@[t].1@) == (e.label@, e.id@),
                    !found ==> forall|t: int| 0 <= t < j ==> (seen@[t].0@, seen@[t].1@) != (e.label@, e.id@),
                decreases seen@.len() - j,
            {
                if seen[j].0.eq(&e.label) && seen[j].1.eq(&e.id) {
                    found = true;
                }
                j = j + 1;
            }
            let ghost prev = nodes_view(self.nodes@.take(i as int));
            proof {
                lemma_nodes_finite(self.nodes@.take(i as int));
                assert(self.nodes@.take(i + 1).drop_last() =~= self.nodes@.take(i as int));
                assert(self.nodes@.take(i + 1).last() == self.nodes@[i as int]);
            }
            if !found {
                let ghost before = seen@;
                seen.push((e.label.clone(), e.id.clone()));
                proof {
                    assert(!prev.contains_key((e.label@, e.id@)));
                    assert(prev.insert((e.label@, e.id@), props_view(e.props@)).dom() =~= prev.dom().insert((e.label@, e.id@)));
                    assert forall|k: NodeKey| #[trigger] nodes_view(self.nodes@.take(i + 1)).contains_key(k) <==> exists|t: int| 0 <= t < seen@.len() && (seen@[t].0@, seen@[t].1@) == k by {
                        if prev.contains_key(k) {
                            let t = choose|t: int| 0 <= t < before.len() && (before[t].0@, before[t].1@) == k;
                            assert(seen@[t] == before[t]);
                        }
                        if k == (e.label@, e.id@) {
                            assert((seen@[before.len() as int].0@, seen@[before.len() as int].1@) == k);
                        }
                        if exists|t: int| 0 <= t < seen@.len() && (seen@[t].0@, seen@[t].1@) == k {
                            let t = choose|t: int| 0 <= t < seen@.len() && (seen@[t].0@, seen@[t].1@) == k;
                            if t < before.len() {
                                assert(before[t] == seen@[t]);
                            }
                        }
                    }
                }
            } else {
                proof {
                    assert(prev.contains_key((e.label@, e.id@)));
                    assert(prev.insert((e.label@, e.id@), props_view(e.props@)).dom() =~= prev.dom());
                }
            }
            i = i + 1;
        }
        assert(self.nodes@.take(self.nodes@.len() as int) =~= self.nodes@);
        seen.len()
    }
}

impl MemoryGraph {
    /// The number of distinct edges.
    pub fn edge_count(&self) -> (r: usize)
        ensures
            r as nat == self.view().edges.dom().len(),
    {
        proof {
            lemma_edges_finite(self.edges@);
        }
        let mut seen: Vec<((String, String), String, (String, String))> = Vec::new();
        let mut i: usize = 0;
        while i < self.edges.len()
            invariant
                i <= self.edges@.len(),
                seen@.len() == edges_view(self.edges@.take(i as int)).dom().len(),
                seen@.len() <= i,
                forall|k: EdgeKey| #[trigger] edges_view(self.edges@.take(i as int)).contains_key(k) <==> exists|j: int| 0 <= j < seen@.len() && edge_key_of(seen@[j]) == k,
            decreases self.edges@.len() - i,
        {
            let e = &self.edges[i];
            let mut found = false;
            let mut j: usize = 0;
            while j < seen.len()
                invariant
                    j <= seen@.len(),
                    found ==> exists|t: int| 0 <= t < seen@.len() && edge_key_of(seen@[t]) == edge_key(*e),
                    !found ==> forall|t: int| 0 <= t < j ==> edge_key_of(seen@[t]) != edge_key(*e),
                decreases seen@.len() - j,
            {
                if seen[j].0.0.eq(&e.source.0) && seen[j].0.1.eq(&e.source.1) && seen[j].1.eq(&e.relation)
                    && seen[j].2.0.eq(&e.target.0) && seen[j].2.1.eq(&e.target.1) {
                    found = true;
                }
                j = j + 1;
            }
            let ghost prev = edges_view(self.edges@.take(i as int));
            proof {
                lemma_edges_finite(self.edges@.take(i as int));
                assert(self.edges@.take(i + 1).drop_last() =~= self.edges@.take(i as int));
                assert(self.edges@.take(i + 1).last() == self.edges@[i as int]);
            }
            if !found {
                let ghost before = seen@;
                seen.push(((e.source.0.clone(), e.source.1.clone()), e.relation.clone(), (e.target.0.clone(), e.target.1.clone())));
                proof {
                    assert(!prev.contains_key(edge_key(*e)));
                    assert(prev.insert(edge_key(*e), props_view(e.props@)).dom() =~= prev.dom().insert(edge_key(*e)));
                    assert forall|k: EdgeKey| #[trigger] edges_view(self.edges@.take(i + 1)).contains_key(k) <==> exists|t: int| 0 <= t < seen@.len() && edge_key_of(seen@[t]) == k by {
                        if prev.contains_key(k) {
                            let t = choose|t: int| 0 <= t < before.len() && edge_key_of(before[t]) == k;
                            assert(seen@[t] == before[t]);
                        }
                        if k == edge_key(*e) {
                            assert(edge_key_of(seen@[before.len() as int]) == k);
                        }
                        if exists|t: int| 0 <= t < seen@.len() && edge_key_of(seen@[t]) == k {
                            let t = choose|t: int| 0 <= t < seen@.len() && edge_key_of(seen@[t]) == k;
                            if t < before.len() {
                                assert(before[t] == seen@[t]);
                            }
                        }
                    }
                }
            } else {
                proof {
                    assert(prev.contains_key(edge_key(*e)));
                    assert(prev.insert(edge_key(*e), props_view(e.props@)).dom() =~= prev.dom());
                }
            }
            i = i + 1;
        }
        assert(self.edges@.take(self.edges@.len() as int) =~= self.edges@);
        seen.len()
    }
}

pub open spec fn edge_key_of(k: ((String, String), String, (String, String))) -> EdgeKey {
    ((k.0.0@, k.0.1@), k.1@, (k.2.0@, k.2.1@))
}

proof fn lemma_edges_finite(es: Seq<EdgeEntry>)
    ensures
        edges_view(es).dom().finite(),
    decreases es.len(),
{
    if es.len() > 0 {
        lemma_edges_finite(es.drop_last());
    }
}

proof fn lemma_nodes_finite(es: Seq<NodeEntry>)
    ensures
        nodes_view(es).dom().finite(),
    decreases es.len(),
{
    if es.len() > 0 {
        lemma_nodes_finite(es.drop_last());
    }
}

} // verus!
