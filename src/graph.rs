//! Which message types hold which others by value, directly or through a
//! chain of fields.

use vstd::prelude::*;
use crate::descriptor::{FieldType, Label, MessageDescriptor};
use crate::resolve::views;

verus! {

/// The nodes in `s` together with those that one edge leads to from a node in `s`.
pub open spec fn step(e: Seq<(String, String)>, s: Set<Seq<char>>) -> Set<Seq<char>> {
    s.union(Set::new(|x: Seq<char>| exists|i: int| 0 <= i < e.len() && e[i].1@ == x && s.contains(#[trigger] e[i].0@)))
}

/// The nodes that at most `k` edges lead to from `a`.
pub open spec fn reach_set(e: Seq<(String, String)>, a: Seq<char>, k: nat) -> Set<Seq<char>>
    decreases k,
{
    if k == 0 {
        set![a]
    } else {
        step(e, reach_set(e, a, (k - 1) as nat))
    }
}

proof fn lemma_reach_set_grows(e: Seq<(String, String)>, a: Seq<char>, x: Seq<char>, k: nat, m: nat)
    requires
        reach_set(e, a, k).contains(x),
        k <= m,
    ensures
        reach_set(e, a, m).contains(x),
    decreases m - k,
{
    if k < m {
        assert(reach_set(e, a, (k + 1) as nat) == step(e, reach_set(e, a, k)));
        lemma_reach_set_grows(e, a, x, (k + 1) as nat, m);
    }
}

/// A type holds itself, and holds every type that one of its fields has.
pub proof fn lemma_nests_self_and_fields(g: MessageGraph, t: Seq<char>, u: Seq<char>)
    requires
        g.has_node(t),
        g.has_node(u),
    ensures
        g.nests(t, t),
        g.has_edge(t, u) ==> g.nests(t, u),
{
    let e = g.edges@;
    assert(reach_set(e, t, 0).contains(t));
    lemma_reach_set_grows(e, t, t, 0, e.len());
    if g.has_edge(t, u) {
        let k = choose|k: int| 0 <= k < e.len() && e[k].0@ == t && #[trigger] e[k].1@ == u;
        assert(reach_set(e, t, 1) == step(e, reach_set(e, t, 0)));
        assert(reach_set(e, t, 0).contains(e[k].0@));
        assert(reach_set(e, t, 1).contains(u));
        lemma_reach_set_grows(e, t, u, 1, e.len());
    }
}

/// Message types as nodes, and an edge from each message type to the type of
/// each of its non-repeated message fields.
pub struct MessageGraph {
    pub names: Vec<String>,
    pub edges: Vec<(String, String)>,
}

impl MessageGraph {
    /// Whether an edge leads from `a` to `b`.
    pub open spec fn has_edge(self, a: Seq<char>, b: Seq<char>) -> bool {
        exists|k: int| 0 <= k < self.edges@.len() && self.edges@[k].0@ == a && #[trigger] self.edges@[k].1@ == b
    }

    /// Whether `n` is a node.
    pub open spec fn has_node(self, n: Seq<char>) -> bool {
        views(self.names@).contains(n)
    }

    /// Whether the type `outer` holds the type `inner`, itself included:
    /// both are nodes and a chain of edges leads from `outer` to `inner`
    /// (a chain never needs more edges than the graph has).
    pub open spec fn nests(self, outer: Seq<char>, inner: Seq<char>) -> bool {
        self.has_node(outer) && self.has_node(inner) && reach_set(self.edges@, outer, self.edges@.len()).contains(inner)
    }

    /// The empty graph.
    pub fn new() -> (r: MessageGraph)
        ensures
            r.names@.len() == 0,
            r.edges@.len() == 0,
    {
        MessageGraph { names: Vec::new(), edges: Vec::new() }
    }

    fn add_node(&mut self, n: &String)
        ensures
            final(self).has_node(n@),
            final(self).edges == old(self).edges,
            forall|x: Seq<char>| old(self).has_node(x) ==> final(self).has_node(x),
    {
        if !contains(&self.names, n) {
            let ghost old_names = self.names@;
            self.names.push(n.clone());
            proof {
                assert(views(self.names@) =~= views(old_names).push(n@));
                assert(views(self.names@)[old_names.len() as int] == n@);
                assert forall|x: Seq<char>| views(old_names).contains(x) implies views(self.names@).contains(x) by {
                    let j = choose|j: int| 0 <= j < views(old_names).len() && views(old_names)[j] == x;
                    assert(views(self.names@)[j] == x);
                }
            }
        }
    }

    /// Adds a message type named `package.name`, the edges of its fields, and
    /// its nested message types.
    pub fn add_message(&mut self, package: &str, msg: &MessageDescriptor)
        ensures
            final(self).has_node(package@ + seq!['.'] + msg.name@),
            forall|x: Seq<char>| old(self).has_node(x) ==> final(self).has_node(x),
            old(self).edges@.is_prefix_of(final(self).edges@),
            forall|i: int| 0 <= i < msg.fields@.len()
                && msg.fields@[i].field_type == FieldType::Message
                && msg.fields@[i].label != Label::Repeated
                ==> final(self).has_edge(package@ + seq!['.'] + msg.name@, msg.fields@[i].type_ref@),
            forall|k: int| 0 <= k < msg.nested@.len() ==> final(self).has_node(
                package@ + seq!['.'] + msg.name@ + seq!['.'] + (#[trigger] msg.nested@[k]).name@),
        decreases msg,
    {
        let mut fq = package.to_owned();
        fq.append(".");
        fq.append(msg.name.as_str());
        proof {
            reveal_strlit(".");
            assert(fq@ =~= package@ + seq!['.'] + msg.name@);
        }
        self.add_node(&fq);
        let ghost e0 = self.edges@;
        let mut i: usize = 0;
        while i < msg.fields.len()
            invariant
                0 <= i <= msg.fields@.len(),
                fq@ == package@ + seq!['.'] + msg.name@,
                self.has_node(fq@),
                forall|x: Seq<char>| old(self).has_node(x) ==> self.has_node(x),
                old(self).edges@.is_prefix_of(self.edges@),
                forall|j: int| 0 <= j < i
                    && msg.fields@[j].field_type == FieldType::Message
                    && msg.fields@[j].label != Label::Repeated
                    ==> self.has_edge(fq@, msg.fields@[j].type_ref@),
            decreases msg.fields@.len() - i,
        {
            let f = &msg.fields[i];
            if f.field_type == FieldType::Message && f.label != Label::Repeated {
                self.add_node(&f.type_ref);
                let ghost before = self.edges@;
                self.edges.push((fq.clone(), f.type_ref.clone()));
                proof {
                    assert(self.edges@[before.len() as int].0@ == fq@);
                    assert(self.edges@[before.len() as int].1@ == msg.fields@[i as int].type_ref@);
                    assert forall|j: int| 0 <= j < i + 1
                        && msg.fields@[j].field_type == FieldType::Message
                        && msg.fields@[j].label != Label::Repeated
                        implies self.has_edge(fq@, msg.fields@[j].type_ref@) by {
                        if j < i {
                            let k = choose|k: int| 0 <= k < before.len() && before[k].0@ == fq@ && #[trigger] before[k].1@ == msg.fields@[j].type_ref@;
                            assert(self.edges@[k] == before[k]);
                        }
                    }
                }
            }
            i = i + 1;
        }
        let mut n: usize = 0;
        while n < msg.nested.len()
            invariant
                0 <= n <= msg.nested@.len(),
                fq@ == package@ + seq!['.'] + msg.name@,
                self.has_node(fq@),
                forall|x: Seq<char>| old(self).has_node(x) ==> self.has_node(x),
                old(self).edges@.is_prefix_of(self.edges@),
                forall|j: int| 0 <= j < msg.fields@.len()
                    && msg.fields@[j].field_type == FieldType::Message
                    && msg.fields@[j].label != Label::Repeated
                    ==> self.has_edge(fq@, msg.fields@[j].type_ref@),
                forall|k: int| 0 <= k < n ==> self.has_node(
                    fq@ + seq!['.'] + (#[trigger] msg.nested@[k]).name@),
            decreases msg.nested@.len() - n,
        {
            let ghost before = self.edges@;
            self.add_message(fq.as_str(), &msg.nested[n]);
            proof {
                assert forall|j: int| 0 <= j < msg.fields@.len()
                    && msg.fields@[j].field_type == FieldType::Message
                    && msg.fields@[j].label != Label::Repeated
                    implies self.has_edge(fq@, msg.fields@[j].type_ref@) by {
                    let k = choose|k: int| 0 <= k < before.len() && before[k].0@ == fq@ && #[trigger] before[k].1@ == msg.fields@[j].type_ref@;
                    assert(self.edges@[k] == before[k]);
                }
            }
            n = n + 1;
        }
    }

    /// Whether the type `outer` holds the type `inner` by value, directly or
    /// through other types, or is that type.
    pub fn is_nested(&self, outer: &str, inner: &str) -> (r: bool)
        ensures
            r == self.nests(outer@, inner@),
    {
        let a = outer.to_owned();
        let b = inner.to_owned();
        if !contains(&self.names, &a) || !contains(&self.names, &b) {
            return false;
        }
        let e = &self.edges;
        let mut reached: Vec<String> = Vec::new();
        reached.push(a.clone());
        proof {
            assert forall|x: Seq<char>| views(reached@).contains(x) <==> reach_set(e@, a@, 0).contains(x) by {
                if views(reached@).contains(x) {
                    assert(views(reached@)[0] == a@);
                }
                if reach_set(e@, a@, 0).contains(x) {
                    assert(views(reached@)[0] == x);
                }
            }
        }
        let mut k: usize = 0;
        while k < e.len()
            invariant
                e@ == self.edges@,
                0 <= k <= e@.len(),
                forall|x: Seq<char>| views(reached@).contains(x) <==> reach_set(e@, a@, k as nat).contains(x),
            decreases e@.len() - k,
        {
            let ghost cur = reach_set(e@, a@, k as nat);
            let mut next: Vec<String> = Vec::new();
            let mut c: usize = 0;
            while c < reached.len()
                invariant
                    0 <= c <= reached@.len(),
                    views(next@) == views(reached@).take(c as int),
                decreases reached@.len() - c,
            {
                let ghost nv = next@;
                let item = reached[c].clone();
                next.push(item);
                proof {
                    assert(views(next@) =~= views(nv).push(item@));
                    assert(views(reached@).take(c + 1) =~= views(reached@).take(c as int).push(views(reached@)[c as int]));
                }
                c = c + 1;
            }
            assert(views(reached@).take(c as int) =~= views(reached@));
            let mut j: usize = 0;
            while j < e.len()
                invariant
                    e@ == self.edges@,
                    0 <= j <= e@.len(),
                    cur == reach_set(e@, a@, k as nat),
                    forall|x: Seq<char>| views(reached@).contains(x) <==> cur.contains(x),
                    forall|x: Seq<char>| views(next@).contains(x) <==>
                        (cur.contains(x) || exists|i: int|
                            0 <= i < j && e@[i].1@ == x && cur.contains(#[trigger] e@[i].0@)),
                decreases e@.len() - j,
            {
                let ghost nv = views(next@);
                let src_in = contains(&reached, &e[j].0);
                let dst_in = contains(&next, &e[j].1);
                if src_in && !dst_in {
                    let item = e[j].1.clone();
                    next.push(item);
                    proof {
                        assert(views(next@) =~= nv.push(item@));
                    }
                }
                let ghost j0 = j as int;
                j = j + 1;
                proof {
                    let d = e@[j0].1@;
                    assert(src_in == cur.contains(e@[j0].0@));
                    assert(dst_in == nv.contains(d));
                    if src_in && !dst_in {
                        assert(views(next@) == nv.push(d));
                    } else {
                        assert(views(next@) == nv);
                    }
                    assert forall|x: Seq<char>| views(next@).contains(x) <==>
                        (cur.contains(x) || exists|i: int|
                            0 <= i < j && e@[i].1@ == x && cur.contains(#[trigger] e@[i].0@)) by {
                        if nv.contains(x) {
                            let q = choose|q: int| 0 <= q < nv.len() && nv[q] == x;
                            assert(views(next@)[q] == x);
                        }
                        if views(next@).contains(x) {
                            if nv.contains(x) {
                                if !cur.contains(x) {
                                    let i = choose|i: int| 0 <= i < j0 && e@[i].1@ == x && cur.contains(#[trigger] e@[i].0@);
                                    assert(0 <= i < j && e@[i].1@ == x && cur.contains(e@[i].0@));
                                }
                            } else {
                                let q = choose|q: int| 0 <= q < views(next@).len() && views(next@)[q] == x;
                                assert(src_in && !dst_in);
                                if q < nv.len() {
                                    assert(nv[q] == x);
                                }
                                assert(x == d);
                                assert(e@[j0].1@ == x && cur.contains(e@[j0].0@));
                            }
                        }
                        if !cur.contains(x) && exists|i: int|
                            0 <= i < j && e@[i].1@ == x && cur.contains(#[trigger] e@[i].0@) {
                            let i = choose|i: int| 0 <= i < j && e@[i].1@ == x && cur.contains(#[trigger] e@[i].0@);
                            if i < j0 {
                                assert(nv.contains(x));
                            } else if dst_in {
                                assert(nv.contains(x));
                            } else {
                                assert(views(next@)[nv.len() as int] == x);
                            }
                            if nv.contains(x) {
                                let q = choose|q: int| 0 <= q < nv.len() && nv[q] == x;
                                assert(views(next@)[q] == x);
                            }
                        }
                    }
                }
            }
            proof {
                assert(reach_set(e@, a@, (k + 1) as nat) == step(e@, cur));
                assert forall|x: Seq<char>| views(next@).contains(x) <==> reach_set(e@, a@, (k + 1) as nat).contains(x) by {
                    if views(next@).contains(x) && !cur.contains(x) {
                        let i = choose|i: int| 0 <= i < j && e@[i].1@ == x && cur.contains(#[trigger] e@[i].0@);
                        assert(step(e@, cur).contains(x));
                    }
                }
            }
            reached = next;
            k = k + 1;
        }
        contains(&reached, &b)
    }
}

/// Whether `s` is one of `v`.
fn contains(v: &Vec<String>, s: &String) -> (r: bool)
    ensures
        r == views(v@).contains(s@),
{
    let mut i: usize = 0;
    while i < v.len()
        invariant
            0 <= i <= v@.len(),
            forall|j: int| 0 <= j < i ==> v@[j]@ != s@,
        decreases v@.len() - i,
    {
        if v[i] == *s {
            assert(views(v@)[i as int] == s@);
            return true;
        }
        i = i + 1;
    }
    proof {
        if views(v@).contains(s@) {
            let j = choose|j: int| 0 <= j < views(v@).len() && views(v@)[j] == s@;
            assert(v@[j]@ == s@);
        }
    }
    false
}

} // verus!
