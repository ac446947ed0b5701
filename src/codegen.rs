//! The walk over a schema file that writes one Rust declaration per message
//! and enum, and describes each service.

use vstd::prelude::*;
use crate::descriptor::{EnumValueDescriptor, Location, MessageDescriptor};
use prost_types::{MethodOptions, ServiceOptions};

verus! {

/// One method of a service, as handed to a service generator.
#[derive(Debug)]
pub struct MethodDescription {
    /// The method name in snake case.
    pub name: String,
    /// The method name as the schema writes it.
    pub proto_name: String,
    pub comments: Vec<String>,
    /// The Rust type of the input, seen from the file's module.
    pub input_type: String,
    /// The Rust type of the output, seen from the file's module.
    pub output_type: String,
    pub input_proto_type: String,
    pub output_proto_type: String,
    pub client_streaming: bool,
    pub server_streaming: bool,
    /// The method's options, as the schema gives them.
    pub options: MethodOptions,
}

/// A service, as handed to a service generator.
#[derive(Debug)]
pub struct ServiceDescription {
    /// The service name in upper camel case.
    pub name: String,
    /// The service name as the schema writes it.
    pub proto_name: String,
    pub package: String,
    pub comments: Vec<String>,
    pub methods: Vec<MethodDescription>,
    /// The service's options, as the schema gives them.
    pub options: ServiceOptions,
}

/// Four spaces for each level of depth.
pub open spec fn indent(d: nat) -> Seq<char>
    decreases d,
{
    if d == 0 {
        Seq::empty()
    } else {
        indent((d - 1) as nat) + "    "@
    }
}

/// A comment written as doc lines, each indented and prefixed with `///`.
pub open spec fn doc_text(d: nat, lines: Seq<String>) -> Seq<char>
    decreases lines.len(),
{
    if lines.len() == 0 {
        Seq::empty()
    } else {
        doc_text(d, lines.drop_last()) + indent(d) + "///"@ + lines.last()@ + "\n"@
    }
}

/// Whether some comment entry has exactly the path `p`.
pub open spec fn has_location(locs: Seq<Location>, p: Seq<i32>) -> bool {
    exists|i: int| 0 <= i < locs.len() && #[trigger] locs[i].path@ == p
}

/// The position of the first comment entry with path `p`.
pub open spec fn first_location(locs: Seq<Location>, p: Seq<i32>) -> Option<int>
    decreases locs.len(),
{
    if locs.len() == 0 {
        None
    } else {
        match first_location(locs.drop_last(), p) {
            Some(i) => Some(i),
            None => if locs.last().path@ == p {
                Some(locs.len() - 1)
            } else {
                None
            },
        }
    }
}

pub(crate) proof fn lemma_first_location(locs: Seq<Location>, p: Seq<i32>)
    ensures
        first_location(locs, p) is None <==> !has_location(locs, p),
        first_location(locs, p) matches Some(i) ==> 0 <= i < locs.len() && locs[i].path@ == p,
    decreases locs.len(),
{
    if locs.len() > 0 {
        let d = locs.drop_last();
        lemma_first_location(d, p);
        if has_location(d, p) {
            let j = choose|j: int| 0 <= j < d.len() && #[trigger] d[j].path@ == p;
            assert(locs[j].path@ == p);
        }
        if has_location(locs, p) && !has_location(d, p) {
            let j = choose|j: int| 0 <= j < locs.len() && #[trigger] locs[j].path@ == p;
            if j < d.len() {
                assert(d[j].path@ == p);
            }
        }
    }
}

/// The doc lines of the comment at path `p`, indented to depth `d`.
pub open spec fn doc_at(locs: Seq<Location>, p: Seq<i32>, d: nat) -> Option<Seq<char>> {
    match first_location(locs, p) {
        Some(i) => Some(doc_text(d, locs[i].lines@)),
        None => None,
    }
}

/// The position of the first comment entry with path `p`.
pub fn find_location(locs: &Vec<Location>, p: &Vec<i32>) -> (r: Option<usize>)
    ensures
        r is None <==> !has_location(locs@, p@),
        r matches Some(i) ==> i < locs@.len() && locs@[i as int].path@ == p@,
        match r {
            Some(i) => first_location(locs@, p@) == Some(i as int),
            None => first_location(locs@, p@) is None,
        },
{
    let mut i: usize = 0;
    proof {
        lemma_first_location(locs@, p@);
    }
    while i < locs.len()
        invariant
            0 <= i <= locs@.len(),
            forall|j: int| 0 <= j < i ==> locs@[j].path@ != p@,
            first_location(locs@.take(i as int), p@) is None,
        decreases locs@.len() - i,
    {
        proof {
            assert(locs@.take(i + 1).drop_last() =~= locs@.take(i as int));
        }
        if same_path(&locs[i].path, p) {
            proof {
                lemma_first_prefix(locs@, p@, (i + 1) as int);
            }
            return Some(i);
        }
        i = i + 1;
    }
    assert(locs@.take(i as int) =~= locs@);
    None
}

proof fn lemma_first_prefix(locs: Seq<Location>, p: Seq<i32>, n: int)
    requires
        0 < n <= locs.len(),
        first_location(locs.take(n), p) is Some,
    ensures
        first_location(locs, p) == first_location(locs.take(n), p),
    decreases locs.len() - n,
{
    if n < locs.len() {
        assert(locs.take(n + 1).drop_last() =~= locs.take(n));
        lemma_first_prefix(locs, p, n + 1);
    } else {
        assert(locs.take(n) =~= locs);
    }
}

fn same_path(a: &Vec<i32>, b: &Vec<i32>) -> (r: bool)
    ensures
        r == (a@ == b@),
{
    if a.len() != b.len() {
        return false;
    }
    let mut i: usize = 0;
    while i < a.len()
        invariant
            a@.len() == b@.len(),
            0 <= i <= a@.len(),
            forall|j: int| 0 <= j < i ==> a@[j] == b@[j],
        decreases a@.len() - i,
    {
        if a[i] != b[i] {
            return false;
        }
        i = i + 1;
    }
    assert(a@ =~= b@);
    true
}

/// Whether a comment entry can address a declaration: its path is a
/// non-empty sequence of (kind, index) pairs.
pub open spec fn addresses_declaration(l: Location) -> bool {
    l.path@.len() > 0 && l.path@.len() % 2 == 0
}

/// The entries of `locs` that address a declaration, in order.
pub open spec fn declaration_locations(locs: Seq<Location>) -> Seq<Location>
    decreases locs.len(),
{
    if locs.len() == 0 {
        Seq::empty()
    } else if addresses_declaration(locs.last()) {
        declaration_locations(locs.drop_last()).push(locs.last())
    } else {
        declaration_locations(locs.drop_last())
    }
}

/// Keeps the comment entries whose path addresses a declaration.
pub fn retain_declaration_locations(locs: Vec<Location>) -> (r: Vec<Location>)
    ensures
        r@ == declaration_locations(locs@),
{
    let mut out: Vec<Location> = Vec::new();
    let ghost all = locs@;
    let mut rest = locs;
    let mut taken: Vec<Location> = Vec::new();
    // Reverse first so that popping visits the entries in order.
    while rest.len() > 0
        invariant
            all == rest@ + taken@.reverse(),
        decreases rest@.len(),
    {
        let ghost r0 = rest@;
        let ghost t0 = taken@;
        let l = rest.pop().unwrap();
        taken.push(l);
        proof {
            assert(r0 =~= rest@.push(l));
            assert(taken@.reverse() =~= seq![l] + t0.reverse());
            assert(all =~= rest@ + taken@.reverse());
        }
    }
    let mut i: usize = 0;
    let n = taken.len();
    proof {
        assert(all =~= taken@.reverse());
        assert(all.take(0) =~= Seq::<Location>::empty());
    }
    while taken.len() > 0
        invariant
            n == all.len(),
            taken@.len() + i == n,
            forall|j: int| 0 <= j < taken@.len() ==> taken@[j] == all[n - 1 - j],
            out@ == declaration_locations(all.take(i as int)),
        decreases taken@.len(),
    {
        let ghost t0 = taken@;
        let l = taken.pop().unwrap();
        proof {
            assert(l == all[i as int]);
            assert(all.take(i + 1).drop_last() =~= all.take(i as int));
            assert(all.take(i + 1).last() == l);
        }
        let keep = l.path.len() > 0 && l.path.len() % 2 == 0;
        if keep {
            out.push(l);
        }
        i = i + 1;
    }
    assert(all.take(i as int) =~= all);
    out
}

/// The indices of the values whose number no earlier value has, in order.
pub open spec fn first_occurrences(vals: Seq<EnumValueDescriptor>) -> Seq<usize>
    decreases vals.len(),
{
    if vals.len() == 0 {
        Seq::empty()
    } else if is_first(vals, vals.len() - 1) {
        first_occurrences(vals.drop_last()).push((vals.len() - 1) as usize)
    } else {
        first_occurrences(vals.drop_last())
    }
}

/// Whether no value before position `i` has the number of value `i`.
pub open spec fn is_first(vals: Seq<EnumValueDescriptor>, i: int) -> bool {
    forall|j: int| 0 <= j < i ==> vals[j].number != vals[i].number
}

/// The positions of the enum values to write: a value whose number an
/// earlier value already has is an alias and is left out.
pub fn distinct_values(vals: &Vec<EnumValueDescriptor>) -> (r: Vec<usize>)
    ensures
        r@ == first_occurrences(vals@),
        forall|k: int| 0 <= k < r@.len() ==> #[trigger] r@[k] < vals@.len(),
{
    let mut out: Vec<usize> = Vec::new();
    let mut i: usize = 0;
    while i < vals.len()
        invariant
            0 <= i <= vals@.len(),
            out@ == first_occurrences(vals@.take(i as int)),
        decreases vals@.len() - i,
    {
        let mut seen = false;
        let mut j: usize = 0;
        while j < i
            invariant
                0 <= j <= i < vals@.len(),
                seen == exists|k: int| 0 <= k < j && vals@[k].number == vals@[i as int].number,
            decreases i - j,
        {
            if vals[j].number == vals[i].number {
                seen = true;
            }
            j = j + 1;
        }
        let ghost t1 = vals@.take(i + 1);
        proof {
            assert(t1.drop_last() =~= vals@.take(i as int));
            assert(is_first(t1, i as int) == !seen) by {
                if seen {
                    let k = choose|k: int| 0 <= k < j && vals@[k].number == vals@[i as int].number;
                    assert(t1[k].number == t1[i as int].number);
                }
            }
        }
        if !seen {
            out.push(i);
        }
        i = i + 1;
    }
    assert(vals@.take(i as int) =~= vals@);
    proof {
        lemma_first_occurrences(vals@);
    }
    out
}

/// Every value written has a number no earlier value has, and every value
/// with such a number is written.
pub proof fn lemma_first_occurrences(vals: Seq<EnumValueDescriptor>)
    requires
        vals.len() <= usize::MAX,
    ensures
        forall|k: int| 0 <= k < first_occurrences(vals).len() ==>
            first_occurrences(vals)[k] < vals.len() && is_first(vals, #[trigger] first_occurrences(vals)[k] as int),
        forall|i: int| 0 <= i < vals.len() && is_first(vals, i) ==> first_occurrences(vals).contains(i as usize),
    decreases vals.len(),
{
    if vals.len() > 0 {
        let d = vals.drop_last();
        lemma_first_occurrences(d);
        assert forall|i: int| 0 <= i < d.len() implies is_first(d, i) == is_first(vals, i) by {
            if is_first(d, i) {
                assert forall|j: int| 0 <= j < i implies vals[j].number != vals[i].number by {
                    assert(d[j] == vals[j]);
                }
            }
        }
        let f = first_occurrences(vals);
        let fd = first_occurrences(d);
        if is_first(vals, vals.len() - 1) {
            assert(f == fd.push((vals.len() - 1) as usize));
        } else {
            assert(f == fd);
        }
        assert forall|k: int| 0 <= k < f.len() implies
            f[k] < vals.len() && is_first(vals, #[trigger] f[k] as int) by {
            if k < fd.len() {
                assert(f[k] == fd[k]);
                assert(is_first(d, fd[k] as int));
            } else {
                assert(f[k] == (vals.len() - 1) as usize);
            }
        }
        assert forall|i: int| 0 <= i < vals.len() && is_first(vals, i) implies f.contains(i as usize) by {
            if i < d.len() {
                let k = choose|k: int| 0 <= k < fd.len() && fd[k] == i as usize;
                assert(f[k] == i as usize);
            } else {
                assert(f.last() == i as usize);
            }
        }
    }
}

/// The positions of the nested types that are map entries (`true`) or that
/// are not (`false`), in order.
pub open spec fn nested_where(nested: Seq<MessageDescriptor>, entry: bool) -> Seq<usize>
    decreases nested.len(),
{
    if nested.len() == 0 {
        Seq::empty()
    } else if nested.last().map_entry == entry {
        nested_where(nested.drop_last(), entry).push((nested.len() - 1) as usize)
    } else {
        nested_where(nested.drop_last(), entry)
    }
}

/// Splits nested types into the ones declared on their own and the map
/// entries, which are folded into the fields that use them.
pub fn split_nested(nested: &Vec<MessageDescriptor>) -> (r: (Vec<usize>, Vec<usize>))
    ensures
        r.0@ == nested_where(nested@, false),
        r.1@ == nested_where(nested@, true),
        forall|k: int| 0 <= k < r.1@.len() ==>
            #[trigger] r.1@[k] < nested@.len() && nested@[r.1@[k] as int].map_entry,
        forall|i: int| 0 <= i < nested@.len() && nested@[i].map_entry ==> r.1@.contains(i as usize),
{
    let mut plain: Vec<usize> = Vec::new();
    let mut maps: Vec<usize> = Vec::new();
    let mut i: usize = 0;
    while i < nested.len()
        invariant
            0 <= i <= nested@.len(),
            plain@ == nested_where(nested@.take(i as int), false),
            maps@ == nested_where(nested@.take(i as int), true),
        decreases nested@.len() - i,
    {
        proof {
            assert(nested@.take(i + 1).drop_last() =~= nested@.take(i as int));
        }
        if nested[i].map_entry {
            maps.push(i);
        } else {
            plain.push(i);
        }
        i = i + 1;
    }
    assert(nested@.take(i as int) =~= nested@);
    proof {
        lemma_nested_where(nested@, true);
    }
    (plain, maps)
}

proof fn lemma_nested_where(nested: Seq<MessageDescriptor>, entry: bool)
    requires
        nested.len() <= usize::MAX,
    ensures
        forall|k: int| 0 <= k < nested_where(nested, entry).len() ==>
            nested_where(nested, entry)[k] < nested.len()
            && nested[#[trigger] nested_where(nested, entry)[k] as int].map_entry == entry,
        forall|i: int| 0 <= i < nested.len() && nested[i].map_entry == entry
            ==> nested_where(nested, entry).contains(i as usize),
    decreases nested.len(),
{
    if nested.len() > 0 {
        let d = nested.drop_last();
        lemma_nested_where(d, entry);
        let f = nested_where(nested, entry);
        let fd = nested_where(d, entry);
        if nested.last().map_entry == entry {
            assert(f == fd.push((nested.len() - 1) as usize));
        } else {
            assert(f == fd);
        }
        assert forall|i: int| 0 <= i < nested.len() && nested[i].map_entry == entry implies f.contains(i as usize) by {
            if i < d.len() {
                assert(d[i] == nested[i]);
                let k = choose|k: int| 0 <= k < fd.len() && fd[k] == i as usize;
                assert(f[k] == i as usize);
            } else {
                assert(f.last() == i as usize);
            }
        }
        assert forall|k: int| 0 <= k < f.len() implies f[k] < nested.len()
            && nested[#[trigger] f[k] as int].map_entry == entry by {
            if k < fd.len() {
                assert(f[k] == fd[k]);
                assert(d[fd[k] as int] == nested[fd[k] as int]);
            } else {
                assert(f[k] == (nested.len() - 1) as usize);
                assert(nested.last() == nested[nested.len() - 1]);
            }
        }
    }
}

/// Map entries are never declared on their own: each nested type is either
/// declared (not a map entry) or folded into a map field (a map entry), never
/// both.
pub proof fn lemma_map_entries_folded(nested: Seq<MessageDescriptor>)
    requires
        nested.len() <= usize::MAX,
    ensures
        forall|i: int| 0 <= i < nested.len() && nested[i].map_entry ==>
            nested_where(nested, true).contains(i as usize) && !nested_where(nested, false).contains(i as usize),
        forall|i: int| 0 <= i < nested.len() && !nested[i].map_entry ==>
            nested_where(nested, false).contains(i as usize) && !nested_where(nested, true).contains(i as usize),
{
    lemma_nested_where(nested, true);
    lemma_nested_where(nested, false);
    assert forall|i: int| 0 <= i < nested.len() implies
        (nested_where(nested, false).contains(i as usize) ==> !nested[i].map_entry)
        && (nested_where(nested, true).contains(i as usize) ==> nested[i].map_entry) by {
        if nested_where(nested, false).contains(i as usize) {
            let k = choose|k: int| 0 <= k < nested_where(nested, false).len() && nested_where(nested, false)[k] == i as usize;
            assert(nested[nested_where(nested, false)[k] as int].map_entry == false);
        }
        if nested_where(nested, true).contains(i as usize) {
            let k = choose|k: int| 0 <= k < nested_where(nested, true).len() && nested_where(nested, true)[k] == i as usize;
            assert(nested[nested_where(nested, true)[k] as int].map_entry == true);
        }
    }
}

/// Whether `s` is in ascending order.
pub open spec fn ascending(s: Seq<i32>) -> bool {
    forall|a: int, b: int| 0 <= a < b < s.len() ==> s[a] <= s[b]
}

/// `s` with `x` put before its first element greater than `x`.
pub open spec fn insert_sorted(s: Seq<i32>, x: i32) -> Seq<i32>
    decreases s.len(),
{
    if s.len() == 0 {
        seq![x]
    } else if x < s[0] {
        seq![x] + s
    } else {
        seq![s[0]] + insert_sorted(s.skip(1), x)
    }
}

/// The numbers of `s` in ascending order, equal numbers in their order in `s`.
pub open spec fn sorted_of(s: Seq<i32>) -> Seq<i32>
    decreases s.len(),
{
    if s.len() == 0 {
        Seq::empty()
    } else {
        insert_sorted(sorted_of(s.drop_last()), s.last())
    }
}

proof fn lemma_insert_at_first_greater(s: Seq<i32>, x: i32, pos: int)
    requires
        0 <= pos <= s.len(),
        forall|j: int| 0 <= j < pos ==> s[j] <= x,
        pos < s.len() ==> s[pos] > x,
    ensures
        s.insert(pos, x) == insert_sorted(s, x),
    decreases pos,
{
    if pos == 0 {
        assert(s.insert(0, x) =~= seq![x] + s);
    } else {
        lemma_insert_at_first_greater(s.skip(1), x, pos - 1);
        assert(s.insert(pos, x) =~= seq![s[0]] + s.skip(1).insert(pos - 1, x));
    }
}

/// The numbers in ascending order.
pub fn sort_numbers(nums: &Vec<i32>) -> (r: Vec<i32>)
    ensures
        r@ == sorted_of(nums@),
        ascending(r@),
        r@.to_multiset() == nums@.to_multiset(),
{
    let mut out: Vec<i32> = Vec::new();
    let mut i: usize = 0;
    proof {
        assert(nums@.take(0) =~= Seq::<i32>::empty());
        assert(out@ =~= Seq::<i32>::empty());
    }
    while i < nums.len()
        invariant
            0 <= i <= nums@.len(),
            ascending(out@),
            out@ == sorted_of(nums@.take(i as int)),
            out@.to_multiset() == nums@.take(i as int).to_multiset(),
        decreases nums@.len() - i,
    {
        let x = nums[i];
        let mut pos: usize = 0;
        while pos < out.len() && out[pos] <= x
            invariant
                0 <= pos <= out@.len(),
                forall|j: int| 0 <= j < pos ==> out@[j] <= x,
            decreases out@.len() - pos,
        {
            pos = pos + 1;
        }
        let ghost o = out@;
        out.insert(pos, x);
        proof {
            assert(pos < o.len() ==> o[pos as int] > x);
            assert forall|a: int, b: int| 0 <= a < b < out@.len() implies out@[a] <= out@[b] by {
                if b < pos {
                    assert(out@[a] == o[a] && out@[b] == o[b]);
                } else if b == pos {
                    assert(out@[a] == o[a]);
                } else if a < pos {
                    assert(out@[a] == o[a] && out@[b] == o[b - 1]);
                    assert(o[a] <= x);
                    if pos < o.len() {
                        assert(o[pos as int] <= o[b - 1]);
                    }
                } else if a == pos {
                    assert(out@[b] == o[b - 1]);
                    assert(o[pos as int] <= o[b - 1]);
                } else {
                    assert(out@[a] == o[a - 1] && out@[b] == o[b - 1]);
                }
            }
            assert(nums@.take(i + 1) =~= nums@.take(i as int).push(x));
            lemma_insert_at_first_greater(o, x, pos as int);
            assert(nums@.take(i + 1).drop_last() =~= nums@.take(i as int));
            vstd::seq_lib::to_multiset_insert(o, pos as int, x);
            vstd::seq_lib::to_multiset_build(nums@.take(i as int), x);
            assert(out@ == o.insert(pos as int, x));
        }
        i = i + 1;
    }
    assert(nums@.take(i as int) =~= nums@);
    out
}

} // verus!
