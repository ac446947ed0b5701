//! Resolution of fully-qualified schema names into Rust paths relative to the
//! module being written.

use vstd::prelude::*;
use crate::naming::{camel_of, snake_of, to_snake, to_upper_camel};
use crate::text::{chars_of, string_of};

verus! {

/// The parts of `s` between dots, as `str::split('.')` gives them: at least
/// one part, empty parts included.
pub open spec fn split_dots(s: Seq<char>) -> Seq<Seq<char>>
    decreases s.len(),
{
    if s.len() == 0 {
        seq![Seq::empty()]
    } else {
        let r = split_dots(s.drop_last());
        if s.last() == '.' {
            r.push(Seq::empty())
        } else {
            r.update(r.len() - 1, r.last().push(s.last()))
        }
    }
}

pub proof fn lemma_split_dots_len(s: Seq<char>)
    ensures
        split_dots(s).len() >= 1,
    decreases s.len(),
{
    if s.len() > 0 {
        lemma_split_dots_len(s.drop_last());
    }
}

/// The parts joined with `::` between them.
pub open spec fn join_path(parts: Seq<Seq<char>>) -> Seq<char>
    decreases parts.len(),
{
    if parts.len() == 0 {
        Seq::empty()
    } else if parts.len() == 1 {
        parts[0]
    } else {
        join_path(parts.drop_last()) + "::"@ + parts.last()
    }
}

/// The length of the longest common leading run of `a` and `b`.
pub open spec fn common_len(a: Seq<Seq<char>>, b: Seq<Seq<char>>) -> nat
    decreases a.len(),
{
    if a.len() > 0 && b.len() > 0 && a[0] == b[0] {
        1 + common_len(a.skip(1), b.skip(1))
    } else {
        0
    }
}

/// Whether a schema name is absolute, i.e. starts with a dot.
pub open spec fn is_qualified(name: Seq<char>) -> bool {
    name.len() > 0 && name[0] == '.'
}

/// The tokens of the relative path from the module `scope` to the type
/// named `name`: one `super` for each part of the scope past the common
/// prefix, then each remaining part of the type's owning scope in snake case,
/// then the type's own name in upper camel case.
pub open spec fn path_tokens(scope: Seq<Seq<char>>, name: Seq<char>) -> Seq<Seq<char>> {
    let parts = split_dots(name.skip(1));
    let dirs = parts.drop_last();
    let k = common_len(scope, dirs);
    Seq::new((scope.len() - k) as nat, |i: int| "super"@)
        + dirs.skip(k as int).map_values(|d: Seq<char>| snake_of(d))
        + seq![camel_of(parts.last())]
}

/// The Rust path that names the type `name` from the module `scope`.
pub open spec fn resolved(scope: Seq<Seq<char>>, name: Seq<char>) -> Seq<char> {
    join_path(path_tokens(scope, name))
}

/// The views of a vector of strings.
pub open spec fn views(v: Seq<String>) -> Seq<Seq<char>> {
    v.map_values(|s: String| s@)
}

/// Splits `s` at each dot.
pub fn split_at_dots(s: &[char]) -> (r: Vec<String>)
    ensures
        views(r@) == split_dots(s@),
{
    let mut done: Vec<String> = Vec::new();
    let mut cur: Vec<char> = Vec::new();
    let mut i: usize = 0;
    proof {
        assert(s@.take(0) =~= Seq::<char>::empty());
        assert(views(done@).push(cur@) =~= split_dots(s@.take(0)));
    }
    while i < s.len()
        invariant
            0 <= i <= s@.len(),
            views(done@).push(cur@) == split_dots(s@.take(i as int)),
        decreases s@.len() - i,
    {
        let c = s[i];
        proof {
            assert(s@.take(i + 1).drop_last() =~= s@.take(i as int));
        }
        if c == '.' {
            let part = string_of(cur.as_slice());
            let ghost d = done@;
            done.push(part);
            cur = Vec::new();
            proof {
                assert(views(done@) =~= views(d).push(part@));
                assert(views(done@).push(cur@) =~= split_dots(s@.take(i + 1)));
            }
        } else {
            cur.push(c);
            proof {
                assert(views(done@).push(cur@) =~= split_dots(s@.take(i + 1)));
            }
        }
        i = i + 1;
    }
    let part = string_of(cur.as_slice());
    let ghost d = done@;
    done.push(part);
    proof {
        assert(s@.take(i as int) =~= s@);
        assert(views(done@) =~= views(d).push(part@));
    }
    done
}

/// Joins the parts with `::` between them.
pub fn join_parts(parts: &Vec<String>) -> (r: String)
    ensures
        r@ == join_path(views(parts@)),
{
    let mut out = String::new();
    let mut i: usize = 0;
    while i < parts.len()
        invariant
            0 <= i <= parts@.len(),
            out@ == join_path(views(parts@.take(i as int))),
        decreases parts@.len() - i,
    {
        proof {
            assert(views(parts@.take(i + 1)).drop_last() =~= views(parts@.take(i as int)));
            if i == 0 {
                assert(views(parts@.take(0)) =~= Seq::<Seq<char>>::empty());
            }
        }
        if i > 0 {
            out.append("::");
        }
        out.append(parts[i].as_str());
        i = i + 1;
    }
    assert(parts@.take(i as int) =~= parts@);
    out
}

/// How many leading parts `a` and `b` share.
fn common_prefix(a: &Vec<String>, b: &Vec<String>) -> (r: usize)
    ensures
        r as nat == common_len(views(a@), views(b@)),
        r <= a@.len(),
        r <= b@.len(),
{
    let mut i: usize = 0;
    assert(views(a@).skip(0) =~= views(a@));
    assert(views(b@).skip(0) =~= views(b@));
    while i < a.len() && i < b.len() && a[i] == b[i]
        invariant
            0 <= i <= a@.len(),
            i <= b@.len(),
            common_len(views(a@), views(b@)) == i + common_len(views(a@).skip(i as int), views(b@).skip(i as int)),
        decreases a@.len() - i,
    {
        proof {
            let va = views(a@).skip(i as int);
            let vb = views(b@).skip(i as int);
            assert(va.skip(1) =~= views(a@).skip(i + 1));
            assert(vb.skip(1) =~= views(b@).skip(i + 1));
        }
        i = i + 1;
    }
    i
}

/// Resolves the fully-qualified schema name `name` against the module whose
/// parts are `scope`, giving a relative Rust path; `None` when `name` is not
/// absolute.
pub fn resolve_ident(scope: &Vec<String>, name: &str) -> (r: Option<String>)
    ensures
        r is None <==> !is_qualified(name@),
        r matches Some(p) ==> p@ == resolved(views(scope@), name@),
{
    let chars = chars_of(name);
    if chars.len() == 0 || chars[0] != '.' {
        return None;
    }
    let parts = split_at_dots(&chars.as_slice()[1..chars.len()]);
    proof {
        assert(chars@.subrange(1, chars@.len() as int) =~= name@.skip(1));
        lemma_split_dots_len(name@.skip(1));
    }
    let n = parts.len() - 1;
    let mut dirs: Vec<String> = Vec::new();
    let mut j: usize = 0;
    while j < n
        invariant
            n == parts@.len() - 1,
            0 <= j <= n,
            dirs@ == parts@.take(j as int),
        decreases n - j,
    {
        dirs.push(parts[j].clone());
        proof {
            assert(dirs@ =~= parts@.take(j + 1));
        }
        j = j + 1;
    }
    let k = common_prefix(scope, &dirs);
    let ghost toks = path_tokens(views(scope@), name@);
    let ghost sp = split_dots(name@.skip(1));
    proof {
        assert(views(dirs@) =~= sp.drop_last());
    }
    let mut tokens: Vec<String> = Vec::new();
    let mut u: usize = k;
    while u < scope.len()
        invariant
            k <= u <= scope@.len(),
            views(tokens@) == toks.take(u - k),
            toks == Seq::new((views(scope@).len() - k) as nat, |i: int| "super"@)
                + views(dirs@).skip(k as int).map_values(|d: Seq<char>| snake_of(d))
                + seq![camel_of(sp.last())],
        decreases scope@.len() - u,
    {
        let ghost t = tokens@;
        tokens.push("super".to_owned());
        proof {
            assert(views(tokens@) =~= views(t).push("super"@));
            assert(views(tokens@) =~= toks.take(u + 1 - k));
        }
        u = u + 1;
    }
    let mut d: usize = k;
    while d < dirs.len()
        invariant
            k <= d <= dirs@.len(),
            k <= scope@.len(),
            sp.len() >= 1,
            views(tokens@) == toks.take(scope@.len() - k + d - k),
            toks == Seq::new((views(scope@).len() - k) as nat, |i: int| "super"@)
                + views(dirs@).skip(k as int).map_values(|d: Seq<char>| snake_of(d))
                + seq![camel_of(sp.last())],
        decreases dirs@.len() - d,
    {
        let ghost t = tokens@;
        let sn = to_snake(dirs[d].as_str());
        tokens.push(sn);
        proof {
            let base = scope@.len() - k;
            let aa = Seq::new((views(scope@).len() - k) as nat, |i: int| "super"@);
            let bb = views(dirs@).skip(k as int).map_values(|d: Seq<char>| snake_of(d));
            let cc = seq![camel_of(sp.last())];
            assert(aa.len() == base);
            assert(bb.len() == dirs@.len() - k);
            assert(bb[d - k] == snake_of(dirs@[d as int]@));
            assert((aa + bb)[base + (d - k)] == bb[d - k]);
            assert(toks[base + (d - k)] == snake_of(dirs@[d as int]@));
            assert(views(tokens@) =~= views(t).push(sn@));
            assert(views(tokens@) =~= toks.take(scope@.len() - k + d + 1 - k));
        }
        d = d + 1;
    }
    let last = to_upper_camel(parts[n].as_str());
    let ghost t = tokens@;
    tokens.push(last);
    proof {
        assert(sp.last() == parts@[n as int]@);
        assert(views(tokens@) =~= views(t).push(last@));
        assert(views(tokens@) =~= toks);
    }
    Some(join_parts(&tokens))
}

proof fn lemma_common_len_prefix(pre: Seq<Seq<char>>, a: Seq<Seq<char>>, b: Seq<Seq<char>>)
    requires
        a.len() == 0 || b.len() == 0 || a[0] != b[0],
    ensures
        common_len(pre + a, pre + b) == pre.len() + common_len(a, b),
    decreases pre.len(),
{
    if pre.len() > 0 {
        assert((pre + a).skip(1) =~= pre.skip(1) + a);
        assert((pre + b).skip(1) =~= pre.skip(1) + b);
        lemma_common_len_prefix(pre.skip(1), a, b);
    } else {
        assert(pre + a =~= a);
        assert(pre + b =~= b);
    }
}

/// Resolving a name whose owning scope is the current scope gives the bare
/// type name in upper camel case: no `super` and no module on the way.
pub proof fn lemma_resolve_same_scope(scope: Seq<Seq<char>>, name: Seq<char>)
    requires
        is_qualified(name),
        split_dots(name.skip(1)).drop_last() == scope,
    ensures
        path_tokens(scope, name) == seq![camel_of(split_dots(name.skip(1)).last())],
        resolved(scope, name) == camel_of(split_dots(name.skip(1)).last()),
{
    lemma_split_dots_len(name.skip(1));
    let e = Seq::<Seq<char>>::empty();
    lemma_common_len_prefix(scope, e, e);
    assert(scope + e =~= scope);
    let toks = path_tokens(scope, name);
    assert(toks =~= seq![camel_of(split_dots(name.skip(1)).last())]);
}

/// Resolving a name from a sibling module goes up once, then down into the
/// sibling: from `p.c` the type `.p.b.T` is `super::b::T` (cased).
pub proof fn lemma_resolve_sibling_scope(
    pre: Seq<Seq<char>>,
    here: Seq<char>,
    there: Seq<char>,
    name: Seq<char>,
)
    requires
        is_qualified(name),
        here != there,
        split_dots(name.skip(1)).drop_last() == pre.push(there),
    ensures
        path_tokens(pre.push(here), name)
            == seq!["super"@, snake_of(there), camel_of(split_dots(name.skip(1)).last())],
        resolved(pre.push(here), name)
            == "super"@ + "::"@ + snake_of(there) + "::"@ + camel_of(split_dots(name.skip(1)).last()),
{
    lemma_split_dots_len(name.skip(1));
    assert(pre.push(here) =~= pre + seq![here]);
    assert(pre.push(there) =~= pre + seq![there]);
    lemma_common_len_prefix(pre, seq![here], seq![there]);
    let toks = path_tokens(pre.push(here), name);
    let t = seq!["super"@, snake_of(there), camel_of(split_dots(name.skip(1)).last())];
    assert(toks =~= t);
    assert(t.drop_last().drop_last() =~= seq!["super"@]);
    assert(t.drop_last() =~= seq!["super"@, snake_of(there)]);
    assert(join_path(t.drop_last().drop_last()) == "super"@);
    assert(join_path(t.drop_last()) == "super"@ + "::"@ + snake_of(there));
    assert(join_path(t) == join_path(t.drop_last()) + "::"@ + t.last());
    assert(join_path(t) =~= "super"@ + "::"@ + snake_of(there) + "::"@ + camel_of(split_dots(name.skip(1)).last()));
}

} // verus!
