//! Stable sorting for display order. The specification is an insertion
//! sort over sequences: a new element goes after every element it is not
//! strictly before, so elements that compare equal keep their original
//! order. Each exec sort is proved to produce exactly that sequence.

use vstd::prelude::*;
use vstd::relations::sorted_by;
use vstd::seq_lib::lemma_multiset_commutative;

use crate::models::PortMapping;
use crate::models::PortMappingView;
use crate::models::ContainerPortMapping;
use crate::models::ContainerPortMappingView;
use crate::models::EnvironmentVariable;
use crate::models::EnvironmentVariableView;
use crate::strutil::lex_le;
use crate::strutil::lemma_lex_le_total;
use crate::strutil::lemma_lex_le_trans;
use crate::strutil::lemma_lex_le_antisym;
use crate::strutil::lex_le_str;

verus! {

/// `x` inserted into `s` after every element `e` with `le(e, x)`.
pub open spec fn insert_le<V>(le: spec_fn(V, V) -> bool, x: V, s: Seq<V>) -> Seq<V>
    decreases s.len(),
{
    if s.len() == 0 {
        seq![x]
    } else if le(s[0], x) {
        seq![s[0]] + insert_le(le, x, s.skip(1))
    } else {
        seq![x] + s
    }
}

/// Insertion sort: elements are inserted left to right, so elements that
/// compare equal keep their original relative order (stability).
pub open spec fn sort_by_le<V>(le: spec_fn(V, V) -> bool, s: Seq<V>) -> Seq<V>
    decreases s.len(),
{
    if s.len() == 0 {
        Seq::empty()
    } else {
        insert_le(le, s.last(), sort_by_le(le, s.drop_last()))
    }
}

pub open spec fn le_total<V>(le: spec_fn(V, V) -> bool) -> bool {
    forall|a: V, b: V| #[trigger] le(a, b) || #[trigger] le(b, a)
}

pub open spec fn le_trans<V>(le: spec_fn(V, V) -> bool) -> bool {
    forall|a: V, b: V, c: V| #[trigger] le(a, b) && #[trigger] le(b, c) ==> #[trigger] le(a, c)
}

pub proof fn lemma_insert_le_multiset<V>(le: spec_fn(V, V) -> bool, x: V, s: Seq<V>)
    ensures
        insert_le(le, x, s).to_multiset() == s.to_multiset().insert(x),
    decreases s.len(),
{
    broadcast use vstd::seq_lib::group_to_multiset_ensures;

    if s.len() == 0 {
        assert(seq![x] =~= Seq::<V>::empty().push(x));
        assert(insert_le(le, x, s).to_multiset() =~= s.to_multiset().insert(x));
    } else if le(s[0], x) {
        lemma_insert_le_multiset(le, x, s.skip(1));
        lemma_multiset_commutative(seq![s[0]], insert_le(le, x, s.skip(1)));
        assert(s =~= seq![s[0]] + s.skip(1));
        lemma_multiset_commutative(seq![s[0]], s.skip(1));
        assert(insert_le(le, x, s).to_multiset() =~= s.to_multiset().insert(x));
    } else {
        lemma_multiset_commutative(seq![x], s);
        assert(seq![x] =~= Seq::<V>::empty().push(x));
        assert(insert_le(le, x, s).to_multiset() =~= s.to_multiset().insert(x));
    }
}

pub proof fn lemma_insert_le_len<V>(le: spec_fn(V, V) -> bool, x: V, s: Seq<V>)
    ensures
        insert_le(le, x, s).len() == s.len() + 1,
    decreases s.len(),
{
    if s.len() > 0 && le(s[0], x) {
        lemma_insert_le_len(le, x, s.skip(1));
    }
}

/// Every element of the insertion result is `x` or one of `s`.
pub proof fn lemma_insert_le_elems<V>(le: spec_fn(V, V) -> bool, x: V, s: Seq<V>, i: int)
    requires
        0 <= i < insert_le(le, x, s).len(),
    ensures
        insert_le(le, x, s)[i] == x || s.contains(insert_le(le, x, s)[i]),
    decreases s.len(),
{
    if s.len() == 0 {
    } else if le(s[0], x) {
        if i == 0 {
            assert(s.contains(s[0]));
        } else {
            lemma_insert_le_elems(le, x, s.skip(1), i - 1);
            if s.skip(1).contains(insert_le(le, x, s)[i]) {
                let j = choose|j: int|
                    0 <= j < s.skip(1).len() && s.skip(1)[j] == insert_le(le, x, s)[i];
                assert(s[j + 1] == insert_le(le, x, s)[i]);
            }
        }
    } else {
        if i > 0 {
            assert(s.contains(s[i - 1]));
        }
    }
}

pub proof fn lemma_insert_le_sorted<V>(le: spec_fn(V, V) -> bool, x: V, s: Seq<V>)
    requires
        le_total(le),
        le_trans(le),
        sorted_by(s, le),
    ensures
        sorted_by(insert_le(le, x, s), le),
    decreases s.len(),
{
    let r = insert_le(le, x, s);
    if s.len() == 0 {
        assert(sorted_by(r, le)) by {
            assert(r.len() == 1);
        }
    } else if le(s[0], x) {
        assert(sorted_by(s.skip(1), le)) by {
            assert(forall|i: int, j: int|
                0 <= i < j < s.skip(1).len() ==> le(s[i + 1], s[j + 1]) && s.skip(1)[i] == s[i + 1]
                    && s.skip(1)[j] == s[j + 1]);
        }
        lemma_insert_le_sorted(le, x, s.skip(1));
        let t = insert_le(le, x, s.skip(1));
        assert(r =~= seq![s[0]] + t);
        assert forall|i: int, j: int| 0 <= i < j < r.len() implies le(r[i], r[j]) by {
            if i == 0 {
                assert(r[j] == t[j - 1]);
                lemma_insert_le_elems(le, x, s.skip(1), j - 1);
                if t[j - 1] == x {
                    assert(le(s[0], x));
                } else {
                    let k = choose|k: int| 0 <= k < s.skip(1).len() && s.skip(1)[k] == t[j - 1];
                    assert(s[k + 1] == t[j - 1]);
                    assert(le(s[0], s[k + 1]));
                }
            } else {
                assert(r[i] == t[i - 1] && r[j] == t[j - 1]);
            }
        }
    } else {
        assert(le(x, s[0]));
        assert(r =~= seq![x] + s);
        assert forall|i: int, j: int| 0 <= i < j < r.len() implies le(r[i], r[j]) by {
            if i == 0 {
                if j == 1 {
                    assert(le(x, s[0]));
                } else {
                    assert(le(s[0], s[j - 1]));
                    assert(le(x, s[j - 1]));
                }
            } else {
                assert(le(s[i - 1], s[j - 1]));
            }
        }
    }
}

/// The sort is a permutation of its input and is sorted; together with
/// the sequence-level definition this pins the output exactly.
pub proof fn lemma_sort_by_le_ensures<V>(le: spec_fn(V, V) -> bool, s: Seq<V>)
    requires
        le_total(le),
        le_trans(le),
    ensures
        sorted_by(sort_by_le(le, s), le),
        sort_by_le(le, s).to_multiset() == s.to_multiset(),
        sort_by_le(le, s).len() == s.len(),
    decreases s.len(),
{
    broadcast use vstd::seq_lib::group_to_multiset_ensures;

    if s.len() == 0 {
    } else {
        lemma_sort_by_le_ensures(le, s.drop_last());
        lemma_insert_le_sorted(le, s.last(), sort_by_le(le, s.drop_last()));
        lemma_insert_le_multiset(le, s.last(), sort_by_le(le, s.drop_last()));
        lemma_insert_le_len(le, s.last(), sort_by_le(le, s.drop_last()));
        assert(s =~= s.drop_last().push(s.last()));
        assert(sort_by_le(le, s).to_multiset() =~= s.to_multiset());
    }
}

/// A run with no class member filters to nothing.
pub proof fn lemma_filter_absent<V>(t: Seq<V>, p: spec_fn(V) -> bool)
    requires
        forall|i: int| 0 <= i < t.len() ==> !p(#[trigger] t[i]),
    ensures
        t.filter(p) == Seq::<V>::empty(),
    decreases t.len(),
{
    reveal(Seq::filter);
    if t.len() > 0 {
        lemma_filter_absent(t.drop_last(), p);
        assert(!p(t.last()));
    }
}

/// Inserting into a sorted run, seen through one tie class of the
/// order: the new element lands after every element it ties with, so
/// the class's subsequence just gains it at the end.
pub proof fn lemma_insert_le_filter<V>(
    le: spec_fn(V, V) -> bool,
    x: V,
    t: Seq<V>,
    p: spec_fn(V) -> bool,
)
    requires
        le_total(le),
        le_trans(le),
        sorted_by(t, le),
        forall|a: V, b: V| #[trigger] p(a) && #[trigger] p(b) ==> le(a, b),
        forall|a: V, b: V| #[trigger] p(a) && !(#[trigger] p(b)) ==> !(le(a, b) && le(b, a)),
    ensures
        insert_le(le, x, t).filter(p) == (if p(x) {
            t.filter(p).push(x)
        } else {
            t.filter(p)
        }),
    decreases t.len(),
{
    reveal(Seq::filter);
    broadcast use Seq::lemma_filter_push;
    broadcast use Seq::filter_distributes_over_add;

    if t.len() == 0 {
        assert(seq![x] =~= Seq::<V>::empty().push(x));
        assert(Seq::<V>::empty().filter(p) == Seq::<V>::empty());
        assert(t.filter(p) == Seq::<V>::empty());
        if p(x) {
            assert(insert_le(le, x, t).filter(p) =~= t.filter(p).push(x));
        } else {
            assert(insert_le(le, x, t).filter(p) =~= t.filter(p));
        }
    } else if le(t[0], x) {
        assert(sorted_by(t.skip(1), le)) by {
            assert(forall|i: int, j: int|
                0 <= i < j < t.skip(1).len() ==> le(t[i + 1], t[j + 1]) && t.skip(1)[i] == t[i + 1]
                    && t.skip(1)[j] == t[j + 1]);
        }
        lemma_insert_le_filter(le, x, t.skip(1), p);
        assert(t =~= seq![t[0]] + t.skip(1));
        assert(t.filter(p) == seq![t[0]].filter(p) + t.skip(1).filter(p));
        assert(insert_le(le, x, t) == seq![t[0]] + insert_le(le, x, t.skip(1)));
        assert(insert_le(le, x, t).filter(p) == seq![t[0]].filter(p) + insert_le(
            le,
            x,
            t.skip(1),
        ).filter(p));
        if p(x) {
            assert(seq![t[0]].filter(p) + t.skip(1).filter(p).push(x) =~= (seq![t[0]].filter(p)
                + t.skip(1).filter(p)).push(x));
            assert(insert_le(le, x, t).filter(p) =~= t.filter(p).push(x));
        } else {
            assert(insert_le(le, x, t).filter(p) =~= t.filter(p));
        }
    } else {
        assert(le(x, t[0]));
        assert(insert_le(le, x, t) == seq![x] + t);
        assert(insert_le(le, x, t).filter(p) == seq![x].filter(p) + t.filter(p));
        assert(seq![x] =~= Seq::<V>::empty().push(x));
        if p(x) {
            // Nothing in the run belongs to the class: a class member
            // would tie with the new element, yet everything in the run
            // is strictly above it.
            assert forall|i: int| 0 <= i < t.len() implies !p(t[i]) by {
                if p(t[i]) {
                    assert(le(t[i], x) && le(x, t[i]));
                    if i > 0 {
                        assert(le(t[0], t[i]));
                        assert(le(t[0], x));
                    }
                }
            }
            lemma_filter_absent(t, p);
            assert(seq![x].filter(p) =~= Seq::<V>::empty().push(x));
            assert(insert_le(le, x, t).filter(p) =~= t.filter(p).push(x));
        } else {
            assert(seq![x].filter(p) =~= Seq::<V>::empty());
            assert(insert_le(le, x, t).filter(p) =~= t.filter(p));
        }
    }
}

/// Stability: seen through any one tie class of the order, the sort is
/// the identity -- elements that compare equal keep their original
/// relative order.
pub proof fn lemma_sort_by_le_stable<V>(
    le: spec_fn(V, V) -> bool,
    s: Seq<V>,
    p: spec_fn(V) -> bool,
)
    requires
        le_total(le),
        le_trans(le),
        forall|a: V, b: V| #[trigger] p(a) && #[trigger] p(b) ==> le(a, b),
        forall|a: V, b: V| #[trigger] p(a) && !(#[trigger] p(b)) ==> !(le(a, b) && le(b, a)),
    ensures
        sort_by_le(le, s).filter(p) == s.filter(p),
    decreases s.len(),
{
    reveal(Seq::filter);
    if s.len() == 0 {
        assert(sort_by_le(le, s).filter(p) =~= s.filter(p));
    } else {
        lemma_sort_by_le_stable(le, s.drop_last(), p);
        lemma_sort_by_le_ensures(le, s.drop_last());
        lemma_insert_le_filter(le, s.last(), sort_by_le(le, s.drop_last()), p);
        assert(s.filter(p) == (if p(s.last()) {
            s.drop_last().filter(p).push(s.last())
        } else {
            s.drop_last().filter(p)
        }));
    }
}

/// Stability for the port order, through the eyes of one sort key:
/// mappings with the given container port and protocol come out in
/// their original order.
pub proof fn lemma_sort_ports_stable(s: Seq<PortMappingView>, cp: u16, proto: Seq<char>)
    ensures
        sort_by_le(port_le_fn(), s).filter(
            |v: PortMappingView| v.container_port == cp && v.protocol == proto,
        ) == s.filter(|v: PortMappingView| v.container_port == cp && v.protocol == proto),
{
    let le = port_le_fn();
    let p = |v: PortMappingView| v.container_port == cp && v.protocol == proto;
    lemma_port_le_properties();
    assert forall|a: PortMappingView, b: PortMappingView| #[trigger]
        p(a) && #[trigger] p(b) implies le(a, b) by {
        lemma_lex_le_total(a.protocol, b.protocol);
    }
    assert forall|a: PortMappingView, b: PortMappingView| #[trigger]
        p(a) && !(#[trigger] p(b)) implies !(le(a, b) && le(b, a)) by {
        if le(a, b) && le(b, a) {
            if a.container_port == b.container_port {
                lemma_lex_le_antisym(a.protocol, b.protocol);
            }
        }
    }
    lemma_sort_by_le_stable(le, s, p);
}

/// Stability for the image-environment order: entries sharing a key
/// come out in their original order.
pub proof fn lemma_sort_env_vars_stable(s: Seq<EnvironmentVariableView>, key: Seq<char>)
    ensures
        sort_by_le(env_le_fn(), s).filter(|v: EnvironmentVariableView| v.key == key) == s.filter(
            |v: EnvironmentVariableView| v.key == key,
        ),
{
    let le = env_le_fn();
    let p = |v: EnvironmentVariableView| v.key == key;
    lemma_env_le_properties();
    assert forall|a: EnvironmentVariableView, b: EnvironmentVariableView| #[trigger]
        p(a) && #[trigger] p(b) implies le(a, b) by {
        lemma_lex_le_total(a.key, b.key);
    }
    assert forall|a: EnvironmentVariableView, b: EnvironmentVariableView| #[trigger]
        p(a) && !(#[trigger] p(b)) implies !(le(a, b) && le(b, a)) by {
        if le(a, b) && le(b, a) {
            lemma_lex_le_antisym(a.key, b.key);
        }
    }
    lemma_sort_by_le_stable(le, s, p);
}

/// Stability for the exposed-port order: mappings sharing a container
/// port come out in their original order.
pub proof fn lemma_sort_exposed_ports_stable(s: Seq<ContainerPortMappingView>, cp: u16)
    ensures
        sort_by_le(cport_le_fn(), s).filter(|v: ContainerPortMappingView| v.container_port == cp)
            == s.filter(|v: ContainerPortMappingView| v.container_port == cp),
{
    let le = cport_le_fn();
    let p = |v: ContainerPortMappingView| v.container_port == cp;
    lemma_cport_le_properties();
    lemma_sort_by_le_stable(le, s, p);
}

/// Where the exec scan stops is where the spec inserts.
pub proof fn lemma_insert_le_position<V>(le: spec_fn(V, V) -> bool, x: V, s: Seq<V>, j: int)
    requires
        0 <= j <= s.len(),
        forall|k: int| 0 <= k < j ==> le(#[trigger] s[k], x),
        j < s.len() ==> !le(s[j], x),
    ensures
        insert_le(le, x, s) == s.take(j) + seq![x] + s.skip(j),
    decreases s.len(),
{
    if s.len() == 0 {
        assert(insert_le(le, x, s) =~= s.take(j) + seq![x] + s.skip(j));
    } else if j == 0 {
        assert(!le(s[0], x));
        assert(insert_le(le, x, s) =~= s.take(0) + seq![x] + s.skip(0));
    } else {
        assert(le(s[0], x));
        lemma_insert_le_position(le, x, s.skip(1), j - 1);
        assert(s.skip(1).take(j - 1) =~= s.take(j).skip(1));
        assert(s.skip(1).skip(j - 1) =~= s.skip(j));
        assert(insert_le(le, x, s) =~= s.take(j) + seq![x] + s.skip(j));
    }
}

// ---------------------------------------------------------------------------
// The concrete orders
// ---------------------------------------------------------------------------

/// Ports order by container port first, then protocol lexically.
pub open spec fn port_le(a: PortMappingView, b: PortMappingView) -> bool {
    if a.container_port != b.container_port {
        a.container_port < b.container_port
    } else {
        lex_le(a.protocol, b.protocol)
    }
}

pub open spec fn port_le_fn() -> spec_fn(PortMappingView, PortMappingView) -> bool {
    |a: PortMappingView, b: PortMappingView| port_le(a, b)
}

pub proof fn lemma_port_le_properties()
    ensures
        le_total(port_le_fn()),
        le_trans(port_le_fn()),
{
    assert forall|a: PortMappingView, b: PortMappingView| #[trigger]
        port_le_fn()(a, b) || #[trigger] port_le_fn()(b, a) by {
        lemma_lex_le_total(a.protocol, b.protocol);
    }
    assert forall|a: PortMappingView, b: PortMappingView, c: PortMappingView| #[trigger]
        port_le_fn()(a, b) && #[trigger] port_le_fn()(b, c) implies #[trigger] port_le_fn()(
        a,
        c,
    ) by {
        if a.container_port == b.container_port && b.container_port == c.container_port {
            lemma_lex_le_trans(a.protocol, b.protocol, c.protocol);
        }
    }
}

/// Environment strings order lexically.
pub open spec fn str_le_fn() -> spec_fn(Seq<char>, Seq<char>) -> bool {
    |a: Seq<char>, b: Seq<char>| lex_le(a, b)
}

pub proof fn lemma_str_le_properties()
    ensures
        le_total(str_le_fn()),
        le_trans(str_le_fn()),
{
    assert forall|a: Seq<char>, b: Seq<char>| #[trigger]
        str_le_fn()(a, b) || #[trigger] str_le_fn()(b, a) by {
        lemma_lex_le_total(a, b);
    }
    assert forall|a: Seq<char>, b: Seq<char>, c: Seq<char>| #[trigger]
        str_le_fn()(a, b) && #[trigger] str_le_fn()(b, c) implies #[trigger] str_le_fn()(a, c) by {
        lemma_lex_le_trans(a, b, c);
    }
}

/// Image environment entries order by key.
pub open spec fn env_le(a: EnvironmentVariableView, b: EnvironmentVariableView) -> bool {
    lex_le(a.key, b.key)
}

pub open spec fn env_le_fn() -> spec_fn(EnvironmentVariableView, EnvironmentVariableView) -> bool {
    |a: EnvironmentVariableView, b: EnvironmentVariableView| env_le(a, b)
}

pub proof fn lemma_env_le_properties()
    ensures
        le_total(env_le_fn()),
        le_trans(env_le_fn()),
{
    assert forall|a: EnvironmentVariableView, b: EnvironmentVariableView| #[trigger]
        env_le_fn()(a, b) || #[trigger] env_le_fn()(b, a) by {
        lemma_lex_le_total(a.key, b.key);
    }
    assert forall|a: EnvironmentVariableView, b: EnvironmentVariableView, c: EnvironmentVariableView|
        #[trigger] env_le_fn()(a, b) && #[trigger] env_le_fn()(b, c) implies #[trigger] env_le_fn()(
        a,
        c,
    ) by {
        lemma_lex_le_trans(a.key, b.key, c.key);
    }
}

/// Exposed image ports order by container port alone.
pub open spec fn cport_le(a: ContainerPortMappingView, b: ContainerPortMappingView) -> bool {
    a.container_port <= b.container_port
}

pub open spec fn cport_le_fn() -> spec_fn(
    ContainerPortMappingView,
    ContainerPortMappingView,
) -> bool {
    |a: ContainerPortMappingView, b: ContainerPortMappingView| cport_le(a, b)
}

pub proof fn lemma_cport_le_properties()
    ensures
        le_total(cport_le_fn()),
        le_trans(cport_le_fn()),
{
}

// ---------------------------------------------------------------------------
// The exec sorts
// ---------------------------------------------------------------------------

fn port_le_exec(a: &PortMapping, b: &PortMapping) -> (r: bool)
    ensures
        r == port_le(a@, b@),
{
    if a.container_port != b.container_port {
        a.container_port < b.container_port
    } else {
        lex_le_str(a.protocol.as_str(), b.protocol.as_str())
    }
}

/// Sorts a port list by container port, then protocol; stable, so equal
/// mappings keep their original order.
pub fn sort_ports(v: Vec<PortMapping>) -> (r: Vec<PortMapping>)
    ensures
        r@.map_values(|p: PortMapping| p@) == sort_by_le(
            port_le_fn(),
            v@.map_values(|p: PortMapping| p@),
        ),
{
    let ghost f = port_le_fn();
    let ghost sv = v@.map_values(|p: PortMapping| p@);
    let mut out: Vec<PortMapping> = Vec::new();
    let n: usize = v.len();
    let mut i: usize = 0;
    proof {
        assert(sv.take(0) =~= Seq::<PortMappingView>::empty());
        assert(out@.map_values(|p: PortMapping| p@) =~= sort_by_le(f, sv.take(0)));
    }
    while i < n
        invariant
            n == v@.len(),
            sv == v@.map_values(|p: PortMapping| p@),
            i <= n,
            out@.map_values(|p: PortMapping| p@) == sort_by_le(f, sv.take(i as int)),
            f == port_le_fn(),
        decreases n - i,
    {
        let x = v[i].clone();
        let ghost outv = out@.map_values(|p: PortMapping| p@);
        let m: usize = out.len();
        let mut j: usize = 0;
        let mut stop: bool = false;
        while !stop
            invariant
                m == out@.len(),
                outv == out@.map_values(|p: PortMapping| p@),
                j <= m,
                forall|k: int| 0 <= k < j ==> #[trigger] f(outv[k], x@),
                f == port_le_fn(),
                stop ==> j == m || !f(outv[j as int], x@),
            decreases m - j, (if stop { 0int } else { 1int }),
        {
            if j >= m {
                stop = true;
            } else if !port_le_exec(&out[j], &x) {
                proof {
                    assert(outv[j as int] == out@[j as int]@);
                }
                stop = true;
            } else {
                proof {
                    assert(outv[j as int] == out@[j as int]@);
                }
                j = j + 1;
            }
        }
        proof {
            lemma_insert_le_position(f, x@, outv, j as int);
        }
        out.insert(j, x);
        proof {
            assert(out@.map_values(|p: PortMapping| p@) =~= outv.take(j as int) + seq![x@]
                + outv.skip(j as int));
            assert(sv.take(i + 1).drop_last() =~= sv.take(i as int));
            assert(sv.take(i + 1).last() == sv[i as int]);
            assert(sv[i as int] == x@);
            assert(out@.map_values(|p: PortMapping| p@) =~= sort_by_le(f, sv.take(i + 1)));
        }
        i = i + 1;
    }
    proof {
        assert(sv.take(n as int) =~= sv);
    }
    out
}

/// Sorts environment strings lexically; stable.
pub fn sort_strings(v: Vec<String>) -> (r: Vec<String>)
    ensures
        r@.map_values(|s: String| s@) == sort_by_le(str_le_fn(), v@.map_values(|s: String| s@)),
{
    let ghost f = str_le_fn();
    let ghost sv = v@.map_values(|s: String| s@);
    let mut out: Vec<String> = Vec::new();
    let n: usize = v.len();
    let mut i: usize = 0;
    proof {
        assert(sv.take(0) =~= Seq::<Seq<char>>::empty());
        assert(out@.map_values(|s: String| s@) =~= sort_by_le(f, sv.take(0)));
    }
    while i < n
        invariant
            n == v@.len(),
            sv == v@.map_values(|s: String| s@),
            i <= n,
            out@.map_values(|s: String| s@) == sort_by_le(f, sv.take(i as int)),
            f == str_le_fn(),
        decreases n - i,
    {
        let x = v[i].clone();
        let ghost outv = out@.map_values(|s: String| s@);
        let m: usize = out.len();
        let mut j: usize = 0;
        let mut stop: bool = false;
        while !stop
            invariant
                m == out@.len(),
                outv == out@.map_values(|s: String| s@),
                j <= m,
                forall|k: int| 0 <= k < j ==> #[trigger] f(outv[k], x@),
                f == str_le_fn(),
                stop ==> j == m || !f(outv[j as int], x@),
            decreases m - j, (if stop { 0int } else { 1int }),
        {
            if j >= m {
                stop = true;
            } else if !lex_le_str(out[j].as_str(), x.as_str()) {
                proof {
                    assert(outv[j as int] == out@[j as int]@);
                }
                stop = true;
            } else {
                proof {
                    assert(outv[j as int] == out@[j as int]@);
                }
                j = j + 1;
            }
        }
        proof {
            lemma_insert_le_position(f, x@, outv, j as int);
        }
        out.insert(j, x);
        proof {
            assert(out@.map_values(|s: String| s@) =~= outv.take(j as int) + seq![x@] + outv.skip(
                j as int,
            ));
            assert(sv.take(i + 1).drop_last() =~= sv.take(i as int));
            assert(sv.take(i + 1).last() == sv[i as int]);
            assert(sv[i as int] == x@);
            assert(out@.map_values(|s: String| s@) =~= sort_by_le(f, sv.take(i + 1)));
        }
        i = i + 1;
    }
    proof {
        assert(sv.take(n as int) =~= sv);
    }
    out
}

fn env_le_exec(a: &EnvironmentVariable, b: &EnvironmentVariable) -> (r: bool)
    ensures
        r == env_le(a@, b@),
{
    lex_le_str(a.key.as_str(), b.key.as_str())
}

/// Sorts image environment entries by key; stable.
pub fn sort_env_vars(v: Vec<EnvironmentVariable>) -> (r: Vec<EnvironmentVariable>)
    ensures
        r@.map_values(|e: EnvironmentVariable| e@) == sort_by_le(
            env_le_fn(),
            v@.map_values(|e: EnvironmentVariable| e@),
        ),
{
    let ghost f = env_le_fn();
    let ghost sv = v@.map_values(|e: EnvironmentVariable| e@);
    let mut out: Vec<EnvironmentVariable> = Vec::new();
    let n: usize = v.len();
    let mut i: usize = 0;
    proof {
        assert(sv.take(0) =~= Seq::<EnvironmentVariableView>::empty());
        assert(out@.map_values(|e: EnvironmentVariable| e@) =~= sort_by_le(f, sv.take(0)));
    }
    while i < n
        invariant
            n == v@.len(),
            sv == v@.map_values(|e: EnvironmentVariable| e@),
            i <= n,
            out@.map_values(|e: EnvironmentVariable| e@) == sort_by_le(f, sv.take(i as int)),
            f == env_le_fn(),
        decreases n - i,
    {
        let x = v[i].clone();
        let ghost outv = out@.map_values(|e: EnvironmentVariable| e@);
        let m: usize = out.len();
        let mut j: usize = 0;
        let mut stop: bool = false;
        while !stop
            invariant
                m == out@.len(),
                outv == out@.map_values(|e: EnvironmentVariable| e@),
                j <= m,
                forall|k: int| 0 <= k < j ==> #[trigger] f(outv[k], x@),
                f == env_le_fn(),
                stop ==> j == m || !f(outv[j as int], x@),
            decreases m - j, (if stop { 0int } else { 1int }),
        {
            if j >= m {
                stop = true;
            } else if !env_le_exec(&out[j], &x) {
                proof {
                    assert(outv[j as int] == out@[j as int]@);
                }
                stop = true;
            } else {
                proof {
                    assert(outv[j as int] == out@[j as int]@);
                }
                j = j + 1;
            }
        }
        proof {
            lemma_insert_le_position(f, x@, outv, j as int);
        }
        out.insert(j, x);
        proof {
            assert(out@.map_values(|e: EnvironmentVariable| e@) =~= outv.take(j as int) + seq![x@]
                + outv.skip(j as int));
            assert(sv.take(i + 1).drop_last() =~= sv.take(i as int));
            assert(sv.take(i + 1).last() == sv[i as int]);
            assert(sv[i as int] == x@);
            assert(out@.map_values(|e: EnvironmentVariable| e@) =~= sort_by_le(f, sv.take(i + 1)));
        }
        i = i + 1;
    }
    proof {
        assert(sv.take(n as int) =~= sv);
    }
    out
}

/// Sorts an image's exposed ports by container port; stable.
pub fn sort_exposed_ports(v: Vec<ContainerPortMapping>) -> (r: Vec<ContainerPortMapping>)
    ensures
        r@.map_values(|p: ContainerPortMapping| p@) == sort_by_le(
            cport_le_fn(),
            v@.map_values(|p: ContainerPortMapping| p@),
        ),
{
    let ghost f = cport_le_fn();
    let ghost sv = v@.map_values(|p: ContainerPortMapping| p@);
    let mut out: Vec<ContainerPortMapping> = Vec::new();
    let n: usize = v.len();
    let mut i: usize = 0;
    proof {
        assert(sv.take(0) =~= Seq::<ContainerPortMappingView>::empty());
        assert(out@.map_values(|p: ContainerPortMapping| p@) =~= sort_by_le(f, sv.take(0)));
    }
    while i < n
        invariant
            n == v@.len(),
            sv == v@.map_values(|p: ContainerPortMapping| p@),
            i <= n,
            out@.map_values(|p: ContainerPortMapping| p@) == sort_by_le(f, sv.take(i as int)),
            f == cport_le_fn(),
        decreases n - i,
    {
        let x = v[i].clone();
        let ghost outv = out@.map_values(|p: ContainerPortMapping| p@);
        let m: usize = out.len();
        let mut j: usize = 0;
        let mut stop: bool = false;
        while !stop
            invariant
                m == out@.len(),
                outv == out@.map_values(|p: ContainerPortMapping| p@),
                j <= m,
                forall|k: int| 0 <= k < j ==> #[trigger] f(outv[k], x@),
                f == cport_le_fn(),
                stop ==> j == m || !f(outv[j as int], x@),
            decreases m - j, (if stop { 0int } else { 1int }),
        {
            if j >= m {
                stop = true;
            } else if !(out[j].container_port <= x.container_port) {
                proof {
                    assert(outv[j as int] == out@[j as int]@);
                }
                stop = true;
            } else {
                proof {
                    assert(outv[j as int] == out@[j as int]@);
                }
                j = j + 1;
            }
        }
        proof {
            lemma_insert_le_position(f, x@, outv, j as int);
        }
        out.insert(j, x);
        proof {
            assert(out@.map_values(|p: ContainerPortMapping| p@) =~= outv.take(j as int) + seq![x@]
                + outv.skip(j as int));
            assert(sv.take(i + 1).drop_last() =~= sv.take(i as int));
            assert(sv.take(i + 1).last() == sv[i as int]);
            assert(sv[i as int] == x@);
            assert(out@.map_values(|p: ContainerPortMapping| p@) =~= sort_by_le(f, sv.take(i + 1)));
        }
        i = i + 1;
    }
    proof {
        assert(sv.take(n as int) =~= sv);
    }
    out
}

} // verus!
