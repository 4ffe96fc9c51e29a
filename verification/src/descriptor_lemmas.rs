//! What follows from the rules of a descriptor.

use vstd::prelude::*;
use crate::descriptor::{
    cpu_ids_distinct, has_cpus, named, names_distinct, sorted_by_name, uniform_cpus,
    GenericResourceDescriptorView, ResourceDescriptorView,
};
use crate::ids::CpuId;
use crate::text::{lemma_name_le_antisymmetric, lemma_name_le_reflexive, name_le};

verus! {

/// A descriptor is accepted exactly if it has a socket, every socket has a
/// CPU, no CPU identifier occurs twice and no resource name occurs twice.
pub proof fn lemma_accepted_iff_valid(d: ResourceDescriptorView)
    ensures
        d.violation() is None <==> d.valid(),
{
}

/// A descriptor without sockets, or with a socket without CPUs, is rejected
/// for its number of CPUs, whatever else it holds.
pub proof fn lemma_missing_cpus_rejected(d: ResourceDescriptorView)
    requires
        d.cpus.len() == 0 || exists|s: int| 0 <= s < d.cpus.len() && (#[trigger] d.cpus[s]).len() == 0,
    ensures
        d.violation() == Some("Invalid number of cpus"@),
{
}

/// A descriptor whose sockets all have a CPU, and in which one CPU
/// identifier stands in two sockets, is rejected for that identifier.
pub proof fn lemma_shared_cpu_rejected(
    d: ResourceDescriptorView,
    s1: int,
    i1: int,
    s2: int,
    i2: int,
)
    requires
        has_cpus(d.cpus),
        0 <= s1 < d.cpus.len(),
        0 <= i1 < d.cpus[s1].len(),
        0 <= s2 < d.cpus.len(),
        0 <= i2 < d.cpus[s2].len(),
        s1 != s2,
        d.cpus[s1][i1] == d.cpus[s2][i2],
    ensures
        d.violation() == Some("Same CPU id in two sockets"@),
{
}

/// A descriptor whose CPUs are in order, and in which two generic resources
/// have the same name, is rejected for that name.
pub proof fn lemma_shared_name_rejected(d: ResourceDescriptorView, i: int, j: int)
    requires
        has_cpus(d.cpus),
        cpu_ids_distinct(d.cpus),
        0 <= i < d.generic.len(),
        0 <= j < d.generic.len(),
        i != j,
        d.generic[i].name == d.generic[j].name,
    ensures
        d.violation() == Some("Same resource defined twice"@),
{
}

/// The CPUs of a uniform machine with at least one socket and at least one
/// CPU in each socket obey the rules of a descriptor.
pub proof fn lemma_uniform_cpus_valid(n_sockets: nat, n_cpus_per_socket: nat)
    requires
        n_sockets > 0,
        n_cpus_per_socket > 0,
        n_sockets * n_cpus_per_socket <= u32::MAX,
    ensures
        has_cpus(uniform_cpus(n_sockets, n_cpus_per_socket)),
        cpu_ids_distinct(uniform_cpus(n_sockets, n_cpus_per_socket)),
{
    let cpus = uniform_cpus(n_sockets, n_cpus_per_socket);
    assert forall|s1: int, i1: int, s2: int, i2: int|
        0 <= s1 < cpus.len() && 0 <= i1 < cpus[s1].len() && 0 <= s2 < cpus.len() && 0 <= i2
            < cpus[s2].len() && (s1 != s2 || i1 != i2) implies #[trigger] cpus[s1][i1]
        != #[trigger] cpus[s2][i2] by {
        lemma_place_in_range(n_sockets as int, n_cpus_per_socket as int, s1, i1);
        lemma_place_in_range(n_sockets as int, n_cpus_per_socket as int, s2, i2);
        if s1 < s2 {
            lemma_place_in_range(s2, n_cpus_per_socket as int, s1, i1);
        } else if s2 < s1 {
            lemma_place_in_range(s1, n_cpus_per_socket as int, s2, i2);
        }
    }
}

/// Place `i` of socket `s` has a number below that of every later socket.
proof fn lemma_place_in_range(n: int, per: int, s: int, i: int)
    requires
        0 <= s < n,
        0 <= i < per,
    ensures
        0 <= s * per + i < n * per,
{
    assert(s * per + i < n * per) by (nonlinear_arith)
        requires
            0 <= s < n,
            0 <= i < per,
    ;
    assert(0 <= s * per) by (nonlinear_arith)
        requires
            0 <= s,
            0 <= per,
    ;
}

/// Resources with distinct names, put in another order, still have distinct
/// names.
pub proof fn lemma_names_distinct_in_any_order(
    x: Seq<GenericResourceDescriptorView>,
    y: Seq<GenericResourceDescriptorView>,
)
    requires
        names_distinct(x),
        x.to_multiset() == y.to_multiset(),
    ensures
        names_distinct(y),
{
    broadcast use vstd::seq_lib::group_to_multiset_ensures;

    assert(x.no_duplicates()) by {
        assert forall|i: int, j: int| 0 <= i < x.len() && 0 <= j < x.len() && i != j implies x[i]
            != x[j] by {
            assert(x[i].name != x[j].name);
        }
    }
    x.lemma_multiset_has_no_duplicates();
    y.lemma_multiset_has_no_duplicates_conv();
    assert forall|i: int, j: int| 0 <= i < y.len() && 0 <= j < y.len() && i != j implies (
    #[trigger] y[i]).name != (#[trigger] y[j]).name by {
        assert(y[i] != y[j]);
        assert(x.to_multiset().contains(y[i]));
        assert(x.to_multiset().contains(y[j]));
        let p = choose|p: int| 0 <= p < x.len() && #[trigger] x[p] == y[i];
        let q = choose|q: int| 0 <= q < x.len() && #[trigger] x[q] == y[j];
        assert(x[p].name != x[q].name);
    }
}

/// There is one way only to put resources with distinct names into the
/// order of their names.
pub proof fn lemma_order_by_name_unique(
    x: Seq<GenericResourceDescriptorView>,
    y: Seq<GenericResourceDescriptorView>,
)
    requires
        sorted_by_name(x),
        sorted_by_name(y),
        names_distinct(x),
        x.to_multiset() == y.to_multiset(),
    ensures
        x == y,
    decreases x.len(),
{
    broadcast use vstd::multiset::group_multiset_axioms;
    broadcast use vstd::seq_lib::group_to_multiset_ensures;

    vstd::seq_lib::to_multiset_len(x);
    vstd::seq_lib::to_multiset_len(y);
    if x.len() == 0 {
        assert(x =~= y);
    } else {
        assert(y.to_multiset().contains(x[0]));
        assert(x.to_multiset().contains(y[0]));
        let i = choose|i: int| 0 <= i < x.len() && #[trigger] x[i] == y[0];
        let j = choose|j: int| 0 <= j < y.len() && #[trigger] y[j] == x[0];
        if i != 0 {
            if j != 0 {
                lemma_name_le_antisymmetric(x[0].name, x[i].name);
            }
            assert(x[i].name == x[0].name);
        }
        assert(x[0] == y[0]);
        assert(x.drop_first() =~= x.remove(0));
        assert(y.drop_first() =~= y.remove(0));
        vstd::seq_lib::to_multiset_remove(x, 0);
        vstd::seq_lib::to_multiset_remove(y, 0);
        assert(sorted_by_name(x.drop_first())) by {
            assert forall|a: int, b: int| 0 <= a < b < x.drop_first().len() implies name_le(
                (#[trigger] x.drop_first()[a]).name,
                (#[trigger] x.drop_first()[b]).name,
            ) by {
                assert(x.drop_first()[a] == x[a + 1]);
                assert(x.drop_first()[b] == x[b + 1]);
            }
        }
        assert(sorted_by_name(y.drop_first())) by {
            assert forall|a: int, b: int| 0 <= a < b < y.drop_first().len() implies name_le(
                (#[trigger] y.drop_first()[a]).name,
                (#[trigger] y.drop_first()[b]).name,
            ) by {
                assert(y.drop_first()[a] == y[a + 1]);
                assert(y.drop_first()[b] == y[b + 1]);
            }
        }
        assert(names_distinct(x.drop_first())) by {
            assert forall|a: int, b: int|
                0 <= a < x.drop_first().len() && 0 <= b < x.drop_first().len() && a != b implies (
            #[trigger] x.drop_first()[a]).name != (#[trigger] x.drop_first()[b]).name by {
                assert(x.drop_first()[a] == x[a + 1]);
                assert(x.drop_first()[b] == x[b + 1]);
            }
        }
        lemma_order_by_name_unique(x.drop_first(), y.drop_first());
        assert(x =~= seq![x[0]] + x.drop_first());
        assert(y =~= seq![y[0]] + y.drop_first());
    }
}

/// Two descriptors built from the same CPUs and from the same generic
/// resources, given in whatever order, are equal, provided that the names
/// of the resources are distinct.
pub proof fn lemma_construction_ignores_order(
    a: ResourceDescriptorView,
    b: ResourceDescriptorView,
    cpus: Seq<Seq<CpuId>>,
    generic_a: Seq<GenericResourceDescriptorView>,
    generic_b: Seq<GenericResourceDescriptorView>,
)
    requires
        a.built_from(cpus, generic_a),
        b.built_from(cpus, generic_b),
        generic_a.to_multiset() == generic_b.to_multiset(),
        names_distinct(generic_a),
    ensures
        a == b,
{
    lemma_names_distinct_in_any_order(generic_a, a.generic);
    lemma_order_by_name_unique(a.generic, b.generic);
}

/// Building a descriptor neither adds a broken rule nor mends one: the
/// built descriptor is valid exactly if the CPUs are in order and the names
/// given are distinct.
pub proof fn lemma_construction_keeps_validity(
    d: ResourceDescriptorView,
    cpus: Seq<Seq<CpuId>>,
    generic: Seq<GenericResourceDescriptorView>,
)
    requires
        d.built_from(cpus, generic),
    ensures
        d.valid() <==> has_cpus(cpus) && cpu_ids_distinct(cpus) && names_distinct(generic),
{
    if names_distinct(generic) {
        lemma_names_distinct_in_any_order(generic, d.generic);
    }
    if names_distinct(d.generic) {
        lemma_names_distinct_in_any_order(d.generic, generic);
    }
}

/// There is one way only to put resources into the order of their names
/// while those of the same name keep their order.
pub proof fn lemma_stable_order_unique(
    x: Seq<GenericResourceDescriptorView>,
    y: Seq<GenericResourceDescriptorView>,
)
    requires
        sorted_by_name(x),
        sorted_by_name(y),
        forall|name: Seq<char>| #[trigger] named(x, name) == named(y, name),
    ensures
        x == y,
    decreases x.len() + y.len(),
{
    reveal(Seq::filter);
    if x.len() == 0 && y.len() == 0 {
        assert(x =~= y);
    } else if x.len() == 0 {
        assert(named(y, y.last().name).len() > 0);
        assert(named(x, y.last().name).len() == 0);
    } else if y.len() == 0 {
        assert(named(x, x.last().name).len() > 0);
        assert(named(y, x.last().name).len() == 0);
    } else {
        let m = x.last().name;
        let n = y.last().name;
        assert(named(x, m).last() == x.last());
        assert(named(y, n).last() == y.last());
        assert(named(y, m) == named(x, m));
        assert(named(x, n) == named(y, n));
        assert(name_le(m, n)) by {
            y.lemma_filter_contains_rev(|g: GenericResourceDescriptorView| g.name == m, x.last());
            assert(named(y, m).contains(named(y, m).last()));
            let j = choose|j: int| 0 <= j < y.len() && y[j] == x.last();
            if j < y.len() - 1 {
                assert(name_le(y[j].name, y[y.len() - 1].name));
            } else {
                lemma_name_le_reflexive(m);
            }
        }
        assert(name_le(n, m)) by {
            x.lemma_filter_contains_rev(|g: GenericResourceDescriptorView| g.name == n, y.last());
            assert(named(x, n).contains(named(x, n).last()));
            let j = choose|j: int| 0 <= j < x.len() && x[j] == y.last();
            if j < x.len() - 1 {
                assert(name_le(x[j].name, x[x.len() - 1].name));
            } else {
                lemma_name_le_reflexive(n);
            }
        }
        lemma_name_le_antisymmetric(m, n);
        assert(x.last() == y.last());
        assert forall|name: Seq<char>| #[trigger]
            named(x.drop_last(), name) == named(y.drop_last(), name) by {
            assert(named(x, name) == named(y, name));
            if name == m {
                assert(named(x.drop_last(), name) =~= named(x, name).drop_last());
                assert(named(y.drop_last(), name) =~= named(y, name).drop_last());
            }
        }
        assert(sorted_by_name(x.drop_last())) by {
            assert forall|a: int, b: int| 0 <= a < b < x.drop_last().len() implies name_le(
                (#[trigger] x.drop_last()[a]).name,
                (#[trigger] x.drop_last()[b]).name,
            ) by {
                assert(x.drop_last()[a] == x[a]);
                assert(x.drop_last()[b] == x[b]);
            }
        }
        assert(sorted_by_name(y.drop_last())) by {
            assert forall|a: int, b: int| 0 <= a < b < y.drop_last().len() implies name_le(
                (#[trigger] y.drop_last()[a]).name,
                (#[trigger] y.drop_last()[b]).name,
            ) by {
                assert(y.drop_last()[a] == y[a]);
                assert(y.drop_last()[b] == y[b]);
            }
        }
        lemma_stable_order_unique(x.drop_last(), y.drop_last());
        assert(x =~= x.drop_last().push(x.last()));
        assert(y =~= y.drop_last().push(y.last()));
    }
}

/// What a descriptor is built from determines the descriptor: two
/// descriptors built from the same CPUs and the same generic resources in
/// the same order are equal.
pub proof fn lemma_construction_determined(
    a: ResourceDescriptorView,
    b: ResourceDescriptorView,
    cpus: Seq<Seq<CpuId>>,
    generic: Seq<GenericResourceDescriptorView>,
)
    requires
        a.built_from(cpus, generic),
        b.built_from(cpus, generic),
    ensures
        a == b,
{
    assert forall|name: Seq<char>| #[trigger] named(a.generic, name) == named(b.generic, name) by {
        assert(named(a.generic, name) == named(generic, name));
        assert(named(b.generic, name) == named(generic, name));
    }
    lemma_stable_order_unique(a.generic, b.generic);
}

} // verus!
