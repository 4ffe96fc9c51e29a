//! What a worker offers: CPU sockets and named generic resources.

use std::collections::HashSet;
use vstd::prelude::*;
use crate::error::ModelError;
use crate::ids::{CpuId, GenericResourceAmount, GenericResourceIndex, NumOfCpus};
use crate::sequences::lemma_filter_all_or_none;
use crate::text::{
    append_decimal, decimal, join, lemma_join_next, lemma_name_le_reflexive, lemma_name_le_total,
    lemma_name_le_transitive, name_le, name_precedes,
};
use vstd::std_specs::convert::IntoSpec;
use vstd::string::StringExecFns;

verus! {

/// The shape of one generic resource.
#[derive(Debug)]
pub enum GenericResourceDescriptorKind {
    /// Explicitly listed indices.
    List { values: Vec<GenericResourceIndex> },
    /// The indices from `start` to `end`, both included.
    Range { start: GenericResourceIndex, end: GenericResourceIndex },
    /// An amount of units that have no identity of their own.
    Sum { size: GenericResourceAmount },
}

/// Mathematical value of a [`GenericResourceDescriptorKind`].
pub enum GenericResourceKindView {
    List { values: Seq<GenericResourceIndex> },
    Range { start: GenericResourceIndex, end: GenericResourceIndex },
    Sum { size: GenericResourceAmount },
}

impl GenericResourceKindView {
    /// Number of units that the kind describes. A range whose end lies
    /// before its start describes none.
    pub open spec fn size(self) -> nat {
        match self {
            GenericResourceKindView::List { values } => values.len(),
            GenericResourceKindView::Range { start, end } => if end.0 >= start.0 {
                (end.0 - start.0 + 1) as nat
            } else {
                0
            },
            GenericResourceKindView::Sum { size } => size as nat,
        }
    }
}

impl View for GenericResourceDescriptorKind {
    type V = GenericResourceKindView;

    open spec fn view(&self) -> GenericResourceKindView {
        match self {
            GenericResourceDescriptorKind::List { values } => GenericResourceKindView::List {
                values: values@,
            },
            GenericResourceDescriptorKind::Range { start, end } => GenericResourceKindView::Range {
                start: *start,
                end: *end,
            },
            GenericResourceDescriptorKind::Sum { size } => GenericResourceKindView::Sum {
                size: *size,
            },
        }
    }
}

impl GenericResourceDescriptorKind {
    /// Total number of units of the resource.
    pub fn size(&self) -> (amount: GenericResourceAmount)
        ensures
            amount == self@.size(),
    {
        match self {
            GenericResourceDescriptorKind::List { values } => values.len() as GenericResourceAmount,
            GenericResourceDescriptorKind::Range { start, end } => {
                if end.as_num() >= start.as_num() {
                    (end.as_num() - start.as_num()) as u64 + 1
                } else {
                    0
                }
            },
            GenericResourceDescriptorKind::Sum { size } => *size,
        }
    }
}

/// A generic resource of a worker: its name and its shape.
#[derive(Debug)]
pub struct GenericResourceDescriptor {
    pub name: String,
    pub kind: GenericResourceDescriptorKind,
}

/// Mathematical value of a [`GenericResourceDescriptor`].
pub struct GenericResourceDescriptorView {
    pub name: Seq<char>,
    pub kind: GenericResourceKindView,
}

impl View for GenericResourceDescriptor {
    type V = GenericResourceDescriptorView;

    open spec fn view(&self) -> GenericResourceDescriptorView {
        GenericResourceDescriptorView { name: self.name@, kind: self.kind@ }
    }
}

impl GenericResourceDescriptor {
    /// A resource made of the indices from `start` to `end`, both included.
    pub fn range<Index: Into<GenericResourceIndex>>(name: &str, start: Index, end: Index) -> (d: Self)
        ensures
            d@.name == name@,
            Index::obeys_into_spec() ==> d@.kind == (GenericResourceKindView::Range {
                start: start.into_spec(),
                end: end.into_spec(),
            }),
    {
        GenericResourceDescriptor {
            name: name.to_owned(),
            kind: GenericResourceDescriptorKind::Range { start: start.into(), end: end.into() },
        }
    }

    /// A resource made of `size` units without identity.
    pub fn sum(name: &str, size: GenericResourceAmount) -> (d: Self)
        ensures
            d@ == (GenericResourceDescriptorView {
                name: name@,
                kind: GenericResourceKindView::Sum { size },
            }),
    {
        GenericResourceDescriptor {
            name: name.to_owned(),
            kind: GenericResourceDescriptorKind::Sum { size },
        }
    }
}

/// The CPUs of a worker, socket by socket.
pub type CpusDescriptor = Vec<Vec<CpuId>>;

/// Mathematical value of a `CpusDescriptor`.
pub open spec fn cpus_view(cpus: Seq<Vec<CpuId>>) -> Seq<Seq<CpuId>> {
    cpus.map_values(|socket: Vec<CpuId>| socket@)
}

/// Mathematical value of a list of generic resources.
pub open spec fn generic_view(generic: Seq<GenericResourceDescriptor>) -> Seq<
    GenericResourceDescriptorView,
> {
    generic.map_values(|g: GenericResourceDescriptor| g@)
}

/// Sockets of a uniform machine: `n_sockets` sockets of `n_cpus_per_socket`
/// CPUs each, numbered from zero, socket after socket.
pub open spec fn uniform_cpus(n_sockets: nat, n_cpus_per_socket: nat) -> Seq<Seq<CpuId>> {
    Seq::new(
        n_sockets,
        |s: int| Seq::new(n_cpus_per_socket, |i: int| CpuId((s * n_cpus_per_socket + i) as u32)),
    )
}

/// Describes the CPUs of a uniform machine.
///
/// The identifiers must fit in 32 bits.
pub fn cpu_descriptor_from_socket_size(n_sockets: NumOfCpus, n_cpus_per_socket: NumOfCpus) -> (cpus:
    CpusDescriptor)
    requires
        n_sockets * n_cpus_per_socket <= u32::MAX,
    ensures
        cpus_view(cpus@) == uniform_cpus(n_sockets as nat, n_cpus_per_socket as nat),
{
    let mut cpus: Vec<Vec<CpuId>> = Vec::new();
    let mut cpu_id_counter: u32 = 0;
    let mut s: u32 = 0;
    while s < n_sockets
        invariant
            n_sockets * n_cpus_per_socket <= u32::MAX,
            s <= n_sockets,
            cpu_id_counter == s * n_cpus_per_socket,
            cpus@.len() == s,
            forall|k: int|
                0 <= k < s ==> (#[trigger] cpus@[k])@ == uniform_cpus(
                    n_sockets as nat,
                    n_cpus_per_socket as nat,
                )[k],
        decreases n_sockets - s,
    {
        let mut socket: Vec<CpuId> = Vec::new();
        let mut i: u32 = 0;
        proof {
            assert((s + 1) * n_cpus_per_socket <= n_sockets * n_cpus_per_socket)
                by (nonlinear_arith)
                requires
                    s + 1 <= n_sockets,
            ;
            assert((s + 1) * n_cpus_per_socket == s * n_cpus_per_socket + n_cpus_per_socket)
                by (nonlinear_arith);
        }
        while i < n_cpus_per_socket
            invariant
                i <= n_cpus_per_socket,
                s * n_cpus_per_socket + n_cpus_per_socket <= u32::MAX,
                cpu_id_counter == s * n_cpus_per_socket + i,
                socket@.len() == i,
                forall|k: int|
                    0 <= k < i ==> (#[trigger] socket@[k]).0 == s * n_cpus_per_socket + k,
            decreases n_cpus_per_socket - i,
        {
            socket.push(CpuId::new(cpu_id_counter));
            cpu_id_counter += 1;
            i += 1;
        }
        proof {
            assert(socket@ =~= uniform_cpus(n_sockets as nat, n_cpus_per_socket as nat)[s as int]);
        }
        cpus.push(socket);
        s += 1;
    }
    proof {
        assert(cpus_view(cpus@) =~= uniform_cpus(n_sockets as nat, n_cpus_per_socket as nat));
    }
    cpus
}

/// What a worker offers in full: its CPUs and its generic resources.
#[derive(Debug)]
pub struct ResourceDescriptor {
    pub cpus: CpusDescriptor,
    pub generic: Vec<GenericResourceDescriptor>,
}

/// Mathematical value of a [`ResourceDescriptor`].
pub struct ResourceDescriptorView {
    pub cpus: Seq<Seq<CpuId>>,
    pub generic: Seq<GenericResourceDescriptorView>,
}

impl View for ResourceDescriptor {
    type V = ResourceDescriptorView;

    open spec fn view(&self) -> ResourceDescriptorView {
        ResourceDescriptorView {
            cpus: cpus_view(self.cpus@),
            generic: generic_view(self.generic@),
        }
    }
}

/// There is a socket, and every socket has a CPU.
pub open spec fn has_cpus(cpus: Seq<Seq<CpuId>>) -> bool {
    &&& cpus.len() > 0
    &&& forall|s: int| 0 <= s < cpus.len() ==> (#[trigger] cpus[s]).len() > 0
}

/// No CPU identifier stands at two places of the sockets.
pub open spec fn cpu_ids_distinct(cpus: Seq<Seq<CpuId>>) -> bool {
    forall|s1: int, i1: int, s2: int, i2: int|
        0 <= s1 < cpus.len() && 0 <= i1 < cpus[s1].len() && 0 <= s2 < cpus.len() && 0 <= i2
            < cpus[s2].len() && (s1 != s2 || i1 != i2) ==> #[trigger] cpus[s1][i1]
            != #[trigger] cpus[s2][i2]
}

/// No two generic resources have the same name.
pub open spec fn names_distinct(generic: Seq<GenericResourceDescriptorView>) -> bool {
    forall|i: int, j: int|
        0 <= i < generic.len() && 0 <= j < generic.len() && i != j ==> (#[trigger] generic[i]).name
            != (#[trigger] generic[j]).name
}

/// The generic resources stand in the order of their names.
pub open spec fn sorted_by_name(generic: Seq<GenericResourceDescriptorView>) -> bool {
    forall|i: int, j: int|
        0 <= i < j < generic.len() ==> name_le(
            (#[trigger] generic[i]).name,
            (#[trigger] generic[j]).name,
        )
}

impl ResourceDescriptorView {
    /// The message of the first rule that the descriptor breaks, if it
    /// breaks one. The rules are taken in a fixed order: the sockets, the
    /// CPU identifiers, the names of the generic resources.
    pub open spec fn violation(self) -> Option<Seq<char>> {
        if !has_cpus(self.cpus) {
            Some("Invalid number of cpus"@)
        } else if !cpu_ids_distinct(self.cpus) {
            Some("Same CPU id in two sockets"@)
        } else if !names_distinct(self.generic) {
            Some("Same resource defined twice"@)
        } else {
            None
        }
    }

    /// The descriptor breaks no rule.
    pub open spec fn valid(self) -> bool {
        &&& has_cpus(self.cpus)
        &&& cpu_ids_distinct(self.cpus)
        &&& names_distinct(self.generic)
    }
}

/// Whether there is a socket and every socket has a CPU.
fn check_has_cpus(cpus: &CpusDescriptor) -> (r: bool)
    ensures
        r == has_cpus(cpus_view(cpus@)),
{
    if cpus.len() == 0 {
        return false;
    }
    let mut s: usize = 0;
    while s < cpus.len()
        invariant
            s <= cpus@.len(),
            forall|k: int| 0 <= k < s ==> (#[trigger] cpus_view(cpus@)[k]).len() > 0,
        decreases cpus@.len() - s,
    {
        if cpus[s].len() == 0 {
            assert(cpus_view(cpus@)[s as int].len() == 0);
            return false;
        }
        s += 1;
    }
    true
}

/// The CPU identifiers that stand before place `i` of socket `s`.
spec fn ids_before(cpus: Seq<Seq<CpuId>>, s: int, i: int) -> Set<u32> {
    Set::new(
        |id: u32|
            exists|s1: int, i1: int|
                0 <= s1 < cpus.len() && 0 <= i1 < cpus[s1].len() && (s1 < s || (s1 == s && i1 < i))
                    && (#[trigger] cpus[s1][i1]).0 == id,
    )
}

/// No identifier stands at two places before place `i` of socket `s`.
spec fn distinct_before(cpus: Seq<Seq<CpuId>>, s: int, i: int) -> bool {
    forall|s1: int, i1: int, s2: int, i2: int|
        0 <= s1 < cpus.len() && 0 <= i1 < cpus[s1].len() && 0 <= s2 < cpus.len() && 0 <= i2
            < cpus[s2].len() && (s1 != s2 || i1 != i2) && (s1 < s || (s1 == s && i1 < i)) && (s2 < s
            || (s2 == s && i2 < i)) ==> #[trigger] cpus[s1][i1] != #[trigger] cpus[s2][i2]
}

/// Whether no CPU identifier stands at two places.
fn check_cpu_ids_distinct(cpus: &CpusDescriptor) -> (r: bool)
    ensures
        r == cpu_ids_distinct(cpus_view(cpus@)),
{
    let ghost view = cpus_view(cpus@);
    let mut seen: HashSet<u32> = HashSet::new();
    let mut s: usize = 0;
    proof {
        assert(seen@ =~= ids_before(view, 0, 0));
    }
    while s < cpus.len()
        invariant
            view == cpus_view(cpus@),
            s <= cpus@.len(),
            seen@ == ids_before(view, s as int, 0),
            distinct_before(view, s as int, 0),
        decreases cpus@.len() - s,
    {
        let socket = &cpus[s];
        assert(socket@ == view[s as int]);
        let mut i: usize = 0;
        while i < socket.len()
            invariant
                view == cpus_view(cpus@),
                s < cpus@.len(),
                socket@ == view[s as int],
                i <= socket@.len(),
                seen@ == ids_before(view, s as int, i as int),
                distinct_before(view, s as int, i as int),
            decreases socket@.len() - i,
        {
            let id = socket[i].as_num();
            if seen.contains(&id) {
                proof {
                    let (s1, i1) = choose|s1: int, i1: int|
                        0 <= s1 < view.len() && 0 <= i1 < view[s1].len() && (s1 < s || (s1 == s
                            && i1 < i)) && (#[trigger] view[s1][i1]).0 == id;
                    assert(view[s1][i1] == view[s as int][i as int]);
                }
                return false;
            }
            seen.insert(id);
            proof {
                assert(seen@ =~= ids_before(view, s as int, i + 1)) by {
                    assert forall|x: u32| ids_before(view, s as int, i + 1).contains(x) implies seen@.contains(x) by {
                        let (s1, i1) = choose|s1: int, i1: int|
                            0 <= s1 < view.len() && 0 <= i1 < view[s1].len() && (s1 < s || (s1 == s
                                && i1 < i + 1)) && (#[trigger] view[s1][i1]).0 == x;
                        if s1 == s && i1 == i {
                        } else {
                            assert(ids_before(view, s as int, i as int).contains(x));
                        }
                    }
                    assert forall|x: u32| seen@.contains(x) implies ids_before(view, s as int, i + 1).contains(x) by {
                        if x == id {
                            assert(view[s as int][i as int].0 == x);
                        } else {
                            assert(ids_before(view, s as int, i as int).contains(x));
                            let (s1, i1) = choose|s1: int, i1: int|
                                0 <= s1 < view.len() && 0 <= i1 < view[s1].len() && (s1 < s || (s1
                                    == s && i1 < i)) && (#[trigger] view[s1][i1]).0 == x;
                            assert(view[s1][i1].0 == x);
                        }
                    }
                }
                assert(distinct_before(view, s as int, i + 1)) by {
                    assert forall|s1: int, i1: int, s2: int, i2: int|
                        0 <= s1 < view.len() && 0 <= i1 < view[s1].len() && 0 <= s2 < view.len()
                            && 0 <= i2 < view[s2].len() && (s1 != s2 || i1 != i2) && (s1 < s || (s1
                            == s && i1 < i + 1)) && (s2 < s || (s2 == s && i2 < i + 1)) implies #[trigger] view[s1][i1]
                        != #[trigger] view[s2][i2] by {
                        if s1 == s && i1 == i {
                            if view[s2][i2] == view[s1][i1] {
                                assert(ids_before(view, s as int, i as int).contains(view[s2][i2].0));
                            }
                        } else if s2 == s && i2 == i {
                            if view[s2][i2] == view[s1][i1] {
                                assert(ids_before(view, s as int, i as int).contains(view[s1][i1].0));
                            }
                        }
                    }
                }
            }
            i += 1;
        }
        proof {
            assert(ids_before(view, s as int, i as int) =~= ids_before(view, s + 1, 0));
        }
        s += 1;
    }
    true
}

/// Whether no two generic resources have the same name.
fn check_names_distinct(generic: &Vec<GenericResourceDescriptor>) -> (r: bool)
    ensures
        r == names_distinct(generic_view(generic@)),
{
    let ghost view = generic_view(generic@);
    let mut j: usize = 0;
    while j < generic.len()
        invariant
            view == generic_view(generic@),
            j <= generic@.len(),
            forall|a: int, b: int|
                0 <= a < b < j ==> (#[trigger] view[a]).name != (#[trigger] view[b]).name,
        decreases generic@.len() - j,
    {
        let mut i: usize = 0;
        while i < j
            invariant
                view == generic_view(generic@),
                j < generic@.len(),
                i <= j,
                forall|a: int| 0 <= a < i ==> (#[trigger] view[a]).name != view[j as int].name,
            decreases j - i,
        {
            if generic[i].name == generic[j].name {
                assert(view[i as int].name == view[j as int].name);
                return false;
            }
            i += 1;
        }
        j += 1;
    }
    proof {
        assert forall|a: int, b: int|
            0 <= a < view.len() && 0 <= b < view.len() && a != b implies (#[trigger] view[a]).name
            != (#[trigger] view[b]).name by {
            if a < b {
            } else {
                assert(view[b].name != view[a].name);
            }
        }
    }
    true
}

/// The resources of the given name, in their order.
pub open spec fn named(generic: Seq<GenericResourceDescriptorView>, name: Seq<char>) -> Seq<
    GenericResourceDescriptorView,
> {
    generic.filter(|g: GenericResourceDescriptorView| g.name == name)
}

/// The resources of a name among some resources followed by others are
/// those among the first followed by those among the others.
pub proof fn lemma_named_add(
    a: Seq<GenericResourceDescriptorView>,
    b: Seq<GenericResourceDescriptorView>,
    name: Seq<char>,
)
    ensures
        named(a + b, name) == named(a, name) + named(b, name),
{
    Seq::filter_distributes_over_add(a, b, |g: GenericResourceDescriptorView| g.name == name);
}

/// Moves the resources into the order of their names. Resources of the
/// same name stay in the order in which they were given.
fn sort_by_name(generic: Vec<GenericResourceDescriptor>) -> (sorted: Vec<GenericResourceDescriptor>)
    ensures
        sorted_by_name(generic_view(sorted@)),
        generic_view(sorted@).to_multiset() == generic_view(generic@).to_multiset(),
        forall|name: Seq<char>| #[trigger]
            named(generic_view(sorted@), name) == named(generic_view(generic@), name),
{
    broadcast use vstd::multiset::group_multiset_axioms;
    broadcast use vstd::seq_lib::group_to_multiset_ensures;

    let ghost all = generic_view(generic@).to_multiset();
    let ghost given = generic_view(generic@);
    let mut rest = generic;
    let mut sorted: Vec<GenericResourceDescriptor> = Vec::new();
    proof {
        assert(generic_view(sorted@) =~= Seq::empty());
        assert(generic_view(sorted@).to_multiset().add(all) =~= all);
        assert forall|name: Seq<char>| #[trigger]
            named(given, name) == named(generic_view(rest@), name) + named(
                generic_view(sorted@),
                name,
            ) by {
            lemma_named_add(given, Seq::empty(), name);
            assert(given + Seq::empty() =~= given);
        }
    }
    while rest.len() > 0
        invariant
            sorted_by_name(generic_view(sorted@)),
            generic_view(sorted@).to_multiset().add(generic_view(rest@).to_multiset()) == all,
            forall|name: Seq<char>| #[trigger]
                named(given, name) == named(generic_view(rest@), name) + named(
                    generic_view(sorted@),
                    name,
                ),
        decreases rest@.len(),
    {
        let ghost before = generic_view(sorted@);
        let ghost waiting = generic_view(rest@);
        let item = rest.pop().unwrap();
        let mut at: usize = 0;
        while at < sorted.len() && !name_precedes(item.name.as_str(), sorted[at].name.as_str())
            invariant
                before == generic_view(sorted@),
                at <= sorted@.len(),
                forall|k: int| 0 <= k < at ==> !name_le(item@.name, (#[trigger] before[k]).name),
            decreases sorted@.len() - at,
        {
            at += 1;
        }
        sorted.insert(at, item);
        proof {
            let after = generic_view(sorted@);
            assert(after =~= before.insert(at as int, item@));
            assert(generic_view(rest@) =~= waiting.drop_last());
            assert(waiting =~= generic_view(rest@).push(item@));
            vstd::seq_lib::to_multiset_insert(before, at as int, item@);
            vstd::seq_lib::to_multiset_build(generic_view(rest@), item@);
            assert(after.to_multiset().add(generic_view(rest@).to_multiset()) =~= all);
            assert forall|name: Seq<char>| #[trigger]
                named(given, name) == named(generic_view(rest@), name) + named(after, name) by {
                let front = before.take(at as int);
                let back = before.skip(at as int);
                assert(before =~= front + back);
                assert(after =~= front + seq![item@] + back);
                lemma_named_add(front, back, name);
                lemma_named_add(front + seq![item@], back, name);
                lemma_named_add(front, seq![item@], name);
                lemma_named_add(generic_view(rest@), seq![item@], name);
                assert(waiting =~= generic_view(rest@) + seq![item@]);
                lemma_filter_all_or_none(
                    seq![item@],
                    |g: GenericResourceDescriptorView| g.name == name,
                );
                if item@.name == name {
                    assert forall|k: int| 0 <= k < front.len() implies (#[trigger] front[k]).name
                        != name by {
                        lemma_name_le_reflexive(name);
                        assert(front[k] == before[k]);
                    }
                    lemma_filter_all_or_none(
                        front,
                        |g: GenericResourceDescriptorView| g.name == name,
                    );
                    assert(named(front, name) =~= Seq::empty());
                    assert(named(waiting, name) + named(before, name) =~= named(
                        generic_view(rest@),
                        name,
                    ) + named(after, name));
                } else {
                    assert(named(seq![item@], name) =~= Seq::empty());
                    assert(named(waiting, name) + named(before, name) =~= named(
                        generic_view(rest@),
                        name,
                    ) + named(after, name));
                }
            }
            assert forall|i: int, j: int| 0 <= i < j < after.len() implies name_le(
                (#[trigger] after[i]).name,
                (#[trigger] after[j]).name,
            ) by {
                if j == at {
                    lemma_name_le_total(item@.name, before[i].name);
                } else if i == at {
                    assert(after[j] == before[j - 1]);
                    if j - 1 > at {
                        lemma_name_le_transitive(
                            item@.name,
                            before[at as int].name,
                            before[j - 1].name,
                        );
                    }
                } else {
                    let bi = if i < at { i } else { i - 1 };
                    let bj = if j < at { j } else { j - 1 };
                    assert(after[i] == before[bi]);
                    assert(after[j] == before[bj]);
                }
            }
        }
    }
    proof {
        assert(generic_view(rest@) =~= Seq::empty());
        assert(generic_view(sorted@).to_multiset().add(generic_view(rest@).to_multiset())
            =~= generic_view(sorted@).to_multiset());
        assert forall|name: Seq<char>| #[trigger]
            named(generic_view(sorted@), name) == named(given, name) by {
            lemma_named_add(Seq::empty(), generic_view(sorted@), name);
            assert(Seq::empty() + generic_view(sorted@) =~= generic_view(sorted@));
            lemma_filter_all_or_none(
                Seq::<GenericResourceDescriptorView>::empty(),
                |g: GenericResourceDescriptorView| g.name == name,
            );
        }
    }
    sorted
}

impl ResourceDescriptorView {
    /// The descriptor holds the given CPUs and the given generic resources,
    /// the latter in the order of their names, those of the same name in
    /// the order in which they were given.
    pub open spec fn built_from(
        self,
        cpus: Seq<Seq<CpuId>>,
        generic: Seq<GenericResourceDescriptorView>,
    ) -> bool {
        &&& self.cpus == cpus
        &&& sorted_by_name(self.generic)
        &&& self.generic.to_multiset() == generic.to_multiset()
        &&& forall|name: Seq<char>| #[trigger] named(self.generic, name) == named(generic, name)
    }
}

impl ResourceDescriptor {
    /// Builds a descriptor. The generic resources are put into the order of
    /// their names: in which order they were given makes no difference.
    pub fn new(cpus: CpusDescriptor, generic: Vec<GenericResourceDescriptor>) -> (d: Self)
        ensures
            d@.built_from(cpus_view(cpus@), generic_view(generic@)),
    {
        let generic = sort_by_name(generic);
        ResourceDescriptor { cpus, generic }
    }

    /// Checks the rules of a descriptor: there is a socket and every socket
    /// has a CPU; no CPU identifier occurs twice; no name of a generic
    /// resource occurs twice. The error tells the first rule that is broken.
    pub fn validate(&self) -> (r: Result<(), ModelError>)
        ensures
            match self@.violation() {
                None => r is Ok,
                Some(message) => r matches Err(ModelError::GenericError(text)) && text@ == message,
            },
    {
        if !check_has_cpus(&self.cpus) {
            return Err(ModelError::GenericError("Invalid number of cpus".to_owned()));
        }
        if !check_cpu_ids_distinct(&self.cpus) {
            return Err(ModelError::GenericError("Same CPU id in two sockets".to_owned()));
        }
        if !check_names_distinct(&self.generic) {
            return Err(ModelError::GenericError("Same resource defined twice".to_owned()));
        }
        Ok(())
    }
}

/// The decimal renderings of the CPU identifiers of a socket.
pub open spec fn cpu_numbers(socket: Seq<CpuId>) -> Seq<Seq<char>> {
    socket.map_values(|id: CpuId| decimal(id.0 as nat))
}

/// A socket in words: its CPU identifiers in brackets, with a comma and a
/// space between each two.
pub open spec fn describe_socket(socket: Seq<CpuId>) -> Seq<char> {
    "["@ + join(cpu_numbers(socket), ", "@) + "]"@
}

/// The sockets in words, with a comma and a space between each two.
pub open spec fn describe_cpus(cpus: Seq<Seq<CpuId>>) -> Seq<char> {
    join(cpus.map_values(|socket: Seq<CpuId>| describe_socket(socket)), ", "@)
}

/// Appends the description of a socket to `out`.
fn append_socket(out: &mut String, socket: &Vec<CpuId>)
    ensures
        final(out)@ == old(out)@ + describe_socket(socket@),
{
    let ghost parts = cpu_numbers(socket@);
    out.append("[");
    let ghost start = out@;
    let mut i: usize = 0;
    proof {
        assert(parts.take(0) =~= Seq::empty());
        assert(out@ =~= start + join(parts.take(0), ", "@));
    }
    while i < socket.len()
        invariant
            i <= socket@.len(),
            parts == cpu_numbers(socket@),
            out@ == start + join(parts.take(i as int), ", "@),
        decreases socket@.len() - i,
    {
        let ghost joined = join(parts.take(i as int), ", "@);
        if i > 0 {
            out.append(", ");
        }
        append_decimal(out, socket[i].as_num() as u64);
        proof {
            lemma_join_next(parts, ", "@, i as int);
            assert(parts[i as int] == decimal(socket@[i as int].0 as nat));
            if i == 0 {
                assert(joined =~= Seq::empty());
                assert(out@ =~= start + join(parts.take(i + 1), ", "@));
            } else {
                assert(out@ =~= start + join(parts.take(i + 1), ", "@));
            }
        }
        i += 1;
    }
    proof {
        assert(parts.take(i as int) =~= parts);
    }
    out.append("]");
    proof {
        assert(out@ =~= old(out)@ + describe_socket(socket@));
    }
}

impl ResourceDescriptor {
    /// The sockets and their CPUs in words, for a person to read.
    pub fn full_describe(&self) -> (text: String)
        ensures
            text@ == describe_cpus(self@.cpus),
    {
        let ghost parts = self@.cpus.map_values(|socket: Seq<CpuId>| describe_socket(socket));
        let mut out = String::new();
        let mut s: usize = 0;
        proof {
            assert(parts.take(0) =~= Seq::empty());
        }
        while s < self.cpus.len()
            invariant
                s <= self.cpus@.len(),
                parts == self@.cpus.map_values(|socket: Seq<CpuId>| describe_socket(socket)),
                out@ == join(parts.take(s as int), ", "@),
            decreases self.cpus@.len() - s,
        {
            if s > 0 {
                out.append(", ");
            }
            append_socket(&mut out, &self.cpus[s]);
            proof {
                lemma_join_next(parts, ", "@, s as int);
                assert(parts[s as int] == describe_socket(self.cpus@[s as int]@));
                assert(out@ =~= join(parts.take(s + 1), ", "@));
            }
            s += 1;
        }
        proof {
            assert(parts.take(s as int) =~= parts);
        }
        out
    }
}

/// The decimal renderings of the indices of a resource.
pub open spec fn index_numbers(values: Seq<GenericResourceIndex>) -> Seq<Seq<char>> {
    values.map_values(|index: GenericResourceIndex| decimal(index.0 as nat))
}

impl GenericResourceKindView {
    /// The kind in words: `List(1,2,5)`, `Range(0-7)` or `Sum(1000)`.
    pub open spec fn describe(self) -> Seq<char> {
        match self {
            GenericResourceKindView::List { values } => "List("@ + join(
                index_numbers(values),
                ","@,
            ) + ")"@,
            GenericResourceKindView::Range { start, end } => "Range("@ + decimal(start.0 as nat)
                + "-"@ + decimal(end.0 as nat) + ")"@,
            GenericResourceKindView::Sum { size } => "Sum("@ + decimal(size as nat) + ")"@,
        }
    }
}

impl GenericResourceDescriptorKind {
    /// The kind in words, for a person to read.
    pub fn to_string(&self) -> (text: String)
        ensures
            text@ == self@.describe(),
    {
        match self {
            GenericResourceDescriptorKind::List { values } => {
                let ghost parts = index_numbers(values@);
                let mut out = "List(".to_owned();
                let ghost start = out@;
                let mut i: usize = 0;
                proof {
                    assert(parts.take(0) =~= Seq::empty());
                    assert(out@ =~= start + join(parts.take(0), ","@));
                }
                while i < values.len()
                    invariant
                        i <= values@.len(),
                        parts == index_numbers(values@),
                        out@ == start + join(parts.take(i as int), ","@),
                    decreases values@.len() - i,
                {
                    let ghost joined = join(parts.take(i as int), ","@);
                    if i > 0 {
                        out.append(",");
                    }
                    append_decimal(&mut out, values[i].as_num() as u64);
                    proof {
                        lemma_join_next(parts, ","@, i as int);
                        assert(parts[i as int] == decimal(values@[i as int].0 as nat));
                        if i == 0 {
                            assert(joined =~= Seq::empty());
                        }
                        assert(out@ =~= start + join(parts.take(i + 1), ","@));
                    }
                    i += 1;
                }
                proof {
                    assert(parts.take(i as int) =~= parts);
                }
                out.append(")");
                out
            },
            GenericResourceDescriptorKind::Range { start, end } => {
                let mut out = "Range(".to_owned();
                append_decimal(&mut out, start.as_num() as u64);
                out.append("-");
                append_decimal(&mut out, end.as_num() as u64);
                out.append(")");
                out
            },
            GenericResourceDescriptorKind::Sum { size } => {
                let mut out = "Sum(".to_owned();
                append_decimal(&mut out, *size);
                out.append(")");
                out
            },
        }
    }
}

impl Clone for GenericResourceDescriptorKind {
    fn clone(&self) -> (copy: Self)
        ensures
            copy@ == self@,
    {
        match self {
            GenericResourceDescriptorKind::List { values } => {
                let mut copied: Vec<GenericResourceIndex> = Vec::new();
                let mut i: usize = 0;
                while i < values.len()
                    invariant
                        i <= values@.len(),
                        copied@ == values@.take(i as int),
                    decreases values@.len() - i,
                {
                    copied.push(values[i]);
                    proof {
                        assert(copied@ =~= values@.take(i + 1));
                    }
                    i += 1;
                }
                proof {
                    assert(values@.take(i as int) =~= values@);
                }
                GenericResourceDescriptorKind::List { values: copied }
            },
            GenericResourceDescriptorKind::Range { start, end } => {
                GenericResourceDescriptorKind::Range { start: *start, end: *end }
            },
            GenericResourceDescriptorKind::Sum { size } => GenericResourceDescriptorKind::Sum {
                size: *size,
            },
        }
    }
}

impl Clone for GenericResourceDescriptor {
    fn clone(&self) -> (copy: Self)
        ensures
            copy@ == self@,
    {
        GenericResourceDescriptor { name: self.name.clone(), kind: self.kind.clone() }
    }
}

impl Clone for ResourceDescriptor {
    fn clone(&self) -> (copy: Self)
        ensures
            copy@ == self@,
    {
        let mut cpus: Vec<Vec<CpuId>> = Vec::new();
        let mut s: usize = 0;
        while s < self.cpus.len()
            invariant
                s <= self.cpus@.len(),
                cpus_view(cpus@) == cpus_view(self.cpus@).take(s as int),
            decreases self.cpus@.len() - s,
        {
            let socket = &self.cpus[s];
            let mut copied: Vec<CpuId> = Vec::new();
            let mut i: usize = 0;
            while i < socket.len()
                invariant
                    i <= socket@.len(),
                    copied@ == socket@.take(i as int),
                decreases socket@.len() - i,
            {
                copied.push(socket[i]);
                proof {
                    assert(copied@ =~= socket@.take(i + 1));
                }
                i += 1;
            }
            proof {
                assert(socket@.take(i as int) =~= socket@);
            }
            let ghost before = cpus_view(cpus@);
            cpus.push(copied);
            proof {
                assert(cpus_view(cpus@) =~= before.push(copied@));
                assert(cpus_view(self.cpus@)[s as int] == socket@);
                assert(cpus_view(cpus@) =~= cpus_view(self.cpus@).take(s + 1));
            }
            s += 1;
        }
        let mut generic: Vec<GenericResourceDescriptor> = Vec::new();
        let mut g: usize = 0;
        while g < self.generic.len()
            invariant
                g <= self.generic@.len(),
                generic_view(generic@) == generic_view(self.generic@).take(g as int),
            decreases self.generic@.len() - g,
        {
            let ghost before = generic_view(generic@);
            let item = self.generic[g].clone();
            generic.push(item);
            proof {
                assert(generic_view(generic@) =~= before.push(item@));
                assert(generic_view(self.generic@)[g as int] == self.generic@[g as int]@);
                assert(generic_view(generic@) =~= generic_view(self.generic@).take(g + 1));
            }
            g += 1;
        }
        proof {
            assert(cpus_view(self.cpus@).take(s as int) =~= cpus_view(self.cpus@));
            assert(generic_view(self.generic@).take(g as int) =~= generic_view(self.generic@));
        }
        ResourceDescriptor { cpus, generic }
    }
}

} // verus!
