//! The dependents query: who publicly depends on a pack, and who holds
//! baseline violations against it, aggregated by violation type.

use vstd::prelude::*;

use crate::error::{PackError, PackErrorView};
use crate::pack::{has_pack, Configuration, PackView, TodoEntryView};
use crate::strings::{
    dup_string, lex_sorted, seq_contains_string, sort_strings, string_eq, strings_contain,
};

verus! {

/// How many entries of `s` equal `t`.
pub open spec fn count_in_seq(s: Seq<Seq<char>>, t: Seq<char>) -> nat
    decreases s.len(),
{
    if s.len() == 0 {
        0
    } else {
        count_in_seq(s.drop_last(), t) + (if s.last() == t {
            1nat
        } else {
            0nat
        })
    }
}

pub proof fn lemma_count_in_seq_le_len(s: Seq<Seq<char>>, t: Seq<char>)
    ensures
        count_in_seq(s, t) <= s.len(),
    decreases s.len(),
{
    if s.len() > 0 {
        lemma_count_in_seq_le_len(s.drop_last(), t);
    }
}

/// The distinct entries of `s`, each at its first occurrence.
pub open spec fn distinct_strings(s: Seq<Seq<char>>) -> Seq<Seq<char>>
    decreases s.len(),
{
    if s.len() == 0 {
        Seq::empty()
    } else {
        let prefix = distinct_strings(s.drop_last());
        if seq_contains_string(s.drop_last(), s.last()) {
            prefix
        } else {
            prefix.push(s.last())
        }
    }
}

/// One violation type and how often it was recorded.
pub struct TypeCount {
    pub violation_type: String,
    pub count: usize,
}

/// The mathematical content of a `TypeCount`.
#[verifier::ext_equal]
pub ghost struct TypeCountView {
    pub violation_type: Seq<char>,
    pub count: nat,
}

impl View for TypeCount {
    type V = TypeCountView;

    open spec fn view(&self) -> TypeCountView {
        TypeCountView { violation_type: self.violation_type@, count: self.count as nat }
    }
}

impl DeepView for TypeCount {
    type V = TypeCountView;

    open spec fn deep_view(&self) -> TypeCountView {
        self.view()
    }
}

/// The tally of `types`: each distinct violation type, at its first
/// occurrence, with the number of times it occurs in all of `types`.
pub open spec fn tally(types: Seq<Seq<char>>) -> Seq<TypeCountView> {
    Seq::new(
        distinct_strings(types).len(),
        |i: int|
            TypeCountView {
                violation_type: distinct_strings(types)[i],
                count: count_in_seq(types, distinct_strings(types)[i]),
            },
    )
}

/// The violation types of every group of the entries recorded against
/// `target`, in order, repeats kept.
pub open spec fn types_against(entries: Seq<TodoEntryView>, target: Seq<char>) -> Seq<Seq<char>>
    decreases entries.len(),
{
    if entries.len() == 0 {
        Seq::empty()
    } else {
        types_against(entries.drop_last(), target) + (if entries.last().defining_pack_name
            == target {
            types_of_groups(entries.last().groups)
        } else {
            Seq::empty()
        })
    }
}

/// The violation types of every group, concatenated in order.
pub open spec fn types_of_groups(groups: Seq<crate::pack::ConstantGroupView>) -> Seq<Seq<char>>
    decreases groups.len(),
{
    if groups.len() == 0 {
        Seq::empty()
    } else {
        types_of_groups(groups.drop_last()) + groups.last().violation_types
    }
}

/// The pack holds at least one baseline group against `target`.
pub open spec fn has_group_against(entries: Seq<TodoEntryView>, target: Seq<char>) -> bool {
    exists|i: int|
        0 <= i < entries.len() && entries[i].defining_pack_name == target && entries[i].groups.len()
            > 0
}

/// One pack holding baseline violations against the queried pack, with the
/// per-type counts.
pub struct ViolationDependent {
    pub pack_name: String,
    pub counts: Vec<TypeCount>,
}

/// The mathematical content of a `ViolationDependent`.
#[verifier::ext_equal]
pub ghost struct ViolationDependentView {
    pub pack_name: Seq<char>,
    pub counts: Seq<TypeCountView>,
}

impl View for ViolationDependent {
    type V = ViolationDependentView;

    open spec fn view(&self) -> ViolationDependentView {
        ViolationDependentView { pack_name: self.pack_name@, counts: self.counts.deep_view() }
    }
}

impl DeepView for ViolationDependent {
    type V = ViolationDependentView;

    open spec fn deep_view(&self) -> ViolationDependentView {
        self.view()
    }
}

/// The names of the packs, other than the target, that declare the target as
/// a dependency, in pack order (before sorting).
pub open spec fn dependent_names(packs: Seq<PackView>, target: Seq<char>) -> Seq<Seq<char>>
    decreases packs.len(),
{
    if packs.len() == 0 {
        Seq::empty()
    } else {
        let prefix = dependent_names(packs.drop_last(), target);
        let p = packs.last();
        if p.name != target && seq_contains_string(p.dependencies, target) {
            prefix.push(p.name)
        } else {
            prefix
        }
    }
}

/// Every pack, other than the target, holding baseline groups against the
/// target, with its tally, in pack order.
pub open spec fn violation_dependents_spec(packs: Seq<PackView>, target: Seq<char>) -> Seq<
    ViolationDependentView,
>
    decreases packs.len(),
{
    if packs.len() == 0 {
        Seq::empty()
    } else {
        let prefix = violation_dependents_spec(packs.drop_last(), target);
        let p = packs.last();
        if p.name != target && has_group_against(p.package_todo.violations_by_defining_pack, target) {
            prefix.push(
                ViolationDependentView {
                    pack_name: p.name,
                    counts: tally(
                        types_against(p.package_todo.violations_by_defining_pack, target),
                    ),
                },
            )
        } else {
            prefix
        }
    }
}

/// Who depends on a pack: the packs that declare it publicly, sorted by name,
/// and the packs whose baselines record violations against it, with per-type
/// counts.
pub struct Dependents {
    pub public_dependents: Vec<String>,
    pub violation_dependents: Vec<ViolationDependent>,
}

/// The mathematical content of a `Dependents`.
#[verifier::ext_equal]
pub ghost struct DependentsView {
    pub public_dependents: Seq<Seq<char>>,
    pub violation_dependents: Seq<ViolationDependentView>,
}

impl View for Dependents {
    type V = DependentsView;

    open spec fn view(&self) -> DependentsView {
        DependentsView {
            public_dependents: self.public_dependents.deep_view(),
            violation_dependents: self.violation_dependents.deep_view(),
        }
    }
}

fn collect_types_against(entries: &Vec<crate::pack::TodoEntry>, target: &String) -> (r: (
    Vec<String>,
    bool,
))
    ensures
        r.0.deep_view() == types_against(entries.deep_view(), target@),
        r.1 == has_group_against(entries.deep_view(), target@),
{
    let ghost ev = entries.deep_view();
    let mut types: Vec<String> = Vec::new();
    let mut any: bool = false;
    let n = entries.len();
    proof {
        assert(ev.take(0).len() == 0);
        assert(types.deep_view() =~= types_against(ev.take(0), target@));
    }
    for i in 0..n
        invariant
            n == ev.len(),
            n == entries@.len(),
            ev == entries.deep_view(),
            types.deep_view() == types_against(ev.take(i as int), target@),
            any == has_group_against(ev.take(i as int), target@),
    {
        let ghost prev = types.deep_view();
        proof {
            assert(ev.take(i + 1 as int).drop_last() =~= ev.take(i as int));
            assert(ev.take(i + 1 as int).last() == ev[i as int]);
        }
        let entry = &entries[i];
        if string_eq(&entry.defining_pack_name, target) {
            if entry.groups.len() > 0 {
                if !any {
                    proof {
                        assert(ev.take(i + 1 as int)[i as int] == ev[i as int]);
                    }
                    any = true;
                }
            }
            let ghost gv = entry.groups.deep_view();
            let ghost gbase = types.deep_view();
            let m = entry.groups.len();
            proof {
                assert(gv.take(0).len() == 0);
                assert(types.deep_view() =~= gbase + types_of_groups(gv.take(0)));
            }
            for j in 0..m
                invariant
                    m == gv.len(),
                    m == entry.groups@.len(),
                    gv == entry.groups.deep_view(),
                    types.deep_view() == gbase + types_of_groups(gv.take(j as int)),
            {
                proof {
                    assert(gv.take(j + 1 as int).drop_last() =~= gv.take(j as int));
                    assert(gv.take(j + 1 as int).last() == gv[j as int]);
                }
                let group = &entry.groups[j];
                let ghost tv = group.violation_types.deep_view();
                let ghost tbase = types.deep_view();
                let w = group.violation_types.len();
                proof {
                    assert(types.deep_view() =~= tbase + tv.take(0));
                }
                for q in 0..w
                    invariant
                        w == tv.len(),
                        w == group.violation_types@.len(),
                        tv == group.violation_types.deep_view(),
                        types.deep_view() == tbase + tv.take(q as int),
                {
                    let ghost qprev = types.deep_view();
                    types.push(dup_string(&group.violation_types[q]));
                    proof {
                        assert(types.deep_view() =~= qprev.push(tv[q as int]));
                        assert(tv.take(q + 1 as int) =~= tv.take(q as int).push(tv[q as int]));
                        assert(types.deep_view() =~= tbase + tv.take(q + 1 as int));
                    }
                }
                proof {
                    assert(tv.take(tv.len() as int) =~= tv);
                    assert(types.deep_view() =~= gbase + types_of_groups(gv.take(j + 1 as int)));
                }
            }
            proof {
                assert(gv.take(gv.len() as int) =~= gv);
                assert(types.deep_view() =~= types_against(ev.take(i + 1 as int), target@));
                if !has_group_against(ev.take(i as int), target@) && ev[i as int].groups.len() == 0 {
                    assert forall|k: int|
                        0 <= k < i + 1 implies !((#[trigger] ev.take(i + 1 as int)[k]).defining_pack_name
                        == target@ && ev.take(i + 1 as int)[k].groups.len() > 0) by {
                        if k < i {
                            assert(ev.take(i as int)[k] == ev.take(i + 1 as int)[k]);
                        }
                    }
                }
            }
        } else {
            proof {
                assert(types.deep_view() =~= types_against(ev.take(i + 1 as int), target@));
                if !has_group_against(ev.take(i as int), target@) {
                    assert forall|k: int|
                        0 <= k < i + 1 implies !((#[trigger] ev.take(i + 1 as int)[k]).defining_pack_name
                        == target@ && ev.take(i + 1 as int)[k].groups.len() > 0) by {
                        if k < i {
                            assert(ev.take(i as int)[k] == ev.take(i + 1 as int)[k]);
                        }
                    }
                }
            }
        }
    }
    proof {
        assert(ev.take(ev.len() as int) =~= ev);
    }
    (types, any)
}

fn count_occurrences(types: &Vec<String>, t: &String) -> (c: usize)
    ensures
        c as nat == count_in_seq(types.deep_view(), t@),
{
    let ghost tv = types.deep_view();
    let mut c: usize = 0;
    let n = types.len();
    proof {
        assert(tv.take(0).len() == 0);
    }
    for i in 0..n
        invariant
            n == tv.len(),
            n == types@.len(),
            tv == types.deep_view(),
            c as nat == count_in_seq(tv.take(i as int), t@),
            c <= i,
        decreases n - i,
    {
        proof {
            assert(tv.take(i + 1 as int).drop_last() =~= tv.take(i as int));
            assert(tv.take(i + 1 as int).last() == tv[i as int]);
            lemma_count_in_seq_le_len(tv.take(i as int), t@);
        }
        if string_eq(&types[i], t) {
            c = c + 1;
        }
    }
    proof {
        assert(tv.take(tv.len() as int) =~= tv);
    }
    c
}

fn tally_exec(types: &Vec<String>) -> (r: Vec<TypeCount>)
    ensures
        r.deep_view() == tally(types.deep_view()),
{
    let ghost tv = types.deep_view();
    let mut counts: Vec<TypeCount> = Vec::new();
    let n = types.len();
    proof {
        assert(tv.take(0).len() == 0);
        assert(distinct_strings(tv.take(0)).len() == 0);
        assert(counts.deep_view().len() == 0);
    }
    for i in 0..n
        invariant
            n == tv.len(),
            n == types@.len(),
            tv == types.deep_view(),
            counts.deep_view().len() == distinct_strings(tv.take(i as int)).len(),
            forall|j: int|
                0 <= j < counts.deep_view().len() ==> #[trigger] counts.deep_view()[j]
                    == (TypeCountView {
                    violation_type: distinct_strings(tv.take(i as int))[j],
                    count: count_in_seq(tv, distinct_strings(tv.take(i as int))[j]),
                }),
    {
        let ghost prev = counts.deep_view();
        proof {
            assert(tv.take(i + 1 as int).drop_last() =~= tv.take(i as int));
            assert(tv.take(i + 1 as int).last() == tv[i as int]);
        }
        let mut seen = false;
        for j in 0..i
            invariant
                i < n,
                n == tv.len(),
                n == types@.len(),
                tv == types.deep_view(),
                seen == seq_contains_string(tv.take(i as int).take(j as int), tv[i as int]),
        {
            let ghost before = seen;
            if string_eq(&types[j], &types[i]) {
                seen = true;
            }
            proof {
                assert(tv.take(i as int).take(j + 1 as int) =~= tv.take(i as int).take(
                    j as int,
                ).push(tv[j as int]));
                if before {
                    let w = choose|w: int|
                        0 <= w < tv.take(i as int).take(j as int).len() && tv.take(i as int).take(
                            j as int,
                        )[w] == tv[i as int];
                    assert(tv.take(i as int).take(j + 1 as int)[w] == tv[i as int]);
                } else if tv[j as int] == tv[i as int] {
                    assert(tv.take(i as int).take(j + 1 as int)[j as int] == tv[i as int]);
                } else {
                    assert forall|k: int|
                        0 <= k < j + 1 implies (#[trigger] tv.take(i as int).take(j + 1 as int)[k])
                        != tv[i as int] by {
                        if k < j {
                            assert(tv.take(i as int).take(j as int)[k] == tv.take(i as int).take(
                                j + 1 as int,
                            )[k]);
                        }
                    }
                }
            }
        }
        proof {
            assert(tv.take(i as int).take(i as int) =~= tv.take(i as int));
        }
        if !seen {
            let c = count_occurrences(types, &types[i]);
            counts.push(TypeCount { violation_type: dup_string(&types[i]), count: c });
            proof {
                assert(counts.deep_view() =~= prev.push(TypeCountView {
                    violation_type: tv[i as int],
                    count: count_in_seq(tv, tv[i as int]),
                }));
                assert(distinct_strings(tv.take(i + 1 as int)) =~= distinct_strings(tv.take(
                    i as int,
                )).push(tv[i as int]));
            }
        } else {
            proof {
                assert(distinct_strings(tv.take(i + 1 as int)) =~= distinct_strings(tv.take(
                    i as int,
                )));
            }
        }
    }
    proof {
        assert(tv.take(tv.len() as int) =~= tv);
        assert(counts.deep_view() =~= tally(tv));
    }
    counts
}

/// For the named pack: every other pack that declares it a dependency, sorted
/// by name, and every other pack whose baseline records violations against
/// it, with one count per violation type, accumulated across that pack's
/// groups. Fails when the named pack does not exist.
pub fn find_dependents(configuration: &Configuration, pack_name: &String) -> (r: Result<
    Dependents,
    PackError,
>)
    ensures
        match r {
            Ok(d) => {
                &&& has_pack(configuration@.pack_set.packs, pack_name@)
                &&& lex_sorted(d@.public_dependents)
                &&& d@.public_dependents.to_multiset() == dependent_names(
                    configuration@.pack_set.packs,
                    pack_name@,
                ).to_multiset()
                &&& d@.violation_dependents == violation_dependents_spec(
                    configuration@.pack_set.packs,
                    pack_name@,
                )
            },
            Err(e) => !has_pack(configuration@.pack_set.packs, pack_name@) && e@
                == PackErrorView::NotFound { pack_name: pack_name@ },
        },
{
    let ghost pv = configuration@.pack_set.packs;
    let ghost target = pack_name@;
    match configuration.pack_set.for_pack(pack_name) {
        Some(_pack) => {},
        None => {
            return Err(PackError::NotFound { pack_name: dup_string(pack_name) });
        },
    }
    let packs = &configuration.pack_set.packs;
    let n = packs.len();
    let mut names: Vec<String> = Vec::new();
    proof {
        assert(pv.take(0).len() == 0);
        assert(names.deep_view() =~= dependent_names(pv.take(0), target));
    }
    for i in 0..n
        invariant
            n == pv.len(),
            n == packs@.len(),
            packs@ == configuration.pack_set.packs@,
            pv == packs.deep_view(),
            pv == configuration@.pack_set.packs,
            target == pack_name@,
            names.deep_view() == dependent_names(pv.take(i as int), target),
    {
        let ghost prev = names.deep_view();
        proof {
            assert(pv.take(i + 1 as int).drop_last() =~= pv.take(i as int));
            assert(pv.take(i + 1 as int).last() == pv[i as int]);
        }
        let p = &packs[i];
        if !string_eq(&p.name, pack_name) && strings_contain(&p.dependencies, pack_name) {
            names.push(dup_string(&p.name));
            proof {
                assert(names.deep_view() =~= prev.push(pv[i as int].name));
            }
        }
    }
    proof {
        assert(pv.take(pv.len() as int) =~= pv);
    }
    let public_dependents = sort_strings(names);
    let mut violation_dependents: Vec<ViolationDependent> = Vec::new();
    proof {
        assert(pv.take(0).len() == 0);
        assert(violation_dependents.deep_view() =~= violation_dependents_spec(pv.take(0), target));
    }
    for i in 0..n
        invariant
            n == pv.len(),
            n == packs@.len(),
            packs@ == configuration.pack_set.packs@,
            pv == packs.deep_view(),
            pv == configuration@.pack_set.packs,
            target == pack_name@,
            violation_dependents.deep_view() == violation_dependents_spec(
                pv.take(i as int),
                target,
            ),
    {
        let ghost prev = violation_dependents.deep_view();
        proof {
            assert(pv.take(i + 1 as int).drop_last() =~= pv.take(i as int));
            assert(pv.take(i + 1 as int).last() == pv[i as int]);
        }
        let p = &packs[i];
        if !string_eq(&p.name, pack_name) {
            let collected = collect_types_against(
                &p.package_todo.violations_by_defining_pack,
                pack_name,
            );
            let types = collected.0;
            let any = collected.1;
            if any {
                let counts = tally_exec(&types);
                let entry = ViolationDependent { pack_name: dup_string(&p.name), counts };
                proof {
                    assert(entry@ =~= ViolationDependentView {
                        pack_name: pv[i as int].name,
                        counts: tally(
                            types_against(
                                pv[i as int].package_todo.violations_by_defining_pack,
                                target,
                            ),
                        ),
                    });
                }
                violation_dependents.push(entry);
                proof {
                    assert(violation_dependents.deep_view() =~= prev.push(ViolationDependentView {
                        pack_name: pv[i as int].name,
                        counts: tally(
                            types_against(
                                pv[i as int].package_todo.violations_by_defining_pack,
                                target,
                            ),
                        ),
                    }));
                }
            }
        }
    }
    proof {
        assert(pv.take(pv.len() as int) =~= pv);
    }
    Ok(Dependents { public_dependents, violation_dependents })
}

} // verus!
