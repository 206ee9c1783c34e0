//! Laws the engine obeys, stated and proved once over the specification
//! functions that the executable functions' contracts are written in.

use vstd::prelude::*;

use crate::checker::{
    all_violations_spec, baseline_has_identity, check_all_spec, checker_strict_spec,
    checker_violation_type, filter_reportable, filter_stale, find_checker, found_has_identity,
    pair_result, run_prefix, strict_filter, CheckerKind, ViolationIdentifierView, ViolationView,
};
use crate::pack::{pack_lookup, spec_enforce_privacy, PackView, ReferenceView};
use crate::privacy::{named_private, path_under, privacy_check_spec};
use crate::strings::seq_contains_string;

verus! {

/// A reference whose defining pack is its own referencing pack never raises a
/// privacy violation: self-references are always allowed.
pub proof fn law_privacy_allows_self_reference(r: ReferenceView, packs: Seq<PackView>)
    requires
        r.defining_pack_name == Some(r.referencing_pack_name),
    ensures
        !(privacy_check_spec(r, packs) matches Ok(Some(_))),
{
    if pack_lookup(packs, r.referencing_pack_name) is Some {
        crate::pack::lemma_pack_lookup_name(packs, r.referencing_pack_name);
    }
}

/// A defining pack whose privacy enforcement is off never raises a privacy
/// violation, whatever the constant or the file location.
pub proof fn law_privacy_enforcement_off(r: ReferenceView, packs: Seq<PackView>)
    requires
        r.defining_pack_name matches Some(d) && pack_lookup(packs, d) matches Some(p)
            && spec_enforce_privacy(p) is False,
    ensures
        !(privacy_check_spec(r, packs) matches Ok(Some(_))),
{
}

/// A constant in the defining pack's ignore list never raises a privacy
/// violation, even when it is also listed among the private constants: the
/// ignore list always wins.
pub proof fn law_privacy_ignored_constant(r: ReferenceView, packs: Seq<PackView>)
    requires
        r.defining_pack_name matches Some(d) && pack_lookup(packs, d) matches Some(p)
            && seq_contains_string(p.ignored_private_constants, r.constant_name),
    ensures
        !(privacy_check_spec(r, packs) matches Ok(Some(_))),
{
}

/// A defining file under the pack's public folder never raises a privacy
/// violation, even when the constant is listed among the private constants:
/// location wins.
pub proof fn law_privacy_public_folder(r: ReferenceView, packs: Seq<PackView>)
    requires
        r.defining_pack_name matches Some(d) && pack_lookup(packs, d) matches Some(p)
            && r.relative_defining_file matches Some(f) && path_under(
            crate::pack::spec_public_folder(p),
            f,
        ),
    ensures
        !(privacy_check_spec(r, packs) matches Ok(Some(_))),
{
}

/// When the defining pack's private list is empty, every cross-pack reference
/// to a non-public-folder file of an enforcing pack raises a violation; when
/// the list is non-empty, such a reference raises a violation exactly when
/// the list names the constant, by exact match or by namespace.
pub proof fn law_privacy_private_list(r: ReferenceView, packs: Seq<PackView>)
    requires
        pack_lookup(packs, r.referencing_pack_name) is Some,
        r.defining_pack_name matches Some(d) && pack_lookup(packs, d) matches Some(p) && {
            &&& !(spec_enforce_privacy(p) is False)
            &&& !seq_contains_string(p.ignored_private_constants, r.constant_name)
            &&& r.relative_defining_file matches Some(f)
            &&& d != r.referencing_pack_name
            &&& !path_under(crate::pack::spec_public_folder(p), f)
        },
    ensures
        pack_lookup(packs, r.defining_pack_name->0)->0.private_constants.len() == 0 ==> (
        privacy_check_spec(r, packs) matches Ok(Some(_))),
        pack_lookup(packs, r.defining_pack_name->0)->0.private_constants.len() > 0 ==> ((
        privacy_check_spec(r, packs) matches Ok(Some(_))) <==> named_private(
            pack_lookup(packs, r.defining_pack_name->0)->0.private_constants,
            r.constant_name,
        )),
{
    crate::pack::lemma_pack_lookup_name(packs, r.referencing_pack_name);
    crate::pack::lemma_pack_lookup_name(packs, r.defining_pack_name->0);
}

/// The violations a successful run found, or nothing for a failed run.
pub open spec fn found_of(r: Result<Seq<ViolationView>, crate::error::PackErrorView>) -> Seq<
    ViolationView,
> {
    match r {
        Ok(v) => v,
        Err(_) => Seq::empty(),
    }
}

/// A found set whose every identity the baseline records filters down to
/// nothing reportable.
pub proof fn lemma_reportable_empty_when_recorded(
    found: Seq<ViolationView>,
    recorded: Seq<ViolationIdentifierView>,
)
    requires
        forall|i: int|
            0 <= i < found.len() ==> baseline_has_identity(recorded, #[trigger] found[i].identifier),
    ensures
        filter_reportable(found, recorded).len() == 0,
    decreases found.len(),
{
    if found.len() > 0 {
        assert(forall|i: int|
            0 <= i < found.drop_last().len() ==> #[trigger] found.drop_last()[i] == found[i]);
        lemma_reportable_empty_when_recorded(found.drop_last(), recorded);
        assert(baseline_has_identity(recorded, found.last().identifier));
    }
}

/// A baseline whose every entry the found set reproduces filters down to
/// nothing stale.
pub proof fn lemma_stale_empty_when_reproduced(
    recorded: Seq<ViolationIdentifierView>,
    found: Seq<ViolationView>,
    relative_files: Seq<Seq<char>>,
)
    requires
        forall|i: int|
            0 <= i < recorded.len() ==> found_has_identity(found, #[trigger] recorded[i]),
    ensures
        filter_stale(recorded, found, relative_files).len() == 0,
    decreases recorded.len(),
{
    if recorded.len() > 0 {
        assert(forall|i: int|
            0 <= i < recorded.drop_last().len() ==> #[trigger] recorded.drop_last()[i]
                == recorded[i]);
        lemma_stale_empty_when_reproduced(recorded.drop_last(), found, relative_files);
        assert(found_has_identity(found, recorded.last()));
    }
}

/// A baseline of privacy entries whose packs all enforce without strictness
/// yields no strict-mode violations.
pub proof fn lemma_strict_empty_when_not_strict(
    recorded: Seq<ViolationIdentifierView>,
    packs: Seq<PackView>,
)
    requires
        forall|i: int|
            0 <= i < recorded.len() ==> {
                &&& (#[trigger] recorded[i]).violation_type == "privacy"@
                &&& pack_lookup(packs, recorded[i].defining_pack_name) matches Some(p)
                &&& !(spec_enforce_privacy(
                    pack_lookup(packs, recorded[i].defining_pack_name)->0,
                ) is Strict)
            },
    ensures
        strict_filter(recorded, seq![CheckerKind::Privacy], packs) == Ok::<
            Seq<ViolationIdentifierView>,
            crate::error::PackErrorView,
        >(Seq::<ViolationIdentifierView>::empty()),
    decreases recorded.len(),
{
    if recorded.len() > 0 {
        assert(forall|i: int|
            0 <= i < recorded.drop_last().len() ==> #[trigger] recorded.drop_last()[i]
                == recorded[i]);
        lemma_strict_empty_when_not_strict(recorded.drop_last(), packs);
        let id = recorded.last();
        assert(checker_violation_type(CheckerKind::Privacy) == "privacy"@);
        assert(find_checker(seq![CheckerKind::Privacy], id.violation_type) == Some(
            CheckerKind::Privacy,
        )) by {
            assert(seq![CheckerKind::Privacy][0] == CheckerKind::Privacy);
        }
        assert(checker_strict_spec(CheckerKind::Privacy, id, packs) == Ok::<
            bool,
            crate::error::PackErrorView,
        >(false));
    }
}

/// Idempotence: when the baseline is up to date — every found violation is
/// recorded by identity, every recorded entry is reproduced — recorded
/// violations are not ignored, every baseline entry is a privacy entry whose
/// pack exists, and no such pack enforces strictly, a run reports nothing:
/// `has_violations` is false. A pack with strict enforcement is the one
/// exception: its baseline entries fail the run even when up to date.
pub proof fn law_check_all_idempotent(
    cfg: crate::pack::ConfigurationView,
    files: Seq<Seq<char>>,
    references: Seq<ReferenceView>,
)
    requires
        !cfg.ignore_recorded_violations,
        all_violations_spec(seq![CheckerKind::Privacy], references, cfg.pack_set.packs) is Ok,
        forall|i: int|
            0 <= i < found_of(
                all_violations_spec(seq![CheckerKind::Privacy], references, cfg.pack_set.packs),
            ).len() ==> baseline_has_identity(
                cfg.pack_set.all_violations,
                #[trigger] found_of(
                    all_violations_spec(seq![CheckerKind::Privacy], references, cfg.pack_set.packs),
                )[i].identifier,
            ),
        forall|i: int|
            0 <= i < cfg.pack_set.all_violations.len() ==> found_has_identity(
                found_of(
                    all_violations_spec(seq![CheckerKind::Privacy], references, cfg.pack_set.packs),
                ),
                #[trigger] cfg.pack_set.all_violations[i],
            ),
        forall|i: int|
            0 <= i < cfg.pack_set.all_violations.len() ==> {
                &&& (#[trigger] cfg.pack_set.all_violations[i]).violation_type == "privacy"@
                &&& pack_lookup(
                    cfg.pack_set.packs,
                    cfg.pack_set.all_violations[i].defining_pack_name,
                ) matches Some(p)
                &&& !(spec_enforce_privacy(
                    pack_lookup(
                        cfg.pack_set.packs,
                        cfg.pack_set.all_violations[i].defining_pack_name,
                    )->0,
                ) is Strict)
            },
    ensures
        check_all_spec(cfg, files, references) matches Ok(res) && !crate::checker::spec_has_violations(
            res,
        ),
{
    let found = found_of(
        all_violations_spec(seq![CheckerKind::Privacy], references, cfg.pack_set.packs),
    );
    lemma_reportable_empty_when_recorded(found, cfg.pack_set.all_violations);
    lemma_stale_empty_when_reproduced(
        cfg.pack_set.all_violations,
        found,
        crate::checker::relative_paths(
            cfg.absolute_root,
            crate::checker::filter_included(cfg.included_files, cfg.absolute_root, files),
        ),
    );
    lemma_strict_empty_when_not_strict(cfg.pack_set.all_violations, cfg.pack_set.packs);
}

/// Stale detection: a baseline entry for a re-checked file that no fresh
/// violation matches is reported stale.
pub proof fn law_stale_entry_detected(
    recorded: Seq<ViolationIdentifierView>,
    found: Seq<ViolationView>,
    relative_files: Seq<Seq<char>>,
    i: int,
)
    requires
        0 <= i < recorded.len(),
        seq_contains_string(relative_files, recorded[i].file),
        !found_has_identity(found, recorded[i]),
    ensures
        filter_stale(recorded, found, relative_files).contains(recorded[i]),
    decreases recorded.len(),
{
    if i == recorded.len() - 1 {
        let out = filter_stale(recorded, found, relative_files);
        assert(out.last() == recorded[i]);
    } else {
        law_stale_entry_detected(recorded.drop_last(), found, relative_files, i);
        let prefix = filter_stale(recorded.drop_last(), found, relative_files);
        let w = choose|w: int| 0 <= w < prefix.len() && prefix[w] == recorded.drop_last()[i];
        assert(recorded.drop_last()[i] == recorded[i]);
        assert(filter_stale(recorded, found, relative_files)[w] == recorded[i]);
    }
}

/// Stale detection: a baseline entry for a file outside the working set is
/// never reported stale, because the file was not re-examined.
pub proof fn law_stale_needs_reexamination(
    recorded: Seq<ViolationIdentifierView>,
    found: Seq<ViolationView>,
    relative_files: Seq<Seq<char>>,
    id: ViolationIdentifierView,
)
    requires
        !seq_contains_string(relative_files, id.file),
    ensures
        !filter_stale(recorded, found, relative_files).contains(id),
    decreases recorded.len(),
{
    if recorded.len() > 0 {
        law_stale_needs_reexamination(recorded.drop_last(), found, relative_files, id);
        let out = filter_stale(recorded, found, relative_files);
        let prefix = filter_stale(recorded.drop_last(), found, relative_files);
        if out.len() > prefix.len() {
            assert forall|w: int| 0 <= w < out.len() implies out[w] != id by {
                if w < prefix.len() {
                    assert(out[w] == prefix[w]);
                    assert(!prefix.contains(id));
                } else {
                    assert(out[w] == recorded.last());
                    assert(seq_contains_string(relative_files, recorded.last().file));
                }
            }
        } else {
            assert(out =~= prefix);
        }
    }
}

/// Whether an edge is used depends only on which references exist, not on
/// their order: two reference sets equal as multisets use the same edges.
pub proof fn lemma_edge_used_multiset(
    refs1: Seq<ReferenceView>,
    refs2: Seq<ReferenceView>,
    pack_name: Seq<char>,
    dep: Seq<char>,
)
    requires
        refs1.to_multiset() == refs2.to_multiset(),
    ensures
        crate::checker::edge_used(refs1, pack_name, dep) == crate::checker::edge_used(
            refs2,
            pack_name,
            dep,
        ),
{
    refs1.to_multiset_ensures();
    refs2.to_multiset_ensures();
    if crate::checker::edge_used(refs1, pack_name, dep) {
        let i = choose|i: int|
            0 <= i < refs1.len() && refs1[i].referencing_pack_name == pack_name
                && refs1[i].defining_pack_name == Some(dep);
        assert(refs1.contains(refs1[i]));
        assert(refs1.to_multiset().count(refs1[i]) > 0);
        assert(refs2.to_multiset().count(refs1[i]) > 0);
        assert(refs2.contains(refs1[i]));
        let j = choose|j: int| 0 <= j < refs2.len() && refs2[j] == refs1[i];
        assert(refs2[j].referencing_pack_name == pack_name && refs2[j].defining_pack_name == Some(
            dep,
        ));
    }
    if crate::checker::edge_used(refs2, pack_name, dep) {
        let i = choose|i: int|
            0 <= i < refs2.len() && refs2[i].referencing_pack_name == pack_name
                && refs2[i].defining_pack_name == Some(dep);
        assert(refs2.contains(refs2[i]));
        assert(refs2.to_multiset().count(refs2[i]) > 0);
        assert(refs1.to_multiset().count(refs2[i]) > 0);
        assert(refs1.contains(refs2[i]));
        let j = choose|j: int| 0 <= j < refs1.len() && refs1[j] == refs2[i];
        assert(refs1[j].referencing_pack_name == pack_name && refs1[j].defining_pack_name == Some(
            dep,
        ));
    }
}

/// The unused entries of one dependency list are the same for two reference
/// sets equal as multisets.
pub proof fn lemma_unused_deps_multiset(
    deps: Seq<Seq<char>>,
    pack_name: Seq<char>,
    refs1: Seq<ReferenceView>,
    refs2: Seq<ReferenceView>,
)
    requires
        refs1.to_multiset() == refs2.to_multiset(),
    ensures
        crate::checker::unused_deps(deps, pack_name, refs1) == crate::checker::unused_deps(
            deps,
            pack_name,
            refs2,
        ),
    decreases deps.len(),
{
    if deps.len() > 0 {
        lemma_unused_deps_multiset(deps.drop_last(), pack_name, refs1, refs2);
        lemma_edge_used_multiset(refs1, refs2, pack_name, deps.last());
    }
}

/// Dependency-usage counting is deterministic: reordering the references
/// changes nothing about which declared dependencies are flagged unnecessary.
pub proof fn law_unnecessary_deterministic(
    packs: Seq<PackView>,
    refs1: Seq<ReferenceView>,
    refs2: Seq<ReferenceView>,
)
    requires
        refs1.to_multiset() == refs2.to_multiset(),
    ensures
        crate::checker::unnecessary_spec(packs, refs1) == crate::checker::unnecessary_spec(
            packs,
            refs2,
        ),
    decreases packs.len(),
{
    if packs.len() > 0 {
        law_unnecessary_deterministic(packs.drop_last(), refs1, refs2);
        lemma_unused_deps_multiset(packs.last().dependencies, packs.last().name, refs1, refs2);
    }
}

/// A pack name is a public dependent exactly when some other pack of that
/// name declares the target among its dependencies.
pub proof fn law_public_dependent_membership(
    packs: Seq<PackView>,
    target: Seq<char>,
    name: Seq<char>,
)
    ensures
        seq_contains_string(crate::dependents::dependent_names(packs, target), name) <==> exists|
            i: int,
        |
            0 <= i < packs.len() && (#[trigger] packs[i]).name == name && packs[i].name != target
                && seq_contains_string(packs[i].dependencies, target),
    decreases packs.len(),
{
    if packs.len() > 0 {
        law_public_dependent_membership(packs.drop_last(), target, name);
        let out = crate::dependents::dependent_names(packs, target);
        let prefix = crate::dependents::dependent_names(packs.drop_last(), target);
        if seq_contains_string(prefix, name) {
            let w = choose|w: int| 0 <= w < prefix.len() && prefix[w] == name;
            assert(out[w] == name);
            let i = choose|i: int|
                0 <= i < packs.drop_last().len() && (#[trigger] packs.drop_last()[i]).name == name
                    && packs.drop_last()[i].name != target && seq_contains_string(
                    packs.drop_last()[i].dependencies,
                    target,
                );
            assert(packs[i] == packs.drop_last()[i]);
        }
        if seq_contains_string(out, name) && !seq_contains_string(prefix, name) {
            let w = choose|w: int| 0 <= w < out.len() && out[w] == name;
            assert(w == out.len() - 1 && out.len() == prefix.len() + 1) by {
                if w < prefix.len() {
                    assert(out[w] == prefix[w]);
                }
            }
            assert(packs.last().name == name && packs.last().name != target && seq_contains_string(
                packs.last().dependencies,
                target,
            ));
            assert(packs[packs.len() - 1] == packs.last());
        }
        if exists|i: int|
            0 <= i < packs.len() && (#[trigger] packs[i]).name == name && packs[i].name != target
                && seq_contains_string(packs[i].dependencies, target) {
            let i = choose|i: int|
                0 <= i < packs.len() && (#[trigger] packs[i]).name == name && packs[i].name
                    != target && seq_contains_string(packs[i].dependencies, target);
            if i < packs.len() - 1 {
                assert(packs.drop_last()[i] == packs[i]);
                assert(seq_contains_string(prefix, name));
                let w = choose|w: int| 0 <= w < prefix.len() && prefix[w] == name;
                assert(out[w] == name);
            } else {
                assert(out.last() == name);
            }
        }
    }
}

/// What one run gathers is exactly what the individual checks reported: a
/// violation is in the found set of the first `k` pairs exactly when some of
/// those pairs reported it. The set is therefore independent of how the pairs
/// were scheduled, as long as they are all evaluated.
pub proof fn law_found_set_membership(
    checkers: Seq<CheckerKind>,
    references: Seq<ReferenceView>,
    packs: Seq<PackView>,
    k: int,
    v: ViolationView,
)
    requires
        0 <= k,
        run_prefix(checkers, references, packs, k) is Ok,
    ensures
        found_of(run_prefix(checkers, references, packs, k)).contains(v) <==> exists|j: int|
            0 <= j < k && pair_result(checkers, references, packs, j) == Ok::<
                Option<ViolationView>,
                crate::error::PackErrorView,
            >(Some(v)),
    decreases k,
{
    if k > 0 {
        assert(run_prefix(checkers, references, packs, k - 1) is Ok);
        law_found_set_membership(checkers, references, packs, k - 1, v);
        let prev = found_of(run_prefix(checkers, references, packs, k - 1));
        let cur = found_of(run_prefix(checkers, references, packs, k));
        match pair_result(checkers, references, packs, k - 1) {
            Ok(Some(w)) => {
                if prev.contains(w) {
                    assert(cur == prev);
                } else {
                    assert(cur == prev.push(w));
                    if cur.contains(v) {
                        let x = choose|x: int| 0 <= x < cur.len() && cur[x] == v;
                        if x < prev.len() {
                            assert(prev.contains(v));
                        } else {
                            assert(v == w);
                            assert(pair_result(checkers, references, packs, k - 1) == Ok::<
                                Option<ViolationView>,
                                crate::error::PackErrorView,
                            >(Some(v)));
                        }
                    }
                    if prev.contains(v) {
                        let x = choose|x: int| 0 <= x < prev.len() && prev[x] == v;
                        assert(cur[x] == v);
                    }
                    if v == w {
                        assert(cur.last() == v);
                    }
                }
            },
            Ok(None) => {
                assert(cur == prev);
            },
            Err(_) => {},
        }
    }
}

/// The found set holds no violation twice: structural deduplication happens
/// as the pairs' results are gathered.
pub proof fn law_found_set_distinct(
    checkers: Seq<CheckerKind>,
    references: Seq<ReferenceView>,
    packs: Seq<PackView>,
    k: int,
)
    requires
        0 <= k,
        run_prefix(checkers, references, packs, k) is Ok,
    ensures
        forall|a: int, b: int|
            0 <= a < b < found_of(run_prefix(checkers, references, packs, k)).len() ==> found_of(
                run_prefix(checkers, references, packs, k),
            )[a] != found_of(run_prefix(checkers, references, packs, k))[b],
    decreases k,
{
    if k > 0 {
        assert(run_prefix(checkers, references, packs, k - 1) is Ok);
        law_found_set_distinct(checkers, references, packs, k - 1);
        let prev = found_of(run_prefix(checkers, references, packs, k - 1));
        let cur = found_of(run_prefix(checkers, references, packs, k));
        match pair_result(checkers, references, packs, k - 1) {
            Ok(Some(w)) => {
                if prev.contains(w) {
                    assert(cur == prev);
                } else {
                    assert(cur == prev.push(w));
                    assert forall|a: int, b: int| 0 <= a < b < cur.len() implies cur[a] != cur[b] by {
                        if b < cur.len() - 1 {
                            assert(cur[a] == prev[a] && cur[b] == prev[b]);
                        } else {
                            assert(cur[b] == w);
                            assert(cur[a] == prev[a]);
                            assert(!prev.contains(w));
                        }
                    }
                }
            },
            Ok(None) => {
                assert(cur == prev);
            },
            Err(_) => {},
        }
    }
}

} // verus!