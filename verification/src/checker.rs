//! The violation engine: violation identity, checker dispatch, the run over
//! all references, and the three-way reconciliation against the baseline.

use vstd::prelude::*;

use rayon::iter::IndexedParallelIterator;
use rayon::iter::IntoParallelIterator;
use rayon::iter::ParallelIterator;

use crate::error::{PackError, PackErrorView};
use crate::pack::{
    has_pack, pack_lookup, spec_enforce_privacy, Configuration, Pack, PackSet, PackView, Reference,
    ReferenceView,
};
use crate::strings::dup_string;

verus! {

/// The identity of a violation, independent of its human-readable message.
/// Two violations with equal `violation_type`, `file`, `constant_name`,
/// `referencing_pack_name` and `defining_pack_name` are the same violation
/// for baseline comparison; `strict` records the enforcement level at the
/// time the violation was found and plays no part in identity.
pub struct ViolationIdentifier {
    pub violation_type: String,
    pub strict: bool,
    pub file: String,
    pub constant_name: String,
    pub referencing_pack_name: String,
    pub defining_pack_name: String,
}

/// The mathematical content of a `ViolationIdentifier`.
#[verifier::ext_equal]
pub ghost struct ViolationIdentifierView {
    pub violation_type: Seq<char>,
    pub strict: bool,
    pub file: Seq<char>,
    pub constant_name: Seq<char>,
    pub referencing_pack_name: Seq<char>,
    pub defining_pack_name: Seq<char>,
}

impl View for ViolationIdentifier {
    type V = ViolationIdentifierView;

    open spec fn view(&self) -> ViolationIdentifierView {
        ViolationIdentifierView {
            violation_type: self.violation_type@,
            strict: self.strict,
            file: self.file@,
            constant_name: self.constant_name@,
            referencing_pack_name: self.referencing_pack_name@,
            defining_pack_name: self.defining_pack_name@,
        }
    }
}

impl DeepView for ViolationIdentifier {
    type V = ViolationIdentifierView;

    open spec fn deep_view(&self) -> ViolationIdentifierView {
        self.view()
    }
}

/// Identity equality: the five identifying fields agree; `strict` is ignored.
pub open spec fn same_identity(a: ViolationIdentifierView, b: ViolationIdentifierView) -> bool {
    &&& a.violation_type == b.violation_type
    &&& a.file == b.file
    &&& a.constant_name == b.constant_name
    &&& a.referencing_pack_name == b.referencing_pack_name
    &&& a.defining_pack_name == b.defining_pack_name
}

impl ViolationIdentifier {
    pub fn duplicate(&self) -> (r: ViolationIdentifier)
        ensures
            r@ == self@,
    {
        ViolationIdentifier {
            violation_type: dup_string(&self.violation_type),
            strict: self.strict,
            file: dup_string(&self.file),
            constant_name: dup_string(&self.constant_name),
            referencing_pack_name: dup_string(&self.referencing_pack_name),
            defining_pack_name: dup_string(&self.defining_pack_name),
        }
    }

    /// The five identifying fields of `self` and `other` agree.
    pub fn same_identity_as(&self, other: &ViolationIdentifier) -> (r: bool)
        ensures
            r == same_identity(self@, other@),
    {
        crate::strings::string_eq(&self.violation_type, &other.violation_type)
            && crate::strings::string_eq(&self.file, &other.file) && crate::strings::string_eq(
            &self.constant_name,
            &other.constant_name,
        ) && crate::strings::string_eq(&self.referencing_pack_name, &other.referencing_pack_name)
            && crate::strings::string_eq(&self.defining_pack_name, &other.defining_pack_name)
    }
}

/// The pack a baseline violation was recorded against; an error when the
/// pack set does not know the name, which signals baseline drift.
pub fn get_defining_pack<'a>(violation: &ViolationIdentifier, packset: &'a PackSet) -> (r: Result<
    &'a Pack,
    PackError,
>)
    ensures
        match r {
            Ok(p) => pack_lookup(packset@.packs, violation@.defining_pack_name) == Some(p@),
            Err(e) => !has_pack(packset@.packs, violation@.defining_pack_name) && e@
                == PackErrorView::NotFound { pack_name: violation@.defining_pack_name },
        },
{
    match packset.for_pack(&violation.defining_pack_name) {
        Some(p) => Ok(p),
        None => Err(PackError::NotFound { pack_name: dup_string(&violation.defining_pack_name) }),
    }
}

/// The pack a baseline violation was recorded in; an error when the pack set
/// does not know the name.
pub fn get_referencing_pack<'a>(violation: &ViolationIdentifier, packset: &'a PackSet) -> (r:
    Result<&'a Pack, PackError>)
    ensures
        match r {
            Ok(p) => pack_lookup(packset@.packs, violation@.referencing_pack_name) == Some(p@),
            Err(e) => !has_pack(packset@.packs, violation@.referencing_pack_name) && e@
                == PackErrorView::NotFound { pack_name: violation@.referencing_pack_name },
        },
{
    match packset.for_pack(&violation.referencing_pack_name) {
        Some(p) => Ok(p),
        None => Err(
            PackError::NotFound { pack_name: dup_string(&violation.referencing_pack_name) },
        ),
    }
}

/// A found violation: a display message paired with its identity.
pub struct Violation {
    pub message: String,
    pub identifier: ViolationIdentifier,
}

/// The mathematical content of a `Violation`.
#[verifier::ext_equal]
pub ghost struct ViolationView {
    pub message: Seq<char>,
    pub identifier: ViolationIdentifierView,
}

impl View for Violation {
    type V = ViolationView;

    open spec fn view(&self) -> ViolationView {
        ViolationView { message: self.message@, identifier: self.identifier@ }
    }
}

impl DeepView for Violation {
    type V = ViolationView;

    open spec fn deep_view(&self) -> ViolationView {
        self.view()
    }
}

impl Violation {
    pub fn duplicate(&self) -> (r: Violation)
        ensures
            r@ == self@,
    {
        Violation { message: dup_string(&self.message), identifier: self.identifier.duplicate() }
    }

    /// Structural equality: message and every identifier field, `strict`
    /// included. This is the granularity at which found violations are
    /// deduplicated, which is finer than baseline identity.
    pub fn structurally_equal(&self, other: &Violation) -> (r: bool)
        ensures
            r == (self@ == other@),
    {
        let r = crate::strings::string_eq(&self.message, &other.message)
            && self.identifier.same_identity_as(&other.identifier) && (self.identifier.strict
            == other.identifier.strict);
        proof {
            if r {
                assert(self@.identifier =~= other@.identifier);
                assert(self@ =~= other@);
            }
        }
        r
    }
}

/// What a fallible check of one reference means: the violation found, if
/// any, or the failure.
pub open spec fn check_result_view(r: Result<Option<Violation>, PackError>) -> Result<
    Option<ViolationView>,
    PackErrorView,
> {
    match r {
        Ok(Some(v)) => Ok(Some(v@)),
        Ok(None) => Ok(None),
        Err(e) => Err(e@),
    }
}


/// The rule kinds the engine runs. The engine relies only on the three
/// operations each kind offers: `check`, `is_strict_mode_violation` and
/// `violation_type`.
#[derive(Clone, Copy)]
pub enum CheckerKind {
    Privacy,
}

/// The stable tag of a rule kind, used to route baseline identifiers back to
/// the rule that understands them.
pub open spec fn checker_violation_type(c: CheckerKind) -> Seq<char> {
    match c {
        CheckerKind::Privacy => "privacy"@,
    }
}

/// What a rule kind decides for one reference.
pub open spec fn checker_check_spec(
    c: CheckerKind,
    r: ReferenceView,
    packs: Seq<PackView>,
) -> Result<Option<ViolationView>, PackErrorView> {
    match c {
        CheckerKind::Privacy => crate::privacy::privacy_check_spec(r, packs),
    }
}

/// Whether a rule kind holds a baseline violation to strict enforcement.
pub open spec fn checker_strict_spec(
    c: CheckerKind,
    id: ViolationIdentifierView,
    packs: Seq<PackView>,
) -> Result<bool, PackErrorView> {
    match c {
        CheckerKind::Privacy => match pack_lookup(packs, id.defining_pack_name) {
            Some(p) => Ok(spec_enforce_privacy(p) is Strict),
            None => Err(PackErrorView::NotFound { pack_name: id.defining_pack_name }),
        },
    }
}

impl CheckerKind {
    pub fn check(&self, reference: &Reference, configuration: &Configuration) -> (r: Result<
        Option<Violation>,
        PackError,
    >)
        ensures
            check_result_view(r) == checker_check_spec(
                *self,
                reference@,
                configuration@.pack_set.packs,
            ),
    {
        match self {
            CheckerKind::Privacy => (crate::privacy::Checker {  }).check(reference, configuration),
        }
    }

    pub fn is_strict_mode_violation(
        &self,
        offense: &ViolationIdentifier,
        configuration: &Configuration,
    ) -> (r: Result<bool, PackError>)
        ensures
            match r {
                Ok(b) => checker_strict_spec(*self, offense@, configuration@.pack_set.packs)
                    == Ok::<bool, PackErrorView>(b),
                Err(e) => checker_strict_spec(*self, offense@, configuration@.pack_set.packs)
                    == Err::<bool, PackErrorView>(e@),
            },
    {
        match self {
            CheckerKind::Privacy => (crate::privacy::Checker {  }).is_strict_mode_violation(
                offense,
                configuration,
            ),
        }
    }

    pub fn violation_type(&self) -> (r: String)
        ensures
            r@ == checker_violation_type(*self),
    {
        match self {
            CheckerKind::Privacy => (crate::privacy::Checker {  }).violation_type(),
        }
    }
}

/// Every rule the engine runs.
pub fn get_checkers(_configuration: &Configuration) -> (r: Vec<CheckerKind>)
    ensures
        r@ == seq![CheckerKind::Privacy],
{
    let mut v: Vec<CheckerKind> = Vec::new();
    v.push(CheckerKind::Privacy);
    proof {
        assert(v@ =~= seq![CheckerKind::Privacy]);
    }
    v
}

/// What pair `k` of the checker-by-reference cross product decides, pairs
/// numbered checker-major.
pub open spec fn pair_result(
    checkers: Seq<CheckerKind>,
    references: Seq<ReferenceView>,
    packs: Seq<PackView>,
    k: int,
) -> Result<Option<ViolationView>, PackErrorView> {
    checker_check_spec(
        checkers[k / references.len() as int],
        references[k % references.len() as int],
        packs,
    )
}

/// The run over the first `k` checker-by-reference pairs: the first failure
/// aborts the run with its error; otherwise the violations found so far, in
/// first-occurrence order, each kept once.
pub open spec fn run_prefix(
    checkers: Seq<CheckerKind>,
    references: Seq<ReferenceView>,
    packs: Seq<PackView>,
    k: int,
) -> Result<Seq<ViolationView>, PackErrorView>
    decreases k,
{
    if k <= 0 {
        Ok(Seq::empty())
    } else {
        match run_prefix(checkers, references, packs, k - 1) {
            Err(e) => Err(e),
            Ok(acc) => match pair_result(checkers, references, packs, k - 1) {
                Err(e) => Err(e),
                Ok(Some(v)) => Ok(
                    if acc.contains(v) {
                        acc
                    } else {
                        acc.push(v)
                    },
                ),
                Ok(None) => Ok(acc),
            },
        }
    }
}

/// The run over every checker-by-reference pair.
pub open spec fn all_violations_spec(
    checkers: Seq<CheckerKind>,
    references: Seq<ReferenceView>,
    packs: Seq<PackView>,
) -> Result<Seq<ViolationView>, PackErrorView> {
    run_prefix(checkers, references, packs, checkers.len() as int * references.len() as int)
}

/// Once some pair has failed, every longer run fails the same way.
pub proof fn lemma_run_prefix_error_persists(
    checkers: Seq<CheckerKind>,
    references: Seq<ReferenceView>,
    packs: Seq<PackView>,
    k1: int,
    k2: int,
)
    requires
        0 <= k1 <= k2,
        run_prefix(checkers, references, packs, k1) is Err,
    ensures
        run_prefix(checkers, references, packs, k2) == run_prefix(checkers, references, packs, k1),
    decreases k2,
{
    if k2 > k1 {
        lemma_run_prefix_error_persists(checkers, references, packs, k1, k2 - 1);
    }
}

/// Relies on rayon: a parallel range iterator is indexed, `map` keeps it
/// indexed, and `collect_into_vec` stores each mapped element at its index.
/// The closure only calls the verified `CheckerKind::check`, so element `k`
/// is the check of pair `k`.
#[verifier::external_body]
fn par_check_all_pairs(
    checkers: &Vec<CheckerKind>,
    references: &Vec<Reference>,
    configuration: &Configuration,
) -> (r: Vec<Result<Option<Violation>, PackError>>)
    requires
        checkers@.len() * references@.len() <= usize::MAX,
    ensures
        r@.len() == checkers@.len() * references@.len(),
        forall|k: int|
            0 <= k < r@.len() ==> check_result_view(r@[k]) == pair_result(
                checkers@,
                references.deep_view(),
                configuration@.pack_set.packs,
                k,
            ),
{
    let n = references.len();
    let mut out = Vec::new();
    (0..checkers.len() * n)
        .into_par_iter()
        .map(|k| checkers[k / n].check(&references[k % n], configuration))
        .collect_into_vec(&mut out);
    out
}

fn contains_violation(v: &Vec<Violation>, x: &Violation) -> (r: bool)
    ensures
        r == v.deep_view().contains(x@),
{
    let ghost vv = v.deep_view();
    for i in 0..v.len()
        invariant
            vv == v.deep_view(),
            forall|j: int| 0 <= j < i ==> vv[j] != x@,
    {
        if v[i].structurally_equal(x) {
            assert(vv[i as int] == x@);
            return true;
        }
    }
    assert(forall|j: int| 0 <= j < vv.len() ==> vv[j] != x@);
    false
}

/// Runs every checker over every reference, in parallel, and gathers the
/// violations found into one set: each kept once, in first-occurrence order.
/// Any single failing check aborts the run with its error; no partial result
/// is returned.
pub fn get_all_violations(
    configuration: &Configuration,
    references: &Vec<Reference>,
    checkers: &Vec<CheckerKind>,
) -> (r: Result<Vec<Violation>, PackError>)
    requires
        checkers@.len() * references@.len() <= usize::MAX,
    ensures
        match r {
            Ok(found) => all_violations_spec(
                checkers@,
                references.deep_view(),
                configuration@.pack_set.packs,
            ) == Ok::<Seq<ViolationView>, PackErrorView>(found.deep_view()),
            Err(e) => all_violations_spec(
                checkers@,
                references.deep_view(),
                configuration@.pack_set.packs,
            ) == Err::<Seq<ViolationView>, PackErrorView>(e@),
        },
{
    let ghost cs = checkers@;
    let ghost rs = references.deep_view();
    let ghost packs = configuration@.pack_set.packs;
    let results = par_check_all_pairs(checkers, references, configuration);
    let mut found: Vec<Violation> = Vec::new();
    proof {
        assert(found.deep_view() =~= Seq::<ViolationView>::empty());
    }
    let total = results.len();
    for k in 0..total
        invariant
            cs == checkers@,
            rs == references.deep_view(),
            rs.len() == references@.len(),
            packs == configuration@.pack_set.packs,
            total == results@.len(),
            total == cs.len() * rs.len(),
            forall|j: int|
                0 <= j < total ==> check_result_view(results@[j]) == pair_result(cs, rs, packs, j),
            run_prefix(cs, rs, packs, k as int) == Ok::<Seq<ViolationView>, PackErrorView>(
                found.deep_view(),
            ),
    {
        match &results[k] {
            Ok(Some(v)) => {
                if !contains_violation(&found, v) {
                    let ghost prev = found.deep_view();
                    let d = v.duplicate();
                    found.push(d);
                    proof {
                        assert(found.deep_view() =~= prev.push(v@));
                    }
                }
            },
            Ok(None) => {},
            Err(e) => {
                proof {
                    assert(check_result_view(results@[k as int]) == pair_result(
                        cs,
                        rs,
                        packs,
                        k as int,
                    ));
                    assert(pair_result(cs, rs, packs, k as int) == Err::<
                        Option<ViolationView>,
                        PackErrorView,
                    >(e@));
                    assert(run_prefix(cs, rs, packs, k as int + 1) == Err::<
                        Seq<ViolationView>,
                        PackErrorView,
                    >(e@));
                    lemma_run_prefix_error_persists(cs, rs, packs, k as int + 1, total as int);
                }
                let dup = e.duplicate();
                proof {
                    assert(run_prefix(cs, rs, packs, total as int) == Err::<
                        Seq<ViolationView>,
                        PackErrorView,
                    >(dup@));
                    assert(rs.len() == references@.len());
                    assert(total as int == cs.len() as int * rs.len() as int);
                    assert(all_violations_spec(
                        checkers@,
                        references.deep_view(),
                        configuration@.pack_set.packs,
                    ) == Err::<Seq<ViolationView>, PackErrorView>(dup@));
                }
                return Err(dup);
            },
        }
    }
    Ok(found)
}


/// Some baseline entry has this identity.
pub open spec fn baseline_has_identity(
    recorded: Seq<ViolationIdentifierView>,
    id: ViolationIdentifierView,
) -> bool {
    exists|i: int| 0 <= i < recorded.len() && same_identity(recorded[i], id)
}

/// Some found violation has this identity.
pub open spec fn found_has_identity(
    found: Seq<ViolationView>,
    id: ViolationIdentifierView,
) -> bool {
    exists|i: int| 0 <= i < found.len() && same_identity(found[i].identifier, id)
}

/// The found violations that are new: not in the baseline by identity.
pub open spec fn filter_reportable(
    found: Seq<ViolationView>,
    recorded: Seq<ViolationIdentifierView>,
) -> Seq<ViolationView>
    decreases found.len(),
{
    if found.len() == 0 {
        Seq::empty()
    } else {
        let prefix = filter_reportable(found.drop_last(), recorded);
        if baseline_has_identity(recorded, found.last().identifier) {
            prefix
        } else {
            prefix.push(found.last())
        }
    }
}

/// The baseline entries that are stale: their file was re-checked (it is in
/// the root-relative working set) yet no fresh violation matches them by
/// identity. An entry for a file outside the working set is never stale.
pub open spec fn filter_stale(
    recorded: Seq<ViolationIdentifierView>,
    found: Seq<ViolationView>,
    relative_files: Seq<Seq<char>>,
) -> Seq<ViolationIdentifierView>
    decreases recorded.len(),
{
    if recorded.len() == 0 {
        Seq::empty()
    } else {
        let prefix = filter_stale(recorded.drop_last(), found, relative_files);
        let id = recorded.last();
        if crate::strings::seq_contains_string(relative_files, id.file) && !found_has_identity(
            found,
            id,
        ) {
            prefix.push(id)
        } else {
            prefix
        }
    }
}

/// The first registered checker with the given violation type.
pub open spec fn find_checker(checkers: Seq<CheckerKind>, violation_type: Seq<char>) -> Option<
    CheckerKind,
>
    decreases checkers.len(),
{
    if checkers.len() == 0 {
        None
    } else if checker_violation_type(checkers[0]) == violation_type {
        Some(checkers[0])
    } else {
        find_checker(checkers.drop_first(), violation_type)
    }
}

/// The baseline entries whose owning pack currently enforces their rule
/// strictly. A baseline entry whose violation type matches no registered
/// checker fails the whole run, as does an entry whose defining pack is
/// missing.
pub open spec fn strict_filter(
    recorded: Seq<ViolationIdentifierView>,
    checkers: Seq<CheckerKind>,
    packs: Seq<PackView>,
) -> Result<Seq<ViolationIdentifierView>, PackErrorView>
    decreases recorded.len(),
{
    if recorded.len() == 0 {
        Ok(Seq::empty())
    } else {
        match strict_filter(recorded.drop_last(), checkers, packs) {
            Err(e) => Err(e),
            Ok(prefix) => {
                let id = recorded.last();
                match find_checker(checkers, id.violation_type) {
                    None => Err(
                        PackErrorView::UnroutableViolationType { violation_type: id.violation_type },
                    ),
                    Some(c) => match checker_strict_spec(c, id, packs) {
                        Err(e) => Err(e),
                        Ok(strict) => Ok(
                            if strict {
                                prefix.push(id)
                            } else {
                                prefix
                            },
                        ),
                    },
                }
            },
        }
    }
}

/// Once some baseline entry cannot be routed or resolved, every longer
/// baseline fails the same way.
pub proof fn lemma_strict_filter_error_persists(
    recorded: Seq<ViolationIdentifierView>,
    checkers: Seq<CheckerKind>,
    packs: Seq<PackView>,
    k: int,
)
    requires
        0 <= k <= recorded.len(),
        strict_filter(recorded.take(k), checkers, packs) is Err,
    ensures
        strict_filter(recorded, checkers, packs) == strict_filter(recorded.take(k), checkers, packs),
    decreases recorded.len() - k,
{
    if k < recorded.len() {
        assert(recorded.take(k + 1).drop_last() =~= recorded.take(k));
        lemma_strict_filter_error_persists(recorded, checkers, packs, k + 1);
    } else {
        assert(recorded.take(k) =~= recorded);
    }
}

fn identity_in_baseline(recorded: &Vec<ViolationIdentifier>, id: &ViolationIdentifier) -> (r: bool)
    ensures
        r == baseline_has_identity(recorded.deep_view(), id@),
{
    let ghost rv = recorded.deep_view();
    for i in 0..recorded.len()
        invariant
            rv == recorded.deep_view(),
            forall|j: int| 0 <= j < i ==> !same_identity(rv[j], id@),
    {
        if recorded[i].same_identity_as(id) {
            assert(same_identity(rv[i as int], id@));
            return true;
        }
    }
    false
}

fn found_with_identity(found: &Vec<Violation>, id: &ViolationIdentifier) -> (r: bool)
    ensures
        r == found_has_identity(found.deep_view(), id@),
{
    let ghost fv = found.deep_view();
    for i in 0..found.len()
        invariant
            fv == found.deep_view(),
            forall|j: int| 0 <= j < i ==> !same_identity(fv[j].identifier, id@),
    {
        if found[i].identifier.same_identity_as(id) {
            assert(same_identity(fv[i as int].identifier, id@));
            return true;
        }
    }
    false
}

fn find_checker_exec(checkers: &Vec<CheckerKind>, violation_type: &String) -> (r: Option<
    CheckerKind,
>)
    ensures
        match r {
            Some(c) => find_checker(checkers@, violation_type@) == Some(c),
            None => find_checker(checkers@, violation_type@) is None,
        },
{
    let ghost cv = checkers@;
    proof {
        assert(cv.skip(0) =~= cv);
    }
    for i in 0..checkers.len()
        invariant
            cv == checkers@,
            find_checker(cv, violation_type@) == find_checker(cv.skip(i as int), violation_type@),
    {
        let vt = checkers[i].violation_type();
        if crate::strings::string_eq(&vt, violation_type) {
            proof {
                assert(cv.skip(i as int)[0] == cv[i as int]);
            }
            return Some(checkers[i]);
        }
        proof {
            assert(cv.skip(i as int)[0] == cv[i as int]);
            assert(cv.skip(i as int).drop_first() =~= cv.skip(i + 1));
        }
    }
    proof {
        assert(cv.skip(cv.len() as int).len() == 0);
    }
    None
}

/// The result of one whole run: the three reconciled buckets.
pub struct CheckAllResult {
    pub reportable_violations: Vec<Violation>,
    pub stale_violations: Vec<ViolationIdentifier>,
    pub strict_mode_violations: Vec<ViolationIdentifier>,
}

/// The mathematical content of a `CheckAllResult`.
#[verifier::ext_equal]
pub ghost struct CheckAllResultView {
    pub reportable_violations: Seq<ViolationView>,
    pub stale_violations: Seq<ViolationIdentifierView>,
    pub strict_mode_violations: Seq<ViolationIdentifierView>,
}

impl View for CheckAllResult {
    type V = CheckAllResultView;

    open spec fn view(&self) -> CheckAllResultView {
        CheckAllResultView {
            reportable_violations: self.reportable_violations.deep_view(),
            stale_violations: self.stale_violations.deep_view(),
            strict_mode_violations: self.strict_mode_violations.deep_view(),
        }
    }
}

/// Some bucket of the result is non-empty.
pub open spec fn spec_has_violations(v: CheckAllResultView) -> bool {
    v.reportable_violations.len() > 0 || v.stale_violations.len() > 0
        || v.strict_mode_violations.len() > 0
}

impl CheckAllResult {
    pub fn has_violations(&self) -> (r: bool)
        ensures
            r == spec_has_violations(self@),
    {
        !self.reportable_violations.is_empty() || !self.stale_violations.is_empty()
            || !self.strict_mode_violations.is_empty()
    }
}

/// The found violations that are reportable: all of them when recorded
/// violations are ignored, otherwise those missing from the baseline by
/// identity, in found order.
pub fn build_reportable_violations(
    found: &Vec<Violation>,
    recorded: &Vec<ViolationIdentifier>,
    ignore_recorded_violations: bool,
) -> (r: Vec<Violation>)
    ensures
        ignore_recorded_violations ==> r.deep_view() == found.deep_view(),
        !ignore_recorded_violations ==> r.deep_view() == filter_reportable(
            found.deep_view(),
            recorded.deep_view(),
        ),
{
    let ghost fv = found.deep_view();
    let ghost rv = recorded.deep_view();
    let mut out: Vec<Violation> = Vec::new();
    proof {
        assert(fv.take(0).len() == 0);
        assert(out.deep_view() =~= Seq::<ViolationView>::empty());
    }
    if ignore_recorded_violations {
        for i in 0..found.len()
            invariant
                fv == found.deep_view(),
                out.deep_view() == fv.take(i as int),
        {
            let ghost prev = out.deep_view();
            out.push(found[i].duplicate());
            proof {
                assert(out.deep_view() =~= prev.push(fv[i as int]));
                assert(prev.push(fv[i as int]) =~= fv.take(i + 1 as int));
            }
        }
        proof {
            assert(fv.take(fv.len() as int) =~= fv);
        }
        return out;
    }
    for i in 0..found.len()
        invariant
            fv == found.deep_view(),
            rv == recorded.deep_view(),
            out.deep_view() == filter_reportable(fv.take(i as int), rv),
    {
        let ghost prev = out.deep_view();
        proof {
            assert(fv.take(i + 1 as int).drop_last() =~= fv.take(i as int));
            assert(fv.take(i + 1 as int).last() == fv[i as int]);
        }
        if !identity_in_baseline(recorded, &found[i].identifier) {
            out.push(found[i].duplicate());
            proof {
                assert(out.deep_view() =~= prev.push(fv[i as int]));
            }
        }
    }
    proof {
        assert(fv.take(fv.len() as int) =~= fv);
    }
    out
}

/// The baseline entries that are stale: the file was re-checked and no fresh
/// violation matches, in baseline order.
pub fn build_stale_violations(
    recorded: &Vec<ViolationIdentifier>,
    found: &Vec<Violation>,
    relative_files: &Vec<String>,
) -> (r: Vec<ViolationIdentifier>)
    ensures
        r.deep_view() == filter_stale(
            recorded.deep_view(),
            found.deep_view(),
            relative_files.deep_view(),
        ),
{
    let ghost rv = recorded.deep_view();
    let ghost fv = found.deep_view();
    let ghost files = relative_files.deep_view();
    let mut out: Vec<ViolationIdentifier> = Vec::new();
    proof {
        assert(rv.take(0).len() == 0);
        assert(out.deep_view() =~= Seq::<ViolationIdentifierView>::empty());
    }
    for i in 0..recorded.len()
        invariant
            rv == recorded.deep_view(),
            fv == found.deep_view(),
            files == relative_files.deep_view(),
            out.deep_view() == filter_stale(rv.take(i as int), fv, files),
    {
        let ghost prev = out.deep_view();
        proof {
            assert(rv.take(i + 1 as int).drop_last() =~= rv.take(i as int));
            assert(rv.take(i + 1 as int).last() == rv[i as int]);
        }
        if crate::strings::strings_contain(relative_files, &recorded[i].file)
            && !found_with_identity(found, &recorded[i]) {
            out.push(recorded[i].duplicate());
            proof {
                assert(out.deep_view() =~= prev.push(rv[i as int]));
            }
        }
    }
    proof {
        assert(rv.take(rv.len() as int) =~= rv);
    }
    out
}

/// For every baseline entry, routes it to the checker that owns its violation
/// type and keeps it when that checker reports strict enforcement. Fails when
/// an entry cannot be routed or its pack is missing.
pub fn build_strict_mode_violations(
    recorded: &Vec<ViolationIdentifier>,
    checkers: &Vec<CheckerKind>,
    configuration: &Configuration,
) -> (r: Result<Vec<ViolationIdentifier>, PackError>)
    ensures
        match r {
            Ok(v) => strict_filter(
                recorded.deep_view(),
                checkers@,
                configuration@.pack_set.packs,
            ) == Ok::<Seq<ViolationIdentifierView>, PackErrorView>(v.deep_view()),
            Err(e) => strict_filter(
                recorded.deep_view(),
                checkers@,
                configuration@.pack_set.packs,
            ) == Err::<Seq<ViolationIdentifierView>, PackErrorView>(e@),
        },
{
    let ghost rv = recorded.deep_view();
    let ghost cv = checkers@;
    let ghost packs = configuration@.pack_set.packs;
    let mut out: Vec<ViolationIdentifier> = Vec::new();
    proof {
        assert(rv.take(0).len() == 0);
        assert(out.deep_view() =~= Seq::<ViolationIdentifierView>::empty());
    }
    for i in 0..recorded.len()
        invariant
            rv == recorded.deep_view(),
            cv == checkers@,
            packs == configuration@.pack_set.packs,
            strict_filter(rv.take(i as int), cv, packs) == Ok::<
                Seq<ViolationIdentifierView>,
                PackErrorView,
            >(out.deep_view()),
    {
        let ghost prev = out.deep_view();
        proof {
            assert(rv.take(i + 1 as int).drop_last() =~= rv.take(i as int));
            assert(rv.take(i + 1 as int).last() == rv[i as int]);
        }
        let checker = match find_checker_exec(checkers, &recorded[i].violation_type) {
            Some(c) => c,
            None => {
                let e = PackError::UnroutableViolationType {
                    violation_type: dup_string(&recorded[i].violation_type),
                };
                proof {
                    assert(strict_filter(rv.take(i + 1 as int), cv, packs) == Err::<
                        Seq<ViolationIdentifierView>,
                        PackErrorView,
                    >(e@));
                    lemma_strict_filter_error_persists(rv, cv, packs, i + 1 as int);
                }
                return Err(e);
            },
        };
        let strict = match checker.is_strict_mode_violation(&recorded[i], configuration) {
            Ok(b) => b,
            Err(e) => {
                proof {
                    assert(strict_filter(rv.take(i + 1 as int), cv, packs) == Err::<
                        Seq<ViolationIdentifierView>,
                        PackErrorView,
                    >(e@));
                    lemma_strict_filter_error_persists(rv, cv, packs, i + 1 as int);
                }
                return Err(e);
            },
        };
        if strict {
            out.push(recorded[i].duplicate());
            proof {
                assert(out.deep_view() =~= prev.push(rv[i as int]));
            }
        }
    }
    proof {
        assert(rv.take(rv.len() as int) =~= rv);
    }
    Ok(out)
}


/// The reportable messages, one per line, in report order.
pub open spec fn messages_block(found: Seq<ViolationView>) -> Seq<char>
    decreases found.len(),
{
    if found.len() == 0 {
        Seq::empty()
    } else {
        messages_block(found.drop_last()) + found.last().message + "\n"@
    }
}

/// The enforcement-failure line reported for one strict-mode entry.
pub open spec fn strict_line(id: ViolationIdentifierView) -> Seq<char> {
    id.referencing_pack_name + " cannot have "@ + id.violation_type + " violations on "@
        + id.defining_pack_name + " because strict mode is enabled for "@ + id.violation_type
        + " violations in the enforcing pack's package.yml file\n"@
}

/// One enforcement-failure line per strict-mode entry, in order.
pub open spec fn strict_block(ids: Seq<ViolationIdentifierView>) -> Seq<char>
    decreases ids.len(),
{
    if ids.len() == 0 {
        Seq::empty()
    } else {
        strict_block(ids.drop_last()) + strict_line(ids.last())
    }
}

/// The whole report: the reportable count and messages, a single stale
/// notice, and one line per strict-mode entry.
pub open spec fn render_report(v: CheckAllResultView) -> Seq<char> {
    (if v.reportable_violations.len() > 0 {
        crate::strings::decimal_seq(v.reportable_violations.len()) + " violation(s) detected:\n"@
            + messages_block(v.reportable_violations)
    } else {
        Seq::empty()
    }) + (if v.stale_violations.len() > 0 {
        "There were stale violations found, please run `packs update`\n"@
    } else {
        Seq::empty()
    }) + strict_block(v.strict_mode_violations)
}

/// What `render` shows: the report, or a single all-clear line.
pub open spec fn render_output(v: CheckAllResultView) -> Seq<char> {
    if spec_has_violations(v) {
        render_report(v)
    } else {
        "No violations detected!"@
    }
}

fn strict_line_exec(id: &ViolationIdentifier) -> (m: String)
    ensures
        m@ == strict_line(id@),
{
    let mut m = dup_string(&id.referencing_pack_name);
    m.append(" cannot have ");
    m.append(id.violation_type.as_str());
    m.append(" violations on ");
    m.append(id.defining_pack_name.as_str());
    m.append(" because strict mode is enabled for ");
    m.append(id.violation_type.as_str());
    m.append(" violations in the enforcing pack's package.yml file\n");
    proof {
        assert(m@ =~= strict_line(id@));
    }
    m
}

impl CheckAllResult {
    /// Renders the three buckets of the result.
    pub fn write_violations(&self) -> (m: String)
        ensures
            m@ == render_report(self@),
    {
        let ghost rv = self.reportable_violations.deep_view();
        let ghost sv = self.stale_violations.deep_view();
        let ghost mv = self.strict_mode_violations.deep_view();
        proof {
            assert(rv.len() == self.reportable_violations@.len());
            assert(sv.len() == self.stale_violations@.len());
            assert(mv.len() == self.strict_mode_violations@.len());
        }
        let mut m = String::new();
        if self.reportable_violations.len() > 0 {
            let count = crate::strings::render_decimal(self.reportable_violations.len());
            m.append(count.as_str());
            m.append(" violation(s) detected:\n");
            let ghost head = crate::strings::decimal_seq(rv.len()) + " violation(s) detected:\n"@;
            proof {
                assert(m@ =~= head + messages_block(rv.take(0)));
            }
            for i in 0..self.reportable_violations.len()
                invariant
                    rv == self.reportable_violations.deep_view(),
                    rv.len() == self.reportable_violations@.len(),
                    m@ == head + messages_block(rv.take(i as int)),
            {
                m.append(self.reportable_violations[i].message.as_str());
                m.append("\n");
                proof {
                    assert(rv.take(i + 1 as int).drop_last() =~= rv.take(i as int));
                    assert(rv.take(i + 1 as int).last() == rv[i as int]);
                    assert(m@ =~= head + messages_block(rv.take(i + 1 as int)));
                }
            }
            proof {
                assert(rv.take(rv.len() as int) =~= rv);
            }
        }
        if self.stale_violations.len() > 0 {
            m.append("There were stale violations found, please run `packs update`\n");
        }
        let ghost head2 = m@;
        proof {
            assert(m@ =~= head2 + strict_block(mv.take(0)));
        }
        for i in 0..self.strict_mode_violations.len()
            invariant
                mv == self.strict_mode_violations.deep_view(),
                mv.len() == self.strict_mode_violations@.len(),
                m@ == head2 + strict_block(mv.take(i as int)),
        {
            let line = strict_line_exec(&self.strict_mode_violations[i]);
            m.append(line.as_str());
            proof {
                assert(mv.take(i + 1 as int).drop_last() =~= mv.take(i as int));
                assert(mv.take(i + 1 as int).last() == mv[i as int]);
                assert(m@ =~= head2 + strict_block(mv.take(i + 1 as int)));
            }
        }
        proof {
            assert(mv.take(mv.len() as int) =~= mv);
            assert(m@ =~= render_report(self@));
        }
        m
    }

    /// The report when the run found anything, a single all-clear line
    /// otherwise.
    pub fn render(&self) -> (m: String)
        ensures
            m@ == render_output(self@),
    {
        if self.has_violations() {
            self.write_violations()
        } else {
            String::from_str("No violations detected!")
        }
    }
}

/// `f`, made absolute: kept as it stands when already under the root,
/// otherwise joined to the root.
pub open spec fn absolutize(root: Seq<char>, f: Seq<char>) -> Seq<char> {
    if crate::strings::is_prefix_of(root + "/"@, f) {
        f
    } else {
        root + "/"@ + f
    }
}

/// Every caller-supplied file, made absolute, in order.
pub open spec fn absolutize_all(root: Seq<char>, files: Seq<Seq<char>>) -> Seq<Seq<char>>
    decreases files.len(),
{
    if files.len() == 0 {
        Seq::empty()
    } else {
        absolutize_all(root, files.drop_last()) + seq![absolutize(root, files.last())]
    }
}

/// Whether the caller's file list selects this included file: an empty list
/// selects everything.
pub open spec fn selects_file(root: Seq<char>, files: Seq<Seq<char>>, included: Seq<char>) -> bool {
    files.len() == 0 || crate::strings::seq_contains_string(
        absolutize_all(root, files),
        included,
    )
}

/// The working set: the included files the caller's list selects, in
/// configuration order.
pub open spec fn filter_included(
    included: Seq<Seq<char>>,
    root: Seq<char>,
    files: Seq<Seq<char>>,
) -> Seq<Seq<char>>
    decreases included.len(),
{
    if included.len() == 0 {
        Seq::empty()
    } else {
        let prefix = filter_included(included.drop_last(), root, files);
        if selects_file(root, files, included.last()) {
            prefix.push(included.last())
        } else {
            prefix
        }
    }
}

/// Every file of the working set is one of the included files.
pub proof fn lemma_filter_included_elements(
    included: Seq<Seq<char>>,
    root: Seq<char>,
    files: Seq<Seq<char>>,
)
    ensures
        forall|j: int|
            0 <= j < filter_included(included, root, files).len()
                ==> crate::strings::seq_contains_string(
                included,
                #[trigger] filter_included(included, root, files)[j],
            ),
    decreases included.len(),
{
    if included.len() > 0 {
        lemma_filter_included_elements(included.drop_last(), root, files);
        assert forall|j: int| 0 <= j < filter_included(included, root, files).len() implies
            crate::strings::seq_contains_string(
            included,
            #[trigger] filter_included(included, root, files)[j],
        ) by {
            let prefix = filter_included(included.drop_last(), root, files);
            if j < prefix.len() {
                let sub = included.drop_last();
                assert(crate::strings::seq_contains_string(sub, prefix[j]));
                let w = choose|w: int| 0 <= w < sub.len() && sub[w] == prefix[j];
                assert(included[w] == prefix[j]);
            } else {
                assert(included[included.len() - 1] == included.last());
            }
        }
    }
}

/// Intersects the caller's file list with the configured included files: the
/// caller's paths are made absolute against the root first, and an empty list
/// selects every included file.
pub fn intersect_files(configuration: &Configuration, files: &Vec<String>) -> (r: Vec<String>)
    ensures
        r.deep_view() == filter_included(
            configuration@.included_files,
            configuration@.absolute_root,
            files.deep_view(),
        ),
{
    let ghost root = configuration@.absolute_root;
    let ghost fv = files.deep_view();
    let mut root_slash = dup_string(&configuration.absolute_root);
    root_slash.append("/");
    let mut abs: Vec<String> = Vec::new();
    proof {
        assert(abs.deep_view() =~= absolutize_all(root, fv.take(0)));
    }
    let n_files = files.len();
    for k in 0..n_files
        invariant
            n_files == fv.len(),
            fv == files.deep_view(),
            root == configuration@.absolute_root,
            root_slash@ == root + "/"@,
            abs.deep_view() == absolutize_all(root, fv.take(k as int)),
    {
        let ghost prev = abs.deep_view();
        if crate::strings::string_starts_with(&files[k], &root_slash) {
            abs.push(dup_string(&files[k]));
        } else {
            let mut joined = dup_string(&root_slash);
            joined.append(files[k].as_str());
            proof {
                assert(joined@ =~= root + "/"@ + fv[k as int]);
            }
            abs.push(joined);
        }
        proof {
            assert(fv.take(k + 1 as int).drop_last() =~= fv.take(k as int));
            assert(fv.take(k + 1 as int).last() == fv[k as int]);
            assert(abs.deep_view() =~= prev.push(absolutize(root, fv[k as int])));
            assert(abs.deep_view() =~= absolutize_all(root, fv.take(k + 1 as int)));
        }
    }
    proof {
        assert(fv.take(fv.len() as int) =~= fv);
    }
    let selects_everything = files.is_empty();
    let included = &configuration.included_files;
    let ghost iv = configuration@.included_files;
    proof {
        assert(iv.len() == included@.len());
    }
    let mut out: Vec<String> = Vec::new();
    let n_included = included.len();
    proof {
        assert(out.deep_view() =~= filter_included(iv.take(0), root, fv));
    }
    for k in 0..n_included
        invariant
            fv == files.deep_view(),
            fv.len() == files@.len(),
            root == configuration@.absolute_root,
            iv == configuration@.included_files,
            n_included == iv.len(),
            n_included == included@.len(),
            included@ == configuration.included_files@,
            iv == included.deep_view(),
            abs.deep_view() == absolutize_all(root, fv),
            selects_everything == (fv.len() == 0),
            out.deep_view() == filter_included(iv.take(k as int), root, fv),
    {
        let ghost prev = out.deep_view();
        proof {
            assert(iv.take(k + 1 as int).drop_last() =~= iv.take(k as int));
            assert(iv.take(k + 1 as int).last() == iv[k as int]);
        }
        if selects_everything || crate::strings::strings_contain(&abs, &included[k]) {
            out.push(dup_string(&included[k]));
            proof {
                assert(out.deep_view() =~= prev.push(iv[k as int]));
            }
        }
    }
    proof {
        assert(iv.take(iv.len() as int) =~= iv);
    }
    out
}

/// Every absolute path of the working set, as a root-relative path.
pub open spec fn relative_paths(root: Seq<char>, paths: Seq<Seq<char>>) -> Seq<Seq<char>>
    decreases paths.len(),
{
    if paths.len() == 0 {
        Seq::empty()
    } else {
        relative_paths(root, paths.drop_last()) + seq![
            paths.last().skip(root.len() as int + 1),
        ]
    }
}

/// Strips the root and its trailing separator from every path.
fn relativize(paths: &Vec<String>, root: &String) -> (r: Vec<String>)
    requires
        forall|j: int|
            0 <= j < paths.deep_view().len() ==> crate::strings::is_prefix_of(
                root@ + "/"@,
                #[trigger] paths.deep_view()[j],
            ),
    ensures
        r.deep_view() == relative_paths(root@, paths.deep_view()),
{
    let ghost pv = paths.deep_view();
    proof {
        reveal_strlit("/");
    }
    let root_len = root.as_str().unicode_len();
    let mut out: Vec<String> = Vec::new();
    proof {
        assert(out.deep_view() =~= relative_paths(root@, pv.take(0)));
    }
    let n_paths = paths.len();
    for k in 0..n_paths
        invariant
            n_paths == pv.len(),
            pv == paths.deep_view(),
            forall|j: int|
                0 <= j < pv.len() ==> crate::strings::is_prefix_of(
                    root@ + "/"@,
                    #[trigger] pv[j],
                ),
            root_len == root@.len(),
            out.deep_view() == relative_paths(root@, pv.take(k as int)),
    {
        let ghost prev = out.deep_view();
        proof {
            reveal_strlit("/");
            assert(crate::strings::is_prefix_of(root@ + "/"@, pv[k as int]));
            assert((root@ + "/"@).len() == root@.len() + 1);
        }
        let path_len = paths[k].as_str().unicode_len();
        proof {
            assert(root_len + 1 <= path_len);
        }
        let rel = crate::strings::chars_from(&paths[k], root_len + 1);
        proof {
            assert(rel@ =~= pv[k as int].skip(root@.len() as int + 1));
            assert(pv.take(k + 1 as int).drop_last() =~= pv.take(k as int));
            assert(pv.take(k + 1 as int).last() == pv[k as int]);
        }
        out.push(rel);
        proof {
            assert(out.deep_view() =~= prev.push(pv[k as int].skip(root@.len() as int + 1)));
            assert(out.deep_view() =~= relative_paths(root@, pv.take(k + 1 as int)));
        }
    }
    proof {
        assert(pv.take(pv.len() as int) =~= pv);
    }
    out
}

/// What one run found, before reconciliation: the checkers that ran, the
/// absolute working set, and the deduplicated violations.
pub struct FoundViolations {
    pub checkers: Vec<CheckerKind>,
    pub absolute_paths: Vec<String>,
    pub violations: Vec<Violation>,
}

/// The mathematical content of a `FoundViolations`.
#[verifier::ext_equal]
pub ghost struct FoundViolationsView {
    pub checkers: Seq<CheckerKind>,
    pub absolute_paths: Seq<Seq<char>>,
    pub violations: Seq<ViolationView>,
}

impl View for FoundViolations {
    type V = FoundViolationsView;

    open spec fn view(&self) -> FoundViolationsView {
        FoundViolationsView {
            checkers: self.checkers@,
            absolute_paths: self.absolute_paths.deep_view(),
            violations: self.violations.deep_view(),
        }
    }
}

/// The three reconciled buckets for one run's findings: reportable (new by
/// identity, or everything when recorded violations are ignored), stale
/// (baseline entries re-checked and not reproduced), and strict-mode
/// (baseline entries whose pack now enforces strictly).
pub open spec fn build_spec(cfg: crate::pack::ConfigurationView, fv: FoundViolationsView) -> Result<
    CheckAllResultView,
    PackErrorView,
> {
    let rel = relative_paths(cfg.absolute_root, fv.absolute_paths);
    let reportable = if cfg.ignore_recorded_violations {
        fv.violations
    } else {
        filter_reportable(fv.violations, cfg.pack_set.all_violations)
    };
    let stale = filter_stale(cfg.pack_set.all_violations, fv.violations, rel);
    match strict_filter(cfg.pack_set.all_violations, fv.checkers, cfg.pack_set.packs) {
        Err(e) => Err(e),
        Ok(strict) => Ok(
            CheckAllResultView {
                reportable_violations: reportable,
                stale_violations: stale,
                strict_mode_violations: strict,
            },
        ),
    }
}

/// Reconciles one run's findings against the configuration's baseline.
pub struct CheckAllBuilder<'a> {
    pub configuration: &'a Configuration,
    pub found_violations: &'a FoundViolations,
}

impl<'a> CheckAllBuilder<'a> {
    pub fn new(
        configuration: &'a Configuration,
        found_violations: &'a FoundViolations,
    ) -> (r: CheckAllBuilder<'a>)
        ensures
            r.configuration == configuration,
            r.found_violations == found_violations,
    {
        CheckAllBuilder { configuration, found_violations }
    }

    /// Builds the three buckets; fails when a baseline entry cannot be routed
    /// to a checker or its pack is missing.
    pub fn build(self) -> (r: Result<CheckAllResult, PackError>)
        requires
            forall|j: int|
                0 <= j < self.found_violations@.absolute_paths.len()
                    ==> crate::strings::is_prefix_of(
                    self.configuration@.absolute_root + "/"@,
                    #[trigger] self.found_violations@.absolute_paths[j],
                ),
        ensures
            match r {
                Ok(res) => build_spec(self.configuration@, self.found_violations@)
                    == Ok::<CheckAllResultView, PackErrorView>(res@),
                Err(e) => build_spec(self.configuration@, self.found_violations@)
                    == Err::<CheckAllResultView, PackErrorView>(e@),
            },
    {
        let recorded = &self.configuration.pack_set.all_violations;
        let reportable_violations = build_reportable_violations(
            &self.found_violations.violations,
            recorded,
            self.configuration.ignore_recorded_violations,
        );
        proof {
            assert forall|j: int|
                0 <= j < self.found_violations.absolute_paths.deep_view().len() implies
                crate::strings::is_prefix_of(
                self.configuration.absolute_root@ + "/"@,
                #[trigger] self.found_violations.absolute_paths.deep_view()[j],
            ) by {
                assert(self.found_violations@.absolute_paths[j]
                    == self.found_violations.absolute_paths.deep_view()[j]);
                assert(crate::strings::is_prefix_of(
                    self.configuration@.absolute_root + "/"@,
                    self.found_violations@.absolute_paths[j],
                ));
            }
        }
        let relative_files = relativize(
            &self.found_violations.absolute_paths,
            &self.configuration.absolute_root,
        );
        let stale_violations = build_stale_violations(
            recorded,
            &self.found_violations.violations,
            &relative_files,
        );
        let strict_mode_violations = match build_strict_mode_violations(
            recorded,
            &self.found_violations.checkers,
            self.configuration,
        ) {
            Ok(v) => v,
            Err(e) => {
                return Err(e);
            },
        };
        let result = CheckAllResult { reportable_violations, stale_violations, strict_mode_violations };
        proof {
            assert(build_spec(self.configuration@, self.found_violations@) matches Ok(v) && v
                =~= result@);
        }
        Ok(result)
    }
}

/// What a whole run decides, from the configuration, the caller's file list
/// and the references extracted from the working set: the first failing check
/// or unresolvable baseline entry aborts the run; otherwise the three buckets.
pub open spec fn check_all_spec(
    cfg: crate::pack::ConfigurationView,
    files: Seq<Seq<char>>,
    references: Seq<ReferenceView>,
) -> Result<CheckAllResultView, PackErrorView> {
    match all_violations_spec(seq![CheckerKind::Privacy], references, cfg.pack_set.packs) {
        Err(e) => Err(e),
        Ok(found) => build_spec(
            cfg,
            FoundViolationsView {
                checkers: seq![CheckerKind::Privacy],
                absolute_paths: filter_included(cfg.included_files, cfg.absolute_root, files),
                violations: found,
            },
        ),
    }
}

/// Runs every registered checker over the given references, which the caller
/// extracted from the working set (the caller's file list intersected with
/// the configured included files), and reconciles the findings against the
/// baseline.
pub fn check_all(
    configuration: &Configuration,
    files: &Vec<String>,
    references: &Vec<Reference>,
) -> (r: Result<CheckAllResult, PackError>)
    requires
        forall|j: int|
            0 <= j < configuration@.included_files.len() ==> crate::strings::is_prefix_of(
                configuration@.absolute_root + "/"@,
                #[trigger] configuration@.included_files[j],
            ),
    ensures
        match r {
            Ok(res) => check_all_spec(configuration@, files.deep_view(), references.deep_view())
                == Ok::<CheckAllResultView, PackErrorView>(res@),
            Err(e) => check_all_spec(configuration@, files.deep_view(), references.deep_view())
                == Err::<CheckAllResultView, PackErrorView>(e@),
        },
{
    let checkers = get_checkers(configuration);
    let absolute_paths = intersect_files(configuration, files);
    let n = references.len();
    proof {
        assert(references@.len() == n);
        assert(checkers@.len() * references@.len() == references@.len());
    }
    let violations = match get_all_violations(configuration, references, &checkers) {
        Ok(v) => v,
        Err(e) => {
            return Err(e);
        },
    };
    let found_violations = FoundViolations { checkers, absolute_paths, violations };
    proof {
        lemma_filter_included_elements(
            configuration@.included_files,
            configuration@.absolute_root,
            files.deep_view(),
        );
        assert forall|j: int| 0 <= j < found_violations@.absolute_paths.len() implies
            crate::strings::is_prefix_of(
            configuration@.absolute_root + "/"@,
            #[trigger] found_violations@.absolute_paths[j],
        ) by {
            let p = found_violations@.absolute_paths[j];
            assert(crate::strings::seq_contains_string(configuration@.included_files, p));
            let w = choose|w: int|
                0 <= w < configuration@.included_files.len() && configuration@.included_files[w]
                    == p;
            assert(crate::strings::is_prefix_of(
                configuration@.absolute_root + "/"@,
                configuration@.included_files[w],
            ));
        }
    }
    let result = CheckAllBuilder::new(configuration, &found_violations).build();
    proof {
        assert(found_violations@.checkers =~= seq![CheckerKind::Privacy]);
        assert(found_violations@ =~= FoundViolationsView {
            checkers: seq![CheckerKind::Privacy],
            absolute_paths: filter_included(
                configuration@.included_files,
                configuration@.absolute_root,
                files.deep_view(),
            ),
            violations: found_violations@.violations,
        });
    }
    result
}


/// `messages` with consecutive repeats collapsed, the deduplication the
/// validators' combined output goes through.
pub open spec fn dedup_adjacent(s: Seq<Seq<char>>) -> Seq<Seq<char>>
    decreases s.len(),
{
    if s.len() <= 1 {
        s
    } else if s.last() == s[s.len() - 2] {
        dedup_adjacent(s.drop_last())
    } else {
        dedup_adjacent(s.drop_last()).push(s.last())
    }
}

/// Collects the structural validators' messages: the validators themselves
/// (dependency cycles, architecture layering) run outside the engine and
/// hand their messages in; consecutive repeats are collapsed.
pub fn validate(validation_messages: &Vec<String>) -> (r: Vec<String>)
    ensures
        r.deep_view() == dedup_adjacent(validation_messages.deep_view()),
{
    let ghost mv = validation_messages.deep_view();
    let mut out: Vec<String> = Vec::new();
    let n = validation_messages.len();
    proof {
        assert(mv.take(0).len() == 0);
        assert(out.deep_view() =~= dedup_adjacent(mv.take(0)));
    }
    for i in 0..n
        invariant
            n == mv.len(),
            mv == validation_messages.deep_view(),
            out.deep_view() == dedup_adjacent(mv.take(i as int)),
    {
        let ghost prev = out.deep_view();
        proof {
            assert(mv.take(i + 1 as int).drop_last() =~= mv.take(i as int));
            assert(mv.take(i + 1 as int).last() == mv[i as int]);
        }
        if i == 0 {
            out.push(dup_string(&validation_messages[0]));
            proof {
                assert(out.deep_view() =~= prev.push(mv[0]));
                assert(mv.take(1) =~= seq![mv[0]]);
                assert(dedup_adjacent(mv.take(1)) =~= seq![mv[0]]);
                assert(out.deep_view() =~= dedup_adjacent(mv.take(1)));
            }
        } else {
            proof {
                assert(mv.take(i + 1 as int)[i - 1] == mv[i - 1]);
            }
            if !crate::strings::string_eq(&validation_messages[i], &validation_messages[i - 1]) {
                out.push(dup_string(&validation_messages[i]));
                proof {
                    assert(out.deep_view() =~= prev.push(mv[i as int]));
                }
            }
        }
    }
    proof {
        assert(mv.take(mv.len() as int) =~= mv);
    }
    out
}

/// Fails with every validator message, deduplicated, when any validator
/// produced one; succeeds silently otherwise.
pub fn validate_all(validation_messages: &Vec<String>) -> (r: Result<(), PackError>)
    ensures
        match r {
            Ok(()) => dedup_adjacent(validation_messages.deep_view()).len() == 0,
            Err(e) => dedup_adjacent(validation_messages.deep_view()).len() > 0 && e@
                == PackErrorView::ValidationFailure {
                messages: dedup_adjacent(validation_messages.deep_view()),
            },
        },
{
    let errors = validate(validation_messages);
    if errors.is_empty() {
        proof {
            assert(errors.deep_view().len() == 0);
        }
        Ok(())
    } else {
        proof {
            assert(errors.deep_view().len() > 0);
        }
        Err(PackError::ValidationFailure { messages: errors })
    }
}

/// Recomputes the violation set over the whole configured file set; what
/// comes back is what the baseline is refreshed with. Persisting it into each
/// pack's baseline file happens outside the engine.
pub fn update(configuration: &Configuration, references: &Vec<Reference>) -> (r: Result<
    Vec<Violation>,
    PackError,
>)
    ensures
        match r {
            Ok(found) => all_violations_spec(
                seq![CheckerKind::Privacy],
                references.deep_view(),
                configuration@.pack_set.packs,
            ) == Ok::<Seq<ViolationView>, PackErrorView>(found.deep_view()),
            Err(e) => all_violations_spec(
                seq![CheckerKind::Privacy],
                references.deep_view(),
                configuration@.pack_set.packs,
            ) == Err::<Seq<ViolationView>, PackErrorView>(e@),
        },
{
    let checkers = get_checkers(configuration);
    let n = references.len();
    proof {
        assert(references@.len() == n);
        assert(checkers@.len() * references@.len() == references@.len());
    }
    get_all_violations(configuration, references, &checkers)
}

/// Some reference exercises the edge from `pack_name` to `dep`.
pub open spec fn edge_used(
    references: Seq<ReferenceView>,
    pack_name: Seq<char>,
    dep: Seq<char>,
) -> bool {
    exists|i: int|
        0 <= i < references.len() && references[i].referencing_pack_name == pack_name
            && references[i].defining_pack_name == Some(dep)
}

fn edge_used_exec(references: &Vec<Reference>, pack_name: &String, dep: &String) -> (r: bool)
    ensures
        r == edge_used(references.deep_view(), pack_name@, dep@),
{
    let ghost rv = references.deep_view();
    let n = references.len();
    for i in 0..n
        invariant
            n == rv.len(),
            rv == references.deep_view(),
            forall|j: int|
                0 <= j < i ==> !(rv[j].referencing_pack_name == pack_name@
                    && rv[j].defining_pack_name == Some(dep@)),
    {
        if crate::strings::string_eq(&references[i].referencing_pack_name, pack_name) {
            match &references[i].defining_pack_name {
                Some(d) => {
                    if crate::strings::string_eq(d, dep) {
                        assert(rv[i as int].referencing_pack_name == pack_name@
                            && rv[i as int].defining_pack_name == Some(dep@));
                        return true;
                    }
                },
                None => {},
            }
        }
    }
    false
}

/// The declared dependencies of one pack that no reference exercises, in
/// declaration order.
pub open spec fn unused_deps_of_pack(p: PackView, references: Seq<ReferenceView>) -> Seq<Seq<char>>
    decreases p.dependencies.len(),
{
    unused_deps(p.dependencies, p.name, references)
}

/// The entries of `deps` whose edge from `pack_name` is never used.
pub open spec fn unused_deps(
    deps: Seq<Seq<char>>,
    pack_name: Seq<char>,
    references: Seq<ReferenceView>,
) -> Seq<Seq<char>>
    decreases deps.len(),
{
    if deps.len() == 0 {
        Seq::empty()
    } else {
        let prefix = unused_deps(deps.drop_last(), pack_name, references);
        if edge_used(references, pack_name, deps.last()) {
            prefix
        } else {
            prefix.push(deps.last())
        }
    }
}

/// One pack and the declared dependencies it never uses.
pub struct UnusedDependencies {
    pub pack: Pack,
    pub dependency_names: Vec<String>,
}

/// The mathematical content of an `UnusedDependencies`.
#[verifier::ext_equal]
pub ghost struct UnusedDependenciesView {
    pub pack: PackView,
    pub dependency_names: Seq<Seq<char>>,
}

impl View for UnusedDependencies {
    type V = UnusedDependenciesView;

    open spec fn view(&self) -> UnusedDependenciesView {
        UnusedDependenciesView {
            pack: self.pack@,
            dependency_names: self.dependency_names.deep_view(),
        }
    }
}

impl DeepView for UnusedDependencies {
    type V = UnusedDependenciesView;

    open spec fn deep_view(&self) -> UnusedDependenciesView {
        self.view()
    }
}

/// Every pack with at least one unused declared dependency, in pack order.
pub open spec fn unnecessary_spec(
    packs: Seq<PackView>,
    references: Seq<ReferenceView>,
) -> Seq<UnusedDependenciesView>
    decreases packs.len(),
{
    if packs.len() == 0 {
        Seq::empty()
    } else {
        let prefix = unnecessary_spec(packs.drop_last(), references);
        let unused = unused_deps_of_pack(packs.last(), references);
        if unused.len() > 0 {
            prefix.push(UnusedDependenciesView { pack: packs.last(), dependency_names: unused })
        } else {
            prefix
        }
    }
}

/// Builds the edge-usage relation and flags every declared dependency edge
/// that no reference exercises. A reference without a resolved defining pack
/// counts for no edge.
pub fn get_unnecessary_dependencies(
    configuration: &Configuration,
    references: &Vec<Reference>,
) -> (r: Vec<UnusedDependencies>)
    ensures
        r.deep_view() == unnecessary_spec(configuration@.pack_set.packs, references.deep_view()),
{
    let ghost pv = configuration@.pack_set.packs;
    let ghost rv = references.deep_view();
    let packs = &configuration.pack_set.packs;
    let mut out: Vec<UnusedDependencies> = Vec::new();
    let n = packs.len();
    proof {
        assert(pv.take(0).len() == 0);
        assert(out.deep_view() =~= unnecessary_spec(pv.take(0), rv));
    }
    for i in 0..n
        invariant
            n == pv.len(),
            n == packs@.len(),
            packs@ == configuration.pack_set.packs@,
            pv == packs.deep_view(),
            pv == configuration@.pack_set.packs,
            rv == references.deep_view(),
            out.deep_view() == unnecessary_spec(pv.take(i as int), rv),
    {
        let ghost prev = out.deep_view();
        let pack = &packs[i];
        let ghost dv = pack.dependencies.deep_view();
        let mut unused: Vec<String> = Vec::new();
        let m = pack.dependencies.len();
        proof {
            assert(dv.take(0).len() == 0);
            assert(unused.deep_view() =~= unused_deps(dv.take(0), pack@.name, rv));
        }
        for j in 0..m
            invariant
                m == dv.len(),
                m == pack.dependencies@.len(),
                dv == pack.dependencies.deep_view(),
                rv == references.deep_view(),
                unused.deep_view() == unused_deps(dv.take(j as int), pack@.name, rv),
        {
            let ghost uprev = unused.deep_view();
            proof {
                assert(dv.take(j + 1 as int).drop_last() =~= dv.take(j as int));
                assert(dv.take(j + 1 as int).last() == dv[j as int]);
            }
            if !edge_used_exec(references, &pack.name, &pack.dependencies[j]) {
                unused.push(dup_string(&pack.dependencies[j]));
                proof {
                    assert(unused.deep_view() =~= uprev.push(dv[j as int]));
                }
            }
        }
        proof {
            assert(dv.take(dv.len() as int) =~= dv);
            assert(pv.take(i + 1 as int).drop_last() =~= pv.take(i as int));
            assert(pv.take(i + 1 as int).last() == pv[i as int]);
        }
        if unused.len() > 0 {
            let entry = UnusedDependencies { pack: pack.duplicate(), dependency_names: unused };
            proof {
                assert(entry@ =~= UnusedDependenciesView {
                    pack: pv[i as int],
                    dependency_names: unused_deps_of_pack(pv[i as int], rv),
                });
            }
            out.push(entry);
            proof {
                assert(out.deep_view() =~= prev.push(UnusedDependenciesView {
                    pack: pv[i as int],
                    dependency_names: unused_deps_of_pack(pv[i as int], rv),
                }));
            }
        }
    }
    proof {
        assert(pv.take(pv.len() as int) =~= pv);
    }
    out
}

/// The line reported for one unused dependency edge.
pub open spec fn unused_line(pack_name: Seq<char>, dep: Seq<char>) -> Seq<char> {
    pack_name + " depends on "@ + dep + " but does not use it"@
}

/// The lines for one pack's unused dependencies, in order.
pub open spec fn unused_lines_of(pack_name: Seq<char>, deps: Seq<Seq<char>>) -> Seq<Seq<char>>
    decreases deps.len(),
{
    if deps.len() == 0 {
        Seq::empty()
    } else {
        unused_lines_of(pack_name, deps.drop_last()) + seq![
            unused_line(pack_name, deps.last()),
        ]
    }
}

/// The lines for every flagged pack, in order.
pub open spec fn unused_lines(entries: Seq<UnusedDependenciesView>) -> Seq<Seq<char>>
    decreases entries.len(),
{
    if entries.len() == 0 {
        Seq::empty()
    } else {
        unused_lines(entries.drop_last()) + unused_lines_of(
            entries.last().pack.name,
            entries.last().dependency_names,
        )
    }
}

fn unused_line_exec(pack_name: &String, dep: &String) -> (m: String)
    ensures
        m@ == unused_line(pack_name@, dep@),
{
    let mut m = dup_string(pack_name);
    m.append(" depends on ");
    m.append(dep.as_str());
    m.append(" but does not use it");
    proof {
        assert(m@ =~= unused_line(pack_name@, dep@));
    }
    m
}

/// Succeeds when every declared dependency edge is used; fails with one line
/// per unused edge otherwise.
pub fn check_unnecessary_dependencies(
    configuration: &Configuration,
    references: &Vec<Reference>,
) -> (r: Result<(), PackError>)
    ensures
        match r {
            Ok(()) => unnecessary_spec(
                configuration@.pack_set.packs,
                references.deep_view(),
            ).len() == 0,
            Err(e) => unnecessary_spec(configuration@.pack_set.packs, references.deep_view()).len()
                > 0 && e@ == PackErrorView::UnnecessaryDependencies {
                messages: unused_lines(
                    unnecessary_spec(configuration@.pack_set.packs, references.deep_view()),
                ),
            },
        },
{
    let unnecessary_dependencies = get_unnecessary_dependencies(configuration, references);
    let ghost uv = unnecessary_dependencies.deep_view();
    if unnecessary_dependencies.is_empty() {
        proof {
            assert(uv.len() == 0);
        }
        return Ok(());
    }
    let mut messages: Vec<String> = Vec::new();
    let n = unnecessary_dependencies.len();
    proof {
        assert(uv.take(0).len() == 0);
        assert(messages.deep_view() =~= unused_lines(uv.take(0)));
    }
    for i in 0..n
        invariant
            n == uv.len(),
            n == unnecessary_dependencies@.len(),
            n > 0,
            uv == unnecessary_dependencies.deep_view(),
            messages.deep_view() == unused_lines(uv.take(i as int)),
    {
        let entry = &unnecessary_dependencies[i];
        let ghost base = messages.deep_view();
        let ghost dv = entry.dependency_names.deep_view();
        let m = entry.dependency_names.len();
        proof {
            assert(dv.take(0).len() == 0);
            assert(messages.deep_view() =~= base + unused_lines_of(entry@.pack.name, dv.take(0)));
        }
        for j in 0..m
            invariant
                m == dv.len(),
                m == entry.dependency_names@.len(),
                dv == entry.dependency_names.deep_view(),
                messages.deep_view() == base + unused_lines_of(entry@.pack.name, dv.take(j as int)),
        {
            let ghost mprev = messages.deep_view();
            proof {
                assert(dv.take(j + 1 as int).drop_last() =~= dv.take(j as int));
                assert(dv.take(j + 1 as int).last() == dv[j as int]);
            }
            messages.push(unused_line_exec(&entry.pack.name, &entry.dependency_names[j]));
            proof {
                assert(messages.deep_view() =~= mprev.push(unused_line(
                    entry@.pack.name,
                    dv[j as int],
                )));
                assert(messages.deep_view() =~= base + unused_lines_of(
                    entry@.pack.name,
                    dv.take(j + 1 as int),
                ));
            }
        }
        proof {
            assert(dv.take(dv.len() as int) =~= dv);
            assert(uv.take(i + 1 as int).drop_last() =~= uv.take(i as int));
            assert(uv.take(i + 1 as int).last() == uv[i as int]);
            assert(messages.deep_view() =~= unused_lines(uv.take(i + 1 as int)));
        }
    }
    proof {
        assert(uv.take(uv.len() as int) =~= uv);
    }
    Err(PackError::UnnecessaryDependencies { messages })
}

/// The declared dependencies that remain once `names` are removed, in order.
pub open spec fn remove_deps(deps: Seq<Seq<char>>, names: Seq<Seq<char>>) -> Seq<Seq<char>>
    decreases deps.len(),
{
    if deps.len() == 0 {
        Seq::empty()
    } else {
        let prefix = remove_deps(deps.drop_last(), names);
        if crate::strings::seq_contains_string(names, deps.last()) {
            prefix
        } else {
            prefix.push(deps.last())
        }
    }
}

/// The pack as it is persisted after the removal: the same pack without the
/// named dependencies.
pub fn remove_reference_to_dependency(pack: &Pack, dependency_names: &Vec<String>) -> (r: Pack)
    ensures
        r@ == (crate::pack::PackView {
            dependencies: remove_deps(pack@.dependencies, dependency_names.deep_view()),
            ..pack@
        }),
{
    let ghost dv = pack.dependencies.deep_view();
    let ghost nv = dependency_names.deep_view();
    let mut kept: Vec<String> = Vec::new();
    let m = pack.dependencies.len();
    proof {
        assert(dv.take(0).len() == 0);
        assert(kept.deep_view() =~= remove_deps(dv.take(0), nv));
    }
    for j in 0..m
        invariant
            m == dv.len(),
            m == pack.dependencies@.len(),
            dv == pack.dependencies.deep_view(),
            nv == dependency_names.deep_view(),
            kept.deep_view() == remove_deps(dv.take(j as int), nv),
    {
        let ghost kprev = kept.deep_view();
        proof {
            assert(dv.take(j + 1 as int).drop_last() =~= dv.take(j as int));
            assert(dv.take(j + 1 as int).last() == dv[j as int]);
        }
        if !crate::strings::strings_contain(dependency_names, &pack.dependencies[j]) {
            kept.push(dup_string(&pack.dependencies[j]));
            proof {
                assert(kept.deep_view() =~= kprev.push(dv[j as int]));
            }
        }
    }
    proof {
        assert(dv.take(dv.len() as int) =~= dv);
    }
    let dup = pack.duplicate();
    let r = Pack {
        dependencies: kept,
        name: dup.name,
        relative_path: dup.relative_path,
        enforce_privacy: dup.enforce_privacy,
        ignored_private_constants: dup.ignored_private_constants,
        private_constants: dup.private_constants,
        public_folder: dup.public_folder,
        package_todo: dup.package_todo,
    };
    proof {
        assert(r@ =~~= crate::pack::PackView {
            dependencies: remove_deps(pack@.dependencies, dependency_names.deep_view()),
            ..pack@
        });
    }
    r
}

/// The packs as they are persisted after removal, one per flagged pack.
pub open spec fn packs_without_unused(entries: Seq<UnusedDependenciesView>) -> Seq<
    crate::pack::PackView,
>
    decreases entries.len(),
{
    if entries.len() == 0 {
        Seq::empty()
    } else {
        packs_without_unused(entries.drop_last()) + seq![
            crate::pack::PackView {
                dependencies: remove_deps(
                    entries.last().pack.dependencies,
                    entries.last().dependency_names,
                ),
                ..entries.last().pack
            },
        ]
    }
}

/// For every pack with unused declared dependencies, the pack as it should be
/// persisted with those dependencies removed. Writing the packs back to disk
/// happens outside the engine.
pub fn remove_unnecessary_dependencies(
    configuration: &Configuration,
    references: &Vec<Reference>,
) -> (r: Vec<Pack>)
    ensures
        r.deep_view() == packs_without_unused(
            unnecessary_spec(configuration@.pack_set.packs, references.deep_view()),
        ),
{
    let unnecessary_dependencies = get_unnecessary_dependencies(configuration, references);
    let ghost uv = unnecessary_dependencies.deep_view();
    let mut out: Vec<Pack> = Vec::new();
    let n = unnecessary_dependencies.len();
    proof {
        assert(uv.take(0).len() == 0);
        assert(out.deep_view() =~= packs_without_unused(uv.take(0)));
    }
    for i in 0..n
        invariant
            n == uv.len(),
            n == unnecessary_dependencies@.len(),
            uv == unnecessary_dependencies.deep_view(),
            out.deep_view() == packs_without_unused(uv.take(i as int)),
    {
        let ghost prev = out.deep_view();
        let entry = &unnecessary_dependencies[i];
        let updated = remove_reference_to_dependency(&entry.pack, &entry.dependency_names);
        proof {
            assert(uv.take(i + 1 as int).drop_last() =~= uv.take(i as int));
            assert(uv.take(i + 1 as int).last() == uv[i as int]);
        }
        out.push(updated);
        proof {
            assert(out.deep_view() =~= prev.push(crate::pack::PackView {
                dependencies: remove_deps(uv[i as int].pack.dependencies, uv[i as int].dependency_names),
                ..uv[i as int].pack
            }));
        }
    }
    proof {
        assert(uv.take(uv.len() as int) =~= uv);
    }
    out
}

} // verus!