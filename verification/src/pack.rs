//! The pack graph model: packs, their declared dependencies, their privacy
//! enforcement settings and their persisted baseline violations, plus the
//! pack set, the run configuration and the reference model.

use vstd::prelude::*;
use vstd::string::StringExecFns;

use crate::checker::{ViolationIdentifier, ViolationIdentifierView};
use crate::strings::{dup_string, dup_strings};

verus! {

/// How strongly a rule is enforced: not at all, normally (new violations are
/// reported, baseline ones tolerated), or strictly (even baseline violations
/// fail the run).
pub enum CheckerSetting {
    False,
    True,
    Strict,
}

impl CheckerSetting {
    pub fn is_false(&self) -> (r: bool)
        ensures
            r == (*self is False),
    {
        matches!(self, CheckerSetting::False)
    }

    pub fn is_strict(&self) -> (r: bool)
        ensures
            r == (*self is Strict),
    {
        matches!(self, CheckerSetting::Strict)
    }

    pub fn duplicate(&self) -> (r: CheckerSetting)
        ensures
            r == *self,
    {
        match self {
            CheckerSetting::False => CheckerSetting::False,
            CheckerSetting::True => CheckerSetting::True,
            CheckerSetting::Strict => CheckerSetting::Strict,
        }
    }
}

/// One group of a pack's persisted baseline: the violations recorded against
/// a single constant, as the violation types seen and the referencing files.
pub struct ConstantGroup {
    pub constant_name: String,
    pub violation_types: Vec<String>,
    pub files: Vec<String>,
}

/// The mathematical content of a `ConstantGroup`.
#[verifier::ext_equal]
pub ghost struct ConstantGroupView {
    pub constant_name: Seq<char>,
    pub violation_types: Seq<Seq<char>>,
    pub files: Seq<Seq<char>>,
}

impl View for ConstantGroup {
    type V = ConstantGroupView;

    open spec fn view(&self) -> ConstantGroupView {
        ConstantGroupView {
            constant_name: self.constant_name@,
            violation_types: self.violation_types.deep_view(),
            files: self.files.deep_view(),
        }
    }
}

impl DeepView for ConstantGroup {
    type V = ConstantGroupView;

    open spec fn deep_view(&self) -> ConstantGroupView {
        self.view()
    }
}

impl ConstantGroup {
    pub fn duplicate(&self) -> (r: ConstantGroup)
        ensures
            r@ == self@,
    {
        let r = ConstantGroup {
            constant_name: dup_string(&self.constant_name),
            violation_types: dup_strings(&self.violation_types),
            files: dup_strings(&self.files),
        };
        proof {
            assert(r@ =~~= self@);
        }
        r
    }
}

/// One entry of a pack's persisted baseline: every violation group recorded
/// against a single defining pack.
pub struct TodoEntry {
    pub defining_pack_name: String,
    pub groups: Vec<ConstantGroup>,
}

/// The mathematical content of a `TodoEntry`.
#[verifier::ext_equal]
pub ghost struct TodoEntryView {
    pub defining_pack_name: Seq<char>,
    pub groups: Seq<ConstantGroupView>,
}

impl View for TodoEntry {
    type V = TodoEntryView;

    open spec fn view(&self) -> TodoEntryView {
        TodoEntryView {
            defining_pack_name: self.defining_pack_name@,
            groups: self.groups.deep_view(),
        }
    }
}

impl DeepView for TodoEntry {
    type V = TodoEntryView;

    open spec fn deep_view(&self) -> TodoEntryView {
        self.view()
    }
}

impl TodoEntry {
    pub fn duplicate(&self) -> (r: TodoEntry)
        ensures
            r@ == self@,
    {
        let mut groups: Vec<ConstantGroup> = Vec::new();
        for i in 0..self.groups.len()
            invariant
                groups.deep_view() == self.groups.deep_view().take(i as int),
        {
            let ghost prev = groups.deep_view();
            let d = self.groups[i].duplicate();
            assert(d.deep_view() == self.groups@[i as int].deep_view());
            groups.push(d);
            proof {
                assert(prev.len() == i);
                assert(groups.deep_view() =~= prev.push(d.deep_view()));
                assert(prev.push(d.deep_view()) =~= self.groups.deep_view().take(i + 1 as int));
            }
        }
        proof {
            assert(self.groups.deep_view().take(self.groups@.len() as int) =~~= self.groups.deep_view());
        }
        let r = TodoEntry { defining_pack_name: dup_string(&self.defining_pack_name), groups };
        proof {
            assert(r@ =~~= self@);
        }
        r
    }
}

/// A pack's persisted baseline, keyed by defining pack.
pub struct PackageTodo {
    pub violations_by_defining_pack: Vec<TodoEntry>,
}

/// The mathematical content of a `PackageTodo`.
#[verifier::ext_equal]
pub ghost struct PackageTodoView {
    pub violations_by_defining_pack: Seq<TodoEntryView>,
}

impl View for PackageTodo {
    type V = PackageTodoView;

    open spec fn view(&self) -> PackageTodoView {
        PackageTodoView { violations_by_defining_pack: self.violations_by_defining_pack.deep_view() }
    }
}

impl PackageTodo {
    pub fn duplicate(&self) -> (r: PackageTodo)
        ensures
            r@ == self@,
    {
        let src = &self.violations_by_defining_pack;
        let mut entries: Vec<TodoEntry> = Vec::new();
        for i in 0..src.len()
            invariant
                entries.deep_view() == src.deep_view().take(i as int),
        {
            let ghost prev = entries.deep_view();
            let d = src[i].duplicate();
            assert(d.deep_view() == src@[i as int].deep_view());
            entries.push(d);
            proof {
                assert(prev.len() == i);
                assert(entries.deep_view() =~= prev.push(d.deep_view()));
                assert(prev.push(d.deep_view()) =~= src.deep_view().take(i + 1 as int));
            }
        }
        proof {
            assert(src.deep_view().take(src@.len() as int) =~~= src.deep_view());
        }
        let r = PackageTodo { violations_by_defining_pack: entries };
        proof {
            assert(r@ =~~= self@);
        }
        r
    }
}

/// A named unit of code with declared dependencies, privacy enforcement
/// settings and a persisted baseline.
pub struct Pack {
    pub name: String,
    pub relative_path: String,
    pub dependencies: Vec<String>,
    pub enforce_privacy: Option<CheckerSetting>,
    pub ignored_private_constants: Vec<String>,
    pub private_constants: Vec<String>,
    pub public_folder: Option<String>,
    pub package_todo: PackageTodo,
}

/// The mathematical content of a `Pack`.
#[verifier::ext_equal]
pub ghost struct PackView {
    pub name: Seq<char>,
    pub relative_path: Seq<char>,
    pub dependencies: Seq<Seq<char>>,
    pub enforce_privacy: Option<CheckerSetting>,
    pub ignored_private_constants: Seq<Seq<char>>,
    pub private_constants: Seq<Seq<char>>,
    pub public_folder: Option<Seq<char>>,
    pub package_todo: PackageTodoView,
}

impl View for Pack {
    type V = PackView;

    open spec fn view(&self) -> PackView {
        PackView {
            name: self.name@,
            relative_path: self.relative_path@,
            dependencies: self.dependencies.deep_view(),
            enforce_privacy: self.enforce_privacy,
            ignored_private_constants: self.ignored_private_constants.deep_view(),
            private_constants: self.private_constants.deep_view(),
            public_folder: match self.public_folder {
                Some(ref f) => Some(f@),
                None => None,
            },
            package_todo: self.package_todo@,
        }
    }
}

impl DeepView for Pack {
    type V = PackView;

    open spec fn deep_view(&self) -> PackView {
        self.view()
    }
}

/// The effective privacy enforcement of a pack: absent means off.
pub open spec fn spec_enforce_privacy(p: PackView) -> CheckerSetting {
    match p.enforce_privacy {
        Some(s) => s,
        None => CheckerSetting::False,
    }
}

/// The pack's public folder: as configured, or `<relative_path>/app/public`.
pub open spec fn spec_public_folder(p: PackView) -> Seq<char> {
    match p.public_folder {
        Some(f) => f,
        None => p.relative_path + "/app/public"@,
    }
}

impl Pack {
    /// The effective privacy enforcement setting; absent means off.
    pub fn enforce_privacy(&self) -> (r: CheckerSetting)
        ensures
            r == spec_enforce_privacy(self@),
    {
        match &self.enforce_privacy {
            Some(s) => s.duplicate(),
            None => CheckerSetting::False,
        }
    }

    /// The folder whose files are public by location.
    pub fn public_folder(&self) -> (r: String)
        ensures
            r@ == spec_public_folder(self@),
    {
        match &self.public_folder {
            Some(f) => dup_string(f),
            None => {
                let mut f = dup_string(&self.relative_path);
                f.append("/app/public");
                f
            },
        }
    }

    pub fn duplicate(&self) -> (r: Pack)
        ensures
            r@ == self@,
    {
        let r = Pack {
            name: dup_string(&self.name),
            relative_path: dup_string(&self.relative_path),
            dependencies: dup_strings(&self.dependencies),
            enforce_privacy: match &self.enforce_privacy {
                Some(s) => Some(s.duplicate()),
                None => None,
            },
            ignored_private_constants: dup_strings(&self.ignored_private_constants),
            private_constants: dup_strings(&self.private_constants),
            public_folder: match &self.public_folder {
                Some(f) => Some(dup_string(f)),
                None => None,
            },
            package_todo: self.package_todo.duplicate(),
        };
        proof {
            assert(r@ =~~= self@);
        }
        r
    }
}

/// Where a reference was seen: 1-based line and column.
pub struct SourceLocation {
    pub line: usize,
    pub column: usize,
}

/// One observed use of a constant: which pack references which constant,
/// defined where. The defining side is absent when the constant could not be
/// resolved to a pack.
pub struct Reference {
    pub constant_name: String,
    pub referencing_pack_name: String,
    pub defining_pack_name: Option<String>,
    pub relative_referencing_file: String,
    pub relative_defining_file: Option<String>,
    pub source_location: SourceLocation,
}

/// The mathematical content of a `Reference`.
#[verifier::ext_equal]
pub ghost struct ReferenceView {
    pub constant_name: Seq<char>,
    pub referencing_pack_name: Seq<char>,
    pub defining_pack_name: Option<Seq<char>>,
    pub relative_referencing_file: Seq<char>,
    pub relative_defining_file: Option<Seq<char>>,
    pub line: nat,
    pub column: nat,
}

impl View for Reference {
    type V = ReferenceView;

    open spec fn view(&self) -> ReferenceView {
        ReferenceView {
            constant_name: self.constant_name@,
            referencing_pack_name: self.referencing_pack_name@,
            defining_pack_name: match self.defining_pack_name {
                Some(ref n) => Some(n@),
                None => None,
            },
            relative_referencing_file: self.relative_referencing_file@,
            relative_defining_file: match self.relative_defining_file {
                Some(ref f) => Some(f@),
                None => None,
            },
            line: self.source_location.line as nat,
            column: self.source_location.column as nat,
        }
    }
}

impl DeepView for Reference {
    type V = ReferenceView;

    open spec fn deep_view(&self) -> ReferenceView {
        self.view()
    }
}

/// The first pack of `packs` named `name`, if any.
pub open spec fn pack_lookup(packs: Seq<PackView>, name: Seq<char>) -> Option<PackView>
    decreases packs.len(),
{
    if packs.len() == 0 {
        None
    } else if packs[0].name == name {
        Some(packs[0])
    } else {
        pack_lookup(packs.drop_first(), name)
    }
}

/// Some pack of `packs` is named `name`.
pub open spec fn has_pack(packs: Seq<PackView>, name: Seq<char>) -> bool {
    pack_lookup(packs, name) is Some
}

/// The full collection of packs plus the flattened baseline: every violation
/// identity present in any pack's persisted baseline.
pub struct PackSet {
    pub packs: Vec<Pack>,
    pub all_violations: Vec<ViolationIdentifier>,
}

/// The mathematical content of a `PackSet`.
#[verifier::ext_equal]
pub ghost struct PackSetView {
    pub packs: Seq<PackView>,
    pub all_violations: Seq<ViolationIdentifierView>,
}

impl View for PackSet {
    type V = PackSetView;

    open spec fn view(&self) -> PackSetView {
        PackSetView {
            packs: self.packs.deep_view(),
            all_violations: self.all_violations.deep_view(),
        }
    }
}

/// The baseline identity recorded for one violation type and file of a
/// group: `strict` is not persisted and is recorded as off.
pub open spec fn baseline_id(
    violation_type: Seq<char>,
    file: Seq<char>,
    constant_name: Seq<char>,
    referencing_pack_name: Seq<char>,
    defining_pack_name: Seq<char>,
) -> ViolationIdentifierView {
    ViolationIdentifierView {
        violation_type,
        strict: false,
        file,
        constant_name,
        referencing_pack_name,
        defining_pack_name,
    }
}

/// The identities of one violation type of a group, one per file.
pub open spec fn ids_of_files(
    violation_type: Seq<char>,
    files: Seq<Seq<char>>,
    constant_name: Seq<char>,
    referencing_pack_name: Seq<char>,
    defining_pack_name: Seq<char>,
) -> Seq<ViolationIdentifierView>
    decreases files.len(),
{
    if files.len() == 0 {
        Seq::empty()
    } else {
        ids_of_files(
            violation_type,
            files.drop_last(),
            constant_name,
            referencing_pack_name,
            defining_pack_name,
        ) + seq![
            baseline_id(
                violation_type,
                files.last(),
                constant_name,
                referencing_pack_name,
                defining_pack_name,
            ),
        ]
    }
}

/// The identities of a whole group: each violation type crossed with each file.
pub open spec fn ids_of_types(
    violation_types: Seq<Seq<char>>,
    files: Seq<Seq<char>>,
    constant_name: Seq<char>,
    referencing_pack_name: Seq<char>,
    defining_pack_name: Seq<char>,
) -> Seq<ViolationIdentifierView>
    decreases violation_types.len(),
{
    if violation_types.len() == 0 {
        Seq::empty()
    } else {
        ids_of_types(
            violation_types.drop_last(),
            files,
            constant_name,
            referencing_pack_name,
            defining_pack_name,
        ) + ids_of_files(
            violation_types.last(),
            files,
            constant_name,
            referencing_pack_name,
            defining_pack_name,
        )
    }
}

/// The identities of every group of one baseline entry.
pub open spec fn ids_of_groups(
    groups: Seq<ConstantGroupView>,
    referencing_pack_name: Seq<char>,
    defining_pack_name: Seq<char>,
) -> Seq<ViolationIdentifierView>
    decreases groups.len(),
{
    if groups.len() == 0 {
        Seq::empty()
    } else {
        ids_of_groups(groups.drop_last(), referencing_pack_name, defining_pack_name)
            + ids_of_types(
            groups.last().violation_types,
            groups.last().files,
            groups.last().constant_name,
            referencing_pack_name,
            defining_pack_name,
        )
    }
}

/// The identities of every entry of one pack's baseline.
pub open spec fn ids_of_entries(
    entries: Seq<TodoEntryView>,
    referencing_pack_name: Seq<char>,
) -> Seq<ViolationIdentifierView>
    decreases entries.len(),
{
    if entries.len() == 0 {
        Seq::empty()
    } else {
        ids_of_entries(entries.drop_last(), referencing_pack_name) + ids_of_groups(
            entries.last().groups,
            referencing_pack_name,
            entries.last().defining_pack_name,
        )
    }
}

/// The flattened baseline of a whole pack collection.
pub open spec fn ids_of_packs(packs: Seq<PackView>) -> Seq<ViolationIdentifierView>
    decreases packs.len(),
{
    if packs.len() == 0 {
        Seq::empty()
    } else {
        ids_of_packs(packs.drop_last()) + ids_of_entries(
            packs.last().package_todo.violations_by_defining_pack,
            packs.last().name,
        )
    }
}

fn push_ids_of_files(
    out: &mut Vec<ViolationIdentifier>,
    violation_type: &String,
    files: &Vec<String>,
    constant_name: &String,
    referencing_pack_name: &String,
    defining_pack_name: &String,
)
    ensures
        final(out).deep_view() == old(out).deep_view() + ids_of_files(
            violation_type@,
            files.deep_view(),
            constant_name@,
            referencing_pack_name@,
            defining_pack_name@,
        ),
{
    let ghost base = out.deep_view();
    let ghost fv = files.deep_view();
    for i in 0..files.len()
        invariant
            fv == files.deep_view(),
            out@.len() == base.len() + i,
            out.deep_view() == base + ids_of_files(
                violation_type@,
                fv.take(i as int),
                constant_name@,
                referencing_pack_name@,
                defining_pack_name@,
            ),
    {
        let ghost prev = out.deep_view();
        let id = ViolationIdentifier {
            violation_type: dup_string(violation_type),
            strict: false,
            file: dup_string(&files[i]),
            constant_name: dup_string(constant_name),
            referencing_pack_name: dup_string(referencing_pack_name),
            defining_pack_name: dup_string(defining_pack_name),
        };
        assert(id@ == baseline_id(
            violation_type@,
            fv[i as int],
            constant_name@,
            referencing_pack_name@,
            defining_pack_name@,
        ));
        out.push(id);
        proof {
            assert(prev.len() == base.len() + i);
            assert(out.deep_view() =~= prev.push(
                baseline_id(
                    violation_type@,
                    fv[i as int],
                    constant_name@,
                    referencing_pack_name@,
                    defining_pack_name@,
                ),
            ));
            assert(fv.take(i + 1 as int).drop_last() =~= fv.take(i as int));
            assert(fv.take(i + 1 as int).last() == fv[i as int]);
            assert(out.deep_view() =~= base + ids_of_files(
                violation_type@,
                fv.take(i + 1 as int),
                constant_name@,
                referencing_pack_name@,
                defining_pack_name@,
            ));
        }
    }
    proof {
        assert(fv.take(fv.len() as int) =~= fv);
    }
}

fn push_ids_of_group(out: &mut Vec<ViolationIdentifier>, group: &ConstantGroup, referencing_pack_name: &String, defining_pack_name: &String)
    ensures
        final(out).deep_view() == old(out).deep_view() + ids_of_types(
            group@.violation_types,
            group@.files,
            group@.constant_name,
            referencing_pack_name@,
            defining_pack_name@,
        ),
{
    let ghost base = out.deep_view();
    let ghost tv = group.violation_types.deep_view();
    for i in 0..group.violation_types.len()
        invariant
            tv == group.violation_types.deep_view(),
            out.deep_view() == base + ids_of_types(
                tv.take(i as int),
                group@.files,
                group@.constant_name,
                referencing_pack_name@,
                defining_pack_name@,
            ),
    {
        push_ids_of_files(
            out,
            &group.violation_types[i],
            &group.files,
            &group.constant_name,
            referencing_pack_name,
            defining_pack_name,
        );
        proof {
            assert(tv.take(i + 1 as int).drop_last() =~~= tv.take(i as int));
            assert(tv.take(i + 1 as int).last() == tv[i as int]);
        }
    }
    proof {
        assert(tv.take(tv.len() as int) =~~= tv);
    }
}

fn push_ids_of_pack(out: &mut Vec<ViolationIdentifier>, pack: &Pack)
    ensures
        final(out).deep_view() == old(out).deep_view() + ids_of_entries(
            pack@.package_todo.violations_by_defining_pack,
            pack@.name,
        ),
{
    let ghost base = out.deep_view();
    let entries = &pack.package_todo.violations_by_defining_pack;
    let ghost ev = entries.deep_view();
    for i in 0..entries.len()
        invariant
            ev == entries.deep_view(),
            out.deep_view() == base + ids_of_entries(ev.take(i as int), pack@.name),
    {
        let entry = &entries[i];
        let ghost gbase = out.deep_view();
        let ghost gv = entry.groups.deep_view();
        for j in 0..entry.groups.len()
            invariant
                ev == entries.deep_view(),
                gv == entry.groups.deep_view(),
                out.deep_view() == gbase + ids_of_groups(
                    gv.take(j as int),
                    pack@.name,
                    entry@.defining_pack_name,
                ),
        {
            push_ids_of_group(out, &entry.groups[j], &pack.name, &entry.defining_pack_name);
            proof {
                assert(gv.take(j + 1 as int).drop_last() =~~= gv.take(j as int));
                assert(gv.take(j + 1 as int).last() == gv[j as int]);
            }
        }
        proof {
            assert(gv.take(gv.len() as int) =~~= gv);
            assert(ev.take(i + 1 as int).drop_last() =~~= ev.take(i as int));
            assert(ev.take(i + 1 as int).last() == ev[i as int]);
        }
    }
    proof {
        assert(ev.take(ev.len() as int) =~~= ev);
    }
}

impl PackSet {
    /// Builds the pack set, flattening every pack's baseline into
    /// `all_violations`.
    pub fn new(packs: Vec<Pack>) -> (r: PackSet)
        ensures
            r@.packs == packs.deep_view(),
            r@.all_violations == ids_of_packs(packs.deep_view()),
    {
        let mut all: Vec<ViolationIdentifier> = Vec::new();
        let ghost pv = packs.deep_view();
        proof {
            assert(all.deep_view() =~~= Seq::<ViolationIdentifierView>::empty() + ids_of_packs(
                pv.take(0),
            ));
        }
        for i in 0..packs.len()
            invariant
                pv == packs.deep_view(),
                all.deep_view() == ids_of_packs(pv.take(i as int)),
        {
            let ghost base = all.deep_view();
            push_ids_of_pack(&mut all, &packs[i]);
            proof {
                assert(pv.take(i + 1 as int).drop_last() =~~= pv.take(i as int));
                assert(pv.take(i + 1 as int).last() == pv[i as int]);
            }
        }
        proof {
            assert(pv.take(pv.len() as int) =~~= pv);
        }
        PackSet { packs, all_violations: all }
    }

    /// The first pack with the given name, or `None`.
    pub fn for_pack(&self, name: &String) -> (r: Option<&Pack>)
        ensures
            match r {
                Some(p) => pack_lookup(self@.packs, name@) == Some(p@),
                None => pack_lookup(self@.packs, name@) is None,
            },
    {
        let ghost pv = self@.packs;
        proof {
            assert(pv.skip(0) =~~= pv);
        }
        for i in 0..self.packs.len()
            invariant
                pv == self@.packs,
                i <= self.packs@.len(),
                pack_lookup(pv, name@) == pack_lookup(pv.skip(i as int), name@),
        {
            if crate::strings::string_eq(&self.packs[i].name, name) {
                proof {
                    assert(pv.skip(i as int)[0] == pv[i as int]);
                }
                return Some(&self.packs[i]);
            }
            proof {
                assert(pv.skip(i as int)[0] == pv[i as int]);
                assert(pv.skip(i as int).drop_first() =~~= pv.skip(i + 1));
            }
        }
        proof {
            assert(pv.skip(pv.len() as int).len() == 0);
        }
        None
    }
}

/// What a run works from: the pack set, the flattened baseline it carries,
/// the set of files in scope, the project root, and whether recorded
/// violations are ignored when reporting.
pub struct Configuration {
    pub pack_set: PackSet,
    pub ignore_recorded_violations: bool,
    pub included_files: Vec<String>,
    pub absolute_root: String,
}

/// The mathematical content of a `Configuration`.
#[verifier::ext_equal]
pub ghost struct ConfigurationView {
    pub pack_set: PackSetView,
    pub ignore_recorded_violations: bool,
    pub included_files: Seq<Seq<char>>,
    pub absolute_root: Seq<char>,
}

impl View for Configuration {
    type V = ConfigurationView;

    open spec fn view(&self) -> ConfigurationView {
        ConfigurationView {
            pack_set: self.pack_set@,
            ignore_recorded_violations: self.ignore_recorded_violations,
            included_files: self.included_files.deep_view(),
            absolute_root: self.absolute_root@,
        }
    }
}

impl Reference {
    /// The pack the reference stands in; an error when the pack set does not
    /// know the name.
    pub fn referencing_pack<'a>(&self, pack_set: &'a PackSet) -> (r: Result<
        &'a Pack,
        crate::error::PackError,
    >)
        ensures
            match r {
                Ok(p) => pack_lookup(pack_set@.packs, self@.referencing_pack_name) == Some(p@),
                Err(e) => !has_pack(pack_set@.packs, self@.referencing_pack_name) && e@
                    == crate::error::PackErrorView::NotFound {
                    pack_name: self@.referencing_pack_name,
                },
            },
    {
        match pack_set.for_pack(&self.referencing_pack_name) {
            Some(p) => Ok(p),
            None => Err(
                crate::error::PackError::NotFound {
                    pack_name: dup_string(&self.referencing_pack_name),
                },
            ),
        }
    }

    /// The pack the referenced constant is defined in: `None` when the
    /// constant was never resolved, an error when a resolved name is missing
    /// from the pack set.
    pub fn defining_pack<'a>(&self, pack_set: &'a PackSet) -> (r: Result<
        Option<&'a Pack>,
        crate::error::PackError,
    >)
        ensures
            match r {
                Ok(op) => match op {
                    Some(p) => self@.defining_pack_name is Some && pack_lookup(
                        pack_set@.packs,
                        self@.defining_pack_name->0,
                    ) == Some(p@),
                    None => self@.defining_pack_name is None,
                },
                Err(e) => self@.defining_pack_name is Some && !has_pack(
                    pack_set@.packs,
                    self@.defining_pack_name->0,
                ) && e@ == crate::error::PackErrorView::NotFound {
                    pack_name: self@.defining_pack_name->0,
                },
            },
    {
        match &self.defining_pack_name {
            Some(name) => match pack_set.for_pack(name) {
                Some(p) => Ok(Some(p)),
                None => Err(crate::error::PackError::NotFound { pack_name: dup_string(name) }),
            },
            None => Ok(None),
        }
    }
}

/// The pack a successful lookup returns carries the looked-up name.
pub proof fn lemma_pack_lookup_name(packs: Seq<PackView>, name: Seq<char>)
    requires
        pack_lookup(packs, name) is Some,
    ensures
        pack_lookup(packs, name)->0.name == name,
    decreases packs.len(),
{
    if packs.len() > 0 && packs[0].name != name {
        lemma_pack_lookup_name(packs.drop_first(), name);
    }
}

} // verus!