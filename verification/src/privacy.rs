//! The privacy checker: decides whether a cross-pack constant reference
//! violates the defining pack's declared private surface.

use vstd::prelude::*;
use vstd::string::StringExecFns;

use crate::checker::{
    check_result_view, get_defining_pack, ViolationIdentifier, ViolationIdentifierView, Violation,
    ViolationView,
};
use crate::error::{PackError, PackErrorView};
use crate::pack::{
    has_pack, pack_lookup, spec_enforce_privacy, spec_public_folder, Configuration, Pack, PackView,
    Reference, ReferenceView,
};
use crate::strings::{
    decimal_seq, dup_string, is_prefix_of, render_decimal, seq_contains_string, string_eq,
    string_starts_with, strings_contain,
};

verus! {

/// `file` lies under `folder`, comparing whole path components.
pub open spec fn path_under(folder: Seq<char>, file: Seq<char>) -> bool {
    file == folder || is_prefix_of(folder + "/"@, file)
}

/// `file` lies under `folder`, comparing whole path components.
pub fn path_under_exec(folder: &String, file: &String) -> (r: bool)
    ensures
        r == path_under(folder@, file@),
{
    if string_eq(file, folder) {
        return true;
    }
    let mut prefix = dup_string(folder);
    prefix.append("/");
    string_starts_with(file, &prefix)
}

/// The constant is named by the private list: it equals an entry, or lives in
/// a namespace rooted at an entry.
pub open spec fn named_private(private_constants: Seq<Seq<char>>, constant: Seq<char>) -> bool {
    seq_contains_string(private_constants, constant) || exists|i: int|
        0 <= i < private_constants.len() && is_prefix_of(private_constants[i] + "::"@, constant)
}

fn in_private_namespace(private_constants: &Vec<String>, constant: &String) -> (r: bool)
    ensures
        r == exists|i: int|
            0 <= i < private_constants.deep_view().len() && is_prefix_of(
                private_constants.deep_view()[i] + "::"@,
                constant@,
            ),
{
    let ghost pv = private_constants.deep_view();
    for i in 0..private_constants.len()
        invariant
            pv == private_constants.deep_view(),
            forall|j: int| 0 <= j < i ==> !is_prefix_of(pv[j] + "::"@, constant@),
    {
        let mut namespaced = dup_string(&private_constants[i]);
        namespaced.append("::");
        if string_starts_with(constant, &namespaced) {
            assert(is_prefix_of(pv[i as int] + "::"@, constant@));
            return true;
        }
    }
    false
}

/// The message reported for a privacy violation.
pub open spec fn privacy_message(
    r: ReferenceView,
    defining_pack_name: Seq<char>,
    referencing_pack_name: Seq<char>,
) -> Seq<char> {
    r.relative_referencing_file + ":"@ + decimal_seq(r.line) + ":"@ + decimal_seq(r.column)
        + "\nPrivacy violation: `"@ + r.constant_name + "` is private to `"@ + defining_pack_name
        + "`, but referenced from `"@ + referencing_pack_name + "`"@
}

fn privacy_message_exec(
    reference: &Reference,
    defining_pack_name: &String,
    referencing_pack_name: &String,
) -> (m: String)
    ensures
        m@ == privacy_message(reference@, defining_pack_name@, referencing_pack_name@),
{
    let mut m = dup_string(&reference.relative_referencing_file);
    m.append(":");
    let line = render_decimal(reference.source_location.line);
    m.append(line.as_str());
    m.append(":");
    let column = render_decimal(reference.source_location.column);
    m.append(column.as_str());
    m.append("\nPrivacy violation: `");
    m.append(reference.constant_name.as_str());
    m.append("` is private to `");
    m.append(defining_pack_name.as_str());
    m.append("`, but referenced from `");
    m.append(referencing_pack_name.as_str());
    m.append("`");
    proof {
        assert(m@ =~= privacy_message(reference@, defining_pack_name@, referencing_pack_name@));
    }
    m
}

/// What the privacy rule decides for one reference, once both packs are
/// resolved: `None` when no violation is raised, in order: enforcement off;
/// constant ignored; defining file unresolved; self-reference; defining file
/// public by location; a non-empty private list that does not name the
/// constant. Anything else is a violation.
pub open spec fn privacy_decision(
    r: ReferenceView,
    referencing: PackView,
    defining: PackView,
) -> Option<ViolationView> {
    if spec_enforce_privacy(defining) is False {
        None
    } else if seq_contains_string(defining.ignored_private_constants, r.constant_name) {
        None
    } else if r.relative_defining_file is None {
        None
    } else if referencing.name == defining.name {
        None
    } else if path_under(spec_public_folder(defining), r.relative_defining_file->0) {
        None
    } else if defining.private_constants.len() > 0 && !named_private(
        defining.private_constants,
        r.constant_name,
    ) {
        None
    } else {
        Some(
            ViolationView {
                message: privacy_message(r, defining.name, referencing.name),
                identifier: ViolationIdentifierView {
                    violation_type: "privacy"@,
                    strict: spec_enforce_privacy(defining) is Strict,
                    file: r.relative_referencing_file,
                    constant_name: r.constant_name,
                    referencing_pack_name: referencing.name,
                    defining_pack_name: defining.name,
                },
            },
        )
    }
}

/// What the privacy checker returns for one reference: an error when a pack
/// named by the reference is missing from the pack set, otherwise the
/// decision over the resolved packs. A reference whose constant was never
/// resolved to a pack raises nothing.
pub open spec fn privacy_check_spec(r: ReferenceView, packs: Seq<PackView>) -> Result<
    Option<ViolationView>,
    PackErrorView,
> {
    match pack_lookup(packs, r.referencing_pack_name) {
        None => Err(PackErrorView::NotFound { pack_name: r.referencing_pack_name }),
        Some(referencing) => match r.defining_pack_name {
            None => Ok(None),
            Some(dname) => match pack_lookup(packs, dname) {
                None => Err(PackErrorView::NotFound { pack_name: dname }),
                Some(defining) => Ok(privacy_decision(r, referencing, defining)),
            },
        },
    }
}

/// The privacy rule.
pub struct Checker {}

impl Checker {
    /// Examines one reference; `Ok(None)` when it does not violate the
    /// privacy rule, `Ok(Some(violation))` when it does, an error when a
    /// pack named by the reference does not exist in the pack set.
    pub fn check(&self, reference: &Reference, configuration: &Configuration) -> (r: Result<
        Option<Violation>,
        PackError,
    >)
        ensures
            check_result_view(r) == privacy_check_spec(reference@, configuration@.pack_set.packs),
    {
        let pack_set = &configuration.pack_set;
        let referencing_pack = match reference.referencing_pack(pack_set) {
            Ok(p) => p,
            Err(e) => {
                return Err(e);
            },
        };
        let defining_pack = match reference.defining_pack(pack_set) {
            Ok(Some(p)) => p,
            Ok(None) => {
                return Ok(None);
            },
            Err(e) => {
                return Err(e);
            },
        };
        if defining_pack.enforce_privacy().is_false() {
            return Ok(None);
        }
        if strings_contain(&defining_pack.ignored_private_constants, &reference.constant_name) {
            return Ok(None);
        }
        let relative_defining_file = match &reference.relative_defining_file {
            Some(f) => f,
            None => {
                return Ok(None);
            },
        };
        if string_eq(&referencing_pack.name, &defining_pack.name) {
            return Ok(None);
        }
        let public_folder = defining_pack.public_folder();
        if path_under_exec(&public_folder, relative_defining_file) {
            return Ok(None);
        }
        if defining_pack.private_constants.len() > 0 {
            let constant_is_private = strings_contain(
                &defining_pack.private_constants,
                &reference.constant_name,
            );
            let constant_is_in_private_namespace = in_private_namespace(
                &defining_pack.private_constants,
                &reference.constant_name,
            );
            if !constant_is_private && !constant_is_in_private_namespace {
                return Ok(None);
            }
        }
        let message = privacy_message_exec(reference, &defining_pack.name, &referencing_pack.name);
        let identifier = ViolationIdentifier {
            violation_type: String::from_str("privacy"),
            strict: defining_pack.enforce_privacy().is_strict(),
            file: dup_string(&reference.relative_referencing_file),
            constant_name: dup_string(&reference.constant_name),
            referencing_pack_name: dup_string(&referencing_pack.name),
            defining_pack_name: dup_string(&defining_pack.name),
        };
        Ok(Some(Violation { message, identifier }))
    }

    /// Whether the pack that owns a baseline violation currently enforces
    /// privacy strictly; an error when that pack is missing.
    pub fn is_strict_mode_violation(
        &self,
        violation: &ViolationIdentifier,
        configuration: &Configuration,
    ) -> (r: Result<bool, PackError>)
        ensures
            match pack_lookup(configuration@.pack_set.packs, violation@.defining_pack_name) {
                Some(p) => r == Ok::<bool, PackError>(spec_enforce_privacy(p) is Strict),
                None => r matches Err(e) && e@ == PackErrorView::NotFound {
                    pack_name: violation@.defining_pack_name,
                },
            },
    {
        let defining_pack = match get_defining_pack(violation, &configuration.pack_set) {
            Ok(p) => p,
            Err(e) => {
                return Err(e);
            },
        };
        Ok(defining_pack.enforce_privacy().is_strict())
    }

    /// The stable tag that routes baseline identifiers to this rule.
    pub fn violation_type(&self) -> (r: String)
        ensures
            r@ == "privacy"@,
    {
        String::from_str("privacy")
    }
}

} // verus!
