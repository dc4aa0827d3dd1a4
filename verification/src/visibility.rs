//! Visibility levels of provider fields and the scoped access-control
//! predicate that decides whether a field declared in one module scope may
//! be composed into a record living in another.

use vstd::prelude::*;
use vstd::string::*;

use crate::text::{
    is_scope_child, spec_is_scope_child, spec_starts_with, str_eq, str_starts_with,
};

verus! {

/// Mathematical model of a visibility level.
pub enum VisibilityModel {
    Public,
    Private,
    Restricted(Seq<char>),
}

/// Visibility level of one provider field.
///
/// `Public` carries no restriction, `Private` restricts access to the
/// declaring module and its descendants, and `Restricted` carries an
/// explicit restriction path such as `crate`, `super`, `self`, or a module
/// path.
#[derive(Debug)]
pub enum VisibilityKind {
    Public,
    Private,
    Restricted(String),
}

impl View for VisibilityKind {
    type V = VisibilityModel;

    open spec fn view(&self) -> VisibilityModel {
        match self {
            VisibilityKind::Public => VisibilityModel::Public,
            VisibilityKind::Private => VisibilityModel::Private,
            VisibilityKind::Restricted(p) => VisibilityModel::Restricted(p@),
        }
    }
}

impl DeepView for VisibilityKind {
    type V = VisibilityModel;

    open spec fn deep_view(&self) -> VisibilityModel {
        self.view()
    }
}

impl Clone for VisibilityKind {
    fn clone(&self) -> (r: Self)
        ensures
            r@ == self@,
    {
        match self {
            VisibilityKind::Public => VisibilityKind::Public,
            VisibilityKind::Private => VisibilityKind::Private,
            VisibilityKind::Restricted(p) => VisibilityKind::Restricted(p.clone()),
        }
    }
}

impl PartialEq for VisibilityKind {
    fn eq(&self, other: &Self) -> (r: bool) {
        match (self, other) {
            (VisibilityKind::Public, VisibilityKind::Public) => true,
            (VisibilityKind::Private, VisibilityKind::Private) => true,
            (VisibilityKind::Restricted(a), VisibilityKind::Restricted(b)) => (str_eq(
                a.as_str(),
                b.as_str(),
            )),
            _ => false,
        }
    }
}

impl vstd::std_specs::cmp::PartialEqSpecImpl for VisibilityKind {
    open spec fn obeys_eq_spec() -> bool {
        true
    }

    open spec fn eq_spec(&self, other: &Self) -> bool {
        self@ == other@
    }
}

/// The textual form of a visibility level, as it appears in diagnostics:
/// `Public`, `Private`, or `Restricted("path")`.
pub open spec fn spec_vis_label(v: VisibilityModel) -> Seq<char> {
    match v {
        VisibilityModel::Public => "Public"@,
        VisibilityModel::Private => "Private"@,
        VisibilityModel::Restricted(p) => "Restricted(\""@ + p + "\")"@,
    }
}

impl VisibilityKind {
    /// A readable label for this visibility level, used in diagnostics.
    pub fn describe(&self) -> (r: String)
        ensures
            r@ == spec_vis_label(self@),
    {
        match self {
            VisibilityKind::Public => "Public".to_owned(),
            VisibilityKind::Private => "Private".to_owned(),
            VisibilityKind::Restricted(p) => {
                let mut out = "Restricted(\"".to_owned();
                out.append(p.as_str());
                out.append("\")");
                out
            },
        }
    }
}

/// An explicit restriction path with every leading `in ` marker removed.
pub open spec fn spec_trim_in(s: Seq<char>) -> Seq<char>
    decreases s.len(),
{
    if s.len() >= 3 && s[0] == 'i' && s[1] == 'n' && s[2] == ' ' {
        spec_trim_in(s.skip(3))
    } else {
        s
    }
}

/// Does `s` hold the three characters `in ` starting at `idx`?
fn has_in_marker_at(s: &str, idx: usize, len: usize) -> (r: bool)
    requires
        idx <= len,
        len == s@.len(),
    ensures
        r == (s@.len() >= idx + 3 && s@[idx as int] == 'i' && s@[idx as int + 1] == 'n'
            && s@[idx as int + 2] == ' '),
{
    if len - idx < 3 {
        return false;
    }
    s.get_char(idx) == 'i' && s.get_char(idx + 1) == 'n' && s.get_char(idx + 2) == ' '
}

/// Strip every leading `in ` marker from a restriction path.
fn trim_in_prefix(s: &str) -> (r: &str)
    ensures
        r@ == spec_trim_in(s@),
{
    let len = s.unicode_len();
    let mut idx: usize = 0;
    proof {
        assert(s@.skip(0) =~= s@);
    }
    while has_in_marker_at(s, idx, len)
        invariant
            idx <= len,
            len == s@.len(),
            spec_trim_in(s@) == spec_trim_in(s@.skip(idx as int)),
        decreases len - idx,
    {
        proof {
            assert(s@.skip(idx as int).skip(3) =~= s@.skip(idx + 3));
        }
        idx = idx + 3;
    }
    s.substring_char(idx, len)
}

/// The access-control predicate: may a field with visibility `vis`,
/// declared in module `declaring`, be composed into a record declared in
/// module `requesting`?
pub open spec fn spec_can_access(
    vis: VisibilityModel,
    declaring: Seq<char>,
    requesting: Seq<char>,
) -> bool {
    match vis {
        VisibilityModel::Public => true,
        VisibilityModel::Private => {
            if declaring.len() == 0 && requesting.len() == 0 {
                true
            } else {
                requesting == declaring || spec_is_scope_child(requesting, declaring)
            }
        },
        VisibilityModel::Restricted(r) => {
            if r == "crate"@ {
                true
            } else if r == "super"@ {
                spec_starts_with(requesting, declaring)
            } else if r == "self"@ {
                declaring == requesting
            } else {
                spec_starts_with(requesting, spec_trim_in(r))
            }
        },
    }
}

/// Decide whether a field with visibility `vis`, declared in module
/// `target_module`, is accessible from module `source_module`.
///
/// `Public` fields are always accessible.  `Private` fields are accessible
/// only within the declaring module or one of its descendants (two empty,
/// still-unresolved scopes also count as the same module).  A `Restricted`
/// field follows its restriction path: `crate` never restricts, `super`
/// and an explicit path are prefix conditions on the requesting scope, and
/// `self` requires the two scopes to be equal.
pub fn can_access_field(vis: &VisibilityKind, target_module: &str, source_module: &str) -> (r:
    bool)
    ensures
        r == spec_can_access(vis@, target_module@, source_module@),
{
    match vis {
        VisibilityKind::Public => true,
        VisibilityKind::Private => {
            if target_module.is_empty() && source_module.is_empty() {
                true
            } else {
                str_eq(source_module, target_module) || is_scope_child(
                    source_module,
                    target_module,
                )
            }
        },
        VisibilityKind::Restricted(restriction) => {
            let r = restriction.as_str();
            if str_eq(r, "crate") {
                true
            } else if str_eq(r, "super") {
                str_starts_with(source_module, target_module)
            } else if str_eq(r, "self") {
                str_eq(target_module, source_module)
            } else {
                let path = trim_in_prefix(r);
                str_starts_with(source_module, path)
            }
        },
    }
}

} // verus!
