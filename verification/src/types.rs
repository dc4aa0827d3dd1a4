//! The engine's data model: field definitions, provider metadata, resolved
//! field information, composition requests, and the error wrapper, together
//! with the mathematical models the contracts are stated over.

use vstd::prelude::*;

use crate::text::spec_joined_path;
use crate::visibility::{VisibilityKind, VisibilityModel};

verus! {

/// The element-wise deep view of a sequence of values.
pub open spec fn deep_of<T: DeepView>(s: Seq<T>) -> Seq<T::V> {
    Seq::new(s.len(), |i: int| s[i].deep_view())
}

/// A vector's deep view is the element-wise deep view of its view.
pub broadcast proof fn lemma_vec_deep_view<T: DeepView>(v: &Vec<T>)
    ensures
        #[trigger] v.deep_view() == deep_of(v@),
{
    assert(v.deep_view() =~= deep_of(v@));
}

/// Pushing an element commutes with taking deep views.
pub broadcast proof fn lemma_deep_of_push<T: DeepView>(s: Seq<T>, x: T)
    ensures
        #[trigger] deep_of(s.push(x)) == deep_of(s).push(x.deep_view()),
{
    assert(deep_of(s.push(x)) =~= deep_of(s).push(x.deep_view()));
}

/// Updating an element commutes with taking deep views.
pub broadcast proof fn lemma_deep_of_update<T: DeepView>(s: Seq<T>, i: int, x: T)
    requires
        0 <= i < s.len(),
    ensures
        #[trigger] deep_of(s.update(i, x)) == deep_of(s).update(i, x.deep_view()),
{
    assert(deep_of(s.update(i, x)) =~= deep_of(s).update(i, x.deep_view()));
}

/// Removing the first element commutes with taking deep views.
pub broadcast proof fn lemma_deep_of_remove_first<T: DeepView>(s: Seq<T>)
    requires
        s.len() >= 1,
    ensures
        #[trigger] deep_of(s.remove(0)) == deep_of(s).drop_first(),
{
    assert(deep_of(s.remove(0)) =~= deep_of(s).drop_first());
}

/// Mathematical model of a [`FieldDef`].
pub struct FieldDefModel {
    pub name: Seq<char>,
    pub ty: Seq<char>,
    pub vis: VisibilityModel,
    pub generic_params: Seq<Seq<char>>,
}

/// One field a provider offers for composition: its name, its (possibly
/// generic) type expression, its visibility, and the ordered generic
/// parameter names declared by the provider that owns it.
#[derive(Debug)]
pub struct FieldDef {
    pub name: String,
    pub ty: String,
    pub vis: VisibilityKind,
    pub generic_params: Vec<String>,
}

impl View for FieldDef {
    type V = FieldDefModel;

    open spec fn view(&self) -> FieldDefModel {
        FieldDefModel {
            name: self.name@,
            ty: self.ty@,
            vis: self.vis@,
            generic_params: self.generic_params.deep_view(),
        }
    }
}

impl DeepView for FieldDef {
    type V = FieldDefModel;

    open spec fn deep_view(&self) -> FieldDefModel {
        self.view()
    }
}

/// Clone a vector of strings, preserving its contents.
pub fn clone_string_vec(v: &Vec<String>) -> (r: Vec<String>)
    ensures
        r.deep_view() == v.deep_view(),
{
    let mut out: Vec<String> = Vec::new();
    let mut i: usize = 0;
    while i < v.len()
        invariant
            i <= v.len(),
            out.deep_view() =~= v.deep_view().take(i as int),
        decreases v.len() - i,
    {
        out.push(v[i].clone());
        proof {
            broadcast use {lemma_vec_deep_view, lemma_deep_of_push};

            assert(out.deep_view() =~= v.deep_view().take(i + 1));
        }
        i = i + 1;
    }
    proof {
        assert(v.deep_view().take(v.len() as int) =~= v.deep_view());
    }
    out
}

impl Clone for FieldDef {
    fn clone(&self) -> (r: Self)
        ensures
            r@ == self@,
    {
        FieldDef {
            name: self.name.clone(),
            ty: self.ty.clone(),
            vis: self.vis.clone(),
            generic_params: clone_string_vec(&self.generic_params),
        }
    }
}

/// Mathematical model of a [`ModuleInfo`].
pub struct ModuleInfoModel {
    pub fields: Seq<FieldDefModel>,
    pub module_scope: Seq<char>,
}

/// Everything the registry records about one provider: its field
/// definitions and the module path it was most recently referenced under.
/// The path is empty until the first composition request names the
/// provider.
#[derive(Debug)]
pub struct ModuleInfo {
    pub fields: Vec<FieldDef>,
    pub module_scope: String,
}

impl View for ModuleInfo {
    type V = ModuleInfoModel;

    open spec fn view(&self) -> ModuleInfoModel {
        ModuleInfoModel { fields: self.fields.deep_view(), module_scope: self.module_scope@ }
    }
}

impl DeepView for ModuleInfo {
    type V = ModuleInfoModel;

    open spec fn deep_view(&self) -> ModuleInfoModel {
        self.view()
    }
}

/// Clone a vector of field definitions, preserving its contents.
pub fn clone_field_vec(v: &Vec<FieldDef>) -> (r: Vec<FieldDef>)
    ensures
        r.deep_view() == v.deep_view(),
{
    let mut out: Vec<FieldDef> = Vec::new();
    let mut i: usize = 0;
    while i < v.len()
        invariant
            i <= v.len(),
            out.deep_view() =~= v.deep_view().take(i as int),
        decreases v.len() - i,
    {
        out.push(v[i].clone());
        proof {
            broadcast use {lemma_vec_deep_view, lemma_deep_of_push};

            assert(out.deep_view() =~= v.deep_view().take(i + 1));
        }
        i = i + 1;
    }
    proof {
        assert(v.deep_view().take(v.len() as int) =~= v.deep_view());
    }
    out
}

impl Clone for ModuleInfo {
    fn clone(&self) -> (r: Self)
        ensures
            r@ == self@,
    {
        ModuleInfo {
            fields: clone_field_vec(&self.fields),
            module_scope: self.module_scope.clone(),
        }
    }
}

/// Mathematical model of a [`FieldTypeInfo`].
pub struct FieldTypeInfoModel {
    pub name: Seq<char>,
    pub ty: Seq<char>,
    pub vis: VisibilityModel,
}

/// A field after type resolution: its name, its concrete (substituted)
/// type, and its visibility.  The merged field list a successful
/// composition returns is a vector of these.
#[derive(Debug)]
pub struct FieldTypeInfo {
    pub name: String,
    pub ty: String,
    pub vis: VisibilityKind,
}

impl View for FieldTypeInfo {
    type V = FieldTypeInfoModel;

    open spec fn view(&self) -> FieldTypeInfoModel {
        FieldTypeInfoModel { name: self.name@, ty: self.ty@, vis: self.vis@ }
    }
}

impl DeepView for FieldTypeInfo {
    type V = FieldTypeInfoModel;

    open spec fn deep_view(&self) -> FieldTypeInfoModel {
        self.view()
    }
}

impl Clone for FieldTypeInfo {
    fn clone(&self) -> (r: Self)
        ensures
            r@ == self@,
    {
        FieldTypeInfo { name: self.name.clone(), ty: self.ty.clone(), vis: self.vis.clone() }
    }
}

/// Error raised while a composition request is validated or resolved,
/// wrapping the diagnostic message.
#[derive(Debug)]
pub struct InjectionError(pub String);

impl View for InjectionError {
    type V = Seq<char>;

    open spec fn view(&self) -> Seq<char> {
        self.0@
    }
}

impl From<String> for InjectionError {
    fn from(msg: String) -> (r: Self)
        ensures
            r@ == msg@,
    {
        InjectionError(msg)
    }
}

impl vstd::std_specs::convert::FromSpecImpl<String> for InjectionError {
    open spec fn obeys_from_spec() -> bool {
        true
    }

    open spec fn from_spec(msg: String) -> Self {
        InjectionError(msg)
    }
}

/// Mathematical model of a [`SourceRef`].
pub struct SourceRefModel {
    pub segments: Seq<Seq<char>>,
    pub type_args: Seq<Seq<char>>,
}

impl SourceRefModel {
    /// A source reference must name at least one path segment.
    pub open spec fn wf(self) -> bool {
        self.segments.len() >= 1
    }

    /// The provider name: the final path segment.
    pub open spec fn name(self) -> Seq<char> {
        self.segments.last()
    }

    /// The module scope the reference places the provider in: every
    /// segment but the last, joined by `::`.
    pub open spec fn scope(self) -> Seq<char> {
        spec_joined_path(self.segments.drop_last())
    }
}

/// One source entry of a composition request: the path the provider is
/// referenced by (`segments`, at least one) and the concrete type
/// arguments supplied for the provider's generic parameters.
#[derive(Debug)]
pub struct SourceRef {
    pub segments: Vec<String>,
    pub type_args: Vec<String>,
}

impl SourceRef {
    /// The provider name this reference points at: its final path segment.
    pub fn name_str(&self) -> (r: &String)
        requires
            self@.wf(),
        ensures
            r@ == self@.name(),
    {
        proof {
            broadcast use lemma_vec_deep_view;

        }
        &self.segments[self.segments.len() - 1]
    }

    /// The module scope this reference places the provider in: every
    /// segment but the last, joined by `::`.
    pub fn scope_string(&self) -> (r: String)
        requires
            self@.wf(),
        ensures
            r@ == self@.scope(),
    {
        let r = crate::text::joined_path_upto(&self.segments, self.segments.len() - 1);
        proof {
            assert(self.segments.deep_view().take(self.segments.len() - 1)
                =~= self.segments.deep_view().drop_last());
        }
        r
    }
}

impl View for SourceRef {
    type V = SourceRefModel;

    open spec fn view(&self) -> SourceRefModel {
        SourceRefModel {
            segments: self.segments.deep_view(),
            type_args: self.type_args.deep_view(),
        }
    }
}

impl DeepView for SourceRef {
    type V = SourceRefModel;

    open spec fn deep_view(&self) -> SourceRefModel {
        self.view()
    }
}

impl Clone for SourceRef {
    fn clone(&self) -> (r: Self)
        ensures
            r@ == self@,
    {
        SourceRef {
            segments: clone_string_vec(&self.segments),
            type_args: clone_string_vec(&self.type_args),
        }
    }
}

/// The shape of the declaration a composition request targets.  Only a
/// record with named fields can receive composed fields.
#[derive(Clone, Copy, PartialEq, Eq, Structural, Debug)]
pub enum TargetShape {
    NamedFields,
    UnnamedFields,
    NotAStruct,
}

/// Mathematical model of a [`CompositionRequest`].
pub struct CompositionRequestModel {
    pub target_name: Seq<char>,
    pub target_module: Seq<char>,
    pub shape: TargetShape,
    pub sources: Seq<SourceRefModel>,
}

impl CompositionRequestModel {
    /// Every source reference names at least one path segment.
    pub open spec fn wf(self) -> bool {
        forall|i: int| 0 <= i < self.sources.len() ==> (#[trigger] self.sources[i]).wf()
    }
}

/// A composition request: the target record's name and module scope, the
/// shape of its declaration, and the ordered source references whose
/// fields it asks for.
#[derive(Debug)]
pub struct CompositionRequest {
    pub target_name: String,
    pub target_module: String,
    pub shape: TargetShape,
    pub sources: Vec<SourceRef>,
}

impl View for CompositionRequest {
    type V = CompositionRequestModel;

    open spec fn view(&self) -> CompositionRequestModel {
        CompositionRequestModel {
            target_name: self.target_name@,
            target_module: self.target_module@,
            shape: self.shape,
            sources: self.sources.deep_view(),
        }
    }
}

} // verus!
