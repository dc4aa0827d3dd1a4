//! The field resolver: generic-type substitution, request validation,
//! module-scope bookkeeping, field merging with conflict detection, and the
//! composition entry point that ties the phases together.

use vstd::prelude::*;
use vstd::string::*;

use crate::registry::{
    chain_deps_of, check_and_update_injection_chain, collect_fields, reg_get, reg_put,
    spec_chain_step, spec_collected_fields, ChainEntryModel, InjectionChains, ProviderEntryModel,
    Registry,
};
use crate::text::{spec_replaced, replace_all, str_eq, vec_contains_str};
use crate::types::{
    lemma_deep_of_push, lemma_vec_deep_view, CompositionRequest, CompositionRequestModel,
    FieldDef, FieldDefModel, FieldTypeInfo, FieldTypeInfoModel, InjectionError, ModuleInfoModel,
    SourceRef, SourceRefModel, TargetShape,
};
use crate::visibility::{can_access_field, spec_can_access, spec_vis_label, VisibilityModel};

verus! {

/// A field's declared type with the provider's generic parameters replaced,
/// position by position, by the concrete arguments of the request; the zip
/// stops at the shorter list.
pub open spec fn spec_resolved_type(
    ty: Seq<char>,
    params: Seq<Seq<char>>,
    args: Seq<Seq<char>>,
) -> Seq<char>
    decreases params.len(),
{
    if params.len() == 0 || args.len() == 0 {
        ty
    } else {
        spec_resolved_type(
            spec_replaced(ty, params[0], args[0]),
            params.drop_first(),
            args.drop_first(),
        )
    }
}

/// Resolve a field's concrete type: replace each of its provider's generic
/// parameter names, in declaration order, by the matching concrete type
/// argument.  Extra parameters or extra arguments are ignored.
pub fn process_field_type(field: &FieldDef, type_args: &Vec<String>) -> (r: String)
    ensures
        r@ == spec_resolved_type(field@.ty, field@.generic_params, type_args.deep_view()),
{
    let ghost params = field@.generic_params;
    let ghost args = type_args.deep_view();
    let mut ty = field.ty.clone();
    let mut i: usize = 0;
    proof {
        broadcast use lemma_vec_deep_view;

        assert(params.skip(0) =~= params);
        assert(args.skip(0) =~= args);
    }
    while i < field.generic_params.len() && i < type_args.len()
        invariant
            i <= field.generic_params.len(),
            i <= type_args.len(),
            params == field@.generic_params,
            args == type_args.deep_view(),
            params.len() == field.generic_params.len(),
            args.len() == type_args.len(),
            spec_resolved_type(ty@, params.skip(i as int), args.skip(i as int))
                == spec_resolved_type(field@.ty, params, args),
        decreases field.generic_params.len() - i,
    {
        let ghost pre = ty@;
        ty = replace_all(ty.as_str(), field.generic_params[i].as_str(), type_args[i].as_str());
        proof {
            broadcast use lemma_vec_deep_view;

            assert(params.skip(i as int)[0] == params[i as int]);
            assert(args.skip(i as int)[0] == args[i as int]);
            assert(params.skip(i as int).drop_first() =~= params.skip(i + 1));
            assert(args.skip(i as int).drop_first() =~= args.skip(i + 1));
            assert(ty@ == spec_replaced(pre, params[i as int], args[i as int]));
        }
        i = i + 1;
    }
    proof {
        assert(params.skip(i as int).len() == 0 || args.skip(i as int).len() == 0);
    }
    ty
}

/// The diagnostic for a source that was never declared a provider.
pub open spec fn msg_unknown(name: Seq<char>) -> Seq<char> {
    "Cannot inject fields from '"@ + name + "' as this type does not exist"@
}

/// The diagnostic for a provider that vanished before its scope was set.
pub open spec fn msg_not_declared(name: Seq<char>) -> Seq<char> {
    "Cannot inject fields from '"@ + name
        + "' as it was not declared injectable or hasn't been defined yet"@
}

/// The diagnostic for one field name resolving to two different types.
pub open spec fn msg_conflict_type(name: Seq<char>, t1: Seq<char>, t2: Seq<char>) -> Seq<char> {
    "Conflicting types for field '"@ + name + "': found both '"@ + t1 + "' and '"@ + t2 + "'"@
}

/// The diagnostic for one field name carrying two different visibilities.
pub open spec fn msg_conflict_vis(name: Seq<char>) -> Seq<char> {
    "Conflicting visibility for field '"@ + name
        + "': cannot have both private and public fields with the same name"@
}

/// The diagnostic for a field the requesting scope may not access.
pub open spec fn msg_access(
    name: Seq<char>,
    vis: VisibilityModel,
    declaring: Seq<char>,
    requesting: Seq<char>,
) -> Seq<char> {
    "Cannot access field '"@ + name + "' with visibility "@ + spec_vis_label(vis)
        + " from module '"@ + declaring + "' in module '"@ + requesting + "'"@
}

/// The first unregistered source, as its diagnostic; `Ok` when every source
/// names a registered provider.
pub open spec fn spec_check_sources(
    sources: Seq<SourceRefModel>,
    reg: Seq<ProviderEntryModel>,
) -> Result<(), Seq<char>>
    decreases sources.len(),
{
    if sources.len() == 0 {
        Ok(())
    } else if reg_get(reg, sources[0].name()) is None {
        Err(msg_unknown(sources[0].name()))
    } else {
        spec_check_sources(sources.drop_first(), reg)
    }
}

/// Request validation: the target must be a record with named fields, and
/// every source must name a registered provider.
pub open spec fn spec_validate(
    shape: TargetShape,
    sources: Seq<SourceRefModel>,
    reg: Seq<ProviderEntryModel>,
) -> Result<(), Seq<char>> {
    if shape is UnnamedFields {
        Err("Only named fields are supported"@)
    } else if shape is NotAStruct {
        Err("Only structs are supported as injection targets"@)
    } else {
        spec_check_sources(sources, reg)
    }
}

/// Validate a composition request: the target declaration must take named
/// fields, and every referenced provider must already be registered.  The
/// first failure is reported.
pub fn validate_and_process_input(
    shape: TargetShape,
    sources: &Vec<SourceRef>,
    registry: &Registry,
) -> (r: Result<(), InjectionError>)
    requires
        forall|i: int|
            0 <= i < sources.deep_view().len() ==> (#[trigger] sources.deep_view()[i]).wf(),
    ensures
        ({
            let v = spec_validate(shape, sources.deep_view(), registry@);
            match r {
                Ok(_) => v is Ok,
                Err(e) => v == Result::<(), Seq<char>>::Err(e@),
            }
        }),
{
    if matches!(shape, TargetShape::UnnamedFields) {
        return Err(InjectionError("Only named fields are supported".to_owned()));
    }
    if matches!(shape, TargetShape::NotAStruct) {
        return Err(InjectionError("Only structs are supported as injection targets".to_owned()));
    }
    let ghost sdv = sources.deep_view();
    proof {
        assert(!(shape is UnnamedFields));
        assert(!(shape is NotAStruct));
        assert(sdv.skip(0) =~= sdv);
    }
    let mut i: usize = 0;
    while i < sources.len()
        invariant
            !(shape is UnnamedFields),
            !(shape is NotAStruct),
            i <= sources.len(),
            sdv == sources.deep_view(),
            sdv.len() == sources.len(),
            forall|j: int| 0 <= j < sdv.len() ==> (#[trigger] sdv[j]).wf(),
            spec_check_sources(sdv.skip(i as int), registry@) == spec_check_sources(
                sdv,
                registry@,
            ),
        decreases sources.len() - i,
    {
        proof {
            broadcast use lemma_vec_deep_view;

            assert(sdv[i as int] == sources@[i as int]@);
            assert(sdv.skip(i as int)[0] == sdv[i as int]);
            assert(sdv.skip(i as int).drop_first() =~= sdv.skip(i + 1));
        }
        let name = sources[i].name_str();
        if !registry.contains_provider(name.as_str()) {
            proof {
                assert(spec_check_sources(sdv.skip(i as int), registry@)
                    == Result::<(), Seq<char>>::Err(msg_unknown(sdv[i as int].name())));
            }
            let mut m = "Cannot inject fields from '".to_owned();
            m.append(name.as_str());
            m.append("' as this type does not exist");
            return Err(InjectionError(m));
        }
        i = i + 1;
    }
    proof {
        assert(sdv.skip(sources.len() as int) =~= Seq::<SourceRefModel>::empty());
    }
    Ok(())
}

/// Module-scope bookkeeping for one request, source by source: each
/// referenced provider takes the scope its reference path implies.  The
/// registry reached so far is returned together with the first failure, if
/// any.
pub open spec fn spec_update_scopes(
    reg: Seq<ProviderEntryModel>,
    sources: Seq<SourceRefModel>,
) -> (Seq<ProviderEntryModel>, Option<Seq<char>>)
    decreases sources.len(),
{
    if sources.len() == 0 {
        (reg, None)
    } else {
        let s = sources[0];
        match reg_get(reg, s.name()) {
            Some(info) => spec_update_scopes(
                reg_put(
                    reg,
                    s.name(),
                    ModuleInfoModel { fields: info.fields, module_scope: s.scope() },
                ),
                sources.drop_first(),
            ),
            None => (reg, Some(msg_not_declared(s.name()))),
        }
    }
}

/// Record, for every referenced provider, the module scope its reference
/// path in this request implies.  Fails on the first provider that is not
/// registered; scopes set before the failure stay set.
pub fn update_module_paths(registry: &mut Registry, sources: &Vec<SourceRef>) -> (r: Result<
    (),
    InjectionError,
>)
    requires
        forall|i: int|
            0 <= i < sources.deep_view().len() ==> (#[trigger] sources.deep_view()[i]).wf(),
    ensures
        ({
            let (reg2, err) = spec_update_scopes(old(registry)@, sources.deep_view());
            let regf = final(registry)@;
            match r {
                Ok(_) => err is None && regf == reg2,
                Err(e) => err == Some(e@) && regf == reg2,
            }
        }),
{
    let ghost reg0 = registry@;
    let ghost sdv = sources.deep_view();
    proof {
        assert(sdv.skip(0) =~= sdv);
    }
    let mut i: usize = 0;
    while i < sources.len()
        invariant
            i <= sources.len(),
            reg0 == old(registry)@,
            sdv == sources.deep_view(),
            sdv.len() == sources.len(),
            forall|j: int| 0 <= j < sdv.len() ==> (#[trigger] sdv[j]).wf(),
            spec_update_scopes(registry@, sdv.skip(i as int)) == spec_update_scopes(reg0, sdv),
        decreases sources.len() - i,
    {
        proof {
            broadcast use lemma_vec_deep_view;

            assert(sdv[i as int] == sources@[i as int]@);
            assert(sdv.skip(i as int)[0] == sdv[i as int]);
            assert(sdv.skip(i as int).drop_first() =~= sdv.skip(i + 1));
        }
        let name = sources[i].name_str();
        let scope = sources[i].scope_string();
        let ghost regpre = registry@;
        let ghost scopev = scope@;
        let ghost newinfo = ModuleInfoModel {
            fields: reg_get(regpre, sdv[i as int].name())->Some_0.fields,
            module_scope: scopev,
        };
        if !registry.set_module_scope(name.as_str(), scope) {
            proof {
                crate::registry::lemma_reg_put_noop(regpre, sdv[i as int].name(), newinfo);
                assert(registry@ == regpre);
                assert(spec_update_scopes(regpre, sdv.skip(i as int)) == (
                    regpre,
                    Some(msg_not_declared(sdv[i as int].name())),
                ));
            }
            let mut m = "Cannot inject fields from '".to_owned();
            m.append(name.as_str());
            m.append("' as it was not declared injectable or hasn't been defined yet");
            return Err(InjectionError(m));
        }
        proof {
            assert(registry@ == reg_put(regpre, sdv[i as int].name(), newinfo));
            assert(spec_update_scopes(regpre, sdv.skip(i as int)) == spec_update_scopes(
                registry@,
                sdv.skip(i + 1),
            ));
        }
        i = i + 1;
    }
    proof {
        assert(sdv.skip(sources.len() as int) =~= Seq::<SourceRefModel>::empty());
    }
    Ok(())
}

/// The first resolved-field binding of `name` in a conflict table, if any.
pub open spec fn fti_get(m: Seq<FieldTypeInfoModel>, name: Seq<char>) -> Option<
    FieldTypeInfoModel,
>
    decreases m.len(),
{
    if m.len() == 0 {
        None
    } else if m[0].name == name {
        Some(m[0])
    } else {
        fti_get(m.drop_first(), name)
    }
}

proof fn lemma_fti_get_at(m: Seq<FieldTypeInfoModel>, i: int)
    requires
        0 <= i < m.len(),
        forall|j: int| 0 <= j < i ==> m[j].name != m[i].name,
    ensures
        fti_get(m, m[i].name) == Some(m[i]),
    decreases i,
{
    if i > 0 {
        assert(m.drop_first()[i - 1] == m[i]);
        assert(forall|j: int| 0 <= j < i - 1 ==> m.drop_first()[j] == m[j + 1]);
        lemma_fti_get_at(m.drop_first(), i - 1);
    }
}

proof fn lemma_fti_get_absent(m: Seq<FieldTypeInfoModel>, name: Seq<char>)
    requires
        forall|j: int| 0 <= j < m.len() ==> m[j].name != name,
    ensures
        fti_get(m, name) is None,
    decreases m.len(),
{
    if m.len() > 0 {
        assert(forall|j: int| 0 <= j < m.len() - 1 ==> m.drop_first()[j] == m[j + 1]);
        lemma_fti_get_absent(m.drop_first(), name);
    }
}

/// The first resolved field named `name`, if any.
fn fti_find<'a>(v: &'a Vec<FieldTypeInfo>, name: &str) -> (r: Option<&'a FieldTypeInfo>)
    ensures
        match r {
            Some(f) => fti_get(v.deep_view(), name@) == Some(f@),
            None => fti_get(v.deep_view(), name@) is None,
        },
{
    proof {
        broadcast use lemma_vec_deep_view;

    }
    let mut i: usize = 0;
    while i < v.len()
        invariant
            i <= v.len(),
            v.deep_view().len() == v.len(),
            v.deep_view() == crate::types::deep_of(v@),
            forall|j: int| 0 <= j < i ==> v.deep_view()[j].name != name@,
        decreases v.len() - i,
    {
        if str_eq(v[i].name.as_str(), name) {
            proof {
                lemma_fti_get_at(v.deep_view(), i as int);
            }
            return Some(&v[i]);
        }
        i = i + 1;
    }
    proof {
        lemma_fti_get_absent(v.deep_view(), name@);
    }
    None
}

/// The conflict check over the fields one source contributes: each field's
/// resolved type and visibility must agree with whatever an earlier field
/// of the same name resolved to; fresh names are recorded.  First
/// occurrences win; identical repeats are no-ops.
pub open spec fn spec_conflict_pass(
    ftypes: Seq<FieldTypeInfoModel>,
    fields: Seq<FieldDefModel>,
    args: Seq<Seq<char>>,
) -> Result<Seq<FieldTypeInfoModel>, Seq<char>>
    decreases fields.len(),
{
    if fields.len() == 0 {
        Ok(ftypes)
    } else {
        let f = fields[0];
        let rty = spec_resolved_type(f.ty, f.generic_params, args);
        match fti_get(ftypes, f.name) {
            Some(existing) => {
                if existing.ty != rty {
                    Err(msg_conflict_type(f.name, existing.ty, rty))
                } else if existing.vis != f.vis {
                    Err(msg_conflict_vis(f.name))
                } else {
                    spec_conflict_pass(ftypes, fields.drop_first(), args)
                }
            },
            None => spec_conflict_pass(
                ftypes.push(FieldTypeInfoModel { name: f.name, ty: rty, vis: f.vis }),
                fields.drop_first(),
                args,
            ),
        }
    }
}

/// Check one source's collected fields against the request-wide conflict
/// table, extending the table with fresh names.  A field whose resolved
/// type or visibility disagrees with an earlier binding of its name fails
/// the whole request.
fn conflict_pass(
    ftypes: &mut Vec<FieldTypeInfo>,
    fields: &Vec<FieldDef>,
    type_args: &Vec<String>,
) -> (r: Result<(), String>)
    ensures
        ({
            let spec = spec_conflict_pass(
                old(ftypes).deep_view(),
                fields.deep_view(),
                type_args.deep_view(),
            );
            match r {
                Ok(_) => spec == Result::<Seq<FieldTypeInfoModel>, Seq<char>>::Ok(
                    final(ftypes).deep_view(),
                ),
                Err(e) => spec == Result::<Seq<FieldTypeInfoModel>, Seq<char>>::Err(e@),
            }
        }),
{
    let ghost ft0 = ftypes.deep_view();
    let ghost fdv = fields.deep_view();
    let ghost adv = type_args.deep_view();
    proof {
        assert(fdv.skip(0) =~= fdv);
    }
    let mut k: usize = 0;
    while k < fields.len()
        invariant
            k <= fields.len(),
            ft0 == old(ftypes).deep_view(),
            fdv == fields.deep_view(),
            adv == type_args.deep_view(),
            fdv.len() == fields.len(),
            spec_conflict_pass(ftypes.deep_view(), fdv.skip(k as int), adv)
                == spec_conflict_pass(ft0, fdv, adv),
        decreases fields.len() - k,
    {
        proof {
            broadcast use lemma_vec_deep_view;

            assert(fdv[k as int] == fields@[k as int]@);
            assert(fdv.skip(k as int)[0] == fdv[k as int]);
            assert(fdv.skip(k as int).drop_first() =~= fdv.skip(k + 1));
        }
        let rty = process_field_type(&fields[k], type_args);
        let ghost ftpre = ftypes.deep_view();
        match fti_find(ftypes, fields[k].name.as_str()) {
            Some(existing) => {
                if !str_eq(existing.ty.as_str(), rty.as_str()) {
                    let mut m = "Conflicting types for field '".to_owned();
                    m.append(fields[k].name.as_str());
                    m.append("': found both '");
                    m.append(existing.ty.as_str());
                    m.append("' and '");
                    m.append(rty.as_str());
                    m.append("'");
                    return Err(m);
                }
                if !(existing.vis == fields[k].vis) {
                    let mut m = "Conflicting visibility for field '".to_owned();
                    m.append(fields[k].name.as_str());
                    m.append("': cannot have both private and public fields with the same name");
                    return Err(m);
                }
            },
            None => {
                let fti = FieldTypeInfo {
                    name: fields[k].name.clone(),
                    ty: rty,
                    vis: fields[k].vis.clone(),
                };
                ftypes.push(fti);
                proof {
                    broadcast use {lemma_vec_deep_view, lemma_deep_of_push};

                    assert(ftypes.deep_view() =~= ftpre.push(
                        FieldTypeInfoModel {
                            name: fdv[k as int].name,
                            ty: spec_resolved_type(
                                fdv[k as int].ty,
                                fdv[k as int].generic_params,
                                adv,
                            ),
                            vis: fdv[k as int].vis,
                        },
                    ));
                }
            },
        }
        k = k + 1;
    }
    proof {
        assert(fdv.skip(fields.len() as int) =~= Seq::<FieldDefModel>::empty());
    }
    Ok(())
}

/// Appending one source's fields to the merged output: a name already added
/// is skipped; a fresh name is recorded, its field's access is checked
/// against the declaring and requesting scopes, and on success the resolved
/// field is appended.
pub open spec fn spec_append_pass(
    added: Seq<Seq<char>>,
    out: Seq<FieldTypeInfoModel>,
    fields: Seq<FieldDefModel>,
    args: Seq<Seq<char>>,
    declaring: Seq<char>,
    requesting: Seq<char>,
) -> Result<(Seq<Seq<char>>, Seq<FieldTypeInfoModel>), Seq<char>>
    decreases fields.len(),
{
    if fields.len() == 0 {
        Ok((added, out))
    } else {
        let f = fields[0];
        if added.contains(f.name) {
            spec_append_pass(added, out, fields.drop_first(), args, declaring, requesting)
        } else {
            let rty = spec_resolved_type(f.ty, f.generic_params, args);
            if !spec_can_access(f.vis, declaring, requesting) {
                Err(msg_access(f.name, f.vis, declaring, requesting))
            } else {
                spec_append_pass(
                    added.push(f.name),
                    out.push(FieldTypeInfoModel { name: f.name, ty: rty, vis: f.vis }),
                    fields.drop_first(),
                    args,
                    declaring,
                    requesting,
                )
            }
        }
    }
}

/// Append one source's collected fields to the merged output, skipping
/// names already added, resolving each fresh field's type, and aborting on
/// the first field the requesting scope may not access.
fn process_fields(
    declaring: &str,
    all_fields: &Vec<FieldDef>,
    added_fields: &mut Vec<String>,
    target_module: &str,
    type_args: &Vec<String>,
    out: &mut Vec<FieldTypeInfo>,
) -> (r: Result<(), String>)
    ensures
        ({
            let spec = spec_append_pass(
                old(added_fields).deep_view(),
                old(out).deep_view(),
                all_fields.deep_view(),
                type_args.deep_view(),
                declaring@,
                target_module@,
            );
            match r {
                Ok(_) => spec == Result::<(Seq<Seq<char>>, Seq<FieldTypeInfoModel>), Seq<char>>::Ok(
                    (final(added_fields).deep_view(), final(out).deep_view()),
                ),
                Err(e) => spec == Result::<
                    (Seq<Seq<char>>, Seq<FieldTypeInfoModel>),
                    Seq<char>,
                >::Err(e@),
            }
        }),
{
    let ghost a0 = added_fields.deep_view();
    let ghost o0 = out.deep_view();
    let ghost fdv = all_fields.deep_view();
    let ghost adv = type_args.deep_view();
    proof {
        assert(fdv.skip(0) =~= fdv);
    }
    let mut k: usize = 0;
    while k < all_fields.len()
        invariant
            k <= all_fields.len(),
            a0 == old(added_fields).deep_view(),
            o0 == old(out).deep_view(),
            fdv == all_fields.deep_view(),
            adv == type_args.deep_view(),
            fdv.len() == all_fields.len(),
            spec_append_pass(
                added_fields.deep_view(),
                out.deep_view(),
                fdv.skip(k as int),
                adv,
                declaring@,
                target_module@,
            ) == spec_append_pass(a0, o0, fdv, adv, declaring@, target_module@),
        decreases all_fields.len() - k,
    {
        proof {
            broadcast use lemma_vec_deep_view;

            assert(fdv[k as int] == all_fields@[k as int]@);
            assert(fdv.skip(k as int)[0] == fdv[k as int]);
            assert(fdv.skip(k as int).drop_first() =~= fdv.skip(k + 1));
        }
        let ghost apre = added_fields.deep_view();
        let ghost opre = out.deep_view();
        if !vec_contains_str(added_fields, all_fields[k].name.as_str()) {
            added_fields.push(all_fields[k].name.clone());
            proof {
                broadcast use {lemma_vec_deep_view, lemma_deep_of_push};

                assert(added_fields.deep_view() =~= apre.push(fdv[k as int].name));
            }
            let rty = process_field_type(&all_fields[k], type_args);
            if !can_access_field(&all_fields[k].vis, declaring, target_module) {
                let mut m = "Cannot access field '".to_owned();
                m.append(all_fields[k].name.as_str());
                m.append("' with visibility ");
                let label = all_fields[k].vis.describe();
                m.append(label.as_str());
                m.append(" from module '");
                m.append(declaring);
                m.append("' in module '");
                m.append(target_module);
                m.append("'");
                return Err(m);
            }
            let fti = FieldTypeInfo {
                name: all_fields[k].name.clone(),
                ty: rty,
                vis: all_fields[k].vis.clone(),
            };
            out.push(fti);
            proof {
                broadcast use {lemma_vec_deep_view, lemma_deep_of_push};

                assert(out.deep_view() =~= opre.push(
                    FieldTypeInfoModel {
                        name: fdv[k as int].name,
                        ty: spec_resolved_type(
                            fdv[k as int].ty,
                            fdv[k as int].generic_params,
                            adv,
                        ),
                        vis: fdv[k as int].vis,
                    },
                ));
            }
        }
        k = k + 1;
    }
    proof {
        assert(fdv.skip(all_fields.len() as int) =~= Seq::<FieldDefModel>::empty());
    }
    Ok(())
}

/// Field collection and merging over all sources of a request, in request
/// order: collect each source's transitive fields, check them against the
/// request-wide conflict table, then append the not-yet-added ones to the
/// merged output under the access check.  The declaring scope of a source's
/// fields is the module scope its registry binding holds.
pub open spec fn spec_sources_pass(
    reg: Seq<ProviderEntryModel>,
    ch: Seq<ChainEntryModel>,
    sources: Seq<SourceRefModel>,
    requesting: Seq<char>,
    ftypes: Seq<FieldTypeInfoModel>,
    added: Seq<Seq<char>>,
    out: Seq<FieldTypeInfoModel>,
) -> Result<Seq<FieldTypeInfoModel>, Seq<char>>
    decreases sources.len(),
{
    if sources.len() == 0 {
        Ok(out)
    } else {
        let s = sources[0];
        let fields = spec_collected_fields(reg, ch, s.name());
        match spec_conflict_pass(ftypes, fields, s.type_args) {
            Err(e) => Err(e),
            Ok(ft2) => {
                let declaring = reg_get(reg, s.name())->Some_0.module_scope;
                match spec_append_pass(added, out, fields, s.type_args, declaring, requesting) {
                    Err(e) => Err(e),
                    Ok(pair) => spec_sources_pass(
                        reg,
                        ch,
                        sources.drop_first(),
                        requesting,
                        ft2,
                        pair.0,
                        pair.1,
                    ),
                }
            },
        }
    }
}

/// What `process_type_paths` returns: the merged field list of the request,
/// or its first merging failure.
pub open spec fn spec_process_type_paths(
    reg: Seq<ProviderEntryModel>,
    ch: Seq<ChainEntryModel>,
    sources: Seq<SourceRefModel>,
    requesting: Seq<char>,
) -> Result<Seq<FieldTypeInfoModel>, Seq<char>> {
    spec_sources_pass(reg, ch, sources, requesting, Seq::empty(), Seq::empty(), Seq::empty())
}

/// Collect and merge the fields of every source of a composition request,
/// in request order: transitive field collection per source, conflict
/// detection across the whole request, generic-type resolution, and the
/// per-field access check against the requesting scope.
pub fn process_type_paths(
    sources: &Vec<SourceRef>,
    target_module: &str,
    registry: &Registry,
    chains: &InjectionChains,
) -> (r: Result<Vec<FieldTypeInfo>, String>)
    requires
        forall|i: int|
            0 <= i < sources.deep_view().len() ==> (#[trigger] sources.deep_view()[i]).wf(),
        forall|i: int|
            0 <= i < sources.deep_view().len() ==> reg_get(
                registry@,
                (#[trigger] sources.deep_view()[i]).name(),
            ) is Some,
    ensures
        ({
            let spec = spec_process_type_paths(
                registry@,
                chains@,
                sources.deep_view(),
                target_module@,
            );
            match r {
                Ok(v) => spec == Result::<Seq<FieldTypeInfoModel>, Seq<char>>::Ok(v.deep_view()),
                Err(e) => spec == Result::<Seq<FieldTypeInfoModel>, Seq<char>>::Err(e@),
            }
        }),
{
    let ghost sdv = sources.deep_view();
    let mut added_fields: Vec<String> = Vec::new();
    let mut field_types: Vec<FieldTypeInfo> = Vec::new();
    let mut out: Vec<FieldTypeInfo> = Vec::new();
    proof {
        broadcast use lemma_vec_deep_view;

        assert(sdv.skip(0) =~= sdv);
        assert(added_fields.deep_view() =~= Seq::<Seq<char>>::empty());
        assert(field_types.deep_view() =~= Seq::<FieldTypeInfoModel>::empty());
        assert(out.deep_view() =~= Seq::<FieldTypeInfoModel>::empty());
    }
    let mut i: usize = 0;
    while i < sources.len()
        invariant
            i <= sources.len(),
            sdv == sources.deep_view(),
            sdv.len() == sources.len(),
            forall|j: int| 0 <= j < sdv.len() ==> (#[trigger] sdv[j]).wf(),
            forall|j: int|
                0 <= j < sdv.len() ==> reg_get(registry@, (#[trigger] sdv[j]).name()) is Some,
            spec_sources_pass(
                registry@,
                chains@,
                sdv.skip(i as int),
                target_module@,
                field_types.deep_view(),
                added_fields.deep_view(),
                out.deep_view(),
            ) == spec_process_type_paths(registry@, chains@, sdv, target_module@),
        decreases sources.len() - i,
    {
        proof {
            broadcast use lemma_vec_deep_view;

            assert(sdv[i as int] == sources@[i as int]@);
            assert(sdv.skip(i as int)[0] == sdv[i as int]);
            assert(sdv.skip(i as int).drop_first() =~= sdv.skip(i + 1));
        }
        let name = sources[i].name_str();
        let all_fields = match collect_fields(name.as_str(), registry, chains) {
            Ok(v) => v,
            Err(e) => {
                return Err(e);
            },
        };
        match conflict_pass(&mut field_types, &all_fields, &sources[i].type_args) {
            Ok(_) => {},
            Err(e) => {
                return Err(e);
            },
        }
        let info = match registry.get_info(name.as_str()) {
            Some(info) => info,
            None => {
                proof {
                    assert(false);
                }
                return Err(String::new());
            },
        };
        match process_fields(
            info.module_scope.as_str(),
            &all_fields,
            &mut added_fields,
            target_module,
            &sources[i].type_args,
            &mut out,
        ) {
            Ok(_) => {},
            Err(e) => {
                return Err(e);
            },
        }
        i = i + 1;
    }
    proof {
        assert(sdv.skip(sources.len() as int) =~= Seq::<SourceRefModel>::empty());
    }
    Ok(out)
}

/// Phase-A validation as an error batch: empty on success, the single
/// diagnostic otherwise.
pub open spec fn spec_validate_errs(
    shape: TargetShape,
    sources: Seq<SourceRefModel>,
    reg: Seq<ProviderEntryModel>,
) -> Seq<Seq<char>> {
    match spec_validate(shape, sources, reg) {
        Ok(_) => Seq::empty(),
        Err(m) => seq![m],
    }
}

/// The chain-update phase over all sources, in request order: each edge is
/// validated and, if sound, recorded; the diagnostics of refused edges are
/// collected without stopping the phase.
pub open spec fn spec_chain_phase(
    c: Seq<ChainEntryModel>,
    target: Seq<char>,
    sources: Seq<SourceRefModel>,
) -> (Seq<ChainEntryModel>, Seq<Seq<char>>)
    decreases sources.len(),
{
    if sources.len() == 0 {
        (c, Seq::empty())
    } else {
        match spec_chain_step(c, target, sources[0].name()) {
            Ok(c2) => spec_chain_phase(c2, target, sources.drop_first()),
            Err(m) => {
                let (c3, errs) = spec_chain_phase(c, target, sources.drop_first());
                (c3, seq![m] + errs)
            },
        }
    }
}

/// Everything one composition request does: validation and chain updates
/// whose diagnostics are batched, then, only if that batch is empty,
/// module-scope bookkeeping and field merging.  The result gives the
/// registry and chain graph after the request together with the merged
/// field list or the diagnostics.  Chain edges recorded before a failure
/// stay recorded.
pub open spec fn spec_compose(
    reg: Seq<ProviderEntryModel>,
    ch: Seq<ChainEntryModel>,
    req: CompositionRequestModel,
) -> (Seq<ProviderEntryModel>, Seq<ChainEntryModel>, Result<
    Seq<FieldTypeInfoModel>,
    Seq<Seq<char>>,
>) {
    let (ch2, cerrs) = spec_chain_phase(ch, req.target_name, req.sources);
    let errs = spec_validate_errs(req.shape, req.sources, reg) + cerrs;
    if errs.len() > 0 {
        (reg, ch2, Err(errs))
    } else {
        let (reg2, uerr) = spec_update_scopes(reg, req.sources);
        match uerr {
            Some(m) => (reg2, ch2, Err(seq![m])),
            None => match spec_process_type_paths(reg2, ch2, req.sources, req.target_module) {
                Ok(v) => (reg2, ch2, Ok(v)),
                Err(m) => (reg2, ch2, Err(seq![m])),
            },
        }
    }
}

/// When validation finds every source registered, every source is indeed
/// bound in the registry.
proof fn lemma_check_sources_ok(sources: Seq<SourceRefModel>, reg: Seq<ProviderEntryModel>)
    requires
        spec_check_sources(sources, reg) is Ok,
    ensures
        forall|j: int|
            0 <= j < sources.len() ==> reg_get(reg, (#[trigger] sources[j]).name()) is Some,
    decreases sources.len(),
{
    if sources.len() > 0 {
        lemma_check_sources_ok(sources.drop_first(), reg);
        assert forall|j: int|
            0 <= j < sources.len() implies reg_get(reg, (#[trigger] sources[j]).name()) is Some by {
            if j > 0 {
                assert(sources.drop_first()[j - 1] == sources[j]);
            }
        }
    }
}

/// Module-scope bookkeeping never creates or removes registry bindings.
proof fn lemma_update_scopes_preserves(
    reg: Seq<ProviderEntryModel>,
    sources: Seq<SourceRefModel>,
)
    ensures
        ({
            let (reg2, uerr) = spec_update_scopes(reg, sources);
            forall|n: Seq<char>| (reg_get(reg2, n) is Some) == (#[trigger] reg_get(reg, n) is Some)
        }),
    decreases sources.len(),
{
    if sources.len() > 0 {
        let s = sources[0];
        match reg_get(reg, s.name()) {
            Some(info) => {
                let newinfo = ModuleInfoModel { fields: info.fields, module_scope: s.scope() };
                let reg1 = reg_put(reg, s.name(), newinfo);
                assert forall|n: Seq<char>|
                    (reg_get(reg1, n) is Some) == (#[trigger] reg_get(reg, n) is Some) by {
                    crate::registry::lemma_reg_get_reg_put(reg, s.name(), newinfo, n);
                }
                lemma_update_scopes_preserves(reg1, sources.drop_first());
            },
            None => {},
        }
    }
}

/// Resolve one composition request against the registry and the chain
/// graph.
///
/// Validation failures and refused chain edges are batched and returned
/// together, and no fields are merged while any exist; chain edges recorded
/// by the request stay recorded even when the request as a whole fails.
/// With the batch empty, every referenced provider takes the module scope
/// its reference path implies, and the sources' fields are collected,
/// checked for conflicts, access-checked, and merged in request order.  The
/// merged field list carries each field's resolved type and visibility.
pub fn compose_fields(
    registry: &mut Registry,
    chains: &mut InjectionChains,
    request: &CompositionRequest,
) -> (r: Result<Vec<FieldTypeInfo>, Vec<String>>)
    requires
        request@.wf(),
    ensures
        ({
            let (reg2, ch2, res) = spec_compose(old(registry)@, old(chains)@, request@);
            &&& final(registry)@ == reg2
            &&& final(chains)@ == ch2
            &&& match r {
                Ok(v) => res == Result::<Seq<FieldTypeInfoModel>, Seq<Seq<char>>>::Ok(
                    v.deep_view(),
                ),
                Err(es) => res == Result::<Seq<FieldTypeInfoModel>, Seq<Seq<char>>>::Err(
                    es.deep_view(),
                ),
            }
        }),
{
    let ghost reg0 = registry@;
    let ghost ch0 = chains@;
    let ghost req = request@;
    let mut errors: Vec<String> = Vec::new();
    // Phase A: validation; its diagnostic joins the batch.
    match validate_and_process_input(request.shape, &request.sources, registry) {
        Ok(_) => {
            proof {
                assert(errors.deep_view() =~= spec_validate_errs(req.shape, req.sources, reg0));
            }
        },
        Err(e) => {
            let ghost ev = e@;
            errors.push(e.0);
            proof {
                broadcast use {lemma_vec_deep_view, lemma_deep_of_push};

                assert(errors.deep_view() =~= spec_validate_errs(req.shape, req.sources, reg0));
            }
        },
    }
    // Phase B: validate and record every edge, collecting refusals.
    let ghost head = spec_validate_errs(req.shape, req.sources, reg0);
    proof {
        assert(req.sources.skip(0) =~= req.sources);
    }
    let mut i: usize = 0;
    while i < request.sources.len()
        invariant
            i <= request.sources.len(),
            req == request@,
            reg0 == old(registry)@,
            ch0 == old(chains)@,
            registry@ == reg0,
            head == spec_validate_errs(req.shape, req.sources, reg0),
            req.sources.len() == request.sources.len(),
            req.wf(),
            ({
                let (chf, all_errs) = spec_chain_phase(ch0, req.target_name, req.sources);
                let (chf_i, rest) = spec_chain_phase(
                    chains@,
                    req.target_name,
                    req.sources.skip(i as int),
                );
                chf_i == chf && head + all_errs == errors.deep_view() + rest
            }),
        decreases request.sources.len() - i,
    {
        proof {
            broadcast use lemma_vec_deep_view;

            assert(req.sources[i as int] == request.sources@[i as int]@);
            assert(req.sources.skip(i as int)[0] == req.sources[i as int]);
            assert(req.sources.skip(i as int).drop_first() =~= req.sources.skip(i + 1));
        }
        let name = request.sources[i].name_str();
        let ghost chpre = chains@;
        match check_and_update_injection_chain(chains, request.target_name.as_str(), name.as_str())
        {
            Ok(_) => {},
            Err(m) => {
                let ghost mv = m@;
                let ghost epre = errors.deep_view();
                errors.push(m);
                proof {
                    broadcast use {lemma_vec_deep_view, lemma_deep_of_push};

                    assert(errors.deep_view() =~= epre.push(mv));
                    let (c3, rest2) = spec_chain_phase(
                        chains@,
                        req.target_name,
                        req.sources.skip(i + 1),
                    );
                    assert(epre + (seq![mv] + rest2) =~= epre.push(mv) + rest2);
                }
            },
        }
        i = i + 1;
    }
    proof {
        assert(req.sources.skip(request.sources.len() as int) =~= Seq::<SourceRefModel>::empty());
        let (chf, all_errs) = spec_chain_phase(ch0, req.target_name, req.sources);
        assert(errors.deep_view() + Seq::<Seq<char>>::empty() =~= errors.deep_view());
        assert(chains@ == chf && head + all_errs == errors.deep_view());
    }
    if errors.len() > 0 {
        return Err(errors);
    }
    // Phase C: record the module scope each reference implies.
    proof {
        let (chf, all_errs) = spec_chain_phase(ch0, req.target_name, req.sources);
        assert(head.len() == 0 && all_errs.len() == 0);
        assert(spec_validate(req.shape, req.sources, reg0) is Ok);
    }
    match update_module_paths(registry, &request.sources) {
        Ok(_) => {},
        Err(e) => {
            let mut batch: Vec<String> = Vec::new();
            let ghost ev = e@;
            batch.push(e.0);
            proof {
                broadcast use {lemma_vec_deep_view, lemma_deep_of_push};

                assert(batch.deep_view() =~= seq![ev]);
            }
            return Err(batch);
        },
    }
    // Phase D: collect, check, and merge the sources' fields.
    proof {
        lemma_check_sources_ok(req.sources, reg0);
        lemma_update_scopes_preserves(reg0, req.sources);
        assert forall|j: int|
            0 <= j < req.sources.len() implies reg_get(
            registry@,
            (#[trigger] req.sources[j]).name(),
        ) is Some by {
            assert(reg_get(reg0, req.sources[j].name()) is Some);
        }
    }
    match process_type_paths(&request.sources, request.target_module.as_str(), registry, chains) {
        Ok(fields) => Ok(fields),
        Err(e) => {
            let mut batch: Vec<String> = Vec::new();
            let ghost ev = e@;
            batch.push(e);
            proof {
                broadcast use {lemma_vec_deep_view, lemma_deep_of_push};

                assert(batch.deep_view() =~= seq![ev]);
            }
            Err(batch)
        },
    }
}

} // verus!
