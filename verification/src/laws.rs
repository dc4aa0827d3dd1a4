//! Laws of the composition engine, stated and proved over the same spec
//! functions its contracts use.

use vstd::prelude::*;

use crate::compose::{
    fti_get, msg_conflict_type, msg_conflict_vis, spec_append_pass, spec_chain_phase,
    spec_check_sources, spec_compose, spec_conflict_pass, spec_process_type_paths,
    spec_resolved_type, spec_update_scopes, spec_validate, spec_validate_errs,
};
use crate::registry::{
    append_absent, chain_deps_of, chain_get, chain_put, lemma_chain_get_put,
    lemma_reg_get_reg_put, msg_circular, msg_recursive, push_absent, reg_get, reg_put,
    spec_chain_step, spec_collected_fields, spec_creates_cycle, spec_source_closure,
    ChainEntryModel, ProviderEntryModel,
};
use crate::text::{spec_is_scope_child, spec_replaced};
use crate::types::{
    CompositionRequestModel, FieldDefModel, FieldTypeInfoModel, ModuleInfoModel, SourceRefModel,
};
use crate::visibility::{spec_can_access, VisibilityModel};

verus! {

/// A private field is accessible exactly when the requesting scope equals
/// the declaring scope or lies strictly inside it (two still-empty scopes
/// count as the same scope); every other requesting scope is refused.
pub proof fn lemma_private_access(declaring: Seq<char>, requesting: Seq<char>)
    ensures
        spec_can_access(VisibilityModel::Private, declaring, requesting) <==> (requesting
            == declaring || spec_is_scope_child(requesting, declaring)),
{
    if declaring.len() == 0 && requesting.len() == 0 {
        assert(requesting =~= declaring);
    }
}

/// Generic substitution round trip: a provider declaring one parameter
/// whose field type is exactly that parameter resolves, under any concrete
/// argument, to exactly that argument.
pub proof fn lemma_substitution_roundtrip(param: Seq<char>, arg: Seq<char>)
    requires
        param.len() >= 1,
    ensures
        spec_resolved_type(param, seq![param], seq![arg]) == arg,
{
    assert(param.take(param.len() as int) =~= param);
    let rest = param.skip(param.len() as int);
    assert(rest =~= Seq::<char>::empty());
    assert(spec_replaced(rest, param, arg) == rest);
    assert(spec_replaced(param, param, arg) =~= arg);
    assert(seq![param].drop_first() =~= Seq::<Seq<char>>::empty());
    assert(seq![arg].drop_first() =~= Seq::<Seq<char>>::empty());
    assert(spec_resolved_type(arg, Seq::<Seq<char>>::empty(), Seq::<Seq<char>>::empty()) == arg);
}

/// Whatever `append_absent` accumulates is what was already there or what
/// the addition brings.
proof fn lemma_append_absent_contains(base: Seq<Seq<char>>, add: Seq<Seq<char>>, x: Seq<char>)
    ensures
        append_absent(base, add).contains(x) <==> (base.contains(x) || add.contains(x)),
    decreases add.len(),
{
    if add.len() == 0 {
        assert(!add.contains(x));
    } else {
        let b2 = push_absent(base, add[0]);
        lemma_append_absent_contains(b2, add.drop_first(), x);
        // Membership in the pushed base is membership in the base or the head.
        assert(b2.contains(x) <==> (base.contains(x) || add[0] == x)) by {
            if base.contains(add[0]) {
            } else {
                if base.push(add[0]).contains(x) {
                    let i = choose|i: int|
                        0 <= i < base.push(add[0]).len() && base.push(add[0])[i] == x;
                    if i < base.len() {
                        assert(base[i] == x);
                    }
                }
                if base.contains(x) {
                    let i = choose|i: int| 0 <= i < base.len() && base[i] == x;
                    assert(base.push(add[0])[i] == x);
                }
                assert(base.push(add[0])[base.len() as int] == add[0]);
            }
        }
        assert(add.contains(x) <==> (add[0] == x || add.drop_first().contains(x))) by {
            if add.contains(x) {
                let i = choose|i: int| 0 <= i < add.len() && add[i] == x;
                if i > 0 {
                    assert(add.drop_first()[i - 1] == x);
                }
            }
            if add.drop_first().contains(x) {
                let i = choose|i: int| 0 <= i < add.drop_first().len() && add.drop_first()[i] == x;
                assert(add[i + 1] == x);
            }
        }
    }
}

/// A record composing from itself is always a self-reference error, for any
/// target name and in any state: the diagnostic batch of the request holds
/// the self-reference diagnostic.
pub proof fn lemma_self_reference_refused(
    reg: Seq<ProviderEntryModel>,
    ch: Seq<ChainEntryModel>,
    req: CompositionRequestModel,
    k: int,
)
    requires
        0 <= k < req.sources.len(),
        req.sources[k].name() == req.target_name,
    ensures
        ({
            let (reg2, ch2, res) = spec_compose(reg, ch, req);
            res is Err && res->Err_0.contains(msg_recursive(req.target_name))
        }),
{
    lemma_chain_phase_self(ch, req.target_name, req.sources, k);
    let (ch2, cerrs) = spec_chain_phase(ch, req.target_name, req.sources);
    let head = spec_validate_errs(req.shape, req.sources, reg);
    let errs = head + cerrs;
    let i = choose|i: int| 0 <= i < cerrs.len() && cerrs[i] == msg_recursive(req.target_name);
    assert(errs[head.len() + i] == msg_recursive(req.target_name));
}

/// The chain phase of a request with a self-referencing source records the
/// self-reference diagnostic.
proof fn lemma_chain_phase_self(
    ch: Seq<ChainEntryModel>,
    target: Seq<char>,
    sources: Seq<SourceRefModel>,
    k: int,
)
    requires
        0 <= k < sources.len(),
        sources[k].name() == target,
    ensures
        spec_chain_phase(ch, target, sources).1.contains(msg_recursive(target)),
    decreases sources.len(),
{
    let m = msg_recursive(target);
    if k == 0 {
        assert(spec_chain_step(ch, target, sources[0].name()) == Result::<
            Seq<ChainEntryModel>,
            Seq<char>,
        >::Err(m));
        let (c3, errs) = spec_chain_phase(ch, target, sources.drop_first());
        assert((seq![m] + errs)[0] == m);
        assert(spec_chain_phase(ch, target, sources).1.contains(m));
    } else {
        assert(sources.drop_first()[k - 1] == sources[k]);
        match spec_chain_step(ch, target, sources[0].name()) {
            Ok(c2) => {
                lemma_chain_phase_self(c2, target, sources.drop_first(), k - 1);
            },
            Err(m0) => {
                lemma_chain_phase_self(ch, target, sources.drop_first(), k - 1);
                let (c3, errs) = spec_chain_phase(ch, target, sources.drop_first());
                let i = choose|i: int| 0 <= i < errs.len() && errs[i] == m;
                assert((seq![m0] + errs)[1 + i] == m);
            },
        }
    }
}

/// A two-step cycle is refused exactly on its second edge: whenever the
/// edge recording that `a` composes from `b` goes through at all, the
/// reverse edge is always refused as circular, whatever else the graph
/// holds.
pub proof fn lemma_cycle_on_second_edge(ch: Seq<ChainEntryModel>, a: Seq<char>, b: Seq<char>)
    requires
        a != b,
        !spec_creates_cycle(ch, a, b),
    ensures
        spec_chain_step(ch, a, b) is Ok,
        spec_chain_step(spec_chain_step(ch, a, b)->Ok_0, b, a) == Result::<
            Seq<ChainEntryModel>,
            Seq<char>,
        >::Err(msg_circular(b, a)),
{
    let closure = spec_source_closure(ch, b);
    let newdeps = append_absent(chain_deps_of(ch, a), closure);
    let ch2 = chain_put(ch, a, newdeps);
    assert(spec_chain_step(ch, a, b) == Result::<Seq<ChainEntryModel>, Seq<char>>::Ok(ch2));
    // The second edge: the source `a` now depends on `b`, which is the new
    // target itself.
    lemma_chain_get_put(ch, a, newdeps, a);
    assert(chain_deps_of(ch2, a) == newdeps);
    lemma_append_absent_contains(chain_deps_of(ch, a), closure, b);
    assert(closure.contains(b)) by {
        assert(closure[0] == b);
    }
    assert(newdeps.contains(b));
    let closure2 = spec_source_closure(ch2, a);
    let i = choose|i: int| 0 <= i < newdeps.len() && newdeps[i] == b;
    assert(closure2[1 + i] == b);
    assert(spec_creates_cycle(ch2, b, a));
}

/// The resolved form of fields with no generic parameters: names, types and
/// visibilities unchanged.
pub open spec fn resolved_fields(fields: Seq<FieldDefModel>) -> Seq<FieldTypeInfoModel> {
    Seq::new(
        fields.len(),
        |j: int|
            FieldTypeInfoModel { name: fields[j].name, ty: fields[j].ty, vis: fields[j].vis },
    )
}

/// The names of the given fields, in order.
pub open spec fn field_names(fields: Seq<FieldDefModel>) -> Seq<Seq<char>> {
    Seq::new(fields.len(), |j: int| fields[j].name)
}

/// None of the fields declares a generic parameter.
pub open spec fn nongeneric_fields(fields: Seq<FieldDefModel>) -> bool {
    forall|j: int| 0 <= j < fields.len() ==> (#[trigger] fields[j]).generic_params.len() == 0
}

/// No two fields share a name.
pub open spec fn unique_field_names(fields: Seq<FieldDefModel>) -> bool {
    forall|j: int, k: int| 0 <= j < k < fields.len() ==> fields[j].name != fields[k].name
}

/// Looking a name up after a push finds the old binding first, the pushed
/// entry only when the name was fresh.
proof fn lemma_fti_get_push(m: Seq<FieldTypeInfoModel>, e: FieldTypeInfoModel, n: Seq<char>)
    ensures
        fti_get(m.push(e), n) == (if fti_get(m, n) is Some {
            fti_get(m, n)
        } else if e.name == n {
            Some(e)
        } else {
            None::<FieldTypeInfoModel>
        }),
    decreases m.len(),
{
    if m.len() == 0 {
        assert(m.push(e)[0] == e);
        assert(m.push(e).drop_first() =~= Seq::<FieldTypeInfoModel>::empty());
    } else {
        assert(m.push(e)[0] == m[0]);
        assert(m.push(e).drop_first() =~= m.drop_first().push(e));
        lemma_fti_get_push(m.drop_first(), e, n);
    }
}

/// The conflict pass over non-generic fields with fresh, pairwise distinct
/// names never errs: it extends the table by exactly their resolved forms.
proof fn lemma_conflict_pass_fresh(
    ftypes: Seq<FieldTypeInfoModel>,
    fields: Seq<FieldDefModel>,
    args: Seq<Seq<char>>,
)
    requires
        nongeneric_fields(fields),
        unique_field_names(fields),
        forall|j: int|
            0 <= j < fields.len() ==> fti_get(ftypes, (#[trigger] fields[j]).name) is None,
    ensures
        spec_conflict_pass(ftypes, fields, args) == Result::<
            Seq<FieldTypeInfoModel>,
            Seq<char>,
        >::Ok(ftypes + resolved_fields(fields)),
    decreases fields.len(),
{
    if fields.len() == 0 {
        assert(ftypes + resolved_fields(fields) =~= ftypes);
    } else {
        let f = fields[0];
        let e = FieldTypeInfoModel { name: f.name, ty: f.ty, vis: f.vis };
        assert(spec_resolved_type(f.ty, f.generic_params, args) == f.ty);
        let rest = fields.drop_first();
        assert(forall|j: int| 0 <= j < rest.len() ==> rest[j] == fields[j + 1]);
        assert forall|j: int|
            0 <= j < rest.len() implies fti_get(ftypes.push(e), (#[trigger] rest[j]).name)
            is None by {
            lemma_fti_get_push(ftypes, e, rest[j].name);
        }
        lemma_conflict_pass_fresh(ftypes.push(e), rest, args);
        assert(ftypes.push(e) + resolved_fields(rest) =~= ftypes + resolved_fields(fields));
    }
}

/// The append pass over accessible, non-generic fields with fresh, pairwise
/// distinct names never errs: it appends exactly their names and resolved
/// forms.
proof fn lemma_append_pass_fresh(
    added: Seq<Seq<char>>,
    out: Seq<FieldTypeInfoModel>,
    fields: Seq<FieldDefModel>,
    args: Seq<Seq<char>>,
    declaring: Seq<char>,
    requesting: Seq<char>,
)
    requires
        nongeneric_fields(fields),
        unique_field_names(fields),
        forall|j: int| 0 <= j < fields.len() ==> !added.contains((#[trigger] fields[j]).name),
        forall|j: int|
            0 <= j < fields.len() ==> spec_can_access(
                (#[trigger] fields[j]).vis,
                declaring,
                requesting,
            ),
    ensures
        spec_append_pass(added, out, fields, args, declaring, requesting) == Result::<
            (Seq<Seq<char>>, Seq<FieldTypeInfoModel>),
            Seq<char>,
        >::Ok((added + field_names(fields), out + resolved_fields(fields))),
    decreases fields.len(),
{
    if fields.len() == 0 {
        assert(added + field_names(fields) =~= added);
        assert(out + resolved_fields(fields) =~= out);
    } else {
        let f = fields[0];
        let e = FieldTypeInfoModel { name: f.name, ty: f.ty, vis: f.vis };
        assert(spec_resolved_type(f.ty, f.generic_params, args) == f.ty);
        let rest = fields.drop_first();
        assert(forall|j: int| 0 <= j < rest.len() ==> rest[j] == fields[j + 1]);
        let a2 = added.push(f.name);
        assert forall|j: int| 0 <= j < rest.len() implies !a2.contains(
            (#[trigger] rest[j]).name,
        ) by {
            if a2.contains(rest[j].name) {
                let i = choose|i: int| 0 <= i < a2.len() && a2[i] == rest[j].name;
                if i < added.len() {
                    assert(added[i] == rest[j].name);
                } else {
                    assert(a2[i] == f.name);
                }
            }
        }
        lemma_append_pass_fresh(a2, out.push(e), rest, args, declaring, requesting);
        assert(a2 + field_names(rest) =~= added + field_names(fields));
        assert(out.push(e) + resolved_fields(rest) =~= out + resolved_fields(fields));
    }
}

/// A name with no recorded dependencies is visited alone.
proof fn lemma_bfs_single(ch: Seq<ChainEntryModel>, s: Seq<char>)
    requires
        chain_deps_of(ch, s) == Seq::<Seq<char>>::empty(),
    ensures
        crate::registry::bfs_order(ch, seq![s], Seq::empty()) == seq![s],
{
    broadcast use vstd::seq_lib::group_seq_properties;

    let q0 = seq![s];
    let v0 = Seq::<Seq<char>>::empty();
    let v2 = v0.push(s);
    let fseq = chain_deps_of(ch, s).filter(crate::registry::not_seen(v2));
    assert(fseq.len() == 0) by {
        Seq::lemma_filter_len(chain_deps_of(ch, s), crate::registry::not_seen(v2));
    }
    let q2 = q0.drop_first() + fseq;
    assert(q2.len() == 0);
    assert(crate::registry::bfs_order(ch, q2, v2) == v2);
    assert(v2 =~= seq![s]);
}

/// A name whose only recorded dependency has none of its own is visited
/// first, its dependency second.
#[verifier::rlimit(50)]
proof fn lemma_bfs_pair(ch: Seq<ChainEntryModel>, b: Seq<char>, a: Seq<char>)
    requires
        a != b,
        chain_deps_of(ch, b) == seq![a],
        chain_deps_of(ch, a) == Seq::<Seq<char>>::empty(),
    ensures
        crate::registry::bfs_order(ch, seq![b], Seq::empty()) == seq![b, a],
{
    let q0 = seq![b];
    let v0 = Seq::<Seq<char>>::empty();
    let v2 = v0.push(b);
    let pred = crate::registry::not_seen(v2);
    assert(pred(a)) by {
        if v2.contains(a) {
            let i = choose|i: int| 0 <= i < v2.len() && v2[i] == a;
            assert(v2[i] == b);
        }
    }
    let fseq = chain_deps_of(ch, b).filter(pred);
    assert(fseq =~= seq![a]) by {
        assert(seq![a] =~= Seq::<Seq<char>>::empty().push(a));
        Seq::lemma_filter_len(Seq::<Seq<char>>::empty(), pred);
        Seq::lemma_filter_push(Seq::<Seq<char>>::empty(), a, pred);
        assert(Seq::<Seq<char>>::empty().filter(pred) =~= Seq::<Seq<char>>::empty());
    }
    let q2 = q0.drop_first() + fseq;
    assert(q2 =~= seq![a]);
    // Second step: visit `a`, which enqueues nothing.
    assert(!v2.contains(a));
    let v3 = v2.push(a);
    let fseq2 = chain_deps_of(ch, a).filter(crate::registry::not_seen(v3));
    assert(fseq2.len() == 0) by {
        Seq::lemma_filter_len(chain_deps_of(ch, a), crate::registry::not_seen(v3));
    }
    let q3 = q2.drop_first() + fseq2;
    assert(q3.len() == 0);
    assert(crate::registry::bfs_order(ch, q3, v3) == v3);
    assert(crate::registry::bfs_order(ch, q2, v2) == v3);
    assert(v3 =~= seq![b, a]);
}

/// Composing from a single provider with no generic parameters, under the
/// scope its reference places it in, yields exactly the provider's declared
/// fields, names, types and visibilities unchanged.  The provider must not
/// be the target, must not already stand among the target's dependencies,
/// must have no recorded dependencies of its own, and each of its fields
/// must be accessible under equal declaring and requesting scopes.
pub proof fn lemma_single_provider_identity(
    reg: Seq<ProviderEntryModel>,
    ch: Seq<ChainEntryModel>,
    req: CompositionRequestModel,
    fields: Seq<FieldDefModel>,
)
    requires
        req.wf(),
        req.shape is NamedFields,
        req.sources.len() == 1,
        req.sources[0].name() != req.target_name,
        req.sources[0].scope() == req.target_module,
        reg_get(reg, req.sources[0].name()) is Some,
        reg_get(reg, req.sources[0].name())->Some_0.fields == fields,
        chain_get(ch, req.sources[0].name()) is None,
        !chain_deps_of(ch, req.target_name).contains(req.sources[0].name()),
        nongeneric_fields(fields),
        unique_field_names(fields),
        forall|j: int|
            0 <= j < fields.len() ==> spec_can_access(
                (#[trigger] fields[j]).vis,
                req.target_module,
                req.target_module,
            ),
    ensures
        spec_compose(reg, ch, req).2 == Result::<Seq<FieldTypeInfoModel>, Seq<Seq<char>>>::Ok(
            resolved_fields(fields),
        ),
{
    let s = req.sources[0];
    let sn = s.name();
    let t = req.target_name;
    let rest = req.sources.drop_first();
    assert(rest =~= Seq::<SourceRefModel>::empty());
    // Phase A: the one source is registered.
    assert(spec_check_sources(req.sources, reg) == Result::<(), Seq<char>>::Ok(())) by {
        assert(spec_check_sources(rest, reg) == Result::<(), Seq<char>>::Ok(()));
    }
    assert(spec_validate(req.shape, req.sources, reg) == Result::<(), Seq<char>>::Ok(()));
    let head = spec_validate_errs(req.shape, req.sources, reg);
    assert(head.len() == 0);
    // Phase B: the one edge is recorded without a cycle.
    assert(chain_deps_of(ch, sn) =~= Seq::<Seq<char>>::empty());
    let closure = spec_source_closure(ch, sn);
    assert(closure =~= seq![sn]);
    assert(!spec_creates_cycle(ch, t, sn)) by {
        if spec_creates_cycle(ch, t, sn) {
            let k = choose|k: int|
                0 <= k < closure.len() && (chain_deps_of(ch, t).contains(closure[k]) || closure[k]
                    == t);
        }
    }
    let nd = append_absent(chain_deps_of(ch, t), closure);
    let ch2 = chain_put(ch, t, nd);
    assert(spec_chain_step(ch, t, sn) == Result::<Seq<ChainEntryModel>, Seq<char>>::Ok(ch2));
    assert(spec_chain_phase(ch2, t, rest) == (ch2, Seq::<Seq<char>>::empty()));
    assert(spec_chain_phase(ch, t, req.sources) == (ch2, Seq::<Seq<char>>::empty()));
    assert((head + Seq::<Seq<char>>::empty()).len() == 0);
    // Phase C: the provider takes the scope of its reference.
    let newinfo = ModuleInfoModel { fields, module_scope: s.scope() };
    let reg2 = reg_put(reg, sn, newinfo);
    assert(spec_update_scopes(reg2, rest) == (reg2, None::<Seq<char>>));
    assert(spec_update_scopes(reg, req.sources) == (reg2, None::<Seq<char>>));
    // Phase D: the traversal visits the provider alone and its fields merge
    // without conflicts or access failures.
    lemma_chain_get_put(ch, t, nd, sn);
    assert(chain_deps_of(ch2, sn) =~= Seq::<Seq<char>>::empty());
    lemma_bfs_single(ch2, sn);
    lemma_reg_get_reg_put(reg, sn, newinfo, sn);
    assert(reg_get(reg2, sn) == Some(newinfo));
    let collected = spec_collected_fields(reg2, ch2, sn);
    assert(collected =~= fields) by {
        assert(crate::registry::fields_of_order(reg2, seq![sn]) == newinfo.fields
            + crate::registry::fields_of_order(reg2, seq![sn].drop_first()));
        assert(seq![sn].drop_first() =~= Seq::<Seq<char>>::empty());
        assert(crate::registry::fields_of_order(reg2, Seq::<Seq<char>>::empty()) =~= Seq::<
            FieldDefModel,
        >::empty());
        assert(newinfo.fields + Seq::<FieldDefModel>::empty() =~= fields);
    }
    let ft0 = Seq::<FieldTypeInfoModel>::empty();
    let a0 = Seq::<Seq<char>>::empty();
    let o0 = Seq::<FieldTypeInfoModel>::empty();
    assert forall|j: int| 0 <= j < fields.len() implies fti_get(
        ft0,
        (#[trigger] fields[j]).name,
    ) is None by {
    }
    lemma_conflict_pass_fresh(ft0, fields, s.type_args);
    assert(ft0 + resolved_fields(fields) =~= resolved_fields(fields));
    assert forall|j: int| 0 <= j < fields.len() implies !a0.contains(
        (#[trigger] fields[j]).name,
    ) by {
    }
    lemma_append_pass_fresh(a0, o0, fields, s.type_args, s.scope(), req.target_module);
    assert(a0 + field_names(fields) =~= field_names(fields));
    assert(o0 + resolved_fields(fields) =~= resolved_fields(fields));
    assert(spec_append_pass(a0, o0, collected, s.type_args, s.scope(), req.target_module)
        == Result::<(Seq<Seq<char>>, Seq<FieldTypeInfoModel>), Seq<char>>::Ok(
        (field_names(fields), resolved_fields(fields)),
    ));
    assert(crate::compose::spec_sources_pass(
        reg2,
        ch2,
        rest,
        req.target_module,
        resolved_fields(fields),
        field_names(fields),
        resolved_fields(fields),
    ) == Result::<Seq<FieldTypeInfoModel>, Seq<char>>::Ok(resolved_fields(fields)));
    assert(spec_process_type_paths(reg2, ch2, req.sources, req.target_module) == Result::<
        Seq<FieldTypeInfoModel>,
        Seq<char>,
    >::Ok(resolved_fields(fields)));
}

/// A two-step chain: when a record composes from a provider that itself
/// composed from another, the merged field set is the union of both
/// providers' fields, the direct provider's first, with no duplicates —
/// whatever order the providers were declared or re-declared in, the
/// registry and chain state alone decide.
pub proof fn lemma_chain_composes_union(
    reg: Seq<ProviderEntryModel>,
    ch: Seq<ChainEntryModel>,
    req: CompositionRequestModel,
    an: Seq<char>,
    fa: Seq<FieldDefModel>,
    fb: Seq<FieldDefModel>,
)
    requires
        req.wf(),
        req.shape is NamedFields,
        req.sources.len() == 1,
        req.sources[0].name() != req.target_name,
        an != req.sources[0].name(),
        an != req.target_name,
        reg_get(reg, req.sources[0].name()) is Some,
        reg_get(reg, req.sources[0].name())->Some_0.fields == fb,
        reg_get(reg, an) is Some,
        reg_get(reg, an)->Some_0.fields == fa,
        chain_get(ch, req.sources[0].name()) == Some(seq![an]),
        chain_get(ch, an) is None,
        chain_get(ch, req.target_name) is None,
        nongeneric_fields(fb + fa),
        unique_field_names(fb + fa),
        forall|j: int|
            0 <= j < (fb + fa).len() ==> spec_can_access(
                ((#[trigger] (fb + fa)[j])).vis,
                req.sources[0].scope(),
                req.target_module,
            ),
    ensures
        spec_compose(reg, ch, req).2 == Result::<Seq<FieldTypeInfoModel>, Seq<Seq<char>>>::Ok(
            resolved_fields(fb + fa),
        ),
{
    let s = req.sources[0];
    let bn = s.name();
    let t = req.target_name;
    let rest = req.sources.drop_first();
    assert(rest =~= Seq::<SourceRefModel>::empty());
    let fields = fb + fa;
    // Phase A.
    assert(spec_check_sources(rest, reg) == Result::<(), Seq<char>>::Ok(()));
    assert(spec_validate(req.shape, req.sources, reg) == Result::<(), Seq<char>>::Ok(()));
    let head = spec_validate_errs(req.shape, req.sources, reg);
    assert(head.len() == 0);
    // Phase B: the edge to the direct provider carries its closure along
    // and closes no cycle.
    assert(chain_deps_of(ch, t) =~= Seq::<Seq<char>>::empty());
    let closure = spec_source_closure(ch, bn);
    assert(closure =~= seq![bn, an]) by {
        assert(chain_deps_of(ch, bn) == seq![an]);
        assert((seq![bn] + seq![an])[0] == bn);
        assert((seq![bn] + seq![an])[1] == an);
    }
    assert(!spec_creates_cycle(ch, t, bn)) by {
        if spec_creates_cycle(ch, t, bn) {
            let k = choose|k: int|
                0 <= k < closure.len() && (chain_deps_of(ch, t).contains(closure[k]) || closure[k]
                    == t);
        }
    }
    let nd = append_absent(chain_deps_of(ch, t), closure);
    let ch2 = chain_put(ch, t, nd);
    assert(spec_chain_step(ch, t, bn) == Result::<Seq<ChainEntryModel>, Seq<char>>::Ok(ch2));
    assert(spec_chain_phase(ch2, t, rest) == (ch2, Seq::<Seq<char>>::empty()));
    assert(spec_chain_phase(ch, t, req.sources) == (ch2, Seq::<Seq<char>>::empty()));
    assert((head + Seq::<Seq<char>>::empty()).len() == 0);
    // Phase C.
    let newinfo = ModuleInfoModel { fields: fb, module_scope: s.scope() };
    let reg2 = reg_put(reg, bn, newinfo);
    assert(spec_update_scopes(reg2, rest) == (reg2, None::<Seq<char>>));
    assert(spec_update_scopes(reg, req.sources) == (reg2, None::<Seq<char>>));
    // Phase D: the traversal visits the provider, then its dependency.
    lemma_chain_get_put(ch, t, nd, bn);
    lemma_chain_get_put(ch, t, nd, an);
    assert(chain_deps_of(ch2, bn) == seq![an]);
    assert(chain_deps_of(ch2, an) =~= Seq::<Seq<char>>::empty());
    lemma_bfs_pair(ch2, bn, an);
    lemma_reg_get_reg_put(reg, bn, newinfo, bn);
    lemma_reg_get_reg_put(reg, bn, newinfo, an);
    assert(reg_get(reg2, bn) == Some(newinfo));
    assert(reg_get(reg2, an)->Some_0.fields == fa);
    let collected = spec_collected_fields(reg2, ch2, bn);
    assert(collected =~= fields) by {
        let order = seq![bn, an];
        assert(crate::registry::fields_of_order(reg2, order) == fb
            + crate::registry::fields_of_order(reg2, order.drop_first()));
        assert(order.drop_first() =~= seq![an]);
        assert(crate::registry::fields_of_order(reg2, seq![an]) == fa
            + crate::registry::fields_of_order(reg2, seq![an].drop_first()));
        assert(seq![an].drop_first() =~= Seq::<Seq<char>>::empty());
        assert(crate::registry::fields_of_order(reg2, Seq::<Seq<char>>::empty()) =~= Seq::<
            FieldDefModel,
        >::empty());
        assert(fb + (fa + Seq::<FieldDefModel>::empty()) =~= fields);
    }
    // Merge: all names fresh, all fields accessible.
    let ft0 = Seq::<FieldTypeInfoModel>::empty();
    let a0 = Seq::<Seq<char>>::empty();
    let o0 = Seq::<FieldTypeInfoModel>::empty();
    lemma_conflict_pass_fresh(ft0, fields, s.type_args);
    assert(ft0 + resolved_fields(fields) =~= resolved_fields(fields));
    lemma_append_pass_fresh(a0, o0, fields, s.type_args, s.scope(), req.target_module);
    assert(a0 + field_names(fields) =~= field_names(fields));
    assert(o0 + resolved_fields(fields) =~= resolved_fields(fields));
    assert(crate::compose::spec_sources_pass(
        reg2,
        ch2,
        rest,
        req.target_module,
        resolved_fields(fields),
        field_names(fields),
        resolved_fields(fields),
    ) == Result::<Seq<FieldTypeInfoModel>, Seq<char>>::Ok(resolved_fields(fields)));
    assert(spec_process_type_paths(reg2, ch2, req.sources, req.target_module) == Result::<
        Seq<FieldTypeInfoModel>,
        Seq<char>,
    >::Ok(resolved_fields(fields)));
}

/// Two sources contributing one field of the same name: identical resolved
/// type and visibility merge without error and the first occurrence is
/// kept; a differing resolved type always fails with the type conflict; an
/// equal type under a differing visibility always fails with the visibility
/// conflict.
pub proof fn lemma_conflict_semantics(
    reg: Seq<ProviderEntryModel>,
    ch: Seq<ChainEntryModel>,
    req: CompositionRequestModel,
    fx: FieldDefModel,
    fy: FieldDefModel,
)
    requires
        req.wf(),
        req.shape is NamedFields,
        req.sources.len() == 2,
        req.sources[0].name() != req.target_name,
        req.sources[1].name() != req.target_name,
        req.sources[0].name() != req.sources[1].name(),
        reg_get(reg, req.sources[0].name()) is Some,
        reg_get(reg, req.sources[0].name())->Some_0.fields == seq![fx],
        reg_get(reg, req.sources[1].name()) is Some,
        reg_get(reg, req.sources[1].name())->Some_0.fields == seq![fy],
        chain_get(ch, req.sources[0].name()) is None,
        chain_get(ch, req.sources[1].name()) is None,
        chain_get(ch, req.target_name) is None,
        fy.name == fx.name,
        fx.generic_params.len() == 0,
        fy.generic_params.len() == 0,
        spec_can_access(fx.vis, req.sources[0].scope(), req.target_module),
    ensures
        ({
            let res = spec_compose(reg, ch, req).2;
            let kept = FieldTypeInfoModel { name: fx.name, ty: fx.ty, vis: fx.vis };
            &&& (fy.ty == fx.ty && fy.vis == fx.vis) ==> res == Result::<
                Seq<FieldTypeInfoModel>,
                Seq<Seq<char>>,
            >::Ok(seq![kept])
            &&& fy.ty != fx.ty ==> res == Result::<Seq<FieldTypeInfoModel>, Seq<Seq<char>>>::Err(
                seq![msg_conflict_type(fy.name, fx.ty, fy.ty)],
            )
            &&& (fy.ty == fx.ty && fy.vis != fx.vis) ==> res == Result::<
                Seq<FieldTypeInfoModel>,
                Seq<Seq<char>>,
            >::Err(seq![msg_conflict_vis(fy.name)])
        }),
{
    let s0 = req.sources[0];
    let s1 = req.sources[1];
    let xn = s0.name();
    let yn = s1.name();
    let t = req.target_name;
    let rest1 = req.sources.drop_first();
    assert(rest1[0] == s1);
    let rest2 = rest1.drop_first();
    assert(rest2 =~= Seq::<SourceRefModel>::empty());
    // Phase A.
    assert(spec_check_sources(rest2, reg) == Result::<(), Seq<char>>::Ok(()));
    assert(spec_check_sources(rest1, reg) == Result::<(), Seq<char>>::Ok(()));
    assert(spec_validate(req.shape, req.sources, reg) == Result::<(), Seq<char>>::Ok(()));
    let head = spec_validate_errs(req.shape, req.sources, reg);
    assert(head.len() == 0);
    // Phase B: both edges are fresh and cycle-free.
    assert(chain_deps_of(ch, t) =~= Seq::<Seq<char>>::empty());
    assert(chain_deps_of(ch, xn) =~= Seq::<Seq<char>>::empty());
    assert(chain_deps_of(ch, yn) =~= Seq::<Seq<char>>::empty());
    let closure0 = spec_source_closure(ch, xn);
    assert(closure0 =~= seq![xn]);
    assert(!spec_creates_cycle(ch, t, xn)) by {
        if spec_creates_cycle(ch, t, xn) {
            let k = choose|k: int|
                0 <= k < closure0.len() && (chain_deps_of(ch, t).contains(closure0[k])
                    || closure0[k] == t);
        }
    }
    let nd0 = append_absent(chain_deps_of(ch, t), closure0);
    let ch2 = chain_put(ch, t, nd0);
    assert(spec_chain_step(ch, t, xn) == Result::<Seq<ChainEntryModel>, Seq<char>>::Ok(ch2));
    lemma_chain_get_put(ch, t, nd0, yn);
    assert(chain_deps_of(ch2, yn) =~= Seq::<Seq<char>>::empty());
    lemma_chain_get_put(ch, t, nd0, t);
    assert(chain_deps_of(ch2, t) == nd0);
    assert(nd0 =~= push_absent(chain_deps_of(ch, t), xn)) by {
        assert(closure0[0] == xn);
        assert(nd0 == append_absent(
            push_absent(chain_deps_of(ch, t), xn),
            closure0.drop_first(),
        ));
        assert(closure0.drop_first() =~= Seq::<Seq<char>>::empty());
        assert(append_absent(
            push_absent(chain_deps_of(ch, t), xn),
            Seq::<Seq<char>>::empty(),
        ) == push_absent(chain_deps_of(ch, t), xn));
    }
    assert(nd0 =~= seq![xn]);
    let closure1 = spec_source_closure(ch2, yn);
    assert(closure1 =~= seq![yn]);
    assert(!spec_creates_cycle(ch2, t, yn)) by {
        if spec_creates_cycle(ch2, t, yn) {
            let k = choose|k: int|
                0 <= k < closure1.len() && (chain_deps_of(ch2, t).contains(closure1[k])
                    || closure1[k] == t);
            assert(closure1[k] == yn);
            if chain_deps_of(ch2, t).contains(yn) {
                let i = choose|i: int| 0 <= i < nd0.len() && nd0[i] == yn;
            }
        }
    }
    let nd1 = append_absent(chain_deps_of(ch2, t), closure1);
    let ch3 = chain_put(ch2, t, nd1);
    assert(spec_chain_step(ch2, t, yn) == Result::<Seq<ChainEntryModel>, Seq<char>>::Ok(ch3));
    assert(spec_chain_phase(ch3, t, rest2) == (ch3, Seq::<Seq<char>>::empty()));
    assert(spec_chain_phase(ch2, t, rest1) == (ch3, Seq::<Seq<char>>::empty()));
    assert(spec_chain_phase(ch, t, req.sources) == (ch3, Seq::<Seq<char>>::empty()));
    assert((head + Seq::<Seq<char>>::empty()).len() == 0);
    // Phase C: both providers take the scopes of their references.
    let info0 = ModuleInfoModel { fields: seq![fx], module_scope: s0.scope() };
    let reg1 = reg_put(reg, xn, info0);
    lemma_reg_get_reg_put(reg, xn, info0, yn);
    assert(reg_get(reg1, yn)->Some_0.fields == seq![fy]);
    let info1 = ModuleInfoModel { fields: seq![fy], module_scope: s1.scope() };
    let reg2 = reg_put(reg1, yn, info1);
    assert(spec_update_scopes(reg2, rest2) == (reg2, None::<Seq<char>>));
    assert(spec_update_scopes(reg1, rest1) == (reg2, None::<Seq<char>>));
    assert(spec_update_scopes(reg, req.sources) == (reg2, None::<Seq<char>>));
    // Phase D, first source: its single field merges cleanly.
    lemma_chain_get_put(ch2, t, nd1, xn);
    lemma_chain_get_put(ch, t, nd0, xn);
    assert(chain_deps_of(ch3, xn) =~= Seq::<Seq<char>>::empty());
    lemma_chain_get_put(ch2, t, nd1, yn);
    assert(chain_deps_of(ch3, yn) =~= Seq::<Seq<char>>::empty());
    lemma_bfs_single(ch3, xn);
    lemma_bfs_single(ch3, yn);
    lemma_reg_get_reg_put(reg1, yn, info1, xn);
    lemma_reg_get_reg_put(reg, xn, info0, xn);
    assert(reg_get(reg2, xn) == Some(info0));
    lemma_reg_get_reg_put(reg1, yn, info1, yn);
    assert(reg_get(reg2, yn) == Some(info1));
    let cx = spec_collected_fields(reg2, ch3, xn);
    assert(cx =~= seq![fx]) by {
        assert(crate::registry::fields_of_order(reg2, seq![xn]) == seq![fx]
            + crate::registry::fields_of_order(reg2, seq![xn].drop_first()));
        assert(seq![xn].drop_first() =~= Seq::<Seq<char>>::empty());
        assert(crate::registry::fields_of_order(reg2, Seq::<Seq<char>>::empty()) =~= Seq::<
            FieldDefModel,
        >::empty());
        assert(seq![fx] + Seq::<FieldDefModel>::empty() =~= seq![fx]);
    }
    let cy = spec_collected_fields(reg2, ch3, yn);
    assert(cy =~= seq![fy]) by {
        assert(crate::registry::fields_of_order(reg2, seq![yn]) == seq![fy]
            + crate::registry::fields_of_order(reg2, seq![yn].drop_first()));
        assert(seq![yn].drop_first() =~= Seq::<Seq<char>>::empty());
        assert(crate::registry::fields_of_order(reg2, Seq::<Seq<char>>::empty()) =~= Seq::<
            FieldDefModel,
        >::empty());
        assert(seq![fy] + Seq::<FieldDefModel>::empty() =~= seq![fy]);
    }
    let kept = FieldTypeInfoModel { name: fx.name, ty: fx.ty, vis: fx.vis };
    assert(nongeneric_fields(seq![fx]) && unique_field_names(seq![fx]));
    assert(forall|j: int|
        0 <= j < seq![fx].len() ==> fti_get(
            Seq::<FieldTypeInfoModel>::empty(),
            (#[trigger] seq![fx][j]).name,
        ) is None);
    lemma_conflict_pass_fresh(Seq::<FieldTypeInfoModel>::empty(), seq![fx], s0.type_args);
    assert(Seq::<FieldTypeInfoModel>::empty() + resolved_fields(seq![fx]) =~= seq![kept]) by {
        assert(resolved_fields(seq![fx])[0] == kept);
    }
    assert(forall|j: int|
        0 <= j < seq![fx].len() ==> !Seq::<Seq<char>>::empty().contains(
            (#[trigger] seq![fx][j]).name,
        ));
    assert(forall|j: int|
        0 <= j < seq![fx].len() ==> spec_can_access(
            (#[trigger] seq![fx][j]).vis,
            s0.scope(),
            req.target_module,
        ));
    lemma_append_pass_fresh(
        Seq::<Seq<char>>::empty(),
        Seq::<FieldTypeInfoModel>::empty(),
        seq![fx],
        s0.type_args,
        s0.scope(),
        req.target_module,
    );
    let added1 = Seq::<Seq<char>>::empty() + field_names(seq![fx]);
    let out1 = Seq::<FieldTypeInfoModel>::empty() + resolved_fields(seq![fx]);
    assert(added1 =~= seq![fx.name]) by {
        assert(field_names(seq![fx])[0] == fx.name);
    }
    assert(out1 =~= seq![kept]);
    // Phase D, second source: its field hits the table entry of the first.
    assert(spec_resolved_type(fy.ty, fy.generic_params, s1.type_args) == fy.ty);
    assert(fti_get(seq![kept], fy.name) == Some(kept));
    if fy.ty == fx.ty && fy.vis == fx.vis {
        assert(spec_conflict_pass(seq![kept], cy, s1.type_args) == Result::<
            Seq<FieldTypeInfoModel>,
            Seq<char>,
        >::Ok(seq![kept])) by {
            assert(cy[0] == fy);
            assert(cy.drop_first() =~= Seq::<FieldDefModel>::empty());
            assert(spec_conflict_pass(
                seq![kept],
                Seq::<FieldDefModel>::empty(),
                s1.type_args,
            ) == Result::<Seq<FieldTypeInfoModel>, Seq<char>>::Ok(seq![kept]));
        }
        assert(added1.contains(fy.name)) by {
            assert(added1[0] == fx.name);
        }
        assert(spec_append_pass(
            added1,
            seq![kept],
            cy,
            s1.type_args,
            reg_get(reg2, yn)->Some_0.module_scope,
            req.target_module,
        ) == Result::<(Seq<Seq<char>>, Seq<FieldTypeInfoModel>), Seq<char>>::Ok(
            (added1, seq![kept]),
        )) by {
            assert(cy[0] == fy);
            assert(cy.drop_first() =~= Seq::<FieldDefModel>::empty());
            assert(spec_append_pass(
                added1,
                seq![kept],
                Seq::<FieldDefModel>::empty(),
                s1.type_args,
                reg_get(reg2, yn)->Some_0.module_scope,
                req.target_module,
            ) == Result::<(Seq<Seq<char>>, Seq<FieldTypeInfoModel>), Seq<char>>::Ok(
                (added1, seq![kept]),
            ));
        }
        assert(crate::compose::spec_sources_pass(
            reg2,
            ch3,
            rest2,
            req.target_module,
            seq![kept],
            added1,
            seq![kept],
        ) == Result::<Seq<FieldTypeInfoModel>, Seq<char>>::Ok(seq![kept]));
        assert(crate::compose::spec_sources_pass(
            reg2,
            ch3,
            rest1,
            req.target_module,
            seq![kept],
            added1,
            seq![kept],
        ) == Result::<Seq<FieldTypeInfoModel>, Seq<char>>::Ok(seq![kept]));
        assert(spec_process_type_paths(reg2, ch3, req.sources, req.target_module) == Result::<
            Seq<FieldTypeInfoModel>,
            Seq<char>,
        >::Ok(seq![kept]));
    } else if fy.ty != fx.ty {
        let m = msg_conflict_type(fy.name, fx.ty, fy.ty);
        assert(spec_conflict_pass(seq![kept], cy, s1.type_args) == Result::<
            Seq<FieldTypeInfoModel>,
            Seq<char>,
        >::Err(m)) by {
            assert(cy[0] == fy);
        }
        assert(crate::compose::spec_sources_pass(
            reg2,
            ch3,
            rest1,
            req.target_module,
            seq![kept],
            added1,
            seq![kept],
        ) == Result::<Seq<FieldTypeInfoModel>, Seq<char>>::Err(m));
        assert(spec_process_type_paths(reg2, ch3, req.sources, req.target_module) == Result::<
            Seq<FieldTypeInfoModel>,
            Seq<char>,
        >::Err(m));
    } else {
        let m = msg_conflict_vis(fy.name);
        assert(spec_conflict_pass(seq![kept], cy, s1.type_args) == Result::<
            Seq<FieldTypeInfoModel>,
            Seq<char>,
        >::Err(m)) by {
            assert(cy[0] == fy);
        }
        assert(crate::compose::spec_sources_pass(
            reg2,
            ch3,
            rest1,
            req.target_module,
            seq![kept],
            added1,
            seq![kept],
        ) == Result::<Seq<FieldTypeInfoModel>, Seq<char>>::Err(m));
        assert(spec_process_type_paths(reg2, ch3, req.sources, req.target_module) == Result::<
            Seq<FieldTypeInfoModel>,
            Seq<char>,
        >::Err(m));
    }
}

} // verus!
