//! The provider registry and the injection-chain graph.
//!
//! The registry maps provider names to their field definitions and module
//! scopes; the chain graph maps a record name to the set of names it
//! transitively depends on and is what detects self-references and circular
//! composition chains.  Both are modelled as association lists in which the
//! first entry with a given name is the binding that counts.

use vstd::prelude::*;
use vstd::string::*;

use crate::text::{joined_path_upto, spec_joined_path, str_eq, vec_contains_str};
use crate::types::{
    clone_field_vec, clone_string_vec, deep_of, lemma_deep_of_push, lemma_deep_of_remove_first,
    lemma_deep_of_update, lemma_vec_deep_view, FieldDef, FieldDefModel, ModuleInfo, ModuleInfoModel,
};

verus! {

/// Mathematical model of a [`ProviderEntry`].
pub struct ProviderEntryModel {
    pub name: Seq<char>,
    pub info: ModuleInfoModel,
}

/// One registry binding: a provider name and what is known about it.
pub struct ProviderEntry {
    pub name: String,
    pub info: ModuleInfo,
}

impl View for ProviderEntry {
    type V = ProviderEntryModel;

    open spec fn view(&self) -> ProviderEntryModel {
        ProviderEntryModel { name: self.name@, info: self.info@ }
    }
}

impl DeepView for ProviderEntry {
    type V = ProviderEntryModel;

    open spec fn deep_view(&self) -> ProviderEntryModel {
        self.view()
    }
}

/// The first binding of `name` in a registry, if any.
pub open spec fn reg_get(r: Seq<ProviderEntryModel>, name: Seq<char>) -> Option<ModuleInfoModel>
    decreases r.len(),
{
    if r.len() == 0 {
        None
    } else if r[0].name == name {
        Some(r[0].info)
    } else {
        reg_get(r.drop_first(), name)
    }
}

/// If position `i` holds the first entry named `r[i].name`, that entry is
/// the binding `reg_get` returns.
proof fn lemma_reg_get_at(r: Seq<ProviderEntryModel>, i: int)
    requires
        0 <= i < r.len(),
        forall|j: int| 0 <= j < i ==> r[j].name != r[i].name,
    ensures
        reg_get(r, r[i].name) == Some(r[i].info),
    decreases i,
{
    if i > 0 {
        assert(r.drop_first()[i - 1] == r[i]);
        assert(forall|j: int| 0 <= j < i - 1 ==> r.drop_first()[j] == r[j + 1]);
        lemma_reg_get_at(r.drop_first(), i - 1);
    }
}

/// A name bound at no position is not in the registry.
proof fn lemma_reg_get_absent(r: Seq<ProviderEntryModel>, name: Seq<char>)
    requires
        forall|j: int| 0 <= j < r.len() ==> r[j].name != name,
    ensures
        reg_get(r, name) is None,
    decreases r.len(),
{
    if r.len() > 0 {
        assert(forall|j: int| 0 <= j < r.len() - 1 ==> r.drop_first()[j] == r[j + 1]);
        lemma_reg_get_absent(r.drop_first(), name);
    }
}

/// Replacing the first entry of a name rebinds that name and nothing else.
proof fn lemma_reg_get_update(r: Seq<ProviderEntryModel>, i: int, e: ProviderEntryModel, n: Seq<char>)
    requires
        0 <= i < r.len(),
        r[i].name == e.name,
        forall|j: int| 0 <= j < i ==> r[j].name != e.name,
    ensures
        reg_get(r.update(i, e), n) == (if n == e.name {
            Some(e.info)
        } else {
            reg_get(r, n)
        }),
    decreases i,
{
    let ru = r.update(i, e);
    if i == 0 {
        assert(ru.drop_first() =~= r.drop_first());
    } else {
        assert(ru[0] == r[0]);
        assert(ru.drop_first() =~= r.drop_first().update(i - 1, e));
        assert(forall|j: int| 0 <= j < i - 1 ==> r.drop_first()[j] == r[j + 1]);
        lemma_reg_get_update(r.drop_first(), i - 1, e, n);
    }
}

/// Appending an entry for a fresh name binds that name and nothing else.
proof fn lemma_reg_get_push(r: Seq<ProviderEntryModel>, e: ProviderEntryModel, n: Seq<char>)
    requires
        forall|j: int| 0 <= j < r.len() ==> r[j].name != e.name,
    ensures
        reg_get(r.push(e), n) == (if n == e.name {
            Some(e.info)
        } else {
            reg_get(r, n)
        }),
    decreases r.len(),
{
    if r.len() == 0 {
        assert(r.push(e)[0] == e);
        assert(r.push(e).drop_first() =~= Seq::<ProviderEntryModel>::empty());
        assert(reg_get(Seq::<ProviderEntryModel>::empty(), n) is None);
        assert(reg_get(r, n) is None);
    } else {
        assert(r.push(e)[0] == r[0]);
        assert(r.push(e).drop_first() =~= r.drop_first().push(e));
        assert(forall|j: int| 0 <= j < r.len() - 1 ==> r.drop_first()[j] == r[j + 1]);
        lemma_reg_get_push(r.drop_first(), e, n);
    }
}

/// The registry with the first entry of `name` rebound to `info`; a
/// registry without such an entry is unchanged.
pub open spec fn reg_put(
    r: Seq<ProviderEntryModel>,
    name: Seq<char>,
    info: ModuleInfoModel,
) -> Seq<ProviderEntryModel>
    decreases r.len(),
{
    if r.len() == 0 {
        r
    } else if r[0].name == name {
        seq![ProviderEntryModel { name, info }] + r.drop_first()
    } else {
        seq![r[0]] + reg_put(r.drop_first(), name, info)
    }
}

/// `reg_put` rebinds exactly the named entry, where it exists.
pub proof fn lemma_reg_get_reg_put(
    r: Seq<ProviderEntryModel>,
    name: Seq<char>,
    info: ModuleInfoModel,
    n: Seq<char>,
)
    ensures
        reg_get(reg_put(r, name, info), n) == (if n == name && reg_get(r, name) is Some {
            Some(info)
        } else {
            reg_get(r, n)
        }),
    decreases r.len(),
{
    let rp = reg_put(r, name, info);
    if r.len() == 0 {
    } else if r[0].name == name {
        assert(rp.drop_first() =~= r.drop_first());
    } else {
        assert(rp[0] == r[0]);
        assert(rp.drop_first() =~= reg_put(r.drop_first(), name, info));
        lemma_reg_get_reg_put(r.drop_first(), name, info, n);
    }
}

/// If position `i` holds the first entry named `name`, replacing it in
/// place realises `reg_put`.
proof fn lemma_reg_put_update(
    r: Seq<ProviderEntryModel>,
    i: int,
    name: Seq<char>,
    info: ModuleInfoModel,
)
    requires
        0 <= i < r.len(),
        r[i].name == name,
        forall|j: int| 0 <= j < i ==> r[j].name != name,
    ensures
        reg_put(r, name, info) == r.update(i, ProviderEntryModel { name, info }),
    decreases i,
{
    if i == 0 {
        assert(reg_put(r, name, info) =~= r.update(0, ProviderEntryModel { name, info }));
    } else {
        assert(forall|j: int| 0 <= j < i - 1 ==> r.drop_first()[j] == r[j + 1]);
        assert(r.drop_first()[i - 1] == r[i]);
        lemma_reg_put_update(r.drop_first(), i - 1, name, info);
        assert(reg_put(r, name, info) =~= r.update(i, ProviderEntryModel { name, info }));
    }
}

/// A registry without the named entry is unchanged by `reg_put`.
proof fn lemma_reg_put_absent(r: Seq<ProviderEntryModel>, name: Seq<char>, info: ModuleInfoModel)
    requires
        forall|j: int| 0 <= j < r.len() ==> r[j].name != name,
    ensures
        reg_put(r, name, info) == r,
    decreases r.len(),
{
    if r.len() > 0 {
        assert(forall|j: int| 0 <= j < r.len() - 1 ==> r.drop_first()[j] == r[j + 1]);
        lemma_reg_put_absent(r.drop_first(), name, info);
        assert(reg_put(r, name, info) =~= r);
    }
}

/// `reg_put` of an unbound name changes nothing.
pub proof fn lemma_reg_put_noop(r: Seq<ProviderEntryModel>, name: Seq<char>, info: ModuleInfoModel)
    requires
        reg_get(r, name) is None,
    ensures
        reg_put(r, name, info) == r,
    decreases r.len(),
{
    if r.len() > 0 {
        lemma_reg_put_noop(r.drop_first(), name, info);
        assert(reg_put(r, name, info) =~= r);
    }
}

/// The provider registry: for each declared provider, its fields and the
/// module scope it was most recently referenced under.
pub struct Registry {
    pub entries: Vec<ProviderEntry>,
}

impl View for Registry {
    type V = Seq<ProviderEntryModel>;

    open spec fn view(&self) -> Seq<ProviderEntryModel> {
        self.entries.deep_view()
    }
}

impl Registry {
    /// An empty registry.
    pub fn new() -> (r: Registry)
        ensures
            r@ == Seq::<ProviderEntryModel>::empty(),
    {
        let r = Registry { entries: Vec::new() };
        proof {
            assert(r@ =~= Seq::<ProviderEntryModel>::empty());
        }
        r
    }

    /// The position of the first entry named `name`, if any.
    fn index_of(&self, name: &str) -> (r: Option<usize>)
        ensures
            match r {
                Some(i) => i < self@.len() && self@[i as int].name == name@ && (forall|j: int|
                    0 <= j < i ==> self@[j].name != name@),
                None => forall|j: int| 0 <= j < self@.len() ==> self@[j].name != name@,
            },
    {
        proof {
            broadcast use lemma_vec_deep_view;

        }
        let mut i: usize = 0;
        while i < self.entries.len()
            invariant
                i <= self.entries.len(),
                self@.len() == self.entries.len(),
                self@ == deep_of(self.entries@),
                forall|j: int| 0 <= j < i ==> self@[j].name != name@,
            decreases self.entries.len() - i,
        {
            if str_eq(self.entries[i].name.as_str(), name) {
                return Some(i);
            }
            i = i + 1;
        }
        None
    }

    /// Insert or overwrite the binding of `name`: the given fields, with an
    /// empty module scope.  Every other binding is untouched.
    pub fn register(&mut self, name: String, fields: Vec<FieldDef>)
        ensures
            reg_get(final(self)@, name@) == Some(
                ModuleInfoModel { fields: fields.deep_view(), module_scope: Seq::empty() },
            ),
            forall|n: Seq<char>|
                n != name@ ==> reg_get(final(self)@, n) == reg_get(old(self)@, n),
    {
        let ghost c0 = self@;
        let info = ModuleInfo { fields, module_scope: String::new() };
        let idx = self.index_of(name.as_str());
        let entry = ProviderEntry { name, info };
        let ghost em = entry@;
        match idx {
            Some(i) => {
                self.entries.set(i, entry);
                proof {
                    broadcast use {lemma_vec_deep_view, lemma_deep_of_update};

                    assert(self@ == c0.update(i as int, em));
                    assert forall|n: Seq<char>| true implies reg_get(self@, n) == (if n == em.name {
                        Some(em.info)
                    } else {
                        reg_get(c0, n)
                    }) by {
                        lemma_reg_get_update(c0, i as int, em, n);
                    }
                }
            },
            None => {
                self.entries.push(entry);
                proof {
                    broadcast use {lemma_vec_deep_view, lemma_deep_of_push};

                    assert(self@ == c0.push(em));
                    assert forall|n: Seq<char>| true implies reg_get(self@, n) == (if n == em.name {
                        Some(em.info)
                    } else {
                        reg_get(c0, n)
                    }) by {
                        lemma_reg_get_push(c0, em, n);
                    }
                }
            },
        }
    }

    /// Look up the binding of `name`.
    pub fn get_info(&self, name: &str) -> (r: Option<&ModuleInfo>)
        ensures
            match r {
                Some(info) => reg_get(self@, name@) == Some(info@),
                None => reg_get(self@, name@) is None,
            },
    {
        match self.index_of(name) {
            Some(i) => {
                proof {
                    broadcast use lemma_vec_deep_view;

                    lemma_reg_get_at(self@, i as int);
                }
                Some(&self.entries[i].info)
            },
            None => {
                proof {
                    lemma_reg_get_absent(self@, name@);
                }
                None
            },
        }
    }

    /// Is `name` a registered provider?
    pub fn contains_provider(&self, name: &str) -> (r: bool)
        ensures
            r == (reg_get(self@, name@) is Some),
    {
        self.get_info(name).is_some()
    }

    /// Record that `name` was referenced from module `scope`: its binding
    /// keeps its fields and takes the new scope.  Returns whether `name`
    /// was bound at all; an unknown name leaves the registry unchanged.
    pub fn set_module_scope(&mut self, name: &str, scope: String) -> (ok: bool)
        ensures
            ok == (reg_get(old(self)@, name@) is Some),
            final(self)@ == reg_put(
                old(self)@,
                name@,
                ModuleInfoModel {
                    fields: reg_get(old(self)@, name@)->Some_0.fields,
                    module_scope: scope@,
                },
            ),
    {
        let ghost c0 = self@;
        match self.index_of(name) {
            Some(i) => {
                proof {
                    broadcast use lemma_vec_deep_view;

                    lemma_reg_get_at(c0, i as int);
                }
                let fields = clone_field_vec(&self.entries[i].info.fields);
                let entry = ProviderEntry {
                    name: name.to_owned(),
                    info: ModuleInfo { fields, module_scope: scope },
                };
                let ghost em = entry@;
                self.entries.set(i, entry);
                proof {
                    broadcast use {lemma_vec_deep_view, lemma_deep_of_update};

                    assert(self@ == c0.update(i as int, em));
                    lemma_reg_put_update(c0, i as int, em.name, em.info);
                }
                true
            },
            None => {
                proof {
                    lemma_reg_get_absent(c0, name@);
                    lemma_reg_put_absent(
                        c0,
                        name@,
                        ModuleInfoModel {
                            fields: reg_get(c0, name@)->Some_0.fields,
                            module_scope: scope@,
                        },
                    );
                }
                false
            },
        }
    }
}

/// Mathematical model of a [`ChainEntry`].
pub struct ChainEntryModel {
    pub name: Seq<char>,
    pub deps: Seq<Seq<char>>,
}

/// One chain binding: a record or provider name and the names it is known
/// to depend on, directly or transitively.
pub struct ChainEntry {
    pub name: String,
    pub deps: Vec<String>,
}

impl View for ChainEntry {
    type V = ChainEntryModel;

    open spec fn view(&self) -> ChainEntryModel {
        ChainEntryModel { name: self.name@, deps: self.deps.deep_view() }
    }
}

impl DeepView for ChainEntry {
    type V = ChainEntryModel;

    open spec fn deep_view(&self) -> ChainEntryModel {
        self.view()
    }
}

/// The first binding of `name` in a chain graph, if any.
pub open spec fn chain_get(c: Seq<ChainEntryModel>, name: Seq<char>) -> Option<Seq<Seq<char>>>
    decreases c.len(),
{
    if c.len() == 0 {
        None
    } else if c[0].name == name {
        Some(c[0].deps)
    } else {
        chain_get(c.drop_first(), name)
    }
}

/// The recorded dependencies of `name`: its binding, or nothing.
pub open spec fn chain_deps_of(c: Seq<ChainEntryModel>, name: Seq<char>) -> Seq<Seq<char>> {
    match chain_get(c, name) {
        Some(deps) => deps,
        None => Seq::empty(),
    }
}

/// The chain graph with `name` bound to `deps`: the first entry of that
/// name is replaced, or a new entry is appended.
pub open spec fn chain_put(c: Seq<ChainEntryModel>, name: Seq<char>, deps: Seq<Seq<char>>) -> Seq<
    ChainEntryModel,
>
    decreases c.len(),
{
    if c.len() == 0 {
        seq![ChainEntryModel { name, deps }]
    } else if c[0].name == name {
        seq![ChainEntryModel { name, deps }] + c.drop_first()
    } else {
        seq![c[0]] + chain_put(c.drop_first(), name, deps)
    }
}

/// `chain_put` rebinds exactly the named entry.
pub proof fn lemma_chain_get_put(
    c: Seq<ChainEntryModel>,
    name: Seq<char>,
    deps: Seq<Seq<char>>,
    n: Seq<char>,
)
    ensures
        chain_get(chain_put(c, name, deps), n) == (if n == name {
            Some(deps)
        } else {
            chain_get(c, n)
        }),
    decreases c.len(),
{
    let cp = chain_put(c, name, deps);
    if c.len() == 0 {
        assert(cp.drop_first() =~= Seq::<ChainEntryModel>::empty());
    } else if c[0].name == name {
        assert(cp.drop_first() =~= c.drop_first());
    } else {
        assert(cp[0] == c[0]);
        assert(cp.drop_first() =~= chain_put(c.drop_first(), name, deps));
        lemma_chain_get_put(c.drop_first(), name, deps, n);
    }
}

/// If position `i` holds the first entry named `c[i].name`, replacing it
/// in place realises `chain_put`.
proof fn lemma_chain_put_update(c: Seq<ChainEntryModel>, i: int, name: Seq<char>, deps: Seq<Seq<char>>)
    requires
        0 <= i < c.len(),
        c[i].name == name,
        forall|j: int| 0 <= j < i ==> c[j].name != name,
    ensures
        chain_put(c, name, deps) == c.update(i, ChainEntryModel { name, deps }),
    decreases i,
{
    if i == 0 {
        assert(chain_put(c, name, deps) =~= c.update(0, ChainEntryModel { name, deps }));
    } else {
        assert(forall|j: int| 0 <= j < i - 1 ==> c.drop_first()[j] == c[j + 1]);
        assert(c.drop_first()[i - 1] == c[i]);
        lemma_chain_put_update(c.drop_first(), i - 1, name, deps);
        assert(chain_put(c, name, deps) =~= c.update(i, ChainEntryModel { name, deps }));
    }
}

/// If no entry is named `name`, appending realises `chain_put`.
proof fn lemma_chain_put_push(c: Seq<ChainEntryModel>, name: Seq<char>, deps: Seq<Seq<char>>)
    requires
        forall|j: int| 0 <= j < c.len() ==> c[j].name != name,
    ensures
        chain_put(c, name, deps) == c.push(ChainEntryModel { name, deps }),
    decreases c.len(),
{
    if c.len() == 0 {
        assert(chain_put(c, name, deps) =~= c.push(ChainEntryModel { name, deps }));
    } else {
        assert(forall|j: int| 0 <= j < c.len() - 1 ==> c.drop_first()[j] == c[j + 1]);
        lemma_chain_put_push(c.drop_first(), name, deps);
        assert(chain_put(c, name, deps) =~= c.push(ChainEntryModel { name, deps }));
    }
}

/// The injection-chain graph: for each record or provider name, the set of
/// names it transitively depends on, grown one validated edge at a time and
/// used purely for cycle detection.
pub struct InjectionChains {
    pub entries: Vec<ChainEntry>,
}

impl View for InjectionChains {
    type V = Seq<ChainEntryModel>;

    open spec fn view(&self) -> Seq<ChainEntryModel> {
        self.entries.deep_view()
    }
}

impl InjectionChains {
    /// An empty chain graph.
    pub fn new() -> (r: InjectionChains)
        ensures
            r@ == Seq::<ChainEntryModel>::empty(),
    {
        let r = InjectionChains { entries: Vec::new() };
        proof {
            assert(r@ =~= Seq::<ChainEntryModel>::empty());
        }
        r
    }

    /// The position of the first entry named `name`, if any.
    fn index_of(&self, name: &str) -> (r: Option<usize>)
        ensures
            match r {
                Some(i) => i < self@.len() && self@[i as int].name == name@ && (forall|j: int|
                    0 <= j < i ==> self@[j].name != name@),
                None => forall|j: int| 0 <= j < self@.len() ==> self@[j].name != name@,
            },
    {
        proof {
            broadcast use lemma_vec_deep_view;

        }
        let mut i: usize = 0;
        while i < self.entries.len()
            invariant
                i <= self.entries.len(),
                self@.len() == self.entries.len(),
                self@ == deep_of(self.entries@),
                forall|j: int| 0 <= j < i ==> self@[j].name != name@,
            decreases self.entries.len() - i,
        {
            if str_eq(self.entries[i].name.as_str(), name) {
                return Some(i);
            }
            i = i + 1;
        }
        None
    }

    /// The recorded dependencies of `name`, if it has any.
    pub fn get_deps(&self, name: &str) -> (r: Option<&Vec<String>>)
        ensures
            match r {
                Some(deps) => chain_get(self@, name@) == Some(deps.deep_view()),
                None => chain_get(self@, name@) is None,
            },
    {
        match self.index_of(name) {
            Some(i) => {
                proof {
                    broadcast use lemma_vec_deep_view;

                    lemma_chain_get_at(self@, i as int);
                }
                Some(&self.entries[i].deps)
            },
            None => {
                proof {
                    lemma_chain_get_absent(self@, name@);
                }
                None
            },
        }
    }

    /// Bind `name` to `deps`, replacing its first entry or appending one.
    fn put(&mut self, name: &str, deps: Vec<String>)
        ensures
            final(self)@ == chain_put(old(self)@, name@, deps.deep_view()),
    {
        let ghost c0 = self@;
        let entry = ChainEntry { name: name.to_owned(), deps };
        let ghost em = entry@;
        match self.index_of(name) {
            Some(i) => {
                self.entries.set(i, entry);
                proof {
                    broadcast use {lemma_vec_deep_view, lemma_deep_of_update};

                    lemma_chain_put_update(c0, i as int, em.name, em.deps);
                }
            },
            None => {
                self.entries.push(entry);
                proof {
                    broadcast use {lemma_vec_deep_view, lemma_deep_of_push};

                    lemma_chain_put_push(c0, em.name, em.deps);
                }
            },
        }
    }
}

/// If position `i` holds the first entry named `c[i].name`, that entry is
/// the binding `chain_get` returns.
proof fn lemma_chain_get_at(c: Seq<ChainEntryModel>, i: int)
    requires
        0 <= i < c.len(),
        forall|j: int| 0 <= j < i ==> c[j].name != c[i].name,
    ensures
        chain_get(c, c[i].name) == Some(c[i].deps),
    decreases i,
{
    if i > 0 {
        assert(c.drop_first()[i - 1] == c[i]);
        assert(forall|j: int| 0 <= j < i - 1 ==> c.drop_first()[j] == c[j + 1]);
        lemma_chain_get_at(c.drop_first(), i - 1);
    }
}

/// A name bound at no position is not in the chain graph.
proof fn lemma_chain_get_absent(c: Seq<ChainEntryModel>, name: Seq<char>)
    requires
        forall|j: int| 0 <= j < c.len() ==> c[j].name != name,
    ensures
        chain_get(c, name) is None,
    decreases c.len(),
{
    if c.len() > 0 {
        assert(forall|j: int| 0 <= j < c.len() - 1 ==> c.drop_first()[j] == c[j + 1]);
        lemma_chain_get_absent(c.drop_first(), name);
    }
}

/// The diagnostic for a source that names the composing record itself.
pub open spec fn msg_recursive(source: Seq<char>) -> Seq<char> {
    "Recursive injection detected: "@ + source + " tries to inject from itself"@
}

/// The diagnostic for an edge that would close a dependency cycle.
pub open spec fn msg_circular(target: Seq<char>, source: Seq<char>) -> Seq<char> {
    "Circular injection chain detected: "@ + target + " already depends on "@ + source
}

/// A source together with its recorded transitive dependencies: everything
/// the target would come to depend on through this source.
pub open spec fn spec_source_closure(c: Seq<ChainEntryModel>, source: Seq<char>) -> Seq<Seq<char>> {
    seq![source] + chain_deps_of(c, source)
}

/// Would recording the edge `target -> source` close a cycle: is anything
/// the source brings along already among the target's dependencies, or the
/// target itself?
pub open spec fn spec_creates_cycle(
    c: Seq<ChainEntryModel>,
    target: Seq<char>,
    source: Seq<char>,
) -> bool {
    exists|k: int|
        0 <= k < spec_source_closure(c, source).len() && {
            let d = #[trigger] spec_source_closure(c, source)[k];
            chain_deps_of(c, target).contains(d) || d == target
        }
}

/// `base` with `x` appended unless already present.
pub open spec fn push_absent(base: Seq<Seq<char>>, x: Seq<char>) -> Seq<Seq<char>> {
    if base.contains(x) {
        base
    } else {
        base.push(x)
    }
}

/// `base` with every element of `add` appended in order, skipping those
/// already present.
pub open spec fn append_absent(base: Seq<Seq<char>>, add: Seq<Seq<char>>) -> Seq<Seq<char>>
    decreases add.len(),
{
    if add.len() == 0 {
        base
    } else {
        append_absent(push_absent(base, add[0]), add.drop_first())
    }
}

/// What validating the edge `target -> source` does to the chain graph: a
/// self-reference or a cycle is refused with its diagnostic and the graph
/// kept; otherwise the target's dependency set absorbs the source and the
/// source's own recorded dependencies.
pub open spec fn spec_chain_step(
    c: Seq<ChainEntryModel>,
    target: Seq<char>,
    source: Seq<char>,
) -> Result<Seq<ChainEntryModel>, Seq<char>> {
    if target == source {
        Err(msg_recursive(source))
    } else if spec_creates_cycle(c, target, source) {
        Err(msg_circular(target, source))
    } else {
        Ok(
            chain_put(
                c,
                target,
                append_absent(chain_deps_of(c, target), spec_source_closure(c, source)),
            ),
        )
    }
}

/// Validate the edge `target -> source` and, if it closes no cycle, record
/// it: the target's dependency set absorbs the source together with the
/// source's recorded dependencies.  A source equal to the target is a
/// self-reference and is refused; an edge that would make the target depend
/// on itself through the source is refused as circular.  A refused edge
/// leaves the chain graph unchanged.
pub fn check_and_update_injection_chain(
    chains: &mut InjectionChains,
    target: &str,
    source: &str,
) -> (r: Result<(), String>)
    ensures
        ({
            let step = spec_chain_step(old(chains)@, target@, source@);
            let c1 = final(chains)@;
            match r {
                Ok(_) => step == Result::<Seq<ChainEntryModel>, Seq<char>>::Ok(c1),
                Err(m) => step == Result::<Seq<ChainEntryModel>, Seq<char>>::Err(m@) && c1 == old(
                    chains,
                )@,
            }
        }),
{
    let ghost c0 = chains@;
    if str_eq(target, source) {
        let mut m = "Recursive injection detected: ".to_owned();
        m.append(source);
        m.append(" tries to inject from itself");
        return Err(m);
    }
    // The target's recorded dependencies.
    let target_deps: Vec<String> = match chains.get_deps(target) {
        Some(d) => clone_string_vec(d),
        None => Vec::new(),
    };
    proof {
        broadcast use lemma_vec_deep_view;

        assert(target_deps.deep_view() =~= chain_deps_of(c0, target@));
    }
    // The source and everything it is recorded to depend on.
    let mut source_all: Vec<String> = Vec::new();
    source_all.push(source.to_owned());
    proof {
        broadcast use {lemma_vec_deep_view, lemma_deep_of_push};

        assert(source_all.deep_view() =~= seq![source@]);
    }
    match chains.get_deps(source) {
        Some(deps) => {
            let mut j: usize = 0;
            proof {
                assert(source_all.deep_view() =~= seq![source@] + deps.deep_view().take(0));
            }
            while j < deps.len()
                invariant
                    j <= deps.len(),
                    deps.deep_view().len() == deps.len(),
                    source_all.deep_view() == seq![source@] + deps.deep_view().take(j as int),
                decreases deps.len() - j,
            {
                source_all.push(deps[j].clone());
                proof {
                    broadcast use {lemma_vec_deep_view, lemma_deep_of_push};

                    assert(source_all.deep_view() =~= seq![source@] + deps.deep_view().take(
                        j + 1,
                    ));
                }
                j = j + 1;
            }
            proof {
                assert(deps.deep_view().take(deps.len() as int) =~= deps.deep_view());
            }
        },
        None => {
            proof {
                assert(source_all.deep_view() =~= seq![source@] + Seq::<Seq<char>>::empty());
            }
        },
    }
    proof {
        assert(source_all.deep_view() == spec_source_closure(c0, source@));
    }
    // Refuse the edge if anything the source brings along is already among
    // the target's dependencies, or is the target itself.
    let mut k: usize = 0;
    while k < source_all.len()
        invariant
            k <= source_all.len(),
            source_all.deep_view().len() == source_all.len(),
            source_all.deep_view() == spec_source_closure(c0, source@),
            target_deps.deep_view() == chain_deps_of(c0, target@),
            chains@ == c0,
            target@ != source@,
            forall|j: int|
                0 <= j < k ==> !(chain_deps_of(c0, target@).contains(
                    #[trigger] source_all.deep_view()[j],
                ) || source_all.deep_view()[j] == target@),
        decreases source_all.len() - k,
    {
        let hit = vec_contains_str(&target_deps, source_all[k].as_str()) || str_eq(
            source_all[k].as_str(),
            target,
        );
        if hit {
            proof {
                broadcast use lemma_vec_deep_view;

                let d = source_all.deep_view()[k as int];
                assert(chain_deps_of(c0, target@).contains(d) || d == target@);
                assert(spec_source_closure(c0, source@)[k as int] == d);
                assert(spec_creates_cycle(c0, target@, source@));
            }
            let mut m = "Circular injection chain detected: ".to_owned();
            m.append(target);
            m.append(" already depends on ");
            m.append(source);
            return Err(m);
        }
        k = k + 1;
    }
    proof {
        assert(!spec_creates_cycle(c0, target@, source@));
    }
    // Record the edge: absorb the closure into the target's dependencies.
    let mut merged = target_deps;
    let ghost goal = append_absent(chain_deps_of(c0, target@), spec_source_closure(c0, source@));
    proof {
        assert(source_all.deep_view().skip(0) =~= source_all.deep_view());
    }
    let mut k2: usize = 0;
    while k2 < source_all.len()
        invariant
            k2 <= source_all.len(),
            source_all.deep_view().len() == source_all.len(),
            chains@ == c0,
            append_absent(merged.deep_view(), source_all.deep_view().skip(k2 as int)) == goal,
        decreases source_all.len() - k2,
    {
        let ghost pre = merged.deep_view();
        let ghost restk = source_all.deep_view().skip(k2 as int);
        if !vec_contains_str(&merged, source_all[k2].as_str()) {
            merged.push(source_all[k2].clone());
            proof {
                broadcast use {lemma_vec_deep_view, lemma_deep_of_push};

                assert(merged.deep_view() =~= pre.push(source_all.deep_view()[k2 as int]));
            }
        }
        proof {
            assert(restk[0] == source_all.deep_view()[k2 as int]);
            assert(restk.drop_first() =~= source_all.deep_view().skip(k2 + 1));
            assert(merged.deep_view() == push_absent(pre, restk[0]));
            assert(append_absent(pre, restk) == append_absent(
                push_absent(pre, restk[0]),
                restk.drop_first(),
            ));
        }
        k2 = k2 + 1;
    }
    proof {
        assert(source_all.deep_view().skip(source_all.len() as int) =~= Seq::<Seq<char>>::empty());
    }
    chains.put(target, merged);
    Ok(())
}

/// Every name any dependency list of the chain graph mentions.
pub open spec fn dep_members(c: Seq<ChainEntryModel>) -> Set<Seq<char>>
    decreases c.len(),
{
    if c.len() == 0 {
        Set::empty()
    } else {
        c[0].deps.to_set().union(dep_members(c.drop_first()))
    }
}

proof fn lemma_dep_members_finite(c: Seq<ChainEntryModel>)
    ensures
        dep_members(c).finite(),
    decreases c.len(),
{
    broadcast use vstd::seq_lib::seq_to_set_is_finite;

    if c.len() > 0 {
        lemma_dep_members_finite(c.drop_first());
    }
}

proof fn lemma_chain_deps_in_members(c: Seq<ChainEntryModel>, n: Seq<char>)
    ensures
        chain_deps_of(c, n).to_set().subset_of(dep_members(c)),
    decreases c.len(),
{
    if c.len() == 0 {
    } else if c[0].name == n {
    } else {
        lemma_chain_deps_in_members(c.drop_first(), n);
    }
}

/// The names a breadth-first traversal may still have to look at.
pub open spec fn bfs_universe(c: Seq<ChainEntryModel>, queue: Seq<Seq<char>>) -> Set<Seq<char>> {
    dep_members(c).union(queue.to_set())
}

/// How many reachable names the traversal has not visited yet; together
/// with the queue length this bounds the traversal.
pub open spec fn bfs_measure(
    c: Seq<ChainEntryModel>,
    queue: Seq<Seq<char>>,
    visited: Seq<Seq<char>>,
) -> nat {
    bfs_universe(c, queue).difference(visited.to_set()).len()
}

/// The names not yet visited: the predicate under which newly discovered
/// dependencies are enqueued.
pub open spec fn not_seen(visited: Seq<Seq<char>>) -> spec_fn(Seq<char>) -> bool {
    |d: Seq<char>| !visited.contains(d)
}

proof fn lemma_bfs_measure_skip(c: Seq<ChainEntryModel>, queue: Seq<Seq<char>>, visited: Seq<Seq<char>>)
    requires
        queue.len() > 0,
    ensures
        bfs_measure(c, queue.drop_first(), visited) <= bfs_measure(c, queue, visited),
{
    broadcast use {vstd::seq_lib::seq_to_set_is_finite, vstd::set::group_set_axioms};

    lemma_dep_members_finite(c);
    let dv0 = bfs_universe(c, queue).difference(visited.to_set());
    let dv1 = bfs_universe(c, queue.drop_first()).difference(visited.to_set());
    assert forall|x: Seq<char>| dv1.contains(x) implies dv0.contains(x) by {
        if queue.drop_first().to_set().contains(x) {
            let i = choose|i: int|
                0 <= i < queue.drop_first().len() && queue.drop_first()[i] == x;
            assert(queue[i + 1] == x);
            assert(queue.to_set().contains(x));
        }
    }
    vstd::set_lib::lemma_len_subset(dv1, dv0);
}

proof fn lemma_bfs_measure_visit(c: Seq<ChainEntryModel>, queue: Seq<Seq<char>>, visited: Seq<Seq<char>>)
    requires
        queue.len() > 0,
        !visited.contains(queue[0]),
    ensures
        bfs_measure(
            c,
            queue.drop_first() + chain_deps_of(c, queue[0]).filter(
                not_seen(visited.push(queue[0])),
            ),
            visited.push(queue[0]),
        ) < bfs_measure(c, queue, visited),
{
    broadcast use {
        vstd::seq_lib::seq_to_set_is_finite,
        vstd::set::group_set_axioms,
        Seq::lemma_filter_contains_rev,
    };

    lemma_dep_members_finite(c);
    lemma_chain_deps_in_members(c, queue[0]);
    let cur = queue[0];
    let v2 = visited.push(cur);
    let q2 = queue.drop_first() + chain_deps_of(c, cur).filter(not_seen(v2));
    let dv0 = bfs_universe(c, queue).difference(visited.to_set());
    let dv2 = bfs_universe(c, q2).difference(v2.to_set());
    // The current name was reachable and unvisited.
    assert(queue.to_set().contains(cur));
    assert(dv0.contains(cur));
    // Every element of v2 is either in visited or is the current name.
    assert forall|x: Seq<char>| visited.contains(x) implies v2.contains(x) by {
        let i = choose|i: int| 0 <= i < visited.len() && visited[i] == x;
        assert(v2[i] == x);
    }
    // After the step, everything still unvisited was unvisited before and
    // is not the current name.
    assert forall|x: Seq<char>| dv2.contains(x) implies dv0.remove(cur).contains(x) by {
        assert(!v2.contains(x)) by {
            if v2.to_set().contains(x) {
            }
        }
        assert(x != cur) by {
            assert(v2[v2.len() - 1] == cur);
        }
        assert(!visited.to_set().contains(x));
        if q2.to_set().contains(x) {
            let i = choose|i: int| 0 <= i < q2.len() && q2[i] == x;
            if i < queue.drop_first().len() {
                assert(queue[i + 1] == x);
                assert(queue.to_set().contains(x));
            } else {
                let fseq = chain_deps_of(c, cur).filter(not_seen(v2));
                assert(fseq[i - queue.drop_first().len()] == x);
                assert(fseq.contains(x));
                assert(chain_deps_of(c, cur).contains(x));
                assert(chain_deps_of(c, cur).to_set().contains(x));
                assert(dep_members(c).contains(x));
            }
        }
    }
    vstd::set_lib::lemma_len_subset(dv2, dv0.remove(cur));
    assert(dv0.remove(cur).len() == dv0.len() - 1);
}

/// The order in which a breadth-first traversal of the chain graph visits
/// names: pop the head of the queue, skip it if already visited, otherwise
/// visit it and enqueue its not-yet-visited recorded dependencies.
pub open spec fn bfs_order(
    c: Seq<ChainEntryModel>,
    queue: Seq<Seq<char>>,
    visited: Seq<Seq<char>>,
) -> Seq<Seq<char>>
    decreases bfs_measure(c, queue, visited), queue.len(),
    via bfs_order_decreases
{
    if queue.len() == 0 {
        visited
    } else {
        let cur = queue[0];
        if visited.contains(cur) {
            bfs_order(c, queue.drop_first(), visited)
        } else {
            let v2 = visited.push(cur);
            bfs_order(c, queue.drop_first() + chain_deps_of(c, cur).filter(not_seen(v2)), v2)
        }
    }
}

#[via_fn]
proof fn bfs_order_decreases(c: Seq<ChainEntryModel>, queue: Seq<Seq<char>>, visited: Seq<Seq<char>>) {
    if queue.len() > 0 {
        if visited.contains(queue[0]) {
            lemma_bfs_measure_skip(c, queue, visited);
        } else {
            lemma_bfs_measure_visit(c, queue, visited);
        }
    }
}

/// The fields contributed by the providers of `order`, in that order; a
/// name without a registry binding contributes nothing.
pub open spec fn fields_of_order(
    reg: Seq<ProviderEntryModel>,
    order: Seq<Seq<char>>,
) -> Seq<FieldDefModel>
    decreases order.len(),
{
    if order.len() == 0 {
        Seq::empty()
    } else {
        (match reg_get(reg, order[0]) {
            Some(info) => info.fields,
            None => Seq::empty(),
        }) + fields_of_order(reg, order.drop_first())
    }
}

/// Visiting one more name appends exactly that name's fields.
proof fn lemma_fields_of_order_push(
    reg: Seq<ProviderEntryModel>,
    order: Seq<Seq<char>>,
    x: Seq<char>,
)
    ensures
        fields_of_order(reg, order.push(x)) == fields_of_order(reg, order) + (match reg_get(
            reg,
            x,
        ) {
            Some(info) => info.fields,
            None => Seq::<FieldDefModel>::empty(),
        }),
    decreases order.len(),
{
    let fx = match reg_get(reg, x) {
        Some(info) => info.fields,
        None => Seq::<FieldDefModel>::empty(),
    };
    if order.len() == 0 {
        assert(order.push(x)[0] == x);
        assert(order.push(x).drop_first() =~= Seq::<Seq<char>>::empty());
        assert(fields_of_order(reg, Seq::<Seq<char>>::empty()) == Seq::<FieldDefModel>::empty());
        assert(fields_of_order(reg, order.push(x)) == fx + fields_of_order(
            reg,
            order.push(x).drop_first(),
        ));
        assert(fx + Seq::<FieldDefModel>::empty() =~= fx);
        assert(fields_of_order(reg, order) + fx =~= fx);
    } else {
        assert(order.push(x)[0] == order[0]);
        assert(order.push(x).drop_first() =~= order.drop_first().push(x));
        lemma_fields_of_order_push(reg, order.drop_first(), x);
        let head = match reg_get(reg, order[0]) {
            Some(info) => info.fields,
            None => Seq::<FieldDefModel>::empty(),
        };
        assert(fields_of_order(reg, order.push(x)) == head + fields_of_order(
            reg,
            order.drop_first().push(x),
        ));
        assert(fields_of_order(reg, order) == head + fields_of_order(reg, order.drop_first()));
        assert(head + (fields_of_order(reg, order.drop_first()) + fx) =~= (head
            + fields_of_order(reg, order.drop_first())) + fx);
    }
}

/// Everything `collect_fields` returns: the fields of every provider the
/// breadth-first traversal from `start` visits, in visit order.
pub open spec fn spec_collected_fields(
    reg: Seq<ProviderEntryModel>,
    c: Seq<ChainEntryModel>,
    start: Seq<char>,
) -> Seq<FieldDefModel> {
    fields_of_order(reg, bfs_order(c, seq![start], Seq::empty()))
}

/// Collect the fields of `start_struct` and of every provider it
/// transitively depends on, by a breadth-first traversal of the chain
/// graph, visiting each provider at most once and keeping the fields in
/// visit order.  Duplicates by name are possible here; merging resolves
/// them later.
pub fn collect_fields(start_struct: &str, registry: &Registry, chains: &InjectionChains) -> (r:
    Result<Vec<FieldDef>, String>)
    ensures
        r is Ok,
        r->Ok_0.deep_view() == spec_collected_fields(registry@, chains@, start_struct@),
{
    let mut all_fields: Vec<FieldDef> = Vec::new();
    let mut visited: Vec<String> = Vec::new();
    let mut queue: Vec<String> = Vec::new();
    queue.push(start_struct.to_owned());
    proof {
        broadcast use {lemma_vec_deep_view, lemma_deep_of_push};

        assert(queue.deep_view() =~= seq![start_struct@]);
        assert(visited.deep_view() =~= Seq::<Seq<char>>::empty());
        assert(all_fields.deep_view() =~= Seq::<FieldDefModel>::empty());
    }
    let ghost goal = bfs_order(chains@, seq![start_struct@], Seq::empty());
    while queue.len() > 0
        invariant
            queue.deep_view().len() == queue.len(),
            visited.deep_view().len() == visited.len(),
            bfs_order(chains@, queue.deep_view(), visited.deep_view()) == goal,
            all_fields.deep_view() == fields_of_order(registry@, visited.deep_view()),
        decreases bfs_measure(chains@, queue.deep_view(), visited.deep_view()), queue.len(),
    {
        let ghost q0 = queue.deep_view();
        let ghost v0 = visited.deep_view();
        let current = queue.remove(0);
        proof {
            broadcast use {lemma_vec_deep_view, lemma_deep_of_remove_first};

            assert(current@ == q0[0]);
            assert(queue.deep_view() == q0.drop_first());
        }
        if !vec_contains_str(&visited, current.as_str()) {
            visited.push(current.clone());
            proof {
                broadcast use {lemma_vec_deep_view, lemma_deep_of_push};

                assert(visited.deep_view() == v0.push(q0[0]));
            }
            let ghost v2 = visited.deep_view();
            match registry.get_info(current.as_str()) {
                Some(info) => {
                    let ghost f0 = all_fields.deep_view();
                    proof {
                        assert(all_fields.deep_view() =~= f0 + info@.fields.take(0));
                    }
                    let mut t: usize = 0;
                    while t < info.fields.len()
                        invariant
                            t <= info.fields.len(),
                            info@.fields.len() == info.fields.len(),
                            all_fields.deep_view() == f0 + info@.fields.take(t as int),
                        decreases info.fields.len() - t,
                    {
                        all_fields.push(info.fields[t].clone());
                        proof {
                            broadcast use {lemma_vec_deep_view, lemma_deep_of_push};

                            assert(all_fields.deep_view() =~= f0 + info@.fields.take(t + 1));
                        }
                        t = t + 1;
                    }
                    proof {
                        assert(info@.fields.take(info.fields.len() as int) =~= info@.fields);
                        lemma_fields_of_order_push(registry@, v0, q0[0]);
                    }
                },
                None => {
                    proof {
                        lemma_fields_of_order_push(registry@, v0, q0[0]);
                        assert(all_fields.deep_view() =~= fields_of_order(registry@, v0)
                            + Seq::<FieldDefModel>::empty());
                    }
                },
            }
            let ghost qmid = queue.deep_view();
            match chains.get_deps(current.as_str()) {
                Some(deps) => {
                    proof {
                        assert(deps.deep_view() == chain_deps_of(chains@, q0[0]));
                        assert(queue.deep_view() =~= qmid + deps.deep_view().take(0).filter(
                            not_seen(v2),
                        )) by {
                            broadcast use Seq::lemma_filter_len;

                            assert(deps.deep_view().take(0) =~= Seq::<Seq<char>>::empty());
                            assert(deps.deep_view().take(0).filter(not_seen(v2)).len() == 0);
                        }
                    }
                    let mut j: usize = 0;
                    while j < deps.len()
                        invariant
                            j <= deps.len(),
                            deps.deep_view().len() == deps.len(),
                            visited.deep_view() == v2,
                            queue.deep_view() == qmid + deps.deep_view().take(j as int).filter(
                                not_seen(v2),
                            ),
                        decreases deps.len() - j,
                    {
                        let ghost qpre = queue.deep_view();
                        let ghost d = deps.deep_view()[j as int];
                        let absent = !vec_contains_str(&visited, deps[j].as_str());
                        if absent {
                            queue.push(deps[j].clone());
                        }
                        proof {
                            broadcast use {
                                lemma_vec_deep_view,
                                lemma_deep_of_push,
                                Seq::lemma_filter_push,
                            };

                            assert(deps.deep_view().take(j + 1) =~= deps.deep_view().take(
                                j as int,
                            ).push(d));
                            if absent {
                                assert(not_seen(v2)(d));
                                assert(queue.deep_view() =~= qpre.push(d));
                            } else {
                                assert(!not_seen(v2)(d));
                            }
                            assert(queue.deep_view() =~= qmid + deps.deep_view().take(j + 1)
                                .filter(not_seen(v2)));
                        }
                        j = j + 1;
                    }
                    proof {
                        assert(deps.deep_view().take(deps.len() as int) =~= deps.deep_view());
                    }
                },
                None => {
                    proof {
                        broadcast use Seq::lemma_filter_len;

                        assert(chain_deps_of(chains@, q0[0]) =~= Seq::<Seq<char>>::empty());
                        assert(chain_deps_of(chains@, q0[0]).filter(not_seen(v2)).len() == 0);
                        assert(queue.deep_view() =~= qmid + chain_deps_of(chains@, q0[0]).filter(
                            not_seen(v2),
                        ));
                    }
                },
            }
            proof {
                assert(queue.deep_view() == q0.drop_first() + chain_deps_of(chains@, q0[0])
                    .filter(not_seen(v0.push(q0[0]))));
                assert(bfs_order(chains@, q0, v0) == bfs_order(
                    chains@,
                    queue.deep_view(),
                    visited.deep_view(),
                ));
                lemma_bfs_measure_visit(chains@, q0, v0);
            }
        } else {
            proof {
                assert(v0.contains(q0[0]));
                assert(bfs_order(chains@, q0, v0) == bfs_order(chains@, q0.drop_first(), v0));
                lemma_bfs_measure_skip(chains@, q0, v0);
            }
        }
    }
    proof {
        assert(queue.deep_view() =~= Seq::<Seq<char>>::empty());
        assert(bfs_order(chains@, queue.deep_view(), visited.deep_view()) == visited.deep_view());
    }
    Ok(all_fields)
}

/// The module path a type path places its type in: every segment except
/// the final type name, joined by `::`.
pub open spec fn spec_type_scope(segments: Seq<Seq<char>>) -> Seq<char> {
    if segments.len() == 0 {
        Seq::empty()
    } else {
        spec_joined_path(segments.drop_last())
    }
}

/// Extract the module path from a type path given as its segments: all
/// segments but the last, joined by `::`.
pub fn get_path_from_type(segments: &Vec<String>) -> (r: String)
    ensures
        r@ == spec_type_scope(segments.deep_view()),
{
    if segments.len() == 0 {
        String::new()
    } else {
        let r = joined_path_upto(segments, segments.len() - 1);
        proof {
            assert(segments.deep_view().take(segments.len() - 1) =~= segments.deep_view()
                .drop_last());
        }
        r
    }
}

} // verus!
