//! Apollo Federation: entities declared by `graphql.entity`, the directives
//! they put on object types, and the dispatch of `_entities` representations.
use vstd::prelude::*;
use vstd::string::StringExecFns;
use crate::descriptor::DescriptorSet;
use crate::error::Error;
use crate::registry::{dirs_view, message_type_name, Directive, ObjectDef, TypeRegistry};
use crate::text::{split_words, str_eq, words};
use crate::value::{clone_entries, gv, gv_obj, lemma_gv_obj, GVal, GqlValue};
use crate::grpc_client::GrpcClientPool;

verus! {

/// A federated entity: the message it comes from, its key field sets (a
/// composite key has several fields), and how this service treats it.
pub struct EntityConfig {
    pub message: usize,
    pub keys: Vec<Vec<String>>,
    pub extend: bool,
    pub resolvable: bool,
    pub typename: String,
}

/// The entities of a descriptor set, in message order.
pub struct FederationConfig {
    pub entities: Vec<EntityConfig>,
}

/// The key field sets of a list of key strings: each split at whitespace.
pub open spec fn keys_ok(keys: Seq<Vec<String>>, raw: Seq<String>) -> bool {
    &&& keys.len() == raw.len()
    &&& forall|i: int| 0 <= i < keys.len() ==> {
        &&& (#[trigger] keys[i])@.len() == words(raw[i]@).len()
        &&& forall|j: int| 0 <= j < keys[i]@.len() ==> #[trigger] keys[i]@[j]@ == words(raw[i]@)[j]
    }
}

/// Message `m` declares an entity: `graphql.entity` with at least one key.
pub open spec fn declares_entity(d: DescriptorSet, m: int) -> bool {
    d.messages@[m].entity is Some && d.messages@[m].entity->0.keys@.len() > 0
}

/// `ec` is the entity that message `m` declares.
pub open spec fn entity_ok(d: DescriptorSet, m: int, ec: EntityConfig) -> bool {
    let opts = d.messages@[m].entity->0;
    &&& ec.message == m
    &&& ec.typename@ == message_type_name(d, m)
    &&& keys_ok(ec.keys@, opts.keys@)
    &&& ec.extend == opts.extend
    &&& ec.resolvable == opts.resolvable
}

/// The messages among the first `n` that declare entities, in order.
pub open spec fn entity_messages(d: DescriptorSet, n: nat) -> Seq<int>
    decreases n,
{
    if n == 0 || n > d.messages@.len() {
        seq![]
    } else if declares_entity(d, n - 1) {
        entity_messages(d, (n - 1) as nat).push(n - 1)
    } else {
        entity_messages(d, (n - 1) as nat)
    }
}

/// `sep` between consecutive words.
pub open spec fn join(ws: Seq<Seq<char>>, sep: Seq<char>) -> Seq<char>
    decreases ws.len(),
{
    if ws.len() == 0 {
        seq![]
    } else if ws.len() == 1 {
        ws[0]
    } else {
        join(ws.drop_last(), sep) + sep + ws.last()
    }
}

pub open spec fn strings_view(v: Seq<String>) -> Seq<Seq<char>> {
    v.map_values(|s: String| s@)
}

/// The `fields` argument of `@key` for a key field set.
pub open spec fn key_fields_text(key: Vec<String>) -> Seq<char> {
    join(strings_view(key@), " "@)
}

/// Joins words with single spaces.
pub fn join_fields(ws: &Vec<String>) -> (r: String)
    ensures
        r@ == join(strings_view(ws@), " "@),
{
    let mut out = String::new();
    let mut i: usize = 0;
    while i < ws.len()
        invariant
            i <= ws@.len(),
            out@ == join(strings_view(ws@.subrange(0, i as int)), " "@),
        decreases ws@.len() - i,
    {
        let ghost pre = strings_view(ws@.subrange(0, i as int));
        let ghost nxt = strings_view(ws@.subrange(0, i + 1));
        assert(nxt.drop_last() =~= pre);
        if i > 0 {
            out.append(" ");
        }
        out.append(ws[i].as_str());
        proof {
            if i == 0 {
                assert(nxt =~= seq![ws@[0]@]);
            }
        }
        i = i + 1;
    }
    assert(ws@.subrange(0, i as int) =~= ws@);
    out
}

impl FederationConfig {
    /// No entities.
    pub fn new() -> (r: FederationConfig)
        ensures
            r.entities@.len() == 0,
    {
        FederationConfig { entities: Vec::new() }
    }

    /// The entities that the messages of `d` declare, in message order.
    pub fn from_descriptor_pool(d: &DescriptorSet) -> (r: FederationConfig)
        ensures
            r.entities@.len() == entity_messages(*d, d.messages@.len() as nat).len(),
            forall|i: int| 0 <= i < r.entities@.len() ==> entity_ok(*d, entity_messages(*d, d.messages@.len() as nat)[i], #[trigger] r.entities@[i]),
    {
        let mut entities: Vec<EntityConfig> = Vec::new();
        let mut m: usize = 0;
        while m < d.messages.len()
            invariant
                m <= d.messages@.len(),
                entities@.len() == entity_messages(*d, m as nat).len(),
                forall|i: int| 0 <= i < entities@.len() ==> entity_ok(*d, entity_messages(*d, m as nat)[i], #[trigger] entities@[i]),
            decreases d.messages@.len() - m,
        {
            if let Some(opts) = &d.messages[m].entity {
                if opts.keys.len() > 0 {
                    let mut keys: Vec<Vec<String>> = Vec::new();
                    let mut k: usize = 0;
                    while k < opts.keys.len()
                        invariant
                            k <= opts.keys@.len(),
                            keys@.len() == k,
                            forall|i: int| 0 <= i < k ==> {
                                &&& (#[trigger] keys@[i])@.len() == words(opts.keys@[i]@).len()
                                &&& forall|j: int| 0 <= j < keys@[i]@.len() ==> #[trigger] keys@[i]@[j]@ == words(opts.keys@[i]@)[j]
                            },
                        decreases opts.keys@.len() - k,
                    {
                        keys.push(split_words(opts.keys[k].as_str()));
                        k = k + 1;
                    }
                    let typename = TypeRegistry::type_name_for_message(d, m);
                    let ec = EntityConfig {
                        message: m,
                        keys,
                        extend: opts.extend,
                        resolvable: opts.resolvable,
                        typename,
                    };
                    entities.push(ec);
                }
            }
            proof {
                let pre = entity_messages(*d, m as nat);
                let nxt = entity_messages(*d, (m + 1) as nat);
                if declares_entity(*d, m as int) {
                    assert(nxt == pre.push(m as int));
                } else {
                    assert(nxt == pre);
                }
            }
            m = m + 1;
        }
        FederationConfig { entities }
    }

    /// Federation is in use when some entity is declared.
    pub fn is_enabled(&self) -> (r: bool)
        ensures
            r == (self.entities@.len() > 0),
    {
        self.entities.len() > 0
    }

    /// The entity declared under `typename`; the last declaration wins.
    pub fn get(&self, typename: &str) -> (r: Option<usize>)
        ensures
            match r {
                Some(i) => i < self.entities@.len() && self.entities@[i as int].typename@ == typename@
                    && forall|j: int| i < j < self.entities@.len() ==> #[trigger] self.entities@[j].typename@ != typename@,
                None => forall|j: int| 0 <= j < self.entities@.len() ==> #[trigger] self.entities@[j].typename@ != typename@,
            },
    {
        let mut i: usize = self.entities.len();
        while i > 0
            invariant
                i <= self.entities@.len(),
                forall|j: int| i <= j < self.entities@.len() ==> #[trigger] self.entities@[j].typename@ != typename@,
            decreases i,
        {
            if str_eq(self.entities[i - 1].typename.as_str(), typename) {
                return Some(i - 1);
            }
            i = i - 1;
        }
        None
    }

    /// Puts the federation directives of the entity named `typename` on
    /// `obj`: one `@key(fields:)` per key field set, marked unresolvable when
    /// this service does not resolve the entity, and `@extends` when it
    /// extends an entity of another service. Other objects are unchanged.
    pub fn apply_directives_to_object(&self, obj: ObjectDef, typename: &str) -> (r: ObjectDef)
        ensures
            self.applied(obj, typename@, r),
    {
        match self.get(typename) {
            None => obj,
            Some(i) => {
                let ec = &self.entities[i];
                let mut o = obj;
                let ghost k0 = o.keys@;
                let ghost d0 = dirs_view(o.directives@);
                let mut k: usize = 0;
                while k < ec.keys.len()
                    invariant
                        k <= ec.keys@.len(),
                        o.name == obj.name,
                        o.fields == obj.fields,
                        o.extends == obj.extends,
                        k0 == obj.keys@,
                        d0 == dirs_view(obj.directives@),
                        o.keys@.len() == k0.len() + k,
                        o.keys@.subrange(0, k0.len() as int) == k0,
                        forall|j: int| 0 <= j < k ==> (#[trigger] o.keys@[k0.len() + j]).0@ == key_fields_text(ec.keys@[j])
                            && o.keys@[k0.len() + j].1 == ec.resolvable,
                        dirs_view(o.directives@) == d0 + key_directives(ec.keys@.subrange(0, k as int)),
                    decreases ec.keys@.len() - k,
                {
                    let fields = join_fields(&ec.keys[k]);
                    let ghost kpre = o.keys@;
                    o.keys.push((fields.clone(), ec.resolvable));
                    proof {
                        assert(o.keys@.subrange(0, k0.len() as int) =~= kpre.subrange(0, k0.len() as int));
                    }
                    let mut args: Vec<(String, String)> = Vec::new();
                    args.push((String::from_str("fields"), fields));
                    let ghost dpre = o.directives@;
                    o.directives.push(Directive { name: String::from_str("key"), args });
                    proof {
                        let kd = key_directives(ec.keys@.subrange(0, k + 1));
                        assert(ec.keys@.subrange(0, k + 1).drop_last() =~= ec.keys@.subrange(0, k as int));
                        assert(dirs_view(o.directives@) =~~= dirs_view(dpre).push(("key"@, seq![("fields"@, key_fields_text(ec.keys@[k as int]))])));
                        assert(d0 + kd =~~= (d0 + key_directives(ec.keys@.subrange(0, k as int))).push(("key"@, seq![("fields"@, key_fields_text(ec.keys@[k as int]))])));
                    }
                    k = k + 1;
                }
                assert(ec.keys@.subrange(0, k as int) =~= ec.keys@);
                if ec.extend {
                    o.extends = true;
                    let ghost dpre = o.directives@;
                    o.directives.push(Directive { name: String::from_str("extends"), args: Vec::new() });
                    assert(dirs_view(o.directives@) =~~= dirs_view(dpre).push(("extends"@, seq![])));
                    assert(d0 + entity_directives(*ec) =~~= (d0 + key_directives(ec.keys@)).push(("extends"@, seq![])));
                } else {
                    assert(d0 + entity_directives(*ec) =~~= d0 + key_directives(ec.keys@));
                }
                o
            },
        }
    }

    /// `r` is `obj` with the directives of the entity named `typename`.
    pub open spec fn applied(&self, obj: ObjectDef, typename: Seq<char>, r: ObjectDef) -> bool {
        &&& r.name == obj.name
        &&& r.fields == obj.fields
        &&& match self.get_spec(typename) {
            None => r == obj,
            Some(i) => {
                let ec = self.entities@[i];
                let nk = ec.keys@.len();
                &&& r.keys@.len() == obj.keys@.len() + nk
                &&& r.keys@.subrange(0, obj.keys@.len() as int) == obj.keys@
                &&& forall|k: int| 0 <= k < nk ==> (#[trigger] r.keys@[obj.keys@.len() + k]).0@ == key_fields_text(ec.keys@[k])
                    && r.keys@[obj.keys@.len() + k].1 == ec.resolvable
                &&& r.extends == (obj.extends || ec.extend)
                &&& dirs_view(r.directives@) == dirs_view(obj.directives@) + entity_directives(ec)
            },
        }
    }

    /// Applies the entity directives to every object type of a registry.
    pub fn apply_to_registry(&self, registry: &mut TypeRegistry)
        requires
            old(registry).wf(),
        ensures
            final(registry).wf(),
            final(registry).input_objects == old(registry).input_objects,
            final(registry).enums == old(registry).enums,
            final(registry).objects@.len() == old(registry).objects@.len(),
            forall|i: int| 0 <= i < final(registry).objects@.len() ==> self.applied(
                old(registry).objects@[i],
                old(registry).objects@[i].name@,
                #[trigger] final(registry).objects@[i],
            ),
    {
        let ghost objs0 = registry.objects@;
        let mut done: Vec<ObjectDef> = Vec::new();
        while registry.objects.len() > 0
            invariant
                done@.len() + registry.objects@.len() == objs0.len(),
                objs0 == old(registry).objects@,
                old(registry).wf(),
                registry.input_objects == old(registry).input_objects,
                registry.enums == old(registry).enums,
                registry.objects@ == objs0.subrange(done@.len() as int, objs0.len() as int),
                forall|i: int| 0 <= i < done@.len() ==> self.applied(objs0[i], objs0[i].name@, #[trigger] done@[i]),
            decreases registry.objects@.len(),
        {
            let o = registry.objects.remove(0);
            let name = o.name.clone();
            let ghost k = done@.len();
            assert(o == objs0[k as int]);
            let r = self.apply_directives_to_object(o, name.as_str());
            done.push(r);
            assert(registry.objects@ =~= objs0.subrange(done@.len() as int, objs0.len() as int));
        }
        registry.objects = done;
        assert forall|i: int, j: int| 0 <= i < j < registry.objects@.len() implies #[trigger] registry.objects@[i].name@ != #[trigger] registry.objects@[j].name@ by {
            assert(registry.objects@[i].name == objs0[i].name);
            assert(registry.objects@[j].name == objs0[j].name);
        }
    }

    /// The index `get` finds for `typename`: the last entity of that name.
    pub open spec fn get_spec(&self, typename: Seq<char>) -> Option<int> {
        if exists|i: int| 0 <= i < self.entities@.len() && #[trigger] self.entities@[i].typename@ == typename {
            Some(choose|i: int| 0 <= i < self.entities@.len() && #[trigger] self.entities@[i].typename@ == typename
                && forall|j: int| i < j < self.entities@.len() ==> #[trigger] self.entities@[j].typename@ != typename)
        } else {
            None
        }
    }
}

/// The `@key` directives of key field sets, in order.
pub open spec fn key_directives(keys: Seq<Vec<String>>) -> Seq<(Seq<char>, Seq<(Seq<char>, Seq<char>)>)>
    decreases keys.len(),
{
    if keys.len() == 0 {
        seq![]
    } else {
        key_directives(keys.drop_last()).push(("key"@, seq![("fields"@, key_fields_text(keys.last()))]))
    }
}

/// The directives an entity puts on its object type.
pub open spec fn entity_directives(ec: EntityConfig) -> Seq<(Seq<char>, Seq<(Seq<char>, Seq<char>)>)> {
    if ec.extend {
        key_directives(ec.keys@).push(("extends"@, seq![]))
    } else {
        key_directives(ec.keys@)
    }
}

/// The value of the first entry of `rep` under `key`, among the first `n`.
pub open spec fn entry_value(rep: Seq<(Seq<char>, GVal)>, key: Seq<char>, n: nat) -> Option<GVal>
    decreases n,
{
    if n == 0 || n > rep.len() {
        None
    } else {
        match entry_value(rep, key, (n - 1) as nat) {
            Some(v) => Some(v),
            None => if rep[n - 1].0 == key { Some(rep[n - 1].1) } else { None },
        }
    }
}

/// The `__typename` a representation names, when it holds one as a string.
pub open spec fn rep_typename(rep: Seq<(Seq<char>, GVal)>) -> Option<Seq<char>> {
    match entry_value(rep, "__typename"@, rep.len()) {
        Some(GVal::String(s)) => Some(s),
        _ => None,
    }
}

/// A representation resolves when it names the type of a declared entity.
pub open spec fn rep_resolves(cfg: FederationConfig, rep: Seq<(Seq<char>, GVal)>) -> bool {
    match rep_typename(rep) {
        Some(t) => exists|i: int| 0 <= i < cfg.entities@.len() && #[trigger] cfg.entities@[i].typename@ == t,
        None => false,
    }
}

pub(crate) proof fn lemma_entry_value_prefix(rep: Seq<(Seq<char>, GVal)>, key: Seq<char>, k: nat)
    requires
        k <= rep.len(),
        entry_value(rep, key, k) is Some,
    ensures
        entry_value(rep, key, rep.len()) == entry_value(rep, key, k),
    decreases rep.len() - k,
{
    if k < rep.len() {
        lemma_entry_value_prefix(rep, key, k + 1);
    }
}

/// The `__typename` of a representation, when it holds one as a string.
pub fn representation_typename(rep: &Vec<(String, GqlValue)>) -> (r: Option<String>)
    ensures
        match r {
            Some(s) => rep_typename(gv_obj(rep@)) == Some(s@),
            None => rep_typename(gv_obj(rep@)) is None,
        },
{
    let ghost es = gv_obj(rep@);
    proof {
        lemma_gv_obj(rep@);
    }
    let key = "__typename";
    let mut i: usize = 0;
    while i < rep.len()
        invariant
            i <= rep@.len(),
            es == gv_obj(rep@),
            es.len() == rep@.len(),
            forall|k: int| 0 <= k < rep@.len() ==> #[trigger] es[k] == (rep@[k].0@, gv(rep@[k].1)),
            entry_value(es, key@, i as nat) is None,
            key@ == "__typename"@,
        decreases rep@.len() - i,
    {
        if str_eq(rep[i].0.as_str(), key) {
            proof {
                assert(entry_value(es, key@, (i + 1) as nat) == Some(gv(rep@[i as int].1)));
                lemma_entry_value_prefix(es, key@, (i + 1) as nat);
            }
            return match &rep[i].1 {
                GqlValue::String(s) => Some(s.clone()),
                _ => None,
            };
        }
        i = i + 1;
    }
    None
}

impl FederationConfig {
    /// The entity a representation asks for. A representation without a
    /// string `__typename`, or naming no declared entity, is a schema error.
    pub fn entity_for_representation(&self, rep: &Vec<(String, GqlValue)>) -> (r: Result<usize, Error>)
        ensures
            r is Ok <==> rep_resolves(*self, gv_obj(rep@)),
            r is Ok ==> r->Ok_0 < self.entities@.len() && Some(self.entities@[r->Ok_0 as int].typename@) == rep_typename(gv_obj(rep@)),
            r is Err ==> r->Err_0 is Schema,
    {
        match representation_typename(rep) {
            None => Err(Error::Schema(String::from_str("missing __typename in representation"))),
            Some(t) => match self.get(t.as_str()) {
                Some(i) => Ok(i),
                None => Err(Error::Schema(String::from_str("unknown entity type"))),
            },
        }
    }

    /// Answers `_entities` with the default resolver: each representation,
    /// unchanged, tagged with its entity's type name. Fails on the first
    /// representation that does not resolve.
    pub fn resolve_entities(&self, resolver: &GrpcEntityResolver, reps: &Vec<Vec<(String, GqlValue)>>) -> (r: Result<Vec<(String, GqlValue)>, Error>)
        ensures
            r is Ok <==> forall|i: int| 0 <= i < reps@.len() ==> rep_resolves(*self, gv_obj(#[trigger] reps@[i]@)),
            r is Ok ==> {
                let out = r->Ok_0@;
                &&& out.len() == reps@.len()
                &&& forall|i: int| 0 <= i < out.len() ==> Some((#[trigger] out[i]).0@) == rep_typename(gv_obj(reps@[i]@))
                    && gv(out[i].1) == GVal::Object(gv_obj(reps@[i]@))
            },
            r is Err ==> r->Err_0 is Schema,
    {
        let mut out: Vec<(String, GqlValue)> = Vec::new();
        let mut i: usize = 0;
        while i < reps.len()
            invariant
                i <= reps@.len(),
                out@.len() == i,
                forall|k: int| 0 <= k < i ==> rep_resolves(*self, gv_obj(#[trigger] reps@[k]@)),
                forall|k: int| 0 <= k < i ==> Some((#[trigger] out@[k]).0@) == rep_typename(gv_obj(reps@[k]@))
                    && gv(out@[k].1) == GVal::Object(gv_obj(reps@[k]@)),
            decreases reps@.len() - i,
        {
            match self.entity_for_representation(&reps[i]) {
                Ok(e) => {
                    let value = resolver.resolve_entity(&self.entities[e], &reps[i]);
                    out.push((self.entities[e].typename.clone(), value));
                },
                Err(err) => {
                    return Err(err);
                },
            }
            i = i + 1;
        }
        Ok(out)
    }
}

/// The default entity resolver: it answers each representation with the
/// representation itself, which suffices where the key fields are all that
/// clients read.
pub struct GrpcEntityResolver {
    pub client_pool: GrpcClientPool,
}

impl GrpcEntityResolver {
    pub fn new(client_pool: GrpcClientPool) -> (r: GrpcEntityResolver)
        ensures
            r.client_pool == client_pool,
    {
        GrpcEntityResolver { client_pool }
    }

    /// The entity for a representation: the representation as an object.
    pub fn resolve_entity(&self, entity: &EntityConfig, representation: &Vec<(String, GqlValue)>) -> (r: GqlValue)
        ensures
            gv(r) == GVal::Object(gv_obj(representation@)),
    {
        GqlValue::Object(clone_entries(representation))
    }
}

} // verus!
