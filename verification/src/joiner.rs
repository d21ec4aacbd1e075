//! The specification joiner: owns the accumulating merged document, merges
//! one rewritten document per `add` call, and never commits a merge
//! partially — a failed `add` leaves the merged document exactly as it was.

use vstd::prelude::*;

use crate::document::{
    components_seq_view, doc_closed, doc_has_external, doc_wf, has_component, has_path,
    item_has_external, item_refs_resolve, lemma_property_seq_view, lemma_props_all_resolve,
    lemma_props_any_external, lemma_schema_seq_view, lemma_seq_all_resolve,
    lemma_seq_any_external, path_entry_view, paths_seq_view, property_seq_view,
    props_all_resolve, props_any_external, schema_has_external, schema_refs_resolve,
    schema_seq_view, schema_view, seq_all_resolve, seq_any_external, unique_component_keys,
    unique_path_templates, Category, ComponentEntry, Document, PathEntry, PathItem, Property,
    Reference, Schema, SpecComponent, SpecDocument, SpecInfo, SpecPathEntry,
    SpecReference, SpecSchema,
};
use crate::paths::{join_paths, join_paths_spec};
use crate::rewrite::{lemma_rewrite_document_wf, rewrite_document, rewrite_document_spec};

verus! {

/// The ways `add` can fail. Each condition is detected before the merged
/// document is touched.
#[derive(Clone, Copy, PartialEq, Eq, Structural, Debug)]
pub enum JoinError {
    /// The prefix was already consumed in this run.
    PrefixCollision,
    /// The document holds a `$ref` outside `#/components/...`, which
    /// cannot be safely relocated.
    UnsupportedReference,
    /// A renamed component key collides with one already merged.
    ComponentCollision,
    /// Two path templates resolved to the same external key.
    PathCollision,
}

/// Spec-level state of the joiner.
pub struct SpecJoiner {
    pub merged: SpecDocument,
    pub prefixes: Seq<Seq<char>>,
}

/// The accumulating merged document, plus the already-consumed prefixes
/// (defense in depth: upstream validation should make reuse impossible,
/// but the joiner fails rather than silently overwriting).
#[derive(Debug)]
pub struct OpenAPIJoiner {
    pub merged: Document,
    pub prefixes: Vec<String>,
}

impl View for OpenAPIJoiner {
    type V = SpecJoiner;

    open spec fn view(&self) -> SpecJoiner {
        SpecJoiner { merged: self.merged@, prefixes: self.prefixes.deep_view() }
    }
}

/// What every reachable joiner state satisfies: the merged document is a
/// genuine mapping on both key spaces, every `$ref` in it resolves, and no
/// unsupported reference ever got in.
pub open spec fn joiner_inv(j: SpecJoiner) -> bool {
    &&& unique_component_keys(j.merged.components)
    &&& unique_path_templates(j.merged.paths)
    &&& doc_closed(j.merged)
    &&& !doc_has_external(j.merged)
}

/// Mounting, mapped over the rewritten path entries.
pub open spec fn mounted_paths(ps: Seq<SpecPathEntry>, mount: Seq<char>) -> Seq<SpecPathEntry> {
    ps.map_values(
        |e: SpecPathEntry| SpecPathEntry { template: join_paths_spec(mount, e.template), item: e.item },
    )
}

/// The whole outcome of one `add` call: either the merged state after a
/// successful merge, or the error a failing one reports — with the checks
/// made in the order the merge performs them.
pub open spec fn add_spec(
    j: SpecJoiner,
    d: SpecDocument,
    mount: Seq<char>,
    prefix: Seq<char>,
) -> Result<SpecJoiner, JoinError> {
    if j.prefixes.contains(prefix) {
        Result::Err(JoinError::PrefixCollision)
    } else if doc_has_external(d) {
        Result::Err(JoinError::UnsupportedReference)
    } else {
        let r = rewrite_document_spec(d, prefix);
        if !unique_component_keys(j.merged.components + r.components) {
            Result::Err(JoinError::ComponentCollision)
        } else if !unique_path_templates(j.merged.paths + mounted_paths(r.paths, mount)) {
            Result::Err(JoinError::PathCollision)
        } else {
            Result::Ok(
                SpecJoiner {
                    merged: SpecDocument {
                        info: if j.prefixes.len() == 0 {
                            d.info
                        } else {
                            j.merged.info
                        },
                        security: if j.prefixes.len() == 0 {
                            d.security
                        } else {
                            j.merged.security
                        },
                        paths: j.merged.paths + mounted_paths(r.paths, mount),
                        components: j.merged.components + r.components,
                    },
                    prefixes: j.prefixes.push(prefix),
                },
            )
        }
    }
}

/// A key resolves in a concatenation exactly when it resolves in one part.
pub proof fn lemma_has_component_concat(
    a: Seq<SpecComponent>,
    b: Seq<SpecComponent>,
    category: Category,
    name: Seq<char>,
)
    ensures
        has_component(a + b, category, name) <==> (has_component(a, category, name)
            || has_component(b, category, name)),
{
    if has_component(a, category, name) {
        let i = choose|i: int|
            0 <= i < a.len() && a[i].category == category && a[i].name == name;
        assert((a + b)[i].category == category && (a + b)[i].name == name);
    }
    if has_component(b, category, name) {
        let i = choose|i: int|
            0 <= i < b.len() && b[i].category == category && b[i].name == name;
        assert((a + b)[a.len() + i].category == category && (a + b)[a.len() + i].name == name);
    }
    if has_component(a + b, category, name) {
        let i = choose|i: int|
            0 <= i < (a + b).len() && (a + b)[i].category == category && (a + b)[i].name == name;
        if i < a.len() {
            assert(a[i].category == category && a[i].name == name);
        } else {
            assert(b[i - a.len()].category == category && b[i - a.len()].name == name);
        }
    }
}

/// Resolution is monotone: whatever resolves in `cs` resolves in any
/// component sequence that covers `cs`'s keys.
pub proof fn lemma_resolve_superset(s: SpecSchema, cs: Seq<SpecComponent>, all: Seq<SpecComponent>)
    requires
        schema_refs_resolve(s, cs),
        forall|category: Category, name: Seq<char>|
            #[trigger] has_component(cs, category, name) ==> has_component(all, category, name),
    ensures
        schema_refs_resolve(s, all),
    decreases s,
{
    match s {
        SpecSchema::Ref(r) => {},
        SpecSchema::AllOf(v) => {
            lemma_seq_all_resolve(v, cs);
            lemma_seq_all_resolve(v, all);
            assert forall|i: int|
                0 <= i < v.len() implies schema_refs_resolve(#[trigger] v[i], all) by {
                assert(schema_refs_resolve(v[i], cs));
                lemma_resolve_superset(v[i], cs, all);
            }
        },
        SpecSchema::OneOf(v) => {
            lemma_seq_all_resolve(v, cs);
            lemma_seq_all_resolve(v, all);
            assert forall|i: int|
                0 <= i < v.len() implies schema_refs_resolve(#[trigger] v[i], all) by {
                assert(schema_refs_resolve(v[i], cs));
                lemma_resolve_superset(v[i], cs, all);
            }
        },
        SpecSchema::AnyOf(v) => {
            lemma_seq_all_resolve(v, cs);
            lemma_seq_all_resolve(v, all);
            assert forall|i: int|
                0 <= i < v.len() implies schema_refs_resolve(#[trigger] v[i], all) by {
                assert(schema_refs_resolve(v[i], cs));
                lemma_resolve_superset(v[i], cs, all);
            }
        },
        SpecSchema::Array(b) => {
            lemma_resolve_superset(*b, cs, all);
        },
        SpecSchema::Object { properties, additional } => {
            lemma_props_all_resolve(properties, cs);
            lemma_props_all_resolve(properties, all);
            assert forall|i: int|
                0 <= i < properties.len() implies schema_refs_resolve(
                #[trigger] properties[i].1,
                all,
            ) by {
                assert(schema_refs_resolve(properties[i].1, cs));
                lemma_resolve_superset(properties[i].1, cs, all);
            }
            match additional {
                Option::Some(b) => {
                    lemma_resolve_superset(*b, cs, all);
                },
                Option::None => {},
            }
        },
        SpecSchema::Primitive => {},
    }
}

/// With each side free of duplicates, the concatenation of two component
/// mappings keeps unique keys exactly when no key of `b` already occurs in
/// `a`.
pub proof fn lemma_unique_concat_components(a: Seq<SpecComponent>, b: Seq<SpecComponent>)
    requires
        unique_component_keys(a),
        unique_component_keys(b),
    ensures
        unique_component_keys(a + b) <==> !(exists|k: int|
            0 <= k < b.len() && has_component(a, (#[trigger] b[k]).category, b[k].name)),
{
    if exists|k: int|
        0 <= k < b.len() && has_component(a, (#[trigger] b[k]).category, b[k].name) {
        let k = choose|k: int|
            0 <= k < b.len() && has_component(a, (#[trigger] b[k]).category, b[k].name);
        let i = choose|i: int|
            0 <= i < a.len() && a[i].category == b[k].category && a[i].name == b[k].name;
        assert((a + b)[i].category == (a + b)[a.len() + k].category && (a + b)[i].name == (a
            + b)[a.len() + k].name);
        assert(!unique_component_keys(a + b));
    } else {
        assert forall|i: int, j: int|
            0 <= i < j < (a + b).len() implies !(#[trigger] (a + b)[i].category == #[trigger] (a
            + b)[j].category && (a + b)[i].name == (a + b)[j].name) by {
            if (a + b)[i].category == (a + b)[j].category && (a + b)[i].name == (a + b)[j].name {
                if j < a.len() {
                } else if i >= a.len() {
                    assert(b[i - a.len()].category == b[j - a.len()].category && b[i
                        - a.len()].name == b[j - a.len()].name);
                } else {
                    assert(a[i].category == b[j - a.len()].category && a[i].name == b[j
                        - a.len()].name);
                    assert(has_component(a, b[j - a.len()].category, b[j - a.len()].name));
                }
            }
        }
    }
}

/// The same, for the path mapping: the concatenation keeps unique
/// templates exactly when `b` has none twice and none already in `a`.
pub proof fn lemma_unique_concat_paths(a: Seq<SpecPathEntry>, b: Seq<SpecPathEntry>)
    requires
        unique_path_templates(a),
    ensures
        unique_path_templates(a + b) <==> (unique_path_templates(b) && !(exists|k: int|
            0 <= k < b.len() && has_path(a, (#[trigger] b[k]).template))),
{
    if unique_path_templates(a + b) {
        assert forall|i: int, j: int|
            0 <= i < j < b.len() implies (#[trigger] b[i].template) != (
            #[trigger] b[j].template) by {
            assert((a + b)[a.len() + i].template != (a + b)[a.len() + j].template);
        }
        if exists|k: int| 0 <= k < b.len() && has_path(a, (#[trigger] b[k]).template) {
            let k = choose|k: int| 0 <= k < b.len() && has_path(a, (#[trigger] b[k]).template);
            let i = choose|i: int| 0 <= i < a.len() && a[i].template == b[k].template;
            assert((a + b)[i].template == (a + b)[a.len() + k].template);
        }
    } else {
        if unique_path_templates(b) && !(exists|k: int|
            0 <= k < b.len() && has_path(a, (#[trigger] b[k]).template)) {
            assert forall|i: int, j: int|
                0 <= i < j < (a + b).len() implies (#[trigger] (a + b)[i].template) != (
                #[trigger] (a + b)[j].template) by {
                if (a + b)[i].template == (a + b)[j].template {
                    if j < a.len() {
                    } else if i >= a.len() {
                        assert(b[i - a.len()].template == b[j - a.len()].template);
                    } else {
                        assert(a[i].template == b[j - a.len()].template);
                        assert(has_path(a, b[j - a.len()].template));
                    }
                }
            }
        }
    }
}

fn schema_vec_resolves(v: &Vec<Schema>, components: &Vec<ComponentEntry>) -> (res: bool)
    ensures
        res == seq_all_resolve(schema_seq_view(v@), components_seq_view(components@)),
    decreases *v,
{
    proof {
        lemma_schema_seq_view(v@);
        lemma_seq_all_resolve(schema_seq_view(v@), components_seq_view(components@));
    }
    let mut i: usize = 0;
    while i < v.len()
        invariant
            i <= v.len(),
            schema_seq_view(v@).len() == v@.len(),
            forall|k: int|
                0 <= k < v@.len() ==> #[trigger] schema_seq_view(v@)[k] == schema_view(v@[k]),
            forall|k: int|
                0 <= k < i ==> schema_refs_resolve(
                    #[trigger] schema_seq_view(v@)[k],
                    components_seq_view(components@),
                ),
        decreases v.len() - i,
    {
        if !schema_refs_resolve_exec(&v[i], components) {
            proof {
                lemma_seq_all_resolve(schema_seq_view(v@), components_seq_view(components@));
                assert(!schema_refs_resolve(
                    schema_seq_view(v@)[i as int],
                    components_seq_view(components@),
                ));
            }
            return false;
        }
        i += 1;
    }
    true
}

fn properties_resolve(v: &Vec<Property>, components: &Vec<ComponentEntry>) -> (res: bool)
    ensures
        res == props_all_resolve(property_seq_view(v@), components_seq_view(components@)),
    decreases *v,
{
    proof {
        lemma_property_seq_view(v@);
        lemma_props_all_resolve(property_seq_view(v@), components_seq_view(components@));
    }
    let mut i: usize = 0;
    while i < v.len()
        invariant
            i <= v.len(),
            property_seq_view(v@).len() == v@.len(),
            forall|k: int|
                0 <= k < v@.len() ==> #[trigger] property_seq_view(v@)[k] == (
                    v@[k].name@,
                    schema_view(v@[k].schema),
                ),
            forall|k: int|
                0 <= k < i ==> schema_refs_resolve(
                    #[trigger] property_seq_view(v@)[k].1,
                    components_seq_view(components@),
                ),
        decreases v.len() - i,
    {
        if !schema_refs_resolve_exec(&v[i].schema, components) {
            proof {
                lemma_props_all_resolve(property_seq_view(v@), components_seq_view(components@));
                assert(!schema_refs_resolve(
                    property_seq_view(v@)[i as int].1,
                    components_seq_view(components@),
                ));
            }
            return false;
        }
        i += 1;
    }
    true
}

/// Decides whether every component `$ref` of a schema resolves among the
/// given components.
pub fn schema_refs_resolve_exec(s: &Schema, components: &Vec<ComponentEntry>) -> (res: bool)
    ensures
        res == schema_refs_resolve(schema_view(*s), components_seq_view(components@)),
    decreases *s,
{
    match s {
        Schema::Ref(r) => {
            let res = match r {
                Reference::Component { category, name } => {
                    let found = find_component(components, *category, name);
                    proof {
                        assert(r@ == SpecReference::Component(*category, name@));
                    }
                    found
                },
                Reference::External(_) => true,
            };
            proof {
                assert(schema_view(*s) == SpecSchema::Ref(r@));
                assert(res == schema_refs_resolve(
                    SpecSchema::Ref(r@),
                    components_seq_view(components@),
                ));
            }
            return res;
        },
        Schema::AllOf(v) => {
            let res = schema_vec_resolves(v, components);
            proof {
                assert(schema_view(*s) == SpecSchema::AllOf(schema_seq_view(v@)));
            }
            return res;
        },
        Schema::OneOf(v) => {
            let res = schema_vec_resolves(v, components);
            proof {
                assert(schema_view(*s) == SpecSchema::OneOf(schema_seq_view(v@)));
            }
            return res;
        },
        Schema::AnyOf(v) => {
            let res = schema_vec_resolves(v, components);
            proof {
                assert(schema_view(*s) == SpecSchema::AnyOf(schema_seq_view(v@)));
            }
            return res;
        },
        Schema::Array(b) => {
            let res = schema_refs_resolve_exec(b, components);
            proof {
                assert(schema_view(*s) == SpecSchema::Array(Box::new(schema_view(**b))));
            }
            return res;
        },
        Schema::Object { properties, additional } => {
            let res = if !properties_resolve(properties, components) {
                false
            } else {
                match additional {
                    Option::Some(b) => schema_refs_resolve_exec(b, components),
                    Option::None => true,
                }
            };
            proof {
                assert(schema_view(*s) == (SpecSchema::Object {
                    properties: property_seq_view(properties@),
                    additional: match *additional {
                        Option::Some(b2) => Option::Some(Box::new(schema_view(*b2))),
                        Option::None => Option::None,
                    },
                }));
            }
            return res;
        },
        Schema::Primitive => {
            return true;
        },
    }
}

/// Decides whether a document is what the merge may assume: `paths` and
/// `components` are genuine mappings and every component `$ref` resolves
/// within the document itself.
pub fn doc_wf_exec(d: &Document) -> (res: bool)
    ensures
        res == doc_wf(d@),
{
    let mut i: usize = 0;
    while i < d.components.len()
        invariant
            i <= d.components.len(),
            forall|a: int, b: int|
                0 <= a < b < i ==> !((#[trigger] d@.components[a]).category == (
                #[trigger] d@.components[b]).category && d@.components[a].name
                    == d@.components[b].name),
        decreases d.components.len() - i,
    {
        let mut j: usize = 0;
        while j < i
            invariant
                j <= i < d.components.len(),
                forall|b: int|
                    0 <= b < j ==> !((#[trigger] d@.components[b]).category
                        == d@.components[i as int].category && d@.components[b].name
                        == d@.components[i as int].name),
            decreases i - j,
        {
            if d.components[j].category == d.components[i].category && d.components[j].name.eq(
                &d.components[i].name,
            ) {
                proof {
                    assert(d@.components[j as int].category == d@.components[i as int].category
                        && d@.components[j as int].name == d@.components[i as int].name);
                    assert(!unique_component_keys(d@.components));
                }
                return false;
            }
            j += 1;
        }
        i += 1;
    }
    let mut i: usize = 0;
    while i < d.paths.len()
        invariant
            i <= d.paths.len(),
            unique_component_keys(d@.components),
            forall|a: int, b: int|
                0 <= a < b < i ==> (#[trigger] d@.paths[a]).template != (
                #[trigger] d@.paths[b]).template,
        decreases d.paths.len() - i,
    {
        let mut j: usize = 0;
        while j < i
            invariant
                j <= i < d.paths.len(),
                unique_component_keys(d@.components),
                forall|b: int|
                    0 <= b < j ==> (#[trigger] d@.paths[b]).template != d@.paths[i as int].template,
            decreases i - j,
        {
            if d.paths[j].template.eq(&d.paths[i].template) {
                proof {
                    assert(d@.paths[j as int].template == d@.paths[i as int].template);
                    assert(!unique_path_templates(d@.paths));
                }
                return false;
            }
            j += 1;
        }
        i += 1;
    }
    let mut i: usize = 0;
    while i < d.paths.len()
        invariant
            i <= d.paths.len(),
            unique_component_keys(d@.components),
            unique_path_templates(d@.paths),
            forall|k: int|
                0 <= k < i ==> item_refs_resolve(#[trigger] d@.paths[k].item, d@.components),
        decreases d.paths.len() - i,
    {
        let item = &d.paths[i].item;
        let mut j: usize = 0;
        while j < item.operations.len()
            invariant
                i < d.paths.len(),
                j <= item.operations.len(),
                item == &d.paths[i as int].item,
                forall|k: int|
                    0 <= k < j ==> schema_refs_resolve(
                        (#[trigger] item@[k]).1,
                        d@.components,
                    ),
            decreases item.operations.len() - j,
        {
            if !schema_refs_resolve_exec(&item.operations[j].content, &d.components) {
                proof {
                    assert(item@[j as int].1 == schema_view(
                        item.operations@[j as int].content,
                    ));
                    assert(!schema_refs_resolve(d@.paths[i as int].item[j as int].1, d@.components));
                    assert(!item_refs_resolve(d@.paths[i as int].item, d@.components));
                    assert(!doc_closed(d@));
                }
                return false;
            }
            proof {
                assert(item@[j as int].1 == schema_view(item.operations@[j as int].content));
            }
            j += 1;
        }
        proof {
            assert(d@.paths[i as int].item == item@);
        }
        i += 1;
    }
    let mut i: usize = 0;
    while i < d.components.len()
        invariant
            i <= d.components.len(),
            unique_component_keys(d@.components),
            unique_path_templates(d@.paths),
            forall|k: int|
                0 <= k < d@.paths.len() ==> item_refs_resolve(
                    #[trigger] d@.paths[k].item,
                    d@.components,
                ),
            forall|k: int|
                0 <= k < i ==> schema_refs_resolve(
                    (#[trigger] d@.components[k]).definition,
                    d@.components,
                ),
        decreases d.components.len() - i,
    {
        if !schema_refs_resolve_exec(&d.components[i].definition, &d.components) {
            proof {
                assert(!schema_refs_resolve(
                    (d@.components[i as int]).definition,
                    d@.components,
                ));
                assert(!doc_closed(d@));
            }
            return false;
        }
        i += 1;
    }
    true
}

/// Reference integrity: in every reachable joiner state, every component
/// `$ref` anywhere in the merged document — in a mounted path item or in
/// a component definition — resolves to an existing component entry.
pub proof fn lemma_reference_integrity(j: SpecJoiner)
    requires
        joiner_inv(j),
    ensures
        forall|i: int|
            0 <= i < j.merged.paths.len() ==> item_refs_resolve(
                (#[trigger] j.merged.paths[i]).item,
                j.merged.components,
            ),
        forall|i: int|
            0 <= i < j.merged.components.len() ==> schema_refs_resolve(
                (#[trigger] j.merged.components[i]).definition,
                j.merged.components,
            ),
{
}

/// Disjointness: two successful merges in one run introduce disjoint
/// component key sets — no key brought in by the first document equals
/// one brought in by the second. (The second merge would have been
/// rejected with a collision otherwise; renaming alone cannot promise
/// this, since distinct prefixes can concatenate into equal keys.)
pub proof fn lemma_disjoint_merges(
    j0: SpecJoiner,
    d1: SpecDocument,
    m1: Seq<char>,
    p1: Seq<char>,
    j1: SpecJoiner,
    d2: SpecDocument,
    m2: Seq<char>,
    p2: Seq<char>,
    j2: SpecJoiner,
)
    requires
        add_spec(j0, d1, m1, p1) == Result::<SpecJoiner, JoinError>::Ok(j1),
        add_spec(j1, d2, m2, p2) == Result::<SpecJoiner, JoinError>::Ok(j2),
    ensures
        forall|a: int, b: int|
            0 <= a < rewrite_document_spec(d1, p1).components.len() && 0 <= b
                < rewrite_document_spec(d2, p2).components.len()
                ==> !((#[trigger] rewrite_document_spec(d1, p1).components[a]).category == (
            #[trigger] rewrite_document_spec(d2, p2).components[b]).category
                && rewrite_document_spec(d1, p1).components[a].name == rewrite_document_spec(
                d2,
                p2,
            ).components[b].name),
{
    let r1 = rewrite_document_spec(d1, p1);
    let r2 = rewrite_document_spec(d2, p2);
    let c0 = j0.merged.components;
    let c1 = j1.merged.components;
    assert(c1 == c0 + r1.components);
    assert(unique_component_keys(c1 + r2.components));
    assert forall|a: int, b: int|
        0 <= a < r1.components.len() && 0 <= b < r2.components.len() implies !((
    #[trigger] r1.components[a]).category == (#[trigger] r2.components[b]).category
        && r1.components[a].name == r2.components[b].name) by {
        let ia = c0.len() + a;
        let ib = c1.len() + b;
        assert((c1 + r2.components)[ia] == r1.components[a]);
        assert((c1 + r2.components)[ib] == r2.components[b]);
    }
}

/// Order independence of merging: merging document A then B yields the
/// same final components and the same final paths, as multisets of
/// entries, as merging B then A — while `info` and `security` follow the
/// first document merged into a fresh joiner, an asymmetry that is part
/// of the contract.
pub proof fn lemma_merge_order_independent(
    j0: SpecJoiner,
    da: SpecDocument,
    ma: Seq<char>,
    pa: Seq<char>,
    db: SpecDocument,
    mb: Seq<char>,
    pb: Seq<char>,
    ja: SpecJoiner,
    jab: SpecJoiner,
    jb: SpecJoiner,
    jba: SpecJoiner,
)
    requires
        add_spec(j0, da, ma, pa) == Result::<SpecJoiner, JoinError>::Ok(ja),
        add_spec(ja, db, mb, pb) == Result::<SpecJoiner, JoinError>::Ok(jab),
        add_spec(j0, db, mb, pb) == Result::<SpecJoiner, JoinError>::Ok(jb),
        add_spec(jb, da, ma, pa) == Result::<SpecJoiner, JoinError>::Ok(jba),
    ensures
        jab.merged.components.to_multiset() == jba.merged.components.to_multiset(),
        jab.merged.paths.to_multiset() == jba.merged.paths.to_multiset(),
        j0.prefixes.len() == 0 ==> jab.merged.info == da.info && jba.merged.info == db.info
            && jab.merged.security == da.security && jba.merged.security == db.security,
{
    broadcast use vstd::multiset::group_multiset_axioms;

    let ra = rewrite_document_spec(da, pa);
    let rb = rewrite_document_spec(db, pb);
    let c0 = j0.merged.components;
    assert(jab.merged.components == (c0 + ra.components) + rb.components);
    assert(jba.merged.components == (c0 + rb.components) + ra.components);
    vstd::seq_lib::lemma_multiset_commutative(c0 + ra.components, rb.components);
    vstd::seq_lib::lemma_multiset_commutative(c0, ra.components);
    vstd::seq_lib::lemma_multiset_commutative(c0 + rb.components, ra.components);
    vstd::seq_lib::lemma_multiset_commutative(c0, rb.components);
    assert(jab.merged.components.to_multiset() =~= jba.merged.components.to_multiset());
    let p0 = j0.merged.paths;
    let mpa = mounted_paths(ra.paths, ma);
    let mpb = mounted_paths(rb.paths, mb);
    assert(jab.merged.paths == (p0 + mpa) + mpb);
    assert(jba.merged.paths == (p0 + mpb) + mpa);
    vstd::seq_lib::lemma_multiset_commutative(p0 + mpa, mpb);
    vstd::seq_lib::lemma_multiset_commutative(p0, mpa);
    vstd::seq_lib::lemma_multiset_commutative(p0 + mpb, mpa);
    vstd::seq_lib::lemma_multiset_commutative(p0, mpb);
    assert(jab.merged.paths.to_multiset() =~= jba.merged.paths.to_multiset());
    if j0.prefixes.len() == 0 {
        assert(ja.prefixes == j0.prefixes.push(pa));
        assert(jb.prefixes == j0.prefixes.push(pb));
        assert(ja.prefixes.len() == 1);
        assert(jb.prefixes.len() == 1);
    }
}

fn prefix_used(prefixes: &Vec<String>, prefix: &String) -> (res: bool)
    ensures
        res == prefixes.deep_view().contains(prefix@),
{
    let mut i: usize = 0;
    while i < prefixes.len()
        invariant
            i <= prefixes.len(),
            forall|k: int| 0 <= k < i ==> prefixes.deep_view()[k] != prefix@,
        decreases prefixes.len() - i,
    {
        if prefixes[i].eq(prefix) {
            proof {
                assert(prefixes.deep_view()[i as int] == prefix@);
            }
            return true;
        }
        i += 1;
    }
    proof {
        assert(!prefixes.deep_view().contains(prefix@));
    }
    false
}

fn schema_vec_has_external(v: &Vec<Schema>) -> (res: bool)
    ensures
        res == seq_any_external(schema_seq_view(v@)),
    decreases *v,
{
    proof {
        lemma_schema_seq_view(v@);
        lemma_seq_any_external(schema_seq_view(v@));
    }
    let mut i: usize = 0;
    while i < v.len()
        invariant
            i <= v.len(),
            schema_seq_view(v@).len() == v@.len(),
            forall|k: int|
                0 <= k < v@.len() ==> #[trigger] schema_seq_view(v@)[k] == schema_view(v@[k]),
            forall|k: int| 0 <= k < i ==> !schema_has_external(schema_seq_view(v@)[k]),
        decreases v.len() - i,
    {
        if schema_has_external_exec(&v[i]) {
            proof {
                lemma_seq_any_external(schema_seq_view(v@));
                assert(schema_has_external(schema_seq_view(v@)[i as int]));
                assert(exists|k: int|
                    0 <= k < schema_seq_view(v@).len() && schema_has_external(
                        #[trigger] schema_seq_view(v@)[k],
                    ));
            }
            return true;
        }
        i += 1;
    }
    false
}

fn properties_have_external(v: &Vec<Property>) -> (res: bool)
    ensures
        res == props_any_external(property_seq_view(v@)),
    decreases *v,
{
    proof {
        lemma_property_seq_view(v@);
        lemma_props_any_external(property_seq_view(v@));
    }
    let mut i: usize = 0;
    while i < v.len()
        invariant
            i <= v.len(),
            property_seq_view(v@).len() == v@.len(),
            forall|k: int|
                0 <= k < v@.len() ==> #[trigger] property_seq_view(v@)[k] == (
                    v@[k].name@,
                    schema_view(v@[k].schema),
                ),
            forall|k: int| 0 <= k < i ==> !schema_has_external(property_seq_view(v@)[k].1),
        decreases v.len() - i,
    {
        if schema_has_external_exec(&v[i].schema) {
            proof {
                lemma_props_any_external(property_seq_view(v@));
                assert(schema_has_external(property_seq_view(v@)[i as int].1));
                assert(exists|k: int|
                    0 <= k < property_seq_view(v@).len() && schema_has_external(
                        #[trigger] property_seq_view(v@)[k].1,
                    ));
            }
            return true;
        }
        i += 1;
    }
    false
}

/// Decides whether a schema holds a `$ref` outside `#/components/...`.
pub fn schema_has_external_exec(s: &Schema) -> (res: bool)
    ensures
        res == schema_has_external(schema_view(*s)),
    decreases *s,
{
    match s {
        Schema::Ref(r) => {
            let res = match r {
                Reference::Component { category: _, name: _ } => false,
                Reference::External(_) => true,
            };
            proof {
                assert(schema_view(*s) == SpecSchema::Ref(r@));
            }
            return res;
        },
        Schema::AllOf(v) => {
            let res = schema_vec_has_external(v);
            proof {
                assert(schema_view(*s) == SpecSchema::AllOf(schema_seq_view(v@)));
                assert(res == schema_has_external(SpecSchema::AllOf(schema_seq_view(v@))));
            }
            return res;
        },
        Schema::OneOf(v) => {
            let res = schema_vec_has_external(v);
            proof {
                assert(schema_view(*s) == SpecSchema::OneOf(schema_seq_view(v@)));
                assert(res == schema_has_external(SpecSchema::OneOf(schema_seq_view(v@))));
            }
            return res;
        },
        Schema::AnyOf(v) => {
            let res = schema_vec_has_external(v);
            proof {
                assert(schema_view(*s) == SpecSchema::AnyOf(schema_seq_view(v@)));
                assert(res == schema_has_external(SpecSchema::AnyOf(schema_seq_view(v@))));
            }
            return res;
        },
        Schema::Array(b) => {
            let res = schema_has_external_exec(b);
            proof {
                assert(schema_view(*s) == SpecSchema::Array(Box::new(schema_view(**b))));
            }
            return res;
        },
        Schema::Object { properties, additional } => {
            let res = if properties_have_external(properties) {
                true
            } else {
                match additional {
                    Option::Some(b) => schema_has_external_exec(b),
                    Option::None => false,
                }
            };
            proof {
                assert(schema_view(*s) == (SpecSchema::Object {
                    properties: property_seq_view(properties@),
                    additional: match *additional {
                        Option::Some(b2) => Option::Some(Box::new(schema_view(*b2))),
                        Option::None => Option::None,
                    },
                }));
            }
            return res;
        },
        Schema::Primitive => {
            return false;
        },
    }
}

fn item_has_external_exec(item: &PathItem) -> (res: bool)
    ensures
        res == item_has_external(item@),
{
    let mut i: usize = 0;
    while i < item.operations.len()
        invariant
            i <= item.operations.len(),
            forall|k: int| 0 <= k < i ==> !schema_has_external(#[trigger] item@[k].1),
        decreases item.operations.len() - i,
    {
        if schema_has_external_exec(&item.operations[i].content) {
            proof {
                assert(item@[i as int].1 == schema_view(item.operations@[i as int].content));
            }
            return true;
        }
        i += 1;
    }
    false
}

/// Decides whether any `$ref` of the document points outside
/// `#/components/...`.
pub fn doc_has_external_exec(d: &Document) -> (res: bool)
    ensures
        res == doc_has_external(d@),
{
    let mut i: usize = 0;
    while i < d.paths.len()
        invariant
            i <= d.paths.len(),
            forall|k: int| 0 <= k < i ==> !item_has_external(#[trigger] d@.paths[k].item),
        decreases d.paths.len() - i,
    {
        if item_has_external_exec(&d.paths[i].item) {
            proof {
                assert(d@.paths[i as int].item == d.paths@[i as int].item@);
            }
            return true;
        }
        i += 1;
    }
    let mut j: usize = 0;
    while j < d.components.len()
        invariant
            j <= d.components.len(),
            forall|k: int|
                0 <= k < d@.paths.len() ==> !item_has_external(#[trigger] d@.paths[k].item),
            forall|k: int|
                0 <= k < j ==> !schema_has_external((#[trigger] d@.components[k]).definition),
        decreases d.components.len() - j,
    {
        if schema_has_external_exec(&d.components[j].definition) {
            proof {
                assert(d@.components[j as int].definition == schema_view(
                    d.components@[j as int].definition,
                ));
            }
            return true;
        }
        j += 1;
    }
    false
}



/// Unioning a closed, external-free merged document with a closed,
/// external-free rewritten document yields a closed, external-free
/// document: every reference keeps resolving in the union.
proof fn lemma_merge_closed(m: SpecDocument, r: SpecDocument, mount: Seq<char>, merged: SpecDocument)
    requires
        doc_closed(m),
        !doc_has_external(m),
        doc_closed(r),
        !doc_has_external(r),
        merged.paths == m.paths + mounted_paths(r.paths, mount),
        merged.components == m.components + r.components,
    ensures
        doc_closed(merged),
        !doc_has_external(merged),
{
    let all = m.components + r.components;
    let mp = mounted_paths(r.paths, mount);
    assert forall|category: Category, name: Seq<char>|
        #[trigger] has_component(m.components, category, name) implies has_component(
        all,
        category,
        name,
    ) by {
        lemma_has_component_concat(m.components, r.components, category, name);
    }
    assert forall|category: Category, name: Seq<char>|
        #[trigger] has_component(r.components, category, name) implies has_component(
        all,
        category,
        name,
    ) by {
        lemma_has_component_concat(m.components, r.components, category, name);
    }
    assert forall|i: int|
        0 <= i < merged.paths.len() implies item_refs_resolve(
        (#[trigger] merged.paths[i]).item,
        merged.components,
    ) by {
        if i < m.paths.len() {
            assert(merged.paths[i] == m.paths[i]);
            let item = m.paths[i].item;
            assert(item_refs_resolve(item, m.components));
            assert forall|k: int|
                0 <= k < item.len() implies schema_refs_resolve(#[trigger] item[k].1, all) by {
                lemma_resolve_superset(item[k].1, m.components, all);
            }
        } else {
            let j = i - m.paths.len();
            assert(merged.paths[i] == mp[j]);
            assert(mp[j].item == r.paths[j].item);
            let item = r.paths[j].item;
            assert(item_refs_resolve(item, r.components));
            assert forall|k: int|
                0 <= k < item.len() implies schema_refs_resolve(#[trigger] item[k].1, all) by {
                lemma_resolve_superset(item[k].1, r.components, all);
            }
        }
    }
    assert forall|i: int|
        0 <= i < merged.components.len() implies schema_refs_resolve(
        (#[trigger] merged.components[i]).definition,
        merged.components,
    ) by {
        if i < m.components.len() {
            assert(merged.components[i] == m.components[i]);
            assert(schema_refs_resolve(m.components[i].definition, m.components));
            lemma_resolve_superset(m.components[i].definition, m.components, all);
        } else {
            let j = i - m.components.len();
            assert(merged.components[i] == r.components[j]);
            assert(schema_refs_resolve(r.components[j].definition, r.components));
            lemma_resolve_superset(r.components[j].definition, r.components, all);
        }
    }
    assert forall|i: int|
        0 <= i < merged.paths.len() implies !item_has_external(
        (#[trigger] merged.paths[i]).item,
    ) by {
        if i < m.paths.len() {
            assert(merged.paths[i] == m.paths[i]);
            assert(!item_has_external(m.paths[i].item));
        } else {
            let j = i - m.paths.len();
            assert(merged.paths[i] == mp[j]);
            assert(mp[j].item == r.paths[j].item);
            assert(!item_has_external(r.paths[j].item));
        }
    }
    assert forall|i: int|
        0 <= i < merged.components.len() implies !schema_has_external(
        (#[trigger] merged.components[i]).definition,
    ) by {
        if i < m.components.len() {
            assert(merged.components[i] == m.components[i]);
            assert(!schema_has_external(m.components[i].definition));
        } else {
            let j = i - m.components.len();
            assert(merged.components[i] == r.components[j]);
            assert(!schema_has_external(r.components[j].definition));
        }
    }
}

fn find_component(components: &Vec<ComponentEntry>, category: Category, name: &String) -> (res:
    bool)
    ensures
        res == has_component(components_seq_view(components@), category, name@),
{
    let mut i: usize = 0;
    while i < components.len()
        invariant
            i <= components.len(),
            forall|k: int|
                0 <= k < i ==> !((#[trigger] components_seq_view(components@)[k]).category
                    == category && components_seq_view(components@)[k].name == name@),
        decreases components.len() - i,
    {
        if components[i].category == category && components[i].name.eq(name) {
            proof {
                assert(components_seq_view(components@)[i as int].category == category
                    && components_seq_view(components@)[i as int].name == name@);
            }
            return true;
        }
        i += 1;
    }
    false
}

fn find_path(paths: &Vec<PathEntry>, template: &String) -> (res: bool)
    ensures
        res == has_path(paths_seq_view(paths@), template@),
{
    let mut i: usize = 0;
    while i < paths.len()
        invariant
            i <= paths.len(),
            forall|k: int|
                0 <= k < i ==> (#[trigger] paths_seq_view(paths@)[k]).template != template@,
        decreases paths.len() - i,
    {
        if paths[i].template.eq(template) {
            proof {
                assert(paths_seq_view(paths@)[i as int].template == template@);
            }
            return true;
        }
        i += 1;
    }
    false
}

fn any_component_collision(merged: &Vec<ComponentEntry>, incoming: &Vec<ComponentEntry>) -> (res:
    bool)
    requires
        unique_component_keys(components_seq_view(merged@)),
        unique_component_keys(components_seq_view(incoming@)),
    ensures
        res == !unique_component_keys(
            components_seq_view(merged@) + components_seq_view(incoming@),
        ),
{
    let mut i: usize = 0;
    while i < incoming.len()
        invariant
            i <= incoming.len(),
            unique_component_keys(components_seq_view(merged@)),
            unique_component_keys(components_seq_view(incoming@)),
            forall|k: int|
                0 <= k < i ==> !has_component(
                    components_seq_view(merged@),
                    (#[trigger] components_seq_view(incoming@)[k]).category,
                    components_seq_view(incoming@)[k].name,
                ),
        decreases incoming.len() - i,
    {
        if find_component(merged, incoming[i].category, &incoming[i].name) {
            proof {
                lemma_unique_concat_components(
                    components_seq_view(merged@),
                    components_seq_view(incoming@),
                );
                assert(has_component(
                    components_seq_view(merged@),
                    components_seq_view(incoming@)[i as int].category,
                    components_seq_view(incoming@)[i as int].name,
                ));
            }
            return true;
        }
        i += 1;
    }
    proof {
        lemma_unique_concat_components(
            components_seq_view(merged@),
            components_seq_view(incoming@),
        );
    }
    false
}

fn any_path_collision(merged: &Vec<PathEntry>, incoming: &Vec<PathEntry>) -> (res: bool)
    requires
        unique_path_templates(paths_seq_view(merged@)),
    ensures
        res == !unique_path_templates(paths_seq_view(merged@) + paths_seq_view(incoming@)),
{
    let mut i: usize = 0;
    while i < incoming.len()
        invariant
            i <= incoming.len(),
            unique_path_templates(paths_seq_view(merged@)),
            forall|k: int|
                0 <= k < i ==> !has_path(
                    paths_seq_view(merged@),
                    (#[trigger] paths_seq_view(incoming@)[k]).template,
                ),
            forall|k1: int, k2: int|
                0 <= k1 < k2 < i ==> (#[trigger] paths_seq_view(incoming@)[k1]).template != (
                #[trigger] paths_seq_view(incoming@)[k2]).template,
        decreases incoming.len() - i,
    {
        if find_path(merged, &incoming[i].template) {
            proof {
                lemma_unique_concat_paths(paths_seq_view(merged@), paths_seq_view(incoming@));
                assert(has_path(
                    paths_seq_view(merged@),
                    paths_seq_view(incoming@)[i as int].template,
                ));
            }
            return true;
        }
        let mut j: usize = 0;
        while j < i
            invariant
                j <= i < incoming.len(),
                unique_path_templates(paths_seq_view(merged@)),
                forall|k: int|
                    0 <= k < j ==> (#[trigger] paths_seq_view(incoming@)[k]).template
                        != paths_seq_view(incoming@)[i as int].template,
            decreases i - j,
        {
            if incoming[j].template.eq(&incoming[i].template) {
                proof {
                    lemma_unique_concat_paths(
                        paths_seq_view(merged@),
                        paths_seq_view(incoming@),
                    );
                    assert(paths_seq_view(incoming@)[j as int].template == paths_seq_view(
                        incoming@,
                    )[i as int].template);
                    assert(!unique_path_templates(paths_seq_view(incoming@)));
                }
                return true;
            }
            j += 1;
        }
        i += 1;
    }
    proof {
        lemma_unique_concat_paths(paths_seq_view(merged@), paths_seq_view(incoming@));
    }
    false
}

fn mount_path_entries(paths: Vec<PathEntry>, mount_path: &str) -> (res: Vec<PathEntry>)
    ensures
        paths_seq_view(res@) == mounted_paths(paths_seq_view(paths@), mount_path@),
{
    let mut work = paths;
    let ghost orig = work@;
    let mut res: Vec<PathEntry> = Vec::new();
    while work.len() > 0
        invariant
            res@.len() + work@.len() == orig.len(),
            work@ == orig.subrange(res@.len() as int, orig.len() as int),
            forall|k: int|
                0 <= k < res@.len() ==> path_entry_view(#[trigger] res@[k]) == (SpecPathEntry {
                    template: join_paths_spec(mount_path@, paths_seq_view(orig)[k].template),
                    item: paths_seq_view(orig)[k].item,
                }),
        decreases work.len(),
    {
        let ghost done = res@.len() as int;
        let e = work.remove(0);
        proof {
            assert(e == orig.subrange(done, orig.len() as int)[0]);
            assert(e == orig[done]);
            assert(work@ =~= orig.subrange(done + 1, orig.len() as int));
        }
        let template = join_paths(mount_path, e.template.as_str());
        res.push(PathEntry { template, item: e.item });
        proof {
            assert(paths_seq_view(orig)[done] == path_entry_view(orig[done]));
        }
    }
    proof {
        assert(paths_seq_view(res@) =~= mounted_paths(paths_seq_view(paths@), mount_path@));
    }
    res
}

impl OpenAPIJoiner {
    /// A joiner whose merged document is empty.
    pub fn new() -> (res: OpenAPIJoiner)
        ensures
            res@.merged.info == Option::<SpecInfo>::None,
            res@.merged.security == Option::<Seq<Seq<char>>>::None,
            res@.merged.paths == Seq::<SpecPathEntry>::empty(),
            res@.merged.components == Seq::<SpecComponent>::empty(),
            res@.prefixes == Seq::<Seq<char>>::empty(),
            joiner_inv(res@),
    {
        let res = OpenAPIJoiner {
            merged: Document {
                info: Option::None,
                security: Option::None,
                paths: Vec::new(),
                components: Vec::new(),
            },
            prefixes: Vec::new(),
        };
        proof {
            assert(res@.merged.paths =~= Seq::<SpecPathEntry>::empty());
            assert(res@.merged.components =~= Seq::<SpecComponent>::empty());
            assert(res@.prefixes =~= Seq::<Seq<char>>::empty());
        }
        res
    }

    /// Merges one document under its mount path and prefix: renames and
    /// re-links the document's components, mounts its path templates, and
    /// unions the result into the merged document. On any failure the
    /// merged document is left exactly as it was.
    pub fn add(&mut self, document: Document, mount_path: &str, prefix: &str) -> (res: Result<
        (),
        JoinError,
    >)
        requires
            joiner_inv(old(self)@),
            doc_wf(document@),
        ensures
            joiner_inv(final(self)@),
            (match add_spec(old(self)@, document@, mount_path@, prefix@) {
                Result::Ok(js) => res == Result::<(), JoinError>::Ok(()) && final(self)@ == js,
                Result::Err(e) => res == Result::<(), JoinError>::Err(e) && final(self)@ == old(
                    self,
                )@,
            }),
    {
        let prefix_string = prefix.to_owned();
        if prefix_used(&self.prefixes, &prefix_string) {
            return Result::Err(JoinError::PrefixCollision);
        }
        if doc_has_external_exec(&document) {
            return Result::Err(JoinError::UnsupportedReference);
        }
        let rewritten = rewrite_document(&document, prefix);
        let ghost r = rewrite_document_spec(document@, prefix@);
        proof {
            lemma_rewrite_document_wf(document@, prefix@);
        }
        let Document { info, security, paths, components } = rewritten;
        let mut components = components;
        proof {
            assert(components_seq_view(components@) == r.components);
            assert(paths_seq_view(paths@) == r.paths);
        }
        if any_component_collision(&self.merged.components, &components) {
            return Result::Err(JoinError::ComponentCollision);
        }
        let mut mounted = mount_path_entries(paths, mount_path);
        if any_path_collision(&self.merged.paths, &mounted) {
            return Result::Err(JoinError::PathCollision);
        }
        if self.prefixes.len() == 0 {
            self.merged.info = info;
            self.merged.security = security;
        }
        self.merged.components.append(&mut components);
        self.merged.paths.append(&mut mounted);
        self.prefixes.push(prefix_string);
        proof {
            let old_m = old(self)@.merged;
            let mp = mounted_paths(r.paths, mount_path@);
            assert(components_seq_view(self.merged.components@) =~= old_m.components
                + r.components);
            assert(paths_seq_view(self.merged.paths@) =~= old_m.paths + mp);
            assert(self.prefixes.deep_view() =~= old(self)@.prefixes.push(prefix@));
            lemma_merge_closed(old_m, r, mount_path@, self@.merged);
            let js = match add_spec(old(self)@, document@, mount_path@, prefix@) {
                Result::Ok(js) => js,
                Result::Err(_) => old(self)@,
            };
            assert(self@.merged == js.merged);
            assert(self@ == js);
        }
        Result::Ok(())
    }
}

} // verus!
