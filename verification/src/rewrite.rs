//! The reference rewriter: a pure pass that renames every component key to
//! `<prefix>_<name>` and rewrites every component `$ref` in lockstep, so
//! that several documents can later share one component namespace without
//! collisions or dangling references.

use vstd::prelude::*;

use crate::document::{
    component_view, doc_has_external, doc_wf, has_component, item_has_external,
    item_refs_resolve, lemma_property_seq_view, lemma_props_all_resolve,
    lemma_props_any_external,
    lemma_schema_seq_view, lemma_seq_all_resolve, lemma_seq_any_external, operation_view,
    path_entry_view, property_seq_view, schema_has_external, schema_refs_resolve,
    schema_seq_view, schema_view, seq_all_resolve, seq_any_external, unique_component_keys,
    Category, ComponentEntry, Document, Info, Operation, PathEntry, PathItem, Property,
    Reference, Schema, SpecComponent, SpecDocument, SpecPathEntry, SpecReference, SpecSchema,
};

verus! {

/// The renamed form of a component name: `<prefix>_<name>`.
pub open spec fn prefixed(prefix: Seq<char>, name: Seq<char>) -> Seq<char> {
    prefix + seq!['_'] + name
}

/// What rewriting does to one `$ref`: a component reference has its name
/// renamed, anything else is left verbatim.
pub open spec fn rewrite_ref_spec(r: SpecReference, prefix: Seq<char>) -> SpecReference {
    match r {
        SpecReference::Component(category, name) => SpecReference::Component(
            category,
            prefixed(prefix, name),
        ),
        SpecReference::External(s) => SpecReference::External(s),
    }
}

/// What rewriting does to a schema tree: every `$ref` node is rewritten,
/// everything else is kept as it is.
pub open spec fn rewrite_schema_spec(s: SpecSchema, prefix: Seq<char>) -> SpecSchema
    decreases s,
{
    match s {
        SpecSchema::Ref(r) => SpecSchema::Ref(rewrite_ref_spec(r, prefix)),
        SpecSchema::AllOf(v) => SpecSchema::AllOf(rewrite_schema_seq(v, prefix)),
        SpecSchema::OneOf(v) => SpecSchema::OneOf(rewrite_schema_seq(v, prefix)),
        SpecSchema::AnyOf(v) => SpecSchema::AnyOf(rewrite_schema_seq(v, prefix)),
        SpecSchema::Array(b) => SpecSchema::Array(Box::new(rewrite_schema_spec(*b, prefix))),
        SpecSchema::Object { properties, additional } => SpecSchema::Object {
            properties: rewrite_property_seq(properties, prefix),
            additional: match additional {
                Option::Some(b) => Option::Some(Box::new(rewrite_schema_spec(*b, prefix))),
                Option::None => Option::None,
            },
        },
        SpecSchema::Primitive => SpecSchema::Primitive,
    }
}

/// Rewriting, mapped over a sequence of subschemas.
pub open spec fn rewrite_schema_seq(v: Seq<SpecSchema>, prefix: Seq<char>) -> Seq<SpecSchema>
    decreases v,
{
    if v.len() == 0 {
        Seq::empty()
    } else {
        rewrite_schema_seq(v.drop_last(), prefix).push(
            rewrite_schema_spec(v[v.len() - 1], prefix),
        )
    }
}

/// Rewriting, mapped over object properties; property names stay.
pub open spec fn rewrite_property_seq(
    v: Seq<(Seq<char>, SpecSchema)>,
    prefix: Seq<char>,
) -> Seq<(Seq<char>, SpecSchema)>
    decreases v,
{
    if v.len() == 0 {
        Seq::empty()
    } else {
        rewrite_property_seq(v.drop_last(), prefix).push(
            (v[v.len() - 1].0, rewrite_schema_spec(v[v.len() - 1].1, prefix)),
        )
    }
}

pub proof fn lemma_rewrite_schema_seq(v: Seq<SpecSchema>, prefix: Seq<char>)
    ensures
        rewrite_schema_seq(v, prefix).len() == v.len(),
        forall|i: int|
            0 <= i < v.len() ==> rewrite_schema_seq(v, prefix)[i] == rewrite_schema_spec(
                v[i],
                prefix,
            ),
    decreases v,
{
    if v.len() > 0 {
        lemma_rewrite_schema_seq(v.drop_last(), prefix);
    }
}

pub proof fn lemma_rewrite_property_seq(v: Seq<(Seq<char>, SpecSchema)>, prefix: Seq<char>)
    ensures
        rewrite_property_seq(v, prefix).len() == v.len(),
        forall|i: int|
            0 <= i < v.len() ==> rewrite_property_seq(v, prefix)[i] == (
                v[i].0,
                rewrite_schema_spec(v[i].1, prefix),
            ),
    decreases v,
{
    if v.len() > 0 {
        lemma_rewrite_property_seq(v.drop_last(), prefix);
    }
}

/// Rewriting, mapped over a path item's operations.
pub open spec fn rewrite_item_spec(
    item: Seq<(Seq<char>, SpecSchema)>,
    prefix: Seq<char>,
) -> Seq<(Seq<char>, SpecSchema)> {
    item.map_values(|e: (Seq<char>, SpecSchema)| (e.0, rewrite_schema_spec(e.1, prefix)))
}

/// Rewriting, mapped over the component mapping: keys renamed, definitions
/// rewritten, categories kept.
pub open spec fn rewrite_components_spec(
    cs: Seq<SpecComponent>,
    prefix: Seq<char>,
) -> Seq<SpecComponent> {
    cs.map_values(
        |c: SpecComponent| SpecComponent {
            category: c.category,
            name: prefixed(prefix, c.name),
            definition: rewrite_schema_spec(c.definition, prefix),
        },
    )
}

/// Rewriting, mapped over the path mapping; templates stay (mounting is the
/// joiner's job, not the rewriter's).
pub open spec fn rewrite_paths_spec(ps: Seq<SpecPathEntry>, prefix: Seq<char>) -> Seq<
    SpecPathEntry,
> {
    ps.map_values(
        |e: SpecPathEntry| SpecPathEntry {
            template: e.template,
            item: rewrite_item_spec(e.item, prefix),
        },
    )
}

/// What rewriting does to a whole document. `info` and `security` are not
/// the rewriter's concern and pass through unchanged.
pub open spec fn rewrite_document_spec(d: SpecDocument, prefix: Seq<char>) -> SpecDocument {
    SpecDocument {
        info: d.info,
        security: d.security,
        paths: rewrite_paths_spec(d.paths, prefix),
        components: rewrite_components_spec(d.components, prefix),
    }
}

/// Renaming under one prefix never makes two distinct names equal.
pub proof fn lemma_prefixed_injective(prefix: Seq<char>, n1: Seq<char>, n2: Seq<char>)
    requires
        prefixed(prefix, n1) == prefixed(prefix, n2),
    ensures
        n1 == n2,
{
    assert(prefixed(prefix, n1).len() == prefix.len() + 1 + n1.len());
    assert(prefixed(prefix, n2).len() == prefix.len() + 1 + n2.len());
    assert(n1 =~= n2) by {
        assert forall|i: int| 0 <= i < n1.len() implies n1[i] == n2[i] by {
            assert(prefixed(prefix, n1)[prefix.len() + 1 + i] == n1[i]);
            assert(prefixed(prefix, n2)[prefix.len() + 1 + i] == n2[i]);
        }
    }
}

/// A key that resolves before renaming resolves, renamed, afterwards.
pub proof fn lemma_rewrite_components_key(
    cs: Seq<SpecComponent>,
    prefix: Seq<char>,
    category: Category,
    name: Seq<char>,
)
    requires
        has_component(cs, category, name),
    ensures
        has_component(rewrite_components_spec(cs, prefix), category, prefixed(prefix, name)),
{
    let i = choose|i: int|
        0 <= i < cs.len() && cs[i].category == category && cs[i].name == name;
    assert(rewrite_components_spec(cs, prefix)[i].category == category);
    assert(rewrite_components_spec(cs, prefix)[i].name == prefixed(prefix, name));
}

/// Rewriting keeps every component ref resolvable: refs and component keys
/// are renamed in lockstep.
pub proof fn lemma_rewrite_schema_resolves(
    s: SpecSchema,
    cs: Seq<SpecComponent>,
    prefix: Seq<char>,
)
    requires
        schema_refs_resolve(s, cs),
    ensures
        schema_refs_resolve(
            rewrite_schema_spec(s, prefix),
            rewrite_components_spec(cs, prefix),
        ),
    decreases s,
{
    let rcs = rewrite_components_spec(cs, prefix);
    match s {
        SpecSchema::Ref(r) => match r {
            SpecReference::Component(category, name) => {
                lemma_rewrite_components_key(cs, prefix, category, name);
            },
            SpecReference::External(_) => {},
        },
        SpecSchema::AllOf(v) => {
            lemma_rewrite_seq_resolves(v, cs, prefix);
            let w = rewrite_schema_seq(v, prefix);
            assert(rewrite_schema_spec(s, prefix) == SpecSchema::AllOf(w));
            assert(schema_refs_resolve(SpecSchema::AllOf(w), rcs));
        },
        SpecSchema::OneOf(v) => {
            lemma_rewrite_seq_resolves(v, cs, prefix);
            let w = rewrite_schema_seq(v, prefix);
            assert(rewrite_schema_spec(s, prefix) == SpecSchema::OneOf(w));
            assert(schema_refs_resolve(SpecSchema::OneOf(w), rcs));
        },
        SpecSchema::AnyOf(v) => {
            lemma_rewrite_seq_resolves(v, cs, prefix);
            let w = rewrite_schema_seq(v, prefix);
            assert(rewrite_schema_spec(s, prefix) == SpecSchema::AnyOf(w));
            assert(schema_refs_resolve(SpecSchema::AnyOf(w), rcs));
        },
        SpecSchema::Array(b) => {
            lemma_rewrite_schema_resolves(*b, cs, prefix);
        },
        SpecSchema::Object { properties, additional } => {
            let w = rewrite_property_seq(properties, prefix);
            lemma_rewrite_property_seq(properties, prefix);
            lemma_props_all_resolve(properties, cs);
            lemma_props_all_resolve(w, rcs);
            assert forall|i: int|
                0 <= i < w.len() implies schema_refs_resolve(#[trigger] w[i].1, rcs) by {
                assert(schema_refs_resolve(properties[i].1, cs));
                lemma_rewrite_schema_resolves(properties[i].1, cs, prefix);
            }
            match additional {
                Option::Some(b) => {
                    lemma_rewrite_schema_resolves(*b, cs, prefix);
                },
                Option::None => {},
            }
        },
        SpecSchema::Primitive => {},
    }
}

/// `lemma_rewrite_schema_resolves`, over a sequence of subschemas.
proof fn lemma_rewrite_seq_resolves(
    v: Seq<SpecSchema>,
    cs: Seq<SpecComponent>,
    prefix: Seq<char>,
)
    requires
        seq_all_resolve(v, cs),
    ensures
        seq_all_resolve(rewrite_schema_seq(v, prefix), rewrite_components_spec(cs, prefix)),
    decreases v,
{
    let w = rewrite_schema_seq(v, prefix);
    let rcs = rewrite_components_spec(cs, prefix);
    lemma_rewrite_schema_seq(v, prefix);
    lemma_seq_all_resolve(v, cs);
    lemma_seq_all_resolve(w, rcs);
    assert forall|i: int| 0 <= i < w.len() implies schema_refs_resolve(#[trigger] w[i], rcs) by {
        assert(schema_refs_resolve(v[i], cs));
        lemma_rewrite_schema_resolves(v[i], cs, prefix);
    }
}

/// Rewriting introduces no reference outside `#/components/...`.
pub proof fn lemma_rewrite_schema_external(s: SpecSchema, prefix: Seq<char>)
    requires
        !schema_has_external(s),
    ensures
        !schema_has_external(rewrite_schema_spec(s, prefix)),
    decreases s,
{
    match s {
        SpecSchema::Ref(_) => {},
        SpecSchema::AllOf(v) => {
            lemma_rewrite_seq_external(v, prefix);
            let w = rewrite_schema_seq(v, prefix);
            assert(rewrite_schema_spec(s, prefix) == SpecSchema::AllOf(w));
            assert(!schema_has_external(SpecSchema::AllOf(w)));
        },
        SpecSchema::OneOf(v) => {
            lemma_rewrite_seq_external(v, prefix);
            let w = rewrite_schema_seq(v, prefix);
            assert(rewrite_schema_spec(s, prefix) == SpecSchema::OneOf(w));
            assert(!schema_has_external(SpecSchema::OneOf(w)));
        },
        SpecSchema::AnyOf(v) => {
            lemma_rewrite_seq_external(v, prefix);
            let w = rewrite_schema_seq(v, prefix);
            assert(rewrite_schema_spec(s, prefix) == SpecSchema::AnyOf(w));
            assert(!schema_has_external(SpecSchema::AnyOf(w)));
        },
        SpecSchema::Array(b) => {
            lemma_rewrite_schema_external(*b, prefix);
        },
        SpecSchema::Object { properties, additional } => {
            let w = rewrite_property_seq(properties, prefix);
            lemma_rewrite_property_seq(properties, prefix);
            lemma_props_any_external(properties);
            lemma_props_any_external(w);
            assert forall|i: int|
                0 <= i < w.len() implies !schema_has_external(#[trigger] w[i].1) by {
                assert(!schema_has_external(properties[i].1));
                lemma_rewrite_schema_external(properties[i].1, prefix);
            }
            match additional {
                Option::Some(b) => {
                    lemma_rewrite_schema_external(*b, prefix);
                },
                Option::None => {},
            }
        },
        SpecSchema::Primitive => {},
    }
}

/// `lemma_rewrite_schema_external`, over a sequence of subschemas.
proof fn lemma_rewrite_seq_external(v: Seq<SpecSchema>, prefix: Seq<char>)
    requires
        !seq_any_external(v),
    ensures
        !seq_any_external(rewrite_schema_seq(v, prefix)),
    decreases v,
{
    let w = rewrite_schema_seq(v, prefix);
    lemma_rewrite_schema_seq(v, prefix);
    lemma_seq_any_external(v);
    lemma_seq_any_external(w);
    assert forall|i: int| 0 <= i < w.len() implies !schema_has_external(#[trigger] w[i]) by {
        assert(!schema_has_external(v[i]));
        lemma_rewrite_schema_external(v[i], prefix);
    }
}

/// Renaming keeps the component keys pairwise distinct.
pub proof fn lemma_rewrite_components_unique(cs: Seq<SpecComponent>, prefix: Seq<char>)
    requires
        unique_component_keys(cs),
    ensures
        unique_component_keys(rewrite_components_spec(cs, prefix)),
{
    let rcs = rewrite_components_spec(cs, prefix);
    assert forall|i: int, j: int|
        0 <= i < j < rcs.len() implies !(#[trigger] rcs[i].category == #[trigger] rcs[j].category
        && rcs[i].name == rcs[j].name) by {
        if rcs[i].category == rcs[j].category && rcs[i].name == rcs[j].name {
            lemma_prefixed_injective(prefix, cs[i].name, cs[j].name);
            assert(cs[i].category == cs[j].category && cs[i].name == cs[j].name);
        }
    }
}

/// The rewriter's structural guarantees at document level: a well-formed
/// document stays well-formed, no external references appear, templates
/// stay, and every component key is the renamed original.
pub proof fn lemma_rewrite_document_wf(d: SpecDocument, prefix: Seq<char>)
    requires
        doc_wf(d),
    ensures
        doc_wf(rewrite_document_spec(d, prefix)),
        !doc_has_external(d) ==> !doc_has_external(rewrite_document_spec(d, prefix)),
        rewrite_document_spec(d, prefix).paths.len() == d.paths.len(),
        forall|i: int|
            0 <= i < d.paths.len() ==> (#[trigger] rewrite_document_spec(
                d,
                prefix,
            ).paths[i]).template == d.paths[i].template,
        rewrite_document_spec(d, prefix).components.len() == d.components.len(),
        forall|i: int|
            0 <= i < d.components.len() ==> (#[trigger] rewrite_document_spec(
                d,
                prefix,
            ).components[i]).name == prefixed(prefix, d.components[i].name),
{
    let r = rewrite_document_spec(d, prefix);
    lemma_rewrite_components_unique(d.components, prefix);
    assert forall|i: int|
        0 <= i < r.paths.len() implies item_refs_resolve(
        #[trigger] r.paths[i].item,
        r.components,
    ) by {
        let item = d.paths[i].item;
        let witem = rewrite_item_spec(item, prefix);
        assert(item_refs_resolve(item, d.components));
        assert forall|k: int|
            0 <= k < witem.len() implies schema_refs_resolve(
            #[trigger] witem[k].1,
            r.components,
        ) by {
            assert(schema_refs_resolve(item[k].1, d.components));
            lemma_rewrite_schema_resolves(item[k].1, d.components, prefix);
        }
    }
    assert forall|i: int|
        0 <= i < r.components.len() implies schema_refs_resolve(
        (#[trigger] r.components[i]).definition,
        r.components,
    ) by {
        assert(schema_refs_resolve(d.components[i].definition, d.components));
        lemma_rewrite_schema_resolves(d.components[i].definition, d.components, prefix);
    }
    if !doc_has_external(d) {
        assert forall|i: int|
            0 <= i < r.paths.len() implies !item_has_external(#[trigger] r.paths[i].item) by {
            let item = d.paths[i].item;
            let witem = rewrite_item_spec(item, prefix);
            assert(!item_has_external(item));
            assert forall|k: int|
                0 <= k < witem.len() implies !schema_has_external(#[trigger] witem[k].1) by {
                assert(!schema_has_external(item[k].1));
                lemma_rewrite_schema_external(item[k].1, prefix);
            }
        }
        assert forall|i: int|
            0 <= i < r.components.len() implies !schema_has_external(
            (#[trigger] r.components[i]).definition,
        ) by {
            assert(!schema_has_external(d.components[i].definition));
            lemma_rewrite_schema_external(d.components[i].definition, prefix);
        }
    }
}

/// Rewriting is deterministic and pure: its outcome is fixed by the
/// document and the prefix alone, so running it again over the same input
/// yields the identical output.
pub proof fn lemma_rewrite_deterministic(
    d: SpecDocument,
    prefix: Seq<char>,
    r1: SpecDocument,
    r2: SpecDocument,
)
    requires
        r1 == rewrite_document_spec(d, prefix),
        r2 == rewrite_document_spec(d, prefix),
    ensures
        r1 == r2,
{
}

/// Builds `<prefix>_<name>`.
pub fn prefixed_name(prefix: &str, name: &str) -> (res: String)
    ensures
        res@ == prefixed(prefix@, name@),
{
    let mut s: String = prefix.to_owned();
    s.append("_");
    s.append(name);
    proof {
        reveal_strlit("_");
        assert("_"@ =~= seq!['_']);
        assert(s@ =~= prefixed(prefix@, name@));
    }
    s
}

fn rewrite_reference(r: &Reference, prefix: &str) -> (res: Reference)
    ensures
        res@ == rewrite_ref_spec(r@, prefix@),
{
    match r {
        Reference::Component { category, name } => Reference::Component {
            category: *category,
            name: prefixed_name(prefix, name.as_str()),
        },
        Reference::External(s) => Reference::External(s.clone()),
    }
}

/// Rewrites one schema tree, building a fresh copy; the input is not
/// touched.
pub fn rewrite_schema(s: &Schema, prefix: &str) -> (res: Schema)
    ensures
        schema_view(res) == rewrite_schema_spec(schema_view(*s), prefix@),
    decreases *s,
{
    match s {
        Schema::Ref(r) => Schema::Ref(rewrite_reference(r, prefix)),
        Schema::AllOf(v) => Schema::AllOf(rewrite_schema_vec(v, prefix)),
        Schema::OneOf(v) => Schema::OneOf(rewrite_schema_vec(v, prefix)),
        Schema::AnyOf(v) => Schema::AnyOf(rewrite_schema_vec(v, prefix)),
        Schema::Array(b) => Schema::Array(Box::new(rewrite_schema(b, prefix))),
        Schema::Object { properties, additional } => Schema::Object {
            properties: rewrite_properties(properties, prefix),
            additional: match additional {
                Option::Some(b) => Option::Some(Box::new(rewrite_schema(b, prefix))),
                Option::None => Option::None,
            },
        },
        Schema::Primitive => Schema::Primitive,
    }
}

fn rewrite_schema_vec(v: &Vec<Schema>, prefix: &str) -> (res: Vec<Schema>)
    ensures
        schema_seq_view(res@) == rewrite_schema_seq(schema_seq_view(v@), prefix@),
    decreases *v,
{
    let mut res: Vec<Schema> = Vec::new();
    let mut i: usize = 0;
    while i < v.len()
        invariant
            i <= v.len(),
            res@.len() == i,
            forall|k: int|
                0 <= k < i ==> schema_view(#[trigger] res@[k]) == rewrite_schema_spec(
                    schema_view(v@[k]),
                    prefix@,
                ),
        decreases v.len() - i,
    {
        let rs = rewrite_schema(&v[i], prefix);
        res.push(rs);
        i += 1;
    }
    proof {
        lemma_schema_seq_view(res@);
        lemma_schema_seq_view(v@);
        lemma_rewrite_schema_seq(schema_seq_view(v@), prefix@);
        assert(schema_seq_view(res@) =~= rewrite_schema_seq(schema_seq_view(v@), prefix@));
    }
    res
}

fn rewrite_properties(v: &Vec<Property>, prefix: &str) -> (res: Vec<Property>)
    ensures
        property_seq_view(res@) == rewrite_property_seq(property_seq_view(v@), prefix@),
    decreases *v,
{
    let mut res: Vec<Property> = Vec::new();
    let mut i: usize = 0;
    while i < v.len()
        invariant
            i <= v.len(),
            res@.len() == i,
            forall|k: int|
                0 <= k < i ==> (#[trigger] res@[k]).name@ == v@[k].name@ && schema_view(
                    res@[k].schema,
                ) == rewrite_schema_spec(schema_view(v@[k].schema), prefix@),
        decreases v.len() - i,
    {
        let p = Property { name: v[i].name.clone(), schema: rewrite_schema(&v[i].schema, prefix) };
        res.push(p);
        i += 1;
    }
    proof {
        lemma_property_seq_view(res@);
        lemma_property_seq_view(v@);
        lemma_rewrite_property_seq(property_seq_view(v@), prefix@);
        assert(property_seq_view(res@) =~= rewrite_property_seq(
            property_seq_view(v@),
            prefix@,
        ));
    }
    res
}

fn rewrite_path_item(p: &PathItem, prefix: &str) -> (res: PathItem)
    ensures
        res@ == rewrite_item_spec(p@, prefix@),
{
    let mut ops: Vec<Operation> = Vec::new();
    let mut i: usize = 0;
    while i < p.operations.len()
        invariant
            i <= p.operations.len(),
            ops@.len() == i,
            forall|k: int|
                0 <= k < i ==> operation_view(#[trigger] ops@[k]) == (
                    p.operations@[k].method@,
                    rewrite_schema_spec(schema_view(p.operations@[k].content), prefix@),
                ),
        decreases p.operations.len() - i,
    {
        let o = Operation {
            method: p.operations[i].method.clone(),
            content: rewrite_schema(&p.operations[i].content, prefix),
        };
        ops.push(o);
        i += 1;
    }
    let res = PathItem { operations: ops };
    proof {
        assert(res@ =~= rewrite_item_spec(p@, prefix@));
    }
    res
}

fn rewrite_component(c: &ComponentEntry, prefix: &str) -> (res: ComponentEntry)
    ensures
        component_view(res) == (SpecComponent {
            category: c.category,
            name: prefixed(prefix@, c.name@),
            definition: rewrite_schema_spec(schema_view(c.definition), prefix@),
        }),
{
    ComponentEntry {
        category: c.category,
        name: prefixed_name(prefix, c.name.as_str()),
        definition: rewrite_schema(&c.definition, prefix),
    }
}

fn clone_string_vec(v: &Vec<String>) -> (res: Vec<String>)
    ensures
        res.deep_view() == v.deep_view(),
{
    let mut res: Vec<String> = Vec::new();
    let mut i: usize = 0;
    while i < v.len()
        invariant
            i <= v.len(),
            res@.len() == i,
            forall|k: int| 0 <= k < i ==> (#[trigger] res@[k])@ == v@[k]@,
        decreases v.len() - i,
    {
        let s = v[i].clone();
        res.push(s);
        i += 1;
    }
    proof {
        assert(res.deep_view() =~= v.deep_view());
    }
    res
}

/// Rewrites a whole document with the given prefix. This is the pure
/// rewriter stage: the result is a function of the document and the prefix
/// alone, and the input document is left untouched.
pub fn rewrite_document(doc: &Document, prefix: &str) -> (res: Document)
    ensures
        res@ == rewrite_document_spec(doc@, prefix@),
{
    let info = match &doc.info {
        Option::Some(i) => Option::Some(
            Info { title: i.title.clone(), version: i.version.clone() },
        ),
        Option::None => Option::None,
    };
    let security = match &doc.security {
        Option::Some(s) => Option::Some(clone_string_vec(s)),
        Option::None => Option::None,
    };
    let mut paths: Vec<PathEntry> = Vec::new();
    let mut i: usize = 0;
    while i < doc.paths.len()
        invariant
            i <= doc.paths.len(),
            paths@.len() == i,
            forall|k: int|
                0 <= k < i ==> path_entry_view(#[trigger] paths@[k]) == (SpecPathEntry {
                    template: doc.paths@[k].template@,
                    item: rewrite_item_spec(doc.paths@[k].item@, prefix@),
                }),
        decreases doc.paths.len() - i,
    {
        let e = PathEntry {
            template: doc.paths[i].template.clone(),
            item: rewrite_path_item(&doc.paths[i].item, prefix),
        };
        paths.push(e);
        i += 1;
    }
    let mut components: Vec<ComponentEntry> = Vec::new();
    let mut j: usize = 0;
    while j < doc.components.len()
        invariant
            j <= doc.components.len(),
            components@.len() == j,
            forall|k: int|
                0 <= k < j ==> component_view(#[trigger] components@[k]) == (SpecComponent {
                    category: doc.components@[k].category,
                    name: prefixed(prefix@, doc.components@[k].name@),
                    definition: rewrite_schema_spec(
                        schema_view(doc.components@[k].definition),
                        prefix@,
                    ),
                }),
        decreases doc.components.len() - j,
    {
        let c = rewrite_component(&doc.components[j], prefix);
        components.push(c);
        j += 1;
    }
    let res = Document { info, security, paths, components };
    proof {
        assert(res@.paths =~= rewrite_document_spec(doc@, prefix@).paths);
        assert(res@.components =~= rewrite_document_spec(doc@, prefix@).components);
        assert(res@ =~= rewrite_document_spec(doc@, prefix@));
    }
    res
}

} // verus!
