//! The document model: a tree shaped like an OpenAPI description, keeping as
//! plain values exactly what the merge engine reads — path templates,
//! component names and every place a `$ref` can occur.

use vstd::prelude::*;

verus! {

/// The categories of reusable components an OpenAPI document may define
/// under `components`.
#[derive(Clone, Copy, PartialEq, Eq, Structural, Debug)]
pub enum Category {
    Schemas,
    Responses,
    Parameters,
    Examples,
    RequestBodies,
    Headers,
    SecuritySchemes,
    Links,
    Callbacks,
}

/// A `$ref` occurrence. A reference into the document's own
/// `#/components/<category>/<name>` namespace is kept parsed; anything else
/// (external files, other pointers) is kept verbatim and cannot be relocated.
#[derive(Debug)]
pub enum Reference {
    Component { category: Category, name: String },
    External(String),
}

/// The ref-bearing skeleton of a schema or of any other component
/// definition, as a tagged tree so that a traversal is exhaustive.
#[derive(Debug)]
pub enum Schema {
    /// A `$ref` node.
    Ref(Reference),
    /// `allOf` composition.
    AllOf(Vec<Schema>),
    /// `oneOf` composition.
    OneOf(Vec<Schema>),
    /// `anyOf` composition.
    AnyOf(Vec<Schema>),
    /// An array schema; the box holds `items`.
    Array(Box<Schema>),
    /// An object schema: named `properties` and, optionally,
    /// `additionalProperties`.
    Object { properties: Vec<Property>, additional: Option<Box<Schema>> },
    /// A leaf with no references inside (a primitive type, a literal, ...).
    Primitive,
}

/// One named property of an object schema.
#[derive(Debug)]
pub struct Property {
    pub name: String,
    pub schema: Schema,
}

/// Spec-level mirror of `Reference`, over sequences of characters.
pub enum SpecReference {
    Component(Category, Seq<char>),
    External(Seq<char>),
}

/// Spec-level mirror of `Schema`.
pub enum SpecSchema {
    Ref(SpecReference),
    AllOf(Seq<SpecSchema>),
    OneOf(Seq<SpecSchema>),
    AnyOf(Seq<SpecSchema>),
    Array(Box<SpecSchema>),
    Object { properties: Seq<(Seq<char>, SpecSchema)>, additional: Option<Box<SpecSchema>> },
    Primitive,
}

impl View for Reference {
    type V = SpecReference;

    open spec fn view(&self) -> SpecReference {
        match self {
            Reference::Component { category, name } => SpecReference::Component(
                *category,
                name@,
            ),
            Reference::External(s) => SpecReference::External(s@),
        }
    }
}

/// The mathematical value of a schema tree.
pub open spec fn schema_view(s: Schema) -> SpecSchema
    decreases s,
{
    match s {
        Schema::Ref(r) => SpecSchema::Ref(r@),
        Schema::AllOf(v) => SpecSchema::AllOf(schema_seq_view(v@)),
        Schema::OneOf(v) => SpecSchema::OneOf(schema_seq_view(v@)),
        Schema::AnyOf(v) => SpecSchema::AnyOf(schema_seq_view(v@)),
        Schema::Array(b) => SpecSchema::Array(Box::new(schema_view(*b))),
        Schema::Object { properties, additional } => SpecSchema::Object {
            properties: property_seq_view(properties@),
            additional: match additional {
                Option::Some(b) => Option::Some(Box::new(schema_view(*b))),
                Option::None => Option::None,
            },
        },
        Schema::Primitive => SpecSchema::Primitive,
    }
}

/// The views of a sequence of schema trees, element by element.
pub open spec fn schema_seq_view(v: Seq<Schema>) -> Seq<SpecSchema>
    decreases v,
{
    if v.len() == 0 {
        Seq::empty()
    } else {
        schema_seq_view(v.drop_last()).push(schema_view(v[v.len() - 1]))
    }
}

/// The views of a sequence of object properties, element by element.
pub open spec fn property_seq_view(v: Seq<Property>) -> Seq<(Seq<char>, SpecSchema)>
    decreases v,
{
    if v.len() == 0 {
        Seq::empty()
    } else {
        property_seq_view(v.drop_last()).push(
            (v[v.len() - 1].name@, schema_view(v[v.len() - 1].schema)),
        )
    }
}

impl View for Schema {
    type V = SpecSchema;

    open spec fn view(&self) -> SpecSchema {
        schema_view(*self)
    }
}

/// The element views line up with the elements.
pub proof fn lemma_schema_seq_view(v: Seq<Schema>)
    ensures
        schema_seq_view(v).len() == v.len(),
        forall|i: int| 0 <= i < v.len() ==> schema_seq_view(v)[i] == schema_view(v[i]),
    decreases v,
{
    if v.len() > 0 {
        lemma_schema_seq_view(v.drop_last());
    }
}

/// The property views line up with the properties.
pub proof fn lemma_property_seq_view(v: Seq<Property>)
    ensures
        property_seq_view(v).len() == v.len(),
        forall|i: int| 0 <= i < v.len() ==> property_seq_view(v)[i] == (
            v[i].name@,
            schema_view(v[i].schema),
        ),
    decreases v,
{
    if v.len() > 0 {
        lemma_property_seq_view(v.drop_last());
    }
}

/// One operation of a path item (`get`, `post`, ...) together with the
/// ref-bearing skeleton of its parameters, request body and responses.
#[derive(Debug)]
pub struct Operation {
    pub method: String,
    pub content: Schema,
}

/// The set of operations defined for one path template.
#[derive(Debug)]
pub struct PathItem {
    pub operations: Vec<Operation>,
}

/// One named component definition under `components.<category>`.
#[derive(Debug)]
pub struct ComponentEntry {
    pub category: Category,
    pub name: String,
    pub definition: Schema,
}

/// One entry of `paths`: a path template and its path item.
#[derive(Debug)]
pub struct PathEntry {
    pub template: String,
    pub item: PathItem,
}

/// The top-level `info` metadata the merge policy cares about.
#[derive(Debug)]
pub struct Info {
    pub title: String,
    pub version: String,
}

/// An OpenAPI document, reduced to what merging reads: metadata, the path
/// mapping and the component mapping.
#[derive(Debug)]
pub struct Document {
    pub info: Option<Info>,
    pub security: Option<Vec<String>>,
    pub paths: Vec<PathEntry>,
    pub components: Vec<ComponentEntry>,
}

/// Spec-level mirror of `ComponentEntry`.
pub struct SpecComponent {
    pub category: Category,
    pub name: Seq<char>,
    pub definition: SpecSchema,
}

/// Spec-level mirror of `PathEntry`; the item is its operations, viewed.
pub struct SpecPathEntry {
    pub template: Seq<char>,
    pub item: Seq<(Seq<char>, SpecSchema)>,
}

/// Spec-level mirror of `Info`.
pub struct SpecInfo {
    pub title: Seq<char>,
    pub version: Seq<char>,
}

/// Spec-level mirror of `Document`.
pub struct SpecDocument {
    pub info: Option<SpecInfo>,
    pub security: Option<Seq<Seq<char>>>,
    pub paths: Seq<SpecPathEntry>,
    pub components: Seq<SpecComponent>,
}

/// The mathematical value of one operation.
pub open spec fn operation_view(o: Operation) -> (Seq<char>, SpecSchema) {
    (o.method@, schema_view(o.content))
}

impl View for PathItem {
    type V = Seq<(Seq<char>, SpecSchema)>;

    open spec fn view(&self) -> Seq<(Seq<char>, SpecSchema)> {
        self.operations@.map_values(|o: Operation| operation_view(o))
    }
}

/// The mathematical value of one component entry.
pub open spec fn component_view(c: ComponentEntry) -> SpecComponent {
    SpecComponent { category: c.category, name: c.name@, definition: schema_view(c.definition) }
}

/// The mathematical value of one path entry.
pub open spec fn path_entry_view(p: PathEntry) -> SpecPathEntry {
    SpecPathEntry { template: p.template@, item: p.item@ }
}

impl View for Info {
    type V = SpecInfo;

    open spec fn view(&self) -> SpecInfo {
        SpecInfo { title: self.title@, version: self.version@ }
    }
}

/// The views of a sequence of component entries, element by element.
pub open spec fn components_seq_view(v: Seq<ComponentEntry>) -> Seq<SpecComponent> {
    v.map_values(|c: ComponentEntry| component_view(c))
}

/// The views of a sequence of path entries, element by element.
pub open spec fn paths_seq_view(v: Seq<PathEntry>) -> Seq<SpecPathEntry> {
    v.map_values(|p: PathEntry| path_entry_view(p))
}

impl View for Document {
    type V = SpecDocument;

    open spec fn view(&self) -> SpecDocument {
        SpecDocument {
            info: match self.info {
                Option::Some(i) => Option::Some(i@),
                Option::None => Option::None,
            },
            security: match self.security {
                Option::Some(s) => Option::Some(s.deep_view()),
                Option::None => Option::None,
            },
            paths: paths_seq_view(self.paths@),
            components: components_seq_view(self.components@),
        }
    }
}

/// Whether the path mapping has an entry under `template`.
pub open spec fn has_path(ps: Seq<SpecPathEntry>, template: Seq<char>) -> bool {
    exists|i: int| 0 <= i < ps.len() && ps[i].template == template
}

/// Whether the component sequence defines `name` under `category`.
pub open spec fn has_component(cs: Seq<SpecComponent>, category: Category, name: Seq<char>) -> bool {
    exists|i: int| 0 <= i < cs.len() && cs[i].category == category && cs[i].name == name
}

/// Whether every component `$ref` inside the schema resolves to an entry of
/// `cs`. External references do not point into `cs` and are judged by
/// `schema_has_external` instead.
pub open spec fn schema_refs_resolve(s: SpecSchema, cs: Seq<SpecComponent>) -> bool
    decreases s,
{
    match s {
        SpecSchema::Ref(r) => match r {
            SpecReference::Component(category, name) => has_component(cs, category, name),
            SpecReference::External(_) => true,
        },
        SpecSchema::AllOf(v) => seq_all_resolve(v, cs),
        SpecSchema::OneOf(v) => seq_all_resolve(v, cs),
        SpecSchema::AnyOf(v) => seq_all_resolve(v, cs),
        SpecSchema::Array(b) => schema_refs_resolve(*b, cs),
        SpecSchema::Object { properties, additional } => props_all_resolve(properties, cs)
            && match additional {
            Option::Some(b) => schema_refs_resolve(*b, cs),
            Option::None => true,
        },
        SpecSchema::Primitive => true,
    }
}

/// Whether every schema of the sequence resolves in `cs`.
pub open spec fn seq_all_resolve(v: Seq<SpecSchema>, cs: Seq<SpecComponent>) -> bool
    decreases v,
{
    v.len() == 0 || (seq_all_resolve(v.drop_last(), cs) && schema_refs_resolve(
        v[v.len() - 1],
        cs,
    ))
}

/// Whether every property schema of the sequence resolves in `cs`.
pub open spec fn props_all_resolve(v: Seq<(Seq<char>, SpecSchema)>, cs: Seq<SpecComponent>) -> bool
    decreases v,
{
    v.len() == 0 || (props_all_resolve(v.drop_last(), cs) && schema_refs_resolve(
        v[v.len() - 1].1,
        cs,
    ))
}

/// `seq_all_resolve` holds exactly when every element resolves.
pub proof fn lemma_seq_all_resolve(v: Seq<SpecSchema>, cs: Seq<SpecComponent>)
    ensures
        seq_all_resolve(v, cs) <==> forall|i: int|
            0 <= i < v.len() ==> schema_refs_resolve(#[trigger] v[i], cs),
    decreases v,
{
    if v.len() > 0 {
        let l = v.len() - 1;
        lemma_seq_all_resolve(v.drop_last(), cs);
        if seq_all_resolve(v, cs) {
            assert forall|i: int| 0 <= i < v.len() implies schema_refs_resolve(
                #[trigger] v[i],
                cs,
            ) by {
                if i < l {
                    assert(v.drop_last()[i] == v[i]);
                    assert(schema_refs_resolve(v.drop_last()[i], cs));
                }
            }
        }
        if forall|i: int| 0 <= i < v.len() ==> schema_refs_resolve(#[trigger] v[i], cs) {
            assert forall|i: int|
                0 <= i < v.drop_last().len() implies schema_refs_resolve(
                #[trigger] v.drop_last()[i],
                cs,
            ) by {
                assert(v.drop_last()[i] == v[i]);
            }
            assert(schema_refs_resolve(v[l], cs));
        }
    }
}

/// `props_all_resolve` holds exactly when every property schema resolves.
pub proof fn lemma_props_all_resolve(v: Seq<(Seq<char>, SpecSchema)>, cs: Seq<SpecComponent>)
    ensures
        props_all_resolve(v, cs) <==> forall|i: int|
            0 <= i < v.len() ==> schema_refs_resolve(#[trigger] v[i].1, cs),
    decreases v,
{
    if v.len() > 0 {
        let l = v.len() - 1;
        lemma_props_all_resolve(v.drop_last(), cs);
        if props_all_resolve(v, cs) {
            assert forall|i: int| 0 <= i < v.len() implies schema_refs_resolve(
                #[trigger] v[i].1,
                cs,
            ) by {
                if i < l {
                    assert(v.drop_last()[i] == v[i]);
                    assert(schema_refs_resolve(v.drop_last()[i].1, cs));
                }
            }
        }
        if forall|i: int| 0 <= i < v.len() ==> schema_refs_resolve(#[trigger] v[i].1, cs) {
            assert forall|i: int|
                0 <= i < v.drop_last().len() implies schema_refs_resolve(
                #[trigger] v.drop_last()[i].1,
                cs,
            ) by {
                assert(v.drop_last()[i] == v[i]);
            }
            assert(schema_refs_resolve(v[l].1, cs));
        }
    }
}

/// Whether the schema contains a reference outside the
/// `#/components/...` namespace.
pub open spec fn schema_has_external(s: SpecSchema) -> bool
    decreases s,
{
    match s {
        SpecSchema::Ref(r) => match r {
            SpecReference::Component(_, _) => false,
            SpecReference::External(_) => true,
        },
        SpecSchema::AllOf(v) => seq_any_external(v),
        SpecSchema::OneOf(v) => seq_any_external(v),
        SpecSchema::AnyOf(v) => seq_any_external(v),
        SpecSchema::Array(b) => schema_has_external(*b),
        SpecSchema::Object { properties, additional } => props_any_external(properties)
            || match additional {
            Option::Some(b) => schema_has_external(*b),
            Option::None => false,
        },
        SpecSchema::Primitive => false,
    }
}

/// Whether any schema of the sequence contains an external reference.
pub open spec fn seq_any_external(v: Seq<SpecSchema>) -> bool
    decreases v,
{
    v.len() > 0 && (seq_any_external(v.drop_last()) || schema_has_external(v[v.len() - 1]))
}

/// Whether any property schema of the sequence contains an external
/// reference.
pub open spec fn props_any_external(v: Seq<(Seq<char>, SpecSchema)>) -> bool
    decreases v,
{
    v.len() > 0 && (props_any_external(v.drop_last()) || schema_has_external(v[v.len() - 1].1))
}

/// `seq_any_external` holds exactly when some element has an external
/// reference.
pub proof fn lemma_seq_any_external(v: Seq<SpecSchema>)
    ensures
        seq_any_external(v) <==> exists|i: int|
            0 <= i < v.len() && schema_has_external(#[trigger] v[i]),
    decreases v,
{
    if v.len() > 0 {
        let l = v.len() - 1;
        lemma_seq_any_external(v.drop_last());
        if seq_any_external(v) {
            if seq_any_external(v.drop_last()) {
                let i = choose|i: int|
                    0 <= i < v.drop_last().len() && schema_has_external(
                        #[trigger] v.drop_last()[i],
                    );
                assert(v.drop_last()[i] == v[i]);
                assert(schema_has_external(v[i]));
            } else {
                assert(schema_has_external(v[l]));
            }
        }
        if exists|i: int| 0 <= i < v.len() && schema_has_external(#[trigger] v[i]) {
            let i = choose|i: int| 0 <= i < v.len() && schema_has_external(#[trigger] v[i]);
            if i < l {
                assert(v.drop_last()[i] == v[i]);
                assert(schema_has_external(v.drop_last()[i]));
                assert(seq_any_external(v.drop_last()));
            } else {
                assert(schema_has_external(v[l]));
            }
        }
    }
}

/// `props_any_external` holds exactly when some property schema has an
/// external reference.
pub proof fn lemma_props_any_external(v: Seq<(Seq<char>, SpecSchema)>)
    ensures
        props_any_external(v) <==> exists|i: int|
            0 <= i < v.len() && schema_has_external(#[trigger] v[i].1),
    decreases v,
{
    if v.len() > 0 {
        let l = v.len() - 1;
        lemma_props_any_external(v.drop_last());
        if props_any_external(v) {
            if props_any_external(v.drop_last()) {
                let i = choose|i: int|
                    0 <= i < v.drop_last().len() && schema_has_external(
                        #[trigger] v.drop_last()[i].1,
                    );
                assert(v.drop_last()[i] == v[i]);
                assert(schema_has_external(v[i].1));
            } else {
                assert(schema_has_external(v[l].1));
            }
        }
        if exists|i: int| 0 <= i < v.len() && schema_has_external(#[trigger] v[i].1) {
            let i = choose|i: int| 0 <= i < v.len() && schema_has_external(#[trigger] v[i].1);
            if i < l {
                assert(v.drop_last()[i] == v[i]);
                assert(schema_has_external(v.drop_last()[i].1));
                assert(props_any_external(v.drop_last()));
            } else {
                assert(schema_has_external(v[l].1));
            }
        }
    }
}

/// Whether every component ref of a path item resolves in `cs`.
pub open spec fn item_refs_resolve(item: Seq<(Seq<char>, SpecSchema)>, cs: Seq<SpecComponent>) -> bool {
    forall|i: int| 0 <= i < item.len() ==> schema_refs_resolve(#[trigger] item[i].1, cs)
}

/// Whether a path item contains an external reference.
pub open spec fn item_has_external(item: Seq<(Seq<char>, SpecSchema)>) -> bool {
    exists|i: int| 0 <= i < item.len() && schema_has_external(#[trigger] item[i].1)
}

/// Reference integrity: every component `$ref` anywhere in the document
/// resolves to an existing entry of the document's own components.
pub open spec fn doc_closed(d: SpecDocument) -> bool {
    &&& forall|i: int|
        0 <= i < d.paths.len() ==> item_refs_resolve(#[trigger] d.paths[i].item, d.components)
    &&& forall|i: int|
        0 <= i < d.components.len() ==> schema_refs_resolve(
            #[trigger] d.components[i].definition,
            d.components,
        )
}

/// Whether any `$ref` of the document points outside `#/components/...`.
pub open spec fn doc_has_external(d: SpecDocument) -> bool {
    ||| exists|i: int| 0 <= i < d.paths.len() && item_has_external(#[trigger] d.paths[i].item)
    ||| exists|i: int|
        0 <= i < d.components.len() && schema_has_external(#[trigger] d.components[i].definition)
}

/// The component mapping has no two entries under one (category, name) key.
pub open spec fn unique_component_keys(cs: Seq<SpecComponent>) -> bool {
    forall|i: int, j: int|
        0 <= i < j < cs.len() ==> !(#[trigger] cs[i].category == #[trigger] cs[j].category
            && cs[i].name == cs[j].name)
}

/// The path mapping has no two entries under one template key.
pub open spec fn unique_path_templates(ps: Seq<SpecPathEntry>) -> bool {
    forall|i: int, j: int|
        0 <= i < j < ps.len() ==> (#[trigger] ps[i].template) != (#[trigger] ps[j].template)
}

/// What the merge engine may assume of an incoming document: `paths` and
/// `components` are genuine mappings (unique keys) and every component
/// `$ref` resolves within the document itself.
pub open spec fn doc_wf(d: SpecDocument) -> bool {
    &&& unique_component_keys(d.components)
    &&& unique_path_templates(d.paths)
    &&& doc_closed(d)
}

} // verus!
