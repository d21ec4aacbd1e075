//! The `$ref` string grammar: a reference into the document's own
//! component namespace is written `#/components/<category>/<name>`.
//! Parsing classifies a raw `$ref` string, building renders a component
//! reference back; parsing what was built returns the original.

use vstd::prelude::*;

use crate::document::{Category, Reference, SpecReference};

verus! {

/// The `components` sub-key a category is stored under.
pub open spec fn category_segment(c: Category) -> Seq<char> {
    match c {
        Category::Schemas => "schemas"@,
        Category::Responses => "responses"@,
        Category::Parameters => "parameters"@,
        Category::Examples => "examples"@,
        Category::RequestBodies => "requestBodies"@,
        Category::Headers => "headers"@,
        Category::SecuritySchemes => "securitySchemes"@,
        Category::Links => "links"@,
        Category::Callbacks => "callbacks"@,
    }
}

/// The string form of a component reference.
pub open spec fn component_ref_string(c: Category, name: Seq<char>) -> Seq<char> {
    "#/components/"@ + category_segment(c) + "/"@ + name
}

/// The category stored under the given sub-key, if any.
pub open spec fn category_of_segment(seg: Seq<char>) -> Option<Category> {
    if seg == "schemas"@ {
        Option::Some(Category::Schemas)
    } else if seg == "responses"@ {
        Option::Some(Category::Responses)
    } else if seg == "parameters"@ {
        Option::Some(Category::Parameters)
    } else if seg == "examples"@ {
        Option::Some(Category::Examples)
    } else if seg == "requestBodies"@ {
        Option::Some(Category::RequestBodies)
    } else if seg == "headers"@ {
        Option::Some(Category::Headers)
    } else if seg == "securitySchemes"@ {
        Option::Some(Category::SecuritySchemes)
    } else if seg == "links"@ {
        Option::Some(Category::Links)
    } else if seg == "callbacks"@ {
        Option::Some(Category::Callbacks)
    } else {
        Option::None
    }
}

/// The first `/` at or after position `i`.
pub open spec fn first_slash_from(r: Seq<char>, i: int) -> Option<int>
    decreases r.len() - i,
{
    if i < 0 || i >= r.len() {
        Option::None
    } else if r[i] == '/' {
        Option::Some(i)
    } else {
        first_slash_from(r, i + 1)
    }
}

/// Whether the sequence holds no `/`.
pub open spec fn no_slash(s: Seq<char>) -> bool {
    forall|i: int| 0 <= i < s.len() ==> (#[trigger] s[i]) != '/'
}

/// What parsing a `$ref` string yields: a reference of the shape
/// `#/components/<category>/<name>` — known category, non-empty name
/// without `/` — is a component reference; anything else stays external,
/// verbatim.
pub open spec fn parse_ref_spec(r: Seq<char>) -> SpecReference {
    if r.len() >= 14 && r.subrange(0, 13) == "#/components/"@ {
        match first_slash_from(r, 13) {
            Option::Some(k) => {
                let seg = r.subrange(13, k);
                let name = r.subrange(k + 1, r.len() as int);
                match category_of_segment(seg) {
                    Option::Some(c) => if name.len() > 0 && no_slash(name) {
                        SpecReference::Component(c, name)
                    } else {
                        SpecReference::External(r)
                    },
                    Option::None => SpecReference::External(r),
                }
            },
            Option::None => SpecReference::External(r),
        }
    } else {
        SpecReference::External(r)
    }
}

fn str_eq(a: &str, b: &str) -> (res: bool)
    ensures
        res == (a@ == b@),
{
    let sa = a.to_owned();
    let sb = b.to_owned();
    sa.eq(&sb)
}

fn segment_str(c: Category) -> (res: &'static str)
    ensures
        res@ == category_segment(c),
{
    match c {
        Category::Schemas => "schemas",
        Category::Responses => "responses",
        Category::Parameters => "parameters",
        Category::Examples => "examples",
        Category::RequestBodies => "requestBodies",
        Category::Headers => "headers",
        Category::SecuritySchemes => "securitySchemes",
        Category::Links => "links",
        Category::Callbacks => "callbacks",
    }
}

fn category_of_segment_exec(seg: &str) -> (res: Option<Category>)
    ensures
        res == category_of_segment(seg@),
{
    if str_eq(seg, "schemas") {
        Option::Some(Category::Schemas)
    } else if str_eq(seg, "responses") {
        Option::Some(Category::Responses)
    } else if str_eq(seg, "parameters") {
        Option::Some(Category::Parameters)
    } else if str_eq(seg, "examples") {
        Option::Some(Category::Examples)
    } else if str_eq(seg, "requestBodies") {
        Option::Some(Category::RequestBodies)
    } else if str_eq(seg, "headers") {
        Option::Some(Category::Headers)
    } else if str_eq(seg, "securitySchemes") {
        Option::Some(Category::SecuritySchemes)
    } else if str_eq(seg, "links") {
        Option::Some(Category::Links)
    } else if str_eq(seg, "callbacks") {
        Option::Some(Category::Callbacks)
    } else {
        Option::None
    }
}

fn first_slash_from_exec(r: &str, start: usize) -> (res: Option<usize>)
    requires
        start <= r@.len(),
    ensures
        match res {
            Option::Some(k) => first_slash_from(r@, start as int) == Option::Some(k as int),
            Option::None => first_slash_from(r@, start as int) == Option::<int>::None,
        },
{
    let len = r.unicode_len();
    let mut k: usize = start;
    while k < len
        invariant
            start <= k <= len,
            len == r@.len(),
            first_slash_from(r@, start as int) == first_slash_from(r@, k as int),
        decreases len - k,
    {
        if r.get_char(k) == '/' {
            return Option::Some(k);
        }
        k += 1;
    }
    Option::None
}

/// Classifies one raw `$ref` string: parsed into category and name where
/// it points into `#/components/...`, kept verbatim as external where it
/// does not.
pub fn parse_ref(r: &str) -> (res: Reference)
    ensures
        res@ == parse_ref_spec(r@),
{
    let len = r.unicode_len();
    if len < 14 {
        return Reference::External(r.to_owned());
    }
    let head = r.substring_char(0, 13);
    if !str_eq(head, "#/components/") {
        return Reference::External(r.to_owned());
    }
    match first_slash_from_exec(r, 13) {
        Option::Some(k) => {
            proof {
                lemma_first_slash_bounds(r@, 13, k as int);
            }
            let seg = r.substring_char(13, k);
            let name = r.substring_char(k + 1, len);
            match category_of_segment_exec(seg) {
                Option::Some(c) => {
                    let nlen = name.unicode_len();
                    if nlen == 0 {
                        return Reference::External(r.to_owned());
                    }
                    if let Option::Some(_) = first_slash_from_exec(name, 0) {
                        proof {
                            let j = first_slash_from(name@, 0)->0;
                            lemma_first_slash_bounds(name@, 0, j);
                            assert(!no_slash(name@));
                        }
                        return Reference::External(r.to_owned());
                    }
                    proof {
                        lemma_no_slash_when_none(name@);
                    }
                    Reference::Component { category: c, name: name.to_owned() }
                },
                Option::None => Reference::External(r.to_owned()),
            }
        },
        Option::None => Reference::External(r.to_owned()),
    }
}

/// Renders a component reference back to its `$ref` string.
pub fn to_ref_string(category: Category, name: &str) -> (res: String)
    ensures
        res@ == component_ref_string(category, name@),
{
    let mut s = "#/components/".to_owned();
    s.append(segment_str(category));
    s.append("/");
    s.append(name);
    proof {
        assert(s@ =~= component_ref_string(category, name@));
    }
    s
}

/// Where `first_slash_from` finds a slash: at a slash, with none before
/// it.
proof fn lemma_first_slash_bounds(r: Seq<char>, i: int, k: int)
    requires
        0 <= i,
        first_slash_from(r, i) == Option::Some(k),
    ensures
        i <= k < r.len(),
        r[k] == '/',
        forall|j: int| i <= j < k ==> r[j] != '/',
    decreases r.len() - i,
{
    if i < r.len() && r[i] != '/' {
        lemma_first_slash_bounds(r, i + 1, k);
    }
}

/// Where `first_slash_from` finds none, there is none.
proof fn lemma_no_slash_when_none(s: Seq<char>)
    requires
        first_slash_from(s, 0) == Option::<int>::None,
    ensures
        no_slash(s),
{
    lemma_first_slash_none(s, 0);
}

proof fn lemma_first_slash_none(s: Seq<char>, i: int)
    requires
        0 <= i,
        first_slash_from(s, i) == Option::<int>::None,
    ensures
        forall|j: int| i <= j < s.len() ==> s[j] != '/',
    decreases s.len() - i,
{
    if i < s.len() {
        lemma_first_slash_none(s, i + 1);
    }
}

/// The converse of `lemma_first_slash_bounds`: the first slash is found.
proof fn lemma_first_slash_at(r: Seq<char>, i: int, k: int)
    requires
        0 <= i <= k < r.len(),
        r[k] == '/',
        forall|j: int| i <= j < k ==> r[j] != '/',
    ensures
        first_slash_from(r, i) == Option::Some(k),
    decreases k - i,
{
    if i < k {
        lemma_first_slash_at(r, i + 1, k);
    }
}

/// Each category's sub-key: non-empty, free of `/`, and the nine keys
/// pairwise distinct — so `category_of_segment` recovers the category.
proof fn lemma_category_segment(c: Category)
    ensures
        category_segment(c).len() > 0,
        no_slash(category_segment(c)),
        category_of_segment(category_segment(c)) == Option::Some(c),
{
    reveal_strlit("schemas");
    reveal_strlit("responses");
    reveal_strlit("parameters");
    reveal_strlit("examples");
    reveal_strlit("requestBodies");
    reveal_strlit("headers");
    reveal_strlit("securitySchemes");
    reveal_strlit("links");
    reveal_strlit("callbacks");
    match c {
        Category::Schemas => {
            assert(category_segment(c) == "schemas"@);
            assert(category_of_segment("schemas"@) == Option::Some(Category::Schemas));
        },
        Category::Responses => {
            assert(category_segment(c) == "responses"@);
            assert(category_of_segment("responses"@) == Option::Some(Category::Responses));
        },
        Category::Parameters => {
            assert(category_segment(c) == "parameters"@);
            assert(category_of_segment("parameters"@) == Option::Some(Category::Parameters));
        },
        Category::Examples => {
            assert(category_segment(c) == "examples"@);
            assert(category_of_segment("examples"@) == Option::Some(Category::Examples));
        },
        Category::RequestBodies => {
            assert(category_segment(c) == "requestBodies"@);
            assert(category_of_segment("requestBodies"@) == Option::Some(Category::RequestBodies));
        },
        Category::Headers => {
            assert("headers"@[0] != "schemas"@[0]);
            assert(category_segment(c) == "headers"@);
            assert(category_of_segment("headers"@) == Option::Some(Category::Headers));
        },
        Category::SecuritySchemes => {
            assert("securitySchemes"@[1] != "schemas"@[1]);
            assert(category_segment(c) == "securitySchemes"@);
            assert(category_of_segment("securitySchemes"@) == Option::Some(Category::SecuritySchemes));
        },
        Category::Links => {
            assert(category_segment(c) == "links"@);
            assert(category_of_segment("links"@) == Option::Some(Category::Links));
        },
        Category::Callbacks => {
            assert("callbacks"@[0] != "responses"@[0]);
            assert(category_segment(c) == "callbacks"@);
            assert(category_of_segment("callbacks"@) == Option::Some(Category::Callbacks));
        },
    }
}

/// Round trip: parsing a rendered component reference returns exactly the
/// category and name it was built from, for every name a component
/// mapping can hold (non-empty, without `/`).
pub proof fn lemma_parse_ref_round_trip(c: Category, name: Seq<char>)
    requires
        name.len() > 0,
        no_slash(name),
    ensures
        parse_ref_spec(component_ref_string(c, name)) == SpecReference::Component(c, name),
{
    let r = component_ref_string(c, name);
    reveal_strlit("#/components/");
    reveal_strlit("/");
    lemma_category_segment(c);
    let seg = category_segment(c);
    assert(r.len() == 13 + seg.len() + 1 + name.len());
    assert(r.subrange(0, 13) =~= "#/components/"@);
    let k = 13 + seg.len() as int;
    assert(r[k] == '/');
    assert forall|j: int| 13 <= j < k implies r[j] != '/' by {
        assert(r[j] == seg[j - 13]);
    }
    assert("#/components/"@[1] == '/');
    lemma_first_slash_at(r, 13, k);
    assert(r.subrange(13, k) =~= seg);
    assert(r.subrange(k + 1, r.len() as int) =~= name);
}

} // verus!
