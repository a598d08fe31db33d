//! Building the target object from the source object: whole-object clones and
//! field mappings.
use serde_json_path::PathElement;
use vstd::prelude::*;

use crate::error::{AddToPathError, Error, ErrorView};
use crate::json::{
    as_str, clone_json, entries_view, get_key, index_key, items_view, json_text, json_view, lemma_view_parts, readable_json,
    map_delete, map_insert, map_remove, map_set, obj_delete, obj_insert, obj_remove, obj_set,
    set_in, set_path, Json, JsonView,
};
use crate::json::{
    first_segment, get_path, lemma_map_remove_get, lemma_obj_set_get, lemma_set_path_get, obj_get,
    unique_keys,
};
use crate::objects::{
    api_resource_from_gvk, api_version_of, guessed_plural, has_guessable_plural, plural_guessable, ApiResource, DynamicObject,
    DynamicObjectView, GroupVersionKind, TypeMeta,
};
use crate::resources::{opt_view, Mapping, ResourceSync, GVKN};
use crate::text::{
    str_eq, chars_of, find_char, first_char_index, find_last_char, is_prefix, last_char_index, lemma_last_char_index, slice_string,
    strip_prefix,
};

verus! {

// ---------------------------------------------------------------- JSONPath

/// One step of a normalized JSONPath location.
#[derive(Debug)]
pub enum PathStep {
    Name(String),
    Index(usize),
}

pub enum PathStepView {
    Name(Seq<char>),
    Index(nat),
}

impl View for PathStep {
    type V = PathStepView;

    open spec fn view(&self) -> PathStepView {
        match self {
            PathStep::Name(n) => PathStepView::Name(n@),
            PathStep::Index(i) => PathStepView::Index(*i as nat),
        }
    }
}

/// What a JSONPath query that expects at most one node found.
#[derive(Debug)]
pub enum Location {
    /// The document is not JSON; holds the parser's message.
    BadDocument(String),
    /// The path is not a JSONPath query; holds the parser's message.
    BadPath(String),
    NoMatch,
    ManyMatches,
    /// The normalized location of the single node.
    Found(Vec<PathStep>),
}

pub enum LocationView {
    BadDocument(Seq<char>),
    BadPath(Seq<char>),
    NoMatch,
    ManyMatches,
    Found(Seq<PathStepView>),
}

impl View for Location {
    type V = LocationView;

    open spec fn view(&self) -> LocationView {
        match self {
            Location::BadDocument(m) => LocationView::BadDocument(m@),
            Location::BadPath(m) => LocationView::BadPath(m@),
            Location::NoMatch => LocationView::NoMatch,
            Location::ManyMatches => LocationView::ManyMatches,
            Location::Found(steps) => LocationView::Found(
                Seq::new(steps@.len(), |i: int| steps@[i]@),
            ),
        }
    }
}

/// The answer of `serde_json_path` to a query on a JSON document, for a query that
/// expects at most one node.
pub uninterp spec fn jsonpath_locate(document: Seq<char>, path: Seq<char>) -> LocationView;

/// Runs the JSONPath `path` on the JSON text `document`.
///
/// Parses the document with `serde_json::from_str`, the path with
/// `serde_json_path::JsonPath::parse`, and runs `query_located` and `at_most_one`. The
/// contract names the outcome `jsonpath_locate` of the two texts; the normalized
/// location of a single node is handed back step by step. As the source shows, the
/// query `$` (the root, with no segments) locates exactly the root of any document
/// that parses, at the empty location. The text of a value of the model that
/// `serde_json` reads back with the same shape (`readable_json`: numbers within
/// the range of its floats, no key twice, nesting within its recursion limit)
/// parses, and a node found in it is one of that value.
#[verifier::external_body]
fn locate(document: &str, path: &str) -> (r: Location)
    ensures
        r@ == jsonpath_locate(document@, path@),
        path@ == "$"@ ==> (r@ is BadDocument || r@ == LocationView::Found(Seq::empty())),
        forall|v: JsonView|
            readable_json(v) && document@ == #[trigger] json_text(v) ==> !(r@ is BadDocument) && (
            r@ matches LocationView::Found(steps) ==> walk(v, steps) is Some),
{
    let value = match serde_json::from_str::<serde_json::Value>(document) {
        Ok(v) => v,
        Err(e) => return Location::BadDocument(e.to_string()),
    };
    let query = match serde_json_path::JsonPath::parse(path) {
        Ok(q) => q,
        Err(e) => return Location::BadPath(e.to_string()),
    };
    match query.query_located(&value).at_most_one() {
        Err(_) => Location::ManyMatches,
        Ok(None) => Location::NoMatch,
        Ok(Some(node)) => Location::Found(node.location().iter().map(|e| match e { PathElement::Name(n) => PathStep::Name(n.to_string()), PathElement::Index(i) => PathStep::Index(*i) }).collect()),
    }
}

/// The member of `j` at a normalized location, if it has one.
pub open spec fn walk(j: JsonView, steps: Seq<PathStepView>) -> Option<JsonView>
    decreases steps.len(),
{
    if steps.len() == 0 {
        Some(j)
    } else {
        match (steps[0], j) {
            (PathStepView::Name(n), JsonView::Object(entries)) => match crate::json::obj_get(
                entries,
                n,
            ) {
                Some(child) => walk(child, steps.drop_first()),
                None => None,
            },
            (PathStepView::Index(i), JsonView::Array(items)) => if i < items.len() {
                walk(items[i as int], steps.drop_first())
            } else {
                None
            },
            _ => None,
        }
    }
}

fn walk_exec(j: &Json, steps: &Vec<PathStep>) -> (r: Option<Json>)
    ensures
        match r {
            Some(v) => walk(j@, Seq::new(steps@.len(), |i: int| steps@[i]@)) == Some(v@),
            None => walk(j@, Seq::new(steps@.len(), |i: int| steps@[i]@)) is None,
        },
{
    let ghost sv = Seq::new(steps@.len(), |i: int| steps@[i]@);
    let mut cur = clone_json(j);
    let mut i: usize = 0;
    proof { assert(sv.skip(0) =~= sv); }
    while i < steps.len()
        invariant
            sv == Seq::new(steps@.len(), |i: int| steps@[i]@),
            i <= steps.len(),
            walk(j@, sv) == walk(cur@, sv.skip(i as int)),
        decreases steps.len() - i,
    {
        proof {
            lemma_view_parts(cur);
            assert(sv.skip(i as int)[0] == steps@[i as int]@);
            assert(sv.skip(i as int).drop_first() =~= sv.skip(i + 1));
        }
        let next = match &steps[i] {
            PathStep::Name(n) => match &cur {
                Json::Object(m) => {
                    let p = crate::json::key_position(m, n.as_str());
                    if p < m.len() {
                        Some(clone_json(&m[p].1))
                    } else {
                        None
                    }
                },
                _ => None,
            },
            PathStep::Index(k) => match &cur {
                Json::Array(v) => {
                    if *k < v.len() {
                        Some(clone_json(&v[*k]))
                    } else {
                        None
                    }
                },
                _ => None,
            },
        };
        match next {
            Some(c) => {
                cur = c;
            },
            None => {
                return None;
            },
        }
        i = i + 1;
    }
    proof { assert(sv.skip(steps.len() as int).len() == 0); }
    Some(cur)
}

// ---------------------------------------------------------------- serialized objects

/// Inserts the members of `extra`, in order, into `acc` (as `serde_json` fills a map).
pub open spec fn merge_entries(
    acc: Seq<(Seq<char>, JsonView)>,
    extra: Seq<(Seq<char>, JsonView)>,
) -> Seq<(Seq<char>, JsonView)>
    decreases extra.len(),
{
    if extra.len() == 0 {
        acc
    } else {
        obj_set(merge_entries(acc, extra.drop_last()), extra.last().0, extra.last().1)
    }
}

/// Whether `serde_json` can serialize the object: its flattened data is a map or null.
pub open spec fn serializable(o: DynamicObjectView) -> bool {
    o.data is Object || o.data is Null
}

/// Whether the text of a number is that of a float, as `serde_json` prints numbers:
/// only floats hold a point or an exponent.
pub open spec fn is_float_text(t: Seq<char>) -> bool {
    first_char_index(t, '.') >= 0 || first_char_index(t, 'e') >= 0 || first_char_index(t, 'E') >= 0
}

/// How `serde` names a value that is not a map when asked to flatten it.
pub open spec fn unflattenable(data: JsonView) -> Seq<char> {
    match data {
        JsonView::Bool(_) => "a boolean"@,
        JsonView::Number(t) => if is_float_text(t) {
            "a float"@
        } else {
            "an integer"@
        },
        JsonView::String(_) => "a string"@,
        JsonView::Array(_) => "a sequence"@,
        _ => Seq::empty(),
    }
}

/// The message of the error that `serde_json::to_value` gives for a dynamic object
/// whose flattened data is not a map.
pub open spec fn flatten_error(data: JsonView) -> Seq<char> {
    "can only flatten structs and maps (got "@ + unflattenable(data) + ")"@
}

fn flatten_error_message(data: &Json) -> (r: String)
    ensures
        r@ == flatten_error(data@),
{
    proof { lemma_view_parts(*data); }
    let what = match data {
        Json::Bool(_) => "a boolean",
        Json::Number(t) => {
            let c = chars_of(t.as_str());
            let float = find_char(&c, '.').is_some() || find_char(&c, 'e').is_some() || find_char(
                &c,
                'E',
            ).is_some();
            if float {
                "a float"
            } else {
                "an integer"
            }
        },
        Json::String(_) => "a string",
        Json::Array(_) => "a sequence",
        _ => "",
    };
    proof { reveal_strlit(""); }
    String::from_str("can only flatten structs and maps (got ").concat(what).concat(")")
}

/// The JSON that `serde_json::to_value` makes of a dynamic object: `apiVersion` and
/// `kind`, `metadata`, then the members of the data.
pub open spec fn object_json(o: DynamicObjectView) -> JsonView {
    let typed = match o.types {
        Some((api_version, kind)) => obj_set(
            obj_set(Seq::empty(), "apiVersion"@, JsonView::String(api_version)),
            "kind"@,
            JsonView::String(kind),
        ),
        None => Seq::empty(),
    };
    let with_meta = obj_set(typed, "metadata"@, o.metadata);
    match o.data {
        JsonView::Object(entries) => JsonView::Object(merge_entries(with_meta, entries)),
        _ => JsonView::Object(with_meta),
    }
}

fn merge_into(acc: &mut Vec<(String, Json)>, extra: &Vec<(String, Json)>)
    ensures
        entries_view(final(acc)@) == merge_entries(entries_view(old(acc)@), entries_view(extra@)),
{
    let ghost start = entries_view(acc@);
    let ghost ev = entries_view(extra@);
    let mut i: usize = 0;
    while i < extra.len()
        invariant
            ev == entries_view(extra@),
            i <= extra.len(),
            entries_view(acc@) == merge_entries(start, ev.take(i as int)),
        decreases extra.len() - i,
    {
        proof {
            assert(ev.take(i + 1).drop_last() =~= ev.take(i as int));
        }
        obj_insert(acc, extra[i].0.clone(), clone_json(&extra[i].1));
        i = i + 1;
    }
    proof { assert(ev.take(extra.len() as int) =~= ev); }
}

/// The JSON of a dynamic object, as `serde_json::to_value` makes it.
pub fn object_to_json(o: &DynamicObject) -> (r: Json)
    requires
        serializable(o@),
    ensures
        r@ == object_json(o@),
{
    let mut entries: Vec<(String, Json)> = Vec::new();
    proof { assert(entries_view(entries@) =~= Seq::empty()); }
    match &o.types {
        Some(t) => {
            obj_insert(&mut entries, String::from_str("apiVersion"), Json::String(t.api_version.clone()));
            obj_insert(&mut entries, String::from_str("kind"), Json::String(t.kind.clone()));
        },
        None => {},
    }
    obj_insert(&mut entries, String::from_str("metadata"), clone_json(&o.metadata));
    proof { lemma_view_parts(o.data); }
    match &o.data {
        Json::Object(m) => {
            merge_into(&mut entries, m);
        },
        _ => {},
    }
    let r = Json::Object(entries);
    proof { lemma_view_parts(r); }
    r
}

// ---------------------------------------------------------------- selecting a subtree

/// The JSONPath query for a mapping's `fromFieldPath`: the whole object when the
/// path is absent or empty.
pub open spec fn selection_path(from: Option<Seq<char>>) -> Seq<char> {
    match from {
        Some(p) => if p.len() == 0 {
            "$"@
        } else {
            "$."@ + p
        },
        None => "$"@,
    }
}

/// The subtree that a mapping's `fromFieldPath` selects from the source object.
pub open spec fn find_field_path_spec(source: DynamicObjectView, from: Option<Seq<char>>) -> Result<
    JsonView,
    ErrorView,
> {
    let path = selection_path(from);
    let doc = object_json(source);
    if !serializable(source) {
        Err(ErrorView::SerializationError(flatten_error(source.data)))
    } else {
        subtree_at(doc, path, jsonpath_locate(json_text(doc), path))
    }
}

/// The subtree of `doc` that the query `path` selects, given what the query located:
/// `null` for no node, an error for an unreadable document or query, or several nodes.
pub open spec fn subtree_at(doc: JsonView, path: Seq<char>, location: LocationView) -> Result<
    JsonView,
    ErrorView,
> {
    match location {
        LocationView::BadDocument(m) => Err(ErrorView::SerializationError(m)),
        LocationView::BadPath(m) => Err(ErrorView::JsonPathError(m)),
        LocationView::ManyMatches => Err(ErrorView::JsonPathExactlyOneValue(path)),
        LocationView::NoMatch => Ok(JsonView::Null),
        LocationView::Found(steps) => match walk(doc, steps) {
            Some(v) => Ok(v),
            None => Ok(JsonView::Null),
        },
    }
}

/// The subtree of `doc` that the query `path` selects, given what the query located in
/// the document's text.
pub fn select_located(doc: &Json, path: String, location: Location) -> (r: Result<Json, Error>)
    ensures
        match subtree_at(doc@, path@, location@) {
            Ok(v) => r matches Ok(j) && j@ == v,
            Err(e) => r matches Err(x) && x@ == e,
        },
{
    match location {
        Location::BadDocument(m) => Err(Error::SerializationError(m)),
        Location::BadPath(m) => Err(Error::JsonPathError(m)),
        Location::ManyMatches => Err(Error::JsonPathExactlyOneValue(path)),
        Location::NoMatch => Ok(Json::Null),
        Location::Found(steps) => match walk_exec(doc, &steps) {
            Some(v) => Ok(v),
            None => Ok(Json::Null),
        },
    }
}

fn selection_path_exec(from: &Option<String>) -> (r: String)
    ensures
        r@ == selection_path(opt_view(*from)),
{
    match from {
        Some(p) => {
            if p.as_str().unicode_len() == 0 {
                String::from_str("$")
            } else {
                String::from_str("$.").concat(p.as_str())
            }
        },
        None => String::from_str("$"),
    }
}

/// Selects the subtree at `from_field_path` of the serialized source object; `null`
/// when nothing matches, an error when the object cannot be serialized (its data is not
/// a map) or the path is invalid or matches several nodes. An absent or empty path
/// selects the whole serialized object.
pub fn find_field_path(resource: &DynamicObject, from_field_path: &Option<String>) -> (r: Result<
    Json,
    Error,
>)
    ensures
        match find_field_path_spec(resource@, opt_view(*from_field_path)) {
            Ok(v) => r matches Ok(j) && j@ == v,
            Err(e) => r matches Err(x) && x@ == e,
        },
        !serializable(resource@) ==> (r matches Err(Error::SerializationError(m)) && m@ == flatten_error(
            resource@.data,
        )),
        selection_path(opt_view(*from_field_path)) == "$"@ ==> match r {
            Ok(j) => j@ == object_json(resource@),
            Err(e) => e is SerializationError,
        },
        serializable(resource@) && readable_json(object_json(resource@)) ==> !(r matches Err(
            Error::SerializationError(_),
        )),
        selection_path(opt_view(*from_field_path)) == "$"@ && serializable(resource@) && readable_json(
            object_json(resource@),
        ) ==> (r matches Ok(j) && j@ == object_json(resource@)),
{
    proof { lemma_view_parts(resource.data); }
    match &resource.data {
        Json::Object(_) | Json::Null => {},
        _ => return Err(Error::SerializationError(flatten_error_message(&resource.data))),
    }
    let doc = object_to_json(resource);
    let text = doc.to_text();
    let path = selection_path_exec(from_field_path);
    let location = locate(text.as_str(), path.as_str());
    proof {
        if path@ == "$"@ && location@ is Found {
            assert(walk(doc@, Seq::<PathStepView>::empty()) == Some(doc@));
        }
    }
    select_located(&doc, path, location)
}

// ---------------------------------------------------------------- writing at a path

/// The outcome of writing `leaf` at `path` in `root`: the new root, or `None`
/// when `root` is not an object or a member on the path is not an object.
pub open spec fn set_field_path_spec(root: JsonView, path: Seq<char>, leaf: JsonView) -> Option<
    JsonView,
> {
    match root {
        JsonView::Object(entries) => match set_path(entries, path, leaf) {
            Some(e) => Some(JsonView::Object(e)),
            None => None,
        },
        _ => None,
    }
}

/// Writes `leaf` at the dotted `path` inside the object `root`, creating the
/// intermediate objects that are missing. On failure `root` is left as it was and the
/// error holds a copy of it.
pub fn set_field_path(root: &mut Json, path: &str, leaf: Json) -> (r: Result<(), AddToPathError>)
    ensures
        match set_field_path_spec(old(root)@, path@, leaf@) {
            Some(new_root) => r is Ok && final(root)@ == new_root,
            None => final(root)@ == old(root)@ && (r matches Err(AddToPathError::ObjectRequired(copy))
                && copy@ == old(root)@),
        },
{
    let mut taken = Json::Null;
    std::mem::swap(root, &mut taken);
    proof { lemma_view_parts(taken); }
    match taken {
        Json::Object(e) => {
            match set_in(e, chars_of(path), leaf) {
                Ok(e2) => {
                    let new_root = Json::Object(e2);
                    proof { lemma_view_parts(new_root); }
                    *root = new_root;
                    Ok(())
                },
                Err(e_back) => {
                    let back = Json::Object(e_back);
                    proof { lemma_view_parts(back); }
                    let copy = clone_json(&back);
                    *root = back;
                    Err(AddToPathError::ObjectRequired(copy))
                },
            }
        },
        other => {
            let copy = clone_json(&other);
            *root = other;
            Err(AddToPathError::ObjectRequired(copy))
        },
    }
}


// ---------------------------------------------------------------- whole-object clones

/// The annotation in which `kubectl apply` stores the last applied configuration.
pub const LAST_APPLIED_ANNOTATION: &'static str = "kubectl.kubernetes.io/last-applied-configuration";

/// Drops the last-applied-configuration annotation.
pub fn cleanup_annotations(annotations: Vec<(String, Json)>) -> (r: Vec<(String, Json)>)
    ensures
        entries_view(r@) == map_remove(entries_view(annotations@), LAST_APPLIED_ANNOTATION@),
{
    let mut a = annotations;
    map_delete(&mut a, LAST_APPLIED_ANNOTATION);
    a
}

pub open spec fn opt_str_view(o: Option<&str>) -> Option<Seq<char>> {
    match o {
        Some(s) => Some(s@),
        None => None,
    }
}

/// Metadata with a name and, when given, a namespace.
pub open spec fn named_metadata(name: Seq<char>, namespace: Option<Seq<char>>) -> Seq<
    (Seq<char>, JsonView),
> {
    let named = obj_set(Seq::empty(), "name"@, JsonView::String(name));
    match namespace {
        Some(ns) => obj_set(named, "namespace"@, JsonView::String(ns)),
        None => named,
    }
}

/// The metadata of a clone, in the order in which `ObjectMeta` serializes its members:
/// the source's annotations without the last-applied configuration, the source's
/// labels, and the target's name and namespace.
pub open spec fn cloned_metadata(
    source_metadata: JsonView,
    name: Seq<char>,
    namespace: Option<Seq<char>>,
) -> JsonView {
    let with_annotations = match index_key(source_metadata, "annotations"@) {
        JsonView::Object(a) => obj_set(
            Seq::empty(),
            "annotations"@,
            JsonView::Object(map_remove(a, LAST_APPLIED_ANNOTATION@)),
        ),
        _ => Seq::empty(),
    };
    let with_labels = match index_key(source_metadata, "labels"@) {
        JsonView::Object(l) => obj_set(with_annotations, "labels"@, JsonView::Object(l)),
        _ => with_annotations,
    };
    let named = obj_set(with_labels, "name"@, JsonView::String(name));
    JsonView::Object(
        match namespace {
            Some(ns) => obj_set(named, "namespace"@, JsonView::String(ns)),
            None => named,
        },
    )
}

/// The clone of `source` named `name` in `namespace`, of the type given by
/// `api_version` and `kind`.
pub open spec fn clone_spec(
    source: DynamicObjectView,
    name: Seq<char>,
    namespace: Option<Seq<char>>,
    api_version: Seq<char>,
    kind: Seq<char>,
) -> DynamicObjectView {
    DynamicObjectView {
        types: Some((api_version, kind)),
        metadata: cloned_metadata(source.metadata, name, namespace),
        data: source.data,
    }
}

fn named_metadata_exec(name: &String, namespace: Option<&str>) -> (r: Vec<(String, Json)>)
    ensures
        entries_view(r@) == named_metadata(name@, opt_str_view(namespace)),
{
    let mut m: Vec<(String, Json)> = Vec::new();
    proof { assert(entries_view(m@) =~= Seq::empty()); }
    obj_insert(&mut m, String::from_str("name"), Json::String(name.clone()));
    match namespace {
        Some(ns) => obj_insert(&mut m, String::from_str("namespace"), Json::String(String::from_str(ns))),
        None => {},
    }
    m
}

/// Copies the data, annotations and labels of `source` into a new object named after
/// `target_ref`, of the resource type `ar`, in `target_namespace`.
pub fn clone_resource(
    source: &DynamicObject,
    target_ref: &GVKN,
    target_namespace: Option<&str>,
    ar: &ApiResource,
) -> (r: Result<DynamicObject, Error>)
    ensures
        r matches Ok(t) && t@ == clone_spec(
            source@,
            target_ref.name@,
            opt_str_view(target_namespace),
            ar.api_version@,
            ar.kind@,
        ),
{
    let mut meta: Vec<(String, Json)> = Vec::new();
    proof { assert(entries_view(meta@) =~= Seq::empty()); }
    let annotations = get_key(&source.metadata, "annotations");
    proof { lemma_view_parts(annotations); }
    match annotations {
        Json::Object(a) => {
            let cleaned = Json::Object(cleanup_annotations(a));
            proof { lemma_view_parts(cleaned); }
            obj_insert(&mut meta, String::from_str("annotations"), cleaned);
        },
        _ => {},
    }
    let labels = get_key(&source.metadata, "labels");
    proof { lemma_view_parts(labels); }
    match labels {
        Json::Object(l) => {
            obj_insert(&mut meta, String::from_str("labels"), Json::Object(l));
        },
        _ => {},
    }
    obj_insert(&mut meta, String::from_str("name"), Json::String(target_ref.name.clone()));
    match target_namespace {
        Some(ns) => obj_insert(&mut meta, String::from_str("namespace"), Json::String(String::from_str(ns))),
        None => {},
    }
    let metadata = Json::Object(meta);
    proof { lemma_view_parts(metadata); }
    Ok(
        DynamicObject {
            types: Some(TypeMeta { api_version: ar.api_version.clone(), kind: ar.kind.clone() }),
            metadata,
            data: clone_json(&source.data),
        },
    )
}

// ---------------------------------------------------------------- inner resources

/// Whether every member of the object holds a string.
pub open spec fn all_strings(entries: Seq<(Seq<char>, JsonView)>) -> bool {
    forall|i: int| 0 <= i < entries.len() ==> #[trigger] entries[i].1 is String
}

/// The entries collected into a map ordered by key (a later entry wins), as a
/// `BTreeMap` collects them.
pub open spec fn map_collect(entries: Seq<(Seq<char>, JsonView)>) -> Seq<(Seq<char>, JsonView)>
    decreases entries.len(),
{
    if entries.len() == 0 {
        Seq::empty()
    } else {
        map_set(map_collect(entries.drop_last()), entries.last().0, entries.last().1)
    }
}

/// Collects the members of an object into a map ordered by key.
fn collect_map(map: &Vec<(String, Json)>) -> (r: Vec<(String, Json)>)
    ensures
        entries_view(r@) == map_collect(entries_view(map@)),
{
    let ghost ev = entries_view(map@);
    let mut r: Vec<(String, Json)> = Vec::new();
    proof { assert(entries_view(r@) =~= map_collect(ev.take(0))); }
    let mut i: usize = 0;
    while i < map.len()
        invariant
            ev == entries_view(map@),
            i <= map.len(),
            entries_view(r@) == map_collect(ev.take(i as int)),
        decreases map.len() - i,
    {
        proof {
            assert(ev.take(i + 1).drop_last() =~= ev.take(i as int));
        }
        map_insert(&mut r, map[i].0.clone(), clone_json(&map[i].1));
        i = i + 1;
    }
    proof { assert(ev.take(map.len() as int) =~= ev); }
    r
}

/// Collects string members into a string map.
pub fn map_conversion(map: &Vec<(String, Json)>) -> (r: Vec<(String, Json)>)
    requires
        all_strings(entries_view(map@)),
    ensures
        entries_view(r@) == map_collect(entries_view(map@)),
{
    collect_map(map)
}

/// Whether the annotations and labels of inner-resource metadata, when they are
/// objects, hold only strings (the conversion unwraps each as a string).
pub open spec fn metadata_convertible(metadata: JsonView) -> bool {
    &&& (index_key(metadata, "annotations"@) matches JsonView::Object(a) ==> all_strings(a))
    &&& (index_key(metadata, "labels"@) matches JsonView::Object(l) ==> all_strings(l))
}

/// The annotations and labels taken from inner-resource metadata.
pub open spec fn converted_metadata(metadata: JsonView) -> JsonView {
    let with_annotations = match index_key(metadata, "annotations"@) {
        JsonView::Object(a) => obj_set(
            Seq::empty(),
            "annotations"@,
            JsonView::Object(map_collect(a)),
        ),
        _ => Seq::empty(),
    };
    match index_key(metadata, "labels"@) {
        JsonView::Object(l) => JsonView::Object(
            obj_set(with_annotations, "labels"@, JsonView::Object(map_collect(l))),
        ),
        _ => JsonView::Object(with_annotations),
    }
}

/// Extracts the annotations and labels that can be set on an object from the metadata
/// of a resource held in a subtree.
pub fn convert_metadata(subtree: &Json) -> (r: Json)
    requires
        metadata_convertible(subtree@),
    ensures
        r@ == converted_metadata(subtree@),
{
    let mut meta: Vec<(String, Json)> = Vec::new();
    proof { assert(entries_view(meta@) =~= Seq::empty()); }
    let annotations = get_key(subtree, "annotations");
    proof { lemma_view_parts(annotations); }
    match &annotations {
        Json::Object(a) => {
            let converted = Json::Object(map_conversion(a));
            proof { lemma_view_parts(converted); }
            obj_insert(&mut meta, String::from_str("annotations"), converted);
        },
        _ => {},
    }
    let labels = get_key(subtree, "labels");
    proof { lemma_view_parts(labels); }
    match &labels {
        Json::Object(l) => {
            let converted = Json::Object(map_conversion(l));
            proof { lemma_view_parts(converted); }
            obj_insert(&mut meta, String::from_str("labels"), converted);
        },
        _ => {},
    }
    let r = Json::Object(meta);
    proof { lemma_view_parts(r); }
    r
}

/// The version in an `apiVersion`: the text after its last `/`.
pub open spec fn last_segment(s: Seq<char>) -> Seq<char> {
    s.subrange(last_char_index(s, '/') + 1, s.len() as int)
}

/// The group in an `apiVersion`: the segment before the last `/`, empty when none.
pub open spec fn second_last_segment(s: Seq<char>) -> Seq<char> {
    let l = last_char_index(s, '/');
    if l < 0 {
        Seq::empty()
    } else {
        last_segment(s.subrange(0, l))
    }
}

/// Group, version and kind of a resource held in a subtree.
pub open spec fn gvk_of_subtree(subtree: JsonView) -> Result<(Seq<char>, Seq<char>, Seq<char>), ErrorView> {
    match as_str(index_key(subtree, "apiVersion"@)) {
        None => Err(ErrorView::MalformedInnerResource("failed to parse apiVersion"@)),
        Some(api_version) => match as_str(index_key(subtree, "kind"@)) {
            None => Err(ErrorView::MalformedInnerResource("failed to parse kind"@)),
            Some(kind) => Ok((second_last_segment(api_version), last_segment(api_version), kind)),
        },
    }
}

/// Whether `kube` can guess the plural of the kind of a resource held in a subtree
/// (trivially so when its type cannot be read).
pub open spec fn subtree_plural_guessable(subtree: JsonView) -> bool {
    match gvk_of_subtree(subtree) {
        Ok((_, _, kind)) => plural_guessable(kind),
        Err(_) => true,
    }
}

/// Whether `kube` can guess the plural of the kind of a resource held in a subtree.
pub fn subtree_has_guessable_plural(subtree: &Json) -> (r: bool)
    ensures
        r == subtree_plural_guessable(subtree@),
{
    let api_version = get_key(subtree, "apiVersion");
    proof { lemma_view_parts(api_version); }
    match &api_version {
        Json::String(_) => {},
        _ => return true,
    }
    let kind = get_key(subtree, "kind");
    proof { lemma_view_parts(kind); }
    match &kind {
        Json::String(k) => has_guessable_plural(k.as_str()),
        _ => true,
    }
}

/// The API resource of a Kubernetes resource held in a subtree, from its `apiVersion`
/// (group-less versions allowed) and `kind`. `kube` cannot guess a plural for the
/// one-letter kinds `y` and `Y` (see [`plural_guessable`]).
pub fn get_ar_from_subtree(subtree: &Json) -> (r: Result<ApiResource, Error>)
    requires
        subtree_plural_guessable(subtree@),
    ensures
        match gvk_of_subtree(subtree@) {
            Ok((group, version, kind)) => r matches Ok(ar) && ar.group@ == group && ar.version@
                == version && ar.kind@ == kind && ar.api_version@ == api_version_of(group, version)
                && ar.plural@ == guessed_plural(kind),
            Err(e) => r matches Err(x) && x@ == e,
        },
{
    let api_version = get_key(subtree, "apiVersion");
    let av = match &api_version {
        Json::String(s) => chars_of(s.as_str()),
        _ => {
            return Err(Error::MalformedInnerResource(String::from_str("failed to parse apiVersion")));
        },
    };
    proof { lemma_last_char_index(av@, '/'); }
    let last = find_last_char(&av, av.len(), '/');
    proof { assert(av@.subrange(0, av.len() as int) =~= av@); }
    let (version, group) = match last {
        None => (slice_string(&av, 0, av.len()), String::new()),
        Some(l) => {
            proof { lemma_last_char_index(av@.subrange(0, l as int), '/'); }
            let prev = find_last_char(&av, l, '/');
            let start = match prev {
                Some(p) => p + 1,
                None => 0,
            };
            proof {
                let pre = av@.subrange(0, l as int);
                assert(pre.subrange(start as int, pre.len() as int) =~= av@.subrange(
                    start as int,
                    l as int,
                ));
            }
            (slice_string(&av, l + 1, av.len()), slice_string(&av, start, l))
        },
    };
    let kind = get_key(subtree, "kind");
    let kind = match kind {
        Json::String(k) => k,
        _ => {
            return Err(Error::MalformedInnerResource(String::from_str("failed to parse kind")));
        },
    };
    Ok(api_resource_from_gvk(&GroupVersionKind { group, version, kind }))
}

/// An inner resource without the members that a dynamic object keeps apart.
pub open spec fn cleaned_subtree(j: JsonView) -> JsonView {
    match j {
        JsonView::Object(e) => JsonView::Object(
            obj_remove(obj_remove(obj_remove(e, "apiVersion"@), "kind"@), "metadata"@),
        ),
        _ => j,
    }
}

/// Removes `apiVersion`, `kind` and `metadata` from an inner resource, since a dynamic
/// object holds them apart from its data.
pub fn cleanup_subtree(subtree: &mut Json)
    ensures
        final(subtree)@ == cleaned_subtree(old(subtree)@),
{
    let mut taken = Json::Null;
    std::mem::swap(subtree, &mut taken);
    proof { lemma_view_parts(taken); }
    match taken {
        Json::Object(mut e) => {
            obj_delete(&mut e, "apiVersion");
            obj_delete(&mut e, "kind");
            obj_delete(&mut e, "metadata");
            let r = Json::Object(e);
            proof { lemma_view_parts(r); }
            *subtree = r;
        },
        other => {
            *subtree = other;
        },
    }
}


// ---------------------------------------------------------------- field mappings

/// The message of `serde_json` when the JSON text is not an `ObjectMeta` of
/// `k8s_openapi`, or `None` when it is one.
pub uninterp spec fn object_meta_error(text: Seq<char>) -> Option<Seq<char>>;

/// Checks that the JSON text `text` deserializes as an `ObjectMeta`.
///
/// Calls `serde_json::from_str` for a `serde_json::Value`, then
/// `serde_json::from_value` for `k8s_openapi`'s `ObjectMeta`; the contract names the
/// error message (or its absence) `object_meta_error` of the text.
#[verifier::external_body]
fn check_object_meta(text: &str) -> (r: Option<String>)
    ensures
        match r {
            Some(m) => object_meta_error(text@) == Some(m@),
            None => object_meta_error(text@) is None,
        },
{
    let value: serde_json::Value = match serde_json::from_str(text) {
        Ok(v) => v,
        Err(e) => return Some(e.to_string()),
    };
    match serde_json::from_value::<k8s_openapi::apimachinery::pkg::apis::meta::v1::ObjectMeta>(
        value,
    ) {
        Ok(_) => None,
        Err(e) => Some(e.to_string()),
    }
}

/// The members of `ObjectMeta`, in the order in which it serializes them.
pub open spec fn object_meta_fields() -> Seq<Seq<char>> {
    seq![
        "annotations"@,
        "creationTimestamp"@,
        "deletionGracePeriodSeconds"@,
        "deletionTimestamp"@,
        "finalizers"@,
        "generateName"@,
        "generation"@,
        "labels"@,
        "managedFields"@,
        "name"@,
        "namespace"@,
        "ownerReferences"@,
        "resourceVersion"@,
        "selfLink"@,
        "uid"@,
    ]
}

fn object_meta_field(i: usize) -> (r: &'static str)
    requires
        i < 15,
    ensures
        r@ == object_meta_fields()[i as int],
{
    match i {
        0 => "annotations",
        1 => "creationTimestamp",
        2 => "deletionGracePeriodSeconds",
        3 => "deletionTimestamp",
        4 => "finalizers",
        5 => "generateName",
        6 => "generation",
        7 => "labels",
        8 => "managedFields",
        9 => "name",
        10 => "namespace",
        11 => "ownerReferences",
        12 => "resourceVersion",
        13 => "selfLink",
        _ => "uid",
    }
}

/// The members of `OwnerReference`, in the order in which it serializes them.
pub open spec fn owner_reference_fields() -> Seq<Seq<char>> {
    seq!["apiVersion"@, "blockOwnerDeletion"@, "controller"@, "kind"@, "name"@, "uid"@]
}

/// The members of `ManagedFieldsEntry`, in the order in which it serializes them.
pub open spec fn managed_fields_entry_fields() -> Seq<Seq<char>> {
    seq!["apiVersion"@, "fieldsType"@, "fieldsV1"@, "manager"@, "operation"@, "subresource"@, "time"@]
}

/// The text that a time takes once read through `k8s_openapi`'s `Time` and written
/// back, or `None` where `Time` does not read it.
pub uninterp spec fn time_reformat(text: Seq<char>) -> Option<Seq<char>>;

/// Deserializes the text as `k8s_openapi`'s `Time` (from a JSON string, with
/// `serde_json::from_value`) and serializes it again with `serde_json::to_value`; the
/// contract names the outcome `time_reformat` of the text.
#[verifier::external_body]
fn reformat_time(text: &str) -> (r: Option<String>)
    ensures
        match r {
            Some(c) => time_reformat(text@) == Some(c@),
            None => time_reformat(text@) is None,
        },
{
    let value = serde_json::Value::String(text.to_string());
    match serde_json::from_value::<k8s_openapi::apimachinery::pkg::apis::meta::v1::Time>(value) {
        Err(_) => None,
        Ok(time) => match serde_json::to_value(&time) {
            Ok(serde_json::Value::String(c)) => Some(c),
            _ => None,
        },
    }
}

/// A time as it reads back through `Time`; a value that `Time` does not read is kept.
pub open spec fn normalized_time(v: JsonView) -> JsonView {
    match v {
        JsonView::String(t) => match time_reformat(t) {
            Some(c) => JsonView::String(c),
            None => v,
        },
        _ => v,
    }
}

/// The members `fields` of an entry of a list in `ObjectMeta` that are present and not
/// null, in that order; with `timed`, the `time` member reads back through `Time`.
pub open spec fn entry_fields(entry: JsonView, fields: Seq<Seq<char>>, timed: bool) -> Seq<
    (Seq<char>, JsonView),
>
    decreases fields.len(),
{
    if fields.len() == 0 {
        Seq::empty()
    } else {
        let before = entry_fields(entry, fields.drop_last(), timed);
        let f = fields.last();
        match index_key(entry, f) {
            JsonView::Null => before,
            v => before.push(
                (
                    f,
                    if timed && f == "time"@ {
                        normalized_time(v)
                    } else {
                        v
                    },
                ),
            ),
        }
    }
}

/// The entries of a list in `ObjectMeta` as they read back.
pub open spec fn normalized_entries(items: Seq<JsonView>, fields: Seq<Seq<char>>, timed: bool) -> Seq<
    JsonView,
> {
    Seq::new(items.len(), |i: int| JsonView::Object(entry_fields(items[i], fields, timed)))
}

/// A member of `ObjectMeta` as it reads back: annotations and labels are maps ordered
/// by key; times are written as `Time` writes them; owner references and managed-fields
/// entries keep their known members that are not null, in the order of their types,
/// with the entries' times written as `Time` writes them.
pub open spec fn normalized_member(field: Seq<char>, value: JsonView) -> JsonView {
    if field == "annotations"@ || field == "labels"@ {
        match value {
            JsonView::Object(e) => JsonView::Object(map_collect(e)),
            other => other,
        }
    } else if field == "creationTimestamp"@ || field == "deletionTimestamp"@ {
        normalized_time(value)
    } else if field == "ownerReferences"@ {
        match value {
            JsonView::Array(items) => JsonView::Array(
                normalized_entries(items, owner_reference_fields(), false),
            ),
            other => other,
        }
    } else if field == "managedFields"@ {
        match value {
            JsonView::Array(items) => JsonView::Array(
                normalized_entries(items, managed_fields_entry_fields(), true),
            ),
            other => other,
        }
    } else {
        value
    }
}

/// The members `fields` of `metadata` that are present and not null, in that order.
pub open spec fn normalized_fields(metadata: JsonView, fields: Seq<Seq<char>>) -> Seq<
    (Seq<char>, JsonView),
>
    decreases fields.len(),
{
    if fields.len() == 0 {
        Seq::empty()
    } else {
        let before = normalized_fields(metadata, fields.drop_last());
        let f = fields.last();
        match index_key(metadata, f) {
            JsonView::Null => before,
            v => before.push((f, normalized_member(f, v))),
        }
    }
}

/// Metadata as it reads back through `ObjectMeta`: its known members that are not
/// null, in the order `ObjectMeta` serializes them, with ordered annotations and
/// labels.
pub open spec fn normalized_metadata(metadata: JsonView) -> JsonView {
    JsonView::Object(normalized_fields(metadata, object_meta_fields()))
}

/// The texts of a sequence of string slices.
pub open spec fn strs_view(s: Seq<&str>) -> Seq<Seq<char>> {
    Seq::new(s.len(), |i: int| s[i]@)
}

fn normalize_time(v: Json) -> (r: Json)
    ensures
        r@ == normalized_time(v@),
{
    match v {
        Json::String(t) => match reformat_time(t.as_str()) {
            Some(c) => Json::String(c),
            None => Json::String(t),
        },
        other => other,
    }
}

fn normalize_entry(entry: &Json, fields: &Vec<&str>, timed: bool) -> (r: Json)
    ensures
        r@ == JsonView::Object(entry_fields(entry@, strs_view(fields@), timed)),
{
    let ghost fs = strs_view(fields@);
    let mut out: Vec<(String, Json)> = Vec::new();
    proof { assert(entries_view(out@) =~= entry_fields(entry@, fs.take(0), timed)); }
    let mut i: usize = 0;
    while i < fields.len()
        invariant
            i <= fields.len(),
            fs == strs_view(fields@),
            entries_view(out@) == entry_fields(entry@, fs.take(i as int), timed),
        decreases fields.len() - i,
    {
        let f = fields[i];
        let v = get_key(entry, f);
        proof {
            assert(fs.take(i + 1).drop_last() =~= fs.take(i as int));
            assert(fs.take(i + 1).last() == f@);
            lemma_view_parts(v);
        }
        match v {
            Json::Null => {},
            other => {
                let ghost before = out@;
                let nv = if timed && str_eq(f, "time") {
                    normalize_time(other)
                } else {
                    other
                };
                let key = String::from_str(f);
                out.push((key, nv));
                proof {
                    assert(entries_view(out@) =~= entries_view(before).push((key@, nv@)));
                }
            },
        }
        i = i + 1;
    }
    proof { assert(fs.take(fields.len() as int) =~= fs); }
    let r = Json::Object(out);
    proof { lemma_view_parts(r); }
    r
}

fn normalize_entries(items: &Vec<Json>, fields: &Vec<&str>, timed: bool) -> (r: Vec<Json>)
    ensures
        items_view(r@) == normalized_entries(items_view(items@), strs_view(fields@), timed),
{
    let mut out: Vec<Json> = Vec::new();
    let mut i: usize = 0;
    while i < items.len()
        invariant
            i <= items.len(),
            out@.len() == i,
            forall|k: int| 0 <= k < i ==> #[trigger] json_view(out@[k]) == JsonView::Object(
                entry_fields(json_view(items@[k]), strs_view(fields@), timed),
            ),
        decreases items.len() - i,
    {
        let e = normalize_entry(&items[i], fields, timed);
        out.push(e);
        i = i + 1;
    }
    proof {
        assert(items_view(out@) =~= normalized_entries(items_view(items@), strs_view(fields@), timed));
    }
    out
}

fn normalize_member(field: &str, value: Json) -> (r: Json)
    ensures
        r@ == normalized_member(field@, value@),
{
    proof { lemma_view_parts(value); }
    if str_eq(field, "annotations") || str_eq(field, "labels") {
        match value {
            Json::Object(e) => {
                let r = Json::Object(collect_map(&e));
                proof { lemma_view_parts(r); }
                r
            },
            other => other,
        }
    } else if str_eq(field, "creationTimestamp") || str_eq(field, "deletionTimestamp") {
        normalize_time(value)
    } else if str_eq(field, "ownerReferences") {
        match value {
            Json::Array(items) => {
                let fields = vec!["apiVersion", "blockOwnerDeletion", "controller", "kind", "name", "uid"];
                proof { assert(strs_view(fields@) =~= owner_reference_fields()); }
                let r = Json::Array(normalize_entries(&items, &fields, false));
                proof { lemma_view_parts(r); }
                r
            },
            other => other,
        }
    } else if str_eq(field, "managedFields") {
        match value {
            Json::Array(items) => {
                let fields = vec![
                    "apiVersion",
                    "fieldsType",
                    "fieldsV1",
                    "manager",
                    "operation",
                    "subresource",
                    "time",
                ];
                proof { assert(strs_view(fields@) =~= managed_fields_entry_fields()); }
                let r = Json::Array(normalize_entries(&items, &fields, true));
                proof { lemma_view_parts(r); }
                r
            },
            other => other,
        }
    } else {
        value
    }
}

/// Reads metadata back through `ObjectMeta`.
pub fn normalize_metadata(metadata: &Json) -> (r: Json)
    ensures
        r@ == normalized_metadata(metadata@),
{
    let ghost fields = object_meta_fields();
    let mut out: Vec<(String, Json)> = Vec::new();
    proof { assert(entries_view(out@) =~= normalized_fields(metadata@, fields.take(0))); }
    let mut i: usize = 0;
    while i < 15
        invariant
            i <= 15,
            fields == object_meta_fields(),
            fields.len() == 15,
            entries_view(out@) == normalized_fields(metadata@, fields.take(i as int)),
        decreases 15 - i,
    {
        let f = object_meta_field(i);
        let v = get_key(metadata, f);
        proof {
            assert(fields.take(i + 1).drop_last() =~= fields.take(i as int));
            assert(fields.take(i + 1).last() == fields[i as int]);
            lemma_view_parts(v);
        }
        match v {
            Json::Null => {},
            other => {
                let ghost before = out@;
                let nv = normalize_member(f, other);
                let key = String::from_str(f);
                out.push((key, nv));
                proof {
                    assert(entries_view(out@) =~= entries_view(before).push((key@, nv@)));
                }
            },
        }
        i = i + 1;
    }
    proof { assert(fields.take(15) =~= fields); }
    let r = Json::Object(out);
    proof { lemma_view_parts(r); }
    r
}

proof fn lemma_obj_get_push(s: Seq<(Seq<char>, JsonView)>, x: (Seq<char>, JsonView), f: Seq<char>)
    ensures
        obj_get(s.push(x), f) == (if obj_get(s, f) is Some {
            obj_get(s, f)
        } else if x.0 == f {
            Some(x.1)
        } else {
            None
        }),
{
    let n = s.len() as int;
    let t = s.push(x);
    let fs = crate::json::key_at(s, f);
    let ft = crate::json::key_at(t, f);
    crate::json::lemma_first_from(0, n, fs);
    let p = crate::json::key_pos(s, f);
    let q = if p < n {
        p
    } else if x.0 == f {
        n
    } else {
        n + 1
    };
    assert forall|k: int| 0 <= k < q implies !#[trigger] ft(k) by {
        if k < n {
            assert(t[k] == s[k]);
            assert(!fs(k));
        }
    }
    if q < n {
        assert(t[q] == s[q]);
    }
    crate::json::lemma_first_from_is(0, n + 1, ft, q);
}

/// Looking a member up in normalized metadata: the normalized value of a known member
/// that is present and not null, nothing otherwise.
pub proof fn lemma_normalized_get(metadata: JsonView, fields: Seq<Seq<char>>, f: Seq<char>)
    requires
        fields.no_duplicates(),
    ensures
        obj_get(normalized_fields(metadata, fields), f) == (if fields.contains(f) && index_key(
            metadata,
            f,
        ) != JsonView::Null {
            Some(normalized_member(f, index_key(metadata, f)))
        } else {
            None
        }),
    decreases fields.len(),
{
    if fields.len() == 0 {
        let e = Seq::<(Seq<char>, JsonView)>::empty();
        crate::json::lemma_first_from(0, 0, crate::json::key_at(e, f));
    } else {
        let rest = fields.drop_last();
        let last = fields.last();
        assert(rest.no_duplicates()) by {
            assert forall|i: int, j: int| 0 <= i < rest.len() && 0 <= j < rest.len() && i != j implies rest[i]
                != rest[j] by {
                assert(rest[i] == fields[i] && rest[j] == fields[j]);
            }
        }
        lemma_normalized_get(metadata, rest, f);
        lemma_normalized_get(metadata, rest, last);
        assert(!rest.contains(last)) by {
            if rest.contains(last) {
                let i = choose|i: int| 0 <= i < rest.len() && rest[i] == last;
                assert(fields[i] == fields[fields.len() - 1]);
            }
        }
        assert(fields.contains(f) <==> (rest.contains(f) || f == last)) by {
            if fields.contains(f) && f != last {
                let i = choose|i: int| 0 <= i < fields.len() && fields[i] == f;
                assert(rest[i] == f);
            }
            if rest.contains(f) {
                let i = choose|i: int| 0 <= i < rest.len() && rest[i] == f;
                assert(fields[i] == f);
            }
            if f == last {
                assert(fields[fields.len() - 1] == f);
            }
        }
        let before = normalized_fields(metadata, rest);
        match index_key(metadata, last) {
            JsonView::Null => {},
            v => {
                lemma_obj_get_push(before, (last, normalized_member(last, v)), f);
            },
        }
    }
}

/// No member of `ObjectMeta` is listed twice.
pub proof fn lemma_object_meta_fields_distinct()
    ensures
        object_meta_fields().no_duplicates(),
{
    reveal_strlit("annotations");
    reveal_strlit("creationTimestamp");
    reveal_strlit("deletionGracePeriodSeconds");
    reveal_strlit("deletionTimestamp");
    reveal_strlit("finalizers");
    reveal_strlit("generateName");
    reveal_strlit("generation");
    reveal_strlit("labels");
    reveal_strlit("managedFields");
    reveal_strlit("name");
    reveal_strlit("namespace");
    reveal_strlit("ownerReferences");
    reveal_strlit("resourceVersion");
    reveal_strlit("selfLink");
    reveal_strlit("uid");
    let f = object_meta_fields();
    assert(f[0].len() == 11 && f[1].len() == 17 && f[2].len() == 26 && f[3].len() == 17 && f[4].len()
        == 10 && f[5].len() == 12 && f[6].len() == 10 && f[7].len() == 6 && f[8].len() == 13
        && f[9].len() == 4 && f[10].len() == 9 && f[11].len() == 15 && f[12].len() == 15
        && f[13].len() == 8 && f[14].len() == 3);
    assert(f[1][0] != f[3][0]);
    assert(f[4][0] != f[6][0]);
    assert(f[11][0] != f[12][0]);
    assert forall|i: int, j: int| 0 <= i < f.len() && 0 <= j < f.len() && i != j implies f[i] != f[j] by {
        if i == 1 && j == 3 || i == 3 && j == 1 {
            assert(f[i][0] != f[j][0]);
        } else if i == 4 && j == 6 || i == 6 && j == 4 {
            assert(f[i][0] != f[j][0]);
        } else if i == 11 && j == 12 || i == 12 && j == 11 {
            assert(f[i][0] != f[j][0]);
        } else {
            assert(f[i].len() != f[j].len());
        }
    }
}

/// What applying one mapping does to the target.
pub enum MappingStep {
    /// The mapping succeeded; the target so far.
    Next(DynamicObjectView),
    /// The mapping failed with this error.
    Fail(ErrorView),
    /// No result: `kube` cannot guess a plural for the kind of an inner resource, or
    /// the inner resource's annotations or labels hold a value that is not a string, so
    /// its metadata cannot be read.
    Panics,
}

/// The prefix of field paths that write into the metadata.
pub open spec fn metadata_prefix() -> Seq<char> {
    "metadata."@
}

/// One mapping applied to the target built so far.
pub open spec fn mapping_step(
    source: DynamicObjectView,
    target_name: Seq<char>,
    namespace: Option<Seq<char>>,
    template: DynamicObjectView,
    from: Option<Seq<char>>,
    to: Option<Seq<char>>,
) -> MappingStep {
    match find_field_path_spec(source, from) {
        Err(e) => MappingStep::Fail(e),
        Ok(subtree) => match to {
            None => match from {
                None => MappingStep::Fail(ErrorView::MappingEmpty),
                Some(_) => match gvk_of_subtree(subtree) {
                    Err(e) => MappingStep::Fail(e),
                    Ok((group, version, kind)) => {
                        let inner_metadata = index_key(subtree, "metadata"@);
                        if !plural_guessable(kind) || !metadata_convertible(inner_metadata) {
                            MappingStep::Panics
                        } else {
                            let inner = DynamicObjectView {
                                types: Some((api_version_of(group, version), kind)),
                                metadata: converted_metadata(inner_metadata),
                                data: cleaned_subtree(subtree),
                            };
                            MappingStep::Next(
                                clone_spec(
                                    inner,
                                    target_name,
                                    namespace,
                                    api_version_of(group, version),
                                    kind,
                                ),
                            )
                        }
                    },
                },
            },
            Some(to) => if is_prefix(metadata_prefix(), to) {
                let field = to.subrange(metadata_prefix().len() as int, to.len() as int);
                match set_field_path_spec(template.metadata, field, subtree) {
                    None => MappingStep::Fail(ErrorView::ObjectRequired(template.metadata)),
                    Some(metadata) => match object_meta_error(json_text(metadata)) {
                        Some(m) => MappingStep::Fail(ErrorView::SerializationError(m)),
                        None => MappingStep::Next(
                            DynamicObjectView { metadata: normalized_metadata(metadata), ..template },
                        ),
                    },
                }
            } else {
                match set_field_path_spec(template.data, to, subtree) {
                    None => MappingStep::Fail(ErrorView::ObjectRequired(template.data)),
                    Some(data) => MappingStep::Next(DynamicObjectView { data, ..template }),
                }
            },
        },
    }
}

/// The views of the two paths of each mapping.
pub open spec fn mapping_views(mappings: Seq<Mapping>) -> Seq<(Option<Seq<char>>, Option<Seq<char>>)> {
    Seq::new(
        mappings.len(),
        |i: int| (opt_view(mappings[i].from_field_path), opt_view(mappings[i].to_field_path)),
    )
}

/// The empty target: the target's name and namespace, no data.
pub open spec fn initial_target(
    target_name: Seq<char>,
    namespace: Option<Seq<char>>,
    api_version: Seq<char>,
    kind: Seq<char>,
) -> DynamicObjectView {
    DynamicObjectView {
        types: Some((api_version, kind)),
        metadata: JsonView::Object(named_metadata(target_name, namespace)),
        data: JsonView::Object(Seq::empty()),
    }
}

/// The mappings applied in order, stopping at the first failure.
pub open spec fn run_mappings(
    source: DynamicObjectView,
    target_name: Seq<char>,
    namespace: Option<Seq<char>>,
    start: DynamicObjectView,
    mappings: Seq<(Option<Seq<char>>, Option<Seq<char>>)>,
) -> MappingStep
    decreases mappings.len(),
{
    if mappings.len() == 0 {
        MappingStep::Next(start)
    } else {
        match run_mappings(source, target_name, namespace, start, mappings.drop_last()) {
            MappingStep::Next(t) => mapping_step(
                source,
                target_name,
                namespace,
                t,
                mappings.last().0,
                mappings.last().1,
            ),
            other => other,
        }
    }
}

/// The target that `mappings` build from `source`, for a target of the given name,
/// namespace and type.
pub open spec fn apply_mappings_spec(
    source: DynamicObjectView,
    target_name: Seq<char>,
    namespace: Option<Seq<char>>,
    api_version: Seq<char>,
    kind: Seq<char>,
    mappings: Seq<(Option<Seq<char>>, Option<Seq<char>>)>,
) -> MappingStep {
    run_mappings(
        source,
        target_name,
        namespace,
        initial_target(target_name, namespace, api_version, kind),
        mappings,
    )
}

proof fn lemma_run_stops(
    source: DynamicObjectView,
    target_name: Seq<char>,
    namespace: Option<Seq<char>>,
    start: DynamicObjectView,
    mappings: Seq<(Option<Seq<char>>, Option<Seq<char>>)>,
    i: int,
)
    requires
        0 <= i <= mappings.len(),
        !(run_mappings(source, target_name, namespace, start, mappings.take(i)) is Next),
    ensures
        run_mappings(source, target_name, namespace, start, mappings) == run_mappings(
            source,
            target_name,
            namespace,
            start,
            mappings.take(i),
        ),
    decreases mappings.len() - i,
{
    if i < mappings.len() {
        let next = mappings.take(i + 1);
        assert(next.drop_last() =~= mappings.take(i));
        lemma_run_stops(source, target_name, namespace, start, mappings, i + 1);
    } else {
        assert(mappings.take(i) =~= mappings);
    }
}

/// The exec counterpart of [`MappingStep`].
enum StepResult {
    Next(DynamicObject),
    Fail(Error),
    Panics,
}

fn apply_mapping(
    source: &DynamicObject,
    target_ref: &GVKN,
    target_namespace: Option<&str>,
    template: DynamicObject,
    mapping: &Mapping,
) -> (r: StepResult)
    ensures
        match mapping_step(
            source@,
            target_ref.name@,
            opt_str_view(target_namespace),
            template@,
            opt_view(mapping.from_field_path),
            opt_view(mapping.to_field_path),
        ) {
            MappingStep::Next(t) => r matches StepResult::Next(x) && x@ == t,
            MappingStep::Fail(e) => r matches StepResult::Fail(x) && x@ == e,
            MappingStep::Panics => r is Panics,
        },
{
    let subtree = match find_field_path(source, &mapping.from_field_path) {
        Ok(s) => s,
        Err(e) => return StepResult::Fail(e),
    };
    match &mapping.to_field_path {
        None => match &mapping.from_field_path {
            None => StepResult::Fail(Error::MappingEmpty),
            Some(_) => {
                if !subtree_has_guessable_plural(&subtree) {
                    return StepResult::Panics;
                }
                let ar = match get_ar_from_subtree(&subtree) {
                    Ok(ar) => ar,
                    Err(e) => return StepResult::Fail(e),
                };
                let inner_metadata = get_key(&subtree, "metadata");
                if !metadata_is_convertible(&inner_metadata) {
                    return StepResult::Panics;
                }
                let metadata = convert_metadata(&inner_metadata);
                let mut data = clone_json(&subtree);
                cleanup_subtree(&mut data);
                let inner = DynamicObject {
                    types: Some(TypeMeta { api_version: ar.api_version.clone(), kind: ar.kind.clone() }),
                    metadata,
                    data,
                };
                match clone_resource(&inner, target_ref, target_namespace, &ar) {
                    Ok(t) => StepResult::Next(t),
                    Err(e) => StepResult::Fail(e),
                }
            },
        },
        Some(to) => {
            let mut template = template;
            match strip_prefix(to.as_str(), "metadata.") {
                Some(field) => {
                    match set_field_path(&mut template.metadata, field.as_str(), subtree) {
                        Err(e) => StepResult::Fail(Error::AddToPathError(e)),
                        Ok(()) => {
                            let text = template.metadata.to_text();
                            match check_object_meta(text.as_str()) {
                                Some(m) => StepResult::Fail(Error::SerializationError(m)),
                                None => {
                                    template.metadata = normalize_metadata(&template.metadata);
                                    StepResult::Next(template)
                                },
                            }
                        },
                    }
                },
                None => {
                    match set_field_path(&mut template.data, to.as_str(), subtree) {
                        Err(e) => StepResult::Fail(Error::AddToPathError(e)),
                        Ok(()) => StepResult::Next(template),
                    }
                },
            }
        },
    }
}

fn string_members_only(entries: &Vec<(String, Json)>) -> (r: bool)
    ensures
        r == all_strings(entries_view(entries@)),
{
    let mut i: usize = 0;
    while i < entries.len()
        invariant
            i <= entries.len(),
            forall|k: int| 0 <= k < i ==> #[trigger] entries_view(entries@)[k].1 is String,
        decreases entries.len() - i,
    {
        proof { lemma_view_parts(entries@[i as int].1); }
        match &entries[i].1 {
            Json::String(_) => {},
            _ => {
                proof {
                    assert(entries_view(entries@)[i as int].1 == json_view(entries@[i as int].1));
                    assert(!(entries_view(entries@)[i as int].1 is String));
                }
                return false;
            },
        }
        i = i + 1;
    }
    true
}

fn metadata_is_convertible(metadata: &Json) -> (r: bool)
    ensures
        r == metadata_convertible(metadata@),
{
    let annotations = get_key(metadata, "annotations");
    proof { lemma_view_parts(annotations); }
    let ok_annotations = match &annotations {
        Json::Object(a) => string_members_only(a),
        _ => true,
    };
    let labels = get_key(metadata, "labels");
    proof { lemma_view_parts(labels); }
    let ok_labels = match &labels {
        Json::Object(l) => string_members_only(l),
        _ => true,
    };
    ok_annotations && ok_labels
}

/// Applies the mappings in order; `None` where some mapping has no result
/// (see [`MappingStep::Panics`]).
fn run_mappings_exec(
    source: &DynamicObject,
    target_ref: &GVKN,
    target_namespace: Option<&str>,
    ar: &ApiResource,
    sinker: &ResourceSync,
) -> (r: Option<Result<DynamicObject, Error>>)
    ensures
        match apply_mappings_spec(
            source@,
            target_ref.name@,
            opt_str_view(target_namespace),
            ar.api_version@,
            ar.kind@,
            mapping_views(sinker.spec.mappings@),
        ) {
            MappingStep::Next(t) => r matches Some(Ok(x)) && x@ == t,
            MappingStep::Fail(e) => r matches Some(Err(x)) && x@ == e,
            MappingStep::Panics => r is None,
        },
{
    let ghost ns = opt_str_view(target_namespace);
    let ghost name = target_ref.name@;
    let ghost ms = mapping_views(sinker.spec.mappings@);
    let ghost start = initial_target(name, ns, ar.api_version@, ar.kind@);
    let metadata = Json::Object(named_metadata_exec(&target_ref.name, target_namespace));
    proof { lemma_view_parts(metadata); }
    let empty: Vec<(String, Json)> = Vec::new();
    let data = Json::Object(empty);
    proof {
        lemma_view_parts(data);
        assert(entries_view(empty@) =~= Seq::empty());
    }
    let mut template = DynamicObject {
        types: Some(TypeMeta { api_version: ar.api_version.clone(), kind: ar.kind.clone() }),
        metadata,
        data,
    };
    assert(template@ == start);
    let mappings = &sinker.spec.mappings;
    let mut i: usize = 0;
    proof { assert(ms.take(0).len() == 0); }
    while i < mappings.len()
        invariant
            mappings == &sinker.spec.mappings,
            ns == opt_str_view(target_namespace),
            name == target_ref.name@,
            ms == mapping_views(sinker.spec.mappings@),
            start == initial_target(name, ns, ar.api_version@, ar.kind@),
            i <= mappings.len(),
            run_mappings(source@, name, ns, start, ms.take(i as int)) == MappingStep::Next(
                template@,
            ),
        decreases mappings.len() - i,
    {
        proof {
            assert(ms.take(i + 1).drop_last() =~= ms.take(i as int));
            assert(ms.take(i + 1).last() == ms[i as int]);
        }
        match apply_mapping(source, target_ref, target_namespace, template, &mappings[i]) {
            StepResult::Next(t) => {
                template = t;
            },
            StepResult::Fail(e) => {
                proof { lemma_run_stops(source@, name, ns, start, ms, i + 1); }
                return Some(Err(e));
            },
            StepResult::Panics => {
                proof { lemma_run_stops(source@, name, ns, start, ms, i + 1); }
                return None;
            },
        }
        i = i + 1;
    }
    proof { assert(ms.take(mappings.len() as int) =~= ms); }
    Some(Ok(template))
}

/// Builds the target from only the fields selected by the mappings of `sinker`.
///
/// Each mapping selects a subtree of the source with `fromFieldPath` (the whole
/// source when absent) and writes it at `toFieldPath` in the target's data, or in its
/// metadata for paths that start with `metadata.`; without `toFieldPath` the subtree is
/// an inner resource that replaces the whole target.
pub fn apply_mappings(
    source: &DynamicObject,
    target_ref: &GVKN,
    target_namespace: Option<&str>,
    ar: &ApiResource,
    sinker: &ResourceSync,
) -> (r: Result<DynamicObject, Error>)
    requires
        !(apply_mappings_spec(
            source@,
            target_ref.name@,
            opt_str_view(target_namespace),
            ar.api_version@,
            ar.kind@,
            mapping_views(sinker.spec.mappings@),
        ) is Panics),
    ensures
        match apply_mappings_spec(
            source@,
            target_ref.name@,
            opt_str_view(target_namespace),
            ar.api_version@,
            ar.kind@,
            mapping_views(sinker.spec.mappings@),
        ) {
            MappingStep::Next(t) => r matches Ok(x) && x@ == t,
            MappingStep::Fail(e) => r matches Err(x) && x@ == e,
            MappingStep::Panics => false,
        },
        !serializable(source@) && sinker.spec.mappings.len() > 0 ==> (r matches Err(
            Error::SerializationError(m),
        ) && m@ == flatten_error(source@.data)),
{
    proof {
        if !serializable(source@) && sinker.spec.mappings.len() > 0 {
            lemma_unserializable_source_fails(
                source@,
                target_ref.name@,
                opt_str_view(target_namespace),
                ar.api_version@,
                ar.kind@,
                mapping_views(sinker.spec.mappings@),
            );
        }
    }
    match run_mappings_exec(source, target_ref, target_namespace, ar, sinker) {
        Some(r) => r,
        None => {
            proof { assert(false); }
            Err(Error::MappingEmpty)
        },
    }
}

/// [`apply_mappings`], or `None` for the mappings that have no result (an inner
/// resource whose annotations or labels hold a non-string value).
pub fn try_apply_mappings(
    source: &DynamicObject,
    target_ref: &GVKN,
    target_namespace: Option<&str>,
    ar: &ApiResource,
    sinker: &ResourceSync,
) -> (r: Option<Result<DynamicObject, Error>>)
    ensures
        match apply_mappings_spec(
            source@,
            target_ref.name@,
            opt_str_view(target_namespace),
            ar.api_version@,
            ar.kind@,
            mapping_views(sinker.spec.mappings@),
        ) {
            MappingStep::Next(t) => r matches Some(Ok(x)) && x@ == t,
            MappingStep::Fail(e) => r matches Some(Err(x)) && x@ == e,
            MappingStep::Panics => r is None,
        },
{
    run_mappings_exec(source, target_ref, target_namespace, ar, sinker)
}

// ---------------------------------------------------------------- laws

proof fn lemma_run_append(
    source: DynamicObjectView,
    target_name: Seq<char>,
    namespace: Option<Seq<char>>,
    start: DynamicObjectView,
    a: Seq<(Option<Seq<char>>, Option<Seq<char>>)>,
    b: Seq<(Option<Seq<char>>, Option<Seq<char>>)>,
)
    ensures
        run_mappings(source, target_name, namespace, start, a + b) == match run_mappings(
            source,
            target_name,
            namespace,
            start,
            a,
        ) {
            MappingStep::Next(t) => run_mappings(source, target_name, namespace, t, b),
            other => other,
        },
    decreases b.len(),
{
    if b.len() == 0 {
        assert(a + b =~= a);
    } else {
        assert((a + b).drop_last() =~= a + b.drop_last());
        assert((a + b).last() == b.last());
        lemma_run_append(source, target_name, namespace, start, a, b.drop_last());
    }
}

/// A mapping with a `fromFieldPath` and no `toFieldPath` builds the whole target from
/// the source: once the mappings before it have succeeded, what they wrote is dropped,
/// and the result is that of the mappings from it on.
pub proof fn lemma_whole_mapping_replaces_target(
    source: DynamicObjectView,
    target_name: Seq<char>,
    namespace: Option<Seq<char>>,
    api_version: Seq<char>,
    kind: Seq<char>,
    mappings: Seq<(Option<Seq<char>>, Option<Seq<char>>)>,
    k: int,
)
    requires
        0 <= k < mappings.len(),
        mappings[k].0 is Some,
        mappings[k].1 is None,
        apply_mappings_spec(source, target_name, namespace, api_version, kind, mappings.take(k)) is Next,
    ensures
        apply_mappings_spec(source, target_name, namespace, api_version, kind, mappings)
            == apply_mappings_spec(source, target_name, namespace, api_version, kind, mappings.skip(k)),
{
    let init = initial_target(target_name, namespace, api_version, kind);
    let t = run_mappings(source, target_name, namespace, init, mappings.take(k))->Next_0;
    let one = seq![mappings[k]];
    let rest = mappings.skip(k + 1);
    assert(mappings =~= mappings.take(k) + mappings.skip(k));
    assert(mappings.skip(k) =~= one + rest);
    lemma_run_append(source, target_name, namespace, init, mappings.take(k), mappings.skip(k));
    lemma_run_append(source, target_name, namespace, t, one, rest);
    lemma_run_append(source, target_name, namespace, init, one, rest);
    assert(one.drop_last() =~= Seq::<(Option<Seq<char>>, Option<Seq<char>>)>::empty());
    assert(one.last() == mappings[k]);
    assert(run_mappings(source, target_name, namespace, t, one.drop_last()) == MappingStep::Next(t));
    assert(run_mappings(source, target_name, namespace, init, one.drop_last()) == MappingStep::Next(
        init,
    ));
    assert(run_mappings(source, target_name, namespace, t, one) == mapping_step(
        source,
        target_name,
        namespace,
        t,
        mappings[k].0,
        mappings[k].1,
    ));
    assert(run_mappings(source, target_name, namespace, init, one) == mapping_step(
        source,
        target_name,
        namespace,
        init,
        mappings[k].0,
        mappings[k].1,
    ));
}

/// Walking a location goes where its steps say: no step stays at the value; an index
/// `i` into an array with more than `i` items goes on at the item at position `i`,
/// counted from the front; a name into an object without repeated keys goes on at the
/// member of that name, wherever it stands.
pub proof fn lemma_walk_follows_steps(
    items: Seq<JsonView>,
    i: int,
    entries: Seq<(Seq<char>, JsonView)>,
    j: int,
    rest: Seq<PathStepView>,
    v: JsonView,
)
    ensures
        walk(v, Seq::empty()) == Some(v),
        0 <= i < items.len() ==> walk(
            JsonView::Array(items),
            seq![PathStepView::Index(i as nat)] + rest,
        ) == walk(items[i], rest),
        0 <= i < items.len() ==> walk(JsonView::Array(items), seq![PathStepView::Index(i as nat)]) == Some(
            items[i],
        ),
        0 <= j < entries.len() && crate::json::unique_keys(entries) ==> walk(
            JsonView::Object(entries),
            seq![PathStepView::Name(entries[j].0)] + rest,
        ) == walk(entries[j].1, rest),
        0 <= j < entries.len() && crate::json::unique_keys(entries) ==> walk(
            JsonView::Object(entries),
            seq![PathStepView::Name(entries[j].0)],
        ) == Some(entries[j].1),
{
    let si = seq![PathStepView::Index(i as nat)] + rest;
    assert(si[0] == PathStepView::Index(i as nat));
    assert(si.drop_first() =~= rest);
    let si1 = seq![PathStepView::Index(i as nat)];
    assert(si1.drop_first() =~= Seq::<PathStepView>::empty());
    if 0 <= i < items.len() {
        assert(walk(items[i], Seq::<PathStepView>::empty()) == Some(items[i]));
    }
    if 0 <= j < entries.len() && crate::json::unique_keys(entries) {
        let key = entries[j].0;
        assert forall|k: int| 0 <= k < j implies !#[trigger] crate::json::key_at(entries, key)(k) by {
            assert(entries[k].0 != entries[j].0);
        }
        crate::json::lemma_first_from_is(0, entries.len() as int, crate::json::key_at(entries, key), j);
        assert(obj_get(entries, key) == Some(entries[j].1));
        let sn = seq![PathStepView::Name(key)] + rest;
        assert(sn[0] == PathStepView::Name(key));
        assert(sn.drop_first() =~= rest);
        let sn1 = seq![PathStepView::Name(key)];
        assert(sn1.drop_first() =~= Seq::<PathStepView>::empty());
        assert(walk(entries[j].1, Seq::<PathStepView>::empty()) == Some(entries[j].1));
    }
}

/// A source whose data is not a map cannot be serialized, so the first mapping, and
/// with it the whole application, fails with `serde`'s flatten error.
pub proof fn lemma_unserializable_source_fails(
    source: DynamicObjectView,
    target_name: Seq<char>,
    namespace: Option<Seq<char>>,
    api_version: Seq<char>,
    kind: Seq<char>,
    mappings: Seq<(Option<Seq<char>>, Option<Seq<char>>)>,
)
    requires
        !serializable(source),
        mappings.len() > 0,
    ensures
        apply_mappings_spec(source, target_name, namespace, api_version, kind, mappings)
            == MappingStep::Fail(ErrorView::SerializationError(flatten_error(source.data))),
{
    let start = initial_target(target_name, namespace, api_version, kind);
    let first = mappings.take(1);
    assert(first.drop_last() =~= Seq::<(Option<Seq<char>>, Option<Seq<char>>)>::empty());
    assert(first.last() == mappings[0]);
    assert(run_mappings(source, target_name, namespace, start, first.drop_last()) == MappingStep::Next(
        start,
    ));
    assert(find_field_path_spec(source, mappings[0].0) == Err::<JsonView, ErrorView>(
        ErrorView::SerializationError(flatten_error(source.data)),
    ));
    assert(run_mappings(source, target_name, namespace, start, first) == MappingStep::Fail(
        ErrorView::SerializationError(flatten_error(source.data)),
    ));
    lemma_run_stops(source, target_name, namespace, start, mappings, 1);
}

/// A write at `path` fails exactly when the root is not an object, or when a member on
/// the way (before the last segment) exists and is not an object; then the root stays
/// as it was and the error holds it (see [`set_field_path`]).
pub proof fn lemma_set_field_path_fails(root: JsonView, path: Seq<char>, leaf: JsonView)
    ensures
        set_field_path_spec(root, path, leaf) is None <==> match root {
            JsonView::Object(entries) => crate::json::path_blocked(entries, path),
            _ => true,
        },
{
    if let JsonView::Object(entries) = root {
        crate::json::lemma_set_path_fails(entries, path, leaf);
    }
}

/// After a successful write at `path`, reading `path` in the new root gives `leaf`, and
/// the members of the root outside the path's first segment keep their values.
pub proof fn lemma_set_field_path_reads_back(root: JsonView, path: Seq<char>, leaf: JsonView)
    requires
        set_field_path_spec(root, path, leaf) is Some,
    ensures
        set_field_path_spec(root, path, leaf) matches Some(JsonView::Object(e)) && get_path(e, path)
            == Some(leaf),
        forall|k: Seq<char>|
            k != first_segment(path) ==> #[trigger] index_key(
                set_field_path_spec(root, path, leaf)->0,
                k,
            ) == index_key(root, k),
{
    if let JsonView::Object(entries) = root {
        lemma_set_path_get(entries, path, leaf);
    }
}

/// Cleaning the annotations drops the last-applied configuration, and keeps every other
/// annotation with its value.
pub proof fn lemma_cleanup_keeps_other_annotations(annotations: Seq<(Seq<char>, JsonView)>)
    ensures
        forall|k: Seq<char>|
            k != LAST_APPLIED_ANNOTATION@ ==> #[trigger] obj_get(
                map_remove(annotations, LAST_APPLIED_ANNOTATION@),
                k,
            ) == obj_get(annotations, k),
        unique_keys(annotations) ==> obj_get(
            map_remove(annotations, LAST_APPLIED_ANNOTATION@),
            LAST_APPLIED_ANNOTATION@,
        ) is None,
{
    lemma_map_remove_get(annotations, LAST_APPLIED_ANNOTATION@);
}

/// A clone keeps the source's data, has the target's type, name and namespace, and
/// carries the source's labels, and its annotations without the last-applied
/// configuration.
pub proof fn lemma_clone_copies_source(
    source: DynamicObjectView,
    name: Seq<char>,
    namespace: Option<Seq<char>>,
    api_version: Seq<char>,
    kind: Seq<char>,
)
    ensures
        ({
            let c = clone_spec(source, name, namespace, api_version, kind);
            &&& c.data == source.data
            &&& c.types == Some((api_version, kind))
            &&& index_key(c.metadata, "name"@) == JsonView::String(name)
            &&& namespace matches Some(ns) ==> index_key(c.metadata, "namespace"@) == JsonView::String(ns)
            &&& index_key(source.metadata, "labels"@) is Object ==> index_key(c.metadata, "labels"@)
                == index_key(source.metadata, "labels"@)
            &&& index_key(source.metadata, "annotations"@) matches JsonView::Object(a) ==> index_key(
                c.metadata,
                "annotations"@,
            ) == JsonView::Object(map_remove(a, LAST_APPLIED_ANNOTATION@))
        }),
{
    reveal_strlit("name");
    reveal_strlit("namespace");
    reveal_strlit("annotations");
    reveal_strlit("labels");
    assert("name"@.len() == 4 && "namespace"@.len() == 9 && "annotations"@.len() == 11
        && "labels"@.len() == 6);
    assert("name"@ != "namespace"@ && "name"@ != "annotations"@ && "name"@ != "labels"@);
    assert("namespace"@ != "annotations"@ && "namespace"@ != "labels"@);
    assert("annotations"@ != "labels"@);
    let with_annotations = match index_key(source.metadata, "annotations"@) {
        JsonView::Object(a) => {
            let v = JsonView::Object(map_remove(a, LAST_APPLIED_ANNOTATION@));
            lemma_obj_set_get(Seq::empty(), "annotations"@, v);
            obj_set(Seq::empty(), "annotations"@, v)
        },
        _ => Seq::empty(),
    };
    let with_labels = match index_key(source.metadata, "labels"@) {
        JsonView::Object(l) => {
            lemma_obj_set_get(with_annotations, "labels"@, JsonView::Object(l));
            obj_set(with_annotations, "labels"@, JsonView::Object(l))
        },
        _ => with_annotations,
    };
    lemma_obj_set_get(with_labels, "name"@, JsonView::String(name));
    let named = obj_set(with_labels, "name"@, JsonView::String(name));
    if let Some(ns) = namespace {
        lemma_obj_set_get(named, "namespace"@, JsonView::String(ns));
    }
}

} // verus!
