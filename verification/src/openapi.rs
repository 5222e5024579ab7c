//! Discovery of the API from its OpenAPI document.
//!
//! The document is a [`Json`] value. These functions find the paths and methods
//! that it describes, so that a caller can pick one before making a request.
use vstd::prelude::*;

use crate::json::{
    array_member, first_names_grow, json_is_finite, member, text_member, tree_of, trees,
    without_members, Json, JsonObject, JsonView,
};
use crate::openapi_laws::{listing_by_field, searching_is_filtering};
use crate::text::{
    all_digits, ascending, contains, in_order, is_among, is_numeric, lowered, numeric_value,
    occurs, order_is_unique, parse_place, pieces, same_but_for_ascii_case,
    same_ignoring_ascii_case, same_text, split, strip_prefix, text_of, texts, to_lowercase,
    unescape, unescaped,
};

verus! {

/// The methods that a path can have: their names in the document, and their names
/// in requests, in the order of the names.
pub open spec fn methods() -> Seq<(Seq<char>, Seq<char>)> {
    seq![
        ("delete"@, "DELETE"@),
        ("get"@, "GET"@),
        ("head"@, "HEAD"@),
        ("options"@, "OPTIONS"@),
        ("patch"@, "PATCH"@),
        ("post"@, "POST"@),
        ("put"@, "PUT"@),
    ]
}

/// How many methods there are.
const METHODS: usize = 7;

/// The names of the method at place `i`.
fn method_names(i: usize) -> (r: (&'static str, &'static str))
    requires
        i < METHODS,
    ensures
        (r.0@, r.1@) == methods()[i as int],
{
    match i {
        0 => ("delete", "DELETE"),
        1 => ("get", "GET"),
        2 => ("head", "HEAD"),
        3 => ("options", "OPTIONS"),
        4 => ("patch", "PATCH"),
        5 => ("post", "POST"),
        _ => ("put", "PUT"),
    }
}

/// Whether a token of a JSON Pointer is the place of an item in an array: decimal digits,
/// and no zero before others.
pub open spec fn is_index(token: Seq<char>) -> bool {
    is_numeric(token) && (token.len() == 1 || token[0] != '0')
}

/// What a token of a JSON Pointer leads to: a member of an object by its name, or an item
/// of an array by its place.
pub open spec fn stepped(node: JsonView, token: Seq<char>) -> Option<JsonView> {
    match node {
        JsonView::Array(items) => if is_index(token) && numeric_value(token) < items.len() {
            Some(items[numeric_value(token)])
        } else {
            None
        },
        _ => member(node, token),
    }
}

/// What a chain of tokens leads to, from object to member and from array to item.
pub open spec fn followed(node: JsonView, names: Seq<Seq<char>>) -> Option<JsonView>
    decreases names.len(),
{
    if names.len() == 0 {
        Some(node)
    } else {
        match stepped(node, names[0]) {
            Some(next) => followed(next, names.drop_first()),
            None => None,
        }
    }
}

/// The tokens of a JSON Pointer, with its escapes resolved: `~1` is `/`, and `~0`
/// is `~`.
pub open spec fn pointer_names(pointer: Seq<char>) -> Seq<Seq<char>> {
    pieces(pointer, '/').map_values(|raw: Seq<char>| unescaped(unescaped(raw, '1', '/'), '0', '~'))
}

/// What a reference such as `#/components/schemas/Foo` leads to in the document.
pub open spec fn pointed(doc: JsonView, reference: Seq<char>) -> Option<JsonView> {
    if "#/"@.is_prefix_of(reference) {
        followed(doc, pointer_names(reference.skip(2)))
    } else {
        None
    }
}

/// What a token of a JSON Pointer leads to.
fn step<'a>(node: &'a Json, token: &str) -> (r: Option<&'a Json>)
    ensures
        tree_of(r) == stepped(node@, token@),
{
    match node.as_array() {
        Some(items) => {
            let n = items.len();
            assert(trees(items@).len() == n);
            if !all_digits(token) {
                return None;
            }
            let first = token.get_char(0);
            if first == '0' && token.unicode_len() != 1 {
                return None;
            }
            match parse_place(token) {
                Some(i) => if i < n {
                    assert(trees(items@)[i as int] == items@[i as int]@);
                    Some(&items[i])
                } else {
                    None
                },
                None => None,
            }
        },
        None => node.get(token),
    }
}

/// Resolves a JSON Pointer like `#/components/schemas/Foo` against the document.
pub fn resolve_pointer<'a>(doc: &'a Json, reference: &str) -> (r: Option<&'a Json>)
    ensures
        tree_of(r) == pointed(doc@, reference@),
{
    proof {
        reveal_strlit("#/");
    }
    match strip_prefix(reference, "#/") {
        None => None,
        Some(rest) => {
            assert("#/"@.is_prefix_of(reference@));
            assert(reference@.skip(2) =~= rest@);
            let raws = split(rest.as_str(), '/');
            let ghost names = pointer_names(rest@);
            let mut node = doc;
            let mut i: usize = 0;
            assert(names.skip(0) =~= names);
            while i < raws.len()
                invariant
                    i <= raws.len(),
                    texts(raws@) == pieces(rest@, '/'),
                    names == pointer_names(rest@),
                    pointed(doc@, reference@) == followed(doc@, names),
                    followed(doc@, names) == followed(node@, names.skip(i as int)),
                decreases raws.len() - i,
            {
                let name = unescape(unescape(raws[i].as_str(), '1', '/').as_str(), '0', '~');
                assert(texts(raws@)[i as int] == raws@[i as int]@);
                assert(names.skip(i as int)[0] == name@);
                assert(names.skip(i as int).drop_first() =~= names.skip(i + 1));
                match step(node, name.as_str()) {
                    Some(next) => {
                        node = next;
                    },
                    None => {
                        return None;
                    },
                }
                i += 1;
            }
            assert(texts(raws@).len() == names.len());
            Some(node)
        },
    }
}

/// A value with its references replaced by what they lead to, up to `depth` of
/// them inside one another. A reference stays as it is where it leads nowhere, and
/// where it stands inside its own target: `open` holds the references that the
/// value stands inside of.
pub open spec fn resolved(
    doc: JsonView,
    node: JsonView,
    depth: nat,
    open: Seq<Seq<char>>,
) -> JsonView
    decreases depth, node,
{
    match node {
        JsonView::Object(members) => match text_member(node, "$ref"@) {
            Some(reference) => if depth == 0 || open.contains(reference) {
                node
            } else {
                match pointed(doc, reference) {
                    Some(target) => resolved(
                        doc,
                        target,
                        (depth - 1) as nat,
                        open.push(reference),
                    ),
                    None => node,
                }
            },
            None => JsonView::Object(
                Map::new(
                    |name: Seq<char>| members.dom().contains(name),
                    |name: Seq<char>|
                        if members.dom().contains(name) && members.dom().finite() {
                            resolved(doc, members[name], depth, open)
                        } else {
                            JsonView::Null
                        },
                ),
            ),
        },
        JsonView::Array(items) => JsonView::Array(
            Seq::new(
                items.len(),
                |i: int|
                    if 0 <= i < items.len() {
                        resolved(doc, items[i], depth, open)
                    } else {
                        JsonView::Null
                    },
            ),
        ),
        other => other,
    }
}

/// Recursively inlines references up to `depth`; `seen` is the chain of references
/// that `node` stands inside of, and is handed back as it was.
pub fn resolve_refs(doc: &Json, node: &Json, depth: usize, seen: &mut Vec<String>) -> (r: Json)
    ensures
        r@ == resolved(doc@, node@, depth as nat, texts(old(seen)@)),
        texts(final(seen)@) == texts(old(seen)@),
    decreases depth, node@,
{
    let ghost said = node@;
    let ghost open = texts(seen@);
    match node {
        Json::Object(members) => {
            if let Some(reference) = node.text("$ref") {
                if depth == 0 || is_among(seen, reference) {
                    return node.clone();
                }
                return match resolve_pointer(doc, reference) {
                    Some(target) => {
                        let ghost before = seen@;
                        seen.push(reference.to_owned());
                        assert(texts(seen@) =~= open.push(reference@));
                        let r = resolve_refs(doc, target, depth - 1, seen);
                        let ghost after = seen@;
                        seen.pop();
                        assert(texts(seen@) =~= open) by {
                            assert(texts(after) == open.push(reference@));
                            assert(texts(seen@) =~= texts(after).drop_last());
                        }
                        r
                    },
                    None => node.clone(),
                };
            }
            let mut out = JsonObject::new();
            let mut i: usize = 0;
            let n = members.len();
            let ghost done = resolved(doc@, said, depth as nat, open)->Object_0;
            while i < n
                invariant
                    i <= n,
                    n == members.keys().len(),
                    said == node@,
                    said == JsonView::Object(members@),
                    text_member(said, "$ref"@) is None,
                    members@.dom() == members.keys().to_set(),
                    members@.dom().finite(),
                    texts(seen@) == open,
                    resolved(doc@, said, depth as nat, open) == JsonView::Object(done),
                    out@.dom() == members.keys().take(i as int).to_set(),
                    forall|k: Seq<char>| #[trigger] out@.dom().contains(k) ==> out@[k] == done[k],
                decreases n - i,
            {
                let ghost keys = members.keys();
                let name = members.name(i).clone();
                let value = members.value(i);
                assert(decreases_to!(said => said->Object_0));
                assert(decreases_to!(said->Object_0 => said->Object_0[keys[i as int]]));
                let inner = resolve_refs(doc, value, depth, seen);
                assert(done[name@] == inner@);
                out.insert(name, inner);
                proof {
                    first_names_grow(keys, i as int);
                }
                i += 1;
            }
            assert(members.keys().take(n as int) =~= members.keys());
            assert(out@ =~= done);
            Json::Object(out)
        },
        Json::Array(items) => {
            let mut out: Vec<Json> = Vec::new();
            let mut i: usize = 0;
            let ghost done = resolved(doc@, said, depth as nat, open)->Array_0;
            assert(said->Array_0 =~= trees(items@));
            while i < items.len()
                invariant
                    i == out@.len(),
                    i <= items@.len(),
                    said == node@,
                    said == JsonView::Array(trees(items@)),
                    texts(seen@) == open,
                    resolved(doc@, said, depth as nat, open) == JsonView::Array(done),
                    forall|k: int| 0 <= k < i ==> (#[trigger] out@[k])@ == done[k],
                decreases items.len() - i,
            {
                assert(decreases_to!(said => said->Array_0));
                assert(said->Array_0[i as int] == items@[i as int]@);
                assert(decreases_to!(said->Array_0 => said->Array_0[i as int]));
                let inner = resolve_refs(doc, &items[i], depth, seen);
                assert(done[i as int] == inner@);
                out.push(inner);
                i += 1;
            }
            let r = Json::Array(out);
            assert(r@->Array_0 =~= done);
            r
        },
        _ => node.clone(),
    }
}

/// The addresses among the servers that a document lists.
pub open spec fn addresses(servers: Seq<JsonView>) -> Seq<JsonView>
    decreases servers.len(),
{
    if servers.len() == 0 {
        Seq::empty()
    } else {
        let before = addresses(servers.drop_last());
        match member(servers.last(), "url"@) {
            Some(url) => before.push(url),
            None => before,
        }
    }
}

/// A value that may be absent, or what stands in its place.
pub open spec fn or_else<T>(value: Option<T>, otherwise: T) -> T {
    match value {
        Some(v) => v,
        None => otherwise,
    }
}

/// A short description of the API that the document covers: its `info`, and the
/// addresses of its servers.
pub fn api_info(doc: &Json) -> (r: Json)
    ensures
        r@ == JsonView::Object(
            without_members().insert(
                "info"@,
                or_else(member(doc@, "info"@), JsonView::Null),
            ).insert(
                "servers"@,
                JsonView::Array(addresses(or_else(array_member(doc@, "servers"@), Seq::empty()))),
            ),
        ),
{
    let info = match doc.get("info") {
        Some(info) => info.clone(),
        None => Json::Null,
    };
    let mut urls: Vec<Json> = Vec::new();
    if let Some(servers) = doc.array("servers") {
        let mut i: usize = 0;
        assert(trees(servers@).take(0) =~= Seq::empty());
        while i < servers.len()
            invariant
                i <= servers.len(),
                trees(urls@) == addresses(trees(servers@).take(i as int)),
            decreases servers.len() - i,
        {
            let ghost before = urls@;
            assert(trees(servers@).take(i + 1).drop_last() =~= trees(servers@).take(i as int));
            if let Some(url) = servers[i].get("url") {
                let url = url.clone();
                let ghost said = url@;
                urls.push(url);
                assert(trees(urls@) =~= trees(before).push(said));
            }
            i += 1;
        }
        assert(trees(servers@).take(i as int) =~= trees(servers@));
    } else {
        assert(trees(urls@) =~= Seq::empty());
    }
    let list = Json::Array(urls);
    assert(list@->Array_0 =~= trees(urls@));
    let mut out = JsonObject::new();
    out.insert("info".to_owned(), info);
    out.insert("servers".to_owned(), list);
    Json::Object(out)
}

/// The list of tags with their descriptions.
pub fn list_tags(doc: &Json) -> (r: Vec<Json>)
    ensures
        trees(r@) == or_else(array_member(doc@, "tags"@), Seq::empty()),
{
    let mut out: Vec<Json> = Vec::new();
    if let Some(tags) = doc.array("tags") {
        let mut i: usize = 0;
        while i < tags.len()
            invariant
                i <= tags.len(),
                i == out@.len(),
                forall|j: int| 0 <= j < i ==> (#[trigger] out@[j])@ == tags@[j]@,
            decreases tags.len() - i,
        {
            out.push(tags[i].clone());
            i += 1;
        }
        assert(trees(out@) =~= trees(tags@));
    } else {
        assert(trees(out@) =~= Seq::empty());
    }
    out
}

/// Whether a caller who asks for `method`, or for any method, means the one that
/// the document calls `name`.
pub open spec fn is_meant(method: Option<Seq<char>>, name: Seq<char>) -> bool {
    match method {
        Some(method) => same_but_for_ascii_case(method, name),
        None => true,
    }
}

/// Of the first `n` methods, those that a caller means and that the path has, each
/// with its references resolved.
pub open spec fn operations(
    doc: JsonView,
    item: Map<Seq<char>, JsonView>,
    method: Option<Seq<char>>,
    n: nat,
) -> Map<Seq<char>, JsonView>
    decreases n,
{
    if n == 0 {
        without_members()
    } else {
        let before = operations(doc, item, method, (n - 1) as nat);
        let (name, shown) = methods()[n - 1];
        if is_meant(method, name) && item.dom().contains(name) {
            before.insert(shown, resolved(doc, item[name], 6, Seq::empty()))
        } else {
            before
        }
    }
}

/// The methods of a path, where the document has the path.
pub open spec fn path_item(doc: JsonView, path: Seq<char>) -> Option<Map<Seq<char>, JsonView>> {
    match member(doc, "paths"@) {
        Some(paths) => match member(paths, path) {
            Some(JsonView::Object(item)) => Some(item),
            _ => None,
        },
        None => None,
    }
}

/// What the document says of a path; `None` where it has no operation that is
/// meant.
pub open spec fn description(
    doc: JsonView,
    path: Seq<char>,
    method: Option<Seq<char>>,
) -> Option<JsonView> {
    match path_item(doc, path) {
        Some(item) => {
            let found = operations(doc, item, method, 7);
            if found.dom() == Set::<Seq<char>>::empty() {
                None
            } else {
                Some(
                    JsonView::Object(
                        without_members().insert("path"@, JsonView::Str(path)).insert(
                            "operations"@,
                            JsonView::Object(found),
                        ),
                    ),
                )
            }
        },
        None => None,
    }
}

/// Describes a path: its operations with references expanded, so that the details
/// of parameters and schemas are inlined. `method` is optional; without it every
/// method of the path is returned.
pub fn describe_endpoint(doc: &Json, path: &str, method: Option<&str>) -> (r: Option<Json>)
    ensures
        (match r {
            Some(v) => Some(v@),
            None => None,
        }) == description(doc@, path@, text_of(method)),
{
    let item = match doc.get("paths") {
        Some(paths) => match paths.get(path) {
            Some(item) => match item.as_object() {
                Some(item) => item,
                None => {
                    return None;
                },
            },
            None => {
                return None;
            },
        },
        None => {
            return None;
        },
    };
    let mut found = JsonObject::new();
    let mut any = false;
    let mut i: usize = 0;
    while i < METHODS
        invariant
            i <= METHODS,
            found@ == operations(doc@, item@, text_of(method), i as nat),
            any == (found@.dom() != Set::<Seq<char>>::empty()),
        decreases METHODS - i,
    {
        let (name, shown) = method_names(i);
        let meant = match method {
            Some(method) => same_ignoring_ascii_case(method, name),
            None => true,
        };
        if meant {
            if let Some(op) = item.get(name) {
                let mut seen: Vec<String> = Vec::new();
                assert(texts(seen@) =~= Seq::empty());
                found.insert(shown.to_owned(), resolve_refs(doc, op, 6, &mut seen));
                any = true;
                assert(found@.dom().contains(shown@));
            }
        }
        i += 1;
    }
    if !any {
        return None;
    }
    let mut out = JsonObject::new();
    out.insert("path".to_owned(), Json::Str(path.to_owned()));
    out.insert("operations".to_owned(), Json::Object(found));
    Some(Json::Object(out))
}

/// The text in which a search looks: the path, and what the operation says of
/// itself.
pub open spec fn searched_text(path: Seq<char>, op: JsonView) -> Seq<char> {
    path + " "@ + or_else(text_member(op, "summary"@), Seq::empty()) + " "@ + or_else(
        text_member(op, "description"@),
        Seq::empty(),
    ) + " "@ + or_else(text_member(op, "operationId"@), Seq::empty())
}

/// Whether an operation has the given tag.
pub open spec fn is_tagged(op: JsonView, tag: Seq<char>) -> bool {
    or_else(array_member(op, "tags"@), Seq::empty()).contains(JsonView::Str(tag))
}

/// Whether an operation passes the filters.
pub open spec fn is_selected(
    path: Seq<char>,
    op: JsonView,
    tag: Option<Seq<char>>,
    search: Option<Seq<char>>,
) -> bool {
    &&& tag matches Some(tag) ==> is_tagged(op, tag)
    &&& search matches Some(search) ==> occurs(
        lowered(search),
        lowered(searched_text(path, op)),
    )
}

/// Members with one more, where there is a value for it.
pub open spec fn with_optional(
    members: Map<Seq<char>, JsonView>,
    name: Seq<char>,
    value: Option<JsonView>,
) -> Map<Seq<char>, JsonView> {
    match value {
        Some(value) => members.insert(name, value),
        None => members,
    }
}

/// Members with a flag, where the operation has it set.
pub open spec fn with_flag(
    members: Map<Seq<char>, JsonView>,
    op: JsonView,
    flag: Seq<char>,
) -> Map<Seq<char>, JsonView> {
    if member(op, flag) == Some(JsonView::Bool(true)) {
        members.insert(flag, JsonView::Bool(true))
    } else {
        members
    }
}

/// Whether an operation asks for a session: it does, unless it says that it needs
/// none.
pub open spec fn needs_session(op: JsonView) -> bool {
    !(member(op, "security"@) matches Some(JsonView::Array(needs)) && needs.len() == 0)
}

/// How an operation is listed.
pub open spec fn endpoint(path: Seq<char>, method: Seq<char>, op: JsonView) -> Map<
    Seq<char>,
    JsonView,
> {
    let named = without_members().insert("method"@, JsonView::Str(method)).insert(
        "path"@,
        JsonView::Str(path),
    );
    let told = with_optional(
        with_optional(named, "summary"@, member(op, "summary"@)),
        "tags"@,
        member(op, "tags"@),
    );
    let flagged = with_flag(
        with_flag(
            with_flag(with_flag(told, op, "deprecated"@), op, "x-wip"@),
            op,
            "x-paid"@,
        ),
        op,
        "x-legacy"@,
    );
    flagged.insert("auth_required"@, JsonView::Bool(needs_session(op)))
}

/// The listed operations among the first `n` methods of a path.
pub open spec fn path_endpoints(
    path: Seq<char>,
    item: JsonView,
    tag: Option<Seq<char>>,
    search: Option<Seq<char>>,
    n: nat,
) -> Seq<JsonView>
    decreases n,
{
    if n == 0 {
        Seq::empty()
    } else {
        let before = path_endpoints(path, item, tag, search, (n - 1) as nat);
        let (name, shown) = methods()[n - 1];
        match member(item, name) {
            Some(op) => if is_selected(path, op, tag, search) {
                before.push(JsonView::Object(endpoint(path, shown, op)))
            } else {
                before
            },
            None => before,
        }
    }
}

/// The listed operations of the paths called `names`.
pub open spec fn endpoints(
    paths: Map<Seq<char>, JsonView>,
    names: Seq<Seq<char>>,
    tag: Option<Seq<char>>,
    search: Option<Seq<char>>,
) -> Seq<JsonView>
    decreases names.len(),
{
    if names.len() == 0 {
        Seq::empty()
    } else {
        endpoints(paths, names.drop_last(), tag, search) + path_endpoints(
            names.last(),
            paths[names.last()],
            tag,
            search,
            7,
        )
    }
}

/// The operations of a document that pass the filters, in the order of their paths
/// and, on one path, of their methods.
pub open spec fn listing(
    doc: JsonView,
    tag: Option<Seq<char>>,
    search: Option<Seq<char>>,
) -> Seq<JsonView> {
    match member(doc, "paths"@) {
        Some(JsonView::Object(paths)) => endpoints(paths, in_order(paths.dom()), tag, search),
        _ => Seq::empty(),
    }
}

/// Puts what a search looks in together.
fn text_to_search(path: &str, op: &Json) -> (r: String)
    ensures
        r@ == searched_text(path@, op@),
{
    let mut hay = path.to_owned();
    hay.append(" ");
    if let Some(summary) = op.text("summary") {
        hay.append(summary);
    }
    assert(hay@ =~= path@ + " "@ + or_else(text_member(op@, "summary"@), Seq::empty()));
    hay.append(" ");
    if let Some(description) = op.text("description") {
        hay.append(description);
    }
    assert(hay@ =~= path@ + " "@ + or_else(text_member(op@, "summary"@), Seq::empty()) + " "@
        + or_else(text_member(op@, "description"@), Seq::empty()));
    hay.append(" ");
    if let Some(id) = op.text("operationId") {
        hay.append(id);
    }
    assert(hay@ =~= searched_text(path@, op@));
    hay
}

/// Whether an operation has the given tag.
fn has_tag(op: &Json, tag: &str) -> (r: bool)
    ensures
        r == is_tagged(op@, tag@),
{
    let tags = match op.array("tags") {
        Some(tags) => tags,
        None => {
            return false;
        },
    };
    let mut i: usize = 0;
    while i < tags.len()
        invariant
            i <= tags.len(),
            array_member(op@, "tags"@) == Some(trees(tags@)),
            forall|j: int| 0 <= j < i ==> trees(tags@)[j] != JsonView::Str(tag@),
        decreases tags.len() - i,
    {
        if let Some(t) = tags[i].as_str() {
            if same_text(t, tag) {
                assert(trees(tags@)[i as int] == JsonView::Str(tag@));
                return true;
            }
        }
        i += 1;
    }
    false
}

/// Sets a member, where there is a value for it.
fn insert_optional(out: &mut JsonObject, name: &str, value: Option<&Json>)
    ensures
        final(out)@ == with_optional(old(out)@, name@, tree_of(value)),
{
    if let Some(value) = value {
        out.insert(name.to_owned(), value.clone());
    }
}

/// Sets a flag, where the operation has it set.
fn insert_flag(out: &mut JsonObject, op: &Json, flag: &str)
    ensures
        final(out)@ == with_flag(old(out)@, op@, flag@),
{
    if let Some(value) = op.get(flag) {
        if value.is_true() {
            out.insert(flag.to_owned(), Json::Bool(true));
        }
    }
}

/// How an operation is listed.
fn list_endpoint(path: &str, method: &str, op: &Json) -> (r: Json)
    ensures
        r@ == JsonView::Object(endpoint(path@, method@, op@)),
{
    let mut out = JsonObject::new();
    out.insert("method".to_owned(), Json::Str(method.to_owned()));
    out.insert("path".to_owned(), Json::Str(path.to_owned()));
    insert_optional(&mut out, "summary", op.get("summary"));
    insert_optional(&mut out, "tags", op.get("tags"));
    insert_flag(&mut out, op, "deprecated");
    insert_flag(&mut out, op, "x-wip");
    insert_flag(&mut out, op, "x-paid");
    insert_flag(&mut out, op, "x-legacy");
    let free = match op.array("security") {
        Some(needs) => needs.len() == 0,
        None => false,
    };
    assert(free == !needs_session(op@)) by {
        assert(forall|s: Seq<Json>| (#[trigger] trees(s)).len() == s.len());
    }
    out.insert("auth_required".to_owned(), Json::Bool(!free));
    Json::Object(out)
}

/// Lists the operations in the document, optionally filtered by `tag` (exact match)
/// and by `search` (a part of the path, summary, description or operation id, in
/// any case).
pub fn list_endpoints(doc: &Json, tag: Option<&str>, search: Option<&str>) -> (r: Vec<Json>)
    ensures
        trees(r@) == listing(doc@, text_of(tag), text_of(search)),
        text_of(search) matches Some(sought) ==> (!sought.contains(' ') ==> trees(r@)
            == listing_by_field(doc@, text_of(tag), sought)),
{
    let needle = match search {
        Some(search) => Some(to_lowercase(search)),
        None => None,
    };
    proof {
        if let Some(sought) = text_of(search) {
            if !sought.contains(' ') {
                json_is_finite(*doc);
                searching_is_filtering(doc@, text_of(tag), sought);
            }
        }
    }
    let mut out: Vec<Json> = Vec::new();
    assert(trees(out@) =~= Seq::empty());
    let paths = match doc.get("paths") {
        Some(paths) => match paths.as_object() {
            Some(paths) => paths,
            None => {
                return out;
            },
        },
        None => {
            return out;
        },
    };
    let ghost wanted = text_of(tag);
    let ghost sought = text_of(search);
    let n = paths.len();
    let ghost names = paths.keys();
    proof {
        assert(ascending(names) && names.to_set() == paths@.dom());
        order_is_unique(names, in_order(paths@.dom()));
        assert(names.take(0) =~= Seq::empty());
    }
    let mut i: usize = 0;
    while i < n
        invariant
            i <= n,
            n == names.len(),
            names == paths.keys(),
            wanted == text_of(tag),
            sought == text_of(search),
            match needle {
                Some(needle) => sought matches Some(sought) && needle@ == lowered(sought),
                None => sought is None,
            },
            trees(out@) == endpoints(paths@, names.take(i as int), wanted, sought),
        decreases n - i,
    {
        let path = paths.name(i).as_str();
        let item = paths.value(i);
        let ghost before = trees(out@);
        let mut m: usize = 0;
        assert(before + Seq::empty() =~= before);
        while m < METHODS
            invariant
                m <= METHODS,
                wanted == text_of(tag),
                sought == text_of(search),
                match needle {
                    Some(needle) => sought matches Some(sought) && needle@ == lowered(sought),
                    None => sought is None,
                },
                trees(out@) == before + path_endpoints(path@, item@, wanted, sought, m as nat),
            decreases METHODS - m,
        {
            let (name, shown) = method_names(m);
            if let Some(op) = item.get(name) {
                let tagged = match tag {
                    Some(tag) => has_tag(op, tag),
                    None => true,
                };
                let matched = match &needle {
                    Some(needle) => contains(
                        to_lowercase(text_to_search(path, op).as_str()).as_str(),
                        needle.as_str(),
                    ),
                    None => true,
                };
                if tagged && matched {
                    let entry = list_endpoint(path, shown, op);
                    let ghost listed = out@;
                    let ghost said = entry@;
                    out.push(entry);
                    assert(trees(out@) =~= trees(listed).push(said));
                    assert(trees(listed).push(said) =~= before + path_endpoints(
                        path@,
                        item@,
                        wanted,
                        sought,
                        m as nat,
                    ).push(said));
                }
            }
            m += 1;
        }
        assert(names.take(i + 1).drop_last() =~= names.take(i as int));
        i += 1;
    }
    assert(names.take(n as int) =~= names);
    out
}

}
