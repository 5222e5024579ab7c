//! What holds of the discovery functions as a whole.
use vstd::prelude::*;
use vstd::utf8::is_ascii_chars;

use crate::json::{is_finite, member, text_member, trees, without_members, Json, JsonView};
use crate::openapi::{
    addresses, api_info, describe_endpoint, description, endpoint, endpoints, followed, is_index,
    is_meant, is_selected, is_tagged, list_endpoints, list_tags, listing, methods, needs_session,
    operations, or_else, path_endpoints, path_item, pointed, pointer_names, resolve_pointer,
    resolve_refs, resolved, searched_text, stepped, with_flag, with_optional,
};
use crate::text::{
    ascending, ascii_lowered, ascii_small, decimal, decimal_nat, decimal_reads_back, in_order,
    joined, lowered, lowered_across_a_space, lowered_ascii, numeric_value,
    numeric_value_is_not_negative, occurs, occurs_at, occurs_beside_a_space, order_exists, pieces,
    pieces_of_joined, pieces_of_more, pieces_of_one, same_but_for_ascii_case, text_before,
    text_before_irreflexive, text_before_transitive, text_of, texts, unescaped,
};
use crate::text_laws::{an_escape_is_replaced, nothing_to_unescape};

verus! {

/// Whether the document has an operation for the method at place `m` on a path.
pub open spec fn has_operation(doc: JsonView, path: Seq<char>, m: int, op: JsonView) -> bool {
    &&& 0 <= m < methods().len()
    &&& path_item(doc, path) matches Some(item) && item.dom().contains(methods()[m].0)
        && item[methods()[m].0] == op
}

/// How the operation for the method at place `m` is listed.
pub open spec fn entry(path: Seq<char>, m: int, op: JsonView) -> JsonView {
    JsonView::Object(endpoint(path, methods()[m].1, op))
}

/// The path that a listed operation shows.
pub open spec fn shown_path(listed: JsonView) -> Seq<char> {
    or_else(text_member(listed, "path"@), Seq::empty())
}

/// The method that a listed operation shows.
pub open spec fn shown_method(listed: JsonView) -> Seq<char> {
    or_else(text_member(listed, "method"@), Seq::empty())
}

/// Whether a listed operation comes before another: by its path, and on one path by its
/// method.
pub open spec fn listed_before(a: JsonView, b: JsonView) -> bool {
    text_before(shown_path(a), shown_path(b)) || shown_path(a) == shown_path(b) && text_before(
        shown_method(a),
        shown_method(b),
    )
}

/// A listed operation shows its path and its method.
proof fn lemma_entry(path: Seq<char>, m: int, op: JsonView)
    ensures
        shown_path(entry(path, m, op)) == path,
        shown_method(entry(path, m, op)) == methods()[m].1,
{
    reveal_strlit("path");
    reveal_strlit("method");
    reveal_strlit("summary");
    reveal_strlit("tags");
    reveal_strlit("deprecated");
    reveal_strlit("x-wip");
    reveal_strlit("x-paid");
    reveal_strlit("x-legacy");
    reveal_strlit("auth_required");
    assert("path"@[0] != "tags"@[0]);
    assert("method"@[0] != "x-paid"@[0]);
}

/// The methods are in the order of their names, and have the same name in the document
/// and in requests, but for the case.
proof fn lemma_methods()
    ensures
        forall|a: int, b: int|
            0 <= a < b < 7 ==> text_before(#[trigger] methods()[a].1, #[trigger] methods()[b].1),
        forall|a: int|
            0 <= a < 7 ==> same_but_for_ascii_case(#[trigger] methods()[a].1, methods()[a].0),
{
    reveal_strlit("delete");
    reveal_strlit("get");
    reveal_strlit("head");
    reveal_strlit("options");
    reveal_strlit("patch");
    reveal_strlit("post");
    reveal_strlit("put");
    reveal_strlit("DELETE");
    reveal_strlit("GET");
    reveal_strlit("HEAD");
    reveal_strlit("OPTIONS");
    reveal_strlit("PATCH");
    reveal_strlit("POST");
    reveal_strlit("PUT");
    reveal_with_fuel(text_before, 3);
    let names = methods();
    assert(text_before(names[0].1, names[1].1));
    assert(text_before(names[1].1, names[2].1));
    assert(text_before(names[2].1, names[3].1));
    assert(text_before(names[3].1, names[4].1));
    assert(text_before(names[4].1, names[5].1));
    assert(text_before(names[5].1, names[6].1));
    assert forall|a: int, b: int| 0 <= a < b < 7 implies text_before(
        #[trigger] names[a].1,
        #[trigger] names[b].1,
    ) by {
        methods_ascend(a, b);
    }
}

proof fn methods_ascend(a: int, b: int)
    requires
        0 <= a < b < 7,
        forall|i: int| 0 <= i < 6 ==> text_before(#[trigger] methods()[i].1, methods()[i + 1].1),
    ensures
        text_before(methods()[a].1, methods()[b].1),
    decreases b - a,
{
    assert(text_before(methods()[a].1, methods()[a + 1].1));
    if a + 1 < b {
        methods_ascend(a + 1, b);
        text_before_transitive(methods()[a].1, methods()[a + 1].1, methods()[b].1);
    }
}

/// Whether a listed operation is that of the method at place `m` of a path.
spec fn is_entry(
    listed: JsonView,
    path: Seq<char>,
    item: JsonView,
    m: int,
    tag: Option<Seq<char>>,
    search: Option<Seq<char>>,
) -> bool {
    member(item, methods()[m].0) matches Some(op) && is_selected(path, op, tag, search) && listed
        == entry(path, m, op)
}

/// Whether a listed operation is that of one of the first `n` methods of a path.
spec fn is_of_path(
    listed: JsonView,
    path: Seq<char>,
    item: JsonView,
    tag: Option<Seq<char>>,
    search: Option<Seq<char>>,
    n: nat,
) -> bool {
    exists|m: int| 0 <= m < n && #[trigger] is_entry(listed, path, item, m, tag, search)
}

/// Whether a listed operation is on one of the paths called `names`.
spec fn is_of_paths(
    listed: JsonView,
    paths: Map<Seq<char>, JsonView>,
    names: Seq<Seq<char>>,
    tag: Option<Seq<char>>,
    search: Option<Seq<char>>,
) -> bool {
    exists|k: int|
        0 <= k < names.len() && #[trigger] is_of_path(
            listed,
            names[k],
            paths[names[k]],
            tag,
            search,
            7,
        )
}

/// Whether each listed operation comes before all the later ones.
spec fn is_in_order(list: Seq<JsonView>) -> bool {
    forall|i: int, j: int|
        0 <= i < j < list.len() ==> listed_before(#[trigger] list[i], #[trigger] list[j])
}

/// What is listed of one path.
proof fn lemma_path_endpoints(
    path: Seq<char>,
    item: JsonView,
    tag: Option<Seq<char>>,
    search: Option<Seq<char>>,
    n: nat,
)
    requires
        n <= 7,
    ensures
        forall|listed: JsonView|
            path_endpoints(path, item, tag, search, n).contains(listed) == #[trigger] is_of_path(
                listed,
                path,
                item,
                tag,
                search,
                n,
            ),
        is_in_order(path_endpoints(path, item, tag, search, n)),
    decreases n,
{
    if n > 0 {
        let fewer = (n - 1) as nat;
        let before = path_endpoints(path, item, tag, search, fewer);
        let list = path_endpoints(path, item, tag, search, n);
        lemma_path_endpoints(path, item, tag, search, fewer);
        let last = n - 1;
        assert forall|listed: JsonView| list.contains(listed) == #[trigger] is_of_path(
            listed,
            path,
            item,
            tag,
            search,
            n,
        ) by {
            assert(before.contains(listed) == is_of_path(listed, path, item, tag, search, fewer));
            if list.contains(listed) {
                let i = choose|i: int| 0 <= i < list.len() && list[i] == listed;
                if i < before.len() {
                    assert(before[i] == listed);
                    let m = choose|m: int|
                        0 <= m < fewer && #[trigger] is_entry(listed, path, item, m, tag, search);
                    assert(is_entry(listed, path, item, m, tag, search));
                } else {
                    assert(is_entry(listed, path, item, last, tag, search));
                }
            }
            if is_of_path(listed, path, item, tag, search, n) {
                let m = choose|m: int|
                    0 <= m < n && #[trigger] is_entry(listed, path, item, m, tag, search);
                if m < last {
                    assert(is_entry(listed, path, item, m, tag, search));
                    assert(is_of_path(listed, path, item, tag, search, fewer));
                    let i = choose|i: int| 0 <= i < before.len() && before[i] == listed;
                    assert(list[i] == listed);
                } else {
                    assert(list[list.len() - 1] == listed);
                }
            }
        }
        assert forall|i: int, j: int| 0 <= i < j < list.len() implies listed_before(
            #[trigger] list[i],
            #[trigger] list[j],
        ) by {
            if j < before.len() {
                assert(listed_before(before[i], before[j]));
            } else {
                assert(before.contains(before[i]));
                assert(is_of_path(before[i], path, item, tag, search, fewer));
                let m = choose|m: int|
                    0 <= m < fewer && #[trigger] is_entry(before[i], path, item, m, tag, search);
                lemma_methods();
                lemma_entry(path, m, member(item, methods()[m].0)->Some_0);
                lemma_entry(path, last, member(item, methods()[last].0)->Some_0);
            }
        }
    }
}

/// What is listed of several paths.
proof fn lemma_endpoints(
    paths: Map<Seq<char>, JsonView>,
    names: Seq<Seq<char>>,
    tag: Option<Seq<char>>,
    search: Option<Seq<char>>,
)
    requires
        ascending(names),
    ensures
        forall|listed: JsonView|
            endpoints(paths, names, tag, search).contains(listed) == #[trigger] is_of_paths(
                listed,
                paths,
                names,
                tag,
                search,
            ),
        is_in_order(endpoints(paths, names, tag, search)),
    decreases names.len(),
{
    if names.len() > 0 {
        let fewer = names.drop_last();
        let name = names.last();
        let item = paths[name];
        let before = endpoints(paths, fewer, tag, search);
        let added = path_endpoints(name, item, tag, search, 7);
        let list = endpoints(paths, names, tag, search);
        lemma_endpoints(paths, fewer, tag, search);
        lemma_path_endpoints(name, item, tag, search, 7);
        let last = names.len() - 1;
        assert forall|listed: JsonView| list.contains(listed) == #[trigger] is_of_paths(
            listed,
            paths,
            names,
            tag,
            search,
        ) by {
            assert(before.contains(listed) == is_of_paths(listed, paths, fewer, tag, search));
            assert(added.contains(listed) == is_of_path(listed, name, item, tag, search, 7));
            if list.contains(listed) {
                let i = choose|i: int| 0 <= i < list.len() && list[i] == listed;
                if i < before.len() {
                    assert(before[i] == listed);
                    let k = choose|k: int|
                        0 <= k < fewer.len() && #[trigger] is_of_path(
                            listed,
                            fewer[k],
                            paths[fewer[k]],
                            tag,
                            search,
                            7,
                        );
                    assert(is_of_path(listed, names[k], paths[names[k]], tag, search, 7));
                } else {
                    assert(added[i - before.len()] == listed);
                    assert(is_of_path(listed, names[last], paths[names[last]], tag, search, 7));
                }
            }
            if is_of_paths(listed, paths, names, tag, search) {
                let k = choose|k: int|
                    0 <= k < names.len() && #[trigger] is_of_path(
                        listed,
                        names[k],
                        paths[names[k]],
                        tag,
                        search,
                        7,
                    );
                if k < last {
                    assert(is_of_path(listed, fewer[k], paths[fewer[k]], tag, search, 7));
                    let i = choose|i: int| 0 <= i < before.len() && before[i] == listed;
                    assert(list[i] == listed);
                } else {
                    let i = choose|i: int| 0 <= i < added.len() && added[i] == listed;
                    assert(list[before.len() + i] == listed);
                }
            }
        }
        assert forall|i: int, j: int| 0 <= i < j < list.len() implies listed_before(
            #[trigger] list[i],
            #[trigger] list[j],
        ) by {
            if j < before.len() {
                assert(listed_before(before[i], before[j]));
            } else if i >= before.len() {
                assert(listed_before(added[i - before.len()], added[j - before.len()]));
            } else {
                let first = before[i];
                let second = added[j - before.len()];
                assert(before.contains(first));
                assert(is_of_paths(first, paths, fewer, tag, search));
                let k = choose|k: int|
                    0 <= k < fewer.len() && #[trigger] is_of_path(
                        first,
                        fewer[k],
                        paths[fewer[k]],
                        tag,
                        search,
                        7,
                    );
                let m = choose|m: int|
                    0 <= m < 7 && #[trigger] is_entry(
                        first,
                        fewer[k],
                        paths[fewer[k]],
                        m,
                        tag,
                        search,
                    );
                assert(added.contains(second));
                assert(is_of_path(second, name, item, tag, search, 7));
                let p = choose|p: int|
                    0 <= p < 7 && #[trigger] is_entry(second, name, item, p, tag, search);
                lemma_entry(fewer[k], m, member(paths[fewer[k]], methods()[m].0)->Some_0);
                lemma_entry(name, p, member(item, methods()[p].0)->Some_0);
                assert(text_before(names[k], names[last]));
            }
        }
    }
}

/// A finite document has finitely many paths.
proof fn paths_are_finite(doc: JsonView)
    requires
        is_finite(doc),
        member(doc, "paths"@) matches Some(paths) && paths is Object,
    ensures
        member(doc, "paths"@)->Some_0->Object_0.dom().finite(),
{
    let paths = member(doc, "paths"@)->Some_0;
    assert(doc->Object_0.dom().contains("paths"@));
    assert(is_finite(paths));
}

/// Every listed operation is one that the document has, and passes the filters.
pub proof fn listing_is_sound(
    doc: JsonView,
    tag: Option<Seq<char>>,
    search: Option<Seq<char>>,
    i: int,
)
    requires
        is_finite(doc),
        0 <= i < listing(doc, tag, search).len(),
    ensures
        exists|path: Seq<char>, m: int, op: JsonView| #[trigger]
            has_operation(doc, path, m, op) && is_selected(path, op, tag, search) && listing(
                doc,
                tag,
                search,
            )[i] == entry(path, m, op),
{
    let paths = member(doc, "paths"@)->Some_0->Object_0;
    let names = in_order(paths.dom());
    paths_are_finite(doc);
    order_exists(paths.dom());
    lemma_endpoints(paths, names, tag, search);
    let listed = listing(doc, tag, search)[i];
    assert(listed == endpoints(paths, names, tag, search)[i]);
    assert(endpoints(paths, names, tag, search).contains(listed));
    assert(is_of_paths(listed, paths, names, tag, search));
    let k = choose|k: int|
        0 <= k < names.len() && #[trigger] is_of_path(
            listed,
            names[k],
            paths[names[k]],
            tag,
            search,
            7,
        );
    let m = choose|m: int|
        0 <= m < 7 && #[trigger] is_entry(listed, names[k], paths[names[k]], m, tag, search);
    let op = member(paths[names[k]], methods()[m].0)->Some_0;
    assert(names.to_set().contains(names[k]));
    assert(has_operation(doc, names[k], m, op));
}

/// Every operation that the document has and that passes the filters is listed.
pub proof fn listing_is_complete(
    doc: JsonView,
    tag: Option<Seq<char>>,
    search: Option<Seq<char>>,
    path: Seq<char>,
    m: int,
    op: JsonView,
)
    requires
        is_finite(doc),
        has_operation(doc, path, m, op),
        is_selected(path, op, tag, search),
    ensures
        listing(doc, tag, search).contains(entry(path, m, op)),
{
    let paths = member(doc, "paths"@)->Some_0->Object_0;
    let names = in_order(paths.dom());
    paths_are_finite(doc);
    order_exists(paths.dom());
    lemma_endpoints(paths, names, tag, search);
    assert(names.to_set().contains(path));
    let k = choose|k: int| 0 <= k < names.len() && names[k] == path;
    let listed = entry(path, m, op);
    assert(is_entry(listed, names[k], paths[names[k]], m, tag, search));
    assert(is_of_path(listed, names[k], paths[names[k]], tag, search, 7));
    assert(is_of_paths(listed, paths, names, tag, search));
}

/// The listed operations are in the order of their paths and, on one path, of their
/// methods, and none is listed twice.
pub proof fn listing_is_in_order(
    doc: JsonView,
    tag: Option<Seq<char>>,
    search: Option<Seq<char>>,
    i: int,
    j: int,
)
    requires
        is_finite(doc),
        0 <= i < j < listing(doc, tag, search).len(),
    ensures
        listed_before(listing(doc, tag, search)[i], listing(doc, tag, search)[j]),
        listing(doc, tag, search)[i] != listing(doc, tag, search)[j],
{
    let paths = member(doc, "paths"@)->Some_0->Object_0;
    let names = in_order(paths.dom());
    paths_are_finite(doc);
    order_exists(paths.dom());
    lemma_endpoints(paths, names, tag, search);
    let list = listing(doc, tag, search);
    assert(listed_before(list[i], list[j]));
    text_before_irreflexive(shown_path(list[i]));
    text_before_irreflexive(shown_method(list[i]));
}

/// A filter only leaves operations out: what is listed with filters is listed without
/// them, and what is listed with both filters is listed with either.
pub proof fn filters_narrow_the_listing(
    doc: JsonView,
    tag: Option<Seq<char>>,
    search: Option<Seq<char>>,
    listed: JsonView,
)
    requires
        is_finite(doc),
        listing(doc, tag, search).contains(listed),
    ensures
        listing(doc, None, None).contains(listed),
        listing(doc, tag, None).contains(listed),
        listing(doc, None, search).contains(listed),
{
    let list = listing(doc, tag, search);
    let i = choose|i: int| 0 <= i < list.len() && list[i] == listed;
    listing_is_sound(doc, tag, search, i);
    let (path, m, op) = choose|path: Seq<char>, m: int, op: JsonView| #[trigger]
        has_operation(doc, path, m, op) && is_selected(path, op, tag, search) && list[i] == entry(
            path,
            m,
            op,
        );
    listing_is_complete(doc, None, None, path, m, op);
    listing_is_complete(doc, tag, None, path, m, op);
    listing_is_complete(doc, None, search, path, m, op);
}

/// Without filters every operation of the document is listed.
pub proof fn everything_is_listed(doc: JsonView, path: Seq<char>, m: int, op: JsonView)
    requires
        is_finite(doc),
        has_operation(doc, path, m, op),
    ensures
        listing(doc, None, None).contains(entry(path, m, op)),
{
    listing_is_complete(doc, None, None, path, m, op);
}

/// Searches that select the same operations of a path list the same of it.
proof fn lemma_path_selection(
    path: Seq<char>,
    item: JsonView,
    tag: Option<Seq<char>>,
    a: Option<Seq<char>>,
    b: Option<Seq<char>>,
    n: nat,
)
    requires
        forall|op: JsonView|
            is_selected(path, op, tag, a) == #[trigger] is_selected(path, op, tag, b),
    ensures
        path_endpoints(path, item, tag, a, n) == path_endpoints(path, item, tag, b, n),
    decreases n,
{
    if n > 0 {
        lemma_path_selection(path, item, tag, a, b, (n - 1) as nat);
        if let Some(op) = member(item, methods()[n - 1].0) {
            assert(is_selected(path, op, tag, a) == is_selected(path, op, tag, b));
        }
    }
}

/// Searches that select the same operations list the same.
proof fn lemma_selection(
    paths: Map<Seq<char>, JsonView>,
    names: Seq<Seq<char>>,
    tag: Option<Seq<char>>,
    a: Option<Seq<char>>,
    b: Option<Seq<char>>,
)
    requires
        forall|path: Seq<char>, op: JsonView|
            is_selected(path, op, tag, a) == #[trigger] is_selected(path, op, tag, b),
    ensures
        endpoints(paths, names, tag, a) == endpoints(paths, names, tag, b),
    decreases names.len(),
{
    if names.len() > 0 {
        lemma_selection(paths, names.drop_last(), tag, a, b);
        lemma_path_selection(names.last(), paths[names.last()], tag, a, b, 7);
    }
}

/// A search does not tell texts apart that differ in case only.
pub proof fn search_ignores_case(
    doc: JsonView,
    tag: Option<Seq<char>>,
    a: Seq<char>,
    b: Seq<char>,
)
    requires
        lowered(a) == lowered(b),
    ensures
        listing(doc, tag, Some(a)) == listing(doc, tag, Some(b)),
{
    if let Some(JsonView::Object(paths)) = member(doc, "paths"@) {
        lemma_selection(paths, in_order(paths.dom()), tag, Some(a), Some(b));
    }
}

/// A search for an ASCII text finds the same in whatever case its letters are.
pub proof fn search_ignores_ascii_case(
    doc: JsonView,
    tag: Option<Seq<char>>,
    a: Seq<char>,
    b: Seq<char>,
)
    requires
        is_ascii_chars(a),
        is_ascii_chars(b),
        same_but_for_ascii_case(a, b),
    ensures
        listing(doc, tag, Some(a)) == listing(doc, tag, Some(b)),
{
    lowered_ascii(a);
    lowered_ascii(b);
    assert(ascii_lowered(a) =~= ascii_lowered(b));
    search_ignores_case(doc, tag, a, b);
}

/// A search for nothing leaves nothing out.
pub proof fn an_empty_search_finds_everything(doc: JsonView, tag: Option<Seq<char>>)
    ensures
        listing(doc, tag, Some(Seq::empty())) == listing(doc, tag, None),
{
    let none = Seq::<char>::empty();
    lowered_ascii(none);
    assert forall|path: Seq<char>, op: JsonView| is_selected(path, op, tag, Some(none))
        == #[trigger] is_selected(path, op, tag, None) by {
        let hay = lowered(searched_text(path, op));
        assert(lowered(none) =~= none);
        assert(hay.subrange(0, 0) =~= none);
        assert(occurs_at(lowered(none), hay, 0));
    }
    if let Some(JsonView::Object(paths)) = member(doc, "paths"@) {
        lemma_selection(paths, in_order(paths.dom()), tag, Some(none), None);
    }
}

/// Whether a text in lower case occurs in the path of an operation, or in its summary, its
/// description or its operation id; what is missing, or no text, is empty.
pub open spec fn a_field_holds(path: Seq<char>, op: JsonView, needle: Seq<char>) -> bool {
    ||| occurs(needle, lowered(path))
    ||| occurs(needle, lowered(or_else(text_member(op, "summary"@), Seq::empty())))
    ||| occurs(needle, lowered(or_else(text_member(op, "description"@), Seq::empty())))
    ||| occurs(needle, lowered(or_else(text_member(op, "operationId"@), Seq::empty())))
}

/// The place of the method that a request calls `method`.
pub open spec fn place_of_method(method: Seq<char>) -> int {
    choose|m: int| 0 <= m < methods().len() && #[trigger] methods()[m].1 == method
}

/// The operation that was listed.
pub open spec fn listed_operation(doc: JsonView, listed: JsonView) -> JsonView {
    match path_item(doc, shown_path(listed)) {
        Some(item) => item[methods()[place_of_method(shown_method(listed))].0],
        None => JsonView::Null,
    }
}

/// What is listed without a search and has a field that holds the text searched for, in
/// whatever case.
pub open spec fn listing_by_field(
    doc: JsonView,
    tag: Option<Seq<char>>,
    search: Seq<char>,
) -> Seq<JsonView> {
    listing(doc, tag, None).filter(
        |listed: JsonView|
            a_field_holds(shown_path(listed), listed_operation(doc, listed), lowered(search)),
    )
}

/// A search looks into each field for itself.
pub proof fn a_search_is_by_field(path: Seq<char>, op: JsonView, needle: Seq<char>)
    requires
        !needle.contains(' '),
    ensures
        occurs(needle, lowered(searched_text(path, op))) == a_field_holds(path, op, needle),
{
    reveal_strlit(" ");
    let space = seq![' '];
    assert(" "@ =~= space);
    let summary = or_else(text_member(op, "summary"@), Seq::empty());
    let description = or_else(text_member(op, "description"@), Seq::empty());
    let id = or_else(text_member(op, "operationId"@), Seq::empty());
    let two = path + space + summary;
    let three = two + space + description;
    assert(searched_text(path, op) == three + space + id);
    lowered_across_a_space(path, summary);
    lowered_across_a_space(two, description);
    lowered_across_a_space(three, id);
    occurs_beside_a_space(needle, lowered(path), lowered(summary));
    occurs_beside_a_space(needle, lowered(two), lowered(description));
    occurs_beside_a_space(needle, lowered(three), lowered(id));
}

/// A method is at its own place.
proof fn lemma_place_of_method(m: int)
    requires
        0 <= m < 7,
    ensures
        place_of_method(methods()[m].1) == m,
{
    lemma_methods();
    let p = place_of_method(methods()[m].1);
    assert(methods()[m].1 == methods()[m].1);
    assert(0 <= p < 7 && methods()[p].1 == methods()[m].1);
    text_before_irreflexive(methods()[m].1);
    if p < m {
        assert(text_before(methods()[p].1, methods()[m].1));
    } else if m < p {
        assert(text_before(methods()[m].1, methods()[p].1));
    }
}

/// What a search finds of a path is what a field holds it of.
proof fn lemma_path_filter(
    doc: JsonView,
    path: Seq<char>,
    item: JsonView,
    tag: Option<Seq<char>>,
    search: Seq<char>,
    n: nat,
)
    requires
        n <= 7,
        !lowered(search).contains(' '),
        member(doc, "paths"@) matches Some(paths) && member(paths, path) == Some(item),
    ensures
        path_endpoints(path, item, tag, Some(search), n) == path_endpoints(
            path,
            item,
            tag,
            None,
            n,
        ).filter(
            |listed: JsonView|
                a_field_holds(shown_path(listed), listed_operation(doc, listed), lowered(search)),
        ),
    decreases n,
{
    let holds = |listed: JsonView|
        a_field_holds(shown_path(listed), listed_operation(doc, listed), lowered(search));
    reveal(Seq::filter);
    if n > 0 {
        let m = n - 1;
        let all = path_endpoints(path, item, tag, None, n);
        let before = path_endpoints(path, item, tag, None, (n - 1) as nat);
        lemma_path_filter(doc, path, item, tag, search, (n - 1) as nat);
        if let Some(op) = member(item, methods()[m].0) {
            lemma_entry(path, m, op);
            lemma_place_of_method(m);
            a_search_is_by_field(path, op, lowered(search));
            let listed = entry(path, m, op);
            assert(listed_operation(doc, listed) == op);
            assert(holds(listed) == a_field_holds(path, op, lowered(search)));
            if is_selected(path, op, tag, None) {
                assert(all.drop_last() =~= before);
                assert(all.last() == listed);
            }
        }
    }
}

proof fn lemma_filter(
    doc: JsonView,
    paths: Map<Seq<char>, JsonView>,
    names: Seq<Seq<char>>,
    tag: Option<Seq<char>>,
    search: Seq<char>,
)
    requires
        !lowered(search).contains(' '),
        member(doc, "paths"@) == Some(JsonView::Object(paths)),
        forall|i: int| 0 <= i < names.len() ==> paths.dom().contains(#[trigger] names[i]),
    ensures
        endpoints(paths, names, tag, Some(search)) == endpoints(paths, names, tag, None).filter(
            |listed: JsonView|
                a_field_holds(shown_path(listed), listed_operation(doc, listed), lowered(search)),
        ),
    decreases names.len(),
{
    let holds = |listed: JsonView|
        a_field_holds(shown_path(listed), listed_operation(doc, listed), lowered(search));
    reveal(Seq::filter);
    if names.len() > 0 {
        let fewer = names.drop_last();
        let name = names.last();
        assert(name == names[names.len() - 1]);
        assert forall|i: int| 0 <= i < fewer.len() implies paths.dom().contains(
            #[trigger] fewer[i],
        ) by {
            assert(fewer[i] == names[i]);
        }
        lemma_filter(doc, paths, fewer, tag, search);
        lemma_path_filter(doc, name, paths[name], tag, search, 7);
        Seq::filter_distributes_over_add(
            endpoints(paths, fewer, tag, None),
            path_endpoints(name, paths[name], tag, None, 7),
            holds,
        );
    }
}

/// A search whose text in lower case has no space lists exactly the operations of which a
/// field holds it, in the order in which they are listed without the search.
pub proof fn searching_is_filtering(
    doc: JsonView,
    tag: Option<Seq<char>>,
    search: Seq<char>,
)
    requires
        is_finite(doc),
        !lowered(search).contains(' '),
    ensures
        listing(doc, tag, Some(search)) == listing_by_field(doc, tag, search),
{
    reveal(Seq::filter);
    if let Some(JsonView::Object(paths)) = member(doc, "paths"@) {
        let names = in_order(paths.dom());
        paths_are_finite(doc);
        order_exists(paths.dom());
        assert forall|i: int| 0 <= i < names.len() implies paths.dom().contains(
            #[trigger] names[i],
        ) by {
            assert(names.to_set().contains(names[i]));
        }
        lemma_filter(doc, paths, names, tag, search);
    }
}

/// A listed operation shows the tags of the operation.
proof fn lemma_entry_tags(path: Seq<char>, m: int, op: JsonView)
    ensures
        member(entry(path, m, op), "tags"@) == member(op, "tags"@),
{
    reveal_strlit("path");
    reveal_strlit("method");
    reveal_strlit("summary");
    reveal_strlit("tags");
    reveal_strlit("deprecated");
    reveal_strlit("x-wip");
    reveal_strlit("x-paid");
    reveal_strlit("x-legacy");
    reveal_strlit("auth_required");
    assert("path"@[0] != "tags"@[0]);
}

proof fn lemma_path_tags(
    path: Seq<char>,
    item: JsonView,
    tag: Seq<char>,
    search: Option<Seq<char>>,
    n: nat,
)
    requires
        n <= 7,
    ensures
        path_endpoints(path, item, Some(tag), search, n) == path_endpoints(
            path,
            item,
            None,
            search,
            n,
        ).filter(|listed: JsonView| is_tagged(listed, tag)),
    decreases n,
{
    reveal(Seq::filter);
    if n > 0 {
        let m = n - 1;
        let all = path_endpoints(path, item, None, search, n);
        let before = path_endpoints(path, item, None, search, (n - 1) as nat);
        lemma_path_tags(path, item, tag, search, (n - 1) as nat);
        if let Some(op) = member(item, methods()[m].0) {
            let listed = entry(path, m, op);
            lemma_entry_tags(path, m, op);
            assert(is_tagged(listed, tag) == is_tagged(op, tag));
            if is_selected(path, op, None, search) {
                assert(all.drop_last() =~= before);
                assert(all.last() == listed);
            }
        }
    }
}

proof fn lemma_tags(
    paths: Map<Seq<char>, JsonView>,
    names: Seq<Seq<char>>,
    tag: Seq<char>,
    search: Option<Seq<char>>,
)
    ensures
        endpoints(paths, names, Some(tag), search) == endpoints(paths, names, None, search).filter(
            |listed: JsonView| is_tagged(listed, tag),
        ),
    decreases names.len(),
{
    reveal(Seq::filter);
    if names.len() > 0 {
        let fewer = names.drop_last();
        let name = names.last();
        lemma_tags(paths, fewer, tag, search);
        lemma_path_tags(name, paths[name], tag, search, 7);
        Seq::filter_distributes_over_add(
            endpoints(paths, fewer, None, search),
            path_endpoints(name, paths[name], None, search, 7),
            |listed: JsonView| is_tagged(listed, tag),
        );
    }
}

/// With a tag exactly those operations are listed that show the tag, in the order in which
/// they are listed without it.
pub proof fn a_tag_is_a_filter(doc: JsonView, tag: Seq<char>, search: Option<Seq<char>>)
    ensures
        listing(doc, Some(tag), search) == listing(doc, None, search).filter(
            |listed: JsonView| is_tagged(listed, tag),
        ),
{
    reveal(Seq::filter);
    if let Some(JsonView::Object(paths)) = member(doc, "paths"@) {
        lemma_tags(paths, in_order(paths.dom()), tag, search);
    }
}

/// An ASCII text without a space has none in lower case.
pub proof fn an_ascii_word_stays_a_word(search: Seq<char>)
    requires
        is_ascii_chars(search),
        !search.contains(' '),
    ensures
        !lowered(search).contains(' '),
{
    lowered_ascii(search);
    assert forall|i: int| 0 <= i < search.len() implies ascii_small(#[trigger] search[i]) != ' ' by {
        assert(search.contains(search[i]));
    }
    if lowered(search).contains(' ') {
        let i = choose|i: int| 0 <= i < lowered(search).len() && lowered(search)[i] == ' ';
        assert(lowered(search)[i] == ascii_small(search[i]));
    }
}

/// What is found of the first `n` methods.
proof fn lemma_operations(
    doc: JsonView,
    item: Map<Seq<char>, JsonView>,
    method: Option<Seq<char>>,
    n: nat,
)
    requires
        n <= 7,
    ensures
        forall|m: int|
            0 <= m < n ==> operations(doc, item, method, n).dom().contains(
                #[trigger] methods()[m].1,
            ) == (is_meant(method, methods()[m].0) && item.dom().contains(methods()[m].0)),
        forall|m: int|
            0 <= m < n && is_meant(method, methods()[m].0) && item.dom().contains(methods()[m].0)
                ==> operations(doc, item, method, n)[#[trigger] methods()[m].1] == resolved(
                doc,
                item[methods()[m].0],
                6,
                Seq::empty(),
            ),
        forall|shown: Seq<char>| #[trigger]
            operations(doc, item, method, n).dom().contains(shown) ==> exists|m: int|
                0 <= m < n && #[trigger] methods()[m].1 == shown,
    decreases n,
{
    if n > 0 {
        let before = operations(doc, item, method, (n - 1) as nat);
        let found = operations(doc, item, method, n);
        let last = n - 1;
        lemma_operations(doc, item, method, (n - 1) as nat);
        lemma_methods();
        assert forall|m: int| 0 <= m < last implies #[trigger] methods()[m].1 != methods()[last].1 by {
            assert(text_before(methods()[m].1, methods()[last].1));
            text_before_irreflexive(methods()[m].1);
        }
        assert(!before.dom().contains(methods()[last].1)) by {
            if before.dom().contains(methods()[last].1) {
                let m = choose|m: int|
                    0 <= m < n - 1 && #[trigger] methods()[m].1 == methods()[last].1;
                assert(methods()[m].1 != methods()[last].1);
            }
        }
        assert forall|shown: Seq<char>| #[trigger]
            found.dom().contains(shown) implies exists|m: int|
            0 <= m < n && #[trigger] methods()[m].1 == shown by {
            if before.dom().contains(shown) {
                let m = choose|m: int| 0 <= m < n - 1 && #[trigger] methods()[m].1 == shown;
                assert(methods()[m].1 == shown);
            } else {
                assert(methods()[last].1 == shown);
            }
        }
    }
}

/// The operations in the description of a path.
pub open spec fn described(said: JsonView) -> JsonView {
    or_else(member(said, "operations"@), JsonView::Null)
}

/// A path is described where the document has an operation on it that is meant, and only
/// there.
pub proof fn what_exists_is_described(doc: JsonView, path: Seq<char>, method: Option<Seq<char>>)
    ensures
        description(doc, path, method) is Some <==> exists|m: int, op: JsonView| #[trigger]
            has_operation(doc, path, m, op) && is_meant(method, methods()[m].0),
{
    if let Some(item) = path_item(doc, path) {
        let found = operations(doc, item, method, 7);
        lemma_operations(doc, item, method, 7);
        if description(doc, path, method) is Some {
            let shown = choose|shown: Seq<char>| found.dom().contains(shown);
            assert(found.dom().contains(shown)) by {
                assert(!(found.dom() =~= Set::<Seq<char>>::empty()));
            }
            let m = choose|m: int| 0 <= m < 7 && #[trigger] methods()[m].1 == shown;
            assert(has_operation(doc, path, m, item[methods()[m].0]));
        }
        if exists|m: int, op: JsonView| #[trigger]
            has_operation(doc, path, m, op) && is_meant(method, methods()[m].0) {
            let (m, op) = choose|m: int, op: JsonView| #[trigger]
                has_operation(doc, path, m, op) && is_meant(method, methods()[m].0);
            assert(found.dom().contains(methods()[m].1));
        }
    }
}

/// A description has every operation that is meant, with its references resolved.
pub proof fn a_description_is_complete(
    doc: JsonView,
    path: Seq<char>,
    method: Option<Seq<char>>,
    m: int,
    op: JsonView,
)
    requires
        has_operation(doc, path, m, op),
        is_meant(method, methods()[m].0),
    ensures
        description(doc, path, method) matches Some(said) && member(
            described(said),
            methods()[m].1,
        ) == Some(resolved(doc, op, 6, Seq::empty())),
{
    reveal_strlit("path");
    reveal_strlit("operations");
    let item = path_item(doc, path)->Some_0;
    lemma_operations(doc, item, method, 7);
    assert(operations(doc, item, method, 7).dom().contains(methods()[m].1));
}

/// A description has no operation besides those that are meant.
pub proof fn a_description_is_sound(
    doc: JsonView,
    path: Seq<char>,
    method: Option<Seq<char>>,
    shown: Seq<char>,
)
    requires
        description(doc, path, method) matches Some(said) && member(described(said), shown) is Some,
    ensures
        exists|m: int, op: JsonView| #[trigger]
            has_operation(doc, path, m, op) && is_meant(method, methods()[m].0) && methods()[m].1
                == shown,
{
    reveal_strlit("path");
    reveal_strlit("operations");
    let item = path_item(doc, path)->Some_0;
    lemma_operations(doc, item, method, 7);
    assert(operations(doc, item, method, 7).dom().contains(shown));
    let m = choose|m: int| 0 <= m < 7 && #[trigger] methods()[m].1 == shown;
    assert(has_operation(doc, path, m, item[methods()[m].0]));
}

/// Every operation that is listed can be described, by the path and the method that the
/// listing shows.
pub proof fn what_is_listed_can_be_described(
    doc: JsonView,
    tag: Option<Seq<char>>,
    search: Option<Seq<char>>,
    i: int,
)
    requires
        is_finite(doc),
        0 <= i < listing(doc, tag, search).len(),
    ensures
        ({
            let listed = listing(doc, tag, search)[i];
            description(doc, shown_path(listed), Some(shown_method(listed))) matches Some(said)
                && member(described(said), shown_method(listed)) is Some
        }),
{
    listing_is_sound(doc, tag, search, i);
    let (path, m, op) = choose|path: Seq<char>, m: int, op: JsonView| #[trigger]
        has_operation(doc, path, m, op) && is_selected(path, op, tag, search) && listing(
            doc,
            tag,
            search,
        )[i] == entry(path, m, op);
    lemma_entry(path, m, op);
    lemma_methods();
    assert(same_but_for_ascii_case(methods()[m].1, methods()[m].0));
    a_description_is_complete(doc, path, Some(methods()[m].1), m, op);
}

proof fn lemma_method_case(
    doc: JsonView,
    item: Map<Seq<char>, JsonView>,
    a: Seq<char>,
    b: Seq<char>,
    n: nat,
)
    requires
        same_but_for_ascii_case(a, b),
    ensures
        operations(doc, item, Some(a), n) == operations(doc, item, Some(b), n),
    decreases n,
{
    if n > 0 {
        lemma_method_case(doc, item, a, b, (n - 1) as nat);
        let name = methods()[n - 1].0;
        if same_but_for_ascii_case(a, name) {
            assert forall|i: int| 0 <= i < b.len() implies ascii_small(#[trigger] b[i])
                == ascii_small(name[i]) by {
                assert(ascii_small(a[i]) == ascii_small(b[i]));
            }
        }
        if same_but_for_ascii_case(b, name) {
            assert forall|i: int| 0 <= i < a.len() implies ascii_small(#[trigger] a[i])
                == ascii_small(name[i]) by {
                assert(ascii_small(b[i]) == ascii_small(name[i]));
            }
        }
    }
}

/// A description does not depend on the case in which the method is asked for.
pub proof fn method_case_is_ignored(doc: JsonView, path: Seq<char>, a: Seq<char>, b: Seq<char>)
    requires
        same_but_for_ascii_case(a, b),
    ensures
        description(doc, path, Some(a)) == description(doc, path, Some(b)),
{
    if let Some(item) = path_item(doc, path) {
        lemma_method_case(doc, item, a, b, 7);
    }
}

/// Whether a value has no references in it.
pub open spec fn is_free_of_references(value: JsonView) -> bool
    decreases value,
{
    match value {
        JsonView::Array(items) => forall|i: int|
            0 <= i < items.len() ==> is_free_of_references(#[trigger] items[i]),
        JsonView::Object(members) => {
            &&& text_member(value, "$ref"@) is None
            &&& members.dom().finite()
            &&& forall|name: Seq<char>| #[trigger]
                members.dom().contains(name) ==> is_free_of_references(members[name])
        },
        _ => true,
    }
}

/// A value without references stays as it is.
pub proof fn nothing_to_resolve(
    doc: JsonView,
    value: JsonView,
    depth: nat,
    open: Seq<Seq<char>>,
)
    requires
        is_free_of_references(value),
    ensures
        resolved(doc, value, depth, open) == value,
    decreases value,
{
    match value {
        JsonView::Array(items) => {
            let done = resolved(doc, value, depth, open)->Array_0;
            assert forall|i: int| 0 <= i < items.len() implies #[trigger] done[i] == items[i] by {
                nothing_to_resolve(doc, items[i], depth, open);
            }
            assert(done =~= items);
        },
        JsonView::Object(members) => {
            let done = resolved(doc, value, depth, open)->Object_0;
            assert forall|name: Seq<char>| #[trigger] members.dom().contains(name) implies done[name]
                == members[name] by {
                nothing_to_resolve(doc, members[name], depth, open);
            }
            assert(done =~= members);
        },
        _ => {},
    }
}

/// No reference is followed beyond the depth: with none left, a value stays as it is.
pub proof fn the_depth_is_a_limit(doc: JsonView, value: JsonView, open: Seq<Seq<char>>)
    requires
        is_finite(value),
    ensures
        resolved(doc, value, 0, open) == value,
    decreases value,
{
    match value {
        JsonView::Array(items) => {
            let done = resolved(doc, value, 0, open)->Array_0;
            assert forall|i: int| 0 <= i < items.len() implies #[trigger] done[i] == items[i] by {
                the_depth_is_a_limit(doc, items[i], open);
            }
            assert(done =~= items);
        },
        JsonView::Object(members) => {
            if text_member(value, "$ref"@) is None {
                let done = resolved(doc, value, 0, open)->Object_0;
                assert forall|name: Seq<char>| #[trigger]
                    members.dom().contains(name) implies done[name] == members[name] by {
                    the_depth_is_a_limit(doc, members[name], open);
                }
                assert(done =~= members);
            }
        },
        _ => {},
    }
}

/// A reference inside its own target stays as it is, so that a chain of references ends.
pub proof fn a_cycle_is_left(
    doc: JsonView,
    value: JsonView,
    depth: nat,
    open: Seq<Seq<char>>,
    reference: Seq<char>,
)
    requires
        text_member(value, "$ref"@) == Some(reference),
        open.contains(reference),
    ensures
        resolved(doc, value, depth, open) == value,
{
}

/// A reference is replaced by what it leads to, where that has no further references.
pub proof fn a_reference_is_inlined(
    doc: JsonView,
    value: JsonView,
    depth: nat,
    open: Seq<Seq<char>>,
    reference: Seq<char>,
    target: JsonView,
)
    requires
        text_member(value, "$ref"@) == Some(reference),
        pointed(doc, reference) == Some(target),
        is_free_of_references(target),
        depth > 0,
        !open.contains(reference),
    ensures
        resolved(doc, value, depth, open) == target,
{
    nothing_to_resolve(doc, target, (depth - 1) as nat, open.push(reference));
}

/// A name as a JSON Pointer writes it: `~` is `~0`, and `/` is `~1`.
pub open spec fn escaped(name: Seq<char>) -> Seq<char>
    decreases name.len(),
{
    if name.len() == 0 {
        name
    } else {
        escaped_character(name[0]) + escaped(name.drop_first())
    }
}

/// A character as a JSON Pointer writes it.
pub open spec fn escaped_character(c: char) -> Seq<char> {
    if c == '~' {
        seq!['~', '0']
    } else if c == '/' {
        seq!['~', '1']
    } else {
        seq![c]
    }
}

/// A name in which only `~` is escaped.
spec fn half_escaped(name: Seq<char>) -> Seq<char>
    decreases name.len(),
{
    if name.len() == 0 {
        name
    } else if name[0] == '~' {
        seq!['~', '0'] + half_escaped(name.drop_first())
    } else {
        seq![name[0]] + half_escaped(name.drop_first())
    }
}

proof fn lemma_first_escapes(name: Seq<char>)
    ensures
        unescaped(escaped(name), '1', '/') == half_escaped(name),
        !escaped(name).contains('/'),
    decreases name.len(),
{
    if name.len() > 0 {
        let rest = name.drop_first();
        let text = escaped(name);
        lemma_first_escapes(rest);
        let first = escaped_character(name[0]);
        assert forall|i: int| 0 <= i < text.len() implies text[i] != '/' by {
            if i >= first.len() {
                assert(text[i] == escaped(rest)[i - first.len()]);
            }
        }
        if name[0] == '~' {
            let tail = text.skip(1);
            assert(tail.skip(1) =~= escaped(rest));
            assert(unescaped(tail, '1', '/') == seq!['0'] + unescaped(escaped(rest), '1', '/'));
            assert(seq!['~'] + (seq!['0'] + half_escaped(rest)) =~= half_escaped(name));
        } else if name[0] == '/' {
            assert(text.skip(2) =~= escaped(rest));
        } else {
            assert(text.skip(1) =~= escaped(rest));
        }
    }
}

proof fn lemma_second_escapes(name: Seq<char>)
    ensures
        unescaped(half_escaped(name), '0', '~') == name,
    decreases name.len(),
{
    if name.len() > 0 {
        let rest = name.drop_first();
        let text = half_escaped(name);
        lemma_second_escapes(rest);
        if name[0] == '~' {
            assert(text.skip(2) =~= half_escaped(rest));
        } else {
            assert(text.skip(1) =~= half_escaped(rest));
        }
        assert(seq![name[0]] + rest =~= name);
    }
}

/// Whatever stands in a document can be referred to: a reference that is made of the names
/// and the places on the way to it leads there, whatever characters are in the names.
pub proof fn everything_can_be_referred_to(doc: JsonView, names: Seq<Seq<char>>)
    requires
        names.len() > 0,
    ensures
        pointed(
            doc,
            "#/"@ + joined(names.map_values(|name: Seq<char>| escaped(name)), seq!['/']),
        ) == followed(doc, names),
{
    reveal_strlit("#/");
    let parts = names.map_values(|name: Seq<char>| escaped(name));
    let rest = joined(parts, seq!['/']);
    let reference = "#/"@ + rest;
    assert forall|i: int| 0 <= i < parts.len() implies !(#[trigger] parts[i]).contains('/') by {
        lemma_first_escapes(names[i]);
    }
    pieces_of_joined(parts, '/');
    assert("#/"@.is_prefix_of(reference));
    assert(reference.skip(2) =~= rest);
    assert(pointer_names(rest) =~= names) by {
        assert forall|i: int| 0 <= i < names.len() implies pointer_names(rest)[i] == names[i] by {
            assert(pieces(rest, '/')[i] == escaped(names[i]));
            lemma_first_escapes(names[i]);
            lemma_second_escapes(names[i]);
        }
    }
}

/// A number has no zero before its other digits.
proof fn lemma_no_leading_zero(n: nat)
    ensures
        is_index(decimal_nat(n)),
        n > 0 ==> decimal_nat(n)[0] != '0',
    decreases n,
{
    decimal_reads_back(n);
    if n >= 10 {
        lemma_no_leading_zero(n / 10);
        decimal_reads_back(n / 10);
        assert(decimal_nat(n)[0] == decimal_nat(n / 10)[0]);
    }
}

/// Every item of an array is led to by its place, in decimal notation.
pub proof fn every_item_can_be_referred_to(items: Seq<JsonView>, i: int)
    requires
        0 <= i < items.len(),
    ensures
        stepped(JsonView::Array(items), decimal(i)) == Some(items[i]),
{
    lemma_no_leading_zero(i as nat);
    decimal_reads_back(i as nat);
}

/// Whether the references in a value all lead somewhere, and do so through at most `depth`
/// of them inside one another. A reference that leads back to itself has no such depth.
pub open spec fn expands_within(doc: JsonView, value: JsonView, depth: nat) -> bool
    decreases depth, value,
{
    match value {
        JsonView::Array(items) => forall|i: int|
            0 <= i < items.len() ==> expands_within(doc, #[trigger] items[i], depth),
        JsonView::Object(members) => match text_member(value, "$ref"@) {
            Some(reference) => depth > 0 && match pointed(doc, reference) {
                Some(target) => expands_within(doc, target, (depth - 1) as nat),
                None => false,
            },
            None => members.dom().finite() && forall|name: Seq<char>| #[trigger]
                members.dom().contains(name) ==> expands_within(doc, members[name], depth),
        },
        _ => true,
    }
}

/// A value with each reference replaced as a whole by its own expanded target, and
/// everything else as it is.
pub open spec fn expanded(doc: JsonView, value: JsonView, depth: nat) -> JsonView
    decreases depth, value,
{
    match value {
        JsonView::Array(items) => JsonView::Array(
            Seq::new(
                items.len(),
                |i: int|
                    if 0 <= i < items.len() {
                        expanded(doc, items[i], depth)
                    } else {
                        JsonView::Null
                    },
            ),
        ),
        JsonView::Object(members) => match text_member(value, "$ref"@) {
            Some(reference) => match pointed(doc, reference) {
                Some(target) => if depth > 0 {
                    expanded(doc, target, (depth - 1) as nat)
                } else {
                    value
                },
                None => value,
            },
            None => JsonView::Object(
                Map::new(
                    |name: Seq<char>| members.dom().contains(name),
                    |name: Seq<char>|
                        if members.dom().contains(name) && members.dom().finite() {
                            expanded(doc, members[name], depth)
                        } else {
                            JsonView::Null
                        },
                ),
            ),
        },
        other => other,
    }
}

/// Whether no reference comes about by resolving: no object gets a text for a member called
/// `$ref` that was none before.
pub open spec fn makes_no_reference(doc: JsonView, value: JsonView, depth: nat) -> bool
    decreases depth, value,
{
    match value {
        JsonView::Array(items) => forall|i: int|
            0 <= i < items.len() ==> makes_no_reference(doc, #[trigger] items[i], depth),
        JsonView::Object(members) => match text_member(value, "$ref"@) {
            Some(reference) => match pointed(doc, reference) {
                Some(target) => depth > 0 ==> makes_no_reference(doc, target, (depth - 1) as nat),
                None => true,
            },
            None => members.dom().finite() && (members.dom().contains("$ref"@) ==> !(expanded(
                doc,
                members["$ref"@],
                depth,
            ) is Str)) && forall|name: Seq<char>| #[trigger]
                members.dom().contains(name) ==> makes_no_reference(doc, members[name], depth),
        },
        _ => true,
    }
}

/// What expands within a depth expands within a larger one.
proof fn lemma_expands_within_more(doc: JsonView, value: JsonView, depth: nat, more: nat)
    requires
        expands_within(doc, value, depth),
        depth <= more,
    ensures
        expands_within(doc, value, more),
    decreases depth, value,
{
    match value {
        JsonView::Array(items) => {
            assert forall|i: int| 0 <= i < items.len() implies expands_within(
                doc,
                #[trigger] items[i],
                more,
            ) by {
                lemma_expands_within_more(doc, items[i], depth, more);
            }
        },
        JsonView::Object(members) => match text_member(value, "$ref"@) {
            Some(reference) => {
                let target = pointed(doc, reference)->Some_0;
                lemma_expands_within_more(doc, target, (depth - 1) as nat, (more - 1) as nat);
            },
            None => {
                assert forall|name: Seq<char>| #[trigger]
                    members.dom().contains(name) implies expands_within(
                    doc,
                    members[name],
                    more,
                ) by {
                    lemma_expands_within_more(doc, members[name], depth, more);
                }
            },
        },
        _ => {},
    }
}

/// The least depth within which a value expands.
proof fn lemma_least_depth(doc: JsonView, value: JsonView, depth: nat) -> (least: nat)
    requires
        expands_within(doc, value, depth),
    ensures
        least <= depth,
        expands_within(doc, value, least),
        least > 0 ==> !expands_within(doc, value, (least - 1) as nat),
    decreases depth,
{
    if depth > 0 && expands_within(doc, value, (depth - 1) as nat) {
        lemma_least_depth(doc, value, (depth - 1) as nat)
    } else {
        depth
    }
}

/// Whether a reference leads to nothing that expands within less than `depth`.
spec fn is_deep(doc: JsonView, reference: Seq<char>, depth: nat) -> bool {
    pointed(doc, reference) matches Some(target) && (depth > 0 ==> !expands_within(
        doc,
        target,
        (depth - 1) as nat,
    ))
}

/// Resolving is expanding where the references that are open lead deeper than those in the
/// value.
proof fn lemma_resolved_is_expanded(
    doc: JsonView,
    value: JsonView,
    least: nat,
    depth: nat,
    open: Seq<Seq<char>>,
)
    requires
        expands_within(doc, value, least),
        least <= depth,
        forall|i: int| 0 <= i < open.len() ==> is_deep(doc, #[trigger] open[i], least),
    ensures
        resolved(doc, value, depth, open) == expanded(doc, value, depth),
    decreases depth, value,
{
    match value {
        JsonView::Array(items) => {
            let done = resolved(doc, value, depth, open)->Array_0;
            let told = expanded(doc, value, depth)->Array_0;
            assert forall|i: int| 0 <= i < items.len() implies #[trigger] done[i] == told[i] by {
                assert(expands_within(doc, items[i], least));
                lemma_resolved_is_expanded(doc, items[i], least, depth, open);
            }
            assert(done =~= told);
        },
        JsonView::Object(members) => match text_member(value, "$ref"@) {
            Some(reference) => {
                let target = pointed(doc, reference)->Some_0;
                if open.contains(reference) {
                    let i = choose|i: int| 0 <= i < open.len() && open[i] == reference;
                    assert(is_deep(doc, open[i], least));
                }
                let fewer = lemma_least_depth(doc, target, (least - 1) as nat);
                let more = open.push(reference);
                assert forall|i: int| 0 <= i < more.len() implies is_deep(
                    doc,
                    #[trigger] more[i],
                    fewer,
                ) by {
                    if i < open.len() {
                        assert(is_deep(doc, open[i], least));
                        let other = pointed(doc, open[i])->Some_0;
                        if fewer > 0 && expands_within(doc, other, (fewer - 1) as nat) {
                            lemma_expands_within_more(
                                doc,
                                other,
                                (fewer - 1) as nat,
                                (least - 1) as nat,
                            );
                        }
                    }
                }
                lemma_resolved_is_expanded(doc, target, fewer, (depth - 1) as nat, more);
            },
            None => {
                let done = resolved(doc, value, depth, open)->Object_0;
                let told = expanded(doc, value, depth)->Object_0;
                assert(done.dom() =~= members.dom());
                assert(told.dom() =~= members.dom());
                assert forall|name: Seq<char>| #[trigger]
                    done.dom().contains(name) implies done[name] == told[name] by {
                    assert(members.dom().contains(name));
                    lemma_resolved_is_expanded(doc, members[name], least, depth, open);
                }
                assert(done =~= told);
            },
        },
        _ => {},
    }
}

/// Nothing is left to be resolved in what was expanded.
proof fn lemma_expanded_is_free(doc: JsonView, value: JsonView, depth: nat)
    requires
        expands_within(doc, value, depth),
        makes_no_reference(doc, value, depth),
    ensures
        is_free_of_references(expanded(doc, value, depth)),
    decreases depth, value,
{
    match value {
        JsonView::Array(items) => {
            let done = expanded(doc, value, depth)->Array_0;
            assert forall|i: int| 0 <= i < done.len() implies is_free_of_references(
                #[trigger] done[i],
            ) by {
                assert(expands_within(doc, items[i], depth));
                assert(makes_no_reference(doc, items[i], depth));
                lemma_expanded_is_free(doc, items[i], depth);
            }
            assert(is_free_of_references(JsonView::Array(done)));
        },
        JsonView::Object(members) => match text_member(value, "$ref"@) {
            Some(reference) => {
                let target = pointed(doc, reference)->Some_0;
                lemma_expanded_is_free(doc, target, (depth - 1) as nat);
            },
            None => {
                let done = expanded(doc, value, depth)->Object_0;
                assert(done.dom() =~= members.dom());
                assert forall|name: Seq<char>| #[trigger]
                    done.dom().contains(name) implies is_free_of_references(done[name]) by {
                    assert(members.dom().contains(name));
                    lemma_expanded_is_free(doc, members[name], depth);
                }
                assert(is_free_of_references(JsonView::Object(done)));
            },
        },
        _ => {},
    }
}

/// References that lead somewhere, and through no more of them than the depth allows, are
/// all resolved: each is replaced as a whole by its expanded target, and nothing else
/// changes.
pub proof fn references_are_fully_resolved(doc: JsonView, value: JsonView, depth: nat)
    requires
        expands_within(doc, value, depth),
    ensures
        resolved(doc, value, depth, Seq::empty()) == expanded(doc, value, depth),
{
    lemma_resolved_is_expanded(doc, value, depth, depth, Seq::empty());
}

/// After such references were resolved none is left, and resolving again changes nothing,
/// unless a text that a reference leads to becomes itself a member called `$ref`.
pub proof fn resolving_leaves_no_reference(
    doc: JsonView,
    value: JsonView,
    depth: nat,
    again: nat,
    open: Seq<Seq<char>>,
)
    requires
        expands_within(doc, value, depth),
        makes_no_reference(doc, value, depth),
    ensures
        is_free_of_references(resolved(doc, value, depth, Seq::empty())),
        resolved(doc, resolved(doc, value, depth, Seq::empty()), again, open) == resolved(
            doc,
            value,
            depth,
            Seq::empty(),
        ),
{
    references_are_fully_resolved(doc, value, depth);
    lemma_expanded_is_free(doc, value, depth);
    nothing_to_resolve(doc, resolved(doc, value, depth, Seq::empty()), again, open);
}

/// The place of a method, by its two names.
proof fn lemma_place_of_names(name: Seq<char>, shown: Seq<char>) -> (m: int)
    requires
        (name == "get"@ && shown == "GET"@) || (name == "post"@ && shown == "POST"@) || (name
            == "put"@ && shown == "PUT"@) || (name == "patch"@ && shown == "PATCH"@) || (name
            == "delete"@ && shown == "DELETE"@) || (name == "head"@ && shown == "HEAD"@) || (name
            == "options"@ && shown == "OPTIONS"@),
    ensures
        0 <= m < 7,
        methods()[m] == (name, shown),
        place_of_method(shown) == m,
{
    let m: int = if name == "delete"@ && shown == "DELETE"@ {
        0
    } else if name == "get"@ && shown == "GET"@ {
        1
    } else if name == "head"@ && shown == "HEAD"@ {
        2
    } else if name == "options"@ && shown == "OPTIONS"@ {
        3
    } else if name == "patch"@ && shown == "PATCH"@ {
        4
    } else if name == "post"@ && shown == "POST"@ {
        5
    } else {
        6
    };
    assert(methods()[m] == (name, shown));
    lemma_place_of_method(m);
    m
}

/// Each of the methods get, post, put, patch, delete, head and options that a path has is
/// described, under its name in capitals and with its references resolved six deep, where
/// no method or this one is asked for; and it is listed.
pub proof fn every_method_is_served(
    doc: JsonView,
    paths: Map<Seq<char>, JsonView>,
    path: Seq<char>,
    item: Map<Seq<char>, JsonView>,
    name: Seq<char>,
    shown: Seq<char>,
    method: Option<Seq<char>>,
)
    requires
        is_finite(doc),
        member(doc, "paths"@) == Some(JsonView::Object(paths)),
        paths.dom().contains(path),
        paths[path] == JsonView::Object(item),
        item.dom().contains(name),
        (name == "get"@ && shown == "GET"@) || (name == "post"@ && shown == "POST"@) || (name
            == "put"@ && shown == "PUT"@) || (name == "patch"@ && shown == "PATCH"@) || (name
            == "delete"@ && shown == "DELETE"@) || (name == "head"@ && shown == "HEAD"@) || (name
            == "options"@ && shown == "OPTIONS"@),
        method is None || method == Some(name) || method == Some(shown),
    ensures
        ({
            &&& description(doc, path, method) matches Some(JsonView::Object(said))
            &&& said.dom() =~= set!["path"@, "operations"@]
            &&& said["path"@] == JsonView::Str(path)
            &&& said["operations"@] matches JsonView::Object(found)
            &&& found.dom().contains(shown)
            &&& found[shown] == resolved(doc, item[name], 6, Seq::empty())
        }),
        exists|i: int|
            0 <= i < listing(doc, None, None).len() && member(
                #[trigger] listing(doc, None, None)[i],
                "method"@,
            ) == Some(JsonView::Str(shown)) && member(listing(doc, None, None)[i], "path"@) == Some(
                JsonView::Str(path),
            ),
{
    let m = lemma_place_of_names(name, shown);
    let op = item[name];
    lemma_methods();
    assert(has_operation(doc, path, m, op));
    assert(same_but_for_ascii_case(methods()[m].1, methods()[m].0));
    assert(is_meant(method, methods()[m].0));
    a_description_is_complete(doc, path, method, m, op);
    reveal_strlit("path");
    reveal_strlit("operations");
    assert("path"@.len() != "operations"@.len());
    let said = description(doc, path, method)->Some_0->Object_0;
    assert(said.dom() =~= set!["path"@, "operations"@]);
    assert(path_item(doc, path) == Some(item));
    assert(said["path"@] == JsonView::Str(path));
    assert(said["operations"@] is Object);
    everything_is_listed(doc, path, m, op);
    lemma_entry(path, m, op);
    let list = listing(doc, None, None);
    let i = choose|i: int| 0 <= i < list.len() && list[i] == entry(path, m, op);
    lemma_entry_members(path, m, op);
    assert(member(list[i], "method"@) == Some(JsonView::Str(shown)));
}

/// The members of a listed operation have different names.
proof fn lemma_member_names()
    ensures
        "path"@ != "method"@,
        "path"@ != "summary"@,
        "path"@ != "tags"@,
        "path"@ != "deprecated"@,
        "path"@ != "x-wip"@,
        "path"@ != "x-paid"@,
        "path"@ != "x-legacy"@,
        "path"@ != "auth_required"@,
        "method"@ != "summary"@,
        "method"@ != "tags"@,
        "method"@ != "deprecated"@,
        "method"@ != "x-wip"@,
        "method"@ != "x-paid"@,
        "method"@ != "x-legacy"@,
        "method"@ != "auth_required"@,
        "summary"@ != "tags"@,
        "summary"@ != "deprecated"@,
        "summary"@ != "x-wip"@,
        "summary"@ != "x-paid"@,
        "summary"@ != "x-legacy"@,
        "summary"@ != "auth_required"@,
        "tags"@ != "deprecated"@,
        "tags"@ != "x-wip"@,
        "tags"@ != "x-paid"@,
        "tags"@ != "x-legacy"@,
        "tags"@ != "auth_required"@,
        "deprecated"@ != "x-wip"@,
        "deprecated"@ != "x-paid"@,
        "deprecated"@ != "x-legacy"@,
        "deprecated"@ != "auth_required"@,
        "x-wip"@ != "x-paid"@,
        "x-wip"@ != "x-legacy"@,
        "x-wip"@ != "auth_required"@,
        "x-paid"@ != "x-legacy"@,
        "x-paid"@ != "auth_required"@,
        "x-legacy"@ != "auth_required"@,
{
    reveal_strlit("path");
    reveal_strlit("method");
    reveal_strlit("summary");
    reveal_strlit("tags");
    reveal_strlit("deprecated");
    reveal_strlit("x-wip");
    reveal_strlit("x-paid");
    reveal_strlit("x-legacy");
    reveal_strlit("auth_required");
    assert("path"@[0] != "tags"@[0]);
    assert("method"@[0] != "x-paid"@[0]);
    assert("path"@.len() == 4);
    assert("method"@.len() == 6);
    assert("summary"@.len() == 7);
    assert("tags"@.len() == 4);
    assert("deprecated"@.len() == 10);
    assert("x-wip"@.len() == 5);
    assert("x-paid"@.len() == 6);
    assert("x-legacy"@.len() == 8);
    assert("auth_required"@.len() == 13);
}

/// What a listed operation has for members.
proof fn lemma_entry_members(path: Seq<char>, m: int, op: JsonView)
    ensures
        member(entry(path, m, op), "path"@) == Some(JsonView::Str(path)),
        member(entry(path, m, op), "method"@) == Some(JsonView::Str(methods()[m].1)),
        member(entry(path, m, op), "summary"@) == member(op, "summary"@),
        member(entry(path, m, op), "tags"@) == member(op, "tags"@),
        member(entry(path, m, op), "deprecated"@) == (if member(op, "deprecated"@) == Some(
            JsonView::Bool(true),
        ) {
            Some(JsonView::Bool(true))
        } else {
            None
        }),
        member(entry(path, m, op), "x-wip"@) == (if member(op, "x-wip"@) == Some(
            JsonView::Bool(true),
        ) {
            Some(JsonView::Bool(true))
        } else {
            None
        }),
        member(entry(path, m, op), "x-paid"@) == (if member(op, "x-paid"@) == Some(
            JsonView::Bool(true),
        ) {
            Some(JsonView::Bool(true))
        } else {
            None
        }),
        member(entry(path, m, op), "x-legacy"@) == (if member(op, "x-legacy"@) == Some(
            JsonView::Bool(true),
        ) {
            Some(JsonView::Bool(true))
        } else {
            None
        }),
        member(entry(path, m, op), "auth_required"@) == Some(
            JsonView::Bool(
                !(member(op, "security"@) matches Some(JsonView::Array(needs)) && needs.len() == 0),
            ),
        ),
        entry(path, m, op)->Object_0.dom().subset_of(
            set![
                "path"@, "method"@, "summary"@, "tags"@, "deprecated"@, "x-wip"@, "x-paid"@,
                "x-legacy"@, "auth_required"@,
            ],
        ),
{
    lemma_member_names();
    let named = without_members().insert("method"@, JsonView::Str(methods()[m].1)).insert(
        "path"@,
        JsonView::Str(path),
    );
    let a = with_optional(named, "summary"@, member(op, "summary"@));
    let b = with_optional(a, "tags"@, member(op, "tags"@));
    let c = with_flag(b, op, "deprecated"@);
    let d = with_flag(c, op, "x-wip"@);
    let e = with_flag(d, op, "x-paid"@);
    let f = with_flag(e, op, "x-legacy"@);
    let all = f.insert("auth_required"@, JsonView::Bool(needs_session(op)));
    assert(entry(path, m, op) == JsonView::Object(all));
    assert(b.dom().subset_of(set!["path"@, "method"@, "summary"@, "tags"@]));
    assert(!b.dom().contains("deprecated"@));
    assert(!c.dom().contains("x-wip"@));
    assert(!d.dom().contains("x-paid"@));
    assert(!e.dom().contains("x-legacy"@));
}

/// The operation behind a listed one.
proof fn lemma_behind(
    doc: JsonView,
    tag: Option<Seq<char>>,
    search: Option<Seq<char>>,
    i: int,
) -> (r: (Seq<char>, int, JsonView))
    requires
        is_finite(doc),
        0 <= i < listing(doc, tag, search).len(),
    ensures
        has_operation(doc, r.0, r.1, r.2),
        is_selected(r.0, r.2, tag, search),
        listing(doc, tag, search)[i] == entry(r.0, r.1, r.2),
{
    listing_is_sound(doc, tag, search, i);
    choose|path: Seq<char>, m: int, op: JsonView| #[trigger]
        has_operation(doc, path, m, op) && is_selected(path, op, tag, search) && listing(
            doc,
            tag,
            search,
        )[i] == entry(path, m, op)
}

/// Every listed operation shows a path of the document, and one of the methods DELETE, GET,
/// HEAD, OPTIONS, PATCH, POST and PUT that the path has.
pub proof fn every_entry_is_an_operation(
    doc: JsonView,
    tag: Option<Seq<char>>,
    search: Option<Seq<char>>,
    i: int,
)
    requires
        is_finite(doc),
        0 <= i < listing(doc, tag, search).len(),
    ensures
        ({
            let listed = listing(doc, tag, search)[i];
            &&& member(doc, "paths"@) matches Some(JsonView::Object(paths))
            &&& member(listed, "path"@) matches Some(JsonView::Str(path))
            &&& paths.dom().contains(path)
            &&& paths[path] matches JsonView::Object(item)
            &&& member(listed, "method"@) matches Some(JsonView::Str(method))
            &&& {
                ||| method == "GET"@ && item.dom().contains("get"@)
                ||| method == "POST"@ && item.dom().contains("post"@)
                ||| method == "PUT"@ && item.dom().contains("put"@)
                ||| method == "PATCH"@ && item.dom().contains("patch"@)
                ||| method == "DELETE"@ && item.dom().contains("delete"@)
                ||| method == "HEAD"@ && item.dom().contains("head"@)
                ||| method == "OPTIONS"@ && item.dom().contains("options"@)
            }
        }),
{
    let (path, m, op) = lemma_behind(doc, tag, search, i);
    lemma_entry_members(path, m, op);
    assert(m == 0 || m == 1 || m == 2 || m == 3 || m == 4 || m == 5 || m == 6);
}

/// A listed operation shows the summary and the tags that the operation has in the document,
/// and each of the flags deprecated, x-wip, x-paid and x-legacy exactly where it is set
/// there; it needs no session exactly where the operation has an empty array for its
/// security; and it shows nothing else.
pub proof fn an_entry_tells_its_operation(
    doc: JsonView,
    tag: Option<Seq<char>>,
    search: Option<Seq<char>>,
    i: int,
    paths: Map<Seq<char>, JsonView>,
    path: Seq<char>,
    item: Map<Seq<char>, JsonView>,
    name: Seq<char>,
    shown: Seq<char>,
)
    requires
        is_finite(doc),
        0 <= i < listing(doc, tag, search).len(),
        member(listing(doc, tag, search)[i], "path"@) == Some(JsonView::Str(path)),
        member(listing(doc, tag, search)[i], "method"@) == Some(JsonView::Str(shown)),
        member(doc, "paths"@) == Some(JsonView::Object(paths)),
        paths.dom().contains(path),
        paths[path] == JsonView::Object(item),
        (name == "get"@ && shown == "GET"@) || (name == "post"@ && shown == "POST"@) || (name
            == "put"@ && shown == "PUT"@) || (name == "patch"@ && shown == "PATCH"@) || (name
            == "delete"@ && shown == "DELETE"@) || (name == "head"@ && shown == "HEAD"@) || (name
            == "options"@ && shown == "OPTIONS"@),
    ensures
        item.dom().contains(name),
        ({
            let listed = listing(doc, tag, search)[i];
            let op = item[name];
            &&& member(listed, "summary"@) == member(op, "summary"@)
            &&& member(listed, "tags"@) == member(op, "tags"@)
            &&& member(listed, "deprecated"@) is Some <==> member(op, "deprecated"@) == Some(
                JsonView::Bool(true),
            )
            &&& member(listed, "deprecated"@) matches Some(flag) ==> flag == JsonView::Bool(true)
            &&& member(listed, "x-wip"@) is Some <==> member(op, "x-wip"@) == Some(
                JsonView::Bool(true),
            )
            &&& member(listed, "x-wip"@) matches Some(flag) ==> flag == JsonView::Bool(true)
            &&& member(listed, "x-paid"@) is Some <==> member(op, "x-paid"@) == Some(
                JsonView::Bool(true),
            )
            &&& member(listed, "x-paid"@) matches Some(flag) ==> flag == JsonView::Bool(true)
            &&& member(listed, "x-legacy"@) is Some <==> member(op, "x-legacy"@) == Some(
                JsonView::Bool(true),
            )
            &&& member(listed, "x-legacy"@) matches Some(flag) ==> flag == JsonView::Bool(true)
            &&& member(listed, "auth_required"@) == Some(JsonView::Bool(false)) <==> member(
                op,
                "security"@,
            ) == Some(JsonView::Array(Seq::empty()))
            &&& member(listed, "auth_required"@) == Some(JsonView::Bool(true)) <==> member(
                op,
                "security"@,
            ) != Some(JsonView::Array(Seq::empty()))
            &&& listed matches JsonView::Object(members) && members.dom().subset_of(
                set![
                    "path"@, "method"@, "summary"@, "tags"@, "deprecated"@, "x-wip"@, "x-paid"@,
                    "x-legacy"@, "auth_required"@,
                ],
            )
        }),
{
    let m = lemma_place_of_names(name, shown);
    let (p, n, op) = lemma_behind(doc, tag, search, i);
    lemma_entry_members(p, n, op);
    lemma_place_of_method(n);
    assert(p == path && n == m);
    if let Some(JsonView::Array(needs)) = member(op, "security"@) {
        if needs.len() == 0 {
            assert(needs =~= Seq::empty());
        }
    }
}

/// An operation of the document is listed exactly where its tags have the tag that is asked
/// for, and where the text that is searched for occurs, in whatever case, in its path, its
/// summary, its description and its operation id with a space between each two.
pub proof fn an_operation_is_listed_where_it_matches(
    doc: JsonView,
    tag: Option<Seq<char>>,
    search: Option<Seq<char>>,
    paths: Map<Seq<char>, JsonView>,
    path: Seq<char>,
    item: Map<Seq<char>, JsonView>,
    name: Seq<char>,
    shown: Seq<char>,
)
    requires
        is_finite(doc),
        member(doc, "paths"@) == Some(JsonView::Object(paths)),
        paths.dom().contains(path),
        paths[path] == JsonView::Object(item),
        item.dom().contains(name),
        (name == "get"@ && shown == "GET"@) || (name == "post"@ && shown == "POST"@) || (name
            == "put"@ && shown == "PUT"@) || (name == "patch"@ && shown == "PATCH"@) || (name
            == "delete"@ && shown == "DELETE"@) || (name == "head"@ && shown == "HEAD"@) || (name
            == "options"@ && shown == "OPTIONS"@),
    ensures
        (exists|i: int|
            0 <= i < listing(doc, tag, search).len() && member(
                #[trigger] listing(doc, tag, search)[i],
                "path"@,
            ) == Some(JsonView::Str(path)) && member(listing(doc, tag, search)[i], "method"@)
                == Some(JsonView::Str(shown))) <==> ({
            let op = item[name];
            let summary = match member(op, "summary"@) {
                Some(JsonView::Str(text)) => text,
                _ => Seq::empty(),
            };
            let described = match member(op, "description"@) {
                Some(JsonView::Str(text)) => text,
                _ => Seq::empty(),
            };
            let id = match member(op, "operationId"@) {
                Some(JsonView::Str(text)) => text,
                _ => Seq::empty(),
            };
            &&& tag matches Some(tag) ==> (member(op, "tags"@) matches Some(JsonView::Array(tags))
                && tags.contains(JsonView::Str(tag)))
            &&& search matches Some(search) ==> occurs(
                lowered(search),
                lowered(
                    path + seq![' '] + summary + seq![' '] + described + seq![' '] + id,
                ),
            )
        }),
{
    reveal_strlit(" ");
    assert(" "@ =~= seq![' ']);
    let m = lemma_place_of_names(name, shown);
    let op = item[name];
    let list = listing(doc, tag, search);
    assert(has_operation(doc, path, m, op));
    lemma_entry_members(path, m, op);
    if is_selected(path, op, tag, search) {
        listing_is_complete(doc, tag, search, path, m, op);
        let i = choose|i: int| 0 <= i < list.len() && list[i] == entry(path, m, op);
        assert(member(list[i], "path"@) == Some(JsonView::Str(path)));
    }
    assert forall|i: int|
        0 <= i < list.len() && member(#[trigger] list[i], "path"@) == Some(JsonView::Str(path))
            && member(list[i], "method"@) == Some(JsonView::Str(shown)) implies is_selected(
        path,
        op,
        tag,
        search,
    ) by {
        let (p, n, other) = lemma_behind(doc, tag, search, i);
        lemma_entry_members(p, n, other);
        lemma_place_of_method(n);
    }
}

/// A description has nothing but the operations that the path has for the methods get, post,
/// put, patch, delete, head and options, and, where a method is asked for, only that one.
pub proof fn a_description_has_only_methods(
    doc: JsonView,
    path: Seq<char>,
    method: Option<Seq<char>>,
    found: Map<Seq<char>, JsonView>,
    shown: Seq<char>,
)
    requires
        description(doc, path, method) matches Some(said) && member(said, "operations"@) == Some(
            JsonView::Object(found),
        ),
        found.dom().contains(shown),
    ensures
        ({
            &&& member(doc, "paths"@) matches Some(JsonView::Object(paths))
            &&& paths.dom().contains(path)
            &&& paths[path] matches JsonView::Object(item)
            &&& {
                ||| shown == "GET"@ && item.dom().contains("get"@)
                ||| shown == "POST"@ && item.dom().contains("post"@)
                ||| shown == "PUT"@ && item.dom().contains("put"@)
                ||| shown == "PATCH"@ && item.dom().contains("patch"@)
                ||| shown == "DELETE"@ && item.dom().contains("delete"@)
                ||| shown == "HEAD"@ && item.dom().contains("head"@)
                ||| shown == "OPTIONS"@ && item.dom().contains("options"@)
            }
        }),
        method matches Some(asked) ==> asked.len() == shown.len() && forall|i: int|
            0 <= i < asked.len() ==> ascii_small(#[trigger] asked[i]) == ascii_small(shown[i]),
{
    a_description_is_sound(doc, path, method, shown);
    let (m, op) = choose|m: int, op: JsonView| #[trigger]
        has_operation(doc, path, m, op) && is_meant(method, methods()[m].0) && methods()[m].1
            == shown;
    lemma_methods();
    assert(same_but_for_ascii_case(methods()[m].1, methods()[m].0));
    assert(m == 0 || m == 1 || m == 2 || m == 3 || m == 4 || m == 5 || m == 6);
    if let Some(asked) = method {
        assert forall|i: int| 0 <= i < asked.len() implies ascii_small(#[trigger] asked[i])
            == ascii_small(shown[i]) by {
            assert(ascii_small(shown[i]) == ascii_small(methods()[m].0[i]));
        }
    }
}

/// The addresses of the servers are told in their order, for the servers that have one.
pub proof fn the_servers_are_told(servers: Seq<JsonView>)
    ensures
        addresses(servers) == servers.filter(
            |server: JsonView| member(server, "url"@) is Some,
        ).map_values(|server: JsonView| member(server, "url"@)->Some_0),
    decreases servers.len(),
{
    reveal(Seq::filter);
    let told = servers.filter(|server: JsonView| member(server, "url"@) is Some).map_values(
        |server: JsonView| member(server, "url"@)->Some_0,
    );
    if servers.len() > 0 {
        the_servers_are_told(servers.drop_last());
    }
    assert(addresses(servers) =~= told);
}

/// A token leads to the member of that name in an object, to the item at that place in an
/// array, and nowhere in anything else.
pub proof fn a_token_is_a_step(
    members: Map<Seq<char>, JsonView>,
    items: Seq<JsonView>,
    text: Seq<char>,
    flag: bool,
    token: Seq<char>,
)
    ensures
        stepped(JsonView::Object(members), token) == (if members.dom().contains(token) {
            Some(members[token])
        } else {
            None
        }),
        stepped(JsonView::Array(items), token) matches Some(next) ==> exists|i: int|
            0 <= i < items.len() && next == #[trigger] items[i] && i == numeric_value(token),
        stepped(JsonView::Array(items), decimal(items.len() as int)) is None,
        stepped(JsonView::Str(text), token) is None,
        stepped(JsonView::Number(text), token) is None,
        stepped(JsonView::Bool(flag), token) is None,
        stepped(JsonView::Null, token) is None,
{
    decimal_reads_back(items.len());
    if is_index(token) {
        numeric_value_is_not_negative(token);
    }
}

/// The listed operations are sorted by their paths and, on one path, by their methods.
pub proof fn the_listing_is_sorted(
    doc: JsonView,
    tag: Option<Seq<char>>,
    search: Option<Seq<char>>,
    i: int,
    j: int,
)
    requires
        is_finite(doc),
        0 <= i < j < listing(doc, tag, search).len(),
    ensures
        ({
            let list = listing(doc, tag, search);
            &&& member(list[i], "path"@) matches Some(JsonView::Str(path))
            &&& member(list[j], "path"@) matches Some(JsonView::Str(later_path))
            &&& member(list[i], "method"@) matches Some(JsonView::Str(method))
            &&& member(list[j], "method"@) matches Some(JsonView::Str(later_method))
            &&& text_before(path, later_path) || (path == later_path && text_before(
                method,
                later_method,
            ))
        }),
{
    every_entry_is_an_operation(doc, tag, search, i);
    every_entry_is_an_operation(doc, tag, search, j);
    listing_is_in_order(doc, tag, search, i, j);
}

/// A path is described exactly where the document has it with one of the methods get, post,
/// put, patch, delete, head and options, and this one is asked for in whatever case, or none.
pub proof fn a_path_with_a_method_is_described(
    doc: JsonView,
    path: Seq<char>,
    method: Option<Seq<char>>,
    paths: Map<Seq<char>, JsonView>,
    item: Map<Seq<char>, JsonView>,
)
    requires
        member(doc, "paths"@) == Some(JsonView::Object(paths)),
        paths.dom().contains(path),
        paths[path] == JsonView::Object(item),
    ensures
        ({
            let meant = |name: Seq<char>|
                item.dom().contains(name) && (method is None || same_but_for_ascii_case(
                    method->Some_0,
                    name,
                ));
            description(doc, path, method) is Some <==> {
                ||| meant("get"@)
                ||| meant("post"@)
                ||| meant("put"@)
                ||| meant("patch"@)
                ||| meant("delete"@)
                ||| meant("head"@)
                ||| meant("options"@)
            }
        }),
{
    what_exists_is_described(doc, path, method);
    let meant = |name: Seq<char>|
        item.dom().contains(name) && (method is None || same_but_for_ascii_case(
            method->Some_0,
            name,
        ));
    assert(path_item(doc, path) == Some(item));
    if description(doc, path, method) is Some {
        let (m, op) = choose|m: int, op: JsonView|
            #[trigger] has_operation(doc, path, m, op) && is_meant(method, methods()[m].0);
        assert(meant(methods()[m].0));
        assert(m == 0 || m == 1 || m == 2 || m == 3 || m == 4 || m == 5 || m == 6);
    } else {
        assert forall|m: int| 0 <= m < 7 implies !meant(#[trigger] methods()[m].0) by {
            if meant(methods()[m].0) {
                assert(has_operation(doc, path, m, item[methods()[m].0]));
            }
        }
        assert(methods()[0].0 == "delete"@ && methods()[1].0 == "get"@ && methods()[2].0
            == "head"@ && methods()[3].0 == "options"@ && methods()[4].0 == "patch"@
            && methods()[5].0 == "post"@ && methods()[6].0 == "put"@);
    }
}

/// What the document does not have is not described, and without paths nothing is listed.
pub proof fn what_is_missing_is_not_described(
    doc: JsonView,
    path: Seq<char>,
    method: Option<Seq<char>>,
    tag: Option<Seq<char>>,
    search: Option<Seq<char>>,
)
    ensures
        !(member(doc, "paths"@) matches Some(JsonView::Object(paths)) && paths.dom().contains(path)
            && paths[path] is Object) ==> description(doc, path, method) is None,
        !(member(doc, "paths"@) matches Some(JsonView::Object(paths))) ==> listing(
            doc,
            tag,
            search,
        ) == Seq::<JsonView>::empty(),
{
}

/// References are resolved one by one. An object with a text for `$ref` is replaced as a whole
/// by what the text refers to, which is resolved in turn, one less deep and inside of this
/// reference; but not where no depth is left, where it stands inside of the same reference, or
/// where the text refers to nothing. In every other object each member is resolved, in an
/// array each item, and everything else stays as it is.
pub proof fn a_reference_is_resolved_once(
    doc: JsonView,
    members: Map<Seq<char>, JsonView>,
    items: Seq<JsonView>,
    other: JsonView,
    depth: nat,
    open: Seq<Seq<char>>,
    name: Seq<char>,
    i: int,
)
    requires
        !(other is Object) && !(other is Array),
        members.dom().finite(),
    ensures
        ({
            let node = JsonView::Object(members);
            let refers = members.dom().contains("$ref"@) && members["$ref"@] is Str;
            let reference = members["$ref"@]->Str_0;
            let target = pointed(doc, reference);
            let stays = depth == 0 || open.contains(reference) || target is None;
            &&& refers && stays ==> resolved(doc, node, depth, open) == node
            &&& refers && !stays ==> resolved(doc, node, depth, open) == resolved(
                doc,
                target->Some_0,
                (depth - 1) as nat,
                open + seq![reference],
            )
            &&& !refers ==> ({
                &&& resolved(doc, node, depth, open) matches JsonView::Object(told)
                &&& told.dom() =~= members.dom()
                &&& members.dom().contains(name) ==> told[name] == resolved(
                    doc,
                    members[name],
                    depth,
                    open,
                )
            })
        }),
        ({
            &&& resolved(doc, JsonView::Array(items), depth, open) matches JsonView::Array(told)
            &&& told.len() == items.len()
            &&& 0 <= i < items.len() ==> told[i] == resolved(doc, items[i], depth, open)
        }),
        resolved(doc, other, depth, open) == other,
{
    let node = JsonView::Object(members);
    if members.dom().contains("$ref"@) && members["$ref"@] is Str {
        let reference = members["$ref"@]->Str_0;
        assert(text_member(node, "$ref"@) == Some(reference));
        assert(open.push(reference) =~= open + seq![reference]);
    } else {
        assert(text_member(node, "$ref"@) is None);
    }
}

/// A reference is `#/` and a pointer: each token leads one step on, and a reference that does
/// not begin so refers to nothing.
pub proof fn a_reference_leads_step_by_step(
    doc: JsonView,
    reference: Seq<char>,
    pointer: Seq<char>,
    node: JsonView,
    token: Seq<char>,
    names: Seq<Seq<char>>,
)
    ensures
        pointed(doc, "#/"@ + pointer) == followed(doc, pointer_names(pointer)),
        !(reference.len() >= 2 && reference[0] == '#' && reference[1] == '/') ==> pointed(
            doc,
            reference,
        ) is None,
        followed(node, Seq::empty()) == Some(node),
        stepped(node, token) matches Some(next) ==> followed(node, seq![token] + names) == followed(
            next,
            names,
        ),
        stepped(node, token) is None ==> followed(node, seq![token] + names) is None,
{
    reveal_strlit("#/");
    assert(("#/"@ + pointer).skip(2) =~= pointer);
    assert("#/"@.is_prefix_of("#/"@ + pointer));
    if "#/"@.is_prefix_of(reference) {
        assert("#/"@[0] == reference[0]);
        assert("#/"@[1] == reference[1]);
    }
    assert((seq![token] + names).drop_first() =~= names);
}

/// The tokens of a pointer stand between slashes. In a token `~1` stands for a slash and `~0`
/// for a tilde; what has neither stands for itself.
pub proof fn a_pointer_is_read(pointer: Seq<char>, a: Seq<char>, b: Seq<char>)
    requires
        !a.contains('~') && !a.contains('/'),
        !b.contains('~') && !b.contains('/'),
    ensures
        pointer_names(a) == seq![a],
        pointer_names(a + "~1"@ + b) == seq![a + "/"@ + b],
        pointer_names(a + "~0"@ + b) == seq![a + "~"@ + b],
        pointer_names(a + "~01"@ + b) == seq![a + "~1"@ + b],
        pointer_names(pointer + "/"@ + a) == pointer_names(pointer) + seq![a],
{
    reveal_strlit("~1");
    reveal_strlit("~0");
    reveal_strlit("~01");
    reveal_strlit("~");
    reveal_strlit("/");
    lemma_tokenless(a);
    lemma_tokenless(b);
    lemma_no_tilde(a);
    lemma_no_tilde(b);
    let one = a + "~1"@ + b;
    let zero = a + "~0"@ + b;
    let both = a + "~01"@ + b;
    assert(!one.contains('/') && !zero.contains('/') && !both.contains('/'));
    pieces_of_one(a, '/');
    pieces_of_one(one, '/');
    pieces_of_one(zero, '/');
    pieces_of_one(both, '/');
    pieces_of_more(pointer, a, '/');
    assert("~1"@ =~= seq!['~', '1']);
    assert("~0"@ =~= seq!['~', '0']);
    assert("~"@ =~= seq!['~']);
    assert("/"@ =~= seq!['/']);
    an_escape_is_replaced(a, b, '1', '/');
    nothing_to_unescape(a + "/"@ + b, '0', '~');
    assert(pointer_names(one) =~= seq![a + "/"@ + b]);
    nothing_to_unescape(zero, '1', '/');
    an_escape_is_replaced(a, b, '0', '~');
    assert(pointer_names(zero) =~= seq![a + "~"@ + b]);
    nothing_to_unescape(both, '1', '/');
    let rest = seq!['1'] + b;
    assert(both =~= a + seq!['~', '0'] + rest);
    an_escape_is_replaced(a, rest, '0', '~');
    nothing_to_unescape(rest, '0', '~');
    assert(a + seq!['~'] + rest =~= a + "~1"@ + b);
    assert(pointer_names(both) =~= seq![a + "~1"@ + b]);
    assert(pointer_names(a) =~= seq![a]);
    assert(pointer_names(pointer + "/"@ + a) =~= pointer_names(pointer) + seq![a]);
}

proof fn lemma_tokenless(a: Seq<char>)
    requires
        !a.contains('~'),
    ensures
        unescaped(a, '1', '/') == a,
        unescaped(a, '0', '~') == a,
{
    lemma_no_tilde(a);
    nothing_to_unescape(a, '1', '/');
    nothing_to_unescape(a, '0', '~');
}

proof fn lemma_no_tilde(a: Seq<char>)
    requires
        !a.contains('~'),
    ensures
        forall|i: int| 0 <= i < a.len() ==> #[trigger] a[i] != '~',
{
}

/// The description of an API is its `info`, or null, and the addresses of its servers.
pub proof fn the_api_is_told(doc: &Json, r: Json)
    requires
        call_ensures(api_info, (doc,), r),
    ensures
        ({
            &&& r@ matches JsonView::Object(told)
            &&& told.dom() =~= set!["info"@, "servers"@]
            &&& member(doc@, "info"@) matches Some(info) ==> told["info"@] == info
            &&& member(doc@, "info"@) is None ==> told["info"@] == JsonView::Null
            &&& member(doc@, "servers"@) matches Some(JsonView::Array(servers)) ==> told[
                "servers"@] == JsonView::Array(addresses(servers))
            &&& !(member(doc@, "servers"@) matches Some(JsonView::Array(servers))) ==> told[
                "servers"@] == JsonView::Array(Seq::empty())
        }),
{
    reveal_strlit("info");
    reveal_strlit("servers");
    assert("info"@.len() == 4);
    assert("servers"@.len() == 7);
    assert(addresses(Seq::empty()) =~= Seq::empty());
}

/// The tags are the array that the document has for them, or none.
pub proof fn the_list_of_tags_is_told(doc: &Json, r: Vec<Json>)
    requires
        call_ensures(list_tags, (doc,), r),
    ensures
        member(doc@, "tags"@) matches Some(JsonView::Array(tags)) ==> trees(r@) == tags,
        !(member(doc@, "tags"@) matches Some(JsonView::Array(tags))) ==> r@.len() == 0,
{
    assert(trees(r@).len() == r@.len());
}

/// The functions on documents do what holds of descriptions, listings and references.
pub proof fn documents_are_told(
    doc: &Json,
    text: &str,
    method: Option<&str>,
    search: Option<&str>,
    described: Option<Json>,
    listed: Vec<Json>,
    target: Option<&Json>,
)
    ensures
        call_ensures(describe_endpoint, (doc, text, method), described) ==> (described matches Some(
            said,
        ) ==> description(doc@, text@, text_of(method)) == Some(said@)),
        call_ensures(describe_endpoint, (doc, text, method), described) && described is None
            ==> description(doc@, text@, text_of(method)) is None,
        call_ensures(list_endpoints, (doc, method, search), listed) ==> listed@.map_values(
            |one: Json| one@,
        ) == listing(doc@, text_of(method), text_of(search)),
        call_ensures(resolve_pointer, (doc, text), target) ==> (target matches Some(found)
            ==> pointed(doc@, text@) == Some(found@)),
        call_ensures(resolve_pointer, (doc, text), target) && target is None ==> pointed(
            doc@,
            text@,
        ) is None,
{
    if call_ensures(list_endpoints, (doc, method, search), listed) {
        assert(listed@.map_values(|one: Json| one@) =~= trees(listed@));
    }
}

/// Digits without a zero before others are the decimal notation of the number that they stand
/// for.
proof fn lemma_decimal_of_value(s: Seq<char>)
    requires
        is_index(s),
    ensures
        numeric_value(s) >= 0,
        s[0] != '0' ==> numeric_value(s) > 0,
        decimal_nat(numeric_value(s) as nat) == s,
    decreases s.len(),
{
    let rest = s.drop_last();
    let d = s.last() as int - '0' as int;
    assert('0' <= s[s.len() - 1] && s[s.len() - 1] <= '9');
    assert(0 <= d < 10);
    if s.len() == 1 {
        assert(numeric_value(rest) == 0);
        assert(decimal_nat(d as nat) =~= s);
    } else {
        assert(rest[0] == s[0]);
        assert forall|i: int| 0 <= i < rest.len() implies '0' <= #[trigger] rest[i] && rest[i]
            <= '9' by {
            assert(rest[i] == s[i]);
        }
        lemma_decimal_of_value(rest);
        let v = numeric_value(s);
        assert(v / 10 == numeric_value(rest) && v % 10 == d);
        assert(decimal_nat(v as nat) =~= rest.push(s.last()));
        assert(rest.push(s.last()) =~= s);
    }
}

/// An item of an array is led to by its place in decimal notation, and by nothing else: not
/// with zeros before it, not with a sign, and not beyond the end.
pub proof fn an_item_is_told_by_its_place(items: Seq<JsonView>, token: Seq<char>, i: int)
    ensures
        0 <= i < items.len() ==> stepped(JsonView::Array(items), decimal(i)) == Some(items[i]),
        (forall|k: int| 0 <= k < items.len() ==> #[trigger] decimal(k) != token) ==> stepped(
            JsonView::Array(items),
            token,
        ) is None,
{
    if 0 <= i < items.len() {
        every_item_can_be_referred_to(items, i);
    }
    if stepped(JsonView::Array(items), token) is Some {
        lemma_decimal_of_value(token);
        assert(decimal(numeric_value(token)) == token);
    }
}

/// References are resolved as it holds of them, and the chain of references that a value
/// stands inside of is handed back as it was.
pub proof fn resolving_is_told(
    doc: &Json,
    node: &Json,
    depth: usize,
    seen: &mut Vec<String>,
    r: Json,
)
    requires
        call_ensures(resolve_refs, (doc, node, depth, seen), r),
    ensures
        r@ == resolved(doc@, node@, depth as nat, texts(old(seen)@)),
        texts(final(seen)@) == texts(old(seen)@),
{
}

}
