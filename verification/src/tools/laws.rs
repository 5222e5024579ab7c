//! What holds of the requests and the results of the tools, argument by argument and member
//! by member.
use vstd::prelude::*;
use vstd::utf8::encode_utf8;

use crate::document::compact_json;
use crate::json::{array_member, member, text_member, trees, without_members, Json, JsonView};
use crate::location::{chosen_geohash, needs_pinned, resolve_geohash, LocationArgs};
use crate::openapi::{description, listing, or_else};
use crate::query::{percent_encoded, query_text};
use crate::reply::{response_result, status_and_body, ToolError, ToolErrorView};
use crate::text::{
    ascending, ascending_has_no_duplicates, decimal, in_order, is_numeric, numeric_value,
    order_exists, quoted, string_of, text_of, uppercase,
};
use crate::tools::endpoints::{
    bool_parameter, browse_grid, every_photo_is_linked, filter_parameters, get_messages,
    get_profile, grid_parameters, grid_request, inbox_request, is_conversation_id,
    is_to_be_pinned, list_conversations, location_request, location_result, location_view,
    logged_out, login_failed, login_result, login_view, logout_result, main_hash, media_hashes,
    message_result, message_to, message_view, messages_asked_for, no_photo_is_linked_twice,
    number_parameter, parts_at, photo_links, photos, profile_request, profile_result,
    profile_view, send_message, session_status, status_view, the_main_photo_comes_first,
    update_location, with_hashes, BrowseGridArgs, DeviceSummary, GetMessagesArgs,
    ListConversationsArgs, SessionInfo, SEND_MESSAGE,
};
use crate::tools::generic::{
    description_result, endpoints_result, endpoints_view, instructions, invalid_method, request,
    request_asked_for, tags_result, RequestArgs,
};
use crate::tools::{ApiRequest, RequestView};

verus! {

/// The members of the inbox filter have different names.
proof fn lemma_inbox_names()
    ensures
        "unreadOnly"@ != "favoritesOnly"@,
        "unreadOnly"@ != "onlineNowOnly"@,
        "unreadOnly"@ != "rightNowOnly"@,
        "unreadOnly"@ != "chemistryOnly"@,
        "unreadOnly"@ != "distanceMeters"@,
        "unreadOnly"@ != "positions"@,
        "favoritesOnly"@ != "onlineNowOnly"@,
        "favoritesOnly"@ != "rightNowOnly"@,
        "favoritesOnly"@ != "chemistryOnly"@,
        "favoritesOnly"@ != "distanceMeters"@,
        "favoritesOnly"@ != "positions"@,
        "onlineNowOnly"@ != "rightNowOnly"@,
        "onlineNowOnly"@ != "chemistryOnly"@,
        "onlineNowOnly"@ != "distanceMeters"@,
        "onlineNowOnly"@ != "positions"@,
        "rightNowOnly"@ != "chemistryOnly"@,
        "rightNowOnly"@ != "distanceMeters"@,
        "rightNowOnly"@ != "positions"@,
        "chemistryOnly"@ != "distanceMeters"@,
        "chemistryOnly"@ != "positions"@,
        "distanceMeters"@ != "positions"@,
{
    reveal_strlit("unreadOnly");
    reveal_strlit("favoritesOnly");
    reveal_strlit("onlineNowOnly");
    reveal_strlit("rightNowOnly");
    reveal_strlit("chemistryOnly");
    reveal_strlit("distanceMeters");
    reveal_strlit("positions");
    assert("favoritesOnly"@[0] != "onlineNowOnly"@[0]);
    assert("favoritesOnly"@[0] != "chemistryOnly"@[0]);
    assert("onlineNowOnly"@[0] != "chemistryOnly"@[0]);
    assert("unreadOnly"@.len() == 10);
    assert("favoritesOnly"@.len() == 13);
    assert("onlineNowOnly"@.len() == 13);
    assert("rightNowOnly"@.len() == 12);
    assert("chemistryOnly"@.len() == 13);
    assert("distanceMeters"@.len() == 14);
    assert("positions"@.len() == 9);
}

/// The inbox is asked for by a POST to `/v4/inbox`, with the page that is given, or else the
/// first one; each filter is on exactly where its own argument is set, and what has no
/// argument is off.
pub proof fn the_inbox_is_asked_for(args: ListConversationsArgs)
    ensures
        inbox_request(args).method == "POST"@,
        args.page matches Some(page) ==> inbox_request(args).path == "/v4/inbox?page="@ + decimal(
            page as int,
        ),
        args.page is None ==> inbox_request(args).path == "/v4/inbox?page="@ + seq!['1'],
        inbox_request(args).body matches Some(JsonView::Object(body)) && body.dom() =~= set![
            "unreadOnly"@, "favoritesOnly"@, "onlineNowOnly"@, "rightNowOnly"@, "chemistryOnly"@,
            "distanceMeters"@, "positions"@,
        ],
        args.unread_only == Some(true) ==> inbox_request(args).body->Some_0->Object_0["unreadOnly"@]
            == JsonView::Bool(true),
        args.unread_only != Some(true) ==> inbox_request(args).body->Some_0->Object_0["unreadOnly"@]
            == JsonView::Bool(false),
        args.favorites_only == Some(true) ==> inbox_request(args).body->Some_0->Object_0["favoritesOnly"@]
            == JsonView::Bool(true),
        args.favorites_only != Some(true) ==> inbox_request(args).body->Some_0->Object_0["favoritesOnly"@]
            == JsonView::Bool(false),
        args.online_now_only == Some(true) ==> inbox_request(args).body->Some_0->Object_0["onlineNowOnly"@]
            == JsonView::Bool(true),
        args.online_now_only != Some(true) ==> inbox_request(args).body->Some_0->Object_0["onlineNowOnly"@]
            == JsonView::Bool(false),
        args.right_now_only == Some(true) ==> inbox_request(args).body->Some_0->Object_0["rightNowOnly"@]
            == JsonView::Bool(true),
        args.right_now_only != Some(true) ==> inbox_request(args).body->Some_0->Object_0["rightNowOnly"@]
            == JsonView::Bool(false),
        inbox_request(args).body->Some_0->Object_0["chemistryOnly"@] == JsonView::Bool(false),
        inbox_request(args).body->Some_0->Object_0["distanceMeters"@] == JsonView::Null,
        inbox_request(args).body->Some_0->Object_0["positions"@] == JsonView::Array(Seq::empty()),
{
    lemma_inbox_names();
    assert(decimal(1) =~= seq!['1']);
}

/// The parameters for the grid have different names.
proof fn lemma_grid_names()
    ensures
        "nearbyGeoHash"@ != "photoOnly"@,
        "nearbyGeoHash"@ != "faceOnly"@,
        "nearbyGeoHash"@ != "onlineOnly"@,
        "nearbyGeoHash"@ != "fresh"@,
        "nearbyGeoHash"@ != "pageNumber"@,
        "nearbyGeoHash"@ != "ageMin"@,
        "nearbyGeoHash"@ != "ageMax"@,
        "photoOnly"@ != "faceOnly"@,
        "photoOnly"@ != "onlineOnly"@,
        "photoOnly"@ != "fresh"@,
        "photoOnly"@ != "pageNumber"@,
        "photoOnly"@ != "ageMin"@,
        "photoOnly"@ != "ageMax"@,
        "faceOnly"@ != "onlineOnly"@,
        "faceOnly"@ != "fresh"@,
        "faceOnly"@ != "pageNumber"@,
        "faceOnly"@ != "ageMin"@,
        "faceOnly"@ != "ageMax"@,
        "onlineOnly"@ != "fresh"@,
        "onlineOnly"@ != "pageNumber"@,
        "onlineOnly"@ != "ageMin"@,
        "onlineOnly"@ != "ageMax"@,
        "fresh"@ != "pageNumber"@,
        "fresh"@ != "ageMin"@,
        "fresh"@ != "ageMax"@,
        "pageNumber"@ != "ageMin"@,
        "pageNumber"@ != "ageMax"@,
        "ageMin"@ != "ageMax"@,
{
    reveal_strlit("nearbyGeoHash");
    reveal_strlit("photoOnly");
    reveal_strlit("faceOnly");
    reveal_strlit("onlineOnly");
    reveal_strlit("fresh");
    reveal_strlit("pageNumber");
    reveal_strlit("ageMin");
    reveal_strlit("ageMax");
    assert("onlineOnly"@[0] != "pageNumber"@[0]);
    assert("ageMin"@[4] != "ageMax"@[4]);
    assert("nearbyGeoHash"@.len() == 13);
    assert("photoOnly"@.len() == 9);
    assert("faceOnly"@.len() == 8);
    assert("onlineOnly"@.len() == 10);
    assert("fresh"@.len() == 5);
    assert("pageNumber"@.len() == 10);
    assert("ageMin"@.len() == 6);
    assert("ageMax"@.len() == 6);
}

/// Whether no name comes twice among parameters, and all names are known.
spec fn are_named(parameters: Seq<(Seq<char>, Seq<char>)>, known: Set<Seq<char>>) -> bool {
    &&& forall|i: int, j: int|
        0 <= i < j < parameters.len() ==> (#[trigger] parameters[i]).0 != (
        #[trigger] parameters[j]).0
    &&& forall|i: int| 0 <= i < parameters.len() ==> known.contains((#[trigger] parameters[i]).0)
}

/// Puts one more parameter behind others, or none.
proof fn lemma_append(
    first: Seq<(Seq<char>, Seq<char>)>,
    next: Seq<(Seq<char>, Seq<char>)>,
    name: Seq<char>,
    known: Set<Seq<char>>,
)
    requires
        are_named(first, known),
        next.len() <= 1,
        next.len() == 1 ==> next[0].0 == name,
        !known.contains(name),
    ensures
        are_named(first + next, known.insert(name)),
        forall|e: (Seq<char>, Seq<char>)| #[trigger]
            (first + next).contains(e) == (first.contains(e) || next.len() == 1 && next[0] == e),
{
    let all = first + next;
    assert forall|i: int, j: int| 0 <= i < j < all.len() implies (#[trigger] all[i]).0 != (
    #[trigger] all[j]).0 by {
        if j >= first.len() {
            assert(known.contains(first[i].0));
        }
    }
    assert forall|e: (Seq<char>, Seq<char>)| #[trigger]
        all.contains(e) == (first.contains(e) || next.len() == 1 && next[0] == e) by {
        if all.contains(e) {
            let i = choose|i: int| 0 <= i < all.len() && all[i] == e;
            if i < first.len() {
                assert(first[i] == e);
            } else {
                assert(next[i - first.len()] == e);
            }
        }
        if first.contains(e) {
            let i = choose|i: int| 0 <= i < first.len() && first[i] == e;
            assert(all[i] == e);
        }
        if next.len() == 1 && next[0] == e {
            assert(all[first.len() as int] == e);
        }
    }
}

/// The two texts for a filter are different.
proof fn lemma_bool_texts()
    ensures
        "true"@ != "false"@,
{
    reveal_strlit("true");
    reveal_strlit("false");
    assert("true"@.len() == 4 && "false"@.len() == 5);
}

/// Without additional filters there are no parameters for them.
proof fn lemma_no_filters()
    ensures
        filter_parameters(without_members()) == Seq::<(Seq<char>, Seq<char>)>::empty(),
{
    order_exists(without_members().dom());
    let names = in_order(without_members().dom());
    if names.len() > 0 {
        assert(names.to_set().contains(names[0]));
    }
    assert(filter_parameters(without_members()) =~= Seq::empty());
}

/// The parameters for the grid, where no additional filters are given: the location, and each
/// other parameter exactly where its own argument is given, with the value of that argument;
/// no name comes twice.
pub proof fn the_grid_is_asked_for(
    geohash: Seq<char>,
    args: BrowseGridArgs,
    value: Seq<char>,
    i: int,
    j: int,
)
    requires
        args.filters is None,
    ensures
        ({
            let p = grid_parameters(geohash, args);
            &&& p.len() > 0 && p[0] == ("nearbyGeoHash"@, geohash)
            &&& p.contains(("nearbyGeoHash"@, value)) <==> value == geohash
            &&& p.contains(("photoOnly"@, value)) <==> args.photo_only == Some(true) && value
                == "true"@ || args.photo_only == Some(false) && value == "false"@
            &&& p.contains(("faceOnly"@, value)) <==> args.face_only == Some(true) && value
                == "true"@ || args.face_only == Some(false) && value == "false"@
            &&& p.contains(("onlineOnly"@, value)) <==> args.online_only == Some(true) && value
                == "true"@ || args.online_only == Some(false) && value == "false"@
            &&& p.contains(("fresh"@, value)) <==> args.fresh == Some(true) && value
                == "true"@ || args.fresh == Some(false) && value == "false"@
            &&& p.contains(("pageNumber"@, value)) <==> (args.page matches Some(n) && value
                == decimal(n as int))
            &&& p.contains(("ageMin"@, value)) <==> (args.age_min matches Some(n) && value
                == decimal(n as int))
            &&& p.contains(("ageMax"@, value)) <==> (args.age_max matches Some(n) && value
                == decimal(n as int))
            &&& 0 <= i < j < p.len() ==> p[i].0 != p[j].0
            &&& 0 <= i < p.len() ==> set![
                "nearbyGeoHash"@, "photoOnly"@, "faceOnly"@, "onlineOnly"@, "fresh"@,
                "pageNumber"@, "ageMin"@, "ageMax"@,
            ].contains(p[i].0)
        }),
{
    lemma_grid_names();
    lemma_no_filters();
    let p0 = seq![("nearbyGeoHash"@, geohash)];
    let s0 = set!["nearbyGeoHash"@];
    assert(are_named(p0, s0));
    assert(p0[0] == ("nearbyGeoHash"@, geohash));
    assert forall|e: (Seq<char>, Seq<char>)| #[trigger] p0.contains(e) == (e == (
        "nearbyGeoHash"@,
        geohash,
    )) by {
        if e == ("nearbyGeoHash"@, geohash) {
            assert(p0[0] == e);
        }
    }
    let q1 = bool_parameter("photoOnly"@, args.photo_only);
    lemma_append(p0, q1, "photoOnly"@, s0);
    let p1 = p0 + q1;
    let s1 = s0.insert("photoOnly"@);
    let q2 = bool_parameter("faceOnly"@, args.face_only);
    lemma_append(p1, q2, "faceOnly"@, s1);
    let p2 = p1 + q2;
    let s2 = s1.insert("faceOnly"@);
    let q3 = bool_parameter("onlineOnly"@, args.online_only);
    lemma_append(p2, q3, "onlineOnly"@, s2);
    let p3 = p2 + q3;
    let s3 = s2.insert("onlineOnly"@);
    let q4 = bool_parameter("fresh"@, args.fresh);
    lemma_append(p3, q4, "fresh"@, s3);
    let p4 = p3 + q4;
    let s4 = s3.insert("fresh"@);
    let q5 = number_parameter("pageNumber"@, args.page);
    lemma_append(p4, q5, "pageNumber"@, s4);
    let p5 = p4 + q5;
    let s5 = s4.insert("pageNumber"@);
    let q6 = number_parameter("ageMin"@, args.age_min);
    lemma_append(p5, q6, "ageMin"@, s5);
    let p6 = p5 + q6;
    let s6 = s5.insert("ageMin"@);
    let q7 = number_parameter("ageMax"@, args.age_max);
    lemma_append(p6, q7, "ageMax"@, s6);
    let p7 = p6 + q7;
    let s7 = s6.insert("ageMax"@);
    let p = grid_parameters(geohash, args);
    assert(p7 + Seq::empty() =~= p7);
    assert(p == p7);
    assert(p[0] == p0[0]);
    assert(p7.contains(("nearbyGeoHash"@, value)) == (p6.contains(("nearbyGeoHash"@, value))));
    lemma_bool_texts();
    if 0 <= i < p.len() {
        assert(s7.contains(p[i].0));
    }
}

/// Additional filters come behind the other parameters, each once and in the order of their
/// names: a text as it is, and anything else as its JSON text.
pub proof fn additional_filters_are_passed_on(
    geohash: Seq<char>,
    args: BrowseGridArgs,
    plain: BrowseGridArgs,
    name: Seq<char>,
    k: int,
)
    requires
        args.filters matches Some(filters) && filters@.dom().finite(),
        plain == (BrowseGridArgs { filters: None, ..args }),
    ensures
        ({
            let filters = args.filters->Some_0@;
            let p = grid_parameters(geohash, args);
            let n = grid_parameters(geohash, plain).len() as int;
            &&& p.len() == n + filters.dom().len()
            &&& p.take(n) == grid_parameters(geohash, plain)
            &&& ascending(p.skip(n).map_values(|q: (Seq<char>, Seq<char>)| q.0))
            &&& n <= k < p.len() ==> filters.dom().contains(p[k].0) && p[k].1
                == match filters[p[k].0] {
                JsonView::Str(text) => text,
                other => compact_json(other),
            }
            &&& filters.dom().contains(name) ==> exists|j: int|
                n <= j < p.len() && (#[trigger] p[j]).0 == name
        }),
{
    lemma_no_filters();
    let filters = args.filters->Some_0@;
    let first = grid_parameters(geohash, plain);
    let rest = filter_parameters(filters);
    let p = grid_parameters(geohash, args);
    let names = in_order(filters.dom());
    let n = first.len() as int;
    order_exists(filters.dom());
    ascending_has_no_duplicates(names);
    names.unique_seq_to_set();
    let before = seq![("nearbyGeoHash"@, geohash)] + bool_parameter("photoOnly"@, args.photo_only)
        + bool_parameter("faceOnly"@, args.face_only) + bool_parameter(
        "onlineOnly"@,
        args.online_only,
    ) + bool_parameter("fresh"@, args.fresh) + number_parameter("pageNumber"@, args.page)
        + number_parameter("ageMin"@, args.age_min) + number_parameter("ageMax"@, args.age_max);
    assert(first =~= before);
    assert(p =~= first + rest);
    assert(p.take(n) =~= first);
    assert(p.skip(n) =~= rest);
    assert(rest.map_values(|q: (Seq<char>, Seq<char>)| q.0) =~= names);
    if n <= k < p.len() {
        assert(p[k] == rest[k - n]);
        assert(names.to_set().contains(names[k - n]));
    }
    if filters.dom().contains(name) {
        assert(names.to_set().contains(name));
        let j = choose|j: int| 0 <= j < names.len() && names[j] == name;
        assert(p[n + j] == rest[j]);
        assert(p[n + j].0 == name);
    }
}

/// The grid is asked for by a GET of `/v4/cascade` with the parameters as its query.
pub proof fn the_grid_has_its_path(geohash: Seq<char>, args: BrowseGridArgs)
    ensures
        grid_request(geohash, args).method == "GET"@,
        grid_request(geohash, args).path == "/v4/cascade?"@ + query_text(
            grid_parameters(geohash, args),
        ),
        grid_request(geohash, args).body is None,
{
}

/// A conversation id is two numbers with a colon between them, and nothing else is.
pub proof fn a_conversation_id_is_two_numbers(id: Seq<char>, first: Seq<char>, second: Seq<char>)
    ensures
        id == first + seq![':'] + second && is_numeric(first) && is_numeric(second)
            ==> is_conversation_id(id),
        is_conversation_id(id) ==> exists|a: Seq<char>, b: Seq<char>|
            #![trigger is_numeric(a), is_numeric(b)]
            is_numeric(a) && is_numeric(b) && id == a + seq![':'] + b,
{
    if id == first + seq![':'] + second && is_numeric(first) && is_numeric(second) {
        let colon = first.len() as int;
        assert(id.take(colon) =~= first);
        assert(id.skip(colon + 1) =~= second);
        assert(parts_at(id, colon));
    }
    if is_conversation_id(id) {
        let colon = choose|colon: int| #[trigger] parts_at(id, colon);
        let a = id.take(colon);
        let b = id.skip(colon + 1);
        assert(id =~= a + seq![':'] + b);
        assert(is_numeric(a) && is_numeric(b));
    }
}

/// A number is written with the digits from 0 to 9, at least one of them, and nothing else.
pub proof fn a_number_is_made_of_digits(text: Seq<char>)
    ensures
        is_numeric(text) <==> text.len() > 0 && forall|i: int|
            0 <= i < text.len() ==> {
                ||| #[trigger] text[i] == '0'
                ||| text[i] == '1'
                ||| text[i] == '2'
                ||| text[i] == '3'
                ||| text[i] == '4'
                ||| text[i] == '5'
                ||| text[i] == '6'
                ||| text[i] == '7'
                ||| text[i] == '8'
                ||| text[i] == '9'
            },
{
    if is_numeric(text) {
        assert forall|i: int| 0 <= i < text.len() implies {
            ||| #[trigger] text[i] == '0'
            ||| text[i] == '1'
            ||| text[i] == '2'
            ||| text[i] == '3'
            ||| text[i] == '4'
            ||| text[i] == '5'
            ||| text[i] == '6'
            ||| text[i] == '7'
            ||| text[i] == '8'
            ||| text[i] == '9'
        } by {
            let c = text[i] as int;
            assert('0' <= text[i] && text[i] <= '9');
            assert(48 <= c <= 57);
        }
    }
}

/// Messages are asked for by a GET below `/v5/chat/conversation` with the id of the
/// conversation; the page key is in the query, encoded, exactly where it is given, and the
/// profile exactly where it is asked for. What is no conversation id is refused.
pub proof fn messages_are_asked_for(args: GetMessagesArgs)
    ensures
        is_conversation_id(args.conversation_id@) ==> ({
            let start = "/v5/chat/conversation/"@ + args.conversation_id@ + "/message"@;
            &&& messages_asked_for(args) matches Ok(request)
            &&& request.method == "GET"@
            &&& request.body is None
            &&& args.page_key is None && args.include_profile != Some(true) ==> request.path
                == start
            &&& args.page_key is None && args.include_profile == Some(true) ==> request.path
                == start + "?profile=true"@
            &&& args.page_key matches Some(key) ==> (args.include_profile != Some(true)
                ==> request.path == start + "?pageKey="@ + percent_encoded(encode_utf8(key@)))
            &&& args.page_key matches Some(key) ==> (args.include_profile == Some(true)
                ==> request.path == start + "?pageKey="@ + percent_encoded(encode_utf8(key@))
                + "&profile=true"@)
        }),
        !is_conversation_id(args.conversation_id@) ==> messages_asked_for(args) == Err::<
            RequestView,
            _,
        >(
            ToolErrorView::InvalidParams(
                "conversation_id must be two numeric profile ids joined by ':' (e.g. \"12345678:23456789\"), got "@
                    + quoted(args.conversation_id@),
            ),
        ),
{
    if is_conversation_id(args.conversation_id@) {
        let request = messages_asked_for(args)->Ok_0;
        let start = "/v5/chat/conversation/"@ + args.conversation_id@ + "/message"@;
        if let Some(key) = args.page_key {
            let encoded = percent_encoded(encode_utf8(key@));
            if args.include_profile == Some(true) {
                assert(request.path =~= start + "?pageKey="@ + encoded + "&profile=true"@);
            } else {
                assert(request.path =~= start + "?pageKey="@ + encoded);
            }
        } else if args.include_profile != Some(true) {
            assert(request.path =~= start);
        }
    }
}

/// A location is set by a PUT to `/v4/location` of nothing but the geohash.
pub proof fn the_location_is_set(geohash: Seq<char>)
    ensures
        location_request(geohash).method == "PUT"@,
        location_request(geohash).path == "/v4/location"@,
        location_request(geohash).body matches Some(JsonView::Object(body)) && body.dom() =~= set![
            "geohash"@,
        ] && body["geohash"@] == JsonView::Str(geohash),
{
}

/// The members of the result of setting a location have different names.
proof fn lemma_location_names()
    ensures
        "status"@ != "geohash"@,
        "status"@ != "pinned"@,
        "status"@ != "body"@,
        "geohash"@ != "pinned"@,
        "geohash"@ != "body"@,
        "pinned"@ != "body"@,
{
    reveal_strlit("status");
    reveal_strlit("geohash");
    reveal_strlit("pinned");
    reveal_strlit("body");
    assert("status"@[0] != "pinned"@[0]);
    assert("status"@.len() == 6);
    assert("geohash"@.len() == 7);
    assert("pinned"@.len() == 6);
    assert("body"@.len() == 4);
}

/// The result of setting a location tells the status, the geohash and the body, and that the
/// location was pinned exactly where the status is from 200 to 299 and it was saved.
pub proof fn the_set_location_is_told(status: u16, geohash: Seq<char>, saved: bool, body: JsonView)
    ensures
        location_view(status, geohash, saved, body) matches JsonView::Object(told) && told.dom()
            =~= set!["status"@, "geohash"@, "pinned"@, "body"@] && told["status"@]
            == JsonView::Number(decimal(status as int)) && told["geohash"@] == JsonView::Str(geohash)
            && told["body"@] == body && told["pinned"@] == JsonView::Bool(
            200 <= status && status <= 299 && saved,
        ),
{
    lemma_location_names();
}

/// A profile is asked for by a GET of `/v7/profiles` with its id, which has to be a number.
pub proof fn a_profile_is_asked_for(profile_id: Seq<char>)
    ensures
        is_numeric(profile_id) ==> (profile_request(profile_id) matches Ok(request)
            && request.method == "GET"@ && request.path == "/v7/profiles/"@ + profile_id
            && request.body is None),
        !is_numeric(profile_id) ==> profile_request(profile_id) == Err::<RequestView, _>(
            ToolErrorView::InvalidParams(
                "profile_id must be a numeric id, got "@ + quoted(profile_id),
            ),
        ),
{
}

/// The members of a picture have different names.
proof fn lemma_photo_names()
    ensures
        "mediaHash"@ != "full"@,
        "mediaHash"@ != "thumb"@,
        "full"@ != "thumb"@,
{
    reveal_strlit("mediaHash");
    reveal_strlit("full");
    reveal_strlit("thumb");
    assert("mediaHash"@.len() == 9);
    assert("full"@.len() == 4);
    assert("thumb"@.len() == 5);
}

/// A picture is told with its hash, and linked in full size and as a thumbnail.
pub proof fn a_photo_is_linked_twice(profile: JsonView, k: int)
    requires
        0 <= k < media_hashes(profile).len(),
    ensures
        photos(profile).len() == media_hashes(profile).len(),
        ({
            let hash = media_hashes(profile)[k];
            &&& photos(profile)[k] matches JsonView::Object(told)
            &&& told.dom() =~= set!["mediaHash"@, "full"@, "thumb"@]
            &&& told["mediaHash"@] == JsonView::Str(hash)
            &&& told["full"@] == JsonView::Str(
                "https://cdns.grindr.com/images/profile/1024x1024/"@ + hash,
            )
            &&& told["thumb"@] == JsonView::Str(
                "https://cdns.grindr.com/images/profile/320x320/"@ + hash,
            )
        }),
{
    lemma_photo_names();
    let hash = media_hashes(profile)[k];
    reveal_strlit("https://cdns.grindr.com/images/profile");
    reveal_strlit("/1024x1024/");
    reveal_strlit("/320x320/");
    reveal_strlit("https://cdns.grindr.com/images/profile/1024x1024/");
    reveal_strlit("https://cdns.grindr.com/images/profile/320x320/");
    assert("https://cdns.grindr.com/images/profile"@ + "/1024x1024/"@
        =~= "https://cdns.grindr.com/images/profile/1024x1024/"@);
    assert("https://cdns.grindr.com/images/profile"@ + "/320x320/"@
        =~= "https://cdns.grindr.com/images/profile/320x320/"@);
}

/// The members of the result of asking for a profile have different names.
proof fn lemma_profile_names()
    ensures
        "status"@ != "photos"@,
        "status"@ != "profile"@,
        "status"@ != "body"@,
        "photos"@ != "profile"@,
        "photos"@ != "body"@,
        "profile"@ != "body"@,
{
    reveal_strlit("status");
    reveal_strlit("photos");
    reveal_strlit("profile");
    reveal_strlit("body");
    assert("status"@[0] != "photos"@[0]);
    assert("status"@.len() == 6);
    assert("photos"@.len() == 6);
    assert("profile"@.len() == 7);
    assert("body"@.len() == 4);
}

/// Where the response has a first profile, it is told with its pictures; otherwise the body
/// is told as it is. The status is told in any case.
pub proof fn a_profile_is_told(status: u16, body: JsonView)
    ensures
        member(body, "profiles"@) matches Some(JsonView::Array(profiles)) ==> (profiles.len() > 0
            ==> (profile_view(status, body) matches JsonView::Object(told) && told.dom() =~= set![
            "status"@, "photos"@, "profile"@,
        ] && told["status"@] == JsonView::Number(decimal(status as int)) && told["profile"@]
            == profiles[0] && told["photos"@] == JsonView::Array(photos(profiles[0])))),
        !(member(body, "profiles"@) matches Some(JsonView::Array(profiles)) && profiles.len() > 0)
            ==> (profile_view(status, body) matches JsonView::Object(told) && told.dom() =~= set![
            "status"@, "body"@,
        ] && told["status"@] == JsonView::Number(decimal(status as int)) && told["body"@] == body),
{
    lemma_profile_names();
}

/// A response is told with its status and its body.
pub proof fn a_response_is_told(status: u16, body: JsonView)
    ensures
        status_and_body(status, body) matches JsonView::Object(told) && told.dom() =~= set![
            "status"@, "body"@,
        ] && told["status"@] == JsonView::Number(decimal(status as int)) && told["body"@] == body,
{
    lemma_profile_names();
}

/// The members of a message have different names.
proof fn lemma_message_names()
    ensures
        "type"@ != "target"@,
        "type"@ != "body"@,
        "type"@ != "targetId"@,
        "type"@ != "text"@,
        "target"@ != "body"@,
        "target"@ != "targetId"@,
        "target"@ != "text"@,
        "body"@ != "targetId"@,
        "body"@ != "text"@,
        "targetId"@ != "text"@,
{
    reveal_strlit("type");
    reveal_strlit("target");
    reveal_strlit("body");
    reveal_strlit("targetId");
    reveal_strlit("text");
    assert("type"@[0] != "body"@[0]);
    assert("type"@[1] != "text"@[1]);
    assert("body"@[0] != "text"@[0]);
    assert("type"@.len() == 4);
    assert("target"@.len() == 6);
    assert("body"@.len() == 4);
    assert("targetId"@.len() == 8);
    assert("text"@.len() == 4);
}

/// The members of the result of a message have different names.
proof fn lemma_message_result_names()
    ensures
        "sent"@ != "recipient"@,
        "sent"@ != "ack"@,
        "recipient"@ != "ack"@,
{
    reveal_strlit("sent");
    reveal_strlit("recipient");
    reveal_strlit("ack");
    assert("sent"@.len() == 4);
    assert("recipient"@.len() == 9);
    assert("ack"@.len() == 3);
}

/// A message goes to the number that the profile id stands for, with the text that is given;
/// the profile id has to be a number, the text must not be empty, and the number has to fit.
pub proof fn a_message_is_made(profile_id: Seq<char>, text: Seq<char>)
    ensures
        is_numeric(profile_id) && text.len() > 0 && numeric_value(profile_id)
            <= 9223372036854775807 ==> ({
            &&& message_to(profile_id, text) matches Ok(JsonView::Object(payload))
            &&& payload.dom() =~= set!["type"@, "target"@, "body"@]
            &&& payload["type"@] == JsonView::Str("Text"@)
            &&& payload["target"@] matches JsonView::Object(target)
            &&& target.dom() =~= set!["type"@, "targetId"@]
            &&& target["type"@] == JsonView::Str("Direct"@)
            &&& target["targetId"@] == JsonView::Number(decimal(numeric_value(profile_id)))
            &&& payload["body"@] matches JsonView::Object(body)
            &&& body.dom() =~= set!["text"@]
            &&& body["text"@] == JsonView::Str(text)
        }),
        !is_numeric(profile_id) ==> message_to(profile_id, text) == Err::<JsonView, _>(
            ToolErrorView::InvalidParams(
                "profile_id must be a numeric id, got "@ + quoted(profile_id),
            ),
        ),
        is_numeric(profile_id) && text.len() == 0 ==> message_to(profile_id, text) == Err::<
            JsonView,
            _,
        >(ToolErrorView::InvalidParams("text must not be empty"@)),
        is_numeric(profile_id) && text.len() > 0 && numeric_value(profile_id) > 9223372036854775807
            ==> message_to(profile_id, text) == Err::<JsonView, _>(
            ToolErrorView::InvalidParams("profile_id is out of range"@),
        ),
{
    lemma_message_names();
}

/// A message that was sent is told with its recipient and the answer of the server.
pub proof fn a_sent_message_is_told(profile_id: Seq<char>, ack: JsonView)
    ensures
        message_view(profile_id, ack) matches JsonView::Object(told) && told.dom() =~= set![
            "sent"@, "recipient"@, "ack"@,
        ] && told["sent"@] == JsonView::Bool(true) && told["recipient"@] == JsonView::Str(
            profile_id,
        ) && told["ack"@] == ack,
{
    lemma_message_result_names();
}

/// The members of a session have different names.
proof fn lemma_session_names()
    ensures
        "logged_in"@ != "email"@,
        "logged_in"@ != "profile_id"@,
        "logged_in"@ != "expires_at"@,
        "logged_in"@ != "kind"@,
        "email"@ != "profile_id"@,
        "email"@ != "expires_at"@,
        "email"@ != "kind"@,
        "profile_id"@ != "expires_at"@,
        "profile_id"@ != "kind"@,
        "expires_at"@ != "kind"@,
{
    reveal_strlit("logged_in");
    reveal_strlit("email");
    reveal_strlit("profile_id");
    reveal_strlit("expires_at");
    reveal_strlit("kind");
    assert("profile_id"@[0] != "expires_at"@[0]);
    assert("logged_in"@.len() == 9);
    assert("email"@.len() == 5);
    assert("profile_id"@.len() == 10);
    assert("expires_at"@.len() == 10);
    assert("kind"@.len() == 4);
}

/// The members of a device have different names.
proof fn lemma_device_names()
    ensures
        "model"@ != "manufacturer"@,
        "model"@ != "os"@,
        "model"@ != "timezone"@,
        "manufacturer"@ != "os"@,
        "manufacturer"@ != "timezone"@,
        "os"@ != "timezone"@,
{
    reveal_strlit("model");
    reveal_strlit("manufacturer");
    reveal_strlit("os");
    reveal_strlit("timezone");
    assert("model"@.len() == 5);
    assert("manufacturer"@.len() == 12);
    assert("os"@.len() == 2);
    assert("timezone"@.len() == 8);
}

/// The members of the status have different names.
proof fn lemma_status_names()
    ensures
        "session"@ != "device"@,
        "session"@ != "state_file"@,
        "device"@ != "state_file"@,
{
    reveal_strlit("session");
    reveal_strlit("device");
    reveal_strlit("state_file");
    assert("session"@.len() == 7);
    assert("device"@.len() == 6);
    assert("state_file"@.len() == 10);
}

/// A login is told with the profile id and the email, and a logout with nothing.
pub proof fn a_login_is_told(profile_id: Seq<char>, email: Seq<char>)
    ensures
        login_view(profile_id, email) matches JsonView::Object(told) && told.dom() =~= set![
            "logged_in"@, "profile_id"@, "email"@,
        ] && told["logged_in"@] == JsonView::Bool(true) && told["profile_id"@] == JsonView::Str(
            profile_id,
        ) && told["email"@] == JsonView::Str(email),
        logged_out() matches JsonView::Object(told) && told.dom() =~= set!["logged_in"@]
            && told["logged_in"@] == JsonView::Bool(false),
{
    lemma_session_names();
}

/// The status tells the session, each part of it under its own name and what it lacks as
/// null, or that there is none; the device, each part under its own name; and the file.
pub proof fn the_status_is_told(
    session: Option<SessionInfo>,
    device: DeviceSummary,
    state_file: Seq<char>,
)
    ensures
        ({
            &&& status_view(session, device, state_file) matches JsonView::Object(told)
            &&& told.dom() =~= set!["session"@, "device"@, "state_file"@]
            &&& told["state_file"@] == JsonView::Str(state_file)
            &&& told["device"@] matches JsonView::Object(shown)
            &&& shown.dom() =~= set!["model"@, "manufacturer"@, "os"@, "timezone"@]
            &&& shown["model"@] == JsonView::Str(device.model@)
            &&& shown["manufacturer"@] == JsonView::Str(device.manufacturer@)
            &&& shown["os"@] == JsonView::Str(device.os@)
            &&& shown["timezone"@] == JsonView::Str(device.timezone@)
            &&& told["session"@] matches JsonView::Object(active)
            &&& session is None ==> active.dom() =~= set!["logged_in"@] && active["logged_in"@]
                == JsonView::Bool(false)
            &&& session matches Some(s) ==> active.dom() =~= set![
                "logged_in"@, "email"@, "profile_id"@, "expires_at"@, "kind"@,
            ] && active["logged_in"@] == JsonView::Bool(true) && active["email"@] == JsonView::Str(
                s.email@,
            ) && active["kind"@] == JsonView::Str(s.kind@)
            &&& session matches Some(s) ==> (s.profile_id matches Some(id) ==> active[
                "profile_id"@] == JsonView::Str(id@))
            &&& session matches Some(s) ==> (s.profile_id is None ==> active["profile_id"@]
                == JsonView::Null)
            &&& session matches Some(s) ==> (s.expires_at matches Some(time) ==> active[
                "expires_at"@] == JsonView::Number(decimal(time as int)))
            &&& session matches Some(s) ==> (s.expires_at is None ==> active["expires_at"@]
                == JsonView::Null)
        }),
{
    lemma_session_names();
    lemma_device_names();
    lemma_status_names();
}

/// A generic request is for the path and with the body that are given, by the method that is
/// given in capitals.
pub proof fn a_request_is_passed_on(args: RequestArgs)
    ensures
        request_asked_for(args).method == uppercase(args.method@),
        request_asked_for(args).path == args.path@,
        args.body matches Some(body) ==> request_asked_for(args).body == Some(body@),
        args.body is None ==> request_asked_for(args).body is None,
{
}

/// The members of a list of endpoints have different names.
proof fn lemma_list_names()
    ensures
        "count"@ != "endpoints"@,
{
    reveal_strlit("count");
    reveal_strlit("endpoints");
    assert("count"@.len() == 5);
    assert("endpoints"@.len() == 9);
}

/// A list of endpoints is told with as many endpoints as it counts.
pub proof fn endpoints_are_counted(
    doc: JsonView,
    tag: Option<Seq<char>>,
    search: Option<Seq<char>>,
)
    ensures
        endpoints_view(doc, tag, search) matches JsonView::Object(told) && told.dom() =~= set![
            "count"@, "endpoints"@,
        ] && told["endpoints"@] == JsonView::Array(listing(doc, tag, search)) && told["count"@]
            == JsonView::Number(decimal(listing(doc, tag, search).len() as int)),
{
    lemma_list_names();
}

/// A login that failed is told with its reason.
pub proof fn a_failed_login_is_told(reason: &str, r: ToolError)
    requires
        call_ensures(login_failed, (reason,), r),
    ensures
        r@ == ToolErrorView::Internal("login failed: "@ + reason@),
{
}

/// The tags of a document are told in their order, and none where it has no tags.
pub proof fn the_tags_are_told(doc: &Json, r: Json)
    requires
        call_ensures(tags_result, (doc,), r),
    ensures
        r@ matches JsonView::Object(told) && told.dom() =~= set!["tags"@] && told["tags"@] == (
        if let Some(JsonView::Array(tags)) = member(doc@, "tags"@) {
            JsonView::Array(tags)
        } else {
            JsonView::Array(Seq::empty())
        }),
{
}

/// The pictures begin with the one that the profile names as its image, where the name is not
/// empty. Each further picture is the first among the medias with its hash: the hashes of all
/// medias before it come before it.
pub proof fn the_photos_are_in_order(profile: JsonView, k: int)
    requires
        0 <= k < media_hashes(profile).len(),
    ensures
        ({
            let hashes = media_hashes(profile);
            let named = member(profile, "profileImageMediaHash"@);
            let main = named matches Some(JsonView::Str(hash)) && hash.len() > 0;
            &&& main ==> named == Some(JsonView::Str(hashes[0]))
            &&& k > 0 || !main ==> ({
                &&& member(profile, "medias"@) matches Some(JsonView::Array(medias))
                &&& exists|i: int|
                    0 <= i < medias.len() && member(#[trigger] medias[i], "mediaHash"@) == Some(
                        JsonView::Str(hashes[k]),
                    ) && forall|j: int|
                        0 <= j < i ==> (member(#[trigger] medias[j], "mediaHash"@) matches Some(
                            JsonView::Str(hash),
                        ) ==> hashes.take(k).contains(hash))
            })
        }),
{
    let first = main_hash(profile);
    let medias = or_else(array_member(profile, "medias"@), Seq::empty());
    if first.len() > 0 {
        the_main_photo_comes_first(profile, first[0]);
    }
    if k >= first.len() {
        lemma_hash_order(first, medias, k);
        let hashes = media_hashes(profile);
        let i = choose|i: int|
            0 <= i < medias.len() && text_member(#[trigger] medias[i], "mediaHash"@) == Some(
                hashes[k],
            ) && forall|j: int|
                0 <= j < i ==> (text_member(#[trigger] medias[j], "mediaHash"@) matches Some(hash)
                    ==> hashes.take(k).contains(hash));
        assert(member(medias[i], "mediaHash"@) == Some(JsonView::Str(hashes[k])));
        assert forall|j: int| 0 <= j < i implies (member(
            #[trigger] medias[j],
            "mediaHash"@,
        ) matches Some(JsonView::Str(hash)) ==> hashes.take(k).contains(hash)) by {
            if let Some(JsonView::Str(hash)) = member(medias[j], "mediaHash"@) {
                assert(text_member(medias[j], "mediaHash"@) == Some(hash));
            }
        }
    }
}

proof fn lemma_hash_order(first: Seq<Seq<char>>, medias: Seq<JsonView>, k: int)
    requires
        first.len() <= k < with_hashes(first, medias).len(),
    ensures
        ({
            let hashes = with_hashes(first, medias);
            exists|i: int|
                0 <= i < medias.len() && text_member(#[trigger] medias[i], "mediaHash"@) == Some(
                    hashes[k],
                ) && forall|j: int|
                    0 <= j < i ==> (text_member(#[trigger] medias[j], "mediaHash"@) matches Some(
                        hash,
                    ) ==> hashes.take(k).contains(hash))
        }),
        first.is_prefix_of(with_hashes(first, medias)),
    decreases medias.len(),
{
    let fewer = medias.drop_last();
    let before = with_hashes(first, fewer);
    let hashes = with_hashes(first, medias);
    lemma_first_stays(first, medias);
    if k < before.len() {
        lemma_hash_order(first, fewer, k);
        let i = choose|i: int|
            0 <= i < fewer.len() && text_member(#[trigger] fewer[i], "mediaHash"@) == Some(
                before[k],
            ) && forall|j: int|
                0 <= j < i ==> (text_member(#[trigger] fewer[j], "mediaHash"@) matches Some(hash)
                    ==> before.take(k).contains(hash));
        assert(hashes.take(k) =~= before.take(k));
        assert(medias[i] == fewer[i]);
        assert forall|j: int| 0 <= j < i implies (text_member(
            #[trigger] medias[j],
            "mediaHash"@,
        ) matches Some(hash) ==> hashes.take(k).contains(hash)) by {
            assert(medias[j] == fewer[j]);
        }
    } else {
        let i = medias.len() - 1;
        assert(text_member(medias[i], "mediaHash"@) == Some(hashes[k]));
        assert(hashes.take(k) =~= before);
        assert forall|j: int| 0 <= j < i implies (text_member(
            #[trigger] medias[j],
            "mediaHash"@,
        ) matches Some(hash) ==> hashes.take(k).contains(hash)) by {
            assert(medias[j] == fewer[j]);
            lemma_hashes_are_kept(first, fewer, j);
        }
    }
}

proof fn lemma_first_stays(first: Seq<Seq<char>>, medias: Seq<JsonView>)
    ensures
        first.is_prefix_of(with_hashes(first, medias)),
    decreases medias.len(),
{
    if medias.len() > 0 {
        lemma_first_stays(first, medias.drop_last());
    }
}

proof fn lemma_hashes_are_kept(first: Seq<Seq<char>>, medias: Seq<JsonView>, j: int)
    requires
        0 <= j < medias.len(),
    ensures
        text_member(medias[j], "mediaHash"@) matches Some(hash) ==> with_hashes(
            first,
            medias,
        ).contains(hash),
    decreases medias.len(),
{
    let before = with_hashes(first, medias.drop_last());
    let all = with_hashes(first, medias);
    if let Some(hash) = text_member(medias[j], "mediaHash"@) {
        if j < medias.len() - 1 {
            lemma_hashes_are_kept(first, medias.drop_last(), j);
            let k = choose|k: int| 0 <= k < before.len() && before[k] == hash;
            assert(all[k] == hash);
        } else if !before.contains(hash) {
            assert(all[all.len() - 1] == hash);
        }
    }
}

/// Every picture that the profile names, by its image or among its medias, is linked, and
/// none twice.
pub proof fn every_hash_is_linked(profile: JsonView, i: int, hash: Seq<char>)
    ensures
        member(profile, "profileImageMediaHash"@) == Some(JsonView::Str(hash)) && hash.len() > 0
            ==> media_hashes(profile).contains(hash),
        member(profile, "medias"@) matches Some(JsonView::Array(medias)) ==> (0 <= i < medias.len()
            && member(medias[i], "mediaHash"@) == Some(JsonView::Str(hash)) ==> media_hashes(
            profile,
        ).contains(hash)),
        !(member(profile, "profileImageMediaHash"@) matches Some(JsonView::Str(main)) && main.len()
            > 0) && !(member(profile, "medias"@) matches Some(JsonView::Array(medias)))
            ==> media_hashes(profile) == Seq::<Seq<char>>::empty(),
        media_hashes(profile).no_duplicates(),
{
    no_photo_is_linked_twice(profile);
    if member(profile, "profileImageMediaHash"@) == Some(JsonView::Str(hash)) && hash.len() > 0 {
        the_main_photo_comes_first(profile, hash);
    }
    if let Some(JsonView::Array(medias)) = member(profile, "medias"@) {
        if 0 <= i < medias.len() && member(medias[i], "mediaHash"@) == Some(JsonView::Str(hash)) {
            every_photo_is_linked(profile, i, hash);
        }
    }
}

/// A message is sent as the command `chat.v1.message.send`.
pub proof fn a_message_has_its_command()
    ensures
        SEND_MESSAGE@ == "chat.v1.message.send"@,
{
}

/// The tools ask for what holds of their requests.
pub proof fn requests_are_told(
    inbox: &ListConversationsArgs,
    messages: &GetMessagesArgs,
    grid: &BrowseGridArgs,
    asked: RequestArgs,
    text: &str,
    r: ApiRequest,
    tried: Result<ApiRequest, ToolError>,
)
    ensures
        call_ensures(list_conversations, (inbox,), r) ==> r@ == inbox_request(*inbox),
        call_ensures(browse_grid, (text, grid), r) ==> r@ == grid_request(text@, *grid),
        call_ensures(update_location, (text,), r) ==> r@ == location_request(text@),
        call_ensures(request, (asked,), r) ==> r@ == request_asked_for(asked),
        call_ensures(get_messages, (messages,), tried) ==> (tried matches Ok(made)
            ==> messages_asked_for(*messages) == Ok::<_, ToolErrorView>(made@)),
        call_ensures(get_messages, (messages,), tried) ==> (tried matches Err(e)
            ==> messages_asked_for(*messages) == Err::<RequestView, _>(e@)),
        call_ensures(get_profile, (text,), tried) ==> (tried matches Ok(made) ==> profile_request(
            text@,
        ) == Ok::<_, ToolErrorView>(made@)),
        call_ensures(get_profile, (text,), tried) ==> (tried matches Err(e) ==> profile_request(
            text@,
        ) == Err::<RequestView, _>(e@)),
{
}

/// The tools answer with what holds of their results.
pub proof fn answers_are_told(
    status: u16,
    text: &str,
    other: &str,
    saved: bool,
    body: Json,
    doc: &Json,
    tag: Option<&str>,
    search: Option<&str>,
    r: Json,
)
    ensures
        call_ensures(location_result, (status, text, saved, body), r) ==> r@ == location_view(
            status,
            text@,
            saved,
            body@,
        ),
        call_ensures(is_to_be_pinned, (status,), saved) ==> saved == (200 <= status && status
            <= 299),
        call_ensures(profile_result, (status, body), r) ==> r@ == profile_view(status, body@),
        call_ensures(response_result, (status, body), r) ==> r@ == status_and_body(status, body@),
        call_ensures(message_result, (text, body), r) ==> r@ == message_view(text@, body@),
        call_ensures(login_result, (text, other), r) ==> r@ == login_view(text@, other@),
        call_ensures(logout_result, (), r) ==> r@ == logged_out(),
        call_ensures(endpoints_result, (doc, tag, search), r) ==> r@ == endpoints_view(
            doc@,
            text_of(tag),
            text_of(search),
        ),
{
}

/// The status and the message are told by what holds of them.
pub proof fn messages_and_status_are_told(
    session: Option<SessionInfo>,
    device: DeviceSummary,
    file: String,
    r: Json,
    profile_id: &str,
    text: &str,
    made: Result<Json, ToolError>,
    links: Vec<Json>,
    profile: &Json,
)
    ensures
        call_ensures(session_status, (session, device, file), r) ==> r@ == status_view(
            session,
            device,
            file@,
        ),
        call_ensures(send_message, (profile_id, text), made) ==> (made matches Ok(payload)
            ==> message_to(profile_id@, text@) == Ok::<_, ToolErrorView>(payload@)),
        call_ensures(send_message, (profile_id, text), made) ==> (made matches Err(e)
            ==> message_to(profile_id@, text@) == Err::<JsonView, _>(e@)),
        call_ensures(photo_links, (profile,), links) ==> links@.map_values(|link: Json| link@)
            == photos(profile@),
{
    if call_ensures(photo_links, (profile,), links) {
        assert(links@.map_values(|link: Json| link@) =~= trees(links@));
    }
}

/// A location is resolved to what holds of it, and the pinned one is looked up exactly where
/// neither a geohash nor both coordinates are given.
pub proof fn locations_are_told(
    location: &LocationArgs,
    pinned: Option<String>,
    r: Result<String, ToolError>,
    looked_up: bool,
)
    ensures
        call_ensures(resolve_geohash, (location, pinned), r) ==> (r matches Ok(geohash)
            ==> chosen_geohash(*location, string_of(pinned)) == Ok::<_, ToolErrorView>(geohash@)),
        call_ensures(resolve_geohash, (location, pinned), r) ==> (r matches Err(e)
            ==> chosen_geohash(*location, string_of(pinned)) == Err::<Seq<char>, _>(e@)),
        call_ensures(needs_pinned, (location,), looked_up) ==> looked_up == (location.geohash
            is None && (location.latitude is None || location.longitude is None)),
{
}

/// A path that is not described is an error that tells the path and the method, both quoted,
/// and a method that is none is an error that tells why.
pub proof fn refusals_are_told(
    doc: &Json,
    path: &str,
    method: Option<&str>,
    reason: &str,
    r: Result<Json, ToolError>,
    e: ToolError,
)
    ensures
        call_ensures(description_result, (doc, path, method), r) ==> (description(
            doc@,
            path@,
            text_of(method),
        ) matches Some(said) ==> r matches Ok(v) && v@ == said),
        call_ensures(description_result, (doc, path, method), r) && description(
            doc@,
            path@,
            text_of(method),
        ) is None ==> (method matches Some(asked) ==> r matches Err(e) && e@
            == ToolErrorView::InvalidParams(
            "no operation found for path "@ + quoted(path@) + " (method "@ + ("Some("@ + quoted(
                asked@,
            ) + ")"@) + ")"@,
        )),
        call_ensures(description_result, (doc, path, method), r) && description(
            doc@,
            path@,
            text_of(method),
        ) is None && method is None ==> (r matches Err(e) && e@ == ToolErrorView::InvalidParams(
            "no operation found for path "@ + quoted(path@) + " (method "@ + "None"@ + ")"@,
        )),
        call_ensures(invalid_method, (reason,), e) ==> e@ == ToolErrorView::InvalidParams(
            "invalid HTTP method: "@ + reason@,
        ),
{
}

/// The instructions say how the tools are used, and end with the description of the API.
pub proof fn instructions_are_told(info: &Json, r: String)
    requires
        call_ensures(instructions, (info,), r),
    ensures
        r@ == "MCP server for the unofficial Grindr API (transport: grindr.rs, which emulates the Android app's TLS/HTTP2 fingerprint).\n\nWorkflow:\n1. Call grindr_login(email, password) once (or grindr_session_status to check an existing persisted session).\n2. Discover endpoints with grindr_list_tags, grindr_list_endpoints and grindr_describe_endpoint.\n3. Call grindr_request(method, path, body?) to hit any endpoint.\n\nFor educational purposes only; unofficial and not affiliated with Grindr.\n\nBundled spec: "@
            + compact_json(info@),
{
}

}
