//! Tools that each wrap a particular endpoint: the session, messaging, the location,
//! the grid and profiles.
use vstd::prelude::*;
use vstd::utf8::encode_utf8;

use crate::document::compact_json;
use crate::json::{
    array_member, text_member, trees, without_members, Json, JsonObject, JsonView,
};
use crate::openapi::or_else;
use crate::query::{parameter_views, percent_encode, percent_encoded, query_string, query_text};
use crate::reply::{number, refused, response_result, status_and_body, ToolError, ToolErrorView};
use crate::text::{
    all_digits, characters, decimal, decimal_reads_back, in_order, is_among, is_numeric,
    numeric_value, order_is_unique, parse_number, quoted, string_of, texts, to_decimal, to_quoted,
};
use crate::tools::{ApiRequest, RequestView};

verus! {

/// Whether a text is a conversation id: two profile ids joined by `:`.
pub open spec fn is_conversation_id(id: Seq<char>) -> bool {
    exists|i: int| #[trigger] parts_at(id, i)
}

/// Whether a text is two numbers around a `:` at place `i`.
pub open spec fn parts_at(id: Seq<char>, i: int) -> bool {
    &&& 0 <= i < id.len()
    &&& id[i] == ':'
    &&& is_numeric(id.take(i))
    &&& is_numeric(id.skip(i + 1))
}

/// Whether `id` is `<digits>:<digits>`. Validating it keeps caller mistakes from
/// being pasted straight into the request path.
pub fn is_valid_conversation_id(id: &str) -> (r: bool)
    ensures
        r == is_conversation_id(id@),
{
    let cs = characters(id);
    let mut i: usize = 0;
    while i < cs.len() && '0' <= cs[i] && cs[i] <= '9'
        invariant
            i <= cs.len(),
            cs@ == id@,
            forall|j: int| 0 <= j < i ==> '0' <= #[trigger] id@[j] && id@[j] <= '9',
        decreases cs.len() - i,
    {
        i += 1;
    }
    let ghost colon = i as int;
    proof {
        assert forall|k: int| parts_at(id@, k) implies k == colon by {
            if k > colon {
                assert(id@.take(k)[colon] == id@[colon]);
            }
        }
    }
    if i == 0 || i == cs.len() || cs[i] != ':' {
        return false;
    }
    i += 1;
    if i == cs.len() {
        return false;
    }
    while i < cs.len()
        invariant
            0 < colon < i <= cs.len(),
            cs@ == id@,
            forall|k: int| parts_at(id@, k) ==> k == colon,
            forall|j: int| colon < j < i ==> '0' <= #[trigger] id@[j] && id@[j] <= '9',
        decreases cs.len() - i,
    {
        if !('0' <= cs[i] && cs[i] <= '9') {
            proof {
                if parts_at(id@, colon) {
                    assert(id@.skip(colon + 1)[i - colon - 1] == id@[i as int]);
                }
            }
            return false;
        }
        i += 1;
    }
    assert(parts_at(id@, colon));
    true
}

/// The arguments for a list of conversations.
#[derive(Debug, PartialEq)]
pub struct ListConversationsArgs {
    /// 1-based page number for pagination. Defaults to 1.
    pub page: Option<u32>,
    /// Only return conversations with unread messages.
    pub unread_only: Option<bool>,
    /// Only return conversations with favorited profiles.
    pub favorites_only: Option<bool>,
    /// Only return conversations whose participant is online now.
    pub online_now_only: Option<bool>,
    /// Only return conversations whose participant is "Right Now" active.
    pub right_now_only: Option<bool>,
}

/// Whether a filter is asked for.
pub open spec fn is_set(flag: Option<bool>) -> bool {
    flag == Some(true)
}

/// The body of the request for a list of conversations. The endpoint requires all
/// of these fields.
pub open spec fn inbox_filter(args: ListConversationsArgs) -> JsonView {
    JsonView::Object(
        without_members().insert("unreadOnly"@, JsonView::Bool(is_set(args.unread_only))).insert(
            "favoritesOnly"@,
            JsonView::Bool(is_set(args.favorites_only)),
        ).insert("onlineNowOnly"@, JsonView::Bool(is_set(args.online_now_only))).insert(
            "rightNowOnly"@,
            JsonView::Bool(is_set(args.right_now_only)),
        ).insert("chemistryOnly"@, JsonView::Bool(false)).insert(
            "distanceMeters"@,
            JsonView::Null,
        ).insert("positions"@, JsonView::Array(Seq::empty())),
    )
}

fn flag(value: Option<bool>) -> (r: Json)
    ensures
        r@ == JsonView::Bool(is_set(value)),
{
    match value {
        Some(b) => Json::Bool(b),
        None => Json::Bool(false),
    }
}

/// The request for a list of conversations.
pub open spec fn inbox_request(args: ListConversationsArgs) -> RequestView {
    RequestView {
        method: "POST"@,
        path: "/v4/inbox?page="@ + decimal(or_else(args.page, 1) as int),
        body: Some(inbox_filter(args)),
    }
}

/// The request for a list of conversations.
pub fn list_conversations(args: &ListConversationsArgs) -> (r: ApiRequest)
    ensures
        r@ == inbox_request(*args),
{
    let mut body = JsonObject::new();
    body.insert("unreadOnly".to_owned(), flag(args.unread_only));
    body.insert("favoritesOnly".to_owned(), flag(args.favorites_only));
    body.insert("onlineNowOnly".to_owned(), flag(args.online_now_only));
    body.insert("rightNowOnly".to_owned(), flag(args.right_now_only));
    body.insert("chemistryOnly".to_owned(), Json::Bool(false));
    body.insert("distanceMeters".to_owned(), Json::Null);
    let positions = Json::Array(Vec::new());
    assert(positions@->Array_0 =~= Seq::empty());
    body.insert("positions".to_owned(), positions);
    let page: u32 = match args.page {
        Some(page) => page,
        None => 1,
    };
    ApiRequest {
        method: "POST".to_owned(),
        path: "/v4/inbox?page=".to_owned().concat(to_decimal(page as i64).as_str()),
        body: Some(Json::Object(body)),
    }
}

/// The arguments for the messages in a conversation.
#[derive(Debug, PartialEq)]
pub struct GetMessagesArgs {
    /// Conversation id: two profile ids joined by ':'.
    pub conversation_id: String,
    /// Optional pagination cursor: return messages with ids before this value.
    pub page_key: Option<String>,
    /// Optional: include the other participant's profile in the response.
    pub include_profile: Option<bool>,
}

/// The query of the request for messages.
pub open spec fn messages_query(page_key: Option<Seq<char>>, profile: bool) -> Seq<char> {
    match page_key {
        Some(key) => "?pageKey="@ + percent_encoded(encode_utf8(key)) + if profile {
            "&profile=true"@
        } else {
            Seq::empty()
        },
        None => if profile {
            "?profile=true"@
        } else {
            Seq::empty()
        },
    }
}

/// The request for the messages in a conversation; it is an error where the
/// conversation id is none.
pub open spec fn messages_request(
    conversation_id: Seq<char>,
    page_key: Option<Seq<char>>,
    profile: bool,
) -> Result<RequestView, ToolErrorView> {
    if is_conversation_id(conversation_id) {
        Ok(
            RequestView {
                method: "GET"@,
                path: "/v5/chat/conversation/"@ + conversation_id + "/message"@ + messages_query(
                    page_key,
                    profile,
                ),
                body: None,
            },
        )
    } else {
        Err(
            ToolErrorView::InvalidParams(
                "conversation_id must be two numeric profile ids joined by ':' (e.g. \"12345678:23456789\"), got "@
                    + quoted(conversation_id),
            ),
        )
    }
}

/// What is said by a request or by the error in its place.
pub open spec fn request_view(r: Result<ApiRequest, ToolError>) -> Result<
    RequestView,
    ToolErrorView,
> {
    match r {
        Ok(request) => Ok(request@),
        Err(e) => Err(e@),
    }
}

/// The request for the messages that the arguments ask for.
pub open spec fn messages_asked_for(args: GetMessagesArgs) -> Result<RequestView, ToolErrorView> {
    messages_request(
        args.conversation_id@,
        string_of(args.page_key),
        is_set(args.include_profile),
    )
}

/// The request for the messages in a conversation.
pub fn get_messages(args: &GetMessagesArgs) -> (r: Result<ApiRequest, ToolError>)
    ensures
        request_view(r) == messages_asked_for(*args),
{
    if !is_valid_conversation_id(args.conversation_id.as_str()) {
        return Err(
            refused(
                "conversation_id must be two numeric profile ids joined by ':' (e.g. \"12345678:23456789\"), got ",
                to_quoted(args.conversation_id.as_str()).as_str(),
            ),
        );
    }
    let profile = match args.include_profile {
        Some(b) => b,
        None => false,
    };
    let mut path = "/v5/chat/conversation/".to_owned();
    path.append(args.conversation_id.as_str());
    path.append("/message");
    let ghost before = path@;
    if let Some(key) = &args.page_key {
        path.append("?pageKey=");
        path.append(percent_encode(key.as_str()).as_str());
        if profile {
            path.append("&profile=true");
        }
    } else if profile {
        path.append("?profile=true");
    }
    assert(path@ =~= before + messages_query(string_of(args.page_key), profile));
    Ok(ApiRequest { method: "GET".to_owned(), path, body: None })
}

/// The request that sets the location that a profile broadcasts.
pub open spec fn location_request(geohash: Seq<char>) -> RequestView {
    RequestView {
        method: "PUT"@,
        path: "/v4/location"@,
        body: Some(
            JsonView::Object(without_members().insert("geohash"@, JsonView::Str(geohash))),
        ),
    }
}

/// The request that sets the location that a profile broadcasts.
pub fn update_location(geohash: &str) -> (r: ApiRequest)
    ensures
        r@ == location_request(geohash@),
{
    let mut body = JsonObject::new();
    body.insert("geohash".to_owned(), Json::Str(geohash.to_owned()));
    ApiRequest {
        method: "PUT".to_owned(),
        path: "/v4/location".to_owned(),
        body: Some(Json::Object(body)),
    }
}

/// Whether a status says that a request succeeded.
pub open spec fn is_success(status: u16) -> bool {
    200 <= status < 300
}

/// Whether a location is to be pinned after the request that set it: only where the
/// request succeeded.
pub fn is_to_be_pinned(status: u16) -> (r: bool)
    ensures
        r == is_success(status),
{
    200 <= status && status < 300
}

/// The result of setting the location.
pub open spec fn location_view(
    status: u16,
    geohash: Seq<char>,
    saved: bool,
    body: JsonView,
) -> JsonView {
    JsonView::Object(
        without_members().insert("status"@, number(status as int)).insert(
            "geohash"@,
            JsonView::Str(geohash),
        ).insert("pinned"@, JsonView::Bool(is_success(status) && saved)).insert("body"@, body),
    )
}

/// The result of setting the location; `saved` says whether the location was saved as
/// the pinned one.
pub fn location_result(status: u16, geohash: &str, saved: bool, body: Json) -> (r: Json)
    ensures
        r@ == location_view(status, geohash@, saved, body@),
{
    let mut out = JsonObject::new();
    out.insert("status".to_owned(), Json::unsigned(status as u64));
    out.insert("geohash".to_owned(), Json::Str(geohash.to_owned()));
    out.insert("pinned".to_owned(), Json::Bool(is_to_be_pinned(status) && saved));
    out.insert("body".to_owned(), body);
    Json::Object(out)
}

/// The arguments for a look at the grid, besides the location.
#[derive(Debug, PartialEq)]
pub struct BrowseGridArgs {
    /// 1-based page number.
    pub page: Option<i64>,
    /// Only show profiles that have a public photo.
    pub photo_only: Option<bool>,
    /// Only show profiles whose primary photo shows a face.
    pub face_only: Option<bool>,
    /// Only show profiles online now.
    pub online_only: Option<bool>,
    /// Only show recently active / fresh profiles.
    pub fresh: Option<bool>,
    /// Minimum age filter.
    pub age_min: Option<i64>,
    /// Maximum age filter.
    pub age_max: Option<i64>,
    /// Any additional query parameters.
    pub filters: Option<JsonObject>,
}

/// The parameter for a filter that is on, off, or not given.
pub open spec fn bool_parameter(name: Seq<char>, value: Option<bool>) -> Seq<
    (Seq<char>, Seq<char>),
> {
    match value {
        Some(b) => seq![
            (
                name,
                if b {
                    "true"@
                } else {
                    "false"@
                },
            ),
        ],
        None => Seq::empty(),
    }
}

/// The parameter for a number, where it is given.
pub open spec fn number_parameter(name: Seq<char>, value: Option<i64>) -> Seq<
    (Seq<char>, Seq<char>),
> {
    match value {
        Some(n) => seq![(name, decimal(n as int))],
        None => Seq::empty(),
    }
}

/// The text of a filter: a string is itself, and anything else its JSON text.
pub open spec fn filter_text(value: JsonView) -> Seq<char> {
    match value {
        JsonView::Str(s) => s,
        other => compact_json(other),
    }
}

/// The parameters for additional filters, in the order of their names.
pub open spec fn filter_parameters(filters: Map<Seq<char>, JsonView>) -> Seq<
    (Seq<char>, Seq<char>),
> {
    in_order(filters.dom()).map_values(|name: Seq<char>| (name, filter_text(filters[name])))
}

/// The parameters for a look at the grid.
pub open spec fn grid_parameters(geohash: Seq<char>, args: BrowseGridArgs) -> Seq<
    (Seq<char>, Seq<char>),
> {
    seq![("nearbyGeoHash"@, geohash)] + bool_parameter("photoOnly"@, args.photo_only)
        + bool_parameter("faceOnly"@, args.face_only) + bool_parameter(
        "onlineOnly"@,
        args.online_only,
    ) + bool_parameter("fresh"@, args.fresh) + number_parameter("pageNumber"@, args.page)
        + number_parameter("ageMin"@, args.age_min) + number_parameter("ageMax"@, args.age_max)
        + filter_parameters(
        match args.filters {
            Some(filters) => filters@,
            None => without_members(),
        },
    )
}

fn push_parameter(query: &mut Vec<(String, String)>, name: &str, value: String)
    ensures
        parameter_views(final(query)@) == parameter_views(old(query)@) + seq![(name@, value@)],
{
    query.push((name.to_owned(), value));
    assert(parameter_views(query@) =~= parameter_views(old(query)@) + seq![(name@, value@)]);
}

fn push_bool(query: &mut Vec<(String, String)>, name: &str, value: Option<bool>)
    ensures
        parameter_views(final(query)@) == parameter_views(old(query)@) + bool_parameter(
            name@,
            value,
        ),
{
    match value {
        Some(b) => {
            let text = if b {
                "true"
            } else {
                "false"
            };
            push_parameter(query, name, text.to_owned());
        },
        None => {
            assert(parameter_views(query@) + Seq::empty() =~= parameter_views(query@));
        },
    }
}

fn push_number(query: &mut Vec<(String, String)>, name: &str, value: Option<i64>)
    ensures
        parameter_views(final(query)@) == parameter_views(old(query)@) + number_parameter(
            name@,
            value,
        ),
{
    match value {
        Some(n) => {
            push_parameter(query, name, to_decimal(n));
        },
        None => {
            assert(parameter_views(query@) + Seq::empty() =~= parameter_views(query@));
        },
    }
}

fn push_filters(query: &mut Vec<(String, String)>, filters: &JsonObject)
    ensures
        parameter_views(final(query)@) == parameter_views(old(query)@) + filter_parameters(
            filters@,
        ),
{
    let n = filters.len();
    let ghost all = filter_parameters(filters@);
    let ghost before = parameter_views(query@);
    proof {
        order_is_unique(filters.keys(), in_order(filters@.dom()));
        assert(before + all.take(0) =~= before);
    }
    let mut i: usize = 0;
    while i < n
        invariant
            i <= n,
            n == filters.keys().len(),
            filters.keys() == in_order(filters@.dom()),
            all == filter_parameters(filters@),
            parameter_views(query@) == before + all.take(i as int),
        decreases n - i,
    {
        let name = filters.name(i);
        let value = filters.value(i);
        let text = match value.as_str() {
            Some(s) => s.to_owned(),
            None => value.to_compact(),
        };
        let ghost said = text@;
        push_parameter(query, name.as_str(), text);
        proof {
            assert(all[i as int] == (name@, said));
            assert((before + all.take(i as int)) + seq![(name@, said)] =~= before + all.take(
                i + 1,
            ));
        }
        i += 1;
    }
    assert(all.take(n as int) =~= all);
}

/// The request for a look at the grid around a geohash.
pub open spec fn grid_request(geohash: Seq<char>, args: BrowseGridArgs) -> RequestView {
    RequestView {
        method: "GET"@,
        path: "/v4/cascade?"@ + query_text(grid_parameters(geohash, args)),
        body: None,
    }
}

/// The request for a look at the grid around a geohash.
pub fn browse_grid(geohash: &str, args: &BrowseGridArgs) -> (r: ApiRequest)
    ensures
        r@ == grid_request(geohash@, *args),
{
    let mut query: Vec<(String, String)> = Vec::new();
    assert(parameter_views(query@) + seq![("nearbyGeoHash"@, geohash@)] =~= seq![
        ("nearbyGeoHash"@, geohash@),
    ]);
    push_parameter(&mut query, "nearbyGeoHash", geohash.to_owned());
    push_bool(&mut query, "photoOnly", args.photo_only);
    push_bool(&mut query, "faceOnly", args.face_only);
    push_bool(&mut query, "onlineOnly", args.online_only);
    push_bool(&mut query, "fresh", args.fresh);
    push_number(&mut query, "pageNumber", args.page);
    push_number(&mut query, "ageMin", args.age_min);
    push_number(&mut query, "ageMax", args.age_max);
    match &args.filters {
        Some(filters) => {
            push_filters(&mut query, filters);
        },
        None => {
            push_filters(&mut query, &JsonObject::new());
        },
    }
    ApiRequest {
        method: "GET".to_owned(),
        path: "/v4/cascade?".to_owned().concat(query_string(&query).as_str()),
        body: None,
    }
}

/// The error for a profile id that is none.
pub open spec fn no_profile_id(profile_id: Seq<char>) -> ToolErrorView {
    ToolErrorView::InvalidParams("profile_id must be a numeric id, got "@ + quoted(profile_id))
}

/// The request for a profile; it is an error where the profile id is none.
pub open spec fn profile_request(profile_id: Seq<char>) -> Result<RequestView, ToolErrorView> {
    if is_numeric(profile_id) {
        Ok(RequestView { method: "GET"@, path: "/v7/profiles/"@ + profile_id, body: None })
    } else {
        Err(no_profile_id(profile_id))
    }
}

fn not_a_profile_id(profile_id: &str) -> (r: ToolError)
    ensures
        r@ == no_profile_id(profile_id@),
{
    refused("profile_id must be a numeric id, got ", to_quoted(profile_id).as_str())
}

/// The request for a profile.
pub fn get_profile(profile_id: &str) -> (r: Result<ApiRequest, ToolError>)
    ensures
        request_view(r) == profile_request(profile_id@),
{
    if !all_digits(profile_id) {
        return Err(not_a_profile_id(profile_id));
    }
    Ok(
        ApiRequest {
            method: "GET".to_owned(),
            path: "/v7/profiles/".to_owned().concat(profile_id),
            body: None,
        },
    )
}

/// The hash of the main picture of a profile, where there is one.
pub open spec fn main_hash(profile: JsonView) -> Seq<Seq<char>> {
    match text_member(profile, "profileImageMediaHash"@) {
        Some(hash) => if hash.len() > 0 {
            seq![hash]
        } else {
            Seq::empty()
        },
        None => Seq::empty(),
    }
}

/// Hashes with those of further pictures behind them, each hash once.
pub open spec fn with_hashes(first: Seq<Seq<char>>, medias: Seq<JsonView>) -> Seq<Seq<char>>
    decreases medias.len(),
{
    if medias.len() == 0 {
        first
    } else {
        let before = with_hashes(first, medias.drop_last());
        match text_member(medias.last(), "mediaHash"@) {
            Some(hash) => if before.contains(hash) {
                before
            } else {
                before.push(hash)
            },
            None => before,
        }
    }
}

/// The hashes of the pictures of a profile: that of the main one, and then those of
/// the others in their order, each hash once.
pub open spec fn media_hashes(profile: JsonView) -> Seq<Seq<char>> {
    with_hashes(main_hash(profile), or_else(array_member(profile, "medias"@), Seq::empty()))
}

/// The links to a picture: in full size, and as a thumbnail.
pub open spec fn photo(hash: Seq<char>) -> JsonView {
    JsonView::Object(
        without_members().insert("mediaHash"@, JsonView::Str(hash)).insert(
            "full"@,
            JsonView::Str("https://cdns.grindr.com/images/profile"@ + "/1024x1024/"@ + hash),
        ).insert(
            "thumb"@,
            JsonView::Str("https://cdns.grindr.com/images/profile"@ + "/320x320/"@ + hash),
        ),
    )
}

/// The links to the pictures of a profile.
pub open spec fn photos(profile: JsonView) -> Seq<JsonView> {
    media_hashes(profile).map_values(|hash: Seq<char>| photo(hash))
}

fn photo_link(hash: &str) -> (r: Json)
    ensures
        r@ == photo(hash@),
{
    let mut full = "https://cdns.grindr.com/images/profile".to_owned();
    full.append("/1024x1024/");
    full.append(hash);
    let mut thumb = "https://cdns.grindr.com/images/profile".to_owned();
    thumb.append("/320x320/");
    thumb.append(hash);
    let mut out = JsonObject::new();
    out.insert("mediaHash".to_owned(), Json::Str(hash.to_owned()));
    out.insert("full".to_owned(), Json::Str(full));
    out.insert("thumb".to_owned(), Json::Str(thumb));
    Json::Object(out)
}

/// Builds picture links for a profile from its media hashes. Each photo gets a
/// full-size and a thumbnail URL on the public image CDN.
pub fn photo_links(profile: &Json) -> (r: Vec<Json>)
    ensures
        trees(r@) == photos(profile@),
{
    let mut hashes: Vec<String> = Vec::new();
    if let Some(hash) = profile.text("profileImageMediaHash") {
        if !hash.is_empty() {
            hashes.push(hash.to_owned());
        }
    }
    assert(texts(hashes@) =~= main_hash(profile@));
    if let Some(medias) = profile.array("medias") {
        let mut i: usize = 0;
        let ghost all = trees(medias@);
        assert(all.take(0) =~= Seq::empty());
        while i < medias.len()
            invariant
                i <= medias.len(),
                all == trees(medias@),
                texts(hashes@) == with_hashes(main_hash(profile@), all.take(i as int)),
            decreases medias.len() - i,
        {
            assert(all.take(i + 1).drop_last() =~= all.take(i as int));
            if let Some(hash) = medias[i].text("mediaHash") {
                if !is_among(&hashes, hash) {
                    let ghost before = texts(hashes@);
                    hashes.push(hash.to_owned());
                    assert(texts(hashes@) =~= before.push(hash@));
                }
            }
            i += 1;
        }
        assert(all.take(i as int) =~= all);
    }
    assert(texts(hashes@) == media_hashes(profile@));
    let mut out: Vec<Json> = Vec::new();
    let mut i: usize = 0;
    while i < hashes.len()
        invariant
            i <= hashes.len(),
            i == out@.len(),
            forall|j: int| 0 <= j < i ==> (#[trigger] out@[j])@ == photo(hashes@[j]@),
        decreases hashes.len() - i,
    {
        out.push(photo_link(hashes[i].as_str()));
        i += 1;
    }
    assert(trees(out@) =~= photos(profile@)) by {
        assert forall|j: int| 0 <= j < out@.len() implies trees(out@)[j] == photos(profile@)[j] by {
            assert(texts(hashes@)[j] == hashes@[j]@);
        }
    }
    out
}

/// The profile in the response to a request for one.
pub open spec fn first_profile(body: JsonView) -> Option<JsonView> {
    match array_member(body, "profiles"@) {
        Some(profiles) => if profiles.len() > 0 {
            Some(profiles[0])
        } else {
            None
        },
        None => None,
    }
}

/// The result of a request for a profile.
pub open spec fn profile_view(status: u16, body: JsonView) -> JsonView {
    match first_profile(body) {
        Some(profile) => JsonView::Object(
            without_members().insert("status"@, number(status as int)).insert(
                "photos"@,
                JsonView::Array(photos(profile)),
            ).insert("profile"@, profile),
        ),
        None => status_and_body(status, body),
    }
}

/// The result of a request for a profile: the endpoint wraps a single profile in
/// `profiles: [ ... ]`, which is pulled out and gets usable photo URLs.
pub fn profile_result(status: u16, body: Json) -> (r: Json)
    ensures
        r@ == profile_view(status, body@),
{
    if let Some(profiles) = body.array("profiles") {
        if profiles.len() > 0 {
            let profile = profiles[0].clone();
            assert(trees(profiles@)[0] == profile@);
            let links = photo_links(&profile);
            let list = Json::Array(links);
            assert(list@->Array_0 =~= trees(links@));
            let mut out = JsonObject::new();
            out.insert("status".to_owned(), Json::unsigned(status as u64));
            out.insert("photos".to_owned(), list);
            out.insert("profile".to_owned(), profile);
            return Json::Object(out);
        }
    }
    response_result(status, body)
}

/// The kind of the command that sends a message.
pub const SEND_MESSAGE: &'static str = "chat.v1.message.send";

/// The payload of a message.
pub open spec fn message_payload(target: int, text: Seq<char>) -> JsonView {
    JsonView::Object(
        without_members().insert("type"@, JsonView::Str("Text"@)).insert(
            "target"@,
            JsonView::Object(
                without_members().insert("type"@, JsonView::Str("Direct"@)).insert(
                    "targetId"@,
                    number(target),
                ),
            ),
        ).insert(
            "body"@,
            JsonView::Object(without_members().insert("text"@, JsonView::Str(text))),
        ),
    )
}

/// The payload of a message to a profile, or why there can be none.
pub open spec fn message_to(profile_id: Seq<char>, text: Seq<char>) -> Result<
    JsonView,
    ToolErrorView,
> {
    if !is_numeric(profile_id) {
        Err(no_profile_id(profile_id))
    } else if text.len() == 0 {
        Err(ToolErrorView::InvalidParams("text must not be empty"@))
    } else if numeric_value(profile_id) > i64::MAX {
        Err(ToolErrorView::InvalidParams("profile_id is out of range"@))
    } else {
        Ok(message_payload(numeric_value(profile_id), text))
    }
}

/// The payload of a message to a profile.
pub fn send_message(profile_id: &str, text: &str) -> (r: Result<Json, ToolError>)
    ensures
        (match r {
            Ok(payload) => Ok(payload@),
            Err(e) => Err(e@),
        }) == message_to(profile_id@, text@),
{
    if !all_digits(profile_id) {
        return Err(not_a_profile_id(profile_id));
    }
    if text.is_empty() {
        return Err(ToolError::InvalidParams("text must not be empty".to_owned()));
    }
    let id = match parse_number(profile_id) {
        Some(id) => id,
        None => {
            return Err(ToolError::InvalidParams("profile_id is out of range".to_owned()));
        },
    };
    let mut target = JsonObject::new();
    target.insert("type".to_owned(), Json::Str("Direct".to_owned()));
    target.insert("targetId".to_owned(), Json::signed(id));
    let mut body = JsonObject::new();
    body.insert("text".to_owned(), Json::Str(text.to_owned()));
    let mut out = JsonObject::new();
    out.insert("type".to_owned(), Json::Str("Text".to_owned()));
    out.insert("target".to_owned(), Json::Object(target));
    out.insert("body".to_owned(), Json::Object(body));
    Ok(Json::Object(out))
}

/// The result of a message that was sent.
pub open spec fn message_view(profile_id: Seq<char>, ack: JsonView) -> JsonView {
    JsonView::Object(
        without_members().insert("sent"@, JsonView::Bool(true)).insert(
            "recipient"@,
            JsonView::Str(profile_id),
        ).insert("ack"@, ack),
    )
}

/// The result of a message that was sent.
pub fn message_result(profile_id: &str, ack: Json) -> (r: Json)
    ensures
        r@ == message_view(profile_id@, ack@),
{
    let mut out = JsonObject::new();
    out.insert("sent".to_owned(), Json::Bool(true));
    out.insert("recipient".to_owned(), Json::Str(profile_id.to_owned()));
    out.insert("ack".to_owned(), ack);
    Json::Object(out)
}

/// The result of a login.
pub open spec fn login_view(profile_id: Seq<char>, email: Seq<char>) -> JsonView {
    JsonView::Object(
        without_members().insert("logged_in"@, JsonView::Bool(true)).insert(
            "profile_id"@,
            JsonView::Str(profile_id),
        ).insert("email"@, JsonView::Str(email)),
    )
}

/// The result of a login.
pub fn login_result(profile_id: &str, email: &str) -> (r: Json)
    ensures
        r@ == login_view(profile_id@, email@),
{
    let mut out = JsonObject::new();
    out.insert("logged_in".to_owned(), Json::Bool(true));
    out.insert("profile_id".to_owned(), Json::Str(profile_id.to_owned()));
    out.insert("email".to_owned(), Json::Str(email.to_owned()));
    Json::Object(out)
}

/// The error of a login that failed.
pub fn login_failed(reason: &str) -> (r: ToolError)
    ensures
        r@ == ToolErrorView::Internal("login failed: "@ + reason@),
{
    ToolError::Internal("login failed: ".to_owned().concat(reason))
}

/// What is said of a session where there is none.
pub open spec fn logged_out() -> JsonView {
    JsonView::Object(without_members().insert("logged_in"@, JsonView::Bool(false)))
}

/// The result of a logout.
pub fn logout_result() -> (r: Json)
    ensures
        r@ == logged_out(),
{
    let mut out = JsonObject::new();
    out.insert("logged_in".to_owned(), Json::Bool(false));
    Json::Object(out)
}

/// A session, as far as it is shown.
#[derive(Debug, PartialEq)]
pub struct SessionInfo {
    pub email: String,
    pub profile_id: Option<String>,
    pub expires_at: Option<u64>,
    pub kind: String,
}

/// A device, as far as it is shown.
#[derive(Debug, PartialEq)]
pub struct DeviceSummary {
    pub model: String,
    pub manufacturer: String,
    pub os: String,
    pub timezone: String,
}

/// What is said of a session.
pub open spec fn session_view(session: Option<SessionInfo>) -> JsonView {
    match session {
        Some(s) => JsonView::Object(
            without_members().insert("logged_in"@, JsonView::Bool(true)).insert(
                "email"@,
                JsonView::Str(s.email@),
            ).insert(
                "profile_id"@,
                match s.profile_id {
                    Some(id) => JsonView::Str(id@),
                    None => JsonView::Null,
                },
            ).insert(
                "expires_at"@,
                match s.expires_at {
                    Some(t) => number(t as int),
                    None => JsonView::Null,
                },
            ).insert("kind"@, JsonView::Str(s.kind@)),
        ),
        None => logged_out(),
    }
}

/// What is said of a device.
pub open spec fn device_view(device: DeviceSummary) -> JsonView {
    JsonView::Object(
        without_members().insert("model"@, JsonView::Str(device.model@)).insert(
            "manufacturer"@,
            JsonView::Str(device.manufacturer@),
        ).insert("os"@, JsonView::Str(device.os@)).insert(
            "timezone"@,
            JsonView::Str(device.timezone@),
        ),
    )
}

/// Whether a session is active, with a summary of the device.
pub open spec fn status_view(
    session: Option<SessionInfo>,
    device: DeviceSummary,
    state_file: Seq<char>,
) -> JsonView {
    JsonView::Object(
        without_members().insert("session"@, session_view(session)).insert(
            "device"@,
            device_view(device),
        ).insert("state_file"@, JsonView::Str(state_file)),
    )
}

/// Whether a session is active, with a summary of the device.
pub fn session_status(
    session: Option<SessionInfo>,
    device: DeviceSummary,
    state_file: String,
) -> (r: Json)
    ensures
        r@ == status_view(session, device, state_file@),
{
    let shown = match session {
        Some(s) => {
            let mut out = JsonObject::new();
            out.insert("logged_in".to_owned(), Json::Bool(true));
            out.insert("email".to_owned(), Json::Str(s.email));
            out.insert(
                "profile_id".to_owned(),
                match s.profile_id {
                    Some(id) => Json::Str(id),
                    None => Json::Null,
                },
            );
            out.insert(
                "expires_at".to_owned(),
                match s.expires_at {
                    Some(t) => Json::unsigned(t),
                    None => Json::Null,
                },
            );
            out.insert("kind".to_owned(), Json::Str(s.kind));
            Json::Object(out)
        },
        None => logout_result(),
    };
    let mut summary = JsonObject::new();
    summary.insert("model".to_owned(), Json::Str(device.model));
    summary.insert("manufacturer".to_owned(), Json::Str(device.manufacturer));
    summary.insert("os".to_owned(), Json::Str(device.os));
    summary.insert("timezone".to_owned(), Json::Str(device.timezone));
    let mut out = JsonObject::new();
    out.insert("session".to_owned(), shown);
    out.insert("device".to_owned(), Json::Object(summary));
    out.insert("state_file".to_owned(), Json::Str(state_file));
    Json::Object(out)
}

/// A conversation id is made of digits and `:`, so that nothing else gets from it into
/// the path of a request.
pub proof fn conversation_ids_are_plain(id: Seq<char>, i: int)
    requires
        is_conversation_id(id),
        0 <= i < id.len(),
    ensures
        '0' <= id[i] && id[i] <= '9' || id[i] == ':',
{
    let colon = choose|colon: int| #[trigger] parts_at(id, colon);
    if i < colon {
        assert(id.take(colon)[i] == id[i]);
    } else if i > colon {
        assert(id.skip(colon + 1)[i - colon - 1] == id[i]);
    }
}

proof fn lemma_with_hashes(first: Seq<Seq<char>>, medias: Seq<JsonView>)
    requires
        first.no_duplicates(),
    ensures
        with_hashes(first, medias).no_duplicates(),
        first.is_prefix_of(with_hashes(first, medias)),
        forall|i: int|
            0 <= i < medias.len() ==> (text_member(#[trigger] medias[i], "mediaHash"@) matches Some(
                hash,
            ) ==> with_hashes(first, medias).contains(hash)),
        forall|k: int|
            first.len() <= k < with_hashes(first, medias).len() ==> exists|i: int|
                0 <= i < medias.len() && text_member(#[trigger] medias[i], "mediaHash"@) == Some(
                    #[trigger] with_hashes(first, medias)[k],
                ),
    decreases medias.len(),
{
    if medias.len() > 0 {
        let fewer = medias.drop_last();
        let last = medias.len() - 1;
        let before = with_hashes(first, fewer);
        let all = with_hashes(first, medias);
        lemma_with_hashes(first, fewer);
        assert forall|i: int| 0 <= i < medias.len() implies (text_member(
            #[trigger] medias[i],
            "mediaHash"@,
        ) matches Some(hash) ==> all.contains(hash)) by {
            if let Some(hash) = text_member(medias[i], "mediaHash"@) {
                if i < last {
                    assert(fewer[i] == medias[i]);
                    assert(before.contains(hash));
                    let k = choose|k: int| 0 <= k < before.len() && before[k] == hash;
                    assert(all[k] == hash);
                } else if !before.contains(hash) {
                    assert(all[all.len() - 1] == hash);
                }
            }
        }
        assert forall|k: int| first.len() <= k < all.len() implies exists|i: int|
            0 <= i < medias.len() && text_member(#[trigger] medias[i], "mediaHash"@) == Some(
                #[trigger] all[k],
            ) by {
            if k < before.len() {
                let i = choose|i: int|
                    0 <= i < fewer.len() && text_member(#[trigger] fewer[i], "mediaHash"@) == Some(
                        before[k],
                    );
                assert(text_member(medias[i], "mediaHash"@) == Some(all[k]));
            } else {
                assert(text_member(medias[last], "mediaHash"@) == Some(all[k]));
            }
        }
    }
}

/// No picture of a profile is linked twice.
pub proof fn no_photo_is_linked_twice(profile: JsonView)
    ensures
        media_hashes(profile).no_duplicates(),
{
    lemma_with_hashes(
        main_hash(profile),
        or_else(array_member(profile, "medias"@), Seq::empty()),
    );
}

/// The main picture of a profile, where there is one, comes first.
pub proof fn the_main_photo_comes_first(profile: JsonView, hash: Seq<char>)
    requires
        text_member(profile, "profileImageMediaHash"@) == Some(hash),
        hash.len() > 0,
    ensures
        media_hashes(profile).len() > 0,
        media_hashes(profile)[0] == hash,
{
    lemma_with_hashes(
        main_hash(profile),
        or_else(array_member(profile, "medias"@), Seq::empty()),
    );
    assert(main_hash(profile)[0] == hash);
}

/// Every picture among the media of a profile is linked.
pub proof fn every_photo_is_linked(profile: JsonView, i: int, hash: Seq<char>)
    requires
        array_member(profile, "medias"@) matches Some(medias) && 0 <= i < medias.len()
            && text_member(medias[i], "mediaHash"@) == Some(hash),
    ensures
        media_hashes(profile).contains(hash),
        photos(profile).contains(photo(hash)),
{
    lemma_with_hashes(
        main_hash(profile),
        or_else(array_member(profile, "medias"@), Seq::empty()),
    );
    let hashes = media_hashes(profile);
    let k = choose|k: int| 0 <= k < hashes.len() && hashes[k] == hash;
    assert(photos(profile)[k] == photo(hash));
}

/// Nothing but the pictures of a profile is linked.
pub proof fn only_photos_are_linked(profile: JsonView, hash: Seq<char>)
    requires
        media_hashes(profile).contains(hash),
    ensures
        text_member(profile, "profileImageMediaHash"@) == Some(hash) || (array_member(
            profile,
            "medias"@,
        ) matches Some(medias) && exists|i: int|
            0 <= i < medias.len() && text_member(#[trigger] medias[i], "mediaHash"@) == Some(hash)),
{
    lemma_with_hashes(
        main_hash(profile),
        or_else(array_member(profile, "medias"@), Seq::empty()),
    );
    let hashes = media_hashes(profile);
    let k = choose|k: int| 0 <= k < hashes.len() && hashes[k] == hash;
    if k < main_hash(profile).len() {
        assert(main_hash(profile)[k] == hash);
    }
}

/// A message to a profile, named by its number, goes to that number.
pub proof fn a_message_goes_to_its_target(id: nat, text: Seq<char>)
    requires
        id <= i64::MAX,
        text.len() > 0,
    ensures
        message_to(decimal(id as int), text) == Ok::<_, ToolErrorView>(
            message_payload(id as int, text),
        ),
{
    decimal_reads_back(id);
}

}
