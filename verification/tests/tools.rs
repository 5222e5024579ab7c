use grindr_mcp::json::{Json, JsonObject};
use grindr_mcp::location::{needs_pinned, resolve_geohash, Degrees, LocationArgs};
use grindr_mcp::reply::{
    body_or_text, json_result, parse_body, refused, rendered, request_failed, response_result,
    ToolError,
};
use grindr_mcp::state::{load_pinned_geohash, save_pinned_geohash};
use grindr_mcp::tools::endpoints::{
    browse_grid, get_messages, get_profile, is_to_be_pinned, is_valid_conversation_id,
    list_conversations, location_result, login_failed, login_result, logout_result,
    message_result, photo_links, profile_result, send_message, session_status, update_location,
    BrowseGridArgs, DeviceSummary, GetMessagesArgs, ListConversationsArgs, SessionInfo,
};
use grindr_mcp::tools::generic::no_operation;

fn json(text: &str) -> Json {
    Json::parse(text.as_bytes()).unwrap()
}

fn invalid(text: &str) -> ToolError {
    ToolError::InvalidParams(text.to_owned())
}

fn degrees(value: f64) -> Option<Degrees> {
    Some(Degrees { bits: value.to_bits(), text: format!("{value}") })
}

fn place(geohash: Option<&str>, lat: Option<f64>, lon: Option<f64>) -> LocationArgs {
    LocationArgs {
        geohash: geohash.map(|s| s.to_owned()),
        latitude: lat.and_then(degrees),
        longitude: lon.and_then(degrees),
    }
}

fn no_filters() -> BrowseGridArgs {
    BrowseGridArgs {
        page: None,
        photo_only: None,
        face_only: None,
        online_only: None,
        fresh: None,
        age_min: None,
        age_max: None,
        filters: None,
    }
}

#[test]
fn conversation_ids() {
    for id in ["1:2", "12345678:23456789", "0:0"] {
        assert!(is_valid_conversation_id(id), "{id}");
    }
    for id in ["", ":", "1:", ":2", "12", "1:2:3", "1::2", "a:2", "1:b", " 1:2", "1:2/../x", "١:2"] {
        assert!(!is_valid_conversation_id(id), "{id}");
    }
}

#[test]
fn the_inbox_is_asked_for() {
    let made = list_conversations(&ListConversationsArgs {
        page: None,
        unread_only: Some(true),
        favorites_only: Some(false),
        online_now_only: None,
        right_now_only: Some(true),
    });
    assert_eq!(made.method, "POST");
    assert_eq!(made.path, "/v4/inbox?page=1");
    assert_eq!(
        made.body,
        Some(json(
            r#"{"unreadOnly": true, "favoritesOnly": false, "onlineNowOnly": false,
                "rightNowOnly": true, "chemistryOnly": false, "distanceMeters": null,
                "positions": []}"#
        ))
    );
}

#[test]
fn a_page_of_the_inbox() {
    let made = list_conversations(&ListConversationsArgs {
        page: Some(4294967295),
        unread_only: None,
        favorites_only: None,
        online_now_only: None,
        right_now_only: None,
    });
    assert_eq!(made.path, "/v4/inbox?page=4294967295");
}

#[test]
fn messages_are_asked_for() {
    let path = |key: Option<&str>, profile: Option<bool>| {
        get_messages(&GetMessagesArgs {
            conversation_id: "12:34".to_owned(),
            page_key: key.map(|k| k.to_owned()),
            include_profile: profile,
        })
        .unwrap()
    };
    assert_eq!(path(None, None).method, "GET");
    assert_eq!(path(None, None).body, None);
    assert_eq!(path(None, None).path, "/v5/chat/conversation/12:34/message");
    assert_eq!(path(None, Some(false)).path, "/v5/chat/conversation/12:34/message");
    assert_eq!(
        path(None, Some(true)).path,
        "/v5/chat/conversation/12:34/message?profile=true"
    );
    assert_eq!(
        path(Some("a&b"), None).path,
        "/v5/chat/conversation/12:34/message?pageKey=a%26b"
    );
    assert_eq!(
        path(Some(""), Some(true)).path,
        "/v5/chat/conversation/12:34/message?pageKey=&profile=true"
    );
}

#[test]
fn a_wrong_conversation_id_is_refused() {
    let args = GetMessagesArgs {
        conversation_id: "1/\"2".to_owned(),
        page_key: None,
        include_profile: None,
    };
    assert_eq!(
        get_messages(&args),
        Err(invalid(
            "conversation_id must be two numeric profile ids joined by ':' \
             (e.g. \"12345678:23456789\"), got \"1/\\\"2\""
        ))
    );
}

#[test]
fn an_explicit_geohash_is_used() {
    let location = place(Some("ezjmgyern222"), Some(0.0), Some(0.0));
    assert_eq!(
        resolve_geohash(&location, Some("000000000000".to_owned())),
        Ok("ezjmgyern222".to_owned())
    );
    assert!(!needs_pinned(&location));
}

#[test]
fn a_wrong_geohash_is_refused() {
    let location = place(Some("aaa\n"), Some(0.0), Some(0.0));
    assert_eq!(
        resolve_geohash(&location, Some("000000000000".to_owned())),
        Err(invalid(
            "geohash must be exactly 12 chars from the geohash alphabet, got \"aaa\\n\""
        ))
    );
}

#[test]
fn coordinates_are_encoded() {
    let location = place(None, Some(57.64911), Some(10.40744));
    let hash = resolve_geohash(&location, None).unwrap();
    assert!(hash.starts_with("u4pruydqqvj"));
    assert_eq!(hash.len(), 12);
    assert!(!needs_pinned(&location));
}

#[test]
fn coordinates_out_of_range_are_refused() {
    assert_eq!(
        resolve_geohash(&place(None, Some(90.5), Some(-3.25)), None),
        Err(invalid("latitude/longitude out of range: 90.5, -3.25"))
    );
    assert_eq!(
        resolve_geohash(&place(None, Some(0.0), Some(-181.0)), None),
        Err(invalid("latitude/longitude out of range: 0, -181"))
    );
    assert_eq!(
        resolve_geohash(&place(None, Some(f64::NAN), Some(0.0)), None),
        Err(invalid("latitude/longitude out of range: NaN, 0"))
    );
}

#[test]
fn the_pinned_location_is_used_last() {
    for location in [place(None, None, None), place(None, Some(1.0), None), place(None, None, Some(1.0))] {
        assert!(needs_pinned(&location));
        assert_eq!(
            resolve_geohash(&location, Some("ezjmgyern222".to_owned())),
            Ok("ezjmgyern222".to_owned())
        );
        assert_eq!(
            resolve_geohash(&location, None),
            Err(invalid(
                "no location given and none pinned: pass geohash or latitude+longitude, \
                 or set one with grindr_update_location"
            ))
        );
    }
}

#[test]
fn a_location_that_was_set_is_browsed() {
    let chosen = resolve_geohash(&place(None, Some(40.4168), Some(-3.7038)), None).unwrap();
    let kept = save_pinned_geohash(&chosen);
    let pinned = load_pinned_geohash(Some(&kept));
    assert_eq!(resolve_geohash(&place(None, None, None), pinned), Ok(chosen));
}

#[test]
fn the_location_is_set() {
    let made = update_location("ezjmgyern222");
    assert_eq!(made.method, "PUT");
    assert_eq!(made.path, "/v4/location");
    assert_eq!(made.body, Some(json(r#"{"geohash": "ezjmgyern222"}"#)));
}

#[test]
fn a_failed_update_is_not_pinned() {
    assert!(is_to_be_pinned(200) && is_to_be_pinned(299));
    assert!(!is_to_be_pinned(199) && !is_to_be_pinned(300) && !is_to_be_pinned(0));
    assert_eq!(
        location_result(403, "ezjmgyern222", true, json("{}")),
        json(r#"{"status": 403, "geohash": "ezjmgyern222", "pinned": false, "body": {}}"#)
    );
    assert_eq!(
        location_result(204, "ezjmgyern222", true, json("\"\"")),
        json(r#"{"status": 204, "geohash": "ezjmgyern222", "pinned": true, "body": ""}"#)
    );
    assert_eq!(
        location_result(204, "ezjmgyern222", false, json("1")),
        json(r#"{"status": 204, "geohash": "ezjmgyern222", "pinned": false, "body": 1}"#)
    );
}

#[test]
fn the_grid_is_browsed() {
    let made = browse_grid("ezjmgyern222", &no_filters());
    assert_eq!(made.method, "GET");
    assert_eq!(made.path, "/v4/cascade?nearbyGeoHash=ezjmgyern222");
    assert_eq!(made.body, None);
}

#[test]
fn the_grid_is_filtered() {
    let mut filters = JsonObject::new();
    filters.insert("tribes".to_owned(), json("[1, 2]"));
    filters.insert("genders".to_owned(), Json::Str("a b".to_owned()));
    filters.insert("rightNow".to_owned(), json("true"));
    filters.insert("note".to_owned(), json("null"));
    let args = BrowseGridArgs {
        page: Some(-2),
        photo_only: Some(true),
        face_only: Some(false),
        online_only: Some(true),
        fresh: Some(false),
        age_min: Some(18),
        age_max: Some(-9223372036854775808),
        filters: Some(filters),
    };
    assert_eq!(
        browse_grid("ezjmgyern222", &args).path,
        "/v4/cascade?nearbyGeoHash=ezjmgyern222&photoOnly=true&faceOnly=false&onlineOnly=true\
         &fresh=false&pageNumber=-2&ageMin=18&ageMax=-9223372036854775808&genders=a%20b\
         &note=null&rightNow=true&tribes=%5B1%2C2%5D"
    );
}

#[test]
fn profiles_are_asked_for() {
    let made = get_profile("610887944").unwrap();
    assert_eq!(made.method, "GET");
    assert_eq!(made.path, "/v7/profiles/610887944");
    assert_eq!(made.body, None);
    for id in ["", "12a", "-1", "1/2"] {
        assert_eq!(
            get_profile(id),
            Err(invalid(&format!("profile_id must be a numeric id, got {id:?}")))
        );
    }
}

#[test]
fn photos_are_linked() {
    let profile = json(
        r#"{"profileImageMediaHash": "m", "medias": [
            {"mediaHash": "a"}, {"mediaHash": "m"}, {"other": 1}, {"mediaHash": 5},
            {"mediaHash": "a"}, {"mediaHash": ""}]}"#,
    );
    let link = |hash: &str| {
        json(&format!(
            "{{\"mediaHash\": \"{hash}\", \
             \"full\": \"https://cdns.grindr.com/images/profile/1024x1024/{hash}\", \
             \"thumb\": \"https://cdns.grindr.com/images/profile/320x320/{hash}\"}}"
        ))
    };
    assert_eq!(photo_links(&profile), vec![link("m"), link("a"), link("")]);
}

#[test]
fn a_profile_without_photos() {
    for text in ["{}", "null", r#"{"profileImageMediaHash": "", "medias": 3}"#] {
        assert!(photo_links(&json(text)).is_empty());
    }
}

#[test]
fn a_profile_is_pulled_out() {
    let body = json(r#"{"profiles": [{"displayName": "x", "profileImageMediaHash": "h"}, 2]}"#);
    assert_eq!(
        profile_result(200, body),
        json(
            r#"{"status": 200,
                "photos": [{"mediaHash": "h",
                    "full": "https://cdns.grindr.com/images/profile/1024x1024/h",
                    "thumb": "https://cdns.grindr.com/images/profile/320x320/h"}],
                "profile": {"displayName": "x", "profileImageMediaHash": "h"}}"#
        )
    );
}

#[test]
fn a_response_without_profile_is_handed_on() {
    for text in [r#"{"profiles": []}"#, r#"{"profiles": {}}"#, r#""gone""#] {
        let result = profile_result(404, json(text));
        assert_eq!(result.get("status"), Some(&json("404")));
        assert_eq!(result.get("body"), Some(&json(text)));
        assert_eq!(result.get("photos"), None);
    }
}

#[test]
fn messages_are_built() {
    assert_eq!(
        send_message("877029791", "hi \"you\""),
        Ok(json(
            r#"{"type": "Text", "target": {"type": "Direct", "targetId": 877029791},
                "body": {"text": "hi \"you\""}}"#
        ))
    );
    assert_eq!(
        send_message("0009223372036854775807", "x")
            .unwrap()
            .get("target")
            .unwrap()
            .get("targetId"),
        Some(&json("9223372036854775807"))
    );
}

#[test]
fn messages_are_refused() {
    assert_eq!(
        send_message("12x", ""),
        Err(invalid("profile_id must be a numeric id, got \"12x\""))
    );
    assert_eq!(send_message("", "x"), Err(invalid("profile_id must be a numeric id, got \"\"")));
    assert_eq!(
        send_message("99999999999999999999", ""),
        Err(invalid("text must not be empty"))
    );
    assert_eq!(
        send_message("9223372036854775808", "x"),
        Err(invalid("profile_id is out of range"))
    );
}

#[test]
fn a_sent_message_is_told() {
    assert_eq!(
        message_result("12", json(r#"{"ref": "r"}"#)),
        json(r#"{"sent": true, "recipient": "12", "ack": {"ref": "r"}}"#)
    );
}

#[test]
fn the_session_is_told() {
    assert_eq!(
        login_result("12", "a@b"),
        json(r#"{"logged_in": true, "profile_id": "12", "email": "a@b"}"#)
    );
    assert_eq!(login_failed("no"), ToolError::Internal("login failed: no".to_owned()));
    assert_eq!(logout_result(), json(r#"{"logged_in": false}"#));
}

fn device() -> DeviceSummary {
    DeviceSummary {
        model: "M".to_owned(),
        manufacturer: "F".to_owned(),
        os: "O".to_owned(),
        timezone: "T".to_owned(),
    }
}

#[test]
fn an_active_session_is_shown() {
    let session = SessionInfo {
        email: "a@b".to_owned(),
        profile_id: Some("12".to_owned()),
        expires_at: Some(18446744073709551615),
        kind: "Email".to_owned(),
    };
    assert_eq!(
        session_status(Some(session), device(), "/x/state.json".to_owned()),
        json(
            r#"{"session": {"logged_in": true, "email": "a@b", "profile_id": "12",
                    "expires_at": 18446744073709551615, "kind": "Email"},
                "device": {"model": "M", "manufacturer": "F", "os": "O", "timezone": "T"},
                "state_file": "/x/state.json"}"#
        )
    );
}

#[test]
fn what_a_session_lacks_is_null() {
    let session = SessionInfo {
        email: "".to_owned(),
        profile_id: None,
        expires_at: None,
        kind: "Email".to_owned(),
    };
    let status = session_status(Some(session), device(), "".to_owned());
    assert_eq!(
        status.get("session"),
        Some(&json(
            r#"{"logged_in": true, "email": "", "profile_id": null, "expires_at": null,
                "kind": "Email"}"#
        ))
    );
    let status = session_status(None, device(), "".to_owned());
    assert_eq!(status.get("session"), Some(&json(r#"{"logged_in": false}"#)));
}

#[test]
fn bodies_are_json_or_text() {
    assert_eq!(parse_body(b"{\"a\": [1.5, null]}"), json(r#"{"a": [1.5, null]}"#));
    assert_eq!(parse_body(b"not json"), Json::Str("not json".to_owned()));
    assert_eq!(parse_body(b""), Json::Str("".to_owned()));
    assert_eq!(parse_body(b"a\xffb"), Json::Str("a\u{fffd}b".to_owned()));
}

#[test]
fn responses_have_status_and_body() {
    assert_eq!(
        response_result(418, json("[true]")),
        json(r#"{"status": 418, "body": [true]}"#)
    );
    assert_eq!(
        request_failed("no route"),
        ToolError::Internal("request failed: no route".to_owned())
    );
}

#[test]
fn results_are_pretty_text() {
    assert_eq!(
        json_result(&json(r#"{"b": [], "a": {"c": "é"}}"#)),
        "{\n  \"a\": {\n    \"c\": \"é\"\n  },\n  \"b\": []\n}"
    );
}

#[test]
fn results_can_be_read_back() {
    let mut deep = json(
        r#"{"a": ["\u0000\u001f\"\\/é\u2028", -9223372036854775808, 18446744073709551615, 0],
            "": {}, "n": null}"#,
    );
    for _ in 2..127 {
        deep = Json::Array(vec![deep]);
    }
    assert_eq!(parse_body(json_result(&deep).as_bytes()), deep);
    assert_eq!(Json::parse(deep.to_compact().as_bytes()).unwrap(), deep);
}

#[test]
fn what_is_nested_too_deep_is_written_and_not_read() {
    let mut deep = Json::Null;
    for _ in 0..128 {
        deep = Json::Array(vec![deep]);
    }
    let text = json_result(&deep);
    assert!(Json::parse(text.as_bytes()).is_err());
    assert_eq!(parse_body(text.as_bytes()), Json::Str(text));
}

#[test]
fn what_cannot_be_written_is_told() {
    assert_eq!(rendered(Ok("{}".to_owned())), "{}");
    assert_eq!(
        rendered(Err("key must be a string".to_owned())),
        "<failed to serialize result: key must be a string>"
    );
}

#[test]
fn what_is_no_json_is_text() {
    assert_eq!(body_or_text(Some(Json::Null), "x".to_owned()), Json::Null);
    assert_eq!(body_or_text(None, "x".to_owned()), Json::Str("x".to_owned()));
}

#[test]
fn refusals_show_the_argument() {
    assert_eq!(refused("not ", "\"x\""), invalid("not \"x\""));
}

#[test]
fn a_missing_operation_is_told() {
    assert_eq!(
        no_operation("\"/a\"", Some("\"get\"")),
        invalid("no operation found for path \"/a\" (method Some(\"get\"))")
    );
    assert_eq!(
        no_operation("\"/a\"", None),
        invalid("no operation found for path \"/a\" (method None)")
    );
}
