use grindr_mcp::json::Json;
use grindr_mcp::openapi::{
    api_info, describe_endpoint, list_endpoints, list_tags, resolve_pointer, resolve_refs,
};
use grindr_mcp::tools::generic::{
    description_result, endpoints_result, instructions, invalid_method, request, tags_result,
    RequestArgs, INSTRUCTIONS,
};
use grindr_mcp::reply::ToolError;

fn json(text: &str) -> Json {
    Json::parse(text.as_bytes()).unwrap()
}

fn document() -> Json {
    json(
        r##"{
        "info": {"title": "API", "version": "1"},
        "servers": [{"url": "https://a.example"}, {"name": "none"}, {"url": "https://b.example"}],
        "tags": [{"name": "profiles"}, {"name": "chat", "description": "Messages"}],
        "paths": {
            "/v4/location": {
                "put": {"summary": "Set location", "tags": ["location"], "x-paid": true}
            },
            "/v3/profiles/{id}": {
                "post": {"description": "Change", "tags": ["profiles"], "deprecated": false},
                "get": {
                    "summary": "Read a profile",
                    "operationId": "getProfile",
                    "tags": ["profiles", "chat"],
                    "security": [],
                    "deprecated": true,
                    "responses": {"200": {"$ref": "#/components/schemas/Profile"}}
                },
                "parameters": []
            },
            "/broken": "no object"
        },
        "components": {
            "schemas": {
                "Profile": {"properties": {"id": {"$ref": "#/components/schemas/Id"}}},
                "Id": {"type": "integer"},
                "Node": {"next": {"$ref": "#/components/schemas/Node"}},
                "a/b": {"tilde~key": 7}
            }
        }
    }"##,
    )
}

fn shown(entry: &Json) -> (String, String) {
    (
        entry.text("method").unwrap().to_owned(),
        entry.text("path").unwrap().to_owned(),
    )
}

fn pair(method: &str, path: &str) -> (String, String) {
    (method.to_owned(), path.to_owned())
}

#[test]
fn info_and_servers() {
    assert_eq!(
        api_info(&document()),
        json(
            r#"{"info": {"title": "API", "version": "1"},
                "servers": ["https://a.example", "https://b.example"]}"#
        )
    );
    assert_eq!(api_info(&json("{}")), json(r#"{"info": null, "servers": []}"#));
}

#[test]
fn tags_are_listed_as_they_are() {
    assert_eq!(
        list_tags(&document()),
        vec![
            json(r#"{"name": "profiles"}"#),
            json(r#"{"name": "chat", "description": "Messages"}"#)
        ]
    );
    assert!(list_tags(&json("{}")).is_empty());
    assert_eq!(tags_result(&json("[]")), json(r#"{"tags": []}"#));
}

#[test]
fn every_operation_is_listed_in_order() {
    let listed: Vec<(String, String)> =
        list_endpoints(&document(), None, None).iter().map(shown).collect();
    assert_eq!(
        listed,
        vec![
            pair("GET", "/v3/profiles/{id}"),
            pair("POST", "/v3/profiles/{id}"),
            pair("PUT", "/v4/location")
        ]
    );
}

#[test]
fn entries_tell_what_the_document_says() {
    let listed = list_endpoints(&document(), None, None);
    assert_eq!(
        listed[0],
        json(
            r#"{"method": "GET", "path": "/v3/profiles/{id}", "summary": "Read a profile",
                "tags": ["profiles", "chat"], "deprecated": true, "auth_required": false}"#
        )
    );
    assert_eq!(
        listed[1],
        json(
            r#"{"method": "POST", "path": "/v3/profiles/{id}", "tags": ["profiles"],
                "auth_required": true}"#
        )
    );
    assert_eq!(
        listed[2],
        json(
            r#"{"method": "PUT", "path": "/v4/location", "summary": "Set location",
                "tags": ["location"], "x-paid": true, "auth_required": true}"#
        )
    );
}

#[test]
fn tags_filter_exactly() {
    let doc = document();
    assert_eq!(list_endpoints(&doc, Some("profiles"), None).len(), 2);
    assert_eq!(list_endpoints(&doc, Some("chat"), None).len(), 1);
    assert_eq!(list_endpoints(&doc, Some("Chat"), None).len(), 0);
    assert_eq!(list_endpoints(&doc, Some("cha"), None).len(), 0);
}

#[test]
fn searches_ignore_case() {
    let doc = document();
    for search in ["getprofile", "GETPROFILE", "a PROFILE", "read a profile  getprof"] {
        let listed = list_endpoints(&doc, None, Some(search));
        assert_eq!(listed.len(), 1, "{search}");
        assert_eq!(shown(&listed[0]), pair("GET", "/v3/profiles/{id}"));
    }
    assert_eq!(list_endpoints(&doc, None, Some("V4/LOC")).len(), 1);
    assert_eq!(list_endpoints(&doc, None, Some("")).len(), 3);
    assert_eq!(list_endpoints(&doc, None, Some("nowhere")).len(), 0);
    assert_eq!(list_endpoints(&doc, Some("location"), Some("profile")).len(), 0);
}

#[test]
fn searches_look_into_each_field() {
    let doc = json(
        r#"{"paths": {"/path": {"get": {"summary": "One", "description": "Two", "operationId": 3,
            "tags": ["four"]}}}}"#,
    );
    for search in ["PATH", "one", "tWo", ""] {
        assert_eq!(list_endpoints(&doc, None, Some(search)).len(), 1, "{search}");
    }
    for search in ["onetwo", "3", "four", "pathone"] {
        assert_eq!(list_endpoints(&doc, None, Some(search)).len(), 0, "{search}");
    }
    assert_eq!(list_endpoints(&doc, None, Some("PATH one TWO ")).len(), 1);
}

#[test]
fn words_are_made_small_each_for_itself() {
    let doc = json(r#"{"paths": {"/a": {"get": {"summary": "ὈΔΥΣΣΕΎΣ ΣΑ", "description": "Σ"}}}}"#);
    for search in ["ὀδυσσεύς", "ὈΔΥΣΣΕΎΣ", "ὀδυσσεύς σα σ", "ΎΣ ΣΑ Σ"] {
        assert_eq!(list_endpoints(&doc, None, Some(search)).len(), 1, "{search}");
    }
    assert_eq!(list_endpoints(&doc, None, Some("ὀδυσσεύσ")).len(), 0);
}

#[test]
fn searches_ignore_case_beyond_ascii() {
    let doc = json(r#"{"paths": {"/a": {"get": {"summary": "ÄPFEL"}}}}"#);
    assert_eq!(list_endpoints(&doc, None, Some("äpfel")).len(), 1);
}

#[test]
fn a_document_without_paths_has_no_endpoints() {
    assert!(list_endpoints(&json("{}"), None, None).is_empty());
    assert!(list_endpoints(&json(r#"{"paths": []}"#), None, None).is_empty());
    assert_eq!(
        endpoints_result(&json("null"), None, None),
        json(r#"{"count": 0, "endpoints": []}"#)
    );
}

#[test]
fn endpoints_are_counted() {
    let result = endpoints_result(&document(), Some("location"), None);
    assert_eq!(
        result,
        json(
            r#"{"count": 1, "endpoints": [{"method": "PUT", "path": "/v4/location",
                "summary": "Set location", "tags": ["location"], "x-paid": true,
                "auth_required": true}]}"#
        )
    );
}

#[test]
fn descriptions_inline_references() {
    let said = describe_endpoint(&document(), "/v3/profiles/{id}", Some("get")).unwrap();
    assert_eq!(
        said,
        json(
            r#"{"path": "/v3/profiles/{id}", "operations": {"GET": {
                "summary": "Read a profile", "operationId": "getProfile",
                "tags": ["profiles", "chat"], "security": [], "deprecated": true,
                "responses": {"200": {"properties": {"id": {"type": "integer"}}}}}}}"#
        )
    );
}

#[test]
fn without_a_method_every_operation_is_described() {
    let said = describe_endpoint(&document(), "/v3/profiles/{id}", None).unwrap();
    let operations = said.get("operations").unwrap().as_object().unwrap();
    assert_eq!(operations.len(), 2);
    assert!(operations.get("GET").is_some());
    assert!(operations.get("POST").is_some());
}

#[test]
fn the_case_of_a_method_does_not_matter() {
    let doc = document();
    let path = "/v4/location";
    let said = describe_endpoint(&doc, path, Some("put"));
    assert!(said.is_some());
    assert_eq!(describe_endpoint(&doc, path, Some("PUT")), said);
    assert_eq!(describe_endpoint(&doc, path, Some("pUt")), said);
}

#[test]
fn what_does_not_exist_is_not_described() {
    let doc = document();
    assert_eq!(describe_endpoint(&doc, "/nowhere", None), None);
    assert_eq!(describe_endpoint(&doc, "/broken", None), None);
    assert_eq!(describe_endpoint(&doc, "/v4/location", Some("get")), None);
    assert_eq!(describe_endpoint(&doc, "/v4/location", Some("parameters")), None);
    assert_eq!(describe_endpoint(&json("{}"), "/v4/location", None), None);
}

#[test]
fn what_is_listed_is_described() {
    let doc = document();
    for entry in list_endpoints(&doc, None, None) {
        let (method, path) = shown(&entry);
        let said = describe_endpoint(&doc, &path, Some(&method)).unwrap();
        assert!(said.get("operations").unwrap().get(&method).is_some());
    }
}

#[test]
fn errors_name_path_and_method() {
    let doc = document();
    assert_eq!(
        description_result(&doc, "/a\"b", None),
        Err(ToolError::InvalidParams(
            "no operation found for path \"/a\\\"b\" (method None)".to_owned()
        ))
    );
    assert_eq!(
        description_result(&doc, "/v4/location", Some("get")),
        Err(ToolError::InvalidParams(
            "no operation found for path \"/v4/location\" (method Some(\"get\"))".to_owned()
        ))
    );
    assert!(description_result(&doc, "/v4/location", Some("put")).is_ok());
}

#[test]
fn pointers_are_followed() {
    let doc = document();
    let followed = |reference: &str| resolve_pointer(&doc, reference);
    assert_eq!(followed("#/components/schemas/Id"), Some(&json(r#"{"type": "integer"}"#)));
    assert_eq!(followed("#/components/schemas/a~1b/tilde~0key"), Some(&json("7")));
    assert_eq!(followed("#/components/schemas/a~01b"), None);
    assert_eq!(followed("#/components/schemas/Missing"), None);
    assert_eq!(followed("#/"), None);
    assert_eq!(followed("components/schemas/Id"), None);
    assert_eq!(followed("#/servers/0"), Some(&json(r#"{"url": "https://a.example"}"#)));
    assert_eq!(followed("#/servers/2/url"), Some(&json(r#""https://b.example""#)));
    for token in ["3", "-1", "+0", "00", "01", "-", "", "url", "99999999999999999999999"] {
        assert_eq!(followed(&format!("#/servers/{token}")), None);
    }
}

#[test]
fn references_into_arrays_are_inlined() {
    let mut seen: Vec<String> = Vec::new();
    assert_eq!(
        resolve_refs(&document(), &json(r##"{"at": {"$ref": "#/tags/0"}}"##), 6, &mut seen),
        json(r#"{"at": {"name": "profiles"}}"#)
    );
}

#[test]
fn cycles_are_left_in_place() {
    let doc = document();
    let node = json(r##"{"$ref": "#/components/schemas/Node"}"##);
    let mut seen: Vec<String> = Vec::new();
    assert_eq!(
        resolve_refs(&doc, &node, 6, &mut seen),
        json(r##"{"next": {"$ref": "#/components/schemas/Node"}}"##)
    );
    assert!(seen.is_empty());
    seen.push("#/components/schemas/Node".to_owned());
    assert_eq!(resolve_refs(&doc, &node, 6, &mut seen), node);
    assert_eq!(seen, vec!["#/components/schemas/Node".to_owned()]);
}

#[test]
fn the_depth_bounds_the_inlining() {
    let doc = document();
    let node = json(r##"[{"$ref": "#/components/schemas/Profile"}]"##);
    let mut seen: Vec<String> = Vec::new();
    assert_eq!(resolve_refs(&doc, &node, 0, &mut seen), node);
    assert_eq!(
        resolve_refs(&doc, &node, 1, &mut seen),
        json(r##"[{"properties": {"id": {"$ref": "#/components/schemas/Id"}}}]"##)
    );
    assert_eq!(
        resolve_refs(&doc, &node, 2, &mut seen),
        json(r#"[{"properties": {"id": {"type": "integer"}}}]"#)
    );
}

#[test]
fn references_are_resolved_to_the_last() {
    let doc = document();
    let node = json(
        r##"{"a": [{"$ref": "#/components/schemas/Profile", "beside": 1}, 2], "b": "x"}"##,
    );
    let mut seen: Vec<String> = Vec::new();
    let done = resolve_refs(&doc, &node, 2, &mut seen);
    assert_eq!(done, json(r#"{"a": [{"properties": {"id": {"type": "integer"}}}, 2], "b": "x"}"#));
    for depth in [0, 1, 6] {
        assert_eq!(resolve_refs(&doc, &done, depth, &mut seen), done);
    }
}

#[test]
fn a_text_can_become_a_reference() {
    let doc = json(r##"{"x": "#/y", "y": 1}"##);
    let node = json(r##"{"$ref": {"$ref": "#/x"}}"##);
    let mut seen: Vec<String> = Vec::new();
    let done = resolve_refs(&doc, &node, 6, &mut seen);
    assert_eq!(done, json(r##"{"$ref": "#/y"}"##));
    assert_eq!(resolve_refs(&doc, &done, 6, &mut seen), json("1"));
}

#[test]
fn references_that_lead_nowhere_stay() {
    let doc = document();
    let mut seen: Vec<String> = Vec::new();
    for text in [r##"{"$ref": "#/missing", "x": 1}"##, r#"{"$ref": 5}"#, "[1, true, null]"] {
        let node = json(text);
        assert_eq!(resolve_refs(&doc, &node, 6, &mut seen), node);
    }
}

#[test]
fn a_request_has_its_method_in_capitals() {
    let made = request(RequestArgs {
        method: "pätch".to_owned(),
        path: "/v3/me".to_owned(),
        body: Some(json("{}")),
    });
    assert_eq!(made.method, "PÄTCH");
    assert_eq!(made.path, "/v3/me");
    assert_eq!(made.body, Some(json("{}")));
}

#[test]
fn an_ascii_method_has_its_letters_raised() {
    let made = request(RequestArgs {
        method: "geT-[1]".to_owned(),
        path: "/".to_owned(),
        body: None,
    });
    assert_eq!(made.method, "GET-[1]");
}

#[test]
fn a_tag_keeps_what_shows_it() {
    let doc = document();
    for tag in ["profiles", "chat", "location", "none"] {
        for search in [None, Some("profile"), Some("")] {
            let kept: Vec<Json> = list_endpoints(&doc, None, search)
                .into_iter()
                .filter(|entry| {
                    entry.array("tags").is_some_and(|tags| {
                        tags.iter().any(|t| t.as_str() == Some(tag))
                    })
                })
                .collect();
            assert_eq!(list_endpoints(&doc, Some(tag), search), kept);
        }
    }
}

#[test]
fn an_invalid_method_is_told() {
    assert_eq!(
        invalid_method("no"),
        ToolError::InvalidParams("invalid HTTP method: no".to_owned())
    );
}

#[test]
fn instructions_end_with_the_description() {
    let text = instructions(&api_info(&json(r#"{"info": {"b": 1, "a": "x"}}"#)));
    assert!(text.starts_with("MCP server for the unofficial Grindr API"));
    assert_eq!(
        text,
        format!("{INSTRUCTIONS}{}", r#"{"info":{"a":"x","b":1},"servers":[]}"#)
    );
}
