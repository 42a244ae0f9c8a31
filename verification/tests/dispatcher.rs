use toastmcp::assets::{list_icon_ids, list_sound_ids, FsEntry};
use toastmcp::framing::{frame_message, read_message, Framing, ReadOutcome};
use toastmcp::json::{json_to_string, Json};
use toastmcp::rpc::{
    handle_request, notify_result_response, serialize_response, AssetCatalog, Dispatch, Request,
};

fn to_json(v: &serde_json::Value) -> Json {
    match v {
        serde_json::Value::Null => Json::Null,
        serde_json::Value::Bool(b) => Json::Bool(*b),
        serde_json::Value::Number(n) => Json::Int(n.as_i64().expect("integral id")),
        serde_json::Value::String(s) => Json::Str(s.clone()),
        serde_json::Value::Array(items) => Json::Arr(items.iter().map(to_json).collect()),
        serde_json::Value::Object(map) => Json::Obj(
            map.iter()
                .map(|(k, val)| (k.clone(), to_json(val)))
                .collect(),
        ),
    }
}

fn decode_request(payload: &str) -> Request {
    let v: serde_json::Value = serde_json::from_str(payload).expect("valid JSON-RPC payload");
    Request {
        id: v.get("id").map(to_json),
        method: v
            .get("method")
            .and_then(|m| m.as_str())
            .unwrap_or("")
            .to_string(),
        params: v.get("params").map(to_json).unwrap_or(Json::Null),
    }
}

fn catalog(icons: &[&str], sounds: &[&str]) -> AssetCatalog {
    let icon_entries: Vec<FsEntry> = icons
        .iter()
        .map(|s| FsEntry {
            name: format!("{s}.png"),
            dir: "icons".to_string(),
        })
        .collect();
    let sound_entries: Vec<FsEntry> = sounds
        .iter()
        .map(|s| FsEntry {
            name: format!("{s}.wav"),
            dir: "sounds".to_string(),
        })
        .collect();
    AssetCatalog {
        icons: list_icon_ids(&icon_entries),
        sounds: list_sound_ids(&sound_entries),
    }
}

fn reply_of(d: Dispatch) -> toastmcp::rpc::Response {
    match d {
        Dispatch::Reply(r) => r,
        _ => panic!("expected a reply"),
    }
}

fn parse(s: &str) -> serde_json::Value {
    serde_json::from_str(s).expect("reply is valid JSON")
}

#[test]
fn ping_round_trip_is_byte_exact() {
    let payload = "{\"jsonrpc\":\"2.0\",\"id\":1,\"method\":\"ping\"}";
    let input = frame_message(payload, Framing::HeaderDelimited);
    let (message, framing) = match read_message(&input, 0) {
        ReadOutcome::Message {
            payload, framing, ..
        } => (payload, framing),
        _ => panic!("expected a message"),
    };
    let request = decode_request(&message);
    let reply = reply_of(handle_request(request, &catalog(&[], &[])));
    let text = serialize_response(&reply);
    assert_eq!(text, "{\"jsonrpc\":\"2.0\",\"id\":1,\"result\":null}");
    let out = frame_message(&text, framing);
    let expected =
        b"Content-Length: 38\r\n\r\n{\"jsonrpc\":\"2.0\",\"id\":1,\"result\":null}".to_vec();
    assert_eq!(out, expected);
}

#[test]
fn list_assets_with_builtin_fallback_is_exact() {
    // Two icons, no sound files: the sound list is the built-in catalogue.
    let cat = catalog(&["b", "a"], &[]);
    let request =
        decode_request("{\"jsonrpc\":\"2.0\",\"id\":7,\"method\":\"tools/call\",\"params\":{\"name\":\"list_assets\"}}");
    let reply = reply_of(handle_request(request, &cat));
    let v = parse(&serialize_response(&reply));
    let content = &v["result"]["content"][0];
    assert_eq!(content["type"].as_str(), Some("text"));
    assert_eq!(
        content["text"].as_str().unwrap(),
        "{\"icons\":[\"a\",\"b\"],\"sounds\":[\"alarm\",\"default\",\"im\",\"incoming_call\",\"mail\",\"reminder\",\"sms\"]}"
    );
}

#[test]
fn request_with_id_always_gets_exactly_one_response() {
    let cat = catalog(&[], &[]);
    let known = decode_request("{\"jsonrpc\":\"2.0\",\"id\":3,\"method\":\"ping\"}");
    let v = parse(&serialize_response(&reply_of(handle_request(known, &cat))));
    assert_eq!(v["id"].as_i64(), Some(3));
    let unknown = decode_request("{\"jsonrpc\":\"2.0\",\"id\":4,\"method\":\"nope\"}");
    let v = parse(&serialize_response(&reply_of(handle_request(unknown, &cat))));
    assert_eq!(v["id"].as_i64(), Some(4));
    assert_eq!(v["error"]["code"].as_i64(), Some(-32601));
    assert_eq!(
        v["error"]["message"].as_str(),
        Some("Method not found: nope")
    );
}

#[test]
fn notification_to_unknown_method_gets_no_response() {
    let cat = catalog(&[], &[]);
    let request = decode_request("{\"jsonrpc\":\"2.0\",\"method\":\"nope\"}");
    assert!(matches!(handle_request(request, &cat), Dispatch::NoReply));
}

#[test]
fn notification_to_known_method_is_still_answered() {
    let cat = catalog(&[], &[]);
    let request = decode_request("{\"jsonrpc\":\"2.0\",\"method\":\"ping\"}");
    let v = parse(&serialize_response(&reply_of(handle_request(request, &cat))));
    assert!(v["id"].is_null());
}

#[test]
fn notify_with_missing_title_is_invalid_params_not_a_crash() {
    let cat = catalog(&["rocket"], &[]);
    let request = decode_request(
        "{\"jsonrpc\":\"2.0\",\"id\":5,\"method\":\"tools/call\",\"params\":{\"name\":\"notify\",\"arguments\":{\"message\":\"m\",\"sound\":\"default\",\"icon\":\"rocket\"}}}",
    );
    let v = parse(&serialize_response(&reply_of(handle_request(request, &cat))));
    assert_eq!(v["error"]["code"].as_i64(), Some(-32602));
    assert_eq!(
        v["error"]["message"].as_str(),
        Some("Invalid arguments: missing field `title`")
    );
}

#[test]
fn notify_with_non_string_field_is_invalid_params() {
    let cat = catalog(&[], &[]);
    let request = decode_request(
        "{\"jsonrpc\":\"2.0\",\"id\":5,\"method\":\"tools/call\",\"params\":{\"name\":\"notify\",\"arguments\":{\"title\":3,\"message\":\"m\",\"sound\":\"s\",\"icon\":\"i\"}}}",
    );
    let v = parse(&serialize_response(&reply_of(handle_request(request, &cat))));
    assert_eq!(v["error"]["code"].as_i64(), Some(-32602));
    assert_eq!(
        v["error"]["message"].as_str(),
        Some("Invalid arguments: field `title` is not a string")
    );
}

#[test]
fn notify_with_valid_arguments_becomes_an_invocation() {
    let cat = catalog(&[], &[]);
    let request = decode_request(
        "{\"jsonrpc\":\"2.0\",\"id\":9,\"method\":\"tools/call\",\"params\":{\"name\":\"notify\",\"arguments\":{\"title\":\"t\",\"message\":\"m\",\"sound\":\"default\",\"icon\":\"rocket\"}}}",
    );
    match handle_request(request, &cat) {
        Dispatch::Invoke { id, input } => {
            assert_eq!(json_to_string(&id), "9");
            assert_eq!(input.title, "t");
            assert_eq!(input.message, "m");
            assert_eq!(input.sound, "default");
            assert_eq!(input.icon, "rocket");
        }
        _ => panic!("expected an invocation"),
    }
}

#[test]
fn tools_call_without_id_is_invalid_request() {
    let cat = catalog(&[], &[]);
    let request =
        decode_request("{\"jsonrpc\":\"2.0\",\"method\":\"tools/call\",\"params\":{\"name\":\"notify\"}}");
    let v = parse(&serialize_response(&reply_of(handle_request(request, &cat))));
    assert!(v["id"].is_null());
    assert_eq!(v["error"]["code"].as_i64(), Some(-32600));
    assert_eq!(
        v["error"]["message"].as_str(),
        Some("Missing id for tools/call")
    );
}

#[test]
fn unknown_tool_is_named_in_the_error() {
    let cat = catalog(&[], &[]);
    let request = decode_request(
        "{\"jsonrpc\":\"2.0\",\"id\":1,\"method\":\"tools/call\",\"params\":{\"name\":\"frob\"}}",
    );
    let v = parse(&serialize_response(&reply_of(handle_request(request, &cat))));
    assert_eq!(v["error"]["code"].as_i64(), Some(-32602));
    assert_eq!(v["error"]["message"].as_str(), Some("Unknown tool: frob"));
}

#[test]
fn initialize_echoes_the_callers_protocol_version() {
    let cat = catalog(&[], &[]);
    let request = decode_request(
        "{\"jsonrpc\":\"2.0\",\"id\":1,\"method\":\"initialize\",\"params\":{\"protocolVersion\":\"9.9\"}}",
    );
    let v = parse(&serialize_response(&reply_of(handle_request(request, &cat))));
    assert_eq!(v["result"]["protocolVersion"].as_str(), Some("9.9"));
    assert_eq!(v["result"]["serverInfo"]["name"].as_str(), Some("toastmcp"));
}

#[test]
fn initialize_defaults_the_protocol_version() {
    let cat = catalog(&[], &[]);
    let request = decode_request("{\"jsonrpc\":\"2.0\",\"id\":1,\"method\":\"initialize\"}");
    let v = parse(&serialize_response(&reply_of(handle_request(request, &cat))));
    assert_eq!(v["result"]["protocolVersion"].as_str(), Some("2024-11-05"));
}

#[test]
fn tools_list_embeds_current_asset_enums() {
    let cat = catalog(&["b", "a"], &["ding"]);
    let request = decode_request("{\"jsonrpc\":\"2.0\",\"id\":1,\"method\":\"tools/list\"}");
    let v = parse(&serialize_response(&reply_of(handle_request(request, &cat))));
    let tools = v["result"]["tools"].as_array().unwrap();
    assert_eq!(tools.len(), 2);
    assert_eq!(tools[0]["name"].as_str(), Some("notify"));
    assert_eq!(tools[1]["name"].as_str(), Some("list_assets"));
    let props = &tools[0]["inputSchema"]["properties"];
    let icon_enum = props["icon"]["enum"].as_array().unwrap();
    assert_eq!(icon_enum[0].as_str(), Some("a"));
    assert_eq!(icon_enum[1].as_str(), Some("b"));
    let sound_enum = props["sound"]["enum"].as_array().unwrap();
    assert_eq!(sound_enum[0].as_str(), Some("ding"));
    let required = tools[0]["inputSchema"]["required"].as_array().unwrap();
    assert_eq!(required.len(), 4);
}

#[test]
fn tools_list_with_no_icons_offers_free_text() {
    let cat = catalog(&[], &["ding"]);
    let request = decode_request("{\"jsonrpc\":\"2.0\",\"id\":1,\"method\":\"tools/list\"}");
    let v = parse(&serialize_response(&reply_of(handle_request(request, &cat))));
    let icon = &v["result"]["tools"][0]["inputSchema"]["properties"]["icon"];
    assert!(icon.get("enum").is_none());
    assert!(icon["description"].as_str().unwrap().contains("icons/"));
}

#[test]
fn resources_list_and_read() {
    let cat = catalog(&["a"], &[]);
    let request = decode_request("{\"jsonrpc\":\"2.0\",\"id\":1,\"method\":\"resources/list\"}");
    let v = parse(&serialize_response(&reply_of(handle_request(request, &cat))));
    assert_eq!(
        v["result"]["resources"][0]["uri"].as_str(),
        Some("toastmcp://assets")
    );
    let request = decode_request(
        "{\"jsonrpc\":\"2.0\",\"id\":2,\"method\":\"resources/read\",\"params\":{\"uri\":\"toastmcp://assets\"}}",
    );
    let v = parse(&serialize_response(&reply_of(handle_request(request, &cat))));
    let text = v["result"]["contents"][0]["text"].as_str().unwrap();
    let inner = parse(text);
    assert_eq!(inner["icons"][0].as_str(), Some("a"));
}

#[test]
fn resources_read_of_unknown_uri_is_invalid_params() {
    let cat = catalog(&[], &[]);
    let request = decode_request(
        "{\"jsonrpc\":\"2.0\",\"id\":2,\"method\":\"resources/read\",\"params\":{\"uri\":\"x://y\"}}",
    );
    let v = parse(&serialize_response(&reply_of(handle_request(request, &cat))));
    assert_eq!(v["error"]["code"].as_i64(), Some(-32602));
    assert_eq!(v["error"]["message"].as_str(), Some("Unknown resource: x://y"));
}

#[test]
fn resource_templates_list_is_empty() {
    let cat = catalog(&[], &[]);
    let request =
        decode_request("{\"jsonrpc\":\"2.0\",\"id\":1,\"method\":\"resource-templates/list\"}");
    let v = parse(&serialize_response(&reply_of(handle_request(request, &cat))));
    assert_eq!(v["result"]["resourceTemplates"].as_array().unwrap().len(), 0);
}

#[test]
fn tool_failure_is_not_a_protocol_error() {
    let reply = notify_result_response(Json::Int(5), Err("Sound not found: zzz".to_string()));
    let v = parse(&serialize_response(&reply));
    assert!(v.get("error").is_none());
    assert_eq!(v["result"]["isError"].as_bool(), Some(true));
    assert_eq!(
        v["result"]["content"][0]["text"].as_str(),
        Some("Notification failed: Sound not found: zzz")
    );
}

#[test]
fn tool_success_reports_a_text_block() {
    let reply = notify_result_response(Json::Int(5), Ok(()));
    let v = parse(&serialize_response(&reply));
    assert!(v["result"].get("isError").is_none());
    assert_eq!(
        v["result"]["content"][0]["text"].as_str(),
        Some("Notification sent.")
    );
}

#[test]
fn string_ids_are_preserved_in_replies() {
    let cat = catalog(&[], &[]);
    let request = decode_request("{\"jsonrpc\":\"2.0\",\"id\":\"abc\",\"method\":\"ping\"}");
    let text = serialize_response(&reply_of(handle_request(request, &cat)));
    assert_eq!(text, "{\"jsonrpc\":\"2.0\",\"id\":\"abc\",\"result\":null}");
}
