//! The request dispatcher.
//!
//! [`handle_request`] maps one decoded request to exactly one of: a reply, no
//! reply at all (a notification to an unknown method), or an instruction to
//! invoke the notification collaborators and then reply with their outcome.
//! Every reply is pinned, value by value, by [`spec_dispatch`]; the text a
//! reply is serialized to is pinned by [`response_text`].

use vstd::prelude::*;

use crate::json::{
    json_text, json_view, json_view_arr, json_view_obj, lemma_json_view_arr, lemma_json_view_obj,
    push_json, push_json_str, quoted, Json, JsonV,
};
use crate::notify::{NotifyInput, NotifyInputV};
use crate::text::{dec_int, push_dec_i64, str_eq};

verus! {

/// One decoded request. An absent `id` makes the request a notification:
/// it never receives a reply, even on error.
pub struct Request {
    pub id: Option<Json>,
    pub method: String,
    pub params: Json,
}

/// The model of a [`Request`].
#[verifier::ext_equal]
pub struct RequestV {
    pub id: Option<JsonV>,
    pub method: Seq<char>,
    pub params: JsonV,
}

impl View for Request {
    type V = RequestV;

    open spec fn view(&self) -> RequestV {
        RequestV {
            id: match self.id {
                Some(j) => Some(j@),
                None => None,
            },
            method: self.method@,
            params: self.params@,
        }
    }
}

/// A protocol-level error: a reserved code and a human-readable message.
pub struct RpcError {
    pub code: i64,
    pub message: String,
}

/// The model of an [`RpcError`].
#[verifier::ext_equal]
pub struct RpcErrorV {
    pub code: int,
    pub message: Seq<char>,
}

impl View for RpcError {
    type V = RpcErrorV;

    open spec fn view(&self) -> RpcErrorV {
        RpcErrorV { code: self.code as int, message: self.message@ }
    }
}

/// One reply: the id it answers and either a result or an error.
pub struct Response {
    pub id: Json,
    pub outcome: Result<Json, RpcError>,
}

/// The model of a [`Response`].
#[verifier::ext_equal]
pub struct ResponseV {
    pub id: JsonV,
    pub outcome: Result<JsonV, RpcErrorV>,
}

impl View for Response {
    type V = ResponseV;

    open spec fn view(&self) -> ResponseV {
        ResponseV {
            id: self.id@,
            outcome: match &self.outcome {
                Ok(j) => Ok(j@),
                Err(e) => Err(e@),
            },
        }
    }
}

/// What the dispatcher decides for one request.
pub enum Dispatch {
    /// Send exactly this reply.
    Reply(Response),
    /// Send nothing: the request was a notification to an unknown method.
    NoReply,
    /// Run the notification invoker on `input`, then reply to `id` with its
    /// outcome through [`notify_result_response`].
    Invoke { id: Json, input: NotifyInput },
}

/// The model of a [`Dispatch`].
#[verifier::ext_equal]
pub enum DispatchV {
    Reply(ResponseV),
    NoReply,
    Invoke { id: JsonV, input: NotifyInputV },
}

impl View for Dispatch {
    type V = DispatchV;

    open spec fn view(&self) -> DispatchV {
        match self {
            Dispatch::Reply(r) => DispatchV::Reply(r@),
            Dispatch::NoReply => DispatchV::NoReply,
            Dispatch::Invoke { id, input } => DispatchV::Invoke { id: id@, input: input@ },
        }
    }
}

/// The current asset listings, as the registry enumerated them.
pub struct AssetCatalog {
    pub icons: Vec<String>,
    pub sounds: Vec<String>,
}

/// The views of a vector of strings.
pub open spec fn id_views(ids: Seq<String>) -> Seq<Seq<char>> {
    ids.map_values(|s: String| s@)
}

/// The value of the field `key` of an object, from entry `i` on; the first
/// entry with that key wins.
pub open spec fn obj_lookup_from(es: Seq<(Seq<char>, JsonV)>, key: Seq<char>, i: int) -> Option<
    JsonV,
>
    decreases (if i < es.len() { es.len() - i } else { 0 }),
{
    if 0 <= i < es.len() {
        if es[i].0 == key {
            Some(es[i].1)
        } else {
            obj_lookup_from(es, key, i + 1)
        }
    } else {
        None
    }
}

/// The value of the field `key` of `v`, when `v` is an object that has it.
pub open spec fn get_field(v: JsonV, key: Seq<char>) -> Option<JsonV> {
    match v {
        JsonV::Obj(es) => obj_lookup_from(es, key, 0),
        _ => None,
    }
}

/// The text of the field `key` of `v`, when present and a string.
pub open spec fn get_str(v: JsonV, key: Seq<char>) -> Option<Seq<char>> {
    match get_field(v, key) {
        Some(JsonV::Str(s)) => Some(s),
        _ => None,
    }
}

/// Looks up a field of a JSON value, as [`get_field`].
#[verifier::loop_isolation(false)]
pub fn json_get<'a>(j: &'a Json, key: &str) -> (r: Option<&'a Json>)
    ensures
        r is Some <==> get_field(j@, key@) is Some,
        r is Some ==> Some(r->0@) == get_field(j@, key@),
{
    match j {
        Json::Obj(entries) => {
            let ghost es = json_view_obj(entries@, 0);
            proof {
                lemma_json_view_obj(entries@, 0);
            }
            let mut i: usize = 0;
            loop
                invariant
                    i <= entries@.len(),
                    es == json_view_obj(entries@, 0),
                    es.len() == entries@.len(),
                    obj_lookup_from(es, key@, 0) == obj_lookup_from(es, key@, i as int),
                decreases entries@.len() - i,
            {
                if i == entries.len() {
                    return None;
                }
                proof {
                    lemma_json_view_obj(entries@, i as int);
                    assert(es[i as int] == (entries@[i as int].0@, json_view(
                        entries@[i as int].1,
                    )));
                }
                if str_eq(entries[i].0.as_str(), key) {
                    return Some(&entries[i].1);
                }
                i = i + 1;
            }
        },
        _ => None,
    }
}

/// Looks up a string field of a JSON value, as [`get_str`].
pub fn json_get_str<'a>(j: &'a Json, key: &str) -> (r: Option<&'a String>)
    ensures
        r is Some <==> get_str(j@, key@) is Some,
        r is Some ==> Some(r->0@) == get_str(j@, key@),
{
    match json_get(j, key) {
        Some(v) => match v {
            Json::Str(s) => Some(s),
            _ => None,
        },
        None => None,
    }
}

/// The id a reply carries: the request's own id, or `null` for a request
/// that had none but is answered anyway.
pub open spec fn id_or_null(id: Option<JsonV>) -> JsonV {
    match id {
        Some(v) => v,
        None => JsonV::Null,
    }
}

/// A successful reply.
pub open spec fn ok_v(id: Option<JsonV>, result: JsonV) -> DispatchV {
    DispatchV::Reply(ResponseV { id: id_or_null(id), outcome: Ok(result) })
}

/// An error reply.
pub open spec fn err_v(id: JsonV, code: int, message: Seq<char>) -> DispatchV {
    DispatchV::Reply(ResponseV { id, outcome: Err(RpcErrorV { code, message }) })
}

/// The protocol version echoed when the caller names none.
pub open spec fn default_protocol_version() -> Seq<char> {
    "2024-11-05"@
}

/// The result of `initialize`: the caller's protocol version when it sent
/// one (forward-compatible by design: it is never validated), static
/// capability flags, and the server identity.
pub open spec fn initialize_result(params: JsonV) -> JsonV {
    let pv = match get_str(params, "protocolVersion"@) {
        Some(s) => s,
        None => default_protocol_version(),
    };
    JsonV::Obj(
        seq![
            ("protocolVersion"@, JsonV::Str(pv)),
            (
                "capabilities"@,
                JsonV::Obj(
                    seq![
                        ("tools"@, JsonV::Obj(Seq::empty())),
                        ("resources"@, JsonV::Obj(Seq::empty())),
                    ],
                ),
            ),
            (
                "serverInfo"@,
                JsonV::Obj(
                    seq![
                        ("name"@, JsonV::Str("toastmcp"@)),
                        ("version"@, JsonV::Str("0.1.0"@)),
                    ],
                ),
            ),
        ],
    )
}

/// Each id as a JSON string value.
pub open spec fn str_items(ids: Seq<Seq<char>>) -> Seq<JsonV> {
    ids.map_values(|s: Seq<char>| JsonV::Str(s))
}

/// A free-text schema field, used when the id set is empty.
pub open spec fn text_schema(desc: Seq<char>) -> JsonV {
    JsonV::Obj(seq![("type"@, JsonV::Str("string"@)), ("description"@, JsonV::Str(desc))])
}

/// A schema field constrained to the current id set.
pub open spec fn enum_schema(ids: Seq<Seq<char>>) -> JsonV {
    JsonV::Obj(
        seq![
            ("type"@, JsonV::Str("string"@)),
            ("enum"@, JsonV::Arr(str_items(ids))),
            (
                "description"@,
                JsonV::Str("Required. Must be one of the enum values (no guessing)."@),
            ),
        ],
    )
}

/// The icon field's schema: an enum over the current icon ids, or free text
/// with an advisory description when none exist.
pub open spec fn icon_schema(icons: Seq<Seq<char>>) -> JsonV {
    if icons.len() == 0 {
        text_schema(
            "Required. Icon id from icons/ folder (without extension). Do not guess; add icons or call tools/list for the current enum."@,
        )
    } else {
        enum_schema(icons)
    }
}

/// The sound field's schema, regenerated from the current sound ids.
pub open spec fn sound_schema(sounds: Seq<Seq<char>>) -> JsonV {
    if sounds.len() == 0 {
        text_schema(
            "Required. Sound id from sounds/ folder (without extension). Do not guess; add sounds or call tools/list for the current enum."@,
        )
    } else {
        enum_schema(sounds)
    }
}

/// The result of `tools/list`: both tool descriptors, the notify tool's
/// schema embedding the present asset listings.
pub open spec fn tools_list_result(icons: Seq<Seq<char>>, sounds: Seq<Seq<char>>) -> JsonV {
    JsonV::Obj(
        seq![
            (
                "tools"@,
                JsonV::Arr(
                    seq![
                        JsonV::Obj(
                            seq![
                                ("name"@, JsonV::Str("notify"@)),
                                (
                                    "description"@,
                                    JsonV::Str(
                                        "Send a system toast + sound. Use only the provided icon/sound ids (no guessing); call tools/list to see the current enums."@,
                                    ),
                                ),
                                (
                                    "inputSchema"@,
                                    JsonV::Obj(
                                        seq![
                                            ("type"@, JsonV::Str("object"@)),
                                            ("additionalProperties"@, JsonV::Bool(false)),
                                            (
                                                "properties"@,
                                                JsonV::Obj(
                                                    seq![
                                                        (
                                                            "title"@,
                                                            text_schema(
                                                                "Very short description of the current project (5 words or less)."@,
                                                            ),
                                                        ),
                                                        (
                                                            "message"@,
                                                            JsonV::Obj(
                                                                seq![
                                                                    ("type"@, JsonV::Str("string"@)),
                                                                ],
                                                            ),
                                                        ),
                                                        ("sound"@, sound_schema(sounds)),
                                                        ("icon"@, icon_schema(icons)),
                                                    ],
                                                ),
                                            ),
                                            (
                                                "required"@,
                                                JsonV::Arr(
                                                    seq![
                                                        JsonV::Str("title"@),
                                                        JsonV::Str("message"@),
                                                        JsonV::Str("sound"@),
                                                        JsonV::Str("icon"@),
                                                    ],
                                                ),
                                            ),
                                        ],
                                    ),
                                ),
                            ],
                        ),
                        JsonV::Obj(
                            seq![
                                ("name"@, JsonV::Str("list_assets"@)),
                                (
                                    "description"@,
                                    JsonV::Str("List available icon and sound ids for ToastMCP."@),
                                ),
                                (
                                    "inputSchema"@,
                                    JsonV::Obj(
                                        seq![
                                            ("type"@, JsonV::Str("object"@)),
                                            ("additionalProperties"@, JsonV::Bool(false)),
                                            ("properties"@, JsonV::Obj(Seq::empty())),
                                        ],
                                    ),
                                ),
                            ],
                        ),
                    ],
                ),
            ),
        ],
    )
}

/// The asset catalogue as one JSON object.
pub open spec fn assets_json(icons: Seq<Seq<char>>, sounds: Seq<Seq<char>>) -> JsonV {
    JsonV::Obj(
        seq![
            ("icons"@, JsonV::Arr(str_items(icons))),
            ("sounds"@, JsonV::Arr(str_items(sounds))),
        ],
    )
}

/// A tool result carrying one text content block.
pub open spec fn text_content_result(text: Seq<char>) -> JsonV {
    JsonV::Obj(
        seq![
            (
                "content"@,
                JsonV::Arr(
                    seq![
                        JsonV::Obj(
                            seq![("type"@, JsonV::Str("text"@)), ("text"@, JsonV::Str(text))],
                        ),
                    ],
                ),
            ),
        ],
    )
}

/// How `tools/call` arguments decode into a notification input: an object
/// whose `title`, `message`, `sound` and `icon` fields are all present
/// strings, or the first failure, named.
pub open spec fn notify_input_of(args: JsonV) -> Result<NotifyInputV, Seq<char>> {
    match args {
        JsonV::Obj(es) => match obj_lookup_from(es, "title"@, 0) {
            None => Err("missing field `title`"@),
            Some(t) => match t {
                JsonV::Str(title) => match obj_lookup_from(es, "message"@, 0) {
                    None => Err("missing field `message`"@),
                    Some(m) => match m {
                        JsonV::Str(message) => match obj_lookup_from(es, "sound"@, 0) {
                            None => Err("missing field `sound`"@),
                            Some(sv) => match sv {
                                JsonV::Str(sound) => match obj_lookup_from(es, "icon"@, 0) {
                                    None => Err("missing field `icon`"@),
                                    Some(ic) => match ic {
                                        JsonV::Str(icon) => Ok(
                                            NotifyInputV { title, message, sound, icon },
                                        ),
                                        _ => Err("field `icon` is not a string"@),
                                    },
                                },
                                _ => Err("field `sound` is not a string"@),
                            },
                        },
                        _ => Err("field `message` is not a string"@),
                    },
                },
                _ => Err("field `title` is not a string"@),
            },
        },
        _ => Err("arguments are not an object"@),
    }
}

/// The resource descriptor list for `resources/list`.
pub open spec fn resources_list_result() -> JsonV {
    JsonV::Obj(
        seq![
            (
                "resources"@,
                JsonV::Arr(
                    seq![
                        JsonV::Obj(
                            seq![
                                ("uri"@, JsonV::Str("toastmcp://assets"@)),
                                ("name"@, JsonV::Str("ToastMCP assets"@)),
                                (
                                    "description"@,
                                    JsonV::Str("Lists available icon and sound ids."@),
                                ),
                                ("mimeType"@, JsonV::Str("application/json"@)),
                            ],
                        ),
                    ],
                ),
            ),
        ],
    )
}

/// The result of `resources/read` for the one catalogue resource.
pub open spec fn resources_read_result(icons: Seq<Seq<char>>, sounds: Seq<Seq<char>>) -> JsonV {
    JsonV::Obj(
        seq![
            (
                "contents"@,
                JsonV::Arr(
                    seq![
                        JsonV::Obj(
                            seq![
                                ("uri"@, JsonV::Str("toastmcp://assets"@)),
                                ("mimeType"@, JsonV::Str("application/json"@)),
                                ("text"@, JsonV::Str(json_text(assets_json(icons, sounds)))),
                            ],
                        ),
                    ],
                ),
            ),
        ],
    )
}

/// What `tools/call` decides.
pub open spec fn spec_tools_call(
    req: RequestV,
    icons: Seq<Seq<char>>,
    sounds: Seq<Seq<char>>,
) -> DispatchV {
    match req.id {
        None => err_v(JsonV::Null, -32600, "Missing id for tools/call"@),
        Some(id) => {
            let name = match get_str(req.params, "name"@) {
                Some(n) => n,
                None => Seq::empty(),
            };
            if name == "list_assets"@ {
                DispatchV::Reply(
                    ResponseV {
                        id,
                        outcome: Ok(text_content_result(json_text(assets_json(icons, sounds)))),
                    },
                )
            } else if name != "notify"@ {
                err_v(id, -32602, "Unknown tool: "@ + name)
            } else {
                let args = match get_field(req.params, "arguments"@) {
                    Some(a) => a,
                    None => JsonV::Null,
                };
                match notify_input_of(args) {
                    Ok(input) => DispatchV::Invoke { id, input },
                    Err(msg) => err_v(id, -32602, "Invalid arguments: "@ + msg),
                }
            }
        },
    }
}

/// What the dispatcher decides for one request: zero or one reply, or one
/// notification invocation that will itself be answered.
pub open spec fn spec_dispatch(
    req: RequestV,
    icons: Seq<Seq<char>>,
    sounds: Seq<Seq<char>>,
) -> DispatchV {
    if req.method == "initialize"@ {
        ok_v(req.id, initialize_result(req.params))
    } else if req.method == "tools/list"@ {
        ok_v(req.id, tools_list_result(icons, sounds))
    } else if req.method == "tools/call"@ {
        spec_tools_call(req, icons, sounds)
    } else if req.method == "resources/list"@ {
        ok_v(req.id, resources_list_result())
    } else if req.method == "resources/read"@ {
        let uri = match get_str(req.params, "uri"@) {
            Some(u) => u,
            None => Seq::empty(),
        };
        if uri == "toastmcp://assets"@ {
            ok_v(req.id, resources_read_result(icons, sounds))
        } else {
            err_v(id_or_null(req.id), -32602, "Unknown resource: "@ + uri)
        }
    } else if req.method == "resource-templates/list"@ {
        ok_v(req.id, JsonV::Obj(seq![("resourceTemplates"@, JsonV::Arr(Seq::empty()))]))
    } else if req.method == "ping"@ {
        ok_v(req.id, JsonV::Null)
    } else {
        match req.id {
            Some(id) => err_v(id, -32601, "Method not found: "@ + req.method),
            None => DispatchV::NoReply,
        }
    }
}


fn jstr(s: &str) -> (j: Json)
    ensures
        j@ == JsonV::Str(s@),
{
    Json::Str(s.to_owned())
}

fn jobj0() -> (j: Json)
    ensures
        j@ == JsonV::Obj(Seq::<(Seq<char>, JsonV)>::empty()),
{
    let entries: Vec<(String, Json)> = Vec::new();
    let j = Json::Obj(entries);
    proof {
        lemma_json_view_obj(Seq::empty(), 0);
        assert(json_view_obj(Seq::<(String, Json)>::empty(), 0) =~= Seq::<
            (Seq<char>, JsonV),
        >::empty());
    }
    j
}

fn jobj1(k1: &str, v1: Json) -> (j: Json)
    ensures
        j@ == JsonV::Obj(seq![(k1@, v1@)]),
{
    let ghost gv1 = v1@;
    let mut entries: Vec<(String, Json)> = Vec::new();
    entries.push((k1.to_owned(), v1));
    let j = Json::Obj(entries);
    proof {
        lemma_json_view_obj(j->Obj_0@, 0);
        assert(json_view_obj(j->Obj_0@, 0) =~= seq![(k1@, gv1)]);
    }
    j
}

fn jobj2(k1: &str, v1: Json, k2: &str, v2: Json) -> (j: Json)
    ensures
        j@ == JsonV::Obj(seq![(k1@, v1@), (k2@, v2@)]),
{
    let ghost gv1 = v1@;
    let ghost gv2 = v2@;
    let mut entries: Vec<(String, Json)> = Vec::new();
    entries.push((k1.to_owned(), v1));
    entries.push((k2.to_owned(), v2));
    let j = Json::Obj(entries);
    proof {
        lemma_json_view_obj(j->Obj_0@, 0);
        lemma_json_view_obj(j->Obj_0@, 1);
        assert(json_view_obj(j->Obj_0@, 0) =~= seq![(k1@, gv1), (k2@, gv2)]);
    }
    j
}

fn jobj3(k1: &str, v1: Json, k2: &str, v2: Json, k3: &str, v3: Json) -> (j: Json)
    ensures
        j@ == JsonV::Obj(seq![(k1@, v1@), (k2@, v2@), (k3@, v3@)]),
{
    let ghost gv1 = v1@;
    let ghost gv2 = v2@;
    let ghost gv3 = v3@;
    let mut entries: Vec<(String, Json)> = Vec::new();
    entries.push((k1.to_owned(), v1));
    entries.push((k2.to_owned(), v2));
    entries.push((k3.to_owned(), v3));
    let j = Json::Obj(entries);
    proof {
        lemma_json_view_obj(j->Obj_0@, 0);
        lemma_json_view_obj(j->Obj_0@, 1);
        lemma_json_view_obj(j->Obj_0@, 2);
        assert(json_view_obj(j->Obj_0@, 0) =~= seq![(k1@, gv1), (k2@, gv2), (k3@, gv3)]);
    }
    j
}

fn jobj4(k1: &str, v1: Json, k2: &str, v2: Json, k3: &str, v3: Json, k4: &str, v4: Json) -> (j:
    Json)
    ensures
        j@ == JsonV::Obj(seq![(k1@, v1@), (k2@, v2@), (k3@, v3@), (k4@, v4@)]),
{
    let ghost gv1 = v1@;
    let ghost gv2 = v2@;
    let ghost gv3 = v3@;
    let ghost gv4 = v4@;
    let mut entries: Vec<(String, Json)> = Vec::new();
    entries.push((k1.to_owned(), v1));
    entries.push((k2.to_owned(), v2));
    entries.push((k3.to_owned(), v3));
    entries.push((k4.to_owned(), v4));
    let j = Json::Obj(entries);
    proof {
        lemma_json_view_obj(j->Obj_0@, 0);
        lemma_json_view_obj(j->Obj_0@, 1);
        lemma_json_view_obj(j->Obj_0@, 2);
        lemma_json_view_obj(j->Obj_0@, 3);
        assert(json_view_obj(j->Obj_0@, 0) =~= seq![
            (k1@, gv1),
            (k2@, gv2),
            (k3@, gv3),
            (k4@, gv4),
        ]);
    }
    j
}

fn jarr0() -> (j: Json)
    ensures
        j@ == JsonV::Arr(Seq::<JsonV>::empty()),
{
    let items: Vec<Json> = Vec::new();
    let j = Json::Arr(items);
    proof {
        lemma_json_view_arr(Seq::empty(), 0);
        assert(json_view_arr(Seq::<Json>::empty(), 0) =~= Seq::<JsonV>::empty());
    }
    j
}

fn jarr1(a: Json) -> (j: Json)
    ensures
        j@ == JsonV::Arr(seq![a@]),
{
    let ghost ga = a@;
    let mut items: Vec<Json> = Vec::new();
    items.push(a);
    let j = Json::Arr(items);
    proof {
        lemma_json_view_arr(j->Arr_0@, 0);
        assert(json_view_arr(j->Arr_0@, 0) =~= seq![ga]);
    }
    j
}

fn jarr2(a: Json, b: Json) -> (j: Json)
    ensures
        j@ == JsonV::Arr(seq![a@, b@]),
{
    let ghost ga = a@;
    let ghost gb = b@;
    let mut items: Vec<Json> = Vec::new();
    items.push(a);
    items.push(b);
    let j = Json::Arr(items);
    proof {
        lemma_json_view_arr(j->Arr_0@, 0);
        lemma_json_view_arr(j->Arr_0@, 1);
        assert(json_view_arr(j->Arr_0@, 0) =~= seq![ga, gb]);
    }
    j
}

fn jarr4(a: Json, b: Json, c: Json, d: Json) -> (j: Json)
    ensures
        j@ == JsonV::Arr(seq![a@, b@, c@, d@]),
{
    let ghost ga = a@;
    let ghost gb = b@;
    let ghost gc = c@;
    let ghost gd = d@;
    let mut items: Vec<Json> = Vec::new();
    items.push(a);
    items.push(b);
    items.push(c);
    items.push(d);
    let j = Json::Arr(items);
    proof {
        lemma_json_view_arr(j->Arr_0@, 0);
        lemma_json_view_arr(j->Arr_0@, 1);
        lemma_json_view_arr(j->Arr_0@, 2);
        lemma_json_view_arr(j->Arr_0@, 3);
        assert(json_view_arr(j->Arr_0@, 0) =~= seq![ga, gb, gc, gd]);
    }
    j
}

/// Each id in the listing, as a JSON string value.
#[verifier::loop_isolation(false)]
fn jarr_ids(ids: &Vec<String>) -> (j: Json)
    ensures
        j@ == JsonV::Arr(str_items(id_views(ids@))),
{
    let mut items: Vec<Json> = Vec::new();
    let mut i: usize = 0;
    loop
        invariant
            i <= ids@.len(),
            items@.len() == i,
            forall|m: int|
                0 <= m < i ==> json_view(#[trigger] items@[m]) == JsonV::Str(ids@[m]@),
        decreases ids@.len() - i,
    {
        if i == ids.len() {
            break;
        }
        items.push(Json::Str(ids[i].clone()));
        i = i + 1;
    }
    let j = Json::Arr(items);
    proof {
        assert forall|m: int| 0 <= m < j->Arr_0@.len() implies #[trigger] json_view_arr(
            j->Arr_0@,
            0,
        )[m] == str_items(id_views(ids@))[m] by {
            lemma_json_view_arr(j->Arr_0@, m);
            assert(id_views(ids@)[m] == ids@[m]@);
            assert(str_items(id_views(ids@))[m] == JsonV::Str(ids@[m]@));
        }
        lemma_json_view_arr(j->Arr_0@, 0);
        assert(json_view_arr(j->Arr_0@, 0) =~= str_items(id_views(ids@)));
    }
    j
}

/// A successful reply to `request`.
fn ok_response(request: Request, result: Json) -> (r: Response)
    ensures
        DispatchV::Reply(r@) == ok_v(request@.id, result@),
{
    let id = match request.id {
        Some(v) => v,
        None => Json::Null,
    };
    Response { id, outcome: Ok(result) }
}

/// An error reply.
fn error_response(id: Json, code: i64, message: String) -> (r: Response)
    ensures
        DispatchV::Reply(r@) == err_v(id@, code as int, message@),
{
    Response { id, outcome: Err(RpcError { code, message }) }
}

fn handle_initialize(request: Request) -> (r: Response)
    ensures
        DispatchV::Reply(r@) == ok_v(request@.id, initialize_result(request@.params)),
{
    let pv: String = match json_get_str(&request.params, "protocolVersion") {
        Some(s) => s.clone(),
        None => "2024-11-05".to_owned(),
    };
    let result = jobj3(
        "protocolVersion",
        Json::Str(pv),
        "capabilities",
        jobj2("tools", jobj0(), "resources", jobj0()),
        "serverInfo",
        jobj2("name", jstr("toastmcp"), "version", jstr("0.1.0")),
    );
    proof {
        assert(result@ =~~= initialize_result(request@.params));
    }
    ok_response(request, result)
}

fn build_text_schema(desc: &str) -> (j: Json)
    ensures
        j@ == text_schema(desc@),
{
    let j = jobj2("type", jstr("string"), "description", jstr(desc));
    proof {
        assert(j@ =~~= text_schema(desc@));
    }
    j
}

fn build_enum_schema(ids: &Vec<String>) -> (j: Json)
    ensures
        j@ == enum_schema(id_views(ids@)),
{
    let j = jobj3(
        "type",
        jstr("string"),
        "enum",
        jarr_ids(ids),
        "description",
        jstr("Required. Must be one of the enum values (no guessing)."),
    );
    proof {
        assert(j@ =~~= enum_schema(id_views(ids@)));
    }
    j
}

fn build_icon_schema(ids: &Vec<String>) -> (j: Json)
    ensures
        j@ == icon_schema(id_views(ids@)),
{
    if ids.len() == 0 {
        proof {
            assert(id_views(ids@).len() == 0);
        }
        build_text_schema(
            "Required. Icon id from icons/ folder (without extension). Do not guess; add icons or call tools/list for the current enum.",
        )
    } else {
        proof {
            assert(id_views(ids@).len() > 0);
        }
        build_enum_schema(ids)
    }
}

fn build_sound_schema(ids: &Vec<String>) -> (j: Json)
    ensures
        j@ == sound_schema(id_views(ids@)),
{
    if ids.len() == 0 {
        proof {
            assert(id_views(ids@).len() == 0);
        }
        build_text_schema(
            "Required. Sound id from sounds/ folder (without extension). Do not guess; add sounds or call tools/list for the current enum.",
        )
    } else {
        proof {
            assert(id_views(ids@).len() > 0);
        }
        build_enum_schema(ids)
    }
}

fn handle_tools_list(request: Request, catalog: &AssetCatalog) -> (r: Response)
    ensures
        DispatchV::Reply(r@) == ok_v(
            request@.id,
            tools_list_result(id_views(catalog.icons@), id_views(catalog.sounds@)),
        ),
{
    let notify_tool = jobj3(
        "name",
        jstr("notify"),
        "description",
        jstr(
            "Send a system toast + sound. Use only the provided icon/sound ids (no guessing); call tools/list to see the current enums.",
        ),
        "inputSchema",
        jobj4(
            "type",
            jstr("object"),
            "additionalProperties",
            Json::Bool(false),
            "properties",
            jobj4(
                "title",
                build_text_schema("Very short description of the current project (5 words or less)."),
                "message",
                jobj1("type", jstr("string")),
                "sound",
                build_sound_schema(&catalog.sounds),
                "icon",
                build_icon_schema(&catalog.icons),
            ),
            "required",
            jarr4(jstr("title"), jstr("message"), jstr("sound"), jstr("icon")),
        ),
    );
    let list_assets_tool = jobj3(
        "name",
        jstr("list_assets"),
        "description",
        jstr("List available icon and sound ids for ToastMCP."),
        "inputSchema",
        jobj3(
            "type",
            jstr("object"),
            "additionalProperties",
            Json::Bool(false),
            "properties",
            jobj0(),
        ),
    );
    let result = jobj1("tools", jarr2(notify_tool, list_assets_tool));
    proof {
        assert(result@ =~~= tools_list_result(
            id_views(catalog.icons@),
            id_views(catalog.sounds@),
        ));
    }
    ok_response(request, result)
}

/// The asset catalogue as one JSON value.
fn build_assets_json(catalog: &AssetCatalog) -> (j: Json)
    ensures
        j@ == assets_json(id_views(catalog.icons@), id_views(catalog.sounds@)),
{
    let j = jobj2("icons", jarr_ids(&catalog.icons), "sounds", jarr_ids(&catalog.sounds));
    proof {
        assert(j@ =~~= assets_json(id_views(catalog.icons@), id_views(catalog.sounds@)));
    }
    j
}

fn build_text_content(text: String) -> (j: Json)
    ensures
        j@ == text_content_result(text@),
{
    let block = jobj2("type", jstr("text"), "text", Json::Str(text));
    let j = jobj1("content", jarr1(block));
    proof {
        assert(j@ =~~= text_content_result(text@));
    }
    j
}

/// Decodes `tools/call` arguments into a notification input, or the first
/// failure, named as [`notify_input_of`] names it.
fn parse_notify_input(args: &Json) -> (r: Result<NotifyInput, String>)
    ensures
        ({
            let spec_r = notify_input_of(args@);
            match r {
                Ok(input) => spec_r is Ok && input@ == spec_r->Ok_0,
                Err(msg) => spec_r is Err && msg@ == spec_r->Err_0,
            }
        }),
{
    match args {
        Json::Obj(_) => {
            let title = match json_get(args, "title") {
                None => {
                    return Err("missing field `title`".to_owned());
                },
                Some(t) => match t {
                    Json::Str(s) => s.clone(),
                    _ => {
                        return Err("field `title` is not a string".to_owned());
                    },
                },
            };
            let message = match json_get(args, "message") {
                None => {
                    return Err("missing field `message`".to_owned());
                },
                Some(m) => match m {
                    Json::Str(s) => s.clone(),
                    _ => {
                        return Err("field `message` is not a string".to_owned());
                    },
                },
            };
            let sound = match json_get(args, "sound") {
                None => {
                    return Err("missing field `sound`".to_owned());
                },
                Some(sv) => match sv {
                    Json::Str(s) => s.clone(),
                    _ => {
                        return Err("field `sound` is not a string".to_owned());
                    },
                },
            };
            let icon = match json_get(args, "icon") {
                None => {
                    return Err("missing field `icon`".to_owned());
                },
                Some(ic) => match ic {
                    Json::Str(s) => s.clone(),
                    _ => {
                        return Err("field `icon` is not a string".to_owned());
                    },
                },
            };
            Ok(NotifyInput { title, message, sound, icon })
        },
        _ => Err("arguments are not an object".to_owned()),
    }
}

fn handle_tools_call(request: Request, catalog: &AssetCatalog) -> (d: Dispatch)
    ensures
        d@ == spec_tools_call(request@, id_views(catalog.icons@), id_views(catalog.sounds@)),
{
    let id = match request.id {
        Some(v) => v,
        None => {
            return Dispatch::Reply(
                error_response(Json::Null, -32600, "Missing id for tools/call".to_owned()),
            );
        },
    };
    proof {
        reveal_strlit("list_assets");
        reveal_strlit("notify");
    }
    let is_list_assets = match json_get_str(&request.params, "name") {
        Some(n) => str_eq(n.as_str(), "list_assets"),
        None => false,
    };
    if is_list_assets {
        let assets = build_assets_json(catalog);
        let text = crate::json::json_to_string(&assets);
        let result = build_text_content(text);
        return Dispatch::Reply(Response { id, outcome: Ok(result) });
    }
    let is_notify = match json_get_str(&request.params, "name") {
        Some(n) => str_eq(n.as_str(), "notify"),
        None => false,
    };
    if !is_notify {
        let mut msg = String::new();
        msg.append("Unknown tool: ");
        match json_get_str(&request.params, "name") {
            Some(n) => {
                msg.append(n.as_str());
            },
            None => {},
        }
        proof {
            let name = match get_str(request@.params, "name"@) {
                Some(n) => n,
                None => Seq::<char>::empty(),
            };
            assert(msg@ =~= "Unknown tool: "@ + name);
        }
        return Dispatch::Reply(error_response(id, -32602, msg));
    }
    let null_args = Json::Null;
    let args = match json_get(&request.params, "arguments") {
        Some(a) => a,
        None => &null_args,
    };
    match parse_notify_input(args) {
        Ok(input) => Dispatch::Invoke { id, input },
        Err(err) => {
            let mut msg = String::new();
            msg.append("Invalid arguments: ");
            msg.append(err.as_str());
            proof {
                assert(msg@ =~= "Invalid arguments: "@ + err@);
            }
            Dispatch::Reply(error_response(id, -32602, msg))
        },
    }
}

fn handle_resources_list(request: Request) -> (r: Response)
    ensures
        DispatchV::Reply(r@) == ok_v(request@.id, resources_list_result()),
{
    let descriptor = jobj4(
        "uri",
        jstr("toastmcp://assets"),
        "name",
        jstr("ToastMCP assets"),
        "description",
        jstr("Lists available icon and sound ids."),
        "mimeType",
        jstr("application/json"),
    );
    let result = jobj1("resources", jarr1(descriptor));
    proof {
        assert(result@ =~~= resources_list_result());
    }
    ok_response(request, result)
}

fn handle_resource_templates_list(request: Request) -> (r: Response)
    ensures
        DispatchV::Reply(r@) == ok_v(
            request@.id,
            JsonV::Obj(seq![("resourceTemplates"@, JsonV::Arr(Seq::<JsonV>::empty()))]),
        ),
{
    let result = jobj1("resourceTemplates", jarr0());
    ok_response(request, result)
}

fn handle_resources_read(request: Request, catalog: &AssetCatalog) -> (r: Response)
    ensures
        ({
            let uri = match get_str(request@.params, "uri"@) {
                Some(u) => u,
                None => Seq::<char>::empty(),
            };
            DispatchV::Reply(r@) == (if uri == "toastmcp://assets"@ {
                ok_v(
                    request@.id,
                    resources_read_result(id_views(catalog.icons@), id_views(catalog.sounds@)),
                )
            } else {
                err_v(id_or_null(request@.id), -32602, "Unknown resource: "@ + uri)
            })
        }),
{
    proof {
        reveal_strlit("toastmcp://assets");
    }
    let uri_matches = match json_get_str(&request.params, "uri") {
        Some(u) => str_eq(u.as_str(), "toastmcp://assets"),
        None => false,
    };
    if !uri_matches {
        let mut msg = String::new();
        msg.append("Unknown resource: ");
        match json_get_str(&request.params, "uri") {
            Some(u) => {
                msg.append(u.as_str());
            },
            None => {},
        }
        proof {
            let uri = match get_str(request@.params, "uri"@) {
                Some(u) => u,
                None => Seq::<char>::empty(),
            };
            assert(msg@ =~= "Unknown resource: "@ + uri);
        }
        let id = match request.id {
            Some(v) => v,
            None => Json::Null,
        };
        return error_response(id, -32602, msg);
    }
    let assets = build_assets_json(catalog);
    let text = crate::json::json_to_string(&assets);
    let contents = jobj3(
        "uri",
        jstr("toastmcp://assets"),
        "mimeType",
        jstr("application/json"),
        "text",
        Json::Str(text),
    );
    let result = jobj1("contents", jarr1(contents));
    proof {
        assert(result@ =~~= resources_read_result(
            id_views(catalog.icons@),
            id_views(catalog.sounds@),
        ));
    }
    ok_response(request, result)
}

/// Maps one decoded request to its dispatch decision, exactly as
/// [`spec_dispatch`] says.
pub fn handle_request(request: Request, catalog: &AssetCatalog) -> (d: Dispatch)
    ensures
        d@ == spec_dispatch(request@, id_views(catalog.icons@), id_views(catalog.sounds@)),
{
    if str_eq(request.method.as_str(), "initialize") {
        Dispatch::Reply(handle_initialize(request))
    } else if str_eq(request.method.as_str(), "tools/list") {
        Dispatch::Reply(handle_tools_list(request, catalog))
    } else if str_eq(request.method.as_str(), "tools/call") {
        handle_tools_call(request, catalog)
    } else if str_eq(request.method.as_str(), "resources/list") {
        Dispatch::Reply(handle_resources_list(request))
    } else if str_eq(request.method.as_str(), "resources/read") {
        Dispatch::Reply(handle_resources_read(request, catalog))
    } else if str_eq(request.method.as_str(), "resource-templates/list") {
        Dispatch::Reply(handle_resource_templates_list(request))
    } else if str_eq(request.method.as_str(), "ping") {
        Dispatch::Reply(ok_response(request, Json::Null))
    } else {
        match request.id {
            Some(id) => {
                let mut msg = String::new();
                msg.append("Method not found: ");
                msg.append(request.method.as_str());
                proof {
                    assert(msg@ =~= "Method not found: "@ + request.method@);
                }
                Dispatch::Reply(error_response(id, -32601, msg))
            },
            None => Dispatch::NoReply,
        }
    }
}

/// The reply reporting a notification invocation's outcome. A failure of
/// the invoker is not a protocol error: the reply is successful and its
/// payload carries the error flag and a human-readable explanation.
pub open spec fn notify_result_v(id: JsonV, outcome: Result<(), Seq<char>>) -> ResponseV {
    match outcome {
        Ok(_) => ResponseV {
            id,
            outcome: Ok(text_content_result("Notification sent."@)),
        },
        Err(e) => ResponseV {
            id,
            outcome: Ok(
                JsonV::Obj(
                    seq![
                        (
                            "content"@,
                            JsonV::Arr(
                                seq![
                                    JsonV::Obj(
                                        seq![
                                            ("type"@, JsonV::Str("text"@)),
                                            ("text"@, JsonV::Str("Notification failed: "@ + e)),
                                        ],
                                    ),
                                ],
                            ),
                        ),
                        ("isError"@, JsonV::Bool(true)),
                    ],
                ),
            ),
        },
    }
}

/// Builds the reply for a notification invocation's outcome.
pub fn notify_result_response(id: Json, outcome: Result<(), String>) -> (r: Response)
    ensures
        r@ == notify_result_v(
            id@,
            match outcome {
                Ok(_) => Ok(()),
                Err(e) => Err(e@),
            },
        ),
{
    match outcome {
        Ok(_) => {
            let result = build_text_content("Notification sent.".to_owned());
            Response { id, outcome: Ok(result) }
        },
        Err(e) => {
            let mut text = String::new();
            text.append("Notification failed: ");
            text.append(e.as_str());
            proof {
                assert(text@ =~= "Notification failed: "@ + e@);
            }
            let block = jobj2("type", jstr("text"), "text", Json::Str(text));
            let result = jobj2("content", jarr1(block), "isError", Json::Bool(true));
            proof {
                assert(Response { id, outcome: Ok(result) }@ =~~= notify_result_v(id@, Err(e@)));
            }
            Response { id, outcome: Ok(result) }
        },
    }
}

/// The exact text a reply is serialized to.
pub open spec fn response_text(r: ResponseV) -> Seq<char> {
    "{\"jsonrpc\":\"2.0\",\"id\":"@ + json_text(r.id) + (match r.outcome {
        Ok(result) => ",\"result\":"@ + json_text(result),
        Err(e) => ",\"error\":{\"code\":"@ + dec_int(e.code) + ",\"message\":"@ + quoted(e.message)
            + "}"@,
    }) + "}"@
}

/// Serializes one reply.
pub fn serialize_response(r: &Response) -> (s: String)
    ensures
        s@ == response_text(r@),
{
    let mut out = String::new();
    out.append("{\"jsonrpc\":\"2.0\",\"id\":");
    push_json(&mut out, &r.id);
    match &r.outcome {
        Ok(result) => {
            out.append(",\"result\":");
            push_json(&mut out, result);
        },
        Err(e) => {
            out.append(",\"error\":{\"code\":");
            push_dec_i64(&mut out, e.code);
            out.append(",\"message\":");
            push_json_str(&mut out, e.message.as_str());
            out.append("}");
        },
    }
    out.append("}");
    proof {
        assert(out@ =~= response_text(r@));
    }
    out
}


/// Whether the dispatcher knows the method at all.
pub open spec fn is_known_method(m: Seq<char>) -> bool {
    m == "initialize"@ || m == "tools/list"@ || m == "tools/call"@ || m == "resources/list"@ || m
        == "resources/read"@ || m == "resource-templates/list"@ || m == "ping"@
}

/// The response discipline: a request that carries an id is never dropped —
/// it yields exactly one reply, or one invocation that is itself answered
/// through [`notify_result_response`], and in either case the answer carries
/// that id (`tools/call` answers with its own id even when the request had
/// none). A request without an id sent to an unknown method yields nothing
/// at all.
pub proof fn lemma_response_discipline(req: RequestV, icons: Seq<Seq<char>>, sounds: Seq<Seq<char>>)
    ensures
        req.id is Some ==> match spec_dispatch(req, icons, sounds) {
            DispatchV::Reply(r) => r.id == req.id->0,
            DispatchV::Invoke { id, input } => id == req.id->0,
            DispatchV::NoReply => false,
        },
        (req.id is None && !is_known_method(req.method)) ==> spec_dispatch(req, icons, sounds)
            is NoReply,
{
}

/// A `tools/call` of the notify tool whose arguments lack the `title`
/// field is answered with an invalid-params error, never dropped and never
/// an invocation.
pub proof fn lemma_notify_missing_title(
    req: RequestV,
    icons: Seq<Seq<char>>,
    sounds: Seq<Seq<char>>,
)
    requires
        req.method == "tools/call"@,
        req.id is Some,
        get_str(req.params, "name"@) == Some("notify"@),
        match get_field(req.params, "arguments"@) {
            Some(JsonV::Obj(es)) => obj_lookup_from(es, "title"@, 0) is None,
            _ => false,
        },
    ensures
        match spec_dispatch(req, icons, sounds) {
            DispatchV::Reply(r) => r.id == req.id->0 && (r.outcome matches Err(e) && e.code
                == -32602),
            _ => false,
        },
{
    reveal_strlit("notify");
    reveal_strlit("list_assets");
    reveal_strlit("initialize");
    reveal_strlit("tools/list");
    reveal_strlit("tools/call");
    assert("notify"@ != "list_assets"@) by {
        assert("notify"@.len() == 6);
        assert("list_assets"@.len() == 11);
    }
    assert(req.method != "initialize"@) by {
        assert("tools/call"@.len() == 10);
        assert("initialize"@.len() == 10);
        assert("tools/call"@[0] == 't');
        assert("initialize"@[0] == 'i');
    }
    assert(req.method != "tools/list"@) by {
        assert("tools/call"@[6] == 'c');
        assert("tools/list"@[6] == 'l');
    }
}

} // verus!

