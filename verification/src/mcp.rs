//! The notes server's message routing: one JSON-RPC message per line in, at
//! most one line out.
//!
//! A blank line is nothing; a line that is not JSON is answered with a parse
//! error and no id; a message that is not one object is an invalid request; a
//! response is ignored, a notification is answered with nothing, and a request
//! with no method is refused. The rest is dispatched by its method: the
//! handshake, a ping and the two listings are answered here, and the tools and
//! the resource, which read and write the notes store, go back to the shell.

use vstd::prelude::*;
use crate::text::{chars_of, same_str, string_of, trim, trimmed};

verus! {

/// A JSON value, its numbers kept as the text that spells them.
#[derive(Debug)]
pub enum Json {
    Null,
    Bool(bool),
    Number(String),
    Text(String),
    Array(Vec<Json>),
    Object(Vec<(String, Json)>),
}

/// A JSON value as values.
pub enum JsonView {
    Null,
    Bool(bool),
    Number(Seq<char>),
    Text(Seq<char>),
    Array(Seq<JsonView>),
    Object(Seq<(Seq<char>, JsonView)>),
}

/// `j` as values.
pub open spec fn view_of(j: Json) -> JsonView
    decreases j,
{
    match j {
        Json::Null => JsonView::Null,
        Json::Bool(b) => JsonView::Bool(b),
        Json::Number(n) => JsonView::Number(n@),
        Json::Text(t) => JsonView::Text(t@),
        Json::Array(items) => JsonView::Array(
            Seq::new(
                items@.len(),
                |i: int|
                    if 0 <= i < items@.len() {
                        view_of(items@[i])
                    } else {
                        JsonView::Null
                    },
            ),
        ),
        Json::Object(fields) => JsonView::Object(
            Seq::new(
                fields@.len(),
                |i: int|
                    if 0 <= i < fields@.len() {
                        (fields@[i].0@, view_of(fields@[i].1))
                    } else {
                        (Seq::empty(), JsonView::Null)
                    },
            ),
        ),
    }
}


/// The handshake revisions this server speaks, oldest first.
pub open spec fn protocol_versions() -> Seq<Seq<char>> {
    seq!["2024-11-05"@, "2025-03-26"@, "2025-06-18"@, "2025-11-25"@]
}

/// The one resource, which reads as the default listing.
pub const RESOURCE_URI: &'static str = "vigia://notes";

/// What the client is told the server is for, in the handshake.
pub const INSTRUCTIONS: &'static str = "vigia is the live diff monitor in the reader's other pane. A note the reader pins to a line of the diff is here: call notes, act on the code it points at, then resolve it by id with one line saying what you did.";

/// How `serde_json` reads `line`: a value, or the words of its refusal.
pub uninterp spec fn json_of(line: Seq<char>) -> Result<JsonView, Seq<char>>;

/// How `serde_json` writes `j` on one line: a function of the value alone,
/// the keys of an object in the order its map keeps them.
pub uninterp spec fn json_text(j: JsonView) -> Seq<char>;

/// The value `serde_json` reads from `line`, or its refusal in its own words.
#[verifier::external_body]
fn parse_json(line: &str) -> (r: Result<Json, String>)
    ensures
        match r {
            Ok(j) => json_of(line@) == Ok::<JsonView, Seq<char>>(view_of(j)),
            Err(e) => json_of(line@) == Err::<JsonView, Seq<char>>(e@),
        },
{
    match serde_json::from_str::<serde_json::Value>(line) {
        Ok(v) => Ok(from_value(&v)),
        Err(e) => Err(e.to_string()),
    }
}

/// `serde_json`'s value as the library's, one for one.
#[verifier::external_body]
fn from_value(v: &serde_json::Value) -> Json {
    match v {
        serde_json::Value::Null => Json::Null,
        serde_json::Value::Bool(b) => Json::Bool(*b),
        serde_json::Value::Number(n) => Json::Number(n.to_string()),
        serde_json::Value::String(t) => Json::Text(t.clone()),
        serde_json::Value::Array(a) => Json::Array(a.iter().map(from_value).collect()),
        serde_json::Value::Object(m) => Json::Object(m.iter().map(|(k, x)| (k.clone(), from_value(x))).collect()),
    }
}

/// `j` written on one line the way `serde_json` writes a value.
#[verifier::external_body]
fn write_json(j: &Json) -> (r: String)
    ensures
        r@ == json_text(view_of(*j)),
{
    to_value(j).to_string()
}

/// The library's value as `serde_json`'s, one for one. A number's text is
/// one `serde_json` wrote or a code of this module, both of which it reads
/// back; a text it refused would be written as null.
#[verifier::external_body]
fn to_value(j: &Json) -> serde_json::Value {
    match j {
        Json::Null => serde_json::Value::Null,
        Json::Bool(b) => serde_json::Value::Bool(*b),
        Json::Number(n) => n.parse::<serde_json::Number>().map(serde_json::Value::Number).unwrap_or(serde_json::Value::Null),
        Json::Text(t) => serde_json::Value::String(t.clone()),
        Json::Array(a) => serde_json::Value::Array(a.iter().map(to_value).collect()),
        Json::Object(f) => serde_json::Value::Object(f.iter().map(|(k, x)| (k.clone(), to_value(x))).collect()),
    }
}

/// `serde_json`'s value, declared so its helpers can name it.
#[verifier::external_type_specification]
#[verifier::external_body]
pub struct ExValue(serde_json::Value);

/// The value `fields` give `key`, the first where two give it.
pub open spec fn field(fields: Seq<(Seq<char>, JsonView)>, key: Seq<char>) -> Option<JsonView>
    decreases fields.len(),
{
    if fields.len() == 0 {
        None
    } else if fields[0].0 == key {
        Some(fields[0].1)
    } else {
        field(fields.drop_first(), key)
    }
}

/// The value an object gives `key`; nothing of anything else.
pub open spec fn get(j: JsonView, key: Seq<char>) -> Option<JsonView> {
    match j {
        JsonView::Object(fields) => field(fields, key),
        _ => None,
    }
}

/// The text a value is, where it is text.
pub open spec fn as_text(j: Option<JsonView>) -> Option<Seq<char>> {
    match j {
        Some(JsonView::Text(t)) => Some(t),
        _ => None,
    }
}

/// The line answering request `id` with `result`.
pub open spec fn result_view(id: JsonView, result: JsonView) -> JsonView {
    JsonView::Object(seq![("jsonrpc"@, JsonView::Text("2.0"@)), ("id"@, id), ("result"@, result)])
}

/// The line refusing request `id` with `code` and `message`.
pub open spec fn error_view(id: JsonView, code: Seq<char>, message: Seq<char>) -> JsonView {
    JsonView::Object(
        seq![
            ("jsonrpc"@, JsonView::Text("2.0"@)),
            ("id"@, id),
            ("error"@, JsonView::Object(seq![("code"@, JsonView::Number(code)), ("message"@, JsonView::Text(message))])),
        ],
    )
}

/// The handshake's answer: the revision asked for where this server speaks
/// it, and otherwise the newest, with what the server offers and is.
pub open spec fn initialize_view(params: JsonView, version: Seq<char>) -> JsonView {
    let asked = as_text(get(params, "protocolVersion"@));
    let chosen = match asked {
        Some(v) => if protocol_versions().contains(v) {
            v
        } else {
            protocol_versions().last()
        },
        None => protocol_versions().last(),
    };
    JsonView::Object(
        seq![
            ("protocolVersion"@, JsonView::Text(chosen)),
            (
                "capabilities"@,
                JsonView::Object(
                    seq![
                        ("tools"@, JsonView::Object(Seq::empty())),
                        ("resources"@, JsonView::Object(seq![("listChanged"@, JsonView::Bool(true))])),
                    ],
                ),
            ),
            ("serverInfo"@, JsonView::Object(seq![("name"@, JsonView::Text("vigia"@)), ("version"@, JsonView::Text(version))])),
            ("instructions"@, JsonView::Text(INSTRUCTIONS@)),
        ],
    )
}

/// One line more of what a message asks of the server.
pub enum Handled {
    /// Nothing is written back.
    Silent,
    /// This line is written back.
    Reply(String),
    /// A request the notes store answers, which the shell takes to it.
    Ask { id: Json, method: String, params: Json },
}

/// What a message is answered, as values.
pub enum HandledView {
    Silent,
    Reply(Seq<char>),
    Ask { id: JsonView, method: Seq<char>, params: JsonView },
}

/// `h` as values.
pub open spec fn handled_view(h: Handled) -> HandledView {
    match h {
        Handled::Silent => HandledView::Silent,
        Handled::Reply(t) => HandledView::Reply(t@),
        Handled::Ask { id, method, params } => HandledView::Ask { id: view_of(id), method: method@, params: view_of(params) },
    }
}

/// The line refusing request `id` with `code` and `message`, and `data`
/// beside them.
pub open spec fn error_data_view(id: JsonView, code: Seq<char>, message: Seq<char>, data: JsonView) -> JsonView {
    JsonView::Object(
        seq![
            ("jsonrpc"@, JsonView::Text("2.0"@)),
            ("id"@, id),
            (
                "error"@,
                JsonView::Object(
                    seq![("code"@, JsonView::Number(code)), ("message"@, JsonView::Text(message)), ("data"@, data)],
                ),
            ),
        ],
    )
}

/// The tools this server has.
pub open spec fn is_tool(name: Seq<char>) -> bool {
    name == "notes"@ || name == "resolve"@ || name == "reply"@
}

/// What a call of a tool is answered: refused where it names no tool, or
/// one this server does not have; otherwise the store answers it.
pub open spec fn called(id: JsonView, params: JsonView) -> HandledView {
    match as_text(get(params, "name"@)) {
        None => HandledView::Reply(json_text(error_view(id, "-32602"@, "tools/call needs a tool name"@))),
        Some(name) => if is_tool(name) {
            HandledView::Ask { id, method: "tools/call"@, params }
        } else {
            HandledView::Reply(
                json_text(error_view(id, "-32602"@, "unknown tool: "@ + name + "; the tools are notes, resolve and reply"@)),
            )
        },
    }
}

/// The uri a read asks for, empty where it gives none.
pub open spec fn asked_uri(params: JsonView) -> Seq<char> {
    match as_text(get(params, "uri"@)) {
        Some(u) => u,
        None => Seq::empty(),
    }
}

/// What a read of a resource is answered: refused, with the uri asked for
/// beside the refusal, where it is not the one resource; otherwise the
/// store answers it.
pub open spec fn read(id: JsonView, params: JsonView) -> HandledView {
    if asked_uri(params) == RESOURCE_URI@ {
        HandledView::Ask { id, method: "resources/read"@, params }
    } else {
        HandledView::Reply(
            json_text(
                error_data_view(
                    id,
                    "-32002"@,
                    "resource not found: "@ + asked_uri(params),
                    JsonView::Object(
                        seq![
                            (
                                "uri"@,
                                match get(params, "uri"@) {
                                    Some(u) => u,
                                    None => JsonView::Null,
                                },
                            ),
                        ],
                    ),
                ),
            ),
        )
    }
}

/// What request `id` for `method` with `params` is answered, and whether the
/// handshake has then happened: the handshake, a ping and the two listings
/// here, a call of a tool and a read of the resource by the store where they
/// name what this server has, anything else refused as a method this server
/// does not have.
pub open spec fn requested(id: JsonView, method: Seq<char>, params: JsonView, initialised: bool, version: Seq<char>) -> (
    HandledView,
    bool,
) {
    if method == "initialize"@ {
        (HandledView::Reply(json_text(result_view(id, initialize_view(params, version)))), true)
    } else if method == "ping"@ {
        (HandledView::Reply(json_text(result_view(id, JsonView::Object(Seq::empty())))), initialised)
    } else if method == "tools/list"@ {
        (HandledView::Reply(json_text(result_view(id, JsonView::Object(seq![("tools"@, tools_view())])))), initialised)
    } else if method == "resources/list"@ {
        (
            HandledView::Reply(
                json_text(result_view(id, JsonView::Object(seq![("resources"@, JsonView::Array(seq![resource_view()]))]))),
            ),
            initialised,
        )
    } else if method == "tools/call"@ {
        (called(id, params), initialised)
    } else if method == "resources/read"@ {
        (read(id, params), initialised)
    } else {
        (HandledView::Reply(json_text(error_view(id, "-32601"@, "method not found: "@ + method))), initialised)
    }
}

/// What one line in is answered, given what `serde_json` read from it, and
/// whether the handshake has happened after it.
pub open spec fn handled(initialised: bool, version: Seq<char>, line: Seq<char>, parsed: Result<JsonView, Seq<char>>) -> (
    HandledView,
    bool,
) {
    if trim(line).len() == 0 {
        (HandledView::Silent, initialised)
    } else {
        match parsed {
            Err(e) => (HandledView::Reply(json_text(error_view(JsonView::Null, "-32700"@, "parse error: "@ + e))), initialised),
            Ok(m) => if !(m is Object) {
                (
                    HandledView::Reply(
                        json_text(error_view(JsonView::Null, "-32600"@, "invalid request: not a single message"@)),
                    ),
                    initialised,
                )
            } else if get(m, "result"@) is Some || get(m, "error"@) is Some {
                (HandledView::Silent, initialised)
            } else {
                match get(m, "id"@) {
                    None => (HandledView::Silent, initialised),
                    Some(id) => match as_text(get(m, "method"@)) {
                        None => (
                            HandledView::Reply(json_text(error_view(id, "-32600"@, "invalid request: no method"@))),
                            initialised,
                        ),
                        Some(method) => requested(
                            id,
                            method,
                            match get(m, "params"@) {
                                Some(p) => p,
                                None => JsonView::Null,
                            },
                            initialised,
                            version,
                        ),
                    },
                }
            },
        }
    }
}

/// The server's side of one client: whether the handshake has happened,
/// after which the store's changes may be announced, and the version it
/// tells the client.
pub struct Server {
    pub initialised: bool,
    pub version: String,
}

impl Server {
    /// A server that has not shaken hands yet, telling clients `version`.
    pub fn new(version: String) -> (r: Self)
        ensures
            !r.initialised,
            r.version == version,
    {
        Server { initialised: false, version }
    }

    /// Whether the handshake has happened.
    pub fn initialised(&self) -> (r: bool)
        ensures
            r == self.initialised,
    {
        self.initialised
    }

    /// What one line in is answered, and whether the handshake has happened
    /// after it: `serde_json` reads the line, and the message it holds is
    /// routed as the module's account says.
    pub fn handle(&mut self, line: &str) -> (r: Handled)
        ensures
            handled_view(r) == handled(old(self).initialised, old(self).version@, line@, json_of(line@)).0,
            final(self).initialised == handled(old(self).initialised, old(self).version@, line@, json_of(line@)).1,
            final(self).version == old(self).version,
    {
        route(self, line)
    }
}

/// What the `notes` tool is described as.
pub const NOTES_TOOL: &'static str = "List the reader's notes pinned to lines of the diff in the vigia pane: open ones by default, resolved ones too with all. Each carries its id, its anchor, the body, where the line is now and the lines around it. Listing marks each note seen and, unless all is set, removes the resolved ones; act on the code, then resolve by id with one line saying what you did.";

/// What the `resolve` tool is described as.
pub const RESOLVE_TOOL: &'static str = "Resolve a note by id with one line saying what you did. The reader watches that line arrive under their note before it leaves the pane, so the line is required.";

/// What the `reply` tool is described as.
pub const REPLY_TOOL: &'static str = "Answer a note by id without resolving it, for a question back to the reader. The text draws under the note in the pane.";

/// What the one resource is described as.
pub const RESOURCE_ABOUT: &'static str = "The reader's open notes on lines of the diff, placed against the diff as it is now. Reading marks them seen and removes the resolved ones.";

/// A text value.
pub open spec fn tv(s: &str) -> JsonView {
    JsonView::Text(s@)
}

/// A string property described as `about`.
pub open spec fn string_property(about: &str) -> JsonView {
    JsonView::Object(seq![("type"@, tv("string")), ("description"@, tv(about))])
}

/// A tool's entry: its name, what it is for, and the object its arguments are.
pub open spec fn tool_view(name: &str, about: &str, properties: JsonView, required: Option<JsonView>) -> JsonView {
    let schema = match required {
        Some(r) => seq![("type"@, tv("object")), ("properties"@, properties), ("required"@, r), ("additionalProperties"@, JsonView::Bool(false))],
        None => seq![("type"@, tv("object")), ("properties"@, properties), ("additionalProperties"@, JsonView::Bool(false))],
    };
    JsonView::Object(seq![("name"@, tv(name)), ("description"@, tv(about)), ("inputSchema"@, JsonView::Object(schema))])
}

/// The three tools, each described in the sentence that teaches its step of
/// the loop: read, act, resolve with what you did.
pub open spec fn tools_view() -> JsonView {
    JsonView::Array(
        seq![
            tool_view(
                "notes",
                NOTES_TOOL,
                JsonView::Object(seq![("all"@, JsonView::Object(seq![("type"@, tv("boolean")), ("description"@, tv("List resolved notes too, and prune none."))]))]),
                None,
            ),
            tool_view(
                "resolve",
                RESOLVE_TOOL,
                JsonView::Object(seq![("id"@, string_property("The note's id, from notes.")), ("note"@, string_property("One line saying what you did."))]),
                Some(JsonView::Array(seq![tv("id"), tv("note")])),
            ),
            tool_view(
                "reply",
                REPLY_TOOL,
                JsonView::Object(seq![("id"@, string_property("The note's id, from notes.")), ("text"@, string_property("What to say to the reader."))]),
                Some(JsonView::Array(seq![tv("id"), tv("text")])),
            ),
        ],
    )
}

/// The one resource's entry.
pub open spec fn resource_view() -> JsonView {
    JsonView::Object(
        seq![
            ("uri"@, tv(RESOURCE_URI)),
            ("name"@, tv("notes")),
            ("title"@, tv("Notes pinned in the vigia pane")),
            ("description"@, tv(RESOURCE_ABOUT)),
            ("mimeType"@, tv("application/json")),
        ],
    )
}

/// The fields of an object, none of anything else.
pub open spec fn fields_of(j: JsonView) -> Seq<(Seq<char>, JsonView)> {
    match j {
        JsonView::Object(f) => f,
        _ => Seq::empty(),
    }
}

/// The items of an array, none of anything else.
pub open spec fn items_of(j: JsonView) -> Seq<JsonView> {
    match j {
        JsonView::Array(a) => a,
        _ => Seq::empty(),
    }
}

/// An optional value as values.
pub open spec fn option_view(o: Option<Json>) -> Option<JsonView> {
    match o {
        Some(j) => Some(view_of(j)),
        None => None,
    }
}

/// A text value.
fn text(s: &str) -> (r: Json)
    ensures
        view_of(r) == JsonView::Text(s@),
{
    Json::Text(s.to_owned())
}

/// An empty object.
fn object() -> (r: Json)
    ensures
        view_of(r) == JsonView::Object(Seq::empty()),
{
    let r = Json::Object(Vec::new());
    assert(view_of(r) == JsonView::Object(Seq::empty())) by {
        if let JsonView::Object(f) = view_of(r) {
            assert(f =~= Seq::<(Seq<char>, JsonView)>::empty());
        }
    }
    r
}

/// An empty array.
fn array() -> (r: Json)
    ensures
        view_of(r) == JsonView::Array(Seq::empty()),
{
    let r = Json::Array(Vec::new());
    assert(view_of(r) == JsonView::Array(Seq::empty())) by {
        if let JsonView::Array(a) = view_of(r) {
            assert(a =~= Seq::<JsonView>::empty());
        }
    }
    r
}

/// `j` with one field more, `key` giving `value`.
fn with(j: Json, key: &str, value: Json) -> (r: Json)
    requires
        j is Object,
    ensures
        view_of(r) == JsonView::Object(fields_of(view_of(j)).push((key@, view_of(value)))),
{
    match j {
        Json::Object(fields) => {
            let ghost before = fields@;
            let ghost seen = view_of(value);
            let mut fields = fields;
            fields.push((key.to_owned(), value));
            let r = Json::Object(fields);
            proof {
                let old_view = Seq::new(
                    before.len(),
                    |i: int|
                        if 0 <= i < before.len() {
                            (before[i].0@, view_of(before[i].1))
                        } else {
                            (Seq::<char>::empty(), JsonView::Null)
                        },
                );
                assert(fields_of(view_of(j)) =~= old_view);
                if let JsonView::Object(f) = view_of(r) {
                    assert(f =~= old_view.push((key@, seen)));
                }
            }
            r
        },
        _ => j,
    }
}

/// `j` with one item more.
fn push_item(j: Json, item: Json) -> (r: Json)
    requires
        j is Array,
    ensures
        view_of(r) == JsonView::Array(items_of(view_of(j)).push(view_of(item))),
{
    match j {
        Json::Array(items) => {
            let ghost before = items@;
            let ghost seen = view_of(item);
            let mut items = items;
            items.push(item);
            let r = Json::Array(items);
            proof {
                let old_view = Seq::new(
                    before.len(),
                    |i: int|
                        if 0 <= i < before.len() {
                            view_of(before[i])
                        } else {
                            JsonView::Null
                        },
                );
                assert(items_of(view_of(j)) =~= old_view);
                if let JsonView::Array(a) = view_of(r) {
                    assert(a =~= old_view.push(seen));
                }
            }
            r
        },
        _ => j,
    }
}

/// Fields as values.
pub open spec fn fields_view(f: Seq<(String, Json)>) -> Seq<(Seq<char>, JsonView)> {
    Seq::new(f.len(), |i: int| (f[i].0@, view_of(f[i].1)))
}

/// `fields` without the first field keyed `key`.
pub open spec fn without_field(fields: Seq<(Seq<char>, JsonView)>, key: Seq<char>) -> Seq<(Seq<char>, JsonView)>
    decreases fields.len(),
{
    if fields.len() == 0 {
        fields
    } else if fields[0].0 == key {
        fields.drop_first()
    } else {
        seq![fields[0]] + without_field(fields.drop_first(), key)
    }
}

/// Where no field before `i` is keyed `key`, looking from `i` finds what
/// looking from the start does.
proof fn lemma_field_from(fields: Seq<(Seq<char>, JsonView)>, key: Seq<char>, i: int)
    requires
        0 <= i <= fields.len(),
        forall|k: int| 0 <= k < i ==> (#[trigger] fields[k]).0 != key,
    ensures
        field(fields, key) == field(fields.skip(i), key),
        i < fields.len() && fields[i].0 == key ==> without_field(fields, key) == fields.remove(i),
    decreases i,
{
    if i > 0 {
        let rest = fields.drop_first();
        assert forall|k: int| 0 <= k < i - 1 implies (#[trigger] rest[k]).0 != key by {
            assert(rest[k] == fields[k + 1]);
        }
        lemma_field_from(rest, key, i - 1);
        assert(rest.skip(i - 1) =~= fields.skip(i));
        assert(fields[0].0 != key);
        if i < fields.len() && fields[i].0 == key {
            assert(rest[i - 1] == fields[i]);
            assert(seq![fields[0]] + rest.remove(i - 1) =~= fields.remove(i));
        }
    } else {
        assert(fields.skip(0) =~= fields);
        if fields.len() > 0 && fields[0].0 == key {
            assert(fields.drop_first() =~= fields.remove(0));
        }
    }
}

/// Taking out a field keyed `key` leaves every other key's value as it was.
proof fn lemma_field_after_taking(fields: Seq<(Seq<char>, JsonView)>, key: Seq<char>, other: Seq<char>)
    requires
        key != other,
    ensures
        field(without_field(fields, key), other) == field(fields, other),
    decreases fields.len(),
{
    if fields.len() > 0 && fields[0].0 != key {
        lemma_field_after_taking(fields.drop_first(), key, other);
        let w = seq![fields[0]] + without_field(fields.drop_first(), key);
        assert(w.drop_first() =~= without_field(fields.drop_first(), key));
    }
}

/// Where `fields` first gives `key` a value, or none.
fn find(fields: &Vec<(String, Json)>, key: &str) -> (r: Option<usize>)
    ensures
        match r {
            Some(i) => i < fields@.len() && fields@[i as int].0@ == key@ && forall|k: int|
                0 <= k < i ==> (#[trigger] fields@[k]).0@ != key@,
            None => forall|k: int| 0 <= k < fields@.len() ==> (#[trigger] fields@[k]).0@ != key@,
        },
{
    let mut i: usize = 0;
    while i < fields.len()
        invariant
            i <= fields@.len(),
            forall|k: int| 0 <= k < i ==> (#[trigger] fields@[k]).0@ != key@,
        decreases fields@.len() - i,
    {
        if same_str(fields[i].0.as_str(), key) {
            return Some(i);
        }
        i += 1;
    }
    None
}

/// Where `fields` first gives `key` a value, as a view of it.
proof fn lemma_found(fields: Seq<(String, Json)>, key: Seq<char>, r: Option<usize>)
    requires
        match r {
            Some(i) => i < fields.len() && fields[i as int].0@ == key && forall|k: int|
                0 <= k < i ==> (#[trigger] fields[k]).0@ != key,
            None => forall|k: int| 0 <= k < fields.len() ==> (#[trigger] fields[k]).0@ != key,
        },
    ensures
        match r {
            Some(i) => field(fields_view(fields), key) == Some(view_of(fields[i as int].1))
                && without_field(fields_view(fields), key) == fields_view(fields.remove(i as int)),
            None => field(fields_view(fields), key) is None,
        },
{
    let fv = fields_view(fields);
    match r {
        Some(i) => {
            assert forall|k: int| 0 <= k < i implies (#[trigger] fv[k]).0 != key by {
                assert(fv[k].0 == fields[k].0@);
            }
            lemma_field_from(fv, key, i as int);
            assert(fv.skip(i as int)[0] == fv[i as int]);
            assert(fv.remove(i as int) =~= fields_view(fields.remove(i as int)));
        },
        None => {
            assert forall|k: int| 0 <= k < fv.len() implies (#[trigger] fv[k]).0 != key by {
                assert(fv[k].0 == fields[k].0@);
            }
            lemma_field_from(fv, key, fv.len() as int);
            assert(fv.skip(fv.len() as int) =~= Seq::<(Seq<char>, JsonView)>::empty());
        },
    }
}

/// Take the first field keyed `key` out of `fields`, giving its value.
fn take_field(fields: &mut Vec<(String, Json)>, key: &str) -> (r: Option<Json>)
    ensures
        match r {
            Some(v) => field(fields_view(old(fields)@), key@) == Some(view_of(v)),
            None => field(fields_view(old(fields)@), key@) is None,
        },
        fields_view(final(fields)@) == without_field(fields_view(old(fields)@), key@) || (r is None
            && final(fields)@ == old(fields)@),
{
    let at = find(fields, key);
    proof {
        lemma_found(fields@, key@, at);
    }
    match at {
        Some(i) => {
            let (_, v) = fields.remove(i);
            Some(v)
        },
        None => None,
    }
}

/// Whether `fields` give `key` a value.
fn has_field(fields: &Vec<(String, Json)>, key: &str) -> (r: bool)
    ensures
        r == (field(fields_view(fields@), key@) is Some),
{
    let at = find(fields, key);
    proof {
        lemma_found(fields@, key@, at);
    }
    at.is_some()
}

/// The text a value gives `key`, where it is an object giving it text.
fn text_at(j: &Json, key: &str) -> (r: Option<String>)
    ensures
        match r {
            Some(t) => as_text(get(view_of(*j), key@)) == Some(t@),
            None => as_text(get(view_of(*j), key@)) is None,
        },
{
    match j {
        Json::Object(fields) => {
            let at = find(fields, key);
            proof {
                lemma_found(fields@, key@, at);
                assert(fields_of(view_of(*j)) =~= fields_view(fields@));
            }
            match at {
                Some(i) => match &fields[i].1 {
                    Json::Text(t) => Some(t.clone()),
                    _ => None,
                },
                None => None,
            }
        },
        _ => None,
    }
}

/// The line answering request `id` with `result`.
fn result_line(id: Json, result: Json) -> (r: String)
    ensures
        r@ == json_text(result_view(view_of(id), view_of(result))),
{
    let ghost (i, x) = (view_of(id), view_of(result));
    let j = with(with(with(object(), "jsonrpc", text("2.0")), "id", id), "result", result);
    assert(fields_of(view_of(j)) =~= seq![("jsonrpc"@, JsonView::Text("2.0"@)), ("id"@, i), ("result"@, x)]);
    write_json(&j)
}

/// The line refusing request `id` with `code` and `message`.
fn error_line(id: Json, code: &str, message: String) -> (r: String)
    ensures
        r@ == json_text(error_view(view_of(id), code@, message@)),
{
    let ghost (i, m) = (view_of(id), message@);
    let error = with(with(object(), "code", Json::Number(code.to_owned())), "message", Json::Text(message));
    assert(fields_of(view_of(error)) =~= seq![("code"@, JsonView::Number(code@)), ("message"@, JsonView::Text(m))]);
    let ghost e = view_of(error);
    let j = with(with(with(object(), "jsonrpc", text("2.0")), "id", id), "error", error);
    assert(fields_of(view_of(j)) =~= seq![("jsonrpc"@, JsonView::Text("2.0"@)), ("id"@, i), ("error"@, e)]);
    write_json(&j)
}

/// `head` and then `tail`, as one string.
fn joined(head: &str, tail: &str) -> (r: String)
    ensures
        r@ == head@ + tail@,
{
    let mut out: Vec<char> = Vec::new();
    crate::text::push_str(&mut out, head);
    crate::text::push_str(&mut out, tail);
    string_of(out.as_slice())
}

/// A string property described as `about`.
fn string_property_of(about: &str) -> (r: Json)
    ensures
        view_of(r) == string_property(about),
{
    let r = with(with(object(), "type", text("string")), "description", text(about));
    assert(fields_of(view_of(r)) =~= seq![("type"@, tv("string")), ("description"@, tv(about))]);
    r
}

/// A tool's entry.
fn tool(name: &str, about: &str, properties: Json, required: Option<Json>) -> (r: Json)
    ensures
        view_of(r) == tool_view(name, about, view_of(properties), option_view(required)),
{
    let ghost p = view_of(properties);
    let ghost q = option_view(required);
    let schema = with(with(object(), "type", text("object")), "properties", properties);
    let schema = match required {
        Some(q) => with(schema, "required", q),
        None => schema,
    };
    let schema = with(schema, "additionalProperties", Json::Bool(false));
    proof {
        match q {
            Some(w) => assert(fields_of(view_of(schema)) =~= seq![
                ("type"@, tv("object")),
                ("properties"@, p),
                ("required"@, w),
                ("additionalProperties"@, JsonView::Bool(false)),
            ]),
            None => assert(fields_of(view_of(schema)) =~= seq![
                ("type"@, tv("object")),
                ("properties"@, p),
                ("additionalProperties"@, JsonView::Bool(false)),
            ]),
        }
    }
    let ghost sv = view_of(schema);
    let r = with(with(with(object(), "name", text(name)), "description", text(about)), "inputSchema", schema);
    assert(fields_of(view_of(r)) =~= seq![("name"@, tv(name)), ("description"@, tv(about)), ("inputSchema"@, sv)]);
    r
}

/// The three tools.
fn tools() -> (r: Json)
    ensures
        view_of(r) == tools_view(),
{
    let flag = with(with(object(), "type", text("boolean")), "description", text("List resolved notes too, and prune none."));
    assert(fields_of(view_of(flag)) =~= seq![("type"@, tv("boolean")), ("description"@, tv("List resolved notes too, and prune none."))]);
    let ghost fv = view_of(flag);
    let all = with(object(), "all", flag);
    assert(fields_of(view_of(all)) =~= seq![("all"@, fv)]);
    let notes = tool("notes", NOTES_TOOL, all, None);
    let resolve_props = with(with(object(), "id", string_property_of("The note's id, from notes.")), "note", string_property_of("One line saying what you did."));
    assert(fields_of(view_of(resolve_props)) =~= seq![("id"@, string_property("The note's id, from notes.")), ("note"@, string_property("One line saying what you did."))]);
    let resolve_required = push_item(push_item(array(), text("id")), text("note"));
    assert(items_of(view_of(resolve_required)) =~= seq![tv("id"), tv("note")]);
    let resolve = tool("resolve", RESOLVE_TOOL, resolve_props, Some(resolve_required));
    let reply_props = with(with(object(), "id", string_property_of("The note's id, from notes.")), "text", string_property_of("What to say to the reader."));
    assert(fields_of(view_of(reply_props)) =~= seq![("id"@, string_property("The note's id, from notes.")), ("text"@, string_property("What to say to the reader."))]);
    let reply_required = push_item(push_item(array(), text("id")), text("text"));
    assert(items_of(view_of(reply_required)) =~= seq![tv("id"), tv("text")]);
    let reply = tool("reply", REPLY_TOOL, reply_props, Some(reply_required));
    let ghost (a, b, c) = (view_of(notes), view_of(resolve), view_of(reply));
    let r = push_item(push_item(push_item(array(), notes), resolve), reply);
    assert(items_of(view_of(r)) =~= seq![a, b, c]);
    r
}

/// The one resource's entry.
fn resource() -> (r: Json)
    ensures
        view_of(r) == resource_view(),
{
    let r = with(
        with(with(with(with(object(), "uri", text(RESOURCE_URI)), "name", text("notes")), "title", text("Notes pinned in the vigia pane")), "description", text(RESOURCE_ABOUT)),
        "mimeType",
        text("application/json"),
    );
    assert(fields_of(view_of(r)) =~= seq![
        ("uri"@, tv(RESOURCE_URI)),
        ("name"@, tv("notes")),
        ("title"@, tv("Notes pinned in the vigia pane")),
        ("description"@, tv(RESOURCE_ABOUT)),
        ("mimeType"@, tv("application/json")),
    ]);
    r
}

/// The handshake's answer.
fn initialize(params: &Json, version: &str) -> (r: Json)
    ensures
        view_of(r) == initialize_view(view_of(*params), version@),
{
    let asked = text_at(params, "protocolVersion");
    let newest = "2025-11-25";
    let chosen = match asked {
        Some(v) => if same_str(v.as_str(), "2024-11-05") || same_str(v.as_str(), "2025-03-26") || same_str(v.as_str(), "2025-06-18") || same_str(v.as_str(), newest) {
            proof {
                assert(protocol_versions()[0] == "2024-11-05"@);
                assert(protocol_versions()[1] == "2025-03-26"@);
                assert(protocol_versions()[2] == "2025-06-18"@);
                assert(protocol_versions()[3] == "2025-11-25"@);
            }
            v
        } else {
            proof {
                assert(!protocol_versions().contains(v@)) by {
                    if protocol_versions().contains(v@) {
                        let k = choose|k: int| 0 <= k < protocol_versions().len() && protocol_versions()[k] == v@;
                        assert(k == 0 || k == 1 || k == 2 || k == 3);
                    }
                }
            }
            newest.to_owned()
        },
        None => newest.to_owned(),
    };
    let listed = with(object(), "listChanged", Json::Bool(true));
    assert(fields_of(view_of(listed)) =~= seq![("listChanged"@, JsonView::Bool(true))]);
    let ghost lv = view_of(listed);
    let capabilities = with(with(object(), "tools", object()), "resources", listed);
    assert(fields_of(view_of(capabilities)) =~= seq![("tools"@, JsonView::Object(Seq::empty())), ("resources"@, lv)]);
    let info = with(with(object(), "name", text("vigia")), "version", text(version));
    assert(fields_of(view_of(info)) =~= seq![("name"@, tv("vigia")), ("version"@, JsonView::Text(version@))]);
    let ghost (cv, iv, chosen_view) = (view_of(capabilities), view_of(info), chosen@);
    let r = with(with(with(with(object(), "protocolVersion", Json::Text(chosen)), "capabilities", capabilities), "serverInfo", info), "instructions", text(INSTRUCTIONS));
    assert(fields_of(view_of(r)) =~= seq![
        ("protocolVersion"@, JsonView::Text(chosen_view)),
        ("capabilities"@, cv),
        ("serverInfo"@, iv),
        ("instructions"@, JsonView::Text(INSTRUCTIONS@)),
    ]);
    r
}
/// The line refusing request `id` with `code` and `message`, and `data`
/// beside them.
fn error_data_line(id: Json, code: &str, message: String, data: Json) -> (r: String)
    ensures
        r@ == json_text(error_data_view(view_of(id), code@, message@, view_of(data))),
{
    let ghost (i, m, d) = (view_of(id), message@, view_of(data));
    let error = with(with(with(object(), "code", Json::Number(code.to_owned())), "message", Json::Text(message)), "data", data);
    assert(fields_of(view_of(error)) =~= seq![("code"@, JsonView::Number(code@)), ("message"@, JsonView::Text(m)), ("data"@, d)]);
    let ghost e = view_of(error);
    let j = with(with(with(object(), "jsonrpc", text("2.0")), "id", id), "error", error);
    assert(fields_of(view_of(j)) =~= seq![("jsonrpc"@, JsonView::Text("2.0"@)), ("id"@, i), ("error"@, e)]);
    write_json(&j)
}

/// The value an object gives `key`, taken out of it; null where it gives none.
fn take_value(j: Json, key: &str) -> (r: Json)
    ensures
        view_of(r) == match get(view_of(j), key@) {
            Some(v) => v,
            None => JsonView::Null,
        },
{
    match j {
        Json::Object(fields) => {
            let ghost before = fields@;
            proof {
                assert(fields_of(view_of(Json::Object(fields))) =~= fields_view(before));
            }
            let mut fields = fields;
            match take_field(&mut fields, key) {
                Some(v) => v,
                None => Json::Null,
            }
        },
        _ => Json::Null,
    }
}

/// What a call of a tool is answered.
fn call(id: Json, params: Json) -> (r: Handled)
    ensures
        handled_view(r) == called(view_of(id), view_of(params)),
{
    match text_at(&params, "name") {
        None => Handled::Reply(error_line(id, "-32602", "tools/call needs a tool name".to_owned())),
        Some(name) => if same_str(name.as_str(), "notes") || same_str(name.as_str(), "resolve") || same_str(
            name.as_str(),
            "reply",
        ) {
            Handled::Ask { id, method: "tools/call".to_owned(), params }
        } else {
            let why = joined(joined("unknown tool: ", name.as_str()).as_str(), "; the tools are notes, resolve and reply");
            Handled::Reply(error_line(id, "-32602", why))
        },
    }
}

/// What a read of a resource is answered.
fn read_resource(id: Json, params: Json) -> (r: Handled)
    ensures
        handled_view(r) == read(view_of(id), view_of(params)),
{
    let uri = match text_at(&params, "uri") {
        Some(u) => u,
        None => "".to_owned(),
    };
    proof {
        reveal_strlit("");
        assert(""@ =~= Seq::<char>::empty());
    }
    assert(uri@ == asked_uri(view_of(params)));
    if same_str(uri.as_str(), RESOURCE_URI) {
        Handled::Ask { id, method: "resources/read".to_owned(), params }
    } else {
        let why = joined("resource not found: ", uri.as_str());
        let ghost p = view_of(params);
        let asked = take_value(params, "uri");
        let ghost a = view_of(asked);
        let data = with(object(), "uri", asked);
        assert(fields_of(view_of(data)) =~= seq![("uri"@, a)]);
        assert(a == match get(p, "uri"@) {
            Some(u) => u,
            None => JsonView::Null,
        });
        Handled::Reply(error_data_line(id, "-32002", why, data))
    }
}

/// What request `id` for `method` with `params` is answered; the handshake
/// marks the session begun.
fn request(server: &mut Server, id: Json, method: String, params: Json) -> (r: Handled)
    ensures
        handled_view(r) == requested(view_of(id), method@, view_of(params), old(server).initialised, old(server).version@).0,
        final(server).initialised == requested(view_of(id), method@, view_of(params), old(server).initialised, old(server).version@).1,
        final(server).version == old(server).version,
{
    let m = method.as_str();
    if same_str(m, "initialize") {
        server.initialised = true;
        let answer = initialize(&params, server.version.as_str());
        Handled::Reply(result_line(id, answer))
    } else if same_str(m, "ping") {
        Handled::Reply(result_line(id, object()))
    } else if same_str(m, "tools/list") {
        let listing = with(object(), "tools", tools());
        assert(fields_of(view_of(listing)) =~= seq![("tools"@, tools_view())]);
        Handled::Reply(result_line(id, listing))
    } else if same_str(m, "resources/list") {
        let one = push_item(array(), resource());
        assert(items_of(view_of(one)) =~= seq![resource_view()]);
        let listing = with(object(), "resources", one);
        assert(fields_of(view_of(listing)) =~= seq![("resources"@, JsonView::Array(seq![resource_view()]))]);
        Handled::Reply(result_line(id, listing))
    } else if same_str(m, "tools/call") {
        call(id, params)
    } else if same_str(m, "resources/read") {
        read_resource(id, params)
    } else {
        let why = joined("method not found: ", m);
        Handled::Reply(error_line(id, "-32601", why))
    }
}

/// What one line in is answered, and whether the handshake has happened
/// after it.
fn route(server: &mut Server, line: &str) -> (r: Handled)
    ensures
        handled_view(r) == handled(old(server).initialised, old(server).version@, line@, json_of(line@)).0,
        final(server).initialised == handled(old(server).initialised, old(server).version@, line@, json_of(line@)).1,
        final(server).version == old(server).version,
{
    let chars = chars_of(line);
    let blank = trimmed(chars.as_slice());
    if blank.len() == 0 {
        return Handled::Silent;
    }
    let message = match parse_json(line) {
        Ok(message) => message,
        Err(e) => {
            return Handled::Reply(error_line(Json::Null, "-32700", joined("parse error: ", e.as_str())));
        },
    };
    let ghost seen = view_of(message);
    let mut fields = match message {
        Json::Object(fields) => fields,
        _ => {
            return Handled::Reply(error_line(Json::Null, "-32600", "invalid request: not a single message".to_owned()));
        },
    };
    let ghost whole = fields_view(fields@);
    proof {
        assert(fields_of(seen) =~= whole);
        reveal_strlit("id");
        reveal_strlit("method");
        reveal_strlit("params");
        assert("id"@ != "method"@) by {
            assert("id"@.len() != "method"@.len());
        }
        assert("id"@ != "params"@) by {
            assert("id"@.len() != "params"@.len());
        }
        assert("method"@ != "params"@) by {
            assert("method"@[0] != "params"@[0]);
        }
        lemma_field_after_taking(whole, "id"@, "method"@);
        lemma_field_after_taking(whole, "id"@, "params"@);
        lemma_field_after_taking(without_field(whole, "id"@), "method"@, "params"@);
    }
    if has_field(&fields, "result") || has_field(&fields, "error") {
        return Handled::Silent;
    }
    let id = match take_field(&mut fields, "id") {
        Some(id) => id,
        None => {
            return Handled::Silent;
        },
    };
    let method = match take_field(&mut fields, "method") {
        Some(Json::Text(method)) => method,
        _ => {
            return Handled::Reply(error_line(id, "-32600", "invalid request: no method".to_owned()));
        },
    };
    let params = match take_field(&mut fields, "params") {
        Some(params) => params,
        None => Json::Null,
    };
    request(server, id, method, params)
}
/// A tool's answer that is one sentence saying why there is no other, kept
/// a result rather than a refusal so the model can correct itself.
pub open spec fn failed_view(why: Seq<char>) -> JsonView {
    JsonView::Object(
        seq![
            ("content"@, JsonView::Array(seq![JsonView::Object(seq![("type"@, JsonView::Text("text"@)), ("text"@, JsonView::Text(why))])])),
            ("isError"@, JsonView::Bool(true)),
        ],
    )
}

/// What a question for the store is answered where no store could be
/// opened, `why` saying so: a tool answers the sentence, a read is an
/// internal error.
pub open spec fn unserved_text(id: JsonView, method: Seq<char>, why: Seq<char>) -> Seq<char> {
    if method == "resources/read"@ {
        json_text(error_view(id, "-32603"@, why))
    } else {
        json_text(result_view(id, failed_view(why)))
    }
}

/// The answer to a question for the store where no store could be opened.
pub fn unserved(id: Json, method: &str, why: &str) -> (r: String)
    ensures
        r@ == unserved_text(view_of(id), method@, why@),
{
    if same_str(method, "resources/read") {
        error_line(id, "-32603", why.to_owned())
    } else {
        let line = with(with(object(), "type", text("text")), "text", text(why));
        assert(fields_of(view_of(line)) =~= seq![("type"@, JsonView::Text("text"@)), ("text"@, JsonView::Text(why@))]);
        let ghost lv = view_of(line);
        let content = push_item(array(), line);
        assert(items_of(view_of(content)) =~= seq![lv]);
        let ghost cv = view_of(content);
        let answer = with(with(object(), "content", content), "isError", Json::Bool(true));
        assert(fields_of(view_of(answer)) =~= seq![("content"@, cv), ("isError"@, JsonView::Bool(true))]);
        result_line(id, answer)
    }
}

/// The answer to a line that could not be read as text, `why` saying how.
pub fn unreadable(why: &str) -> (r: String)
    ensures
        r@ == json_text(error_view(JsonView::Null, "-32700"@, "parse error: "@ + why@)),
{
    error_line(Json::Null, "-32700", joined("parse error: ", why))
}
/// A message with no id is a notification, and a notification is never
/// answered, whatever else it holds.
pub proof fn law_notifications_are_never_answered(
    initialised: bool,
    version: Seq<char>,
    line: Seq<char>,
    message: JsonView,
)
    requires
        message is Object,
        get(message, "id"@) is None,
    ensures
        handled(initialised, version, line, Ok(message)).0 == HandledView::Silent,
        handled(initialised, version, line, Ok(message)).1 == initialised,
{
}

/// Once the handshake has happened, no line undoes it; and before it, only
/// a handshake request begins the server.
pub proof fn law_only_the_handshake_begins_a_session(
    version: Seq<char>,
    line: Seq<char>,
    parsed: Result<JsonView, Seq<char>>,
)
    ensures
        handled(true, version, line, parsed).1,
        handled(false, version, line, parsed).1 ==> (parsed matches Ok(m) && as_text(get(m, "method"@))
            == Some("initialize"@)),
{
}
/// The name of the tool `tools/list` offers at `i`.
pub open spec fn offered_tool(i: int) -> Option<Seq<char>> {
    as_text(get(items_of(tools_view())[i], "name"@))
}

/// Every tool `tools/list` offers, `tools/call` takes to the store with its
/// parameters as they came; a name it does not offer is refused as unknown,
/// never taken to the store.
pub proof fn law_every_offered_tool_can_be_called(id: JsonView, params: JsonView, i: int)
    requires
        0 <= i < items_of(tools_view()).len(),
        as_text(get(params, "name"@)) == offered_tool(i),
    ensures
        offered_tool(i) is Some,
        called(id, params) == (HandledView::Ask { id, method: "tools/call"@, params }),
{
    reveal_strlit("name");
    reveal_strlit("description");
    reveal_strlit("inputSchema");
    let t = tools_view();
    assert(items_of(t).len() == 3);
    let entry = items_of(t)[i];
    assert(fields_of(entry).len() == 3);
    assert(fields_of(entry)[0].0 == "name"@);
    assert(field(fields_of(entry), "name"@) == Some(fields_of(entry)[0].1));
}

/// A call of a tool `tools/list` does not offer is refused, and never goes
/// to the store.
pub proof fn law_an_unoffered_tool_is_refused(id: JsonView, params: JsonView, name: Seq<char>)
    requires
        as_text(get(params, "name"@)) == Some(name),
        forall|i: int| 0 <= i < items_of(tools_view()).len() ==> offered_tool(i) != Some(name),
    ensures
        !(called(id, params) is Ask),
{
    reveal_strlit("name");
    let t = tools_view();
    assert(items_of(t).len() == 3);
    assert forall|i: int| 0 <= i < 3 implies offered_tool(i) == Some(
        if i == 0 { "notes"@ } else if i == 1 { "resolve"@ } else { "reply"@ },
    ) by {
        let entry = items_of(t)[i];
        assert(fields_of(entry)[0].0 == "name"@);
        assert(field(fields_of(entry), "name"@) == Some(fields_of(entry)[0].1));
    }
    assert(offered_tool(0) != Some(name));
    assert(offered_tool(1) != Some(name));
    assert(offered_tool(2) != Some(name));
}

} // verus!
