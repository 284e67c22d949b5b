//! The JSON-RPC and MCP constants, and the schemas of the three tools that
//! the server offers.

use vstd::prelude::*;
use crate::json::{Json, JsonNumber, member, text_of};

verus! {

pub const JSONRPC_VERSION: &'static str = "2.0";
pub const MCP_PROTOCOL_VERSION: &'static str = "2025-06-18";
pub const MCP_PROTOCOL_VERSION_ZED: &'static str = "2025-03-26";
pub const PARSE_ERROR: i64 = -32700;
pub const INVALID_REQUEST: i64 = -32600;
pub const METHOD_NOT_FOUND: i64 = -32601;
pub const INVALID_PARAMS: i64 = -32602;

/// Whether `value` is an array of exactly the strings `items`.
pub open spec fn is_text_array(value: Option<Json>, items: Seq<Seq<char>>) -> bool {
    match value {
        Some(Json::Array(v)) => {
            &&& v@.len() == items.len()
            &&& forall|i: int| 0 <= i < items.len() ==> text_of(Some(#[trigger] v@[i])) == Some(items[i])
        },
        _ => false,
    }
}

/// `s` is the schema `{"type": kind}`.
pub open spec fn is_typed(s: Json, kind: Seq<char>) -> bool {
    &&& s.names() == seq!["type"@]
    &&& text_of(s.field("type"@)) == Some(kind)
}

/// `s` is the schema `{"type": kind, "description": description}`.
pub open spec fn is_described(s: Json, kind: Seq<char>, description: Seq<char>) -> bool {
    &&& s.names() == seq!["type"@, "description"@]
    &&& text_of(s.field("type"@)) == Some(kind)
    &&& text_of(s.field("description"@)) == Some(description)
}

/// The schema of the property `name` of the object schema `s`.
pub open spec fn property(s: Json, name: Seq<char>) -> Option<Json> {
    match s.field("properties"@) {
        Some(p) => p.field(name),
        None => None,
    }
}

/// `s` is the schema of an object whose members are among `properties`,
/// must include those of `required`, and may be no others:
/// `{"type": "object", "properties": {..}, "required": [..],
/// "additionalProperties": false}`.
pub open spec fn is_object_schema(s: Json, properties: Seq<Seq<char>>, required: Seq<Seq<char>>) -> bool {
    &&& s.names() == seq!["type"@, "properties"@, "required"@, "additionalProperties"@]
    &&& text_of(s.field("type"@)) == Some("object"@)
    &&& s.field("properties"@) matches Some(p) && p is Object && p.names() == properties
    &&& is_text_array(s.field("required"@), required)
    &&& s.field("additionalProperties"@) == Some(Json::Bool(false))
}

/// `tool` is the description of a tool named `name`, described by
/// `description`, whose input object requires the members `required` and
/// admits no others than those it lists.
pub open spec fn is_tool_schema(
    tool: Json,
    name: Seq<char>,
    description: Seq<char>,
    required: Seq<Seq<char>>,
) -> bool {
    &&& tool.names() == seq!["name"@, "description"@, "inputSchema"@]
    &&& text_of(tool.field("name"@)) == Some(name)
    &&& text_of(tool.field("description"@)) == Some(description)
    &&& tool.field("inputSchema"@) matches Some(input) && {
        &&& text_of(input.field("type"@)) == Some("object"@)
        &&& input.field("properties"@) matches Some(Json::Object(_))
        &&& is_text_array(input.field("required"@), required)
        &&& input.field("additionalProperties"@) == Some(Json::Bool(false))
    }
}

/// How `update_plan` is described to clients.
pub const UPDATE_PLAN_DESCRIPTION: &'static str = "Updates the task plan. Provide an optional explanation and a list of plan items, each with a step and status. At most one step can be in_progress at a time.";

/// How `ask_user` is described to clients.
pub const ASK_USER_DESCRIPTION: &'static str = "Ask the user a question and wait for an answer. This server currently supports an unsupported fallback response when no interactive backend is available.";

/// `tool` is the whole schema of `update_plan`: a required `plan`, an array
/// of objects that each require a string `step` and a string `status` and
/// admit nothing else, and an optional string `explanation`.
pub open spec fn is_update_plan_schema(tool: Json) -> bool {
    &&& is_tool_schema(tool, "update_plan"@, UPDATE_PLAN_DESCRIPTION@, seq!["plan"@])
    &&& tool.field("inputSchema"@) matches Some(input) && {
        &&& is_object_schema(input, seq!["explanation"@, "plan"@], seq!["plan"@])
        &&& property(input, "explanation"@) matches Some(e) && is_typed(e, "string"@)
        &&& property(input, "plan"@) matches Some(plan) && {
            &&& plan.names() == seq!["type"@, "description"@, "items"@]
            &&& text_of(plan.field("type"@)) == Some("array"@)
            &&& text_of(plan.field("description"@)) == Some("The list of steps"@)
            &&& plan.field("items"@) matches Some(item) && {
                &&& is_object_schema(item, seq!["step"@, "status"@], seq!["step"@, "status"@])
                &&& property(item, "step"@) matches Some(s) && is_typed(s, "string"@)
                &&& property(item, "status"@) matches Some(s) && is_described(
                    s,
                    "string"@,
                    "One of: pending, in_progress, completed"@,
                )
            }
        }
    }
}

/// `tool` is the whole schema of `ask_user`: a required non-blank string
/// `question`, an optional array of strings `choices`, and an optional
/// integer `timeout_seconds` of at least 1.
pub open spec fn is_ask_user_schema(tool: Json) -> bool {
    &&& is_tool_schema(tool, "ask_user"@, ASK_USER_DESCRIPTION@, seq!["question"@])
    &&& tool.field("inputSchema"@) matches Some(input) && {
        &&& is_object_schema(
            input,
            seq!["question"@, "choices"@, "timeout_seconds"@],
            seq!["question"@],
        )
        &&& property(input, "question"@) matches Some(q) && {
            &&& q.names() == seq!["type"@, "description"@, "minLength"@, "pattern"@]
            &&& text_of(q.field("type"@)) == Some("string"@)
            &&& text_of(q.field("description"@)) == Some("Prompt shown to the user"@)
            &&& q.field("minLength"@) == Some(Json::Number(JsonNumber::PosInt(1)))
            &&& text_of(q.field("pattern"@)) == Some(".*\\S.*"@)
        }
        &&& property(input, "choices"@) matches Some(c) && {
            &&& c.names() == seq!["type"@, "description"@, "items"@]
            &&& text_of(c.field("type"@)) == Some("array"@)
            &&& text_of(c.field("description"@)) == Some("Optional list of suggested choices"@)
            &&& c.field("items"@) matches Some(item) && is_typed(item, "string"@)
        }
        &&& property(input, "timeout_seconds"@) matches Some(t) && {
            &&& t.names() == seq!["type"@, "description"@, "minimum"@]
            &&& text_of(t.field("type"@)) == Some("integer"@)
            &&& text_of(t.field("description"@)) == Some("Optional timeout in seconds"@)
            &&& t.field("minimum"@) == Some(Json::Number(JsonNumber::PosInt(1)))
        }
    }
}

/// `tool` is the whole schema of `apply_patch`: a required string `input`,
/// the whole patch text, and nothing else.
pub open spec fn is_apply_patch_schema(tool: Json) -> bool {
    &&& is_tool_schema(tool, "apply_patch"@, APPLY_PATCH_DESCRIPTION@, seq!["input"@])
    &&& tool.field("inputSchema"@) matches Some(input) && {
        &&& is_object_schema(input, seq!["input"@], seq!["input"@])
        &&& property(input, "input"@) matches Some(i) && is_described(
            i,
            "string"@,
            "The entire contents of the apply_patch command"@,
        )
    }
}

fn text_array(a: &str) -> (res: Json)
    ensures
        is_text_array(Some(res), seq![a@]),
{
    let items = vec![Json::text(a)];
    assert(items@.len() == 1 && items@[0] == items@[0]);
    Json::Array(items)
}

fn object1(a: &str, x: Json) -> (res: Json)
    ensures
        res is Object,
        res.names() == seq![a@],
        res.field(a@) == Some(x),
{
    let members = vec![member(a, x)];
    assert(crate::json::member_names(members@) =~= seq![a@]);
    proof {
        crate::json::lemma_lookup_at(members@, 0);
    }
    Json::Object(members)
}

fn object2(a: &str, x: Json, b: &str, y: Json) -> (res: Json)
    requires
        a@ != b@,
    ensures
        res is Object,
        res.names() == seq![a@, b@],
        res.field(a@) == Some(x),
        res.field(b@) == Some(y),
{
    let members = vec![member(a, x), member(b, y)];
    assert(crate::json::member_names(members@) =~= seq![a@, b@]);
    proof {
        crate::json::lemma_lookup_at(members@, 0);
        crate::json::lemma_lookup_at(members@, 1);
    }
    Json::Object(members)
}

fn object3(a: &str, x: Json, b: &str, y: Json, c: &str, z: Json) -> (res: Json)
    requires
        a@ != b@,
        a@ != c@,
        b@ != c@,
    ensures
        res is Object,
        res.names() == seq![a@, b@, c@],
        res.field(a@) == Some(x),
        res.field(b@) == Some(y),
        res.field(c@) == Some(z),
{
    let members = vec![member(a, x), member(b, y), member(c, z)];
    assert(crate::json::member_names(members@) =~= seq![a@, b@, c@]);
    proof {
        crate::json::lemma_lookup_at(members@, 0);
        crate::json::lemma_lookup_at(members@, 1);
        crate::json::lemma_lookup_at(members@, 2);
    }
    Json::Object(members)
}

fn object4(a: &str, x: Json, b: &str, y: Json, c: &str, z: Json, d: &str, w: Json) -> (res: Json)
    requires
        a@ != b@,
        a@ != c@,
        a@ != d@,
        b@ != c@,
        b@ != d@,
        c@ != d@,
    ensures
        res is Object,
        res.names() == seq![a@, b@, c@, d@],
        res.field(a@) == Some(x),
        res.field(b@) == Some(y),
        res.field(c@) == Some(z),
        res.field(d@) == Some(w),
{
    let members = vec![member(a, x), member(b, y), member(c, z), member(d, w)];
    assert(crate::json::member_names(members@) =~= seq![a@, b@, c@, d@]);
    proof {
        crate::json::lemma_lookup_at(members@, 0);
        crate::json::lemma_lookup_at(members@, 1);
        crate::json::lemma_lookup_at(members@, 2);
        crate::json::lemma_lookup_at(members@, 3);
    }
    Json::Object(members)
}

fn typed(kind: &str) -> (res: Json)
    ensures
        is_typed(res, kind@),
{
    proof {
        reveal_strlit("type");
    }
    object1("type", Json::text(kind))
}

fn described(kind: &str, description: &str) -> (res: Json)
    ensures
        is_described(res, kind@, description@),
{
    proof {
        reveal_strlit("type");
        reveal_strlit("description");
        assert("type"@.len() != "description"@.len());
    }
    object2("type", Json::text(kind), "description", Json::text(description))
}

fn object_schema(properties: Json, required: Json) -> (res: Json)
    requires
        properties is Object,
    ensures
        res.names() == seq!["type"@, "properties"@, "required"@, "additionalProperties"@],
        text_of(res.field("type"@)) == Some("object"@),
        res.field("properties"@) == Some(properties),
        res.field("required"@) == Some(required),
        res.field("additionalProperties"@) == Some(Json::Bool(false)),
{
    proof {
        reveal_strlit("type");
        reveal_strlit("properties");
        reveal_strlit("required");
        reveal_strlit("additionalProperties");
        assert("type"@.len() == 4);
        assert("properties"@.len() == 10);
        assert("required"@.len() == 8);
        assert("additionalProperties"@.len() == 20);
    }
    object4(
        "type",
        Json::text("object"),
        "properties",
        properties,
        "required",
        required,
        "additionalProperties",
        Json::Bool(false),
    )
}

fn tool_schema(name: &str, description: &str, input: Json) -> (res: Json)
    ensures
        res.names() == seq!["name"@, "description"@, "inputSchema"@],
        text_of(res.field("name"@)) == Some(name@),
        text_of(res.field("description"@)) == Some(description@),
        res.field("inputSchema"@) == Some(input),
{
    proof {
        reveal_strlit("name");
        reveal_strlit("description");
        reveal_strlit("inputSchema");
        assert("name"@.len() == 4);
        assert("description"@.len() == 11);
        assert("inputSchema"@.len() == 11);
        assert("inputSchema"@[0] != "description"@[0]);
    }
    object3("name", Json::text(name), "description", Json::text(description), "inputSchema", input)
}

/// The schema of `update_plan`: an optional `explanation` and a required
/// `plan`, a list of steps, each with a `step` and a `status`.
pub fn update_plan_tool_schema() -> (res: Json)
    ensures
        is_update_plan_schema(res),
{
    proof {
        reveal_strlit("step");
        reveal_strlit("status");
        reveal_strlit("type");
        reveal_strlit("description");
        reveal_strlit("items");
        reveal_strlit("explanation");
        reveal_strlit("plan");
        assert("step"@.len() != "status"@.len());
        assert("type"@.len() != "description"@.len());
        assert("type"@[0] != "items"@[0]);
        assert("description"@.len() != "items"@.len());
        assert("explanation"@.len() != "plan"@.len());
    }
    let status = described("string", "One of: pending, in_progress, completed");
    let step_item = object_schema(
        object2("step", typed("string"), "status", status),
        Json::Array(vec![Json::text("step"), Json::text("status")]),
    );
    let plan = object3(
        "type",
        Json::text("array"),
        "description",
        Json::text("The list of steps"),
        "items",
        step_item,
    );
    let input = object_schema(
        object2("explanation", typed("string"), "plan", plan),
        text_array("plan"),
    );
    tool_schema("update_plan", UPDATE_PLAN_DESCRIPTION, input)
}

/// The schema of `ask_user`: a required non-blank `question`, optional
/// `choices` (strings) and an optional positive `timeout_seconds`.
pub fn ask_user_tool_schema() -> (res: Json)
    ensures
        is_ask_user_schema(res),
{
    proof {
        reveal_strlit("type");
        reveal_strlit("description");
        reveal_strlit("minLength");
        reveal_strlit("pattern");
        reveal_strlit("items");
        reveal_strlit("minimum");
        reveal_strlit("question");
        reveal_strlit("choices");
        reveal_strlit("timeout_seconds");
        assert("type"@.len() != "description"@.len());
        assert("type"@.len() != "minLength"@.len());
        assert("type"@.len() != "pattern"@.len());
        assert("description"@.len() != "minLength"@.len());
        assert("description"@.len() != "pattern"@.len());
        assert("minLength"@.len() != "pattern"@.len());
        assert("type"@[0] != "items"@[0]);
        assert("description"@.len() != "items"@.len());
        assert("type"@.len() != "minimum"@.len());
        assert("description"@.len() != "minimum"@.len());
        assert("question"@.len() != "choices"@.len());
        assert("question"@.len() != "timeout_seconds"@.len());
        assert("choices"@.len() != "timeout_seconds"@.len());
    }
    let question = object4(
        "type",
        Json::text("string"),
        "description",
        Json::text("Prompt shown to the user"),
        "minLength",
        Json::integer(1),
        "pattern",
        Json::text(".*\\S.*"),
    );
    let choices = object3(
        "type",
        Json::text("array"),
        "description",
        Json::text("Optional list of suggested choices"),
        "items",
        typed("string"),
    );
    let timeout = object3(
        "type",
        Json::text("integer"),
        "description",
        Json::text("Optional timeout in seconds"),
        "minimum",
        Json::integer(1),
    );
    let input = object_schema(
        object3("question", question, "choices", choices, "timeout_seconds", timeout),
        text_array("question"),
    );
    tool_schema("ask_user", ASK_USER_DESCRIPTION, input)
}

/// The schema of `apply_patch`: a required `input`, the whole patch text.
pub fn apply_patch_tool_schema() -> (res: Json)
    ensures
        is_apply_patch_schema(res),
{
    let input_text = described("string", "The entire contents of the apply_patch command");
    let input = object_schema(object1("input", input_text), text_array("input"));
    tool_schema("apply_patch", APPLY_PATCH_DESCRIPTION, input)
}

/// How `apply_patch` is used: the patch envelope and its grammar.
pub const APPLY_PATCH_DESCRIPTION: &'static str = "Use the `apply_patch` tool to edit files.\nYour patch language is a stripped-down, file-oriented diff format designed to be easy to parse and safe to apply. You can think of it as a high-level envelope:\n\n*** Begin Patch\n[ one or more file sections ]\n*** End Patch\n\nWithin that envelope, you get a sequence of file operations.\nYou MUST include a header to specify the action you are taking.\nEach operation starts with one of three headers:\n\n*** Add File: <path> - create a new file. Every following line is a + line (the initial contents).\n*** Delete File: <path> - remove an existing file. Nothing follows.\n*** Update File: <path> - patch an existing file in place (optionally with a rename).\n\nMay be immediately followed by *** Move to: <new path> if you want to rename the file.\nThen one or more “hunks”, each introduced by @@ (optionally followed by a hunk header).\nWithin a hunk each line starts with:\n\nFor instructions on [context_before] and [context_after]:\n- By default, show 3 lines of code immediately above and 3 lines immediately below each change. If a change is within 3 lines of a previous change, do NOT duplicate the first change’s [context_after] lines in the second change’s [context_before] lines.\n- If 3 lines of context is insufficient to uniquely identify the snippet of code within the file, use the @@ operator to indicate the class or function to which the snippet belongs. For instance, we might have:\n@@ class BaseClass\n[3 lines of pre-context]\n- [old_code]\n+ [new_code]\n[3 lines of post-context]\n\n- If a code block is repeated so many times in a class or function such that even a single `@@` statement and 3 lines of context cannot uniquely identify the snippet of code, you can use multiple `@@` statements to jump to the right context. For instance:\n\n@@ class BaseClass\n@@ \t def method():\n[3 lines of pre-context]\n- [old_code]\n+ [new_code]\n[3 lines of post-context]\n\nThe full grammar definition is below:\nPatch := Begin { FileOp } End\nBegin := \"*** Begin Patch\" NEWLINE\nEnd := \"*** End Patch\" NEWLINE\nFileOp := AddFile | DeleteFile | UpdateFile\nAddFile := \"*** Add File: \" path NEWLINE { \"+\" line NEWLINE }\nDeleteFile := \"*** Delete File: \" path NEWLINE\nUpdateFile := \"*** Update File: \" path NEWLINE [ MoveTo ] { Hunk }\nMoveTo := \"*** Move to: \" newPath NEWLINE\nHunk := \"@@\" [ header ] NEWLINE { HunkLine } [ \"*** End of File\" NEWLINE ]\nHunkLine := (\" \" | \"-\" | \"+\") text NEWLINE\n\nA full patch can combine several operations:\n\n*** Begin Patch\n*** Add File: hello.txt\n+Hello world\n*** Update File: src/app.py\n*** Move to: src/main.py\n@@ def greet():\n-print(\"Hi\")\n+print(\"Hello, world!\")\n*** Delete File: obsolete.txt\n*** End Patch\n\nIt is important to remember:\n\n- You must include a header with your intended action (Add/Delete/Update)\n- You must prefix new lines with `+` even when creating a new file\n- File references can only be relative, NEVER ABSOLUTE.";

} // verus!
