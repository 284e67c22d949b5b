//! The JSON-RPC messages that the server writes, and what each one holds.

use vstd::prelude::*;
use crate::json::{Json, member, member_names, spec_int_number, text_of};
use crate::paths::{concat, texts};
use crate::tools::{
    JSONRPC_VERSION, apply_patch_tool_schema, ask_user_tool_schema, is_apply_patch_schema, is_ask_user_schema,
    is_update_plan_schema,
    update_plan_tool_schema,
};

verus! {

/// The id that answers a request: the request's own, or `null`.
pub open spec fn reply_id(id: Option<Json>) -> Json {
    match id {
        Some(v) => v,
        None => Json::Null,
    }
}

/// `m` is a JSON-RPC 2.0 reply to the request `id`, with its payload under
/// `key` (`result` or `error`).
pub open spec fn is_reply(m: Json, id: Option<Json>, key: Seq<char>) -> bool {
    &&& m.names() == seq!["jsonrpc"@, key, "id"@]
    &&& text_of(m.field("jsonrpc"@)) == Some("2.0"@)
    &&& m.field("id"@) == Some(reply_id(id))
}

/// `m` is the error reply to `id` with `code` and `message`.
pub open spec fn is_error_reply(m: Json, id: Option<Json>, code: i64, message: Seq<char>) -> bool {
    &&& is_reply(m, id, "error"@)
    &&& m.field("error"@) matches Some(e) && {
        &&& e.names() == seq!["code"@, "message"@]
        &&& e.field("code"@) == Some(Json::Number(spec_int_number(code)))
        &&& text_of(e.field("message"@)) == Some(message)
    }
}

/// `b` is a text block holding `text`.
pub open spec fn is_text_block(b: Json, text: Seq<char>) -> bool {
    &&& b.names() == seq!["type"@, "text"@]
    &&& text_of(b.field("type"@)) == Some("text"@)
    &&& text_of(b.field("text"@)) == Some(text)
}

/// `value` is a list of text blocks holding `texts`, in order.
pub open spec fn is_content(value: Option<Json>, texts: Seq<Seq<char>>) -> bool {
    match value {
        Some(Json::Array(items)) => {
            &&& items@.len() == texts.len()
            &&& forall|i: int| 0 <= i < texts.len() ==> is_text_block(#[trigger] items@[i], texts[i])
        },
        _ => false,
    }
}

/// `r` is a tool result made of text blocks holding `texts`, flagged as an
/// error when `is_error`.
pub open spec fn is_content_result(r: Json, texts: Seq<Seq<char>>, is_error: bool) -> bool {
    &&& r.names() == if is_error {
        seq!["content"@, "isError"@]
    } else {
        seq!["content"@]
    }
    &&& is_content(r.field("content"@), texts)
    &&& is_error ==> r.field("isError"@) == Some(Json::Bool(true))
}

/// The text of the `ask_user` answer for `question`.
pub open spec fn ask_user_text(question: Seq<char>) -> Seq<char> {
    "ask_user unsupported: interactive popup backend is unavailable in this build. question="@
        + question
}

/// `r` is the answer to an `ask_user` call for `question`: a tool error
/// saying that no interactive backend is available, naming `backend`.
pub open spec fn is_ask_user_result(r: Json, question: Seq<char>, backend: Seq<char>) -> bool {
    &&& r.names() == seq!["content"@, "isError"@, "error"@]
    &&& is_content(r.field("content"@), seq![ask_user_text(question)])
    &&& r.field("isError"@) == Some(Json::Bool(true))
    &&& r.field("error"@) matches Some(e) && {
        &&& e.names() == seq!["kind"@, "tool"@, "backend"@, "retryable"@]
        &&& text_of(e.field("kind"@)) == Some("unsupported"@)
        &&& text_of(e.field("tool"@)) == Some("ask_user"@)
        &&& text_of(e.field("backend"@)) == Some(backend)
        &&& e.field("retryable"@) == Some(Json::Bool(false))
    }
}

/// `r` is the result of `initialize`: the protocol `version`, the server's
/// name and `server_version`, and the `tools` capability.
pub open spec fn is_initialize_result(r: Json, version: Seq<char>, server_version: Seq<char>) -> bool {
    &&& r.names() == seq!["protocolVersion"@, "serverInfo"@, "capabilities"@]
    &&& text_of(r.field("protocolVersion"@)) == Some(version)
    &&& r.field("serverInfo"@) matches Some(info) && {
        &&& info.names() == seq!["name"@, "version"@]
        &&& text_of(info.field("name"@)) == Some("codex-tools-mcp"@)
        &&& text_of(info.field("version"@)) == Some(server_version)
    }
    &&& r.field("capabilities"@) matches Some(c) && {
        &&& c.names() == seq!["tools"@]
        &&& c.field("tools"@) matches Some(Json::Object(t)) && t@.len() == 0
    }
}

/// `m` is the notification that initialization is done.
pub open spec fn is_initialized_notification(m: Json) -> bool {
    &&& m.names() == seq!["jsonrpc"@, "method"@, "params"@]
    &&& text_of(m.field("jsonrpc"@)) == Some("2.0"@)
    &&& text_of(m.field("method"@)) == Some("notifications/initialized"@)
    &&& m.field("params"@) == Some(Json::Null)
}

/// `r` lists the whole schemas of the three tools: `update_plan`,
/// `ask_user`, `apply_patch`, in that order.
pub open spec fn is_tools_list_result(r: Json) -> bool {
    &&& r.names() == seq!["tools"@]
    &&& r.field("tools"@) matches Some(Json::Array(tools)) && {
        &&& tools@.len() == 3
        &&& is_update_plan_schema(tools@[0])
        &&& is_ask_user_schema(tools@[1])
        &&& is_apply_patch_schema(tools@[2])
    }
}

/// `r` is the empty object.
pub open spec fn is_empty_object(r: Json) -> bool {
    r matches Json::Object(members) && members@.len() == 0
}

fn id_value(request_id: Option<Json>) -> (res: Json)
    ensures
        res == reply_id(request_id),
{
    match request_id {
        Some(id) => id,
        None => Json::Null,
    }
}

/// The reply to `request_id` that carries `result`.
pub fn result_message(request_id: Option<Json>, result: Json) -> (res: Json)
    ensures
        is_reply(res, request_id, "result"@),
        res.field("result"@) == Some(result),
{
    let members = vec![
        member("jsonrpc", Json::text(JSONRPC_VERSION)),
        member("result", result),
        member("id", id_value(request_id)),
    ];
    assert(member_names(members@) =~= seq!["jsonrpc"@, "result"@, "id"@]);
    proof {
        reveal_strlit("jsonrpc");
        assert("jsonrpc"@.len() == 7);
        reveal_strlit("result");
        assert("result"@.len() == 6);
        reveal_strlit("id");
        assert("id"@.len() == 2);
        crate::json::lemma_lookup_at(members@, 0);
        crate::json::lemma_lookup_at(members@, 1);
        crate::json::lemma_lookup_at(members@, 2);
    }
    Json::Object(members)
}

/// The error reply to `request_id` with `code` and `message`.
pub fn error_message(request_id: Option<Json>, code: i64, message: String) -> (res: Json)
    ensures
        is_error_reply(res, request_id, code, message@),
{
    let error = vec![member("code", Json::integer(code)), member("message", Json::String(message))];
    assert(member_names(error@) =~= seq!["code"@, "message"@]);
    proof {
        reveal_strlit("code");
        assert("code"@.len() == 4);
        reveal_strlit("message");
        assert("message"@.len() == 7);
        crate::json::lemma_lookup_at(error@, 0);
        crate::json::lemma_lookup_at(error@, 1);
    }
    let members = vec![
        member("jsonrpc", Json::text(JSONRPC_VERSION)),
        member("error", Json::Object(error)),
        member("id", id_value(request_id)),
    ];
    assert(member_names(members@) =~= seq!["jsonrpc"@, "error"@, "id"@]);
    proof {
        reveal_strlit("jsonrpc");
        assert("jsonrpc"@.len() == 7);
        reveal_strlit("error");
        assert("error"@.len() == 5);
        reveal_strlit("id");
        assert("id"@.len() == 2);
        crate::json::lemma_lookup_at(members@, 0);
        crate::json::lemma_lookup_at(members@, 1);
        crate::json::lemma_lookup_at(members@, 2);
    }
    Json::Object(members)
}

/// A text block holding `text`.
pub fn text_block(text: String) -> (res: Json)
    ensures
        is_text_block(res, text@),
{
    let members = vec![member("type", Json::text("text")), member("text", Json::String(text))];
    assert(member_names(members@) =~= seq!["type"@, "text"@]);
    proof {
        reveal_strlit("type");
        assert("type"@.len() == 4);
        reveal_strlit("text");
        assert("text"@.len() == 4);
        crate::json::lemma_lookup_at(members@, 0);
        assert("text"@[1] != "type"@[1]);
        crate::json::lemma_lookup_at(members@, 1);
    }
    Json::Object(members)
}

/// Text blocks holding `texts`, in order.
pub fn content_blocks(texts_in: Vec<String>) -> (res: Json)
    ensures
        is_content(Some(res), texts(texts_in@)),
{
    let ghost all = texts(texts_in@);
    let mut items: Vec<Json> = Vec::new();
    let mut rest = texts_in;
    let mut taken: Vec<String> = Vec::new();
    // The texts are consumed from the end, so they are first reversed.
    while rest.len() > 0
        invariant
            texts(rest@) + texts(taken@).reverse() == all,
        decreases rest.len(),
    {
        let ghost before_rest = rest@;
        let ghost before_taken = taken@;
        let t = rest.pop().unwrap();
        taken.push(t);
        assert(texts(rest@) + texts(taken@).reverse() =~= all) by {
            assert(texts(before_rest) =~= texts(rest@).push(t@));
            assert(texts(taken@) =~= texts(before_taken).push(t@));
            assert(texts(taken@).reverse() =~= seq![t@] + texts(before_taken).reverse());
        }
    }
    assert(texts(taken@).reverse() =~= all);
    while taken.len() > 0
        invariant
            items@.len() + taken@.len() == all.len(),
            forall|k: int| 0 <= k < taken@.len() ==> #[trigger] texts(taken@)[k] == all[all.len() - 1 - k],
            forall|k: int| 0 <= k < items@.len() ==> is_text_block(#[trigger] items@[k], all[k]),
        decreases taken.len(),
    {
        let ghost before = taken@;
        let t = taken.pop().unwrap();
        assert(t@ == texts(before)[before.len() - 1]);
        items.push(text_block(t));
        assert(forall|k: int| 0 <= k < taken@.len() ==> #[trigger] texts(taken@)[k] == texts(before)[k]);
    }
    Json::Array(items)
}

/// A tool result made of text blocks holding `texts`, flagged as an error
/// when `is_error`.
pub fn content_result(texts_in: Vec<String>, is_error: bool) -> (res: Json)
    ensures
        is_content_result(res, texts(texts_in@), is_error),
{
    let content = content_blocks(texts_in);
    if is_error {
        let members = vec![member("content", content), member("isError", Json::Bool(true))];
        assert(member_names(members@) =~= seq!["content"@, "isError"@]);
        proof {
            reveal_strlit("content");
            assert("content"@.len() == 7);
            reveal_strlit("isError");
            assert("isError"@.len() == 7);
            crate::json::lemma_lookup_at(members@, 0);
            assert("isError"@[0] != "content"@[0]);
            crate::json::lemma_lookup_at(members@, 1);
        }
        Json::Object(members)
    } else {
        let members = vec![member("content", content)];
        assert(member_names(members@) =~= seq!["content"@]);
        proof {
            reveal_strlit("content");
            assert("content"@.len() == 7);
            crate::json::lemma_lookup_at(members@, 0);
        }
        Json::Object(members)
    }
}

/// The answer to an `ask_user` call: no interactive backend is available.
pub fn ask_user_result(question: &str, backend: String) -> (res: Json)
    ensures
        is_ask_user_result(res, question@, backend@),
{
    let text = concat(
        "ask_user unsupported: interactive popup backend is unavailable in this build. question=",
        question,
    );
    let content = content_blocks(vec![text]);
    proof {
        assert(texts(seq![text]) =~= seq![text@]);
    }
    let error = vec![
        member("kind", Json::text("unsupported")),
        member("tool", Json::text("ask_user")),
        member("backend", Json::String(backend)),
        member("retryable", Json::Bool(false)),
    ];
    assert(member_names(error@) =~= seq!["kind"@, "tool"@, "backend"@, "retryable"@]);
    proof {
        reveal_strlit("kind");
        assert("kind"@.len() == 4);
        reveal_strlit("tool");
        assert("tool"@.len() == 4);
        reveal_strlit("backend");
        assert("backend"@.len() == 7);
        reveal_strlit("retryable");
        assert("retryable"@.len() == 9);
        crate::json::lemma_lookup_at(error@, 0);
        assert("tool"@[0] != "kind"@[0]);
        crate::json::lemma_lookup_at(error@, 1);
        crate::json::lemma_lookup_at(error@, 2);
        crate::json::lemma_lookup_at(error@, 3);
    }
    let members = vec![
        member("content", content),
        member("isError", Json::Bool(true)),
        member("error", Json::Object(error)),
    ];
    assert(member_names(members@) =~= seq!["content"@, "isError"@, "error"@]);
    proof {
        reveal_strlit("content");
        assert("content"@.len() == 7);
        reveal_strlit("isError");
        assert("isError"@.len() == 7);
        reveal_strlit("error");
        assert("error"@.len() == 5);
        crate::json::lemma_lookup_at(members@, 0);
        assert("isError"@[0] != "content"@[0]);
        crate::json::lemma_lookup_at(members@, 1);
        crate::json::lemma_lookup_at(members@, 2);
    }
    Json::Object(members)
}

/// The result of `initialize` for protocol `version`.
pub fn initialize_result(version: &str, server_version: &str) -> (res: Json)
    ensures
        is_initialize_result(res, version@, server_version@),
{
    let info = vec![member("name", Json::text("codex-tools-mcp")), member("version", Json::text(server_version))];
    assert(member_names(info@) =~= seq!["name"@, "version"@]);
    proof {
        reveal_strlit("name");
        assert("name"@.len() == 4);
        reveal_strlit("version");
        assert("version"@.len() == 7);
        crate::json::lemma_lookup_at(info@, 0);
        crate::json::lemma_lookup_at(info@, 1);
    }
    let capabilities = vec![member("tools", Json::Object(Vec::new()))];
    assert(member_names(capabilities@) =~= seq!["tools"@]);
    proof {
        reveal_strlit("tools");
        assert("tools"@.len() == 5);
        crate::json::lemma_lookup_at(capabilities@, 0);
    }
    let members = vec![
        member("protocolVersion", Json::text(version)),
        member("serverInfo", Json::Object(info)),
        member("capabilities", Json::Object(capabilities)),
    ];
    assert(member_names(members@) =~= seq!["protocolVersion"@, "serverInfo"@, "capabilities"@]);
    proof {
        reveal_strlit("protocolVersion");
        assert("protocolVersion"@.len() == 15);
        reveal_strlit("serverInfo");
        assert("serverInfo"@.len() == 10);
        reveal_strlit("capabilities");
        assert("capabilities"@.len() == 12);
        crate::json::lemma_lookup_at(members@, 0);
        crate::json::lemma_lookup_at(members@, 1);
        crate::json::lemma_lookup_at(members@, 2);
    }
    Json::Object(members)
}

/// The notification that initialization is done.
pub fn initialized_notification() -> (res: Json)
    ensures
        is_initialized_notification(res),
{
    let members = vec![
        member("jsonrpc", Json::text(JSONRPC_VERSION)),
        member("method", Json::text("notifications/initialized")),
        member("params", Json::Null),
    ];
    assert(member_names(members@) =~= seq!["jsonrpc"@, "method"@, "params"@]);
    proof {
        reveal_strlit("jsonrpc");
        assert("jsonrpc"@.len() == 7);
        reveal_strlit("method");
        assert("method"@.len() == 6);
        reveal_strlit("params");
        assert("params"@.len() == 6);
        crate::json::lemma_lookup_at(members@, 0);
        crate::json::lemma_lookup_at(members@, 1);
        assert("params"@[0] != "method"@[0]);
        crate::json::lemma_lookup_at(members@, 2);
    }
    Json::Object(members)
}

/// The result of `tools/list`.
pub fn tools_list_result() -> (res: Json)
    ensures
        is_tools_list_result(res),
{
    let tools = vec![update_plan_tool_schema(), ask_user_tool_schema(), apply_patch_tool_schema()];
    let members = vec![member("tools", Json::Array(tools))];
    assert(member_names(members@) =~= seq!["tools"@]);
    proof {
        reveal_strlit("tools");
        assert("tools"@.len() == 5);
        crate::json::lemma_lookup_at(members@, 0);
    }
    Json::Object(members)
}

} // verus!
