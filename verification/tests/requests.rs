//! How the server answers requests, line by line.

use codex_tools_mcp::json::{Json, JsonNumber};
use codex_tools_mcp::server::{
    apply_patch_result, backend_name, handle_line, handle_text_line, is_blank_line, Outcome, PatchRun, PatchStep, ServerConfig,
};
use codex_tools_mcp::tools::{
    apply_patch_tool_schema, ask_user_tool_schema, update_plan_tool_schema, INVALID_PARAMS, INVALID_REQUEST,
    METHOD_NOT_FOUND, PARSE_ERROR,
};
use codex_tools_mcp::walk::{AbsPath, WalkEvent};

fn s(text: &str) -> Json {
    Json::String(text.to_string())
}

fn n(v: i64) -> Json {
    if v < 0 {
        Json::Number(JsonNumber::NegInt(v))
    } else {
        Json::Number(JsonNumber::PosInt(v as u64))
    }
}

fn obj(members: Vec<(&str, Json)>) -> Json {
    Json::Object(members.into_iter().map(|(k, v)| (k.to_string(), v)).collect())
}

fn request(id: Option<Json>, method: &str, params: Option<Json>) -> Json {
    let mut members = vec![("jsonrpc", s("2.0"))];
    if let Some(id) = id {
        members.push(("id", id));
    }
    members.push(("method", s(method)));
    if let Some(params) = params {
        members.push(("params", params));
    }
    obj(members)
}

fn config(root: Option<&str>) -> ServerConfig {
    ServerConfig {
        restrict_root: root.map(|r| AbsPath {
            segments: r.split('/').filter(|x| !x.is_empty()).map(|x| x.to_string()).collect(),
        }),
        server_version: "1.2.3".to_string(),
    }
}

fn field<'a>(v: &'a Json, key: &str) -> &'a Json {
    v.get(key).unwrap_or_else(|| panic!("no member {key} in {v:?}"))
}

fn only_reply(outcome: Outcome) -> Json {
    match outcome {
        Outcome::Reply(mut messages) => {
            assert_eq!(messages.len(), 1, "{messages:?}");
            messages.pop().unwrap()
        }
        Outcome::Ignored(r) => panic!("ignored: {r}"),
        Outcome::Patch(_, step) => panic!("patch job: {step:?}"),
    }
}

fn assert_error(reply: &Json, id: Json, code: i64, message: &str) {
    assert_eq!(field(reply, "jsonrpc"), &s("2.0"));
    assert_eq!(field(reply, "id"), &id);
    let error = field(reply, "error");
    assert_eq!(field(error, "code"), &n(code));
    assert_eq!(field(error, "message"), &s(message));
}

fn texts_of(result: &Json) -> Vec<String> {
    match field(result, "content") {
        Json::Array(items) => items
            .iter()
            .map(|b| {
                assert_eq!(field(b, "type"), &s("text"));
                field(b, "text").as_str().unwrap().to_string()
            })
            .collect(),
        other => panic!("content is {other:?}"),
    }
}

fn call(id: i64, name: &str, arguments: Option<Json>) -> Json {
    let mut params = vec![("name", s(name))];
    if let Some(a) = arguments {
        params.push(("arguments", a));
    }
    request(Some(n(id)), "tools/call", Some(obj(params)))
}

#[test]
fn initialize_answers_then_notifies() {
    let params = obj(vec![("protocolVersion", s("2025-06-18")), ("capabilities", obj(vec![]))]);
    match handle_line(Ok(request(Some(n(1)), "initialize", Some(params))), &config(None), None) {
        Outcome::Reply(messages) => {
            assert_eq!(messages.len(), 2);
            let result = field(&messages[0], "result");
            assert_eq!(field(&messages[0], "id"), &n(1));
            assert_eq!(field(result, "protocolVersion"), &s("2025-06-18"));
            let info = field(result, "serverInfo");
            assert_eq!(field(info, "name"), &s("codex-tools-mcp"));
            assert_eq!(field(info, "version"), &s("1.2.3"));
            assert_eq!(field(field(result, "capabilities"), "tools"), &obj(vec![]));
            assert_eq!(field(&messages[1], "method"), &s("notifications/initialized"));
            assert_eq!(field(&messages[1], "params"), &Json::Null);
        }
        _ => panic!("expected replies"),
    }
}

#[test]
fn initialize_negotiates_the_zed_version() {
    let params = obj(vec![("protocolVersion", s("2025-03-26"))]);
    match handle_line(Ok(request(Some(s("a")), "initialize", Some(params))), &config(None), None) {
        Outcome::Reply(messages) => {
            assert_eq!(field(field(&messages[0], "result"), "protocolVersion"), &s("2025-03-26"));
            assert_eq!(field(&messages[0], "id"), &s("a"));
        }
        _ => panic!("expected replies"),
    }
}

#[test]
fn initialize_refuses_unsupported_versions() {
    let params = obj(vec![("protocolVersion", s("1999-01-01"))]);
    let reply = only_reply(handle_line(Ok(request(Some(n(9)), "initialize", Some(params))), &config(None), None));
    assert_error(&reply, n(9), INVALID_PARAMS, "Unsupported protocol version: 1999-01-01");
}

#[test]
fn initialize_without_version_uses_the_current_one() {
    match handle_line(Ok(request(Some(n(1)), "initialize", Some(obj(vec![])))), &config(None), None) {
        Outcome::Reply(messages) => {
            assert_eq!(field(field(&messages[0], "result"), "protocolVersion"), &s("2025-06-18"));
        }
        _ => panic!("expected replies"),
    }
}

#[test]
fn initialize_needs_an_id_and_object_params() {
    let reply = only_reply(handle_line(Ok(request(None, "initialize", Some(obj(vec![])))), &config(None), None));
    assert_error(&reply, Json::Null, INVALID_REQUEST, "initialize must include an id");
    let reply = only_reply(handle_line(Ok(request(Some(n(2)), "initialize", Some(s("x")))), &config(None), None));
    assert_error(&reply, n(2), INVALID_PARAMS, "initialize params must be object");
    let reply = only_reply(handle_line(Ok(request(Some(n(2)), "initialize", None)), &config(None), None));
    assert_error(&reply, n(2), INVALID_PARAMS, "initialize params must be object");
}

#[test]
fn tools_list_names_three_tools() {
    let reply = only_reply(handle_line(Ok(request(Some(n(2)), "tools/list", None)), &config(None), None));
    assert_eq!(field(&reply, "id"), &n(2));
    match field(field(&reply, "result"), "tools") {
        Json::Array(tools) => {
            let names: Vec<&Json> = tools.iter().map(|t| field(t, "name")).collect();
            assert_eq!(names, vec![&s("update_plan"), &s("ask_user"), &s("apply_patch")]);
        }
        other => panic!("{other:?}"),
    }
    let reply = only_reply(handle_line(Ok(request(None, "tools/list", None)), &config(None), None));
    assert_error(&reply, Json::Null, INVALID_REQUEST, "tools/list must include an id");
}

#[test]
fn schemas_require_their_inputs() {
    for (schema, name, required) in [
        (update_plan_tool_schema(), "update_plan", "plan"),
        (ask_user_tool_schema(), "ask_user", "question"),
        (apply_patch_tool_schema(), "apply_patch", "input"),
    ] {
        assert_eq!(field(&schema, "name"), &s(name));
        let input = field(&schema, "inputSchema");
        assert_eq!(field(input, "type"), &s("object"));
        assert_eq!(field(input, "required"), &Json::Array(vec![s(required)]));
        assert_eq!(field(input, "additionalProperties"), &Json::Bool(false));
    }
}

#[test]
fn schemas_describe_each_property() {
    let plan_schema = update_plan_tool_schema();
    let props = field(field(&plan_schema, "inputSchema"), "properties");
    assert_eq!(field(field(props, "explanation"), "type"), &s("string"));
    let plan = field(props, "plan");
    assert_eq!(field(plan, "type"), &s("array"));
    assert_eq!(field(plan, "description"), &s("The list of steps"));
    let item = field(plan, "items");
    assert_eq!(field(item, "type"), &s("object"));
    assert_eq!(field(item, "required"), &Json::Array(vec![s("step"), s("status")]));
    assert_eq!(field(item, "additionalProperties"), &Json::Bool(false));
    assert_eq!(field(field(field(item, "properties"), "step"), "type"), &s("string"));
    assert_eq!(
        field(field(field(item, "properties"), "status"), "description"),
        &s("One of: pending, in_progress, completed")
    );

    let ask = ask_user_tool_schema();
    let props = field(field(&ask, "inputSchema"), "properties");
    let question = field(props, "question");
    assert_eq!(field(question, "type"), &s("string"));
    assert_eq!(field(question, "minLength"), &n(1));
    assert_eq!(field(question, "pattern"), &s(".*\\S.*"));
    let choices = field(props, "choices");
    assert_eq!(field(choices, "type"), &s("array"));
    assert_eq!(field(field(choices, "items"), "type"), &s("string"));
    let timeout = field(props, "timeout_seconds");
    assert_eq!(field(timeout, "type"), &s("integer"));
    assert_eq!(field(timeout, "minimum"), &n(1));

    let patch = apply_patch_tool_schema();
    let input = field(field(field(&patch, "inputSchema"), "properties"), "input");
    assert_eq!(field(input, "type"), &s("string"));
    assert_eq!(field(input, "description"), &s("The entire contents of the apply_patch command"));
    assert!(matches!(field(&patch, "description"), Json::String(d) if d.starts_with("Use the `apply_patch` tool")));
}

#[test]
fn lines_are_answered_alike_wherever_they_stand() {
    let line = || Ok(request(Some(n(9)), "tools/list", None));
    let alone = only_reply(handle_line(line(), &config(None), None));
    let _ = handle_line(Ok(request(Some(n(1)), "initialize", Some(obj(vec![])))), &config(None), None);
    let after = only_reply(handle_line(line(), &config(None), None));
    assert_eq!(alone, after);
}

#[test]
fn ping_answers_with_an_empty_object() {
    let reply = only_reply(handle_line(Ok(request(Some(n(5)), "ping", None)), &config(None), None));
    assert_eq!(field(&reply, "result"), &obj(vec![]));
    assert_eq!(field(&reply, "id"), &n(5));
    let reply = only_reply(handle_line(Ok(request(None, "ping", None)), &config(None), None));
    assert_error(&reply, Json::Null, INVALID_REQUEST, "ping must include an id");
}

#[test]
fn unknown_methods_and_bad_lines_are_errors() {
    let reply = only_reply(handle_line(Ok(request(Some(n(3)), "resources/list", None)), &config(None), None));
    assert_error(&reply, n(3), METHOD_NOT_FOUND, "Unknown method: resources/list");
    let reply = only_reply(handle_line(Err("expected value at line 1 column 1".to_string()), &config(None), None));
    assert_error(&reply, Json::Null, PARSE_ERROR, "Malformed JSON: expected value at line 1 column 1");
    let reply = only_reply(handle_line(Ok(Json::Array(vec![])), &config(None), None));
    assert_error(&reply, Json::Null, INVALID_REQUEST, "Request must be a JSON object");
}

#[test]
fn a_request_without_method_is_ignored() {
    let message = obj(vec![("jsonrpc", s("2.0")), ("id", n(1))]);
    match handle_line(Ok(message), &config(None), None) {
        Outcome::Ignored(reason) => assert_eq!(reason, "missing method"),
        _ => panic!("expected nothing to be written"),
    }
}

#[test]
fn update_plan_is_acknowledged() {
    let reply = only_reply(handle_line(Ok(call(4, "update_plan", Some(obj(vec![])))), &config(None), None));
    assert_eq!(texts_of(field(&reply, "result")), vec!["Plan updated".to_string()]);
    assert!(field(&reply, "result").get("isError").is_none());
}

#[test]
fn tools_call_checks_its_params() {
    let reply = only_reply(handle_line(Ok(request(None, "tools/call", Some(obj(vec![])))), &config(None), None));
    assert_error(&reply, Json::Null, INVALID_REQUEST, "tools/call must include an id");
    let reply = only_reply(handle_line(Ok(request(Some(n(1)), "tools/call", Some(n(3)))), &config(None), None));
    assert_error(&reply, n(1), INVALID_PARAMS, "tools/call params must be object");
    let reply = only_reply(handle_line(Ok(request(Some(n(1)), "tools/call", Some(obj(vec![])))), &config(None), None));
    assert_error(&reply, n(1), INVALID_PARAMS, "tools/call params missing name");
    let reply = only_reply(handle_line(Ok(call(1, "shell", None)), &config(None), None));
    assert_error(&reply, n(1), METHOD_NOT_FOUND, "Unknown tool: shell");
}

#[test]
fn ask_user_is_answered_as_unsupported() {
    let args = obj(vec![("choices", Json::Array(vec![s("a"), s("b")])), ("question", s("Proceed?")), ("timeout_seconds", n(30))]);
    let reply = only_reply(handle_line(Ok(call(6, "ask_user", Some(args))), &config(None), Some("popup".to_string())));
    let result = field(&reply, "result");
    assert_eq!(
        texts_of(result),
        vec!["ask_user unsupported: interactive popup backend is unavailable in this build. question=Proceed?".to_string()]
    );
    assert_eq!(field(result, "isError"), &Json::Bool(true));
    let error = field(result, "error");
    assert_eq!(field(error, "kind"), &s("unsupported"));
    assert_eq!(field(error, "tool"), &s("ask_user"));
    assert_eq!(field(error, "backend"), &s("popup"));
    assert_eq!(field(error, "retryable"), &Json::Bool(false));
}

#[test]
fn ask_user_backend_defaults_to_none() {
    assert_eq!(backend_name(None), "none");
    assert_eq!(backend_name(Some("  ".to_string())), "none");
    assert_eq!(backend_name(Some("kitty".to_string())), "kitty");
}

#[test]
fn ask_user_validates_its_arguments() {
    let cases: Vec<(Option<Json>, &str)> = vec![
        (None, "ask_user requires arguments"),
        (Some(s("q")), "ask_user arguments must be an object"),
        (Some(obj(vec![("question", s("q")), ("zzz", n(1))])), "ask_user received unknown argument: zzz"),
        (Some(obj(vec![])), "ask_user question must be provided as a string"),
        (Some(obj(vec![("question", n(1))])), "ask_user question must be provided as a string"),
        (Some(obj(vec![("question", s(" \t"))])), "ask_user question must be a non-empty string"),
        (Some(obj(vec![("choices", s("a")), ("question", s("q"))])), "ask_user choices must be an array of strings"),
        (
            Some(obj(vec![("choices", Json::Array(vec![s("a"), n(2)])), ("question", s("q"))])),
            "ask_user choices must be an array of strings",
        ),
        (Some(obj(vec![("question", s("q")), ("timeout_seconds", n(0))])), "ask_user timeout_seconds must be a positive integer"),
        (
            Some(obj(vec![("question", s("q")), ("timeout_seconds", Json::Number(JsonNumber::Float("1.5".to_string())))])),
            "ask_user timeout_seconds must be a positive integer",
        ),
        (
            Some(obj(vec![("question", s("q")), ("timeout_seconds", Json::Number(JsonNumber::PosInt(u64::MAX)))])),
            "ask_user timeout_seconds must be a positive integer",
        ),
    ];
    for (args, message) in cases {
        let reply = only_reply(handle_line(Ok(call(7, "ask_user", args)), &config(None), None));
        assert_error(&reply, n(7), INVALID_PARAMS, message);
    }
}

#[test]
fn apply_patch_validates_its_arguments() {
    let cases: Vec<(Option<Json>, &str)> = vec![
        (None, "apply_patch requires arguments"),
        (Some(n(1)), "apply_patch arguments must be an object"),
        (Some(obj(vec![])), "apply_patch input must be provided as a string"),
        (Some(obj(vec![("input", n(1))])), "apply_patch input must be provided as a string"),
    ];
    for (args, message) in cases {
        let reply = only_reply(handle_line(Ok(call(8, "apply_patch", args)), &config(None), None));
        assert_error(&reply, n(8), INVALID_PARAMS, message);
    }
}

const HELLO_PATCH: &str = "*** Begin Patch\n*** Add File: hello.txt\n+hello world!\n*** End Patch\n";

#[test]
fn apply_patch_runs_at_once_without_a_root() {
    let args = obj(vec![("input", s(HELLO_PATCH))]);
    match handle_line(Ok(call(3, "apply_patch", Some(args))), &config(None), None) {
        Outcome::Patch(mut job, PatchStep::Apply(patch)) => {
            assert_eq!(patch, HELLO_PATCH);
            assert!(job.is_applying());
            let run = PatchRun {
                outcome: Ok(()),
                stdout: b"Success. Updated the following files:\nA hello.txt\n".to_vec(),
                stderr: Vec::new(),
            };
            let reply = job.on_applied(run);
            assert_eq!(field(&reply, "id"), &n(3));
            assert_eq!(
                texts_of(field(&reply, "result")),
                vec!["Success. Updated the following files:\nA hello.txt".to_string()]
            );
        }
        _ => panic!("expected the patch to run"),
    }
}

#[test]
fn apply_patch_under_a_root_is_refused_when_it_escapes() {
    let args = obj(vec![("input", s("*** Begin Patch\n*** Add File: ../escape.txt\n+x\n*** End Patch\n"))]);
    match handle_line(Ok(call(2, "apply_patch", Some(args))), &config(Some("/tmp/work")), None) {
        Outcome::Patch(job, PatchStep::Reply(reply)) => {
            assert!(!job.is_checking() && !job.is_applying());
            let result = field(&reply, "result");
            assert_eq!(field(result, "isError"), &Json::Bool(true));
            assert_eq!(
                texts_of(result),
                vec!["apply_patch failed: Patch path escapes workdir: ../escape.txt (line 2)".to_string()]
            );
            assert_eq!(field(&reply, "id"), &n(2));
        }
        _ => panic!("expected a refusal"),
    }
}

#[test]
fn apply_patch_under_a_root_checks_the_disk_first() {
    let args = obj(vec![("input", s(HELLO_PATCH))]);
    match handle_line(Ok(call(2, "apply_patch", Some(args))), &config(Some("/tmp/work")), None) {
        Outcome::Patch(mut job, PatchStep::Inspect(p)) => {
            assert_eq!(p.segments, vec!["tmp".to_string(), "work".to_string(), "hello.txt".to_string()]);
            assert!(job.is_checking());
            let missing = codex_tools_mcp::walk::ProbeError::NotFound("No such file or directory (os error 2)".to_string());
            match job.on_walk(WalkEvent::Inspected(Err(missing))) {
                PatchStep::Apply(patch) => assert_eq!(patch, HELLO_PATCH),
                other => panic!("{other:?}"),
            }
        }
        _ => panic!("expected an inspection"),
    }
}

#[test]
fn apply_patch_results_report_output_and_failure() {
    let quiet = apply_patch_result(PatchRun { outcome: Ok(()), stdout: Vec::new(), stderr: b" \n".to_vec() });
    assert_eq!(texts_of(&quiet), vec!["Patch applied".to_string()]);
    assert!(quiet.get("isError").is_none());

    let warned = apply_patch_result(PatchRun { outcome: Ok(()), stdout: b"done\n".to_vec(), stderr: b"careful\n\n".to_vec() });
    assert_eq!(texts_of(&warned), vec!["done".to_string(), "stderr:\ncareful".to_string()]);

    let failed = apply_patch_result(PatchRun {
        outcome: Err("Failed to find expected lines".to_string()),
        stdout: Vec::new(),
        stderr: vec![0xff, b'x', b'\n'],
    });
    assert_eq!(
        texts_of(&failed),
        vec!["apply_patch failed: Failed to find expected lines".to_string(), "stderr:\n\u{fffd}x".to_string()]
    );
    assert_eq!(field(&failed, "isError"), &Json::Bool(true));
}

#[test]
fn blank_lines_are_skipped() {
    assert!(is_blank_line(""));
    assert!(is_blank_line("  \t "));
    assert!(!is_blank_line(" {} "));
}

fn text_reply(line: &str) -> Json {
    only_reply(handle_text_line(line, &config(None), None).expect("a reply"))
}

#[test]
fn text_lines_are_parsed_then_answered() {
    assert!(handle_text_line("", &config(None), None).is_none());
    assert!(handle_text_line(" \t ", &config(None), None).is_none());

    let reply = text_reply(r#"{"jsonrpc":"2.0","id":7,"method":"ping"}"#);
    assert_eq!(field(&reply, "id"), &n(7));
    assert_eq!(field(&reply, "result"), &obj(vec![]));

    let reply = text_reply("not json");
    assert_error(&reply, Json::Null, PARSE_ERROR, "Malformed JSON: expected ident at line 1 column 2");

    let reply = text_reply("[1, 2]");
    assert_error(&reply, Json::Null, INVALID_REQUEST, "Request must be a JSON object");

    let reply = text_reply(r#"{"jsonrpc":"2.0","id":-3,"method":"nope"}"#);
    assert_error(&reply, n(-3), METHOD_NOT_FOUND, "Unknown method: nope");
}

#[test]
fn text_lines_keep_what_the_json_says() {
    let reply = text_reply(r#"{"id":"abc","method":"tools/call","params":{"name":"update_plan","arguments":{"plan":[]}}}"#);
    assert_eq!(field(&reply, "id"), &s("abc"));
    assert_eq!(texts_of(field(&reply, "result")), vec!["Plan updated".to_string()]);

    let reply = text_reply(r#"{"id":1.5,"method":"ping"}"#);
    assert_eq!(field(&reply, "id"), &Json::Number(JsonNumber::Float("1.5".to_string())));

    let line = r#"{"id":2,"method":"tools/call","params":{"name":"ask_user","arguments":{"question":"Go?","zzz":1,"aaa":2}}}"#;
    assert_error(&text_reply(line), n(2), INVALID_PARAMS, "ask_user received unknown argument: aaa");
}
