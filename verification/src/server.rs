//! What the server does with each line a client sends: the JSON-RPC
//! requests it answers, the tools it runs, and the order of the checks that
//! reject a malformed request.
//!
//! Nothing here reads or writes: `handle_line` decides, and hands back the
//! messages to write or, for `apply_patch`, a `PatchJob` that asks its driver
//! to look at the disk and to run the patch.

use vstd::prelude::*;
use crate::guard::{GuardView, PatchGuard, guard_started, validate_patch_paths_within_root};
use crate::json::{Json, json_parse_of, parse_json, text_of};
use crate::paths::{concat, texts};
use crate::replies::{
    ask_user_result, content_result, error_message, initialize_result, initialized_notification,
    is_ask_user_result, is_content_result, is_empty_object, is_error_reply, is_initialize_result,
    is_initialized_notification, is_reply, is_tools_list_result, result_message, tools_list_result,
};
use crate::text::{
    lemma_text_lines_append, text_lines, is_blank, is_blank_text, same_text, strip_trailing_newlines, string_from_chars, to_chars,
    trim_trailing_newlines,
};
use crate::tools::{
    INVALID_PARAMS, INVALID_REQUEST, METHOD_NOT_FOUND, MCP_PROTOCOL_VERSION, MCP_PROTOCOL_VERSION_ZED,
    PARSE_ERROR,
};
use crate::walk::{AbsPath, StepView, WalkEvent, WalkStep};

verus! {

/// How the server runs.
pub struct ServerConfig {
    /// With `--restrict-to-workdir`: the canonical working directory that
    /// every patch path must stay inside.
    pub restrict_root: Option<AbsPath>,
    /// The version the server reports to `initialize`.
    pub server_version: String,
}

/// The answer the server owes to a request, as a description.
pub enum Expected {
    /// An error reply.
    Error { id: Option<Json>, code: i64, message: Seq<char> },
    /// A tool result of text blocks.
    Content { id: Json, texts: Seq<Seq<char>>, is_error: bool },
    /// The `ask_user` answer.
    AskUser { id: Json, question: Seq<char>, backend: Seq<char> },
    /// The `initialize` result for protocol `version`, then the
    /// `notifications/initialized` notification.
    Initialize { id: Json, version: Seq<char> },
    /// The list of tools.
    ToolsList { id: Json },
    /// The answer to `ping`.
    Pong { id: Json },
    /// Nothing is written: the request names no method.
    Ignored,
    /// An `apply_patch` call with `patch`, whose checks and run follow.
    Patch { id: Json, patch: Seq<char> },
}

/// The protocol version that `initialize` settles on, or why it refuses:
/// the client's version when it is one that the server speaks
/// (`2025-06-18`, or `2025-03-26` for Zed), the server's own when the client
/// names none.
pub open spec fn negotiated_version(params: Json) -> Result<Seq<char>, Seq<char>> {
    match params.field("protocolVersion"@) {
        None => Ok("2025-06-18"@),
        Some(Json::String(v)) => if v@ == "2025-06-18"@ || v@ == "2025-03-26"@ {
            Ok(v@)
        } else {
            Err("Unsupported protocol version: "@ + v@)
        },
        Some(_) => Err("initialize protocolVersion must be a string"@),
    }
}

/// Whether `name` is an argument of `ask_user`.
pub open spec fn is_ask_user_argument(name: Seq<char>) -> bool {
    name == "question"@ || name == "choices"@ || name == "timeout_seconds"@
}

/// The first of `names` that `ask_user` does not take.
pub open spec fn first_unknown_argument(names: Seq<Seq<char>>) -> Option<Seq<char>>
    decreases names.len(),
{
    if names.len() == 0 {
        None
    } else if !is_ask_user_argument(names[0]) {
        Some(names[0])
    } else {
        first_unknown_argument(names.drop_first())
    }
}

/// `choices`, when given, is not an array of strings.
pub open spec fn choices_invalid(choices: Option<Json>) -> bool {
    match choices {
        None => false,
        Some(Json::Array(items)) => exists|j: int| 0 <= j < items@.len() && !(#[trigger] items@[j] is String),
        Some(_) => true,
    }
}

/// `timeout`, when given, is not a positive integer.
pub open spec fn timeout_invalid(timeout: Option<Json>) -> bool {
    match timeout {
        None => false,
        Some(v) => !(v.int_value() matches Some(n) && n > 0),
    }
}

/// The backend that an `ask_user` answer names: the configured one unless
/// it is missing or blank, then `none`.
pub open spec fn backend_label(backend: Option<Seq<char>>) -> Seq<char> {
    match backend {
        Some(b) => if is_blank_text(b) {
            "none"@
        } else {
            b
        },
        None => "none"@,
    }
}

/// The answer to `initialize`.
pub open spec fn initialize_expected(id: Option<Json>, params: Option<Json>) -> Expected {
    match id {
        None => Expected::Error { id: None, code: INVALID_REQUEST, message: "initialize must include an id"@ },
        Some(i) => match params {
            Some(p) => if p is Object {
                match negotiated_version(p) {
                    Ok(v) => Expected::Initialize { id: i, version: v },
                    Err(m) => Expected::Error { id: Some(i), code: INVALID_PARAMS, message: m },
                }
            } else {
                Expected::Error { id: Some(i), code: INVALID_PARAMS, message: "initialize params must be object"@ }
            },
            None => Expected::Error { id: Some(i), code: INVALID_PARAMS, message: "initialize params must be object"@ },
        },
    }
}

/// The answer to an `ask_user` call with call parameters `params`.
pub open spec fn ask_user_expected(id: Json, params: Json, backend: Option<Seq<char>>) -> Expected {
    let bad = |m: Seq<char>| Expected::Error { id: Some(id), code: INVALID_PARAMS, message: m };
    match params.field("arguments"@) {
        None => bad("ask_user requires arguments"@),
        Some(args) => if !(args is Object) {
            bad("ask_user arguments must be an object"@)
        } else {
            match first_unknown_argument(args.names()) {
                Some(k) => bad("ask_user received unknown argument: "@ + k),
                None => match text_of(args.field("question"@)) {
                    None => bad("ask_user question must be provided as a string"@),
                    Some(q) => if is_blank_text(q) {
                        bad("ask_user question must be a non-empty string"@)
                    } else if choices_invalid(args.field("choices"@)) {
                        bad("ask_user choices must be an array of strings"@)
                    } else if timeout_invalid(args.field("timeout_seconds"@)) {
                        bad("ask_user timeout_seconds must be a positive integer"@)
                    } else {
                        Expected::AskUser { id, question: q, backend: backend_label(backend) }
                    },
                },
            }
        },
    }
}

/// The answer to an `apply_patch` call with call parameters `params`.
pub open spec fn apply_patch_expected(id: Json, params: Json) -> Expected {
    let bad = |m: Seq<char>| Expected::Error { id: Some(id), code: INVALID_PARAMS, message: m };
    match params.field("arguments"@) {
        None => bad("apply_patch requires arguments"@),
        Some(args) => if !(args is Object) {
            bad("apply_patch arguments must be an object"@)
        } else {
            match text_of(args.field("input"@)) {
                None => bad("apply_patch input must be provided as a string"@),
                Some(patch) => Expected::Patch { id, patch },
            }
        },
    }
}

/// The answer to `tools/call`.
pub open spec fn tools_call_expected(
    id: Option<Json>,
    params: Option<Json>,
    backend: Option<Seq<char>>,
) -> Expected {
    match id {
        None => Expected::Error { id: None, code: INVALID_REQUEST, message: "tools/call must include an id"@ },
        Some(i) => match params {
            Some(p) => if !(p is Object) {
                Expected::Error { id: Some(i), code: INVALID_PARAMS, message: "tools/call params must be object"@ }
            } else {
                match text_of(p.field("name"@)) {
                    Some(name) => if name == "update_plan"@ {
                        Expected::Content { id: i, texts: seq!["Plan updated"@], is_error: false }
                    } else if name == "ask_user"@ {
                        ask_user_expected(i, p, backend)
                    } else if name == "apply_patch"@ {
                        apply_patch_expected(i, p)
                    } else {
                        Expected::Error { id: Some(i), code: METHOD_NOT_FOUND, message: "Unknown tool: "@ + name }
                    },
                    None => Expected::Error { id: Some(i), code: INVALID_PARAMS, message: "tools/call params missing name"@ },
                }
            },
            None => Expected::Error { id: Some(i), code: INVALID_PARAMS, message: "tools/call params must be object"@ },
        },
    }
}

/// The answer to the request `message`, a JSON object.
pub open spec fn message_expected(message: Json, backend: Option<Seq<char>>) -> Expected {
    let id = message.field("id"@);
    let params = message.field("params"@);
    match text_of(message.field("method"@)) {
        None => Expected::Ignored,
        Some(m) => if m == "initialize"@ {
            initialize_expected(id, params)
        } else if m == "tools/list"@ {
            match id {
                None => Expected::Error { id: None, code: INVALID_REQUEST, message: "tools/list must include an id"@ },
                Some(i) => Expected::ToolsList { id: i },
            }
        } else if m == "tools/call"@ {
            tools_call_expected(id, params, backend)
        } else if m == "ping"@ {
            match id {
                None => Expected::Error { id: None, code: INVALID_REQUEST, message: "ping must include an id"@ },
                Some(i) => Expected::Pong { id: i },
            }
        } else {
            Expected::Error { id, code: METHOD_NOT_FOUND, message: "Unknown method: "@ + m }
        },
    }
}

/// The answer to one line, already parsed as JSON (or the parser's error).
pub open spec fn line_expected(parsed: Result<Json, Seq<char>>, backend: Option<Seq<char>>) -> Expected {
    match parsed {
        Err(e) => Expected::Error { id: None, code: PARSE_ERROR, message: "Malformed JSON: "@ + e },
        Ok(message) => if !(message is Object) {
            Expected::Error { id: None, code: INVALID_REQUEST, message: "Request must be a JSON object"@ }
        } else {
            message_expected(message, backend)
        },
    }
}


/// The text that `String::from_utf8_lossy` makes of `bytes`.
pub uninterp spec fn utf8_lossy_of(bytes: Seq<u8>) -> Seq<char>;

/// Decodes `bytes` with `String::from_utf8_lossy`, which replaces each
/// invalid sequence by U+FFFD; the claim is that the result is that
/// function's text, and that valid UTF-8 is decoded unchanged.
#[verifier::external_body]
fn utf8_lossy(bytes: &[u8]) -> (res: String)
    ensures
        res@ == utf8_lossy_of(bytes@),
        vstd::utf8::valid_utf8(bytes@) ==> res@ == vstd::utf8::decode_utf8(bytes@),
{
    String::from_utf8_lossy(bytes).into_owned()
}

/// The text blocks for what a patch run printed: its output and its error
/// output, each without trailing line feeds, when not blank.
pub open spec fn output_blocks(stdout: Seq<char>, stderr: Seq<char>) -> Seq<Seq<char>> {
    (if is_blank_text(stdout) {
        seq![]
    } else {
        seq![strip_trailing_newlines(stdout)]
    }) + (if is_blank_text(stderr) {
        seq![]
    } else {
        seq!["stderr:\n"@ + strip_trailing_newlines(stderr)]
    })
}

/// The outcome of a patch run with its error's text.
pub open spec fn outcome_view(outcome: Result<(), String>) -> Result<(), Seq<char>> {
    match outcome {
        Ok(()) => Ok(()),
        Err(e) => Err(e@),
    }
}

/// The text blocks that answer a patch run, and whether they report an
/// error: on success what it printed, or `Patch applied` when it printed
/// nothing; on failure the failure, then what it printed.
pub open spec fn apply_patch_texts(
    outcome: Result<(), Seq<char>>,
    stdout: Seq<char>,
    stderr: Seq<char>,
) -> (Seq<Seq<char>>, bool) {
    let blocks = output_blocks(stdout, stderr);
    match outcome {
        Ok(()) => (if blocks.len() == 0 {
            seq!["Patch applied"@]
        } else {
            blocks
        }, false),
        Err(e) => (seq!["apply_patch failed: "@ + e] + blocks, true),
    }
}

/// What running a patch gave: its outcome (with the error's text) and what
/// it printed to its output and error output.
pub struct PatchRun {
    pub outcome: Result<(), String>,
    pub stdout: Vec<u8>,
    pub stderr: Vec<u8>,
}

fn printed_block(bytes: &[u8], label: &str) -> (res: Option<String>)
    ensures
        match res {
            Some(t) => !is_blank_text(utf8_lossy_of(bytes@)) && t@ == label@ + strip_trailing_newlines(
                utf8_lossy_of(bytes@),
            ),
            None => is_blank_text(utf8_lossy_of(bytes@)),
        },
{
    let text = utf8_lossy(bytes);
    if is_blank(text.as_str()) {
        return None;
    }
    let chars = to_chars(text.as_str());
    let trimmed = trim_trailing_newlines(chars.as_slice());
    let body = string_from_chars(trimmed.as_slice());
    Some(concat(label, body.as_str()))
}

/// The tool result that answers a patch run (see `apply_patch_texts`).
pub fn apply_patch_result(run: PatchRun) -> (res: Json)
    ensures
        is_content_result(
            res,
            apply_patch_texts(outcome_view(run.outcome), utf8_lossy_of(run.stdout@), utf8_lossy_of(run.stderr@)).0,
            apply_patch_texts(outcome_view(run.outcome), utf8_lossy_of(run.stdout@), utf8_lossy_of(run.stderr@)).1,
        ),
{
    let ghost out = utf8_lossy_of(run.stdout@);
    let ghost err = utf8_lossy_of(run.stderr@);
    let out_block = printed_block(run.stdout.as_slice(), "");
    let err_block = printed_block(run.stderr.as_slice(), "stderr:\n");
    let mut blocks: Vec<String> = Vec::new();
    let is_error = match &run.outcome {
        Ok(()) => false,
        Err(e) => {
            blocks.push(concat("apply_patch failed: ", e.as_str()));
            true
        },
    };
    let ghost lead = texts(blocks@);
    let ghost out_part: Seq<Seq<char>> = if is_blank_text(out) {
        seq![]
    } else {
        seq![strip_trailing_newlines(out)]
    };
    let ghost err_part: Seq<Seq<char>> = if is_blank_text(err) {
        seq![]
    } else {
        seq!["stderr:\n"@ + strip_trailing_newlines(err)]
    };
    proof {
        reveal_strlit("");
        assert(""@ + strip_trailing_newlines(out) =~= strip_trailing_newlines(out));
    }
    match out_block {
        Some(t) => blocks.push(t),
        None => {},
    }
    assert(texts(blocks@) =~= lead + out_part);
    match err_block {
        Some(t) => blocks.push(t),
        None => {},
    }
    assert(texts(blocks@) =~= lead + out_part + err_part);
    assert(output_blocks(out, err) == out_part + err_part);
    assert(texts(blocks@) =~= lead + output_blocks(out, err));
    if !is_error && blocks.len() == 0 {
        blocks.push(String::from_str("Patch applied"));
        assert(texts(blocks@) =~= seq!["Patch applied"@]);
    }
    content_result(blocks, is_error)
}

/// Where an `apply_patch` call stands.
#[derive(Debug, PartialEq, Eq, Structural, Clone, Copy)]
pub enum JobStage {
    /// Its paths are being checked on disk.
    Checking,
    /// The patch is to be run.
    Applying,
    /// Answered.
    Finished,
}

/// An `apply_patch` call under way.
pub struct PatchJob {
    id: Option<Json>,
    patch: String,
    guard: Option<PatchGuard>,
    stage: JobStage,
}

/// The state of an `apply_patch` call.
pub struct JobView {
    /// The request's id, until the answer carries it away.
    pub id: Option<Json>,
    pub patch: Seq<char>,
    pub guard: Option<GuardView>,
    pub stage: JobStage,
}

impl View for PatchJob {
    type V = JobView;

    closed spec fn view(&self) -> JobView {
        JobView {
            id: self.id,
            patch: self.patch@,
            guard: match &self.guard {
                Some(g) => Some(g@),
                None => None,
            },
            stage: self.stage,
        }
    }
}

impl JobView {
    /// The call's state is coherent.
    pub open spec fn wf(self) -> bool {
        &&& self.stage != JobStage::Finished ==> self.id is Some
        &&& self.stage == JobStage::Checking ==> (self.guard matches Some(g) && g.wf() && !g.finished
            && g.targets == crate::guard::patch_targets(self.patch))
    }
}

/// What an `apply_patch` call asks next.
#[derive(Debug, PartialEq)]
pub enum PatchStep {
    /// Inspect this entry (`symlink_metadata`) and answer with the result.
    Inspect(AbsPath),
    /// Resolve this entry (`canonicalize`) and answer with the result.
    Resolve(AbsPath),
    /// Run this patch and answer with what the run gave.
    Apply(String),
    /// Write this reply; the call is over.
    Reply(Json),
}

/// What an `apply_patch` call is to ask next.
pub enum JobExpect {
    Inspect(Seq<Seq<char>>),
    Resolve(Seq<Seq<char>>),
    Apply(Seq<char>),
    Reply { texts: Seq<Seq<char>>, is_error: bool },
}

/// `step` is what `expect` describes, a reply answering the request `id`.
pub open spec fn step_meets(step: PatchStep, expect: JobExpect, id: Json) -> bool {
    match (step, expect) {
        (PatchStep::Inspect(p), JobExpect::Inspect(q)) => p@ == q,
        (PatchStep::Resolve(p), JobExpect::Resolve(q)) => p@ == q,
        (PatchStep::Apply(t), JobExpect::Apply(u)) => t@ == u,
        (PatchStep::Reply(m), JobExpect::Reply { texts, is_error }) => {
            &&& is_reply(m, Some(id), "result"@)
            &&& m.field("result"@) matches Some(r) && is_content_result(r, texts, is_error)
        },
        _ => false,
    }
}

/// The call after its path check took step `step` with state `g`: a check
/// that passes lets the patch run, one that fails answers with its message.
pub open spec fn after_check(id: Json, patch: Seq<char>, g: GuardView, step: StepView) -> (JobView, JobExpect) {
    match step {
        StepView::Done(Ok(())) => (
            JobView { id: Some(id), patch, guard: Some(g), stage: JobStage::Applying },
            JobExpect::Apply(patch),
        ),
        StepView::Done(Err(m)) => (
            JobView { id: None, patch, guard: Some(g), stage: JobStage::Finished },
            JobExpect::Reply { texts: seq!["apply_patch failed: "@ + m], is_error: true },
        ),
        StepView::Inspect(p) => (
            JobView { id: Some(id), patch, guard: Some(g), stage: JobStage::Checking },
            JobExpect::Inspect(p),
        ),
        StepView::Resolve(p) => (
            JobView { id: Some(id), patch, guard: Some(g), stage: JobStage::Checking },
            JobExpect::Resolve(p),
        ),
    }
}

/// The call for `patch`, before any answer: with a root, its paths are
/// checked first; without one, the patch runs at once.
pub open spec fn job_started(id: Json, patch: Seq<char>, root: Option<Seq<Seq<char>>>) -> (JobView, JobExpect) {
    match root {
        None => (
            JobView { id: Some(id), patch, guard: None, stage: JobStage::Applying },
            JobExpect::Apply(patch),
        ),
        Some(r) => after_check(id, patch, guard_started(r, patch).0, guard_started(r, patch).1),
    }
}

/// The reply to `request_id` that reports a failed `apply_patch`.
fn apply_patch_error(request_id: Json, message: &str) -> (res: Json)
    ensures
        is_reply(res, Some(request_id), "result"@),
        res.field("result"@) matches Some(r) && is_content_result(r, seq!["apply_patch failed: "@ + message@], true),
{
    let text = concat("apply_patch failed: ", message);
    let ghost t = text@;
    let result = content_result(vec![text], true);
    assert(texts(seq![text]) =~= seq![t]);
    result_message(Some(request_id), result)
}

impl PatchJob {
    fn begin(id: Json, patch: String, root: &Option<AbsPath>) -> (res: (PatchJob, PatchStep))
        ensures
            res.0@ == job_started(id, patch@, root_view(*root)).0,
            step_meets(res.1, job_started(id, patch@, root_view(*root)).1, id),
            res.0@.wf(),
    {
        match root {
            None => {
                let step = PatchStep::Apply(crate::paths::clone_text(&patch));
                (PatchJob { id: Some(id), patch, guard: None, stage: JobStage::Applying }, step)
            },
            Some(r) => {
                let (guard, step) = validate_patch_paths_within_root(patch.as_str(), r);
                proof {
                    lemma_patch_runs_only_when_checked(id, patch@, r@);
                    let g0 = crate::walk::walk_started(r@, seq![], false).0;
                    crate::guard::lemma_guard_from(r@, crate::guard::patch_targets(patch@), 0, g0);
                }
                let mut job = PatchJob { id: Some(id), patch, guard: None, stage: JobStage::Checking };
                let next = job.after_guard(guard, step);
                (job, next)
            },
        }
    }

    fn after_guard(&mut self, guard: PatchGuard, step: WalkStep) -> (res: PatchStep)
        requires
            old(self).id is Some,
            guard@.wf(),
            guard@.targets == crate::guard::patch_targets(old(self)@.patch),
            step@ is Done || !guard@.finished,
        ensures
            final(self)@ == after_check(old(self).id->0, old(self)@.patch, guard@, step@).0,
            step_meets(res, after_check(old(self).id->0, old(self)@.patch, guard@, step@).1, old(self).id->0),
            final(self)@.wf(),
    {
        self.guard = Some(guard);
        match step {
            WalkStep::Done(Ok(())) => {
                self.stage = JobStage::Applying;
                PatchStep::Apply(crate::paths::clone_text(&self.patch))
            },
            WalkStep::Done(Err(m)) => {
                self.stage = JobStage::Finished;
                let id = self.id.take().unwrap();
                PatchStep::Reply(apply_patch_error(id, m.as_str()))
            },
            WalkStep::Inspect(p) => {
                self.stage = JobStage::Checking;
                PatchStep::Inspect(p)
            },
            WalkStep::Resolve(p) => {
                self.stage = JobStage::Checking;
                PatchStep::Resolve(p)
            },
        }
    }

    /// Whether the call waits for the answer to an inspection or a
    /// resolution.
    pub fn is_checking(&self) -> (res: bool)
        ensures
            res == (self@.stage == JobStage::Checking),
    {
        self.stage == JobStage::Checking
    }

    /// Whether the call waits for the patch to run.
    pub fn is_applying(&self) -> (res: bool)
        ensures
            res == (self@.stage == JobStage::Applying),
    {
        self.stage == JobStage::Applying
    }

    /// Takes the answer from disk that the path check waits for.
    pub fn on_walk(&mut self, event: WalkEvent) -> (res: PatchStep)
        requires
            old(self)@.wf(),
            old(self)@.stage == JobStage::Checking,
        ensures
            final(self)@ == after_check(
                old(self)@.id->0,
                old(self)@.patch,
                old(self)@.guard->0.fed(event).0,
                old(self)@.guard->0.fed(event).1,
            ).0,
            step_meets(
                res,
                after_check(
                    old(self)@.id->0,
                    old(self)@.patch,
                    old(self)@.guard->0.fed(event).0,
                    old(self)@.guard->0.fed(event).1,
                ).1,
                old(self)@.id->0,
            ),
            final(self)@.wf(),
    {
        let mut guard = self.guard.take().unwrap();
        proof {
            crate::guard::lemma_guard_stays_within_root(guard@, event);
        }
        let step = guard.feed(event);
        self.after_guard(guard, step)
    }

    /// Takes what the run of the patch gave, and answers the call.
    pub fn on_applied(&mut self, run: PatchRun) -> (res: Json)
        requires
            old(self)@.wf(),
            old(self)@.stage == JobStage::Applying,
        ensures
            is_reply(res, old(self)@.id, "result"@),
            res.field("result"@) matches Some(r) && is_content_result(
                r,
                apply_patch_texts(outcome_view(run.outcome), utf8_lossy_of(run.stdout@), utf8_lossy_of(run.stderr@)).0,
                apply_patch_texts(outcome_view(run.outcome), utf8_lossy_of(run.stdout@), utf8_lossy_of(run.stderr@)).1,
            ),
            final(self)@.stage == JobStage::Finished,
            final(self)@.wf(),
    {
        let id = self.id.take();
        self.stage = JobStage::Finished;
        result_message(id, apply_patch_result(run))
    }
}

/// The view of an optional root.
pub open spec fn root_view(root: Option<AbsPath>) -> Option<Seq<Seq<char>>> {
    match root {
        Some(r) => Some(r@),
        None => None,
    }
}


/// What handling a line leads to.
pub enum Outcome {
    /// Write these messages, in order.
    Reply(Vec<Json>),
    /// Write nothing; the reason is for the log.
    Ignored(String),
    /// An `apply_patch` call under way, and what it asks first.
    Patch(PatchJob, PatchStep),
}

/// `o` writes the one message that `reply` describes.
pub open spec fn single_reply(o: Outcome, reply: spec_fn(Json) -> bool) -> bool {
    o matches Outcome::Reply(ms) && ms@.len() == 1 && reply(ms@[0])
}

/// `m` is the result reply to `id` whose result `result` describes.
pub open spec fn is_result_reply(m: Json, id: Json, result: spec_fn(Json) -> bool) -> bool {
    &&& is_reply(m, Some(id), "result"@)
    &&& m.field("result"@) matches Some(r) && result(r)
}

/// `o` is what `e` describes, for a server whose root is `root` and whose
/// version is `server_version`.
pub open spec fn meets(o: Outcome, e: Expected, root: Option<Seq<Seq<char>>>, server_version: Seq<char>) -> bool {
    match e {
        Expected::Error { id, code, message } => single_reply(o, |m: Json| is_error_reply(m, id, code, message)),
        Expected::Content { id, texts, is_error } => single_reply(
            o,
            |m: Json| is_result_reply(m, id, |r: Json| is_content_result(r, texts, is_error)),
        ),
        Expected::AskUser { id, question, backend } => single_reply(
            o,
            |m: Json| is_result_reply(m, id, |r: Json| is_ask_user_result(r, question, backend)),
        ),
        Expected::Initialize { id, version } => o matches Outcome::Reply(ms) && {
            &&& ms@.len() == 2
            &&& is_result_reply(ms@[0], id, |r: Json| is_initialize_result(r, version, server_version))
            &&& is_initialized_notification(ms@[1])
        },
        Expected::ToolsList { id } => single_reply(
            o,
            |m: Json| is_result_reply(m, id, |r: Json| is_tools_list_result(r)),
        ),
        Expected::Pong { id } => single_reply(o, |m: Json| is_result_reply(m, id, |r: Json| is_empty_object(r))),
        Expected::Ignored => o matches Outcome::Ignored(reason) && reason@ == "missing method"@,
        Expected::Patch { id, patch } => o matches Outcome::Patch(job, step) && {
            &&& job@ == job_started(id, patch, root).0
            &&& step_meets(step, job_started(id, patch, root).1, id)
            &&& job@.wf()
        },
    }
}

/// The view of an optional text.
pub open spec fn opt_text(t: Option<String>) -> Option<Seq<char>> {
    match t {
        Some(s) => Some(s@),
        None => None,
    }
}

fn error_outcome(id: Option<Json>, code: i64, message: String) -> (res: Outcome)
    ensures
        single_reply(res, |m: Json| is_error_reply(m, id, code, message@)),
{
    let m = error_message(id, code, message);
    let v = vec![m];
    Outcome::Reply(v)
}

fn result_outcome(id: Json, result: Json) -> (res: Outcome)
    ensures
        single_reply(res, |m: Json| is_reply(m, Some(id), "result"@) && m.field("result"@) == Some(result)),
{
    let m = result_message(Some(id), result);
    let v = vec![m];
    Outcome::Reply(v)
}

fn text(s: &str) -> (res: String)
    ensures
        res@ == s@,
{
    String::from_str(s)
}

/// The backend that an `ask_user` answer names (see `backend_label`).
pub fn backend_name(backend: Option<String>) -> (res: String)
    ensures
        res@ == backend_label(opt_text(backend)),
{
    match backend {
        Some(b) => {
            if is_blank(b.as_str()) {
                text("none")
            } else {
                b
            }
        },
        None => text("none"),
    }
}

fn first_unknown(members: &Vec<(String, Json)>) -> (res: Option<String>)
    ensures
        opt_text(res) == first_unknown_argument(crate::json::member_names(members@)),
{
    let ghost names = crate::json::member_names(members@);
    let mut i: usize = 0;
    assert(names.skip(0) =~= names);
    while i < members.len()
        invariant
            i <= members@.len(),
            names == crate::json::member_names(members@),
            first_unknown_argument(names) == first_unknown_argument(names.skip(i as int)),
        decreases members.len() - i,
    {
        let name = members[i].0.as_str();
        assert(names.skip(i as int).drop_first() =~= names.skip(i + 1));
        assert(names.skip(i as int)[0] == name@);
        if !(same_text(name, "question") || same_text(name, "choices") || same_text(name, "timeout_seconds")) {
            return Some(text(name));
        }
        i = i + 1;
    }
    assert(names.skip(i as int) =~= Seq::<Seq<char>>::empty());
    None
}

fn choices_valid(choices: Option<&Json>) -> (res: bool)
    ensures
        res == !choices_invalid(crate::json::deref_opt(choices)),
{
    match choices {
        None => true,
        Some(value) => match value.as_array() {
            None => false,
            Some(items) => {
                let mut i: usize = 0;
                while i < items.len()
                    invariant
                        i <= items@.len(),
                        crate::json::deref_opt(choices) == Some(Json::Array(*items)),
                        forall|j: int| 0 <= j < i ==> #[trigger] items@[j] is String,
                    decreases items.len() - i,
                {
                    if items[i].as_str().is_none() {
                        assert(!(items@[i as int] is String));
                        return false;
                    }
                    i = i + 1;
                }
                true
            },
        },
    }
}

fn timeout_valid(timeout: Option<&Json>) -> (res: bool)
    ensures
        res == !timeout_invalid(crate::json::deref_opt(timeout)),
{
    match timeout {
        None => true,
        Some(value) => match value.as_i64() {
            Some(n) => n > 0,
            None => false,
        },
    }
}

fn handle_ask_user_tool(id: Json, params: &Json, backend: Option<String>) -> (res: Outcome)
    ensures
        meets(res, ask_user_expected(id, *params, opt_text(backend)), None, seq![]),
{
    let arguments = match params.get("arguments") {
        Some(arguments) => arguments,
        None => return error_outcome(Some(id), INVALID_PARAMS, text("ask_user requires arguments")),
    };
    let members = match arguments {
        Json::Object(members) => members,
        _ => return error_outcome(Some(id), INVALID_PARAMS, text("ask_user arguments must be an object")),
    };
    match first_unknown(members) {
        Some(unknown) => {
            return error_outcome(
                Some(id),
                INVALID_PARAMS,
                concat("ask_user received unknown argument: ", unknown.as_str()),
            );
        },
        None => {},
    }
    let question = match arguments.get("question") {
        Some(q) => match q.as_str() {
            Some(q) => q,
            None => return error_outcome(
                Some(id),
                INVALID_PARAMS,
                text("ask_user question must be provided as a string"),
            ),
        },
        None => return error_outcome(
            Some(id),
            INVALID_PARAMS,
            text("ask_user question must be provided as a string"),
        ),
    };
    if is_blank(question) {
        return error_outcome(Some(id), INVALID_PARAMS, text("ask_user question must be a non-empty string"));
    }
    if !choices_valid(arguments.get("choices")) {
        return error_outcome(Some(id), INVALID_PARAMS, text("ask_user choices must be an array of strings"));
    }
    if !timeout_valid(arguments.get("timeout_seconds")) {
        return error_outcome(
            Some(id),
            INVALID_PARAMS,
            text("ask_user timeout_seconds must be a positive integer"),
        );
    }
    let result = ask_user_result(question, backend_name(backend));
    result_outcome(id, result)
}


fn handle_apply_patch_tool(id: Json, params: &Json, config: &ServerConfig) -> (res: Outcome)
    ensures
        meets(res, apply_patch_expected(id, *params), root_view(config.restrict_root), seq![]),
{
    let arguments = match params.get("arguments") {
        Some(arguments) => arguments,
        None => return error_outcome(Some(id), INVALID_PARAMS, text("apply_patch requires arguments")),
    };
    if !arguments.is_object() {
        return error_outcome(Some(id), INVALID_PARAMS, text("apply_patch arguments must be an object"));
    }
    let patch = match arguments.get("input") {
        Some(input) => match input.as_str() {
            Some(patch) => text(patch),
            None => return error_outcome(
                Some(id),
                INVALID_PARAMS,
                text("apply_patch input must be provided as a string"),
            ),
        },
        None => return error_outcome(
            Some(id),
            INVALID_PARAMS,
            text("apply_patch input must be provided as a string"),
        ),
    };
    let (job, step) = PatchJob::begin(id, patch, &config.restrict_root);
    Outcome::Patch(job, step)
}

fn handle_tools_call(
    id: Option<Json>,
    params: Option<&Json>,
    config: &ServerConfig,
    backend: Option<String>,
) -> (res: Outcome)
    ensures
        meets(
            res,
            tools_call_expected(id, crate::json::deref_opt(params), opt_text(backend)),
            root_view(config.restrict_root),
            seq![],
        ),
{
    let id = match id {
        Some(id) => id,
        None => return error_outcome(None, INVALID_REQUEST, text("tools/call must include an id")),
    };
    let params = match params {
        Some(p) => {
            if !p.is_object() {
                return error_outcome(Some(id), INVALID_PARAMS, text("tools/call params must be object"));
            }
            p
        },
        None => return error_outcome(Some(id), INVALID_PARAMS, text("tools/call params must be object")),
    };
    let name = match params.get("name") {
        Some(name) => match name.as_str() {
            Some(name) => name,
            None => return error_outcome(Some(id), INVALID_PARAMS, text("tools/call params missing name")),
        },
        None => return error_outcome(Some(id), INVALID_PARAMS, text("tools/call params missing name")),
    };
    if same_text(name, "update_plan") {
        let plan_updated = text("Plan updated");
        proof {
            assert(texts(seq![plan_updated]) =~= seq!["Plan updated"@]);
        }
        let result = content_result(vec![plan_updated], false);
        result_outcome(id, result)
    } else if same_text(name, "ask_user") {
        handle_ask_user_tool(id, params, backend)
    } else if same_text(name, "apply_patch") {
        handle_apply_patch_tool(id, params, config)
    } else {
        error_outcome(Some(id), METHOD_NOT_FOUND, concat("Unknown tool: ", name))
    }
}

fn handle_initialize(id: Option<Json>, params: Option<&Json>, config: &ServerConfig) -> (res: Outcome)
    ensures
        meets(
            res,
            initialize_expected(id, crate::json::deref_opt(params)),
            None,
            config.server_version@,
        ),
{
    let id = match id {
        Some(id) => id,
        None => return error_outcome(None, INVALID_REQUEST, text("initialize must include an id")),
    };
    let params = match params {
        Some(p) => {
            if !p.is_object() {
                return error_outcome(Some(id), INVALID_PARAMS, text("initialize params must be object"));
            }
            p
        },
        None => return error_outcome(Some(id), INVALID_PARAMS, text("initialize params must be object")),
    };
    let version = match params.get("protocolVersion") {
        None => text(MCP_PROTOCOL_VERSION),
        Some(requested) => match requested.as_str() {
            Some(v) => {
                if same_text(v, MCP_PROTOCOL_VERSION) || same_text(v, MCP_PROTOCOL_VERSION_ZED) {
                    text(v)
                } else {
                    return error_outcome(
                        Some(id),
                        INVALID_PARAMS,
                        concat("Unsupported protocol version: ", v),
                    );
                }
            },
            None => return error_outcome(
                Some(id),
                INVALID_PARAMS,
                text("initialize protocolVersion must be a string"),
            ),
        },
    };
    let result = initialize_result(version.as_str(), config.server_version.as_str());
    let first = result_message(Some(id), result);
    let second = initialized_notification();
    let messages = vec![first, second];
    Outcome::Reply(messages)
}

fn handle_message(message: Json, config: &ServerConfig, backend: Option<String>) -> (res: Outcome)
    requires
        message is Object,
    ensures
        meets(
            res,
            message_expected(message, opt_text(backend)),
            root_view(config.restrict_root),
            config.server_version@,
        ),
{
    let method = match message.get("method") {
        Some(m) => match m.as_str() {
            Some(m) => text(m),
            None => return Outcome::Ignored(text("missing method")),
        },
        None => return Outcome::Ignored(text("missing method")),
    };
    let ghost original = message;
    let (rest, id) = message.take_field("id");
    proof {
        reveal_strlit("id");
        reveal_strlit("params");
        assert("id"@.len() != "params"@.len());
    }
    let params = rest.get("params");
    assert(crate::json::deref_opt(params) == original.field("params"@));
    let m = method.as_str();
    if same_text(m, "initialize") {
        handle_initialize(id, params, config)
    } else if same_text(m, "tools/list") {
        match id {
            Some(id) => {
                let outcome = result_outcome(id, tools_list_result());
                outcome
            },
            None => error_outcome(None, INVALID_REQUEST, text("tools/list must include an id")),
        }
    } else if same_text(m, "tools/call") {
        handle_tools_call(id, params, config, backend)
    } else if same_text(m, "ping") {
        match id {
            Some(id) => {
                result_outcome(id, Json::Object(Vec::new()))
            },
            None => error_outcome(None, INVALID_REQUEST, text("ping must include an id")),
        }
    } else {
        error_outcome(id, METHOD_NOT_FOUND, concat("Unknown method: ", m))
    }
}

/// The view of a parsed line.
pub open spec fn parsed_view(parsed: Result<Json, String>) -> Result<Json, Seq<char>> {
    match parsed {
        Ok(v) => Ok(v),
        Err(e) => Err(e@),
    }
}

/// Handles one line that a client sent, already parsed as JSON (or the
/// parser's error text): malformed JSON and a value that is not an object
/// are answered with an error; a request is answered as `message_expected`
/// describes. `ask_user_backend` is the configured `ask_user` backend, if
/// any.
pub fn handle_line(
    parsed: Result<Json, String>,
    config: &ServerConfig,
    ask_user_backend: Option<String>,
) -> (res: Outcome)
    ensures
        meets(
            res,
            line_expected(parsed_view(parsed), opt_text(ask_user_backend)),
            root_view(config.restrict_root),
            config.server_version@,
        ),
{
    match parsed {
        Err(e) => error_outcome(None, PARSE_ERROR, concat("Malformed JSON: ", e.as_str())),
        Ok(message) => {
            if !message.is_object() {
                error_outcome(None, INVALID_REQUEST, text("Request must be a JSON object"))
            } else {
                handle_message(message, config, ask_user_backend)
            }
        },
    }
}

/// Handles one line of text that a client sent: a blank line is skipped
/// (`None`); any other line is parsed as JSON and answered as `handle_line`
/// answers what the parser gave.
pub fn handle_text_line(
    line: &str,
    config: &ServerConfig,
    ask_user_backend: Option<String>,
) -> (res: Option<Outcome>)
    ensures
        res is None <==> is_blank_text(line@),
        res matches Some(o) ==> meets(
            o,
            line_expected(json_parse_of(line@), opt_text(ask_user_backend)),
            root_view(config.restrict_root),
            config.server_version@,
        ),
{
    if is_blank_line(line) {
        return None;
    }
    let parsed = parse_json(line);
    assert(parsed_view(parsed) == json_parse_of(line@));
    Some(handle_line(parsed, config, ask_user_backend))
}

/// Whether a line holds only white space, so that the server skips it.
pub fn is_blank_line(line: &str) -> (res: bool)
    ensures
        res == is_blank_text(line@),
{
    is_blank(line)
}


/// The id that the answer to a line carries: the request's id when the
/// line is a request object that has one, otherwise `null`.
pub open spec fn line_reply_id(parsed: Result<Json, Seq<char>>) -> Json {
    match parsed {
        Ok(m) => if m is Object {
            crate::replies::reply_id(m.field("id"@))
        } else {
            Json::Null
        },
        Err(_) => Json::Null,
    }
}

/// Every answer to a line is a JSON-RPC 2.0 message addressed to the
/// request's id, or to `null` when there is none: the first message that is
/// written at once, and the reply that ends an `apply_patch` call refused by
/// its path check.
pub proof fn lemma_replies_answer_the_request(
    o: Outcome,
    parsed: Result<Json, Seq<char>>,
    backend: Option<Seq<char>>,
    root: Option<Seq<Seq<char>>>,
    server_version: Seq<char>,
)
    requires
        meets(o, line_expected(parsed, backend), root, server_version),
    ensures
        o matches Outcome::Reply(ms) ==> ms@.len() >= 1 && text_of(ms@[0].field("jsonrpc"@)) == Some(
            "2.0"@,
        ) && ms@[0].field("id"@) == Some(line_reply_id(parsed)),
        o matches Outcome::Patch(_, PatchStep::Reply(m)) ==> text_of(m.field("jsonrpc"@)) == Some(
            "2.0"@,
        ) && m.field("id"@) == Some(line_reply_id(parsed)),
{
}

/// Under a root, a patch is run at once only when every path it names
/// passed the lexical checks.
pub proof fn lemma_patch_runs_only_when_checked(id: Json, patch: Seq<char>, root: Seq<Seq<char>>)
    ensures
        job_started(id, patch, Some(root)).1 is Apply ==> forall|j: int|
            0 <= j < crate::guard::patch_targets(patch).len() ==> #[trigger] crate::paths::lexical_verdict(
                crate::guard::patch_targets(patch)[j].path,
            ) is Ok,
        job_started(id, patch, Some(root)).0.wf(),
{
    let g0 = crate::walk::walk_started(root, seq![], false).0;
    crate::guard::lemma_guard_from(root, crate::guard::patch_targets(patch), 0, g0);
}

/// A call whose paths are being checked goes on to run its patch only when
/// every path the patch names passed the lexical checks; and whatever the
/// answer from disk, the call stays coherent and asks only about entries
/// inside the root.
pub proof fn lemma_checked_patch_runs_only_when_clean(job: JobView, event: WalkEvent)
    requires
        job.wf(),
        job.stage == JobStage::Checking,
    ensures
        ({
            let g = job.guard->0;
            let (next, expect) = after_check(job.id->0, job.patch, g.fed(event).0, g.fed(event).1);
            &&& next.wf()
            &&& expect matches JobExpect::Inspect(p) ==> crate::walk::within(g.root, p)
            &&& expect matches JobExpect::Resolve(p) ==> crate::walk::within(g.root, p)
            &&& expect is Apply ==> forall|j: int|
                0 <= j < crate::guard::patch_targets(job.patch).len() ==> #[trigger] crate::paths::lexical_verdict(
                    crate::guard::patch_targets(job.patch)[j].path,
                ) is Ok
        }),
{
    crate::guard::lemma_guard_stays_within_root(job.guard->0, event);
}

/// What the server owes to the lines of a session, in order: a blank line
/// is skipped, and every other line is answered as `handle_text_line`
/// says, from that line alone.
pub open spec fn session_expected(lines: Seq<Seq<char>>, backend: Option<Seq<char>>) -> Seq<Expected>
    decreases lines.len(),
{
    if lines.len() == 0 {
        seq![]
    } else {
        let earlier = session_expected(lines.drop_last(), backend);
        if is_blank_text(lines.last()) {
            earlier
        } else {
            earlier.push(line_expected(json_parse_of(lines.last()), backend))
        }
    }
}

/// The server keeps no state from line to line: what it owes to a session
/// that is `first` followed by `second` is what it owes to `first`,
/// followed by what it owes to `second` on its own (a `tools/call` needs
/// no `initialize` before it, for one).
pub proof fn lemma_lines_answered_independently(
    first: Seq<Seq<char>>,
    second: Seq<Seq<char>>,
    backend: Option<Seq<char>>,
)
    ensures
        session_expected(first + second, backend) == session_expected(first, backend)
            + session_expected(second, backend),
    decreases second.len(),
{
    if second.len() == 0 {
        assert(first + second =~= first);
        assert(session_expected(first, backend) + session_expected(second, backend) =~= session_expected(first, backend));
    } else {
        lemma_lines_answered_independently(first, second.drop_last(), backend);
        assert((first + second).drop_last() =~= first + second.drop_last());
        assert((first + second).last() == second.last());
        let a = session_expected(first, backend);
        let b = session_expected(second.drop_last(), backend);
        if !is_blank_text(second.last()) {
            let e = line_expected(json_parse_of(second.last()), backend);
            assert((a + b).push(e) =~= a + b.push(e));
        }
    }
}

/// Input read in two parts, the first ending a line, is answered as the
/// two parts would be, one after the other: what the server owes to the
/// lines of `first + second` is what it owes to those of `first`, followed
/// by what it owes to those of `second`.
pub proof fn lemma_input_answered_in_parts(
    first: Seq<char>,
    second: Seq<char>,
    backend: Option<Seq<char>>,
)
    requires
        first.len() == 0 || first.last() == '\n',
    ensures
        session_expected(text_lines(first + second), backend) == session_expected(
            text_lines(first),
            backend,
        ) + session_expected(text_lines(second), backend),
{
    lemma_text_lines_append(first, second);
    lemma_lines_answered_independently(text_lines(first), text_lines(second), backend);
}

proof fn lemma_no_unknown_argument(names: Seq<Seq<char>>)
    requires
        forall|i: int| 0 <= i < names.len() ==> is_ask_user_argument(#[trigger] names[i]),
    ensures
        first_unknown_argument(names) is None,
    decreases names.len(),
{
    if names.len() > 0 {
        assert(is_ask_user_argument(names[0]));
        assert forall|i: int| 0 <= i < names.len() - 1 implies is_ask_user_argument(
            #[trigger] names.drop_first()[i],
        ) by {
            assert(names.drop_first()[i] == names[i + 1]);
        }
        lemma_no_unknown_argument(names.drop_first());
    }
}

/// `initialize` only ever settles on a version the server speaks: every
/// `initialize` result carries `2025-06-18` or `2025-03-26`.
pub proof fn lemma_initialize_speaks_supported_versions(id: Option<Json>, params: Option<Json>)
    ensures
        initialize_expected(id, params) matches Expected::Initialize { version, .. } ==> (version
            == "2025-06-18"@ || version == "2025-03-26"@),
{
}

/// A client that asks for a protocol version the server speaks gets that
/// version back; one that asks for any other version is refused with
/// `INVALID_PARAMS` and "Unsupported protocol version: " and its version.
pub proof fn lemma_initialize_answers_the_asked_version(id: Json, params: Json, asked: String)
    requires
        params is Object,
        params.field("protocolVersion"@) == Some(Json::String(asked)),
    ensures
        asked@ == "2025-06-18"@ || asked@ == "2025-03-26"@ ==> initialize_expected(Some(id), Some(params))
            == (Expected::Initialize { id, version: asked@ }),
        asked@ != "2025-06-18"@ && asked@ != "2025-03-26"@ ==> initialize_expected(
            Some(id),
            Some(params),
        ) == (Expected::Error {
            id: Some(id),
            code: INVALID_PARAMS,
            message: "Unsupported protocol version: "@ + asked@,
        }),
{
}

/// The arguments `args` of an `ask_user` call pass every check before
/// those on `choices` and `timeout_seconds`: they are an object of known
/// names with a non-blank string `question`.
pub open spec fn ask_user_question_ok(args: Json) -> bool {
    &&& args is Object
    &&& forall|i: int| 0 <= i < args.names().len() ==> is_ask_user_argument(#[trigger] args.names()[i])
    &&& text_of(args.field("question"@)) matches Some(q) && !is_blank_text(q)
}

/// An `ask_user` call whose `choices` are absent or an array of strings
/// (the empty array included) and whose `timeout_seconds` is absent or an
/// integer above zero is answered with the unsupported answer for its
/// question, naming the backend.
pub proof fn lemma_ask_user_accepts_good_arguments(
    id: Json,
    params: Json,
    args: Json,
    backend: Option<Seq<char>>,
)
    requires
        params.field("arguments"@) == Some(args),
        ask_user_question_ok(args),
        args.field("choices"@) matches Some(c) ==> (c matches Json::Array(items) && forall|j: int|
            0 <= j < items@.len() ==> #[trigger] items@[j] is String),
        args.field("timeout_seconds"@) matches Some(t) ==> (t.int_value() matches Some(n) && n
            >= 1),
    ensures
        ask_user_expected(id, params, backend) == (Expected::AskUser {
            id,
            question: text_of(args.field("question"@))->0,
            backend: backend_label(backend),
        }),
{
    lemma_no_unknown_argument(args.names());
}

/// An `ask_user` call with a good question whose `choices` are present but
/// not an array, or an array holding something other than a string, is
/// refused with `INVALID_PARAMS` and "ask_user choices must be an array of
/// strings".
pub proof fn lemma_ask_user_refuses_bad_choices(id: Json, params: Json, args: Json, backend: Option<Seq<char>>)
    requires
        params.field("arguments"@) == Some(args),
        ask_user_question_ok(args),
        args.field("choices"@) matches Some(c) && match c {
            Json::Array(items) => exists|j: int| 0 <= j < items@.len() && !(#[trigger] items@[j] is String),
            _ => true,
        },
    ensures
        ask_user_expected(id, params, backend) == (Expected::Error {
            id: Some(id),
            code: INVALID_PARAMS,
            message: "ask_user choices must be an array of strings"@,
        }),
{
    lemma_no_unknown_argument(args.names());
}

/// An `ask_user` call with a good question and good choices whose
/// `timeout_seconds` is zero, negative, or not an integer that fits in an
/// `i64` is refused with `INVALID_PARAMS` and "ask_user timeout_seconds
/// must be a positive integer".
pub proof fn lemma_ask_user_refuses_bad_timeout(id: Json, params: Json, args: Json, backend: Option<Seq<char>>)
    requires
        params.field("arguments"@) == Some(args),
        ask_user_question_ok(args),
        args.field("choices"@) matches Some(c) ==> (c matches Json::Array(items) && forall|j: int|
            0 <= j < items@.len() ==> #[trigger] items@[j] is String),
        args.field("timeout_seconds"@) matches Some(t) && match t.int_value() {
            Some(n) => n <= 0,
            None => true,
        },
    ensures
        ask_user_expected(id, params, backend) == (Expected::Error {
            id: Some(id),
            code: INVALID_PARAMS,
            message: "ask_user timeout_seconds must be a positive integer"@,
        }),
{
    lemma_no_unknown_argument(args.names());
}

proof fn lemma_first_unknown_argument(names: Seq<Seq<char>>, i: int)
    requires
        0 <= i < names.len(),
        !is_ask_user_argument(names[i]),
        forall|j: int| 0 <= j < i ==> is_ask_user_argument(#[trigger] names[j]),
    ensures
        first_unknown_argument(names) == Some(names[i]),
    decreases i,
{
    if i > 0 {
        assert(is_ask_user_argument(names[0]));
        assert forall|j: int| 0 <= j < i - 1 implies is_ask_user_argument(#[trigger] names.drop_first()[j]) by {
            assert(names.drop_first()[j] == names[j + 1]);
        }
        lemma_first_unknown_argument(names.drop_first(), i - 1);
    }
}

/// An `ask_user` call whose arguments object holds a name other than
/// `question`, `choices` and `timeout_seconds` is refused with
/// `INVALID_PARAMS`, naming the first such argument.
pub proof fn lemma_ask_user_refuses_unknown_arguments(
    id: Json,
    params: Json,
    args: Json,
    backend: Option<Seq<char>>,
    i: int,
)
    requires
        params.field("arguments"@) == Some(args),
        args is Object,
        0 <= i < args.names().len(),
        !is_ask_user_argument(args.names()[i]),
        forall|j: int| 0 <= j < i ==> is_ask_user_argument(#[trigger] args.names()[j]),
    ensures
        ask_user_expected(id, params, backend) == (Expected::Error {
            id: Some(id),
            code: INVALID_PARAMS,
            message: "ask_user received unknown argument: "@ + args.names()[i],
        }),
{
    lemma_first_unknown_argument(args.names(), i);
}

/// An `ask_user` call of known arguments whose `question` is a string of
/// white space only is refused with `INVALID_PARAMS` and "ask_user question
/// must be a non-empty string", whatever its other arguments.
pub proof fn lemma_ask_user_refuses_blank_questions(
    id: Json,
    params: Json,
    args: Json,
    backend: Option<Seq<char>>,
)
    requires
        params.field("arguments"@) == Some(args),
        args is Object,
        forall|i: int| 0 <= i < args.names().len() ==> is_ask_user_argument(#[trigger] args.names()[i]),
        text_of(args.field("question"@)) matches Some(q) && is_blank_text(q),
    ensures
        ask_user_expected(id, params, backend) == (Expected::Error {
            id: Some(id),
            code: INVALID_PARAMS,
            message: "ask_user question must be a non-empty string"@,
        }),
{
    lemma_no_unknown_argument(args.names());
}

/// The `ask_user` answer names the configured backend when there is one
/// that is not blank, and `none` otherwise.
pub proof fn lemma_backend_label(backend: Option<Seq<char>>)
    ensures
        backend matches Some(b) && !is_blank_text(b) ==> backend_label(backend) == backend->0,
        !(backend matches Some(b) && !is_blank_text(b)) ==> backend_label(backend) == "none"@,
{
}

/// A client that names no protocol version is answered with the server's
/// own, `2025-06-18`.
pub proof fn lemma_initialize_defaults_to_current_version(id: Json, params: Json)
    requires
        params is Object,
        params.field("protocolVersion"@) is None,
    ensures
        initialize_expected(Some(id), Some(params)) == (Expected::Initialize {
            id,
            version: "2025-06-18"@,
        }),
{
}

} // verus!
