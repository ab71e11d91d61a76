//! The wire shapes of the remote chat-completion exchange: the request
//! payload, the parsed response payload, and the SSE stream.

use vstd::prelude::*;
use crate::json::JsonValue;
use crate::json::Json;
use crate::json::views_of;
use crate::json::lemma_views_of;
use crate::json::field_views_of;
use crate::json::lemma_field_views_of;
use crate::json::jget;
use crate::json::jstr_field;
use crate::json::json_clone;
use crate::text::trim_spec;
use crate::text::trim_str;
use crate::text::seq_contains;
use crate::text::str_contains;
use crate::text::ascii_lower;
use crate::text::ascii_lower_str;
use crate::text::chars_of;
use crate::text::string_from_chars;
use crate::protocol::ResponsesRequestOptions;
use crate::protocol::ResponsesRequestOptionsView;
use crate::protocol::ov;

verus! {

// ---------------------------------------------------------------------------
// Option defaults.
// ---------------------------------------------------------------------------

pub open spec fn reasoning_enabled_of(resp: Option<ResponsesRequestOptionsView>) -> bool {
    match resp {
        Some(r) => match r.reasoning {
            Some(ro) => match ro.enabled {
                Some(b) => b,
                None => true,
            },
            None => true,
        },
        None => true,
    }
}

pub open spec fn include_encrypted_of(resp: Option<ResponsesRequestOptionsView>) -> bool {
    match resp {
        Some(r) => match r.reasoning {
            Some(ro) => match ro.include_encrypted_content {
                Some(b) => b,
                None => true,
            },
            None => true,
        },
        None => true,
    }
}

/// Whether a base URL names an Azure responses endpoint.
pub open spec fn is_azure_spec(base_url: Option<Seq<char>>) -> bool {
    match base_url {
        Some(u) => {
            let n = ascii_lower(trim_spec(u));
            seq_contains(n, ".openai.azure.com"@) || (seq_contains(n, "azure"@) && seq_contains(
                n,
                "/openai"@,
            ))
        },
        None => false,
    }
}

pub fn is_azure_responses_endpoint(base_url: Option<&String>) -> (r: bool)
    ensures
        r == is_azure_spec(match base_url {
            Some(u) => Some(u@),
            None => None,
        }),
{
    match base_url {
        Some(u) => {
            let t = trim_str(u.as_str());
            let n = ascii_lower_str(t.as_str());
            str_contains(n.as_str(), ".openai.azure.com") || (str_contains(n.as_str(), "azure")
                && str_contains(n.as_str(), "/openai"))
        },
        None => false,
    }
}

/// The stored-response default: explicit when set; else on when reasoning is
/// enabled without encrypted content, or on Azure.
pub open spec fn store_of(
    resp: Option<ResponsesRequestOptionsView>,
    base_url: Option<Seq<char>>,
) -> bool {
    match (match resp {
        Some(r) => r.store,
        None => None,
    }) {
        Some(s) => s,
        None => if reasoning_enabled_of(resp) && !include_encrypted_of(resp) {
            true
        } else {
            is_azure_spec(base_url)
        },
    }
}

/// A trimmed option: kept only when non-empty.
pub open spec fn normalized_opt(raw: Option<Seq<char>>) -> Option<Seq<char>> {
    match raw {
        Some(s) => if trim_spec(s).len() > 0 {
            Some(trim_spec(s))
        } else {
            None
        },
        None => None,
    }
}

pub fn normalized_option(raw: Option<&String>) -> (r: Option<String>)
    ensures
        ov(r) == normalized_opt(match raw {
            Some(s) => Some(s@),
            None => None,
        }),
{
    match raw {
        Some(s) => {
            let t = trim_str(s.as_str());
            if t.as_str().is_empty() {
                None
            } else {
                Some(t)
            }
        },
        None => None,
    }
}

// ---------------------------------------------------------------------------
// The include list.
// ---------------------------------------------------------------------------

/// Deduplicating fold over the configured include entries, trimmed, empties
/// dropped.
pub open spec fn sanitize_acc(xs: Seq<Seq<char>>, i: int, acc: Seq<Seq<char>>) -> Seq<Seq<char>>
    decreases xs.len() + 1 - i,
{
    if i < 0 || i >= xs.len() {
        acc
    } else {
        let t = trim_spec(xs[i]);
        let acc2 = if t.len() == 0 || acc.contains(t) {
            acc
        } else {
            acc.push(t)
        };
        sanitize_acc(xs, i + 1, acc2)
    }
}

pub open spec fn sanitized_includes(resp: Option<ResponsesRequestOptionsView>) -> Seq<Seq<char>> {
    match resp {
        Some(r) => sanitize_acc(r.include_list, 0, Seq::empty()),
        None => Seq::empty(),
    }
}

/// The final include list: the sanitized entries, with the encrypted
/// reasoning marker appended once when reasoning asks for it.
pub open spec fn include_spec(resp: Option<ResponsesRequestOptionsView>) -> Seq<Seq<char>> {
    let base = sanitized_includes(resp);
    if reasoning_enabled_of(resp) && include_encrypted_of(resp) {
        if base.contains("reasoning.encrypted_content"@) {
            base
        } else {
            base.push("reasoning.encrypted_content"@)
        }
    } else {
        base
    }
}

fn member_string(xs: &Vec<String>, x: &str) -> (r: bool)
    ensures
        r == xs@.map_values(|s: String| s@).contains(x@),
{
    let mut i: usize = 0;
    while i < xs.len()
        invariant
            i <= xs@.len(),
            forall|k: int| 0 <= k < i ==> (#[trigger] xs@[k])@ != x@,
        decreases xs@.len() - i,
    {
        if crate::text::str_eq(xs[i].as_str(), x) {
            assert(xs@.map_values(|s: String| s@)[i as int] == x@);
            return true;
        }
        i = i + 1;
    }
    proof {
        let mapped = xs@.map_values(|s: String| s@);
        assert forall|k: int| 0 <= k < mapped.len() implies #[trigger] mapped[k] != x@ by {
            assert(mapped[k] == xs@[k]@);
        }
        if mapped.contains(x@) {
            let k = choose|k: int| 0 <= k < mapped.len() && mapped[k] == x@;
            assert(false);
        }
    }
    false
}

#[verifier::loop_isolation(false)]
fn build_include_list(responses: Option<&ResponsesRequestOptions>) -> (r: Vec<String>)
    ensures
        r@.map_values(|s: String| s@) == include_spec(match responses {
            Some(o) => Some(o@),
            None => None,
        }),
{
    let ghost rv = match responses {
        Some(o) => Some(o@),
        None => None,
    };
    let mut out: Vec<String> = Vec::new();
    match responses {
        Some(o) => {
            let ghost xs = o@.include_list;
            let mut i: usize = 0;
            proof {
                assert(out@.map_values(|s: String| s@) =~= Seq::<Seq<char>>::empty());
            }
            while i < o.include_list.len()
                invariant
                    i <= o.include_list@.len(),
                    xs.len() == o.include_list@.len(),
                    xs == o@.include_list,
                    sanitize_acc(xs, 0, Seq::empty()) == sanitize_acc(
                        xs,
                        i as int,
                        out@.map_values(|s: String| s@),
                    ),
                decreases o.include_list@.len() - i,
            {
                let t = trim_str(o.include_list[i].as_str());
                proof {
                    assert(xs[i as int] == o.include_list@[i as int]@);
                }
                if !t.as_str().is_empty() && !member_string(&out, t.as_str()) {
                    let ghost prev = out@.map_values(|s: String| s@);
                    out.push(t);
                    proof {
                        assert(out@.map_values(|s: String| s@) =~= prev.push(
                            trim_spec(xs[i as int]),
                        ));
                    }
                }
                proof {
                    assert(sanitize_acc(xs, 0, Seq::empty()) == sanitize_acc(
                        xs,
                        i + 1,
                        out@.map_values(|s: String| s@),
                    ));
                }
                i = i + 1;
            }
            proof {
                assert(sanitize_acc(xs, i as int, out@.map_values(|s: String| s@)) == out@
                    .map_values(|s: String| s@));
            }
        },
        None => {
            proof {
                assert(out@.map_values(|s: String| s@) =~= Seq::<Seq<char>>::empty());
            }
        },
    }
    let reasoning_enabled = reasoning_enabled_exec(responses);
    let include_encrypted = include_encrypted_exec(responses);
    if reasoning_enabled && include_encrypted {
        if !member_string(&out, "reasoning.encrypted_content") {
            let ghost prev = out@.map_values(|s: String| s@);
            out.push(lit("reasoning.encrypted_content"));
            proof {
                assert(out@.map_values(|s: String| s@) =~= prev.push(
                    "reasoning.encrypted_content"@,
                ));
            }
        }
    }
    out
}

fn lit(s: &str) -> (r: String)
    ensures
        r@ == s@,
{
    s.to_owned()
}

fn reasoning_enabled_exec(responses: Option<&ResponsesRequestOptions>) -> (r: bool)
    ensures
        r == reasoning_enabled_of(match responses {
            Some(o) => Some(o@),
            None => None,
        }),
{
    match responses {
        Some(o) => match &o.reasoning {
            Some(ro) => match ro.enabled {
                Some(b) => b,
                None => true,
            },
            None => true,
        },
        None => true,
    }
}

fn include_encrypted_exec(responses: Option<&ResponsesRequestOptions>) -> (r: bool)
    ensures
        r == include_encrypted_of(match responses {
            Some(o) => Some(o@),
            None => None,
        }),
{
    match responses {
        Some(o) => match &o.reasoning {
            Some(ro) => match ro.include_encrypted_content {
                Some(b) => b,
                None => true,
            },
            None => true,
        },
        None => true,
    }
}


// ---------------------------------------------------------------------------
// The request payload.
// ---------------------------------------------------------------------------

pub open spec fn strs_to_json(xs: Seq<Seq<char>>) -> Seq<Json> {
    xs.map_values(|s: Seq<char>| Json::Str(s))
}

pub open spec fn parallel_calls_of(resp: Option<ResponsesRequestOptionsView>) -> bool {
    match (match resp {
        Some(r) => r.parallel_tool_calls,
        None => None,
    }) {
        Some(b) => b,
        None => true,
    }
}

pub open spec fn effort_of(resp: Option<ResponsesRequestOptionsView>) -> Seq<char> {
    match (match resp {
        Some(r) => match r.reasoning {
            Some(ro) => normalized_opt(ro.effort),
            None => None,
        },
        None => None,
    }) {
        Some(e) => e,
        None => "medium"@,
    }
}

pub open spec fn summary_of(resp: Option<ResponsesRequestOptionsView>) -> Seq<char> {
    match (match resp {
        Some(r) => match r.reasoning {
            Some(ro) => normalized_opt(ro.summary),
            None => None,
        },
        None => None,
    }) {
        Some(e) => e,
        None => "detailed"@,
    }
}

pub open spec fn text_enabled_of(resp: Option<ResponsesRequestOptionsView>) -> bool {
    match resp {
        Some(r) => match r.text {
            Some(t) => match t.enabled {
                Some(b) => b,
                None => true,
            },
            None => true,
        },
        None => true,
    }
}

pub open spec fn verbosity_of(resp: Option<ResponsesRequestOptionsView>) -> Seq<char> {
    match (match resp {
        Some(r) => match r.text {
            Some(t) => normalized_opt(t.verbosity),
            None => None,
        },
        None => None,
    }) {
        Some(v) => v,
        None => "medium"@,
    }
}

pub open spec fn output_schema_of(resp: Option<ResponsesRequestOptionsView>) -> Option<Json> {
    match resp {
        Some(r) => match r.text {
            Some(t) => t.output_schema,
            None => None,
        },
        None => None,
    }
}

/// The text-controls object: the verbosity, and a strict JSON-schema format
/// when an output schema is configured.
pub open spec fn text_obj_spec(resp: Option<ResponsesRequestOptionsView>) -> Json {
    let base = seq![("verbosity"@, Json::Str(verbosity_of(resp)))];
    let format_part = match output_schema_of(resp) {
        Some(schema) => seq![
            (
                "format"@,
                Json::Obj(
                    seq![
                        ("type"@, Json::Str("json_schema"@)),
                        ("strict"@, Json::Bool(true)),
                        ("schema"@, schema),
                        ("name"@, Json::Str("finger_output_schema"@)),
                    ],
                ),
            ),
        ],
        None => Seq::<(Seq<char>, Json)>::empty(),
    };
    Json::Obj(base + format_part)
}

pub open spec fn base_seg_spec(
    model: Seq<char>,
    input: Seq<Json>,
    resp: Option<ResponsesRequestOptionsView>,
    base_url: Option<Seq<char>>,
) -> Seq<(Seq<char>, Json)> {
    seq![
        ("model"@, Json::Str(model)),
        ("stream"@, Json::Bool(true)),
        ("input"@, Json::Arr(input)),
        ("store"@, Json::Bool(store_of(resp, base_url))),
        // this key's name is written with a character escape
        ("incl\u{75}de"@, Json::Arr(strs_to_json(include_spec(resp)))),
    ]
}

pub open spec fn instr_seg_spec(system_prompt: Option<Seq<char>>) -> Seq<(Seq<char>, Json)> {
    match normalized_opt(system_prompt) {
        Some(s) => seq![("instructions"@, Json::Str(s))],
        None => Seq::<(Seq<char>, Json)>::empty(),
    }
}

pub open spec fn tools_seg_spec(
    tools: Option<Seq<Json>>,
    resp: Option<ResponsesRequestOptionsView>,
) -> Seq<(Seq<char>, Json)> {
    match tools {
        Some(ts) => if ts.len() > 0 {
            seq![
                ("tools"@, Json::Arr(ts)),
                ("tool_choice"@, Json::Str("auto"@)),
                ("parallel_tool_calls"@, Json::Bool(parallel_calls_of(resp))),
            ]
        } else {
            Seq::<(Seq<char>, Json)>::empty()
        },
        None => Seq::<(Seq<char>, Json)>::empty(),
    }
}

pub open spec fn reas_seg_spec(resp: Option<ResponsesRequestOptionsView>) -> Seq<
    (Seq<char>, Json),
> {
    if reasoning_enabled_of(resp) {
        seq![
            (
                "reasoning"@,
                Json::Obj(
                    seq![
                        ("effort"@, Json::Str(effort_of(resp))),
                        ("summary"@, Json::Str(summary_of(resp))),
                    ],
                ),
            ),
        ]
    } else {
        Seq::<(Seq<char>, Json)>::empty()
    }
}

pub open spec fn text_seg_spec(resp: Option<ResponsesRequestOptionsView>) -> Seq<
    (Seq<char>, Json),
> {
    if text_enabled_of(resp) {
        seq![("text"@, text_obj_spec(resp))]
    } else {
        Seq::<(Seq<char>, Json)>::empty()
    }
}

pub open spec fn cache_seg_spec(cache_key: Option<Seq<char>>) -> Seq<(Seq<char>, Json)> {
    match normalized_opt(cache_key) {
        Some(k) => seq![("prompt_cache_key"@, Json::Str(k))],
        None => Seq::<(Seq<char>, Json)>::empty(),
    }
}

/// The whole request payload, field by field, in the order it is composed.
pub open spec fn request_payload_spec(
    model: Seq<char>,
    input: Seq<Json>,
    system_prompt: Option<Seq<char>>,
    tools: Option<Seq<Json>>,
    cache_key: Option<Seq<char>>,
    resp: Option<ResponsesRequestOptionsView>,
    base_url: Option<Seq<char>>,
) -> Json {
    Json::Obj(
        base_seg_spec(model, input, resp, base_url) + instr_seg_spec(system_prompt)
            + tools_seg_spec(tools, resp) + reas_seg_spec(resp) + text_seg_spec(resp)
            + cache_seg_spec(cache_key),
    )
}

fn clone_json_list(xs: &Vec<JsonValue>) -> (r: Vec<JsonValue>)
    ensures
        views_of(r@) == views_of(xs@),
{
    let mut out: Vec<JsonValue> = Vec::new();
    let mut i: usize = 0;
    proof {
        lemma_views_of(xs@);
    }
    while i < xs.len()
        invariant
            i <= xs@.len(),
            out@.len() == i,
            forall|k: int| 0 <= k < i ==> out@[k]@ == xs@[k]@,
        decreases xs@.len() - i,
    {
        let c = json_clone(&xs[i]);
        out.push(c);
        i = i + 1;
    }
    proof {
        lemma_views_of(out@);
        lemma_views_of(xs@);
        assert(views_of(out@) =~= views_of(xs@));
    }
    out
}

#[verifier::loop_isolation(false)]
fn seg_base(
    model: &str,
    input: &Vec<JsonValue>,
    responses: Option<&ResponsesRequestOptions>,
    base_url: Option<&String>,
) -> (r: Vec<(String, JsonValue)>)
    ensures
        field_views_of(r@) == base_seg_spec(
            model@,
            views_of(input@),
            match responses {
                Some(o) => Some(o@),
                None => None,
            },
            match base_url {
                Some(u) => Some(u@),
                None => None,
            },
        ),
{
    let ghost rv = match responses {
        Some(o) => Some(o@),
        None => None,
    };
    let reasoning_enabled = reasoning_enabled_exec(responses);
    let include_encrypted = include_encrypted_exec(responses);
    let store: bool = match (match responses {
        Some(o) => o.store,
        None => None,
    }) {
        Some(s) => s,
        None => if reasoning_enabled && !include_encrypted {
            true
        } else {
            is_azure_responses_endpoint(base_url)
        },
    };
    let includes = build_include_list(responses);
    let mut include_json: Vec<JsonValue> = Vec::new();
    let mut i: usize = 0;
    while i < includes.len()
        invariant
            i <= includes@.len(),
            include_json@.len() == i,
            forall|k: int| 0 <= k < i ==> include_json@[k]@ == Json::Str(includes@[k]@),
        decreases includes@.len() - i,
    {
        include_json.push(JsonValue::Str(includes[i].clone()));
        i = i + 1;
    }
    proof {
        lemma_views_of(include_json@);
        assert(views_of(include_json@) =~= strs_to_json(include_spec(rv)));
    }
    let mut fields: Vec<(String, JsonValue)> = Vec::new();
    fields.push((lit("model"), JsonValue::Str(lit(model))));
    fields.push((lit("stream"), JsonValue::Bool(true)));
    fields.push((lit("input"), JsonValue::Arr(clone_json_list(input))));
    fields.push((lit("store"), JsonValue::Bool(store)));
    // this key's name is written with a character escape
    fields.push((lit("incl\u{75}de"), JsonValue::Arr(include_json)));
    proof {
        lemma_field_views_of(fields@);
        assert(field_views_of(fields@) =~= base_seg_spec(
            model@,
            views_of(input@),
            rv,
            match base_url {
                Some(u) => Some(u@),
                None => None,
            },
        ));
    }
    fields
}

fn seg_instructions(system_prompt: Option<&String>) -> (r: Vec<(String, JsonValue)>)
    ensures
        field_views_of(r@) == instr_seg_spec(match system_prompt {
            Some(s) => Some(s@),
            None => None,
        }),
{
    let mut fields: Vec<(String, JsonValue)> = Vec::new();
    match normalized_option(system_prompt) {
        Some(instructions) => {
            fields.push((lit("instructions"), JsonValue::Str(instructions)));
        },
        None => {},
    }
    proof {
        lemma_field_views_of(fields@);
        assert(field_views_of(fields@) =~= instr_seg_spec(match system_prompt {
            Some(s) => Some(s@),
            None => None,
        }));
    }
    fields
}

fn seg_tools(tools: Option<&Vec<JsonValue>>, responses: Option<&ResponsesRequestOptions>) -> (r:
    Vec<(String, JsonValue)>)
    ensures
        field_views_of(r@) == tools_seg_spec(
            match tools {
                Some(t) => Some(views_of(t@)),
                None => None,
            },
            match responses {
                Some(o) => Some(o@),
                None => None,
            },
        ),
{
    let mut fields: Vec<(String, JsonValue)> = Vec::new();
    match tools {
        Some(ts) => {
            proof {
                lemma_views_of(ts@);
            }
            if ts.len() > 0 {
                let parallel: bool = match (match responses {
                    Some(o) => o.parallel_tool_calls,
                    None => None,
                }) {
                    Some(b) => b,
                    None => true,
                };
                fields.push((lit("tools"), JsonValue::Arr(clone_json_list(ts))));
                fields.push((lit("tool_choice"), JsonValue::Str(lit("auto"))));
                fields.push((lit("parallel_tool_calls"), JsonValue::Bool(parallel)));
            }
        },
        None => {},
    }
    proof {
        lemma_field_views_of(fields@);
        assert(field_views_of(fields@) =~= tools_seg_spec(
            match tools {
                Some(t) => Some(views_of(t@)),
                None => None,
            },
            match responses {
                Some(o) => Some(o@),
                None => None,
            },
        ));
    }
    fields
}

fn seg_reasoning(responses: Option<&ResponsesRequestOptions>) -> (r: Vec<(String, JsonValue)>)
    ensures
        field_views_of(r@) == reas_seg_spec(match responses {
            Some(o) => Some(o@),
            None => None,
        }),
{
    let ghost rv = match responses {
        Some(o) => Some(o@),
        None => None,
    };
    let mut fields: Vec<(String, JsonValue)> = Vec::new();
    if reasoning_enabled_exec(responses) {
        let effort: String = match responses {
            Some(o) => match &o.reasoning {
                Some(ro) => match normalized_option(ro.effort.as_ref()) {
                    Some(e) => e,
                    None => lit("medium"),
                },
                None => lit("medium"),
            },
            None => lit("medium"),
        };
        let summary: String = match responses {
            Some(o) => match &o.reasoning {
                Some(ro) => match normalized_option(ro.summary.as_ref()) {
                    Some(e) => e,
                    None => lit("detailed"),
                },
                None => lit("detailed"),
            },
            None => lit("detailed"),
        };
        let mut ro_fields: Vec<(String, JsonValue)> = Vec::new();
        ro_fields.push((lit("effort"), JsonValue::Str(effort)));
        ro_fields.push((lit("summary"), JsonValue::Str(summary)));
        let ghost rg = ro_fields@;
        let ro = JsonValue::Obj(ro_fields);
        proof {
            lemma_field_views_of(rg);
            assert(field_views_of(rg) =~= seq![
                ("effort"@, Json::Str(effort_of(rv))),
                ("summary"@, Json::Str(summary_of(rv))),
            ]);
        }
        fields.push((lit("reasoning"), ro));
    }
    proof {
        lemma_field_views_of(fields@);
        assert(field_views_of(fields@) =~= reas_seg_spec(rv));
    }
    fields
}

fn seg_text(responses: Option<&ResponsesRequestOptions>) -> (r: Vec<(String, JsonValue)>)
    ensures
        field_views_of(r@) == text_seg_spec(match responses {
            Some(o) => Some(o@),
            None => None,
        }),
{
    let ghost rv = match responses {
        Some(o) => Some(o@),
        None => None,
    };
    let mut fields: Vec<(String, JsonValue)> = Vec::new();
    let text_enabled: bool = match responses {
        Some(o) => match &o.text {
            Some(t) => match t.enabled {
                Some(b) => b,
                None => true,
            },
            None => true,
        },
        None => true,
    };
    if text_enabled {
        let verbosity: String = match responses {
            Some(o) => match &o.text {
                Some(t) => match normalized_option(t.verbosity.as_ref()) {
                    Some(v) => v,
                    None => lit("medium"),
                },
                None => lit("medium"),
            },
            None => lit("medium"),
        };
        let mut to_fields: Vec<(String, JsonValue)> = Vec::new();
        to_fields.push((lit("verbosity"), JsonValue::Str(verbosity)));
        let schema: Option<&JsonValue> = match responses {
            Some(o) => match &o.text {
                Some(t) => match &t.output_schema {
                    Some(s) => Some(s),
                    None => None,
                },
                None => None,
            },
            None => None,
        };
        match schema {
            Some(s) => {
                let mut fmt_fields: Vec<(String, JsonValue)> = Vec::new();
                fmt_fields.push((lit("type"), JsonValue::Str(lit("json_schema"))));
                fmt_fields.push((lit("strict"), JsonValue::Bool(true)));
                fmt_fields.push((lit("schema"), json_clone(s)));
                fmt_fields.push((lit("name"), JsonValue::Str(lit("finger_output_schema"))));
                let ghost fg = fmt_fields@;
                let fmt = JsonValue::Obj(fmt_fields);
                proof {
                    lemma_field_views_of(fg);
                    assert(field_views_of(fg) =~= seq![
                        ("type"@, Json::Str("json_schema"@)),
                        ("strict"@, Json::Bool(true)),
                        ("schema"@, output_schema_of(rv)->0),
                        ("name"@, Json::Str("finger_output_schema"@)),
                    ]);
                }
                to_fields.push((lit("format"), fmt));
            },
            None => {},
        }
        let ghost tg = to_fields@;
        let to = JsonValue::Obj(to_fields);
        proof {
            lemma_field_views_of(tg);
            assert(to@ == text_obj_spec(rv)) by {
                match output_schema_of(rv) {
                    Some(_) => {
                        assert(field_views_of(tg) =~= text_obj_spec(rv)->Obj_0);
                    },
                    None => {
                        assert(field_views_of(tg) =~= text_obj_spec(rv)->Obj_0);
                    },
                }
            }
        }
        fields.push((lit("text"), to));
    }
    proof {
        lemma_field_views_of(fields@);
        assert(field_views_of(fields@) =~= text_seg_spec(rv));
    }
    fields
}

fn seg_cache(prompt_cache_key: Option<&String>) -> (r: Vec<(String, JsonValue)>)
    ensures
        field_views_of(r@) == cache_seg_spec(match prompt_cache_key {
            Some(s) => Some(s@),
            None => None,
        }),
{
    let mut fields: Vec<(String, JsonValue)> = Vec::new();
    match normalized_option(prompt_cache_key) {
        Some(k) => {
            fields.push((lit("prompt_cache_key"), JsonValue::Str(k)));
        },
        None => {},
    }
    proof {
        lemma_field_views_of(fields@);
        assert(field_views_of(fields@) =~= cache_seg_spec(match prompt_cache_key {
            Some(s) => Some(s@),
            None => None,
        }));
    }
    fields
}

/// Builds the streaming request payload for one round.
pub fn build_responses_request_payload(
    model: &str,
    input: &Vec<JsonValue>,
    system_prompt: Option<&String>,
    tools: Option<&Vec<JsonValue>>,
    prompt_cache_key: Option<&String>,
    responses: Option<&ResponsesRequestOptions>,
    base_url: Option<&String>,
) -> (r: JsonValue)
    ensures
        r@ == request_payload_spec(
            model@,
            views_of(input@),
            match system_prompt {
                Some(s) => Some(s@),
                None => None,
            },
            match tools {
                Some(t) => Some(views_of(t@)),
                None => None,
            },
            match prompt_cache_key {
                Some(s) => Some(s@),
                None => None,
            },
            match responses {
                Some(o) => Some(o@),
                None => None,
            },
            match base_url {
                Some(u) => Some(u@),
                None => None,
            },
        ),
{
    let mut fields = seg_base(model, input, responses, base_url);
    let ghost s0 = fields@;
    let mut s_instr = seg_instructions(system_prompt);
    let ghost g1 = s_instr@;
    fields.append(&mut s_instr);
    proof {
        crate::json::lemma_field_views_of_concat(s0, g1);
    }
    let ghost s1 = fields@;
    let mut s_tools = seg_tools(tools, responses);
    let ghost g2 = s_tools@;
    fields.append(&mut s_tools);
    proof {
        crate::json::lemma_field_views_of_concat(s1, g2);
    }
    let ghost s2 = fields@;
    let mut s_reas = seg_reasoning(responses);
    let ghost g3 = s_reas@;
    fields.append(&mut s_reas);
    proof {
        crate::json::lemma_field_views_of_concat(s2, g3);
    }
    let ghost s3 = fields@;
    let mut s_text = seg_text(responses);
    let ghost g4 = s_text@;
    fields.append(&mut s_text);
    proof {
        crate::json::lemma_field_views_of_concat(s3, g4);
    }
    let ghost s4 = fields@;
    let mut s_cache = seg_cache(prompt_cache_key);
    let ghost g5 = s_cache@;
    fields.append(&mut s_cache);
    proof {
        crate::json::lemma_field_views_of_concat(s4, g5);
    }
    let ghost gf = fields@;
    let r = JsonValue::Obj(fields);
    proof {
        assert(field_views_of(gf) == field_views_of(s0) + field_views_of(g1) + field_views_of(g2)
            + field_views_of(g3) + field_views_of(g4) + field_views_of(g5));
    }
    r
}


// ---------------------------------------------------------------------------
// Errors surfaced by the engine.
// ---------------------------------------------------------------------------

pub enum ModelError {
    /// The transport failed before any status arrived.
    Request(String),
    HttpStatus { status: u16, body: String },
    ParsePayload(String),
    LocalImageRead { path: String, error: String },
    EmptyOutput,
    MissingStreamResponse,
    StreamFailed { message: String },
    ToolLoopExceeded { max_rounds: usize },
    ToolExecution { tool_name: String, message: String },
}

impl ModelError {
    /// The user-facing message of each error kind.
    pub fn message(&self) -> (r: String)
        ensures
            match self {
                ModelError::Request(m) => r@ == "http request failed: "@ + m@,
                ModelError::HttpStatus { status, body } => r@
                    == "responses api returned non-success status: "@ + crate::text::dec_of(
                    *status as nat,
                ) + "; body: "@ + body@,
                ModelError::ParsePayload(m) => r@ == "invalid responses payload: "@ + m@,
                ModelError::LocalImageRead { path, error } => r@
                    == "failed to read local image from "@ + path@ + ": "@ + error@,
                ModelError::EmptyOutput => r@ == "responses api returned empty output"@,
                ModelError::MissingStreamResponse => r@
                    == "responses stream did not contain a completed response payload"@,
                ModelError::StreamFailed { message } => r@ == "responses stream failed: "@
                    + message@,
                ModelError::ToolLoopExceeded { max_rounds } => r@
                    == "responses api tool loop exceeded "@ + crate::text::dec_of(
                    *max_rounds as nat,
                ) + " rounds"@,
                ModelError::ToolExecution { tool_name, message } => r@
                    == "tool execution failed for "@ + tool_name@ + ": "@ + message@,
            },
    {
        match self {
            ModelError::Request(m) => {
                let mut v = chars_of("http request failed: ");
                let mv = chars_of(m.as_str());
                crate::text::extend_chars(&mut v, &mv);
                proof {
                    assert(v@ =~= "http request failed: "@ + m@);
                }
                string_from_chars(&v)
            },
            ModelError::HttpStatus { status, body } => {
                let mut v = chars_of("responses api returned non-success status: ");
                let sv = crate::text::dec_digits(*status as u64);
                crate::text::extend_chars(&mut v, &sv);
                let bv = chars_of("; body: ");
                crate::text::extend_chars(&mut v, &bv);
                let bb = chars_of(body.as_str());
                crate::text::extend_chars(&mut v, &bb);
                proof {
                    assert(v@ =~= "responses api returned non-success status: "@
                        + crate::text::dec_of(*status as nat) + "; body: "@ + body@);
                }
                string_from_chars(&v)
            },
            ModelError::ParsePayload(m) => {
                let mut v = chars_of("invalid responses payload: ");
                let mv = chars_of(m.as_str());
                crate::text::extend_chars(&mut v, &mv);
                proof {
                    assert(v@ =~= "invalid responses payload: "@ + m@);
                }
                string_from_chars(&v)
            },
            ModelError::LocalImageRead { path, error } => {
                let mut v = chars_of("failed to read local image from ");
                let pv = chars_of(path.as_str());
                crate::text::extend_chars(&mut v, &pv);
                let sep = chars_of(": ");
                crate::text::extend_chars(&mut v, &sep);
                let ev = chars_of(error.as_str());
                crate::text::extend_chars(&mut v, &ev);
                proof {
                    assert(v@ =~= "failed to read local image from "@ + path@ + ": "@ + error@);
                }
                string_from_chars(&v)
            },
            ModelError::EmptyOutput => lit("responses api returned empty output"),
            ModelError::MissingStreamResponse => lit(
                "responses stream did not contain a completed response payload",
            ),
            ModelError::StreamFailed { message } => {
                let mut v = chars_of("responses stream failed: ");
                let mv = chars_of(message.as_str());
                crate::text::extend_chars(&mut v, &mv);
                proof {
                    assert(v@ =~= "responses stream failed: "@ + message@);
                }
                string_from_chars(&v)
            },
            ModelError::ToolLoopExceeded { max_rounds } => {
                let mut v = chars_of("responses api tool loop exceeded ");
                let nv = crate::text::dec_digits(*max_rounds as u64);
                crate::text::extend_chars(&mut v, &nv);
                let tv = chars_of(" rounds");
                crate::text::extend_chars(&mut v, &tv);
                proof {
                    assert(v@ =~= "responses api tool loop exceeded "@ + crate::text::dec_of(
                        *max_rounds as nat,
                    ) + " rounds"@);
                }
                string_from_chars(&v)
            },
            ModelError::ToolExecution { tool_name, message } => {
                let mut v = chars_of("tool execution failed for ");
                let tv = chars_of(tool_name.as_str());
                crate::text::extend_chars(&mut v, &tv);
                let sep = chars_of(": ");
                crate::text::extend_chars(&mut v, &sep);
                let mv = chars_of(message.as_str());
                crate::text::extend_chars(&mut v, &mv);
                proof {
                    assert(v@ =~= "tool execution failed for "@ + tool_name@ + ": "@ + message@);
                }
                string_from_chars(&v)
            },
        }
    }
}

// ---------------------------------------------------------------------------
// String-encoded integers.
// ---------------------------------------------------------------------------

pub open spec fn digit_val(c: char) -> nat {
    if c == '0' {
        0
    } else if c == '1' {
        1
    } else if c == '2' {
        2
    } else if c == '3' {
        3
    } else if c == '4' {
        4
    } else if c == '5' {
        5
    } else if c == '6' {
        6
    } else if c == '7' {
        7
    } else if c == '8' {
        8
    } else {
        9
    }
}

pub open spec fn is_digit(c: char) -> bool {
    '0' <= c && c <= '9'
}

pub open spec fn dec_val(s: Seq<char>) -> nat
    decreases s.len(),
{
    if s.len() == 0 {
        0
    } else {
        dec_val(s.drop_last()) * 10 + digit_val(s.last())
    }
}

pub open spec fn strip_plus(s: Seq<char>) -> Seq<char> {
    if s.len() > 0 && s[0] == '+' {
        s.drop_first()
    } else {
        s
    }
}

/// How `str::parse::<u64>` reads a trimmed text: an optional plus sign, then
/// at least one digit, with the value fitting 64 bits.
pub open spec fn dec_parse(s: Seq<char>) -> Option<u64> {
    let t = strip_plus(s);
    if t.len() > 0 && (forall|i: int| 0 <= i < t.len() ==> is_digit(#[trigger] t[i])) && dec_val(t)
        <= u64::MAX {
        Some(dec_val(t) as u64)
    } else {
        None
    }
}

proof fn lemma_dec_val_grows(a: Seq<char>, b: Seq<char>)
    requires
        a.len() <= b.len(),
        a == b.subrange(0, a.len() as int),
    ensures
        dec_val(a) <= dec_val(b),
    decreases b.len() - a.len(),
{
    if a.len() < b.len() {
        assert(b.drop_last().subrange(0, a.len() as int) =~= b.subrange(0, a.len() as int));
        lemma_dec_val_grows(a, b.drop_last());
    } else {
        assert(a =~= b);
    }
}

#[verifier::loop_isolation(false)]
fn parse_u64_text(s: &str) -> (r: Option<u64>)
    ensures
        r == dec_parse(trim_spec(s@)),
{
    let tstr = trim_str(s);
    let v = chars_of(tstr.as_str());
    let ghost full = trim_spec(s@);
    let start: usize = if v.len() > 0 && v[0] == '+' {
        1
    } else {
        0
    };
    let ghost t = strip_plus(full);
    proof {
        assert(v@.subrange(start as int, v@.len() as int) =~= t);
    }
    if v.len() == start {
        return None;
    }
    let mut acc: u128 = 0;
    let mut i: usize = start;
    proof {
        assert(t.subrange(0, 0) =~= Seq::<char>::empty());
    }
    while i < v.len()
        invariant
            start <= i <= v@.len(),
            t == v@.subrange(start as int, v@.len() as int),
            acc == dec_val(t.subrange(0, i - start)),
            acc <= u64::MAX,
            forall|k: int| 0 <= k < i - start ==> is_digit(#[trigger] t[k]),
        decreases v@.len() - i,
    {
        let c = v[i];
        proof {
            assert(t[i - start] == v@[i as int]);
        }
        if !('0' <= c && c <= '9') {
            proof {
                assert(!is_digit(t[i - start]));
                assert(0 <= i - start < t.len());
                assert(dec_parse(full) is None);
            }
            return None;
        }
        let d: u128 = (c as u32 as u128) - 48;
        proof {
            assert(d == digit_val(t[i - start]));
        }
        acc = acc * 10 + d;
        proof {
            assert(t.subrange(0, i + 1 - start) =~= t.subrange(0, i - start).push(t[i - start]));
            assert(t.subrange(0, i + 1 - start).drop_last() =~= t.subrange(0, i - start));
            assert(acc == dec_val(t.subrange(0, i + 1 - start)));
        }
        if acc > u64::MAX as u128 {
            proof {
                lemma_dec_val_grows(t.subrange(0, i + 1 - start), t);
                assert(t.subrange(0, t.len() as int) =~= t);
            }
            return None;
        }
        i = i + 1;
    }
    proof {
        assert(t.subrange(0, t.len() as int) =~= t);
    }
    Some(acc as u64)
}


// ---------------------------------------------------------------------------
// Parsing a completed response payload.
// ---------------------------------------------------------------------------

pub struct FunctionCallItem {
    pub call_id: String,
    pub name: String,
    pub arguments: String,
}

pub struct FunctionCallItemView {
    pub call_id: Seq<char>,
    pub name: Seq<char>,
    pub arguments: Seq<char>,
}

impl View for FunctionCallItem {
    type V = FunctionCallItemView;

    open spec fn view(&self) -> FunctionCallItemView {
        FunctionCallItemView {
            call_id: self.call_id@,
            name: self.name@,
            arguments: self.arguments@,
        }
    }
}

pub open spec fn fc_views(xs: Seq<FunctionCallItem>) -> Seq<FunctionCallItemView> {
    xs.map_values(|x: FunctionCallItem| x@)
}

/// The item's `type` string, empty when absent.
pub open spec fn type_of(item: Json) -> Seq<char> {
    match jstr_field(item, "type"@) {
        Some(t) => t,
        None => Seq::empty(),
    }
}

pub open spec fn api_relevant(t: Seq<char>) -> bool {
    t == "function_call"@ || t == "message"@ || t == "reasoning"@
}

/// The three API-relevant type names are pairwise distinct.
proof fn type_literals_distinct()
    ensures
        "function_call"@ != "message"@,
        "function_call"@ != "reasoning"@,
        "message"@ != "reasoning"@,
{
    reveal_strlit("function_call");
    reveal_strlit("message");
    reveal_strlit("reasoning");
    assert("function_call"@.len() == 13);
    assert("message"@.len() == 7);
    assert("reasoning"@.len() == 9);
}

pub fn is_api_relevant_output_item(item_type: &str) -> (r: bool)
    ensures
        r == api_relevant(item_type@),
{
    crate::text::str_eq(item_type, "function_call") || crate::text::str_eq(item_type, "message")
        || crate::text::str_eq(item_type, "reasoning")
}

/// One function-call item: a trimmed, non-empty call id (`call_id`, else
/// `id`), a trimmed, non-empty name, and the arguments as text.
pub open spec fn parse_fc_spec(item: Json) -> Option<FunctionCallItemView> {
    let cid_raw = match jstr_field(item, "call_id"@) {
        Some(s) => Some(s),
        None => jstr_field(item, "id"@),
    };
    match cid_raw {
        Some(c) => if trim_spec(c).len() > 0 {
            match jstr_field(item, "name"@) {
                Some(n) => if trim_spec(n).len() > 0 {
                    Some(
                        FunctionCallItemView {
                            call_id: trim_spec(c),
                            name: trim_spec(n),
                            arguments: match jget(item, "arguments"@) {
                                Some(a) => match a {
                                    Json::Str(s) => s,
                                    _ => crate::json::json_text(a),
                                },
                                None => seq!['{', '}'],
                            },
                        },
                    )
                } else {
                    None
                },
                None => None,
            }
        } else {
            None
        },
        None => None,
    }
}

pub fn parse_function_call_item(item: &JsonValue) -> (r: Option<FunctionCallItem>)
    ensures
        match r {
            Some(fc) => parse_fc_spec(item@) == Some(fc@),
            None => parse_fc_spec(item@) is None,
        },
{
    let cid_raw: Option<&String> = match item.str_field("call_id") {
        Some(s) => Some(s),
        None => item.str_field("id"),
    };
    let call_id = match cid_raw {
        Some(c) => {
            let t = trim_str(c.as_str());
            if t.as_str().is_empty() {
                return None;
            }
            t
        },
        None => {
            return None;
        },
    };
    let name = match item.str_field("name") {
        Some(n) => {
            let t = trim_str(n.as_str());
            if t.as_str().is_empty() {
                return None;
            }
            t
        },
        None => {
            return None;
        },
    };
    let arguments: String = match item.get("arguments") {
        Some(a) => match a {
            JsonValue::Str(s) => s.clone(),
            _ => crate::json::json_to_text(a),
        },
        None => {
            let mut v: Vec<char> = Vec::new();
            v.push('{');
            v.push('}');
            proof {
                assert(v@ =~= seq!['{', '}']);
            }
            string_from_chars(&v)
        },
    };
    Some(FunctionCallItem { call_id, name, arguments })
}

/// The first usable text of a message item's content parts: type
/// `output_text` or `text`, with a non-empty trimmed `text` string.
pub open spec fn msg_text_fold(parts: Seq<Json>) -> Option<Seq<char>>
    decreases parts.len(),
{
    if parts.len() == 0 {
        None
    } else {
        let prior = msg_text_fold(parts.drop_last());
        if prior is Some {
            prior
        } else {
            msg_part_text(parts.last())
        }
    }
}

pub open spec fn msg_part_text(p: Json) -> Option<Seq<char>> {
    if (type_of(p) == "output_text"@ || type_of(p) == "text"@) && jstr_field(p, "text"@) is Some
        && trim_spec(jstr_field(p, "text"@)->0).len() > 0 {
        Some(trim_spec(jstr_field(p, "text"@)->0))
    } else {
        None
    }
}

pub open spec fn msg_text_of(item: Json) -> Option<Seq<char>> {
    match jget(item, "content"@) {
        Some(c) => match c {
            Json::Arr(parts) => msg_text_fold(parts),
            _ => None,
        },
        None => None,
    }
}

fn msg_part_text_exec(p: &JsonValue) -> (r: Option<String>)
    ensures
        match r {
            Some(s) => msg_part_text(p@) == Some(s@),
            None => msg_part_text(p@) is None,
        },
{
    let tstr: String = match p.str_field("type") {
        Some(t) => t.clone(),
        None => String::new(),
    };
    proof {
        assert(tstr@ == type_of(p@));
    }
    if !(crate::text::str_eq(tstr.as_str(), "output_text") || crate::text::str_eq(
        tstr.as_str(),
        "text",
    )) {
        return None;
    }
    match p.str_field("text") {
        Some(s) => {
            let t = trim_str(s.as_str());
            if t.as_str().is_empty() {
                None
            } else {
                Some(t)
            }
        },
        None => None,
    }
}

#[verifier::loop_isolation(false)]
pub fn parse_output_text_from_message(item: &JsonValue) -> (r: Option<String>)
    ensures
        match r {
            Some(s) => msg_text_of(item@) == Some(s@),
            None => msg_text_of(item@) is None,
        },
{
    let parts = match item.get("content") {
        Some(c) => match c.as_array() {
            Some(parts) => parts,
            None => {
                return None;
            },
        },
        None => {
            return None;
        },
    };
    proof {
        lemma_views_of(parts@);
    }
    let ghost pv = views_of(parts@);
    let mut found: Option<String> = None;
    let mut i: usize = 0;
    proof {
        assert(pv.subrange(0, 0) =~= Seq::<Json>::empty());
    }
    while i < parts.len()
        invariant
            i <= parts@.len(),
            pv == views_of(parts@),
            pv.len() == parts@.len(),
            ov(found) == msg_text_fold(pv.subrange(0, i as int)),
        decreases parts@.len() - i,
    {
        proof {
            assert(pv.subrange(0, i + 1) =~= pv.subrange(0, i as int).push(pv[i as int]));
            assert(pv.subrange(0, i + 1).drop_last() =~= pv.subrange(0, i as int));
        }
        if found.is_none() {
            found = msg_part_text_exec(&parts[i]);
        }
        i = i + 1;
    }
    proof {
        assert(pv.subrange(0, pv.len() as int) =~= pv);
    }
    found
}

/// The first usable reasoning text: a summary entry's non-empty trimmed
/// `text`, else the item's own.
pub open spec fn summary_text_fold(parts: Seq<Json>) -> Option<Seq<char>>
    decreases parts.len(),
{
    if parts.len() == 0 {
        None
    } else {
        let prior = summary_text_fold(parts.drop_last());
        if prior is Some {
            prior
        } else {
            if jstr_field(parts.last(), "text"@) is Some && trim_spec(
                jstr_field(parts.last(), "text"@)->0,
            ).len() > 0 {
                Some(trim_spec(jstr_field(parts.last(), "text"@)->0))
            } else {
                None
            }
        }
    }
}

pub open spec fn reasoning_text_of(item: Json) -> Option<Seq<char>> {
    let from_summary = match jget(item, "summary"@) {
        Some(s) => match s {
            Json::Arr(parts) => summary_text_fold(parts),
            _ => None,
        },
        None => None,
    };
    match from_summary {
        Some(t) => Some(t),
        None => if jstr_field(item, "text"@) is Some && trim_spec(
            jstr_field(item, "text"@)->0,
        ).len() > 0 {
            Some(trim_spec(jstr_field(item, "text"@)->0))
        } else {
            None
        },
    }
}

#[verifier::loop_isolation(false)]
pub fn parse_reasoning_text(item: &JsonValue) -> (r: Option<String>)
    ensures
        match r {
            Some(s) => reasoning_text_of(item@) == Some(s@),
            None => reasoning_text_of(item@) is None,
        },
{
    let mut found: Option<String> = None;
    match item.get("summary") {
        Some(sv) => match sv.as_array() {
            Some(parts) => {
                proof {
                    lemma_views_of(parts@);
                }
                let ghost pv = views_of(parts@);
                let mut i: usize = 0;
                proof {
                    assert(pv.subrange(0, 0) =~= Seq::<Json>::empty());
                }
                while i < parts.len()
                    invariant
                        i <= parts@.len(),
                        pv == views_of(parts@),
                        pv.len() == parts@.len(),
                        ov(found) == summary_text_fold(pv.subrange(0, i as int)),
                    decreases parts@.len() - i,
                {
                    proof {
                        assert(pv.subrange(0, i + 1) =~= pv.subrange(0, i as int).push(
                            pv[i as int]));
                        assert(pv.subrange(0, i + 1).drop_last() =~= pv.subrange(0, i as int));
                    }
                    if found.is_none() {
                        match parts[i].str_field("text") {
                            Some(s) => {
                                let t = trim_str(s.as_str());
                                if !t.as_str().is_empty() {
                                    found = Some(t);
                                }
                            },
                            None => {},
                        }
                    }
                    i = i + 1;
                }
                proof {
                    assert(pv.subrange(0, pv.len() as int) =~= pv);
                }
            },
            None => {},
        },
        None => {},
    }
    if found.is_some() {
        return found;
    }
    match item.str_field("text") {
        Some(s) => {
            let t = trim_str(s.as_str());
            if !t.as_str().is_empty() {
                return Some(t);
            }
            None
        },
        None => None,
    }
}


// ---------------------------------------------------------------------------
// The parsed payload.
// ---------------------------------------------------------------------------

pub struct ParsedUsage {
    pub input_tokens: Option<u64>,
    pub output_tokens: Option<u64>,
    pub total_tokens: Option<u64>,
}

pub struct ParsedResponse {
    pub output_text: Option<String>,
    pub function_calls: Vec<FunctionCallItem>,
    pub history_items: Vec<JsonValue>,
    pub reasoning: Vec<String>,
    pub finish_reason: Option<String>,
    pub response_status: Option<String>,
    pub response_incomplete_reason: Option<String>,
    pub response_id: Option<String>,
    pub usage: ParsedUsage,
}

pub open spec fn output_of(v: Json) -> Seq<Json> {
    match jget(v, "output"@) {
        Some(o) => match o {
            Json::Arr(items) => items,
            _ => Seq::empty(),
        },
        None => Seq::empty(),
    }
}

pub open spec fn fc_fold(items: Seq<Json>) -> Seq<FunctionCallItemView>
    decreases items.len(),
{
    if items.len() == 0 {
        Seq::empty()
    } else {
        let rest = fc_fold(items.drop_last());
        if type_of(items.last()) == "function_call"@ && parse_fc_spec(items.last()) is Some {
            rest.push(parse_fc_spec(items.last())->0)
        } else {
            rest
        }
    }
}

pub open spec fn hist_fold(items: Seq<Json>) -> Seq<Json>
    decreases items.len(),
{
    if items.len() == 0 {
        Seq::empty()
    } else {
        let rest = hist_fold(items.drop_last());
        if api_relevant(type_of(items.last())) {
            rest.push(items.last())
        } else {
            rest
        }
    }
}

pub open spec fn reas_fold(items: Seq<Json>) -> Seq<Seq<char>>
    decreases items.len(),
{
    if items.len() == 0 {
        Seq::empty()
    } else {
        let rest = reas_fold(items.drop_last());
        if type_of(items.last()) == "reasoning"@ && reasoning_text_of(items.last()) is Some {
            rest.push(reasoning_text_of(items.last())->0)
        } else {
            rest
        }
    }
}

pub open spec fn out_text_fold(init: Option<Seq<char>>, items: Seq<Json>) -> Option<Seq<char>>
    decreases items.len(),
{
    if items.len() == 0 {
        init
    } else {
        let prior = out_text_fold(init, items.drop_last());
        if prior is Some {
            prior
        } else if type_of(items.last()) == "message"@ {
            msg_text_of(items.last())
        } else {
            None
        }
    }
}

/// The candidate final text: the payload's own `output_text` string, else
/// the first message item's text.
pub open spec fn out_text_of(v: Json) -> Option<Seq<char>> {
    out_text_fold(jstr_field(v, "output_text"@), output_of(v))
}

pub open spec fn json_u64_of(v: Option<Json>) -> Option<u64> {
    match v {
        Some(x) => match x {
            Json::UInt(n) => Some(n),
            Json::Str(s) => dec_parse(trim_spec(s)),
            _ => None,
        },
        None => None,
    }
}

pub open spec fn usage_of(v: Json) -> (Option<u64>, Option<u64>, Option<u64>) {
    match jget(v, "usage"@) {
        Some(u) => if u is Obj {
            (
                json_u64_of(jget(u, "input_tokens"@)),
                json_u64_of(jget(u, "output_tokens"@)),
                json_u64_of(jget(u, "total_tokens"@)),
            )
        } else {
            (None, None, None)
        },
        None => (None, None, None),
    }
}

pub open spec fn status_of(v: Json) -> Option<Seq<char>> {
    normalized_opt(jstr_field(v, "status"@))
}

pub open spec fn incomplete_reason_of(v: Json) -> Option<Seq<char>> {
    match jget(v, "incomplete_details"@) {
        Some(d) => if d is Obj {
            normalized_opt(jstr_field(d, "reason"@))
        } else {
            None
        },
        None => None,
    }
}

pub open spec fn response_id_of(v: Json) -> Option<Seq<char>> {
    normalized_opt(jstr_field(v, "id"@))
}

/// The finish reason: the payload's own, else derived from what the round
/// produced, else the incomplete reason.
pub open spec fn finish_reason_of(v: Json) -> Option<Seq<char>> {
    match normalized_opt(jstr_field(v, "finish_reason"@)) {
        Some(f) => Some(f),
        None => if fc_fold(output_of(v)).len() > 0 {
            Some("tool_calls"@)
        } else if (match out_text_of(v) {
            Some(t) => trim_spec(t).len() > 0,
            None => false,
        }) {
            Some("stop"@)
        } else {
            incomplete_reason_of(v)
        },
    }
}

fn norm_field(v: &JsonValue, key: &str) -> (r: Option<String>)
    ensures
        ov(r) == normalized_opt(jstr_field(v@, key@)),
{
    match v.str_field(key) {
        Some(s) => {
            let t = trim_str(s.as_str());
            if t.as_str().is_empty() {
                None
            } else {
                Some(t)
            }
        },
        None => None,
    }
}

fn u64_field(v: &JsonValue, key: &str) -> (r: Option<u64>)
    ensures
        r == json_u64_of(jget(v@, key@)),
{
    match v.get(key) {
        Some(x) => match x {
            JsonValue::UInt(n) => Some(*n),
            JsonValue::Str(s) => parse_u64_text(s.as_str()),
            _ => None,
        },
        None => None,
    }
}

/// Walks a completed response: the API-relevant output items, the function
/// calls, the reasoning texts, the candidate final text, and the metadata.
/// Only a non-object payload is refused.
#[verifier::loop_isolation(false)]
pub fn parse_responses_payload(payload: &JsonValue) -> (r: Result<ParsedResponse, ModelError>)
    ensures
        match r {
            Ok(p) => {
                &&& payload@ is Obj
                &&& ov(p.output_text) == out_text_of(payload@)
                &&& fc_views(p.function_calls@) == fc_fold(output_of(payload@))
                &&& views_of(p.history_items@) == hist_fold(output_of(payload@))
                &&& p.reasoning@.map_values(|s: String| s@) == reas_fold(output_of(payload@))
                &&& ov(p.finish_reason) == finish_reason_of(payload@)
                &&& ov(p.response_status) == status_of(payload@)
                &&& ov(p.response_incomplete_reason) == incomplete_reason_of(payload@)
                &&& ov(p.response_id) == response_id_of(payload@)
                &&& p.usage.input_tokens == usage_of(payload@).0
                &&& p.usage.output_tokens == usage_of(payload@).1
                &&& p.usage.total_tokens == usage_of(payload@).2
            },
            Err(_) => !(payload@ is Obj),
        },
{
    if !payload.is_object() {
        return Err(
            ModelError::ParsePayload(lit("responses payload must be an object")),
        );
    }
    let mut output_text: Option<String> = match payload.str_field("output_text") {
        Some(s) => Some(s.clone()),
        None => None,
    };
    let response_status = norm_field(payload, "status");
    let response_incomplete_reason: Option<String> = match payload.get("incomplete_details") {
        Some(d) => {
            if d.is_object() {
                norm_field(d, "reason")
            } else {
                None
            }
        },
        None => None,
    };
    let response_id = norm_field(payload, "id");
    let usage: ParsedUsage = match payload.get("usage") {
        Some(u) => {
            if u.is_object() {
                ParsedUsage {
                    input_tokens: u64_field(u, "input_tokens"),
                    output_tokens: u64_field(u, "output_tokens"),
                    total_tokens: u64_field(u, "total_tokens"),
                }
            } else {
                ParsedUsage { input_tokens: None, output_tokens: None, total_tokens: None }
            }
        },
        None => ParsedUsage { input_tokens: None, output_tokens: None, total_tokens: None },
    };
    let explicit_finish = norm_field(payload, "finish_reason");

    let empty_items: Vec<JsonValue> = Vec::new();
    let items: &Vec<JsonValue> = match payload.get("output") {
        Some(o) => match o.as_array() {
            Some(arr) => arr,
            None => &empty_items,
        },
        None => &empty_items,
    };
    proof {
        lemma_views_of(items@);
        lemma_views_of(empty_items@);
        assert(views_of(items@) == output_of(payload@));
    }
    let ghost out = views_of(items@);
    let mut function_calls: Vec<FunctionCallItem> = Vec::new();
    let mut history_items: Vec<JsonValue> = Vec::new();
    let mut reasoning: Vec<String> = Vec::new();
    let mut i: usize = 0;
    proof {
        assert(out.subrange(0, 0) =~= Seq::<Json>::empty());
        assert(fc_views(function_calls@) =~= fc_fold(out.subrange(0, 0)));
        assert(views_of(history_items@) =~= hist_fold(out.subrange(0, 0)));
        assert(reasoning@.map_values(|s: String| s@) =~= reas_fold(out.subrange(0, 0)));
        assert(ov(output_text) == out_text_fold(
            jstr_field(payload@, "output_text"@),
            out.subrange(0, 0),
        ));
    }
    while i < items.len()
        invariant
            i <= items@.len(),
            out == views_of(items@),
            out.len() == items@.len(),
            fc_views(function_calls@) == fc_fold(out.subrange(0, i as int)),
            views_of(history_items@) == hist_fold(out.subrange(0, i as int)),
            reasoning@.map_values(|s: String| s@) == reas_fold(out.subrange(0, i as int)),
            ov(output_text) == out_text_fold(
                jstr_field(payload@, "output_text"@),
                out.subrange(0, i as int),
            ),
        decreases items@.len() - i,
    {
        proof {
            type_literals_distinct();
            assert(out.subrange(0, i + 1) =~= out.subrange(0, i as int).push(out[i as int]));
            assert(out.subrange(0, i + 1).drop_last() =~= out.subrange(0, i as int));
            assert(out[i as int] == items@[i as int]@);
        }
        let item = &items[i];
        let item_type: String = match item.str_field("type") {
            Some(t) => t.clone(),
            None => String::new(),
        };
        proof {
            assert(item_type@ == type_of(out[i as int]));
        }
        if is_api_relevant_output_item(item_type.as_str()) {
            let ghost prev_vec = history_items@;
            let ghost prev = views_of(history_items@);
            let c = json_clone(item);
            history_items.push(c);
            proof {
                lemma_views_of(prev_vec);
                lemma_views_of(history_items@);
                assert(views_of(history_items@) =~= prev.push(out[i as int]));
            }
        }
        if crate::text::str_eq(item_type.as_str(), "function_call") {
            match parse_function_call_item(item) {
                Some(fc) => {
                    let ghost prev = fc_views(function_calls@);
                    function_calls.push(fc);
                    proof {
                        assert(fc_views(function_calls@) =~= prev.push(
                            parse_fc_spec(out[i as int])->0,
                        ));
                    }
                },
                None => {},
            }
        } else if crate::text::str_eq(item_type.as_str(), "message") {
            if output_text.is_none() {
                output_text = parse_output_text_from_message(item);
            }
        } else if crate::text::str_eq(item_type.as_str(), "reasoning") {
            match parse_reasoning_text(item) {
                Some(t) => {
                    let ghost prev = reasoning@.map_values(|s: String| s@);
                    reasoning.push(t);
                    proof {
                        assert(reasoning@.map_values(|s: String| s@) =~= prev.push(
                            reasoning_text_of(out[i as int])->0,
                        ));
                    }
                },
                None => {},
            }
        }
        i = i + 1;
    }
    proof {
        assert(out.subrange(0, out.len() as int) =~= out);
    }

    let has_text: bool = match &output_text {
        Some(t) => {
            let tt = trim_str(t.as_str());
            !tt.as_str().is_empty()
        },
        None => false,
    };
    let finish_reason: Option<String> = match explicit_finish {
        Some(f) => Some(f),
        None => {
            if function_calls.len() > 0 {
                proof {
                    assert(fc_fold(output_of(payload@)).len() == fc_views(
                        function_calls@,
                    ).len());
                }
                Some(lit("tool_calls"))
            } else if has_text {
                Some(lit("stop"))
            } else {
                response_incomplete_reason.clone()
            }
        },
    };

    Ok(
        ParsedResponse {
            output_text,
            function_calls,
            history_items,
            reasoning,
            finish_reason,
            response_status,
            response_incomplete_reason,
            response_id,
            usage,
        },
    )
}


// ---------------------------------------------------------------------------
// The SSE stream.
// ---------------------------------------------------------------------------

/// Windows-style line ends become plain newlines.
pub open spec fn norm_crlf_from(s: Seq<char>, i: int) -> Seq<char>
    decreases s.len() + 1 - i,
{
    if i < 0 || i >= s.len() {
        Seq::empty()
    } else if s[i] == '\r' && i + 1 < s.len() && s[i + 1] == '\n' {
        seq!['\n'] + norm_crlf_from(s, i + 2)
    } else {
        seq![s[i]] + norm_crlf_from(s, i + 1)
    }
}

pub open spec fn norm_crlf(s: Seq<char>) -> Seq<char> {
    norm_crlf_from(s, 0)
}

#[verifier::loop_isolation(false)]
fn normalize_crlf(v: &Vec<char>) -> (r: Vec<char>)
    ensures
        r@ == norm_crlf(v@),
{
    let mut out: Vec<char> = Vec::new();
    let mut i: usize = 0;
    while i < v.len()
        invariant
            i <= v@.len(),
            out@ + norm_crlf_from(v@, i as int) == norm_crlf(v@),
        decreases v@.len() - i,
    {
        if v[i] == '\r' && i + 1 < v.len() && v[i + 1] == '\n' {
            let ghost prev = out@;
            out.push('\n');
            proof {
                assert(norm_crlf_from(v@, i as int) == seq!['\n'] + norm_crlf_from(v@, i + 2));
                assert(out@ + norm_crlf_from(v@, i + 2) =~= prev + norm_crlf_from(v@, i as int));
            }
            i = i + 2;
        } else {
            let c = v[i];
            let ghost prev = out@;
            out.push(c);
            proof {
                assert(norm_crlf_from(v@, i as int) == seq![v@[i as int]] + norm_crlf_from(
                    v@,
                    i + 1,
                ));
                assert(out@ + norm_crlf_from(v@, i + 1) =~= prev + norm_crlf_from(v@, i as int));
            }
            i = i + 1;
        }
    }
    proof {
        assert(norm_crlf_from(v@, i as int) == Seq::<char>::empty());
        assert(out@ + norm_crlf_from(v@, i as int) =~= out@);
    }
    out
}

/// The blank-line-separated chunks of the normalized stream.
pub open spec fn split2_from(s: Seq<char>, i: int, cur: Seq<char>, acc: Seq<Seq<char>>) -> Seq<
    Seq<char>,
>
    decreases s.len() + 1 - i,
{
    if i < 0 || i >= s.len() {
        acc.push(cur)
    } else if i + 1 < s.len() && s[i] == '\n' && s[i + 1] == '\n' {
        split2_from(s, i + 2, Seq::empty(), acc.push(cur))
    } else {
        split2_from(s, i + 1, cur.push(s[i]), acc)
    }
}

pub open spec fn sse_chunks(s: Seq<char>) -> Seq<Seq<char>> {
    split2_from(s, 0, Seq::empty(), Seq::empty())
}

#[verifier::loop_isolation(false)]
fn split_chunks(v: &Vec<char>) -> (r: Vec<Vec<char>>)
    ensures
        crate::text::char_views(r@) == sse_chunks(v@),
{
    let mut acc: Vec<Vec<char>> = Vec::new();
    let mut cur: Vec<char> = Vec::new();
    let mut i: usize = 0;
    proof {
        assert(crate::text::char_views(acc@) =~= Seq::<Seq<char>>::empty());
        assert(cur@ =~= Seq::<char>::empty());
    }
    while i < v.len()
        invariant
            i <= v@.len(),
            sse_chunks(v@) == split2_from(v@, i as int, cur@, crate::text::char_views(acc@)),
        decreases v@.len() - i,
    {
        if i + 1 < v.len() && v[i] == '\n' && v[i + 1] == '\n' {
            let ghost prev = crate::text::char_views(acc@);
            acc.push(cur);
            cur = Vec::new();
            proof {
                assert(crate::text::char_views(acc@) =~= prev.push(acc@.last()@));
                assert(cur@ =~= Seq::<char>::empty());
            }
            i = i + 2;
        } else {
            cur.push(v[i]);
            i = i + 1;
        }
    }
    let ghost prev = crate::text::char_views(acc@);
    let ghost last_cur = cur@;
    acc.push(cur);
    proof {
        assert(crate::text::char_views(acc@) =~= prev.push(last_cur));
    }
    acc
}

/// The `data:` payload lines of one chunk, in order, each with its leading
/// whitespace dropped.
pub open spec fn data_fold(lines: Seq<Seq<char>>) -> Seq<Seq<char>>
    decreases lines.len(),
{
    if lines.len() == 0 {
        Seq::empty()
    } else {
        let rest = data_fold(lines.drop_last());
        if crate::text::is_prefix(lines.last(), "data:"@) {
            rest.push(
                crate::text::trim_front(lines.last().skip("data:"@.len() as int)),
            )
        } else {
            rest
        }
    }
}

/// The last non-empty `event:` name of one chunk.
pub open spec fn event_fold(lines: Seq<Seq<char>>) -> Option<Seq<char>>
    decreases lines.len(),
{
    if lines.len() == 0 {
        None
    } else {
        let prior = event_fold(lines.drop_last());
        if crate::text::is_prefix(lines.last(), "event:"@) && trim_spec(
            lines.last().skip("event:"@.len() as int),
        ).len() > 0 {
            Some(trim_spec(lines.last().skip("event:"@.len() as int)))
        } else {
            prior
        }
    }
}

/// What the stream has produced so far, or how it ended early.
pub enum SseState {
    Scan { output_items: Seq<Json>, completed: Option<Json> },
    ParseFailure,
    StreamFailure(Seq<char>),
}

/// The failure message of a `response.failed` event.
pub open spec fn failed_message_of(v: Json) -> Seq<char> {
    let nested = match jget(v, "response"@) {
        Some(resp) => if resp is Obj {
            match jget(resp, "error"@) {
                Some(e) => if e is Obj {
                    normalized_opt(jstr_field(e, "message"@))
                } else {
                    None
                },
                None => None,
            }
        } else {
            None
        },
        None => None,
    };
    match nested {
        Some(m) => m,
        None => {
            let direct = match jget(v, "error"@) {
                Some(e) => if e is Obj {
                    normalized_opt(jstr_field(e, "message"@))
                } else {
                    None
                },
                None => None,
            };
            match direct {
                Some(m) => m,
                None => "responses stream returned response.failed"@,
            }
        },
    }
}

/// The type that classifies one SSE event: the payload's own, else the
/// `event:` name, else nothing.
pub open spec fn sse_type_of(v: Json, event_name: Option<Seq<char>>) -> Seq<char> {
    match jstr_field(v, "type"@) {
        Some(t) => t,
        None => match event_name {
            Some(n) => n,
            None => Seq::empty(),
        },
    }
}

/// How one chunk advances the stream state.
pub open spec fn sse_step(st: SseState, chunk: Seq<char>) -> SseState {
    match st {
        SseState::Scan { output_items, completed } => {
            let lines = crate::text::lines_of(chunk);
            let dl = data_fold(lines);
            if dl.len() == 0 {
                st
            } else {
                let data = crate::text::join_with(dl, seq!['\n']);
                if trim_spec(data) == "[DONE]"@ {
                    st
                } else {
                    match crate::json::parsed_json(data) {
                        Some(v) => {
                            let ty = sse_type_of(v@, event_fold(lines));
                            if ty == "response.output_item.done"@ {
                                match jget(v@, "item"@) {
                                    Some(item) => SseState::Scan {
                                        output_items: output_items.push(item),
                                        completed,
                                    },
                                    None => st,
                                }
                            } else if ty == "response.failed"@ {
                                SseState::StreamFailure(failed_message_of(v@))
                            } else if ty == "response.completed"@ {
                                match jget(v@, "response"@) {
                                    Some(resp) => SseState::Scan {
                                        output_items,
                                        completed: Some(resp),
                                    },
                                    None => st,
                                }
                            } else {
                                st
                            }
                        },
                        None => SseState::ParseFailure,
                    }
                }
            }
        },
        _ => st,
    }
}

pub open spec fn sse_fold(chunks: Seq<Seq<char>>) -> SseState
    decreases chunks.len(),
{
    if chunks.len() == 0 {
        SseState::Scan { output_items: Seq::empty(), completed: None }
    } else {
        sse_step(sse_fold(chunks.drop_last()), chunks.last())
    }
}

pub open spec fn sse_state_of(raw: Seq<char>) -> SseState {
    sse_fold(sse_chunks(norm_crlf(raw)))
}

/// A failed state absorbs the rest of the stream.
proof fn lemma_sse_fold_absorb(chunks: Seq<Seq<char>>, i: int)
    requires
        0 <= i <= chunks.len(),
        !(sse_fold(chunks.subrange(0, i)) is Scan),
    ensures
        sse_fold(chunks) == sse_fold(chunks.subrange(0, i)),
    decreases chunks.len() - i,
{
    if i < chunks.len() {
        assert(chunks.subrange(0, i + 1).drop_last() =~= chunks.subrange(0, i));
        assert(chunks.subrange(0, i + 1).last() == chunks[i]);
        lemma_sse_fold_absorb(chunks, i + 1);
    } else {
        assert(chunks.subrange(0, i) =~= chunks);
    }
}

/// Replacing or adding the `output` field of a completed response.
pub open spec fn obj_upsert(fields: Seq<(Seq<char>, Json)>, key: Seq<char>, val: Json) -> Seq<
    (Seq<char>, Json),
>
    decreases fields.len(),
{
    if fields.len() == 0 {
        seq![(key, val)]
    } else if fields[0].0 == key {
        seq![(key, val)] + fields.drop_first()
    } else {
        seq![fields[0]] + obj_upsert(fields.drop_first(), key, val)
    }
}

/// The response the stream yields: the completed payload, its `output`
/// replaced by the accumulated items when any arrived.
pub open spec fn final_response_spec(items: Seq<Json>, resp: Json) -> Json {
    if items.len() == 0 {
        resp
    } else {
        match resp {
            Json::Obj(fields) => Json::Obj(obj_upsert(fields, "output"@, Json::Arr(items))),
            _ => Json::Obj(seq![("output"@, Json::Arr(items))]),
        }
    }
}


proof fn lemma_obj_upsert_at(fields: Seq<(Seq<char>, Json)>, key: Seq<char>, val: Json, j: int)
    requires
        0 <= j < fields.len(),
        forall|k: int| 0 <= k < j ==> (#[trigger] fields[k]).0 != key,
        fields[j].0 == key,
    ensures
        obj_upsert(fields, key, val) == fields.take(j) + seq![(key, val)] + fields.skip(j + 1),
    decreases j,
{
    if j == 0 {
        assert(fields.take(0) =~= Seq::<(Seq<char>, Json)>::empty());
        assert(fields.skip(1) =~= fields.drop_first());
        assert(fields.take(0) + seq![(key, val)] + fields.skip(1) =~= seq![(key, val)]
            + fields.drop_first());
    } else {
        assert forall|k: int| 0 <= k < j - 1 implies (#[trigger] fields.drop_first()[k]).0
            != key by {
            assert(fields.drop_first()[k] == fields[k + 1]);
        }
        assert(fields.drop_first()[j - 1] == fields[j]);
        lemma_obj_upsert_at(fields.drop_first(), key, val, j - 1);
        assert(fields.drop_first().take(j - 1) =~= fields.take(j).drop_first());
        assert(fields.drop_first().skip(j) =~= fields.skip(j + 1));
        assert(seq![fields[0]] + (fields.take(j).drop_first() + seq![(key, val)] + fields.skip(
            j + 1,
        )) =~= fields.take(j) + seq![(key, val)] + fields.skip(j + 1));
    }
}

proof fn lemma_obj_upsert_none(fields: Seq<(Seq<char>, Json)>, key: Seq<char>, val: Json)
    requires
        forall|k: int| 0 <= k < fields.len() ==> (#[trigger] fields[k]).0 != key,
    ensures
        obj_upsert(fields, key, val) == fields.push((key, val)),
    decreases fields.len(),
{
    if fields.len() == 0 {
        assert(obj_upsert(fields, key, val) =~= fields.push((key, val)));
    } else {
        assert forall|k: int| 0 <= k < fields.drop_first().len() implies (
        #[trigger] fields.drop_first()[k]).0 != key by {
            assert(fields.drop_first()[k] == fields[k + 1]);
        }
        lemma_obj_upsert_none(fields.drop_first(), key, val);
        assert(seq![fields[0]] + fields.drop_first().push((key, val)) =~= fields.push(
            (key, val),
        ));
    }
}

/// Replaces the first `output` field of an object, or appends one.
#[verifier::loop_isolation(false)]
fn set_output_field(fields: Vec<(String, JsonValue)>, items: Vec<JsonValue>) -> (r: JsonValue)
    ensures
        r@ == Json::Obj(
            obj_upsert(field_views_of(fields@), "output"@, Json::Arr(views_of(items@))),
        ),
{
    let ghost gf = field_views_of(fields@);
    let ghost val = Json::Arr(views_of(items@));
    proof {
        lemma_field_views_of(fields@);
    }
    let mut found: Option<usize> = None;
    let mut i: usize = 0;
    while i < fields.len()
        invariant
            i <= fields@.len(),
            gf == field_views_of(fields@),
            gf.len() == fields@.len(),
            match found {
                Some(j) => {
                    &&& 0 <= j < i
                    &&& gf[j as int].0 == "output"@
                    &&& forall|k: int| 0 <= k < j ==> (#[trigger] gf[k]).0 != "output"@
                },
                None => forall|k: int| 0 <= k < i ==> (#[trigger] gf[k]).0 != "output"@,
            },
        decreases fields@.len() - i,
    {
        if found.is_none() && crate::text::str_eq(fields[i].0.as_str(), "output") {
            found = Some(i);
        }
        i = i + 1;
    }
    let arr = JsonValue::Arr(items);
    let mut out: Vec<(String, JsonValue)> = Vec::new();
    match found {
        Some(j) => {
            proof {
                lemma_obj_upsert_at(gf, "output"@, val, j as int);
            }
            let mut k: usize = 0;
            while k < fields.len()
                invariant
                    k <= fields@.len(),
                    gf == field_views_of(fields@),
                    gf.len() == fields@.len(),
                    j < fields@.len(),
                    arr@ == val,
                    field_views_of(out@) == (if k <= j {
                        gf.take(k as int)
                    } else {
                        gf.take(j as int) + seq![("output"@, val)] + gf.subrange(
                            j + 1,
                            k as int,
                        )
                    }),
                decreases fields@.len() - k,
            {
                let ghost prev_vec = out@;
                if k == j {
                    out.push((lit("output"), json_clone(&arr)));
                } else {
                    out.push((fields[k].0.clone(), json_clone(&fields[k].1)));
                }
                proof {
                    lemma_field_views_of(prev_vec);
                    lemma_field_views_of(out@);
                    if k < j {
                        assert(field_views_of(out@) =~= gf.take(k + 1));
                    } else if k == j {
                        assert(gf.subrange(j + 1, j + 1) =~= Seq::<(Seq<char>, Json)>::empty());
                        assert(field_views_of(out@) =~= gf.take(j as int) + seq![
                            ("output"@, val),
                        ] + gf.subrange(j + 1, j + 1));
                    } else {
                        let target_prev = gf.take(j as int) + seq![("output"@, val)]
                            + gf.subrange(j + 1, k as int);
                        assert(field_views_of(prev_vec) == target_prev);
                        assert(field_views_of(out@) =~= target_prev.push(gf[k as int]));
                        assert(target_prev.push(gf[k as int]) =~= gf.take(j as int) + seq![
                            ("output"@, val),
                        ] + gf.subrange(j + 1, k + 1));
                    }
                }
                k = k + 1;
            }
            proof {
                assert(gf.subrange(j + 1, gf.len() as int) =~= gf.skip(j + 1));
                assert(field_views_of(out@) =~= gf.take(j as int) + seq![("output"@, val)]
                    + gf.skip(j + 1));
            }
        },
        None => {
            proof {
                lemma_obj_upsert_none(gf, "output"@, val);
            }
            let mut k: usize = 0;
            while k < fields.len()
                invariant
                    k <= fields@.len(),
                    gf == field_views_of(fields@),
                    gf.len() == fields@.len(),
                    arr@ == val,
                    field_views_of(out@) == gf.take(k as int),
                decreases fields@.len() - k,
            {
                let ghost prev_vec = out@;
                out.push((fields[k].0.clone(), json_clone(&fields[k].1)));
                proof {
                    lemma_field_views_of(prev_vec);
                    lemma_field_views_of(out@);
                    assert(field_views_of(out@) =~= gf.take(k + 1));
                }
                k = k + 1;
            }
            let ghost prev_vec = out@;
            out.push((lit("output"), arr));
            proof {
                lemma_field_views_of(prev_vec);
                lemma_field_views_of(out@);
                assert(gf.take(gf.len() as int) =~= gf);
                assert(field_views_of(out@) =~= gf.push(("output"@, val)));
            }
        },
    }
    let ghost go = out@;
    let r = JsonValue::Obj(out);
    proof {
        assert(field_views_of(go) == obj_upsert(gf, "output"@, val));
    }
    r
}

fn failed_message_exec(v: &JsonValue) -> (r: String)
    ensures
        r@ == failed_message_of(v@),
{
    match v.get("response") {
        Some(resp) => {
            if resp.is_object() {
                match resp.get("error") {
                    Some(e) => {
                        if e.is_object() {
                            match norm_field(e, "message") {
                                Some(m) => {
                                    return m;
                                },
                                None => {},
                            }
                        }
                    },
                    None => {},
                }
            }
        },
        None => {},
    }
    match v.get("error") {
        Some(e) => {
            if e.is_object() {
                match norm_field(e, "message") {
                    Some(m) => {
                        return m;
                    },
                    None => {},
                }
            }
        },
        None => {},
    }
    lit("responses stream returned response.failed")
}

/// The four stream event names the fold distinguishes are pairwise distinct
/// where it matters.
proof fn sse_literals_distinct()
    ensures
        "response.output_item.done"@ != "response.failed"@,
        "response.output_item.done"@ != "response.completed"@,
        "response.failed"@ != "response.completed"@,
{
    reveal_strlit("response.output_item.done");
    reveal_strlit("response.failed");
    reveal_strlit("response.completed");
    assert("response.output_item.done"@.len() == 25);
    assert("response.failed"@.len() == 15);
    assert("response.completed"@.len() == 18);
}

/// Splits the body on blank lines, follows `event:` and `data:` lines, and
/// returns the completed response, its output replaced by the streamed
/// items; a failed stream or unreadable data ends the round instead.
#[verifier::loop_isolation(false)]
#[verifier::rlimit(100)]
pub fn parse_sse_response(raw: &str) -> (r: Result<JsonValue, ModelError>)
    ensures
        ({
            let st = sse_state_of(raw@);
            match r {
                Ok(v) => match st {
                    SseState::Scan { output_items, completed } => completed is Some && v@
                        == final_response_spec(output_items, completed->0),
                    _ => false,
                },
                Err(e) => match st {
                    SseState::Scan { output_items, completed } => completed is None && e
                        is MissingStreamResponse,
                    SseState::ParseFailure => e is ParsePayload,
                    SseState::StreamFailure(m) => e matches ModelError::StreamFailed {
                        message,
                    } && message@ == m,
                },
            }
        }),
{
    let tv = chars_of(raw);
    let norm = normalize_crlf(&tv);
    let chunks = split_chunks(&norm);
    let ghost cs = crate::text::char_views(chunks@);
    let mut output_items: Vec<JsonValue> = Vec::new();
    let mut completed: Option<JsonValue> = None;
    let mut c: usize = 0;
    proof {
        assert(cs.subrange(0, 0) =~= Seq::<Seq<char>>::empty());
        lemma_views_of(output_items@);
        assert(sse_fold(cs.subrange(0, 0)) == (SseState::Scan {
            output_items: views_of(output_items@),
            completed: None,
        }));
    }
    while c < chunks.len()
        invariant
            c <= chunks@.len(),
            cs == crate::text::char_views(chunks@),
            cs.len() == chunks@.len(),
            sse_fold(cs.subrange(0, c as int)) == (SseState::Scan {
                output_items: views_of(output_items@),
                completed: match completed {
                    Some(ref x) => Some(x@),
                    None => None,
                },
            }),
        decreases chunks@.len() - c,
    {
        proof {
            sse_literals_distinct();
            assert(cs.subrange(0, c + 1) =~= cs.subrange(0, c as int).push(cs[c as int]));
            assert(cs.subrange(0, c + 1).drop_last() =~= cs.subrange(0, c as int));
            assert(cs[c as int] == chunks@[c as int]@);
        }
        let lines = crate::text::lines_of_chars(&chunks[c]);
        let ghost lv = crate::text::char_views(lines@);
        let data_pat = chars_of("data:");
        let event_pat = chars_of("event:");
        let mut data_lines: Vec<Vec<char>> = Vec::new();
        let mut event_name: Option<String> = None;
        let mut li: usize = 0;
        proof {
            assert(lv.subrange(0, 0) =~= Seq::<Seq<char>>::empty());
            assert(crate::text::char_views(data_lines@) =~= data_fold(lv.subrange(0, 0)));
        }
        while li < lines.len()
            invariant
                li <= lines@.len(),
                lv == crate::text::char_views(lines@),
                lv.len() == lines@.len(),
                data_pat@ == "data:"@,
                event_pat@ == "event:"@,
                crate::text::char_views(data_lines@) == data_fold(lv.subrange(0, li as int)),
                ov(event_name) == event_fold(lv.subrange(0, li as int)),
            decreases lines@.len() - li,
        {
            proof {
                assert(lv.subrange(0, li + 1) =~= lv.subrange(0, li as int).push(lv[li as int]));
                assert(lv.subrange(0, li + 1).drop_last() =~= lv.subrange(0, li as int));
                assert(lv[li as int] == lines@[li as int]@);
                reveal_strlit("event:");
                reveal_strlit("data:");
                assert("event:"@.len() == 6);
                assert("data:"@.len() == 5);
                assert(crate::text::is_prefix(lv[li as int], "event:"@) ==> lv[li as int][0]
                    == 'e') by {
                    if crate::text::is_prefix(lv[li as int], "event:"@) {
                        assert(lv[li as int].subrange(0, 6)[0] == lv[li as int][0]);
                    }
                }
                assert(crate::text::is_prefix(lv[li as int], "data:"@) ==> lv[li as int][0]
                    == 'd') by {
                    if crate::text::is_prefix(lv[li as int], "data:"@) {
                        assert(lv[li as int].subrange(0, 5)[0] == lv[li as int][0]);
                    }
                }
            }
            let line = &lines[li];
            if crate::text::starts_with_chars(line, &event_pat) {
                let rest = crate::text::subvec_chars(line, event_pat.len(), line.len());
                proof {
                    assert(rest@ =~= lv[li as int].skip("event:"@.len() as int));
                }
                let trimmed = crate::text::trim_chars(&rest);
                if trimmed.len() > 0 {
                    event_name = Some(string_from_chars(&trimmed));
                }
            } else if crate::text::starts_with_chars(line, &data_pat) {
                let rest = crate::text::subvec_chars(line, data_pat.len(), line.len());
                proof {
                    assert(rest@ =~= lv[li as int].skip("data:"@.len() as int));
                }
                let stripped = crate::text::trim_front_chars(&rest);
                let ghost prev = crate::text::char_views(data_lines@);
                data_lines.push(stripped);
                proof {
                    assert(crate::text::char_views(data_lines@) =~= prev.push(
                        crate::text::trim_front(lv[li as int].skip("data:"@.len() as int)),
                    ));
                }
            }
            li = li + 1;
        }
        proof {
            assert(lv.subrange(0, lv.len() as int) =~= lv);
        }
        if data_lines.len() == 0 {
            c = c + 1;
            continue;
        }
        let mut sep: Vec<char> = Vec::new();
        sep.push('\n');
        proof {
            assert(sep@ =~= seq!['\n']);
        }
        let joined = crate::text::join_chars(&data_lines, &sep);
        let joined_str = string_from_chars(&joined);
        let joined_trim = trim_str(joined_str.as_str());
        if crate::text::str_eq(joined_trim.as_str(), "[DONE]") {
            c = c + 1;
            continue;
        }
        let parsed = crate::json::parse_json_text(joined_str.as_str());
        let v = match parsed {
            Some(v) => v,
            None => {
                proof {
                    lemma_sse_fold_absorb(cs, c + 1);
                }
                return Err(ModelError::ParsePayload(lit("unreadable stream data")));
            },
        };
        let ty: String = match v.str_field("type") {
            Some(t) => t.clone(),
            None => match &event_name {
                Some(n) => n.clone(),
                None => String::new(),
            },
        };
        proof {
            assert(ty@ == sse_type_of(v@, event_fold(lv)));
        }
        if crate::text::str_eq(ty.as_str(), "response.output_item.done") {
            match v.get("item") {
                Some(item) => {
                    let ghost prev_vec = output_items@;
                    let ghost prev = views_of(output_items@);
                    let ci = json_clone(item);
                    output_items.push(ci);
                    proof {
                        lemma_views_of(prev_vec);
                        lemma_views_of(output_items@);
                        assert(views_of(output_items@) =~= prev.push(jget(v@, "item"@)->0));
                    }
                },
                None => {},
            }
        } else if crate::text::str_eq(ty.as_str(), "response.failed") {
            let message = failed_message_exec(&v);
            proof {
                lemma_sse_fold_absorb(cs, c + 1);
            }
            return Err(ModelError::StreamFailed { message });
        } else if crate::text::str_eq(ty.as_str(), "response.completed") {
            match v.get("response") {
                Some(resp) => {
                    completed = Some(json_clone(resp));
                },
                None => {},
            }
        }
        c = c + 1;
    }
    proof {
        assert(cs.subrange(0, cs.len() as int) =~= cs);
    }
    let resp = match completed {
        Some(resp) => resp,
        None => {
            return Err(ModelError::MissingStreamResponse);
        },
    };
    if output_items.len() == 0 {
        proof {
            lemma_views_of(output_items@);
        }
        return Ok(resp);
    }
    proof {
        lemma_views_of(output_items@);
    }
    match resp {
        JsonValue::Obj(fields) => Ok(set_output_field(fields, output_items)),
        _ => {
            let ghost its = views_of(output_items@);
            let mut fields: Vec<(String, JsonValue)> = Vec::new();
            fields.push((lit("output"), JsonValue::Arr(output_items)));
            let ghost gfo = fields@;
            let r = JsonValue::Obj(fields);
            proof {
                lemma_field_views_of(gfo);
                assert(field_views_of(gfo) =~= seq![("output"@, Json::Arr(its))]);
            }
            Ok(r)
        },
    }
}


/// Printing then reading a number gives it back.
pub proof fn lemma_dec_of_value(n: nat)
    ensures
        dec_val(crate::text::dec_of(n)) == n,
    decreases n,
{
    if n < 10 {
        let s = seq![crate::text::digit_char(n)];
        assert(crate::text::dec_of(n) == s);
        assert(s.last() == crate::text::digit_char(n));
        assert(s.drop_last() =~= Seq::<char>::empty());
        assert(dec_val(Seq::<char>::empty()) == 0);
        assert(dec_val(s) == digit_val(crate::text::digit_char(n)));
        assert(digit_val(crate::text::digit_char(n)) == n);
    } else {
        lemma_dec_of_value(n / 10);
        let s = crate::text::dec_of(n / 10).push(crate::text::digit_char(n % 10));
        assert(crate::text::dec_of(n) == s);
        assert(s.drop_last() =~= crate::text::dec_of(n / 10));
        assert(s.last() == crate::text::digit_char(n % 10));
        assert(digit_val(crate::text::digit_char(n % 10)) == n % 10);
        assert(dec_val(s) == (n / 10) * 10 + n % 10);
        assert((n / 10) * 10 + n % 10 == n);
    }
}

/// A decimal rendering is non-empty and all digits.
pub proof fn lemma_dec_of_digits(n: nat)
    ensures
        crate::text::dec_of(n).len() >= 1,
        forall|i: int|
            0 <= i < crate::text::dec_of(n).len() ==> is_digit(#[trigger] crate::text::dec_of(n)[i]),
    decreases n,
{
    if n < 10 {
    } else {
        lemma_dec_of_digits(n / 10);
        assert forall|i: int|
            0 <= i < crate::text::dec_of(n).len() implies is_digit(
            #[trigger] crate::text::dec_of(n)[i],
        ) by {
            if i < crate::text::dec_of(n).len() - 1 {
                assert(crate::text::dec_of(n)[i] == crate::text::dec_of(n / 10)[i]);
            }
        }
    }
}

} // verus!
