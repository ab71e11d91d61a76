//! The context ledger: an append-only, per-(session, agent, mode) event log
//! with a focus slot, a compact-memory cache, and permission-gated querying.
//!
//! The ledger itself holds its records as plain values; reading and writing
//! the jsonl files that persist them is the caller's part. Everything that
//! decides — validation, identifiers, filtering, permissions, truncation,
//! sanitization — is verified here.

use vstd::prelude::*;
use crate::text::char_is_whitespace;
use crate::text::char_is_alphanumeric;
use crate::text::lower_of;
use crate::text::lowercase;
use crate::text::seq_contains;
use crate::text::trim_spec;
use crate::text::trim_chars;
use crate::text::trim_str;
use crate::text::chars_of;
use crate::text::string_from_chars;
use crate::text::str_contains;
use crate::text::lines_of;
use crate::text::lines_of_chars;
use crate::text::join_with;
use crate::text::char_views;
use crate::text::is_alnum;
use crate::text::is_wspace;
use crate::text::subvec_chars;
use crate::json::JsonValue;
use crate::json::Json;
use crate::json::json_clone;
use crate::json::json_to_text;
use crate::json::json_text;
use crate::json::jget;
use crate::json::jstr_field;
use crate::json::jas_u64;
use crate::json::field_views_of;
use crate::json::views_of;
use crate::json::lemma_views_of;
use crate::json::lemma_obj_get_at;
use crate::json::lemma_obj_get_none;
use crate::json::lemma_field_views_of;
use crate::json::parsed_json;
use crate::json::parse_json_text;
use vstd::multiset::Multiset;

verus! {

// ---------------------------------------------------------------------------
// Directory-component sanitization.
// ---------------------------------------------------------------------------

pub open spec fn sanitize_char(c: char) -> char {
    if c == '\\' || c == '/' || c == ':' {
        '_'
    } else {
        c
    }
}

/// A path component: trimmed, with separators and colons replaced.
pub open spec fn sanitize_spec(s: Seq<char>) -> Seq<char> {
    trim_spec(s).map_values(|c: char| sanitize_char(c))
}

#[verifier::loop_isolation(false)]
pub fn sanitize_component(raw: &str) -> (r: String)
    ensures
        r@ == sanitize_spec(raw@),
{
    let v = chars_of(raw);
    let t = trim_chars(&v);
    let mut out: Vec<char> = Vec::new();
    let mut i: usize = 0;
    while i < t.len()
        invariant
            i <= t@.len(),
            out@ == t@.subrange(0, i as int).map_values(|c: char| sanitize_char(c)),
        decreases t@.len() - i,
    {
        let c = t[i];
        let sc: char = if c == '\\' || c == '/' || c == ':' {
            '_'
        } else {
            c
        };
        out.push(sc);
        proof {
            assert(t@.subrange(0, i + 1) =~= t@.subrange(0, i as int).push(t@[i as int]));
            assert(t@.subrange(0, i + 1).map_values(|c: char| sanitize_char(c)) =~= t@.subrange(
                0,
                i as int,
            ).map_values(|c: char| sanitize_char(c)).push(sanitize_char(t@[i as int])));
        }
        i = i + 1;
    }
    proof {
        assert(t@.subrange(0, t@.len() as int) =~= t@);
    }
    string_from_chars(&out)
}

// ---------------------------------------------------------------------------
// Prompt-control blocks.
// ---------------------------------------------------------------------------

/// Whether an already-lowercased text holds any prompt-control tag.
pub open spec fn has_prompt_tag(lowered: Seq<char>) -> bool {
    ||| seq_contains(lowered, "<developer_instructions>"@)
    ||| seq_contains(lowered, "<user_instructions>"@)
    ||| seq_contains(lowered, "<environment_context>"@)
    ||| seq_contains(lowered, "<turn_context>"@)
    ||| seq_contains(lowered, "<context_ledger_focus>"@)
    ||| seq_contains(lowered, "<system_message>"@)
}

/// Whether the text, lowercased, holds any prompt-control tag.
pub fn contains_prompt_like_block(text: &str) -> (r: bool)
    ensures
        r == has_prompt_tag(lower_of(text@)),
{
    let lowered = lowercase(text);
    let l = lowered.as_str();
    if str_contains(l, "<developer_instructions>") {
        return true;
    }
    if str_contains(l, "<user_instructions>") {
        return true;
    }
    if str_contains(l, "<environment_context>") {
        return true;
    }
    if str_contains(l, "<turn_context>") {
        return true;
    }
    if str_contains(l, "<context_ledger_focus>") {
        return true;
    }
    if str_contains(l, "<system_message>") {
        return true;
    }
    false
}

// ---------------------------------------------------------------------------
// Compact-summary sanitization.
// ---------------------------------------------------------------------------

/// The lines kept by summary sanitization: trimmed, non-empty, free of
/// prompt-control tags.
pub open spec fn kept_summary_lines(s: Seq<char>) -> Seq<Seq<char>> {
    lines_of(s).map_values(|l: Seq<char>| trim_spec(l)).filter(
        |l: Seq<char>| l.len() > 0 && !has_prompt_tag(lower_of(l)),
    )
}

pub open spec fn sanitize_summary_spec(s: Seq<char>) -> Seq<char> {
    join_with(kept_summary_lines(s), seq!['\n'])
}

/// Keeps only the trimmed lines that are neither empty nor prompt-like, and
/// joins them back with newlines.
#[verifier::loop_isolation(false)]
pub fn sanitize_compact_summary_text(text: &str) -> (r: String)
    ensures
        r@ == sanitize_summary_spec(text@),
{
    let v = chars_of(text);
    let lines = lines_of_chars(&v);
    let ghost mapped = lines_of(text@).map_values(|l: Seq<char>| trim_spec(l));
    let ghost pred = |l: Seq<char>| l.len() > 0 && !has_prompt_tag(lower_of(l));
    let mut kept: Vec<Vec<char>> = Vec::new();
    let mut i: usize = 0;
    proof {
        reveal(Seq::filter);
        assert(mapped.subrange(0, 0) =~= Seq::<Seq<char>>::empty());
        assert(char_views(kept@) =~= mapped.subrange(0, 0).filter(pred));
    }
    while i < lines.len()
        invariant
            i <= lines@.len(),
            char_views(lines@) == lines_of(text@),
            mapped == lines_of(text@).map_values(|l: Seq<char>| trim_spec(l)),
            char_views(kept@) == mapped.subrange(0, i as int).filter(pred),
        decreases lines@.len() - i,
    {
        let line = trim_chars(&lines[i]);
        let line_str = string_from_chars(&line);
        let keep = line.len() > 0 && !contains_prompt_like_block(line_str.as_str());
        proof {
            reveal(Seq::filter);
            assert(mapped.subrange(0, i + 1) =~= mapped.subrange(0, i as int).push(
                mapped[i as int]));
            assert(mapped.subrange(0, i + 1).drop_last() =~= mapped.subrange(0, i as int));
            assert(mapped[i as int] == trim_spec(lines_of(text@)[i as int]));
            assert(line@ == mapped[i as int]);
            assert(keep == pred(mapped[i as int]));
        }
        if keep {
            let ghost prev = char_views(kept@);
            kept.push(line);
            proof {
                assert(char_views(kept@) =~= prev.push(line@));
            }
        }
        proof {
            assert(char_views(kept@) =~= mapped.subrange(0, i + 1).filter(pred));
        }
        i = i + 1;
    }
    proof {
        assert(mapped.subrange(0, mapped.len() as int) =~= mapped);
    }
    let mut sep: Vec<char> = Vec::new();
    sep.push('\n');
    proof {
        assert(sep@ =~= seq!['\n']);
    }
    let joined = crate::text::join_chars(&kept, &sep);
    string_from_chars(&joined)
}

// ---------------------------------------------------------------------------
// Previews.
// ---------------------------------------------------------------------------

pub open spec fn nl_to_space(c: char) -> char {
    if c == '\n' {
        ' '
    } else {
        c
    }
}

/// A one-line preview: newlines become spaces, the text is trimmed, and at
/// most `max` characters are kept, with an ellipsis on overflow.
pub open spec fn preview_spec(s: Seq<char>, max: nat) -> Seq<char> {
    let n = trim_spec(s.map_values(|c: char| nl_to_space(c)));
    if n.len() <= max {
        n
    } else {
        n.take(max as int) + seq!['.', '.', '.']
    }
}

#[verifier::loop_isolation(false)]
pub fn build_preview(input: &str, max_chars: usize) -> (r: String)
    ensures
        r@ == preview_spec(input@, max_chars as nat),
{
    let v = chars_of(input);
    let mut flat: Vec<char> = Vec::new();
    let mut i: usize = 0;
    while i < v.len()
        invariant
            i <= v@.len(),
            flat@ == v@.subrange(0, i as int).map_values(|c: char| nl_to_space(c)),
        decreases v@.len() - i,
    {
        let c = v[i];
        let fc: char = if c == '\n' {
            ' '
        } else {
            c
        };
        flat.push(fc);
        proof {
            assert(v@.subrange(0, i + 1) =~= v@.subrange(0, i as int).push(v@[i as int]));
            assert(v@.subrange(0, i + 1).map_values(|c: char| nl_to_space(c)) =~= v@.subrange(
                0,
                i as int,
            ).map_values(|c: char| nl_to_space(c)).push(nl_to_space(v@[i as int])));
        }
        i = i + 1;
    }
    proof {
        assert(v@.subrange(0, v@.len() as int) =~= v@);
    }
    let trimmed = trim_chars(&flat);
    if trimmed.len() <= max_chars {
        return string_from_chars(&trimmed);
    }
    let mut out = subvec_chars(&trimmed, 0, max_chars);
    out.push('.');
    out.push('.');
    out.push('.');
    proof {
        assert(trimmed@.subrange(0, max_chars as int) =~= trimmed@.take(max_chars as int));
        assert(out@ =~= trimmed@.take(max_chars as int) + seq!['.', '.', '.']);
    }
    string_from_chars(&out)
}

// ---------------------------------------------------------------------------
// Bigram fuzzy matching.
// ---------------------------------------------------------------------------

/// The normalization that feeds the bigram windows: only alphanumeric and
/// whitespace characters survive, and the rest is lowercased.
pub open spec fn bigram_base(s: Seq<char>) -> Seq<char> {
    lower_of(s.filter(|c: char| char_is_alphanumeric(c) || char_is_whitespace(c)))
}

/// The distinct two-character windows of `b`, in order of first appearance,
/// skipping windows that are whitespace only.
pub open spec fn bigram_acc(b: Seq<char>, i: int, acc: Seq<(char, char)>) -> Seq<(char, char)>
    decreases b.len() - i,
{
    if i < 0 || i + 1 >= b.len() {
        acc
    } else {
        let p = (b[i], b[i + 1]);
        let acc2 = if (char_is_whitespace(p.0) && char_is_whitespace(p.1)) || acc.contains(p) {
            acc
        } else {
            acc.push(p)
        };
        bigram_acc(b, i + 1, acc2)
    }
}

pub open spec fn bigram_list(b: Seq<char>) -> Seq<(char, char)> {
    bigram_acc(b, 0, Seq::empty())
}

/// The fuzzy-match rule: both sides must yield bigrams, and at least 18% of
/// the query's distinct bigrams must appear among the text's.
pub open spec fn fuzzy_accepts_spec(text: Seq<char>, query: Seq<char>) -> bool {
    let tl = bigram_list(bigram_base(text));
    let ql = bigram_list(bigram_base(query));
    &&& tl.len() > 0
    &&& ql.len() > 0
    &&& 100 * ql.filter(|p: (char, char)| tl.contains(p)).len() >= 18 * ql.len()
}

fn pair_in(v: &Vec<(char, char)>, p: (char, char)) -> (r: bool)
    ensures
        r == v@.contains(p),
{
    let mut i: usize = 0;
    while i < v.len()
        invariant
            i <= v@.len(),
            forall|k: int| 0 <= k < i ==> v@[k] != p,
        decreases v@.len() - i,
    {
        if v[i].0 == p.0 && v[i].1 == p.1 {
            assert(v@[i as int] == p);
            return true;
        }
        i = i + 1;
    }
    assert(forall|k: int| 0 <= k < v@.len() ==> v@[k] != p);
    false
}

#[verifier::loop_isolation(false)]
fn bigrams_of(input: &str) -> (r: Vec<(char, char)>)
    ensures
        r@ == bigram_list(bigram_base(input@)),
{
    let v = chars_of(input);
    let ghost pred = |c: char| char_is_alphanumeric(c) || char_is_whitespace(c);
    let mut filtered: Vec<char> = Vec::new();
    let mut i: usize = 0;
    proof {
        reveal(Seq::filter);
        assert(v@.subrange(0, 0) =~= Seq::<char>::empty());
        assert(filtered@ =~= v@.subrange(0, 0).filter(pred));
    }
    while i < v.len()
        invariant
            i <= v@.len(),
            v@ == input@,
            filtered@ == v@.subrange(0, i as int).filter(pred),
        decreases v@.len() - i,
    {
        let c = v[i];
        proof {
            reveal(Seq::filter);
            assert(v@.subrange(0, i + 1) =~= v@.subrange(0, i as int).push(v@[i as int]));
            assert(v@.subrange(0, i + 1).drop_last() =~= v@.subrange(0, i as int));
        }
        if is_alnum(c) || is_wspace(c) {
            filtered.push(c);
        }
        proof {
            assert(filtered@ =~= v@.subrange(0, i + 1).filter(pred));
        }
        i = i + 1;
    }
    proof {
        assert(v@.subrange(0, v@.len() as int) =~= v@);
    }
    let filtered_str = string_from_chars(&filtered);
    let base_str = lowercase(filtered_str.as_str());
    let b = chars_of(base_str.as_str());
    let ghost bs = bigram_base(input@);
    let mut acc: Vec<(char, char)> = Vec::new();
    if b.len() < 2 {
        proof {
            assert(bigram_acc(bs, 0, Seq::empty()) == Seq::<(char, char)>::empty());
        }
        return acc;
    }
    let mut i: usize = 0;
    while i + 1 < b.len()
        invariant
            i + 1 <= b@.len(),
            b@ == bs,
            bigram_list(bs) == bigram_acc(bs, i as int, acc@),
        decreases b@.len() - i,
    {
        let p = (b[i], b[i + 1]);
        let ws_only = is_wspace(p.0) && is_wspace(p.1);
        if !ws_only && !pair_in(&acc, p) {
            acc.push(p);
        }
        proof {
            assert(bigram_list(bs) == bigram_acc(bs, i + 1, acc@));
        }
        i = i + 1;
    }
    proof {
        assert(bigram_acc(bs, i as int, acc@) == acc@);
    }
    acc
}

/// Whether `query` fuzzily matches `text`, by bigram overlap.
#[verifier::loop_isolation(false)]
pub fn fuzzy_accepts(text: &str, query: &str) -> (r: bool)
    ensures
        r == fuzzy_accepts_spec(text@, query@),
{
    let tl = bigrams_of(text);
    let ql = bigrams_of(query);
    if tl.len() == 0 || ql.len() == 0 {
        return false;
    }
    let ghost pred = |p: (char, char)| bigram_list(bigram_base(text@)).contains(p);
    let mut count: usize = 0;
    let mut i: usize = 0;
    proof {
        reveal(Seq::filter);
        assert(ql@.subrange(0, 0) =~= Seq::<(char, char)>::empty());
    }
    while i < ql.len()
        invariant
            i <= ql@.len(),
            count == ql@.subrange(0, i as int).filter(pred).len(),
            count <= i,
        decreases ql@.len() - i,
    {
        proof {
            reveal(Seq::filter);
            assert(ql@.subrange(0, i + 1) =~= ql@.subrange(0, i as int).push(ql@[i as int]));
            assert(ql@.subrange(0, i + 1).drop_last() =~= ql@.subrange(0, i as int));
        }
        if pair_in(&tl, ql[i]) {
            count = count + 1;
        }
        proof {
            ql@.subrange(0, i + 1).lemma_filter_len(pred);
        }
        i = i + 1;
    }
    proof {
        assert(ql@.subrange(0, ql@.len() as int) =~= ql@);
    }
    let hits: u128 = count as u128;
    let total: u128 = ql.len() as u128;
    100 * hits >= 18 * total
}


// ---------------------------------------------------------------------------
// Records.
// ---------------------------------------------------------------------------

pub struct LedgerEntry {
    pub id: String,
    pub timestamp_ms: u64,
    pub timestamp_iso: String,
    pub session_id: String,
    pub agent_id: String,
    pub mode: String,
    pub role: Option<String>,
    pub event_type: String,
    pub payload: JsonValue,
}

pub struct LedgerEntryView {
    pub id: Seq<char>,
    pub timestamp_ms: u64,
    pub timestamp_iso: Seq<char>,
    pub session_id: Seq<char>,
    pub agent_id: Seq<char>,
    pub mode: Seq<char>,
    pub role: Option<Seq<char>>,
    pub event_type: Seq<char>,
    pub payload: Json,
}

impl View for LedgerEntry {
    type V = LedgerEntryView;

    open spec fn view(&self) -> LedgerEntryView {
        LedgerEntryView {
            id: self.id@,
            timestamp_ms: self.timestamp_ms,
            timestamp_iso: self.timestamp_iso@,
            session_id: self.session_id@,
            agent_id: self.agent_id@,
            mode: self.mode@,
            role: match self.role {
                Some(ref r) => Some(r@),
                None => None,
            },
            event_type: self.event_type@,
            payload: self.payload@,
        }
    }
}

pub open spec fn entry_views(entries: Seq<LedgerEntry>) -> Seq<LedgerEntryView>
    decreases entries,
{
    if entries.len() == 0 {
        Seq::empty()
    } else {
        seq![entries[0]@] + entry_views(entries.drop_first())
    }
}

pub proof fn lemma_entry_views(entries: Seq<LedgerEntry>)
    ensures
        entry_views(entries).len() == entries.len(),
        forall|i: int| 0 <= i < entries.len() ==> entry_views(entries)[i] == entries[i]@,
    decreases entries,
{
    if entries.len() > 0 {
        lemma_entry_views(entries.drop_first());
        assert(entry_views(entries) == seq![entries[0]@] + entry_views(entries.drop_first()));
        assert forall|i: int|
            0 <= i < entries.len() implies entry_views(entries)[i] == entries[i]@ by {
            if i > 0 {
                assert(entry_views(entries)[i] == entry_views(entries.drop_first())[i - 1]);
                assert(entries.drop_first()[i - 1] == entries[i]);
            }
        }
    }
}

pub(crate) fn clone_opt_string(v: &Option<String>) -> (r: Option<String>)
    ensures
        match r {
            Some(s) => v is Some && s@ == v->0@,
            None => v is None,
        },
{
    match v {
        Some(s) => Some(s.clone()),
        None => None,
    }
}

pub fn entry_clone(e: &LedgerEntry) -> (r: LedgerEntry)
    ensures
        r@ == e@,
{
    LedgerEntry {
        id: e.id.clone(),
        timestamp_ms: e.timestamp_ms,
        timestamp_iso: e.timestamp_iso.clone(),
        session_id: e.session_id.clone(),
        agent_id: e.agent_id.clone(),
        mode: e.mode.clone(),
        role: clone_opt_string(&e.role),
        event_type: e.event_type.clone(),
        payload: json_clone(&e.payload),
    }
}

/// Copies a literal into an owned string.
fn lit_string(s: &str) -> (r: String)
    ensures
        r@ == s@,
{
    s.to_owned()
}

/// The jsonl shape of one ledger entry, role omitted when absent.
pub open spec fn entry_json(e: LedgerEntryView) -> Json {
    let head = seq![
        ("id"@, Json::Str(e.id)),
        ("timestamp_ms"@, Json::UInt(e.timestamp_ms)),
        ("timestamp_iso"@, Json::Str(e.timestamp_iso)),
        ("session_id"@, Json::Str(e.session_id)),
        ("agent_id"@, Json::Str(e.agent_id)),
        ("mode"@, Json::Str(e.mode)),
    ];
    let role_part = match e.role {
        Some(r) => seq![("role"@, Json::Str(r))],
        None => Seq::<(Seq<char>, Json)>::empty(),
    };
    let tail = seq![("event_type"@, Json::Str(e.event_type)), ("payload"@, e.payload)];
    Json::Obj(head + role_part + tail)
}

pub fn entry_to_json(e: &LedgerEntry) -> (r: JsonValue)
    ensures
        r@ == entry_json(e@),
{
    let mut fields: Vec<(String, JsonValue)> = Vec::new();
    fields.push((lit_string("id"), JsonValue::Str(e.id.clone())));
    fields.push((lit_string("timestamp_ms"), JsonValue::UInt(e.timestamp_ms)));
    fields.push((lit_string("timestamp_iso"), JsonValue::Str(e.timestamp_iso.clone())));
    fields.push((lit_string("session_id"), JsonValue::Str(e.session_id.clone())));
    fields.push((lit_string("agent_id"), JsonValue::Str(e.agent_id.clone())));
    fields.push((lit_string("mode"), JsonValue::Str(e.mode.clone())));
    match &e.role {
        Some(r) => {
            fields.push((lit_string("role"), JsonValue::Str(r.clone())));
        },
        None => {},
    }
    fields.push((lit_string("event_type"), JsonValue::Str(e.event_type.clone())));
    fields.push((lit_string("payload"), json_clone(&e.payload)));
    let ghost gf = fields@;
    let r = JsonValue::Obj(fields);
    proof {
        lemma_field_views_of(gf);
        assert(r@ == Json::Obj(field_views_of(gf)));
        match e@.role {
            Some(_) => {
                assert(field_views_of(gf) =~= entry_json(e@)->Obj_0);
            },
            None => {
                assert(field_views_of(gf) =~= entry_json(e@)->Obj_0);
            },
        }
    }
    r
}

/// One persisted line of the ledger file.
pub fn entry_line(e: &LedgerEntry) -> (r: String)
    ensures
        r@ == json_text(entry_json(e@)),
{
    let v = entry_to_json(e);
    json_to_text(&v)
}

/// How one jsonl line is read back into an entry; any missing or mistyped
/// required field rejects the line.
pub open spec fn parse_entry_spec(v: Json) -> Option<LedgerEntryView> {
    if jstr_field(v, "id"@) is Some && (match jget(v, "timestamp_ms"@) {
        Some(t) => jas_u64(t) is Some,
        None => false,
    }) && jstr_field(v, "timestamp_iso"@) is Some && jstr_field(v, "session_id"@) is Some
        && jstr_field(v, "agent_id"@) is Some && jstr_field(v, "mode"@) is Some && jstr_field(
        v,
        "event_type"@,
    ) is Some && jget(v, "payload"@) is Some && (match jget(v, "role"@) {
        Some(r) => r is Null || r is Str,
        None => true,
    }) {
        Some(
            LedgerEntryView {
                id: jstr_field(v, "id"@)->0,
                timestamp_ms: jas_u64(jget(v, "timestamp_ms"@)->0)->0,
                timestamp_iso: jstr_field(v, "timestamp_iso"@)->0,
                session_id: jstr_field(v, "session_id"@)->0,
                agent_id: jstr_field(v, "agent_id"@)->0,
                mode: jstr_field(v, "mode"@)->0,
                role: match jget(v, "role"@) {
                    Some(r) => match r {
                        Json::Str(s) => Some(s),
                        _ => None,
                    },
                    None => None,
                },
                event_type: jstr_field(v, "event_type"@)->0,
                payload: jget(v, "payload"@)->0,
            },
        )
    } else {
        None
    }
}

pub fn entry_from_json(v: &JsonValue) -> (r: Option<LedgerEntry>)
    ensures
        match r {
            Some(e) => parse_entry_spec(v@) == Some(e@),
            None => parse_entry_spec(v@) is None,
        },
{
    let id = match v.str_field("id") {
        Some(s) => s.clone(),
        None => {
            return None;
        },
    };
    let timestamp_ms = match v.get("timestamp_ms") {
        Some(t) => match t.as_u64() {
            Some(n) => n,
            None => {
                return None;
            },
        },
        None => {
            return None;
        },
    };
    let timestamp_iso = match v.str_field("timestamp_iso") {
        Some(s) => s.clone(),
        None => {
            return None;
        },
    };
    let session_id = match v.str_field("session_id") {
        Some(s) => s.clone(),
        None => {
            return None;
        },
    };
    let agent_id = match v.str_field("agent_id") {
        Some(s) => s.clone(),
        None => {
            return None;
        },
    };
    let mode = match v.str_field("mode") {
        Some(s) => s.clone(),
        None => {
            return None;
        },
    };
    let event_type = match v.str_field("event_type") {
        Some(s) => s.clone(),
        None => {
            return None;
        },
    };
    let payload = match v.get("payload") {
        Some(p) => json_clone(p),
        None => {
            return None;
        },
    };
    let role: Option<String> = match v.get("role") {
        Some(r) => match r {
            JsonValue::Null => None,
            JsonValue::Str(s) => Some(s.clone()),
            _ => {
                return None;
            },
        },
        None => None,
    };
    Some(
        LedgerEntry {
            id,
            timestamp_ms,
            timestamp_iso,
            session_id,
            agent_id,
            mode,
            role,
            event_type,
            payload,
        },
    )
}


/// The nine field names of a ledger record are pairwise distinct.
proof fn entry_keys_distinct()
    ensures
        "id"@ != "timestamp_ms"@ && "id"@ != "timestamp_iso"@ && "id"@ != "session_id"@ && "id"@
            != "agent_id"@ && "id"@ != "mode"@ && "id"@ != "role"@ && "id"@ != "event_type"@
            && "id"@ != "payload"@,
        "timestamp_ms"@ != "timestamp_iso"@ && "timestamp_ms"@ != "session_id"@
            && "timestamp_ms"@ != "agent_id"@ && "timestamp_ms"@ != "mode"@ && "timestamp_ms"@
            != "role"@ && "timestamp_ms"@ != "event_type"@ && "timestamp_ms"@ != "payload"@,
        "timestamp_iso"@ != "session_id"@ && "timestamp_iso"@ != "agent_id"@ && "timestamp_iso"@
            != "mode"@ && "timestamp_iso"@ != "role"@ && "timestamp_iso"@ != "event_type"@
            && "timestamp_iso"@ != "payload"@,
        "session_id"@ != "agent_id"@ && "session_id"@ != "mode"@ && "session_id"@ != "role"@
            && "session_id"@ != "event_type"@ && "session_id"@ != "payload"@,
        "agent_id"@ != "mode"@ && "agent_id"@ != "role"@ && "agent_id"@ != "event_type"@
            && "agent_id"@ != "payload"@,
        "mode"@ != "role"@ && "mode"@ != "event_type"@ && "mode"@ != "payload"@,
        "role"@ != "event_type"@ && "role"@ != "payload"@,
        "event_type"@ != "payload"@,
{
    reveal_strlit("id");
    reveal_strlit("timestamp_ms");
    reveal_strlit("timestamp_iso");
    reveal_strlit("session_id");
    reveal_strlit("agent_id");
    reveal_strlit("mode");
    reveal_strlit("role");
    reveal_strlit("event_type");
    reveal_strlit("payload");
    assert("id"@.len() == 2);
    assert("timestamp_ms"@.len() == 12);
    assert("timestamp_iso"@.len() == 13);
    assert("session_id"@.len() == 10);
    assert("agent_id"@.len() == 8);
    assert("mode"@.len() == 4);
    assert("role"@.len() == 4);
    assert("event_type"@.len() == 10);
    assert("payload"@.len() == 7);
    assert("mode"@[0] == 'm');
    assert("role"@[0] == 'r');
    assert("session_id"@[0] == 's');
    assert("event_type"@[0] == 'e');
}

/// A persisted record reads back as the record that produced it: the jsonl
/// shape loses nothing.
pub proof fn lemma_entry_line_round_trip(e: LedgerEntryView)
    ensures
        parse_entry_spec(entry_json(e)) == Some(e),
{
    entry_keys_distinct();
    let v = entry_json(e);
    let fields = v->Obj_0;
    match e.role {
        Some(r) => {
            assert(fields.len() == 9);
            assert(fields[0] == ("id"@, Json::Str(e.id)));
            assert(fields[1] == ("timestamp_ms"@, Json::UInt(e.timestamp_ms)));
            assert(fields[2] == ("timestamp_iso"@, Json::Str(e.timestamp_iso)));
            assert(fields[3] == ("session_id"@, Json::Str(e.session_id)));
            assert(fields[4] == ("agent_id"@, Json::Str(e.agent_id)));
            assert(fields[5] == ("mode"@, Json::Str(e.mode)));
            assert(fields[6] == ("role"@, Json::Str(r)));
            assert(fields[7] == ("event_type"@, Json::Str(e.event_type)));
            assert(fields[8] == ("payload"@, e.payload));
            lemma_obj_get_at(fields, "id"@, 0);
            lemma_obj_get_at(fields, "timestamp_ms"@, 1);
            lemma_obj_get_at(fields, "timestamp_iso"@, 2);
            lemma_obj_get_at(fields, "session_id"@, 3);
            lemma_obj_get_at(fields, "agent_id"@, 4);
            lemma_obj_get_at(fields, "mode"@, 5);
            lemma_obj_get_at(fields, "role"@, 6);
            lemma_obj_get_at(fields, "event_type"@, 7);
            lemma_obj_get_at(fields, "payload"@, 8);
        },
        None => {
            assert(fields.len() == 8);
            assert(fields[0] == ("id"@, Json::Str(e.id)));
            assert(fields[1] == ("timestamp_ms"@, Json::UInt(e.timestamp_ms)));
            assert(fields[2] == ("timestamp_iso"@, Json::Str(e.timestamp_iso)));
            assert(fields[3] == ("session_id"@, Json::Str(e.session_id)));
            assert(fields[4] == ("agent_id"@, Json::Str(e.agent_id)));
            assert(fields[5] == ("mode"@, Json::Str(e.mode)));
            assert(fields[6] == ("event_type"@, Json::Str(e.event_type)));
            assert(fields[7] == ("payload"@, e.payload));
            lemma_obj_get_at(fields, "id"@, 0);
            lemma_obj_get_at(fields, "timestamp_ms"@, 1);
            lemma_obj_get_at(fields, "timestamp_iso"@, 2);
            lemma_obj_get_at(fields, "session_id"@, 3);
            lemma_obj_get_at(fields, "agent_id"@, 4);
            lemma_obj_get_at(fields, "mode"@, 5);
            lemma_obj_get_at(fields, "event_type"@, 6);
            lemma_obj_get_at(fields, "payload"@, 7);
            assert forall|k: int| 0 <= k < fields.len() implies (#[trigger] fields[k]).0
                != "role"@ by {}
            lemma_obj_get_none(fields, "role"@);
        },
    }
}

/// Reads one jsonl line; blank and unreadable lines yield nothing.
pub fn parse_ledger_line(line: &str) -> (r: Option<LedgerEntry>)
    ensures
        match r {
            Some(e) => {
                &&& parsed_json(trim_spec(line@)) is Some
                &&& parse_entry_spec(parsed_json(trim_spec(line@))->0@) == Some(e@)
            },
            None => parsed_json(trim_spec(line@)) is None || parse_entry_spec(
                parsed_json(trim_spec(line@))->0@,
            ) is None,
        },
{
    let trimmed = crate::text::trim_str(line);
    match parse_json_text(trimmed.as_str()) {
        Some(v) => entry_from_json(&v),
        None => None,
    }
}


// ---------------------------------------------------------------------------
// Configuration and errors.
// ---------------------------------------------------------------------------

pub struct ContextLedgerConfig {
    pub root_dir: String,
    pub session_id: String,
    pub agent_id: String,
    pub mode: String,
    pub role: Option<String>,
    pub can_read_all: bool,
    pub readable_agents: Vec<String>,
    pub focus_enabled: bool,
    pub focus_max_chars: usize,
}

pub enum ContextLedgerError {
    InvalidConfig(String),
    PermissionDenied { agent_id: String },
    Io(String),
    Json(String),
}

pub struct FocusInsertResult {
    pub chars: usize,
    pub truncated: bool,
}

pub struct LedgerQueryRequest {
    pub session_id: Option<String>,
    pub agent_id: Option<String>,
    pub mode: Option<String>,
    pub since_ms: Option<u64>,
    pub until_ms: Option<u64>,
    pub limit: Option<usize>,
    pub contains: Option<String>,
    pub fuzzy: bool,
    pub event_types: Vec<String>,
}

impl Default for LedgerQueryRequest {
    fn default() -> (r: Self)
        ensures
            r.session_id is None,
            r.agent_id is None,
            r.mode is None,
            r.since_ms is None,
            r.until_ms is None,
            r.limit is None,
            r.contains is None,
            r.fuzzy == false,
            r.event_types@.len() == 0,
    {
        LedgerQueryRequest {
            session_id: None,
            agent_id: None,
            mode: None,
            since_ms: None,
            until_ms: None,
            limit: None,
            contains: None,
            fuzzy: false,
            event_types: Vec::new(),
        }
    }
}

pub struct LedgerTimelinePoint {
    pub id: String,
    pub timestamp_ms: u64,
    pub timestamp_iso: String,
    pub event_type: String,
    pub agent_id: String,
    pub mode: String,
    pub preview: String,
}

pub struct LedgerQueryResponse {
    pub entries: Vec<LedgerEntry>,
    pub timeline: Vec<LedgerTimelinePoint>,
    pub total: usize,
    pub truncated: bool,
    pub source: String,
}

pub struct CompactRecord {
    pub id: String,
    pub timestamp_ms: u64,
    pub timestamp_iso: String,
    pub payload: JsonValue,
}

pub struct CompactRecordView {
    pub id: Seq<char>,
    pub timestamp_ms: u64,
    pub timestamp_iso: Seq<char>,
    pub payload: Json,
}

impl View for CompactRecord {
    type V = CompactRecordView;

    open spec fn view(&self) -> CompactRecordView {
        CompactRecordView {
            id: self.id@,
            timestamp_ms: self.timestamp_ms,
            timestamp_iso: self.timestamp_iso@,
            payload: self.payload@,
        }
    }
}

pub open spec fn cr_views(rs: Seq<CompactRecord>) -> Seq<CompactRecordView> {
    rs.map_values(|r: CompactRecord| r@)
}

// ---------------------------------------------------------------------------
// Spec helpers over option strings and string lists.
// ---------------------------------------------------------------------------

pub open spec fn opt_str_view(x: Option<String>) -> Option<Seq<char>> {
    match x {
        Some(s) => Some(s@),
        None => None,
    }
}

pub open spec fn str_views(xs: Seq<String>) -> Seq<Seq<char>> {
    xs.map_values(|x: String| x@)
}

/// The readable-agent set after sanitization: empty names are dropped.
pub open spec fn sanitized_agents(xs: Seq<Seq<char>>) -> Seq<Seq<char>> {
    xs.map_values(|x: Seq<char>| sanitize_spec(x)).filter(|x: Seq<char>| x.len() > 0)
}

pub open spec fn cfg_valid(cfg: ContextLedgerConfig) -> bool {
    &&& trim_spec(cfg.session_id@).len() > 0
    &&& trim_spec(cfg.agent_id@).len() > 0
    &&& trim_spec(cfg.mode@).len() > 0
    &&& cfg.focus_max_chars > 0
}

/// A query's target component: the sanitized override when it is non-empty,
/// else the ledger's own, sanitized.
pub open spec fn resolve_target(opt: Option<Seq<char>>, own: Seq<char>) -> Seq<char> {
    match opt {
        Some(s) => if sanitize_spec(s).len() > 0 {
            sanitize_spec(s)
        } else {
            sanitize_spec(own)
        },
        None => sanitize_spec(own),
    }
}

// ---------------------------------------------------------------------------
// Paths.
// ---------------------------------------------------------------------------

pub open spec fn base_dir_spec(root: Seq<char>, s: Seq<char>, a: Seq<char>, m: Seq<char>) -> Seq<
    char,
> {
    root + seq!['/'] + sanitize_spec(s) + seq!['/'] + sanitize_spec(a) + seq!['/'] + sanitize_spec(
        m,
    )
}

fn push_str_chars(out: &mut Vec<char>, s: &str)
    ensures
        final(out)@ == old(out)@ + s@,
{
    let v = chars_of(s);
    crate::text::extend_chars(out, &v);
}

/// The directory that holds one (session, agent, mode) triple's files.
pub fn resolve_base_dir(root: &str, session_id: &str, agent_id: &str, mode: &str) -> (r: String)
    ensures
        r@ == base_dir_spec(root@, session_id@, agent_id@, mode@),
{
    let mut out = chars_of(root);
    out.push('/');
    let s = sanitize_component(session_id);
    push_str_chars(&mut out, s.as_str());
    out.push('/');
    let a = sanitize_component(agent_id);
    push_str_chars(&mut out, a.as_str());
    out.push('/');
    let m = sanitize_component(mode);
    push_str_chars(&mut out, m.as_str());
    proof {
        assert(out@ =~= base_dir_spec(root@, session_id@, agent_id@, mode@));
    }
    string_from_chars(&out)
}

/// The event-log file under the triple's directory.
pub fn resolve_ledger_path(root: &str, session_id: &str, agent_id: &str, mode: &str) -> (r: String)
    ensures
        r@ == base_dir_spec(root@, session_id@, agent_id@, mode@) + "/context-ledger.jsonl"@,
{
    let base = resolve_base_dir(root, session_id, agent_id, mode);
    let mut out = chars_of(base.as_str());
    push_str_chars(&mut out, "/context-ledger.jsonl");
    string_from_chars(&out)
}

// ---------------------------------------------------------------------------
// The ledger.
// ---------------------------------------------------------------------------

pub struct ContextLedger {
    pub cfg: ContextLedgerConfig,
    pub readable_agent_set: Vec<String>,
    pub entries: Vec<LedgerEntry>,
    pub focus: String,
    pub compact_records: Vec<CompactRecord>,
    pub next_counter: u64,
}

impl ContextLedger {
    /// Everything the methods rely on: a valid configuration and a readable
    /// set that is the sanitized, non-empty image of the configured one.
    pub open spec fn wf(self) -> bool {
        &&& cfg_valid(self.cfg)
        &&& str_views(self.readable_agent_set@) == sanitized_agents(
            str_views(self.cfg.readable_agents@),
        )
    }

    /// Who may be read: the ledger's own agent always; anyone when
    /// `can_read_all`; otherwise only members of the readable set.
    pub open spec fn may_read(self, target_agent: Seq<char>) -> bool {
        ||| target_agent == sanitize_spec(self.cfg.agent_id@)
        ||| self.cfg.can_read_all
        ||| str_views(self.readable_agent_set@).contains(target_agent)
    }

    #[verifier::loop_isolation(false)]
    /// A ledger whose counter starts at 1. Where several ledgers serve one
    /// process, `new_with_counter` lets the caller thread one shared,
    /// monotonic counter through them all.
    pub fn new(cfg: ContextLedgerConfig) -> (r: Result<ContextLedger, ContextLedgerError>)
        ensures
            match r {
                Ok(l) => {
                    &&& cfg_valid(cfg)
                    &&& l.wf()
                    &&& l.cfg == cfg
                    &&& l.entries@.len() == 0
                    &&& l.focus@.len() == 0
                    &&& l.compact_records@.len() == 0
                    &&& l.next_counter == 1
                },
                Err(_) => !cfg_valid(cfg),
            },
    {
        Self::new_with_counter(cfg, 1)
    }

    /// A ledger seeded from an outside counter source. Identifiers mint
    /// counters from `counter_start` upwards, so a caller that seeds each
    /// ledger from one process-wide source — and runs them one at a time,
    /// as the scheduler's single active task guarantees — keeps the
    /// counter monotonic across the whole process.
    pub fn new_with_counter(cfg: ContextLedgerConfig, counter_start: u64) -> (r: Result<
        ContextLedger,
        ContextLedgerError,
    >)
        ensures
            match r {
                Ok(l) => {
                    &&& cfg_valid(cfg)
                    &&& l.wf()
                    &&& l.cfg == cfg
                    &&& l.entries@.len() == 0
                    &&& l.focus@.len() == 0
                    &&& l.compact_records@.len() == 0
                    &&& l.next_counter == (if counter_start >= 1 {
                        counter_start
                    } else {
                        1
                    })
                },
                Err(_) => !cfg_valid(cfg),
            },
    {
        let st = trim_str(cfg.session_id.as_str());
        if st.as_str().is_empty() {
            return Err(ContextLedgerError::InvalidConfig(lit_string("session_id cannot be empty")));
        }
        let at = trim_str(cfg.agent_id.as_str());
        if at.as_str().is_empty() {
            return Err(ContextLedgerError::InvalidConfig(lit_string("agent_id cannot be empty")));
        }
        let mt = trim_str(cfg.mode.as_str());
        if mt.as_str().is_empty() {
            return Err(ContextLedgerError::InvalidConfig(lit_string("mode cannot be empty")));
        }
        if cfg.focus_max_chars == 0 {
            return Err(
                ContextLedgerError::InvalidConfig(
                    lit_string("focus_max_chars must be greater than 0"),
                ),
            );
        }
        let ghost raw = str_views(cfg.readable_agents@);
        let mut readable_agent_set: Vec<String> = Vec::new();
        let mut i: usize = 0;
        proof {
            reveal(Seq::filter);
            assert(raw.subrange(0, 0) =~= Seq::<Seq<char>>::empty());
            assert(str_views(readable_agent_set@) =~= sanitized_agents(raw.subrange(0, 0)));
        }
        while i < cfg.readable_agents.len()
            invariant
                i <= cfg.readable_agents@.len(),
                raw == str_views(cfg.readable_agents@),
                str_views(readable_agent_set@) == sanitized_agents(raw.subrange(0, i as int)),
            decreases cfg.readable_agents@.len() - i,
        {
            let s = sanitize_component(cfg.readable_agents[i].as_str());
            proof {
                reveal(Seq::filter);
                assert(raw.subrange(0, i + 1) =~= raw.subrange(0, i as int).push(raw[i as int]));
                assert(raw.subrange(0, i + 1).map_values(|x: Seq<char>| sanitize_spec(x))
                    =~= raw.subrange(0, i as int).map_values(|x: Seq<char>| sanitize_spec(x)).push(
                    sanitize_spec(raw[i as int]),
                ));
                assert(raw.subrange(0, i + 1).map_values(
                    |x: Seq<char>| sanitize_spec(x),
                ).drop_last() =~= raw.subrange(0, i as int).map_values(
                    |x: Seq<char>| sanitize_spec(x),
                ));
                assert(raw[i as int] == cfg.readable_agents@[i as int]@);
            }
            if !s.as_str().is_empty() {
                let ghost prev = str_views(readable_agent_set@);
                readable_agent_set.push(s);
                proof {
                    assert(str_views(readable_agent_set@) =~= prev.push(
                        sanitize_spec(raw[i as int]),
                    ));
                }
            }
            proof {
                assert(str_views(readable_agent_set@) =~= sanitized_agents(
                    raw.subrange(0, i + 1),
                ));
            }
            i = i + 1;
        }
        proof {
            assert(raw.subrange(0, raw.len() as int) =~= raw);
        }
        Ok(
            ContextLedger {
                cfg,
                readable_agent_set,
                entries: Vec::new(),
                focus: String::new(),
                compact_records: Vec::new(),
                next_counter: if counter_start >= 1 {
                    counter_start
                } else {
                    1
                },
            },
        )
    }

    /// The counter the next identifier will carry; a caller that shares one
    /// counter across ledgers reads it back after a turn.
    pub fn next_counter(&self) -> (r: u64)
        ensures
            r == self.next_counter,
    {
        self.next_counter
    }

    /// Ledgers that thread one counter never repeat it: every counter one
    /// ledger minted stays below its final reading, so a ledger seeded at
    /// or past that reading mints only strictly larger counters.
    pub proof fn lemma_seeded_counters_disjoint(
        earlier_minted: u64,
        earlier_final: u64,
        later_seed: u64,
        later_minted: u64,
    )
        requires
            earlier_minted < earlier_final,
            earlier_final <= later_seed,
            later_seed <= later_minted,
        ensures
            earlier_minted < later_minted,
    {
    }

    pub fn root_dir(&self) -> (r: &str)
        ensures
            r@ == self.cfg.root_dir@,
    {
        self.cfg.root_dir.as_str()
    }

    pub fn session_id(&self) -> (r: &str)
        ensures
            r@ == self.cfg.session_id@,
    {
        self.cfg.session_id.as_str()
    }

    pub fn agent_id(&self) -> (r: &str)
        ensures
            r@ == self.cfg.agent_id@,
    {
        self.cfg.agent_id.as_str()
    }

    pub fn mode(&self) -> (r: &str)
        ensures
            r@ == self.cfg.mode@,
    {
        self.cfg.mode.as_str()
    }

    pub fn can_read_all(&self) -> (r: bool)
        ensures
            r == self.cfg.can_read_all,
    {
        self.cfg.can_read_all
    }

    pub fn readable_agents(&self) -> (r: &Vec<String>)
        ensures
            r == &self.cfg.readable_agents,
    {
        &self.cfg.readable_agents
    }

    pub fn focus_max_chars(&self) -> (r: usize)
        ensures
            r == self.cfg.focus_max_chars,
    {
        self.cfg.focus_max_chars
    }

    /// The records appended so far in this process.
    pub fn entries(&self) -> (r: &Vec<LedgerEntry>)
        ensures
            r == &self.entries,
    {
        &self.entries
    }

    pub fn ledger_path(&self) -> (r: String)
        ensures
            r@ == base_dir_spec(
                self.cfg.root_dir@,
                self.cfg.session_id@,
                self.cfg.agent_id@,
                self.cfg.mode@,
            ) + "/context-ledger.jsonl"@,
    {
        resolve_ledger_path(
            self.cfg.root_dir.as_str(),
            self.cfg.session_id.as_str(),
            self.cfg.agent_id.as_str(),
            self.cfg.mode.as_str(),
        )
    }

    pub fn focus_path(&self) -> (r: String)
        ensures
            r@ == base_dir_spec(
                self.cfg.root_dir@,
                self.cfg.session_id@,
                self.cfg.agent_id@,
                self.cfg.mode@,
            ) + "/focus-slot.txt"@,
    {
        let base = resolve_base_dir(
            self.cfg.root_dir.as_str(),
            self.cfg.session_id.as_str(),
            self.cfg.agent_id.as_str(),
            self.cfg.mode.as_str(),
        );
        let mut out = chars_of(base.as_str());
        push_str_chars(&mut out, "/focus-slot.txt");
        string_from_chars(&out)
    }

    pub fn compact_memory_path(&self) -> (r: String)
        ensures
            r@ == base_dir_spec(
                self.cfg.root_dir@,
                self.cfg.session_id@,
                self.cfg.agent_id@,
                self.cfg.mode@,
            ) + "/compact-memory.jsonl"@,
    {
        let base = resolve_base_dir(
            self.cfg.root_dir.as_str(),
            self.cfg.session_id.as_str(),
            self.cfg.agent_id.as_str(),
            self.cfg.mode.as_str(),
        );
        let mut out = chars_of(base.as_str());
        push_str_chars(&mut out, "/compact-memory.jsonl");
        string_from_chars(&out)
    }

    pub fn compact_memory_index_path(&self) -> (r: String)
        ensures
            r@ == base_dir_spec(
                self.cfg.root_dir@,
                self.cfg.session_id@,
                self.cfg.agent_id@,
                self.cfg.mode@,
            ) + "/compact-memory-index.json"@,
    {
        let base = resolve_base_dir(
            self.cfg.root_dir.as_str(),
            self.cfg.session_id.as_str(),
            self.cfg.agent_id.as_str(),
            self.cfg.mode.as_str(),
        );
        let mut out = chars_of(base.as_str());
        push_str_chars(&mut out, "/compact-memory-index.json");
        string_from_chars(&out)
    }

    /// Records an already-persisted entry, read back from storage by the
    /// caller, so that later queries can see it. The counter advances past
    /// it, so fresh identifiers continue after the reloaded ones.
    pub fn load_entry(&mut self, e: LedgerEntry)
        ensures
            final(self).cfg == old(self).cfg,
            final(self).readable_agent_set == old(self).readable_agent_set,
            final(self).focus == old(self).focus,
            final(self).compact_records == old(self).compact_records,
            final(self).next_counter == (if old(self).next_counter < u64::MAX {
                (old(self).next_counter + 1) as u64
            } else {
                u64::MAX
            }),
            final(self).entries@ == old(self).entries@.push(e),
    {
        self.entries.push(e);
        if self.next_counter < u64::MAX {
            self.next_counter = self.next_counter + 1;
        }
    }

    /// Appends one event record. The returned line is what the caller must
    /// persist; the entry itself is retained.
    pub fn append_event(&mut self, event_type: &str, payload: JsonValue) -> (r: Result<
        String,
        ContextLedgerError,
    >)
        requires
            old(self).wf(),
        ensures
            final(self).wf(),
            final(self).cfg == old(self).cfg,
            final(self).readable_agent_set == old(self).readable_agent_set,
            final(self).focus == old(self).focus,
            final(self).compact_records == old(self).compact_records,
            match r {
                Ok(line) => {
                    &&& trim_spec(event_type@).len() > 0
                    &&& final(self).next_counter == (if old(self).next_counter < u64::MAX {
                        (old(self).next_counter + 1) as u64
                    } else {
                        u64::MAX
                    })
                    &&& final(self).entries@.len() == old(self).entries@.len() + 1
                    &&& forall|i: int|
                        0 <= i < old(self).entries@.len() ==> final(self).entries@[i] == old(
                            self,
                        ).entries@[i]
                    &&& {
                        let e = final(self).entries@.last()@;
                        &&& e.session_id == old(self).cfg.session_id@
                        &&& e.agent_id == old(self).cfg.agent_id@
                        &&& e.mode == old(self).cfg.mode@
                        &&& e.role == opt_str_view(old(self).cfg.role)
                        &&& e.event_type == trim_spec(event_type@)
                        &&& e.payload == payload@
                        &&& e.id == "led-"@ + crate::text::dec_of(e.timestamp_ms as nat)
                            + seq!['-'] + crate::text::dec_of(old(self).next_counter as nat)
                        &&& e.timestamp_iso == crate::clock::rfc3339_of(e.timestamp_ms)
                        &&& line@ == json_text(entry_json(e))
                    }
                },
                Err(_) => {
                    &&& trim_spec(event_type@).len() == 0
                    &&& *final(self) == *old(self)
                },
            },
    {
        let et = trim_str(event_type);
        if et.as_str().is_empty() {
            return Err(ContextLedgerError::InvalidConfig(lit_string("event_type cannot be empty")));
        }
        let stamp = crate::clock::now_timestamp();
        let id = make_id("led-", stamp.0, self.next_counter);
        if self.next_counter < u64::MAX {
            self.next_counter = self.next_counter + 1;
        }
        let entry = LedgerEntry {
            id,
            timestamp_ms: stamp.0,
            timestamp_iso: stamp.1,
            session_id: self.cfg.session_id.clone(),
            agent_id: self.cfg.agent_id.clone(),
            mode: self.cfg.mode.clone(),
            role: clone_opt_string(&self.cfg.role),
            event_type: et,
            payload,
        };
        let line = entry_line(&entry);
        self.entries.push(entry);
        Ok(line)
    }
}

/// An identifier in the shape `<prefix><ms>-<counter>`.
fn make_id(prefix: &str, ms: u64, counter: u64) -> (r: String)
    ensures
        r@ == prefix@ + crate::text::dec_of(ms as nat) + seq!['-'] + crate::text::dec_of(
            counter as nat,
        ),
{
    let mut out = chars_of(prefix);
    let d1 = crate::text::dec_digits(ms);
    crate::text::extend_chars(&mut out, &d1);
    out.push('-');
    let d2 = crate::text::dec_digits(counter);
    crate::text::extend_chars(&mut out, &d2);
    proof {
        assert(out@ =~= prefix@ + crate::text::dec_of(ms as nat) + seq!['-']
            + crate::text::dec_of(counter as nat));
    }
    string_from_chars(&out)
}


/// The default focus-slot bound, in characters.
pub const DEFAULT_FOCUS_MAX_CHARS: usize = 20000;

/// The ledger configuration a turn's options resolve to: trimmed non-empty
/// values win, the documented fallbacks follow, and the caller supplies the
/// default root directory (it comes from the home directory). Nothing is
/// resolved when the feature is off.
pub fn resolve_ledger_config(
    opts: &crate::protocol::ContextLedgerOptions,
    session_id: Option<&String>,
    turn_mode: Option<&String>,
    default_root: String,
) -> (r: Option<ContextLedgerConfig>)
    ensures
        match r {
            Some(cfg) => {
                &&& opts.enabled
                &&& cfg.root_dir@ == (match crate::wire::normalized_opt(
                    crate::protocol::ov(opts.root_dir),
                ) {
                    Some(v) => v,
                    None => default_root@,
                })
                &&& cfg.session_id@ == (match crate::wire::normalized_opt(
                    match session_id {
                        Some(s) => Some(s@),
                        None => None,
                    },
                ) {
                    Some(v) => v,
                    None => "default-session"@,
                })
                &&& cfg.agent_id@ == (match crate::wire::normalized_opt(
                    crate::protocol::ov(opts.agent_id),
                ) {
                    Some(v) => v,
                    None => "chat-codex"@,
                })
                &&& cfg.mode@ == (match crate::wire::normalized_opt(
                    crate::protocol::ov(opts.mode),
                ) {
                    Some(v) => v,
                    None => match crate::wire::normalized_opt(match turn_mode {
                        Some(m) => Some(m@),
                        None => None,
                    }) {
                        Some(v) => v,
                        None => "main"@,
                    },
                })
                &&& opt_str_view(cfg.role) == crate::wire::normalized_opt(
                    crate::protocol::ov(opts.role),
                )
                &&& cfg.can_read_all == opts.can_read_all
                &&& str_views(cfg.readable_agents@) == str_views(opts.readable_agents@)
                &&& cfg.focus_enabled == opts.focus_enabled
                &&& cfg.focus_max_chars == (match opts.focus_max_chars {
                    Some(n) => if n >= 1 {
                        n
                    } else {
                        1
                    },
                    None => DEFAULT_FOCUS_MAX_CHARS,
                })
            },
            None => !opts.enabled,
        },
{
    if !opts.enabled {
        return None;
    }
    let root_dir: String = match crate::wire::normalized_option(opts.root_dir.as_ref()) {
        Some(v) => v,
        None => default_root,
    };
    let session: String = match crate::wire::normalized_option(session_id) {
        Some(v) => v,
        None => "default-session".to_owned(),
    };
    let agent: String = match crate::wire::normalized_option(opts.agent_id.as_ref()) {
        Some(v) => v,
        None => "chat-codex".to_owned(),
    };
    let mode: String = match crate::wire::normalized_option(opts.mode.as_ref()) {
        Some(v) => v,
        None => match crate::wire::normalized_option(turn_mode) {
            Some(v) => v,
            None => "main".to_owned(),
        },
    };
    let role = crate::wire::normalized_option(opts.role.as_ref());
    let mut readable_agents: Vec<String> = Vec::new();
    let mut i: usize = 0;
    #[verifier::loop_isolation(false)]
    while i < opts.readable_agents.len()
        invariant
            i <= opts.readable_agents@.len(),
            readable_agents@.len() == i,
            forall|k: int| 0 <= k < i ==> (#[trigger] readable_agents@[k])@
                == opts.readable_agents@[k]@,
        decreases opts.readable_agents@.len() - i,
    {
        readable_agents.push(opts.readable_agents[i].clone());
        i = i + 1;
    }
    proof {
        assert(str_views(readable_agents@) =~= str_views(opts.readable_agents@));
    }
    let focus_max_chars: usize = match opts.focus_max_chars {
        Some(n) => if n >= 1 {
            n
        } else {
            1
        },
        None => DEFAULT_FOCUS_MAX_CHARS,
    };
    Some(
        ContextLedgerConfig {
            root_dir,
            session_id: session,
            agent_id: agent,
            mode,
            role,
            can_read_all: opts.can_read_all,
            readable_agents,
            focus_enabled: opts.focus_enabled,
            focus_max_chars,
        },
    )
}

// ---------------------------------------------------------------------------
// Focus slot.
// ---------------------------------------------------------------------------

/// What an insert writes before bounding: the prior content (when appending
/// to something non-empty) joined to the trimmed incoming text.
pub open spec fn merged_focus(prior: Seq<char>, incoming: Seq<char>, append: bool) -> Seq<char> {
    if append && trim_spec(prior).len() > 0 {
        trim_spec(prior) + seq!['\n'] + incoming
    } else {
        incoming
    }
}

impl ContextLedger {
    /// Replaces the in-memory focus slot with the text the caller read from
    /// the persisted slot file.
    pub fn load_focus(&mut self, text: String)
        ensures
            final(self).cfg == old(self).cfg,
            final(self).readable_agent_set == old(self).readable_agent_set,
            final(self).entries == old(self).entries,
            final(self).compact_records == old(self).compact_records,
            final(self).next_counter == old(self).next_counter,
            final(self).focus@ == text@,
    {
        self.focus = text;
    }

    /// The focus text, when the feature is on and the slot is non-empty.
    pub fn read_focus(&self) -> (r: Option<String>)
        ensures
            match r {
                Some(s) => {
                    &&& self.cfg.focus_enabled
                    &&& trim_spec(self.focus@).len() > 0
                    &&& s@ == trim_spec(self.focus@)
                },
                None => !self.cfg.focus_enabled || trim_spec(self.focus@).len() == 0,
            },
    {
        if !self.cfg.focus_enabled {
            return None;
        }
        let t = trim_str(self.focus.as_str());
        if t.as_str().is_empty() {
            return None;
        }
        Some(t)
    }

    /// Replaces or extends the focus slot, keeping the trailing
    /// `focus_max_chars` characters, and logs a `focus_insert` event.
    pub fn insert_focus(&mut self, text: &str, append: bool) -> (r: Result<
        FocusInsertResult,
        ContextLedgerError,
    >)
        requires
            old(self).wf(),
        ensures
            final(self).wf(),
            final(self).cfg == old(self).cfg,
            match r {
                Ok(res) => {
                    let merged = merged_focus(old(self).focus@, trim_spec(text@), append);
                    &&& old(self).cfg.focus_enabled
                    &&& trim_spec(text@).len() > 0
                    &&& final(self).focus@ == crate::text::tail_chars(
                        merged,
                        old(self).cfg.focus_max_chars as nat,
                    )
                    &&& res.truncated == (merged.len() > old(self).cfg.focus_max_chars)
                    &&& res.chars == final(self).focus@.len()
                    &&& (res.truncated ==> res.chars == old(self).cfg.focus_max_chars)
                    &&& final(self).entries@.len() == old(self).entries@.len() + 1
                    &&& final(self).entries@.last()@.event_type == "focus_insert"@
                    &&& final(self).entries@.last()@.payload == Json::Obj(
                        seq![
                            ("append"@, Json::Bool(append)),
                            ("chars"@, Json::UInt(res.chars as u64)),
                            ("truncated"@, Json::Bool(res.truncated)),
                        ],
                    )
                },
                Err(_) => {
                    &&& (!old(self).cfg.focus_enabled || trim_spec(text@).len() == 0)
                    &&& *final(self) == *old(self)
                },
            },
    {
        if !self.cfg.focus_enabled {
            return Err(ContextLedgerError::InvalidConfig(lit_string("focus slot is disabled")));
        }
        let incoming = trim_str(text);
        if incoming.as_str().is_empty() {
            return Err(ContextLedgerError::InvalidConfig(lit_string("focus text cannot be empty")));
        }
        let prior = trim_str(self.focus.as_str());
        let mut merged: Vec<char>;
        if append && !prior.as_str().is_empty() {
            merged = chars_of(prior.as_str());
            merged.push('\n');
            let inc = chars_of(incoming.as_str());
            crate::text::extend_chars(&mut merged, &inc);
            proof {
                assert(merged@ =~= merged_focus(self.focus@, trim_spec(text@), append));
            }
        } else {
            merged = chars_of(incoming.as_str());
        }
        let merged_str = string_from_chars(&merged);
        let max = self.cfg.focus_max_chars;
        let truncated = merged.len() > max;
        let bounded = crate::text::keep_tail_chars(merged_str.as_str(), max);
        let chars: usize = if truncated {
            max
        } else {
            merged.len()
        };
        self.focus = bounded;
        let mut payload_fields: Vec<(String, JsonValue)> = Vec::new();
        payload_fields.push((lit_string("append"), JsonValue::Bool(append)));
        payload_fields.push((lit_string("chars"), JsonValue::UInt(chars as u64)));
        payload_fields.push((lit_string("truncated"), JsonValue::Bool(truncated)));
        let ghost pf = payload_fields@;
        let payload = JsonValue::Obj(payload_fields);
        proof {
            lemma_field_views_of(pf);
            assert(field_views_of(pf) =~= seq![
                ("append"@, Json::Bool(append)),
                ("chars"@, Json::UInt(chars as u64)),
                ("truncated"@, Json::Bool(truncated)),
            ]);
        }
        let appended = self.append_event("focus_insert", payload);
        proof {
            reveal_strlit("focus_insert");
            assert("focus_insert"@[0] == 'f');
            assert(trim_spec("focus_insert"@).len() > 0);
        }
        match appended {
            Ok(_) => {},
            Err(_) => {
                proof {
                    assert(false);
                }
            },
        }
        Ok(FocusInsertResult { chars, truncated })
    }
}

// ---------------------------------------------------------------------------
// Query filtering.
// ---------------------------------------------------------------------------

/// The normalized event-type filters: trimmed, lowercased, non-empty.
pub open spec fn norm_types_spec(types: Seq<Seq<char>>) -> Seq<Seq<char>> {
    types.map_values(|t: Seq<char>| lower_of(trim_spec(t))).filter(|t: Seq<char>| t.len() > 0)
}

/// The normalized needle: trimmed and lowercased, or nothing when that
/// leaves it empty.
pub open spec fn norm_needle_spec(contains: Option<Seq<char>>) -> Option<Seq<char>> {
    match contains {
        Some(c) => if lower_of(trim_spec(c)).len() > 0 {
            Some(lower_of(trim_spec(c)))
        } else {
            None
        },
        None => None,
    }
}

/// Whether a record belongs to the queried triple: its own identifiers,
/// sanitized, name the resolved target. This is what reading the target
/// triple's file gives a file-backed store.
pub open spec fn entry_in_target(
    e: LedgerEntryView,
    target_session: Seq<char>,
    target_agent: Seq<char>,
    target_mode: Seq<char>,
) -> bool {
    &&& sanitize_spec(e.session_id) == target_session
    &&& sanitize_spec(e.agent_id) == target_agent
    &&& sanitize_spec(e.mode) == target_mode
}

/// Whether one entry survives the query's filters: the queried triple, the
/// time window, the event-type set, the prompt-control screen, and the
/// needle.
pub open spec fn entry_passes(
    e: LedgerEntryView,
    since: Option<u64>,
    until: Option<u64>,
    types: Seq<Seq<char>>,
    needle: Option<Seq<char>>,
    fuzzy: bool,
    target_session: Seq<char>,
    target_agent: Seq<char>,
    target_mode: Seq<char>,
) -> bool {
    &&& entry_in_target(e, target_session, target_agent, target_mode)
    &&& (match since {
        Some(s) => e.timestamp_ms >= s,
        None => true,
    })
    &&& (match until {
        Some(u) => e.timestamp_ms <= u,
        None => true,
    })
    &&& (types.len() == 0 || types.contains(lower_of(trim_spec(e.event_type))))
    &&& !has_prompt_tag(lower_of(json_text(e.payload)))
    &&& (match needle {
        Some(n) => {
            ||| seq_contains(lower_of(json_text(e.payload)), n)
            ||| seq_contains(lower_of(e.event_type), n)
            ||| (fuzzy && fuzzy_accepts_spec(lower_of(json_text(e.payload)), n))
        },
        None => true,
    })
}

/// No surviving entry carries a prompt-control tag in its rendered payload:
/// the screen is part of the filter every returned entry passes.
pub proof fn lemma_query_screens_prompt_blocks(
    e: LedgerEntryView,
    since: Option<u64>,
    until: Option<u64>,
    types: Seq<Seq<char>>,
    needle: Option<Seq<char>>,
    fuzzy: bool,
    target_session: Seq<char>,
    target_agent: Seq<char>,
    target_mode: Seq<char>,
)
    requires
        entry_passes(
            e,
            since,
            until,
            types,
            needle,
            fuzzy,
            target_session,
            target_agent,
            target_mode,
        ),
    ensures
        !has_prompt_tag(lower_of(json_text(e.payload))),
        (match since {
            Some(s) => e.timestamp_ms >= s,
            None => true,
        }),
        (match until {
            Some(u) => e.timestamp_ms <= u,
            None => true,
        }),
{
}

/// One entry's filter, phrased over the raw request and the resolved
/// target triple.
pub open spec fn passes_request(
    e: LedgerEntryView,
    req: LedgerQueryRequest,
    target_session: Seq<char>,
    target_agent: Seq<char>,
    target_mode: Seq<char>,
) -> bool {
    entry_passes(
        e,
        req.since_ms,
        req.until_ms,
        norm_types_spec(str_views(req.event_types@)),
        norm_needle_spec(opt_str_view(req.contains)),
        req.fuzzy,
        target_session,
        target_agent,
        target_mode,
    )
}

/// The effective entry limit: the requested one clamped to 1..=500, or 50.
pub open spec fn effective_limit(limit: Option<usize>) -> int {
    match limit {
        Some(l) => if l < 1 {
            1
        } else if l > 500 {
            500
        } else {
            l as int
        },
        None => 50,
    }
}

fn member_str(xs: &Vec<String>, x: &str) -> (r: bool)
    ensures
        r == str_views(xs@).contains(x@),
{
    let mut i: usize = 0;
    while i < xs.len()
        invariant
            i <= xs@.len(),
            forall|k: int| 0 <= k < i ==> str_views(xs@)[k] != x@,
        decreases xs@.len() - i,
    {
        if crate::text::str_eq(xs[i].as_str(), x) {
            assert(str_views(xs@)[i as int] == x@);
            return true;
        }
        assert(str_views(xs@)[i as int] == xs@[i as int]@);
        i = i + 1;
    }
    assert(forall|k: int| 0 <= k < str_views(xs@).len() ==> str_views(xs@)[k] != x@);
    false
}

#[verifier::loop_isolation(false)]
fn entry_passes_exec(
    e: &LedgerEntry,
    since: Option<u64>,
    until: Option<u64>,
    types: &Vec<String>,
    needle: &Option<String>,
    fuzzy: bool,
    target_session: &str,
    target_agent: &str,
    target_mode: &str,
) -> (r: bool)
    ensures
        r == entry_passes(
            e@,
            since,
            until,
            str_views(types@),
            opt_str_view(*needle),
            fuzzy,
            target_session@,
            target_agent@,
            target_mode@,
        ),
{
    let es = sanitize_component(e.session_id.as_str());
    if !crate::text::str_eq(es.as_str(), target_session) {
        return false;
    }
    let ea = sanitize_component(e.agent_id.as_str());
    if !crate::text::str_eq(ea.as_str(), target_agent) {
        return false;
    }
    let em = sanitize_component(e.mode.as_str());
    if !crate::text::str_eq(em.as_str(), target_mode) {
        return false;
    }
    match since {
        Some(s) => {
            if e.timestamp_ms < s {
                return false;
            }
        },
        None => {},
    }
    match until {
        Some(u) => {
            if e.timestamp_ms > u {
                return false;
            }
        },
        None => {},
    }
    if types.len() > 0 {
        let et_trim = trim_str(e.event_type.as_str());
        let et_norm = crate::text::lowercase(et_trim.as_str());
        if !member_str(types, et_norm.as_str()) {
            return false;
        }
    }
    let ptext = json_to_text(&e.payload);
    let plower = crate::text::lowercase(ptext.as_str());
    if contains_prompt_like_block(ptext.as_str()) {
        return false;
    }
    match needle {
        Some(n) => {
            if str_contains(plower.as_str(), n.as_str()) {
                return true;
            }
            let et_lower = crate::text::lowercase(e.event_type.as_str());
            if str_contains(et_lower.as_str(), n.as_str()) {
                return true;
            }
            if fuzzy && fuzzy_accepts(plower.as_str(), n.as_str()) {
                return true;
            }
            false
        },
        None => true,
    }
}

proof fn lemma_entry_views_concat(a: Seq<LedgerEntry>, b: Seq<LedgerEntry>)
    ensures
        entry_views(a + b) == entry_views(a) + entry_views(b),
    decreases a,
{
    if a.len() == 0 {
        assert(a + b =~= b);
        assert(entry_views(a) + entry_views(b) =~= entry_views(b));
    } else {
        lemma_entry_views_concat(a.drop_first(), b);
        assert((a + b).len() > 0);
        assert((a + b)[0] == a[0]);
        assert((a + b).drop_first() =~= a.drop_first() + b);
        assert(entry_views(a + b) == seq![(a + b)[0]@] + entry_views((a + b).drop_first()));
        assert(entry_views(a) == seq![a[0]@] + entry_views(a.drop_first()));
        assert(seq![a[0]@] + (entry_views(a.drop_first()) + entry_views(b)) =~= (seq![a[0]@]
            + entry_views(a.drop_first())) + entry_views(b));
    }
}

/// Inserting one record adds exactly its view to the views' multiset.
proof fn lemma_entry_views_insert_multiset(prev: Seq<LedgerEntry>, e: LedgerEntry, pos: int)
    requires
        0 <= pos <= prev.len(),
    ensures
        entry_views(prev.insert(pos, e)).to_multiset() =~= entry_views(
            prev,
        ).to_multiset().insert(e@),
{
    broadcast use vstd::seq_lib::group_to_multiset_ensures;

    let ins = prev.insert(pos, e);
    let tk = prev.take(pos);
    let sk = prev.skip(pos);
    assert(ins =~= tk + seq![e] + sk);
    lemma_entry_views_concat(tk + seq![e], sk);
    lemma_entry_views_concat(tk, seq![e]);
    assert(seq![e].drop_first() =~= Seq::<LedgerEntry>::empty());
    assert(entry_views(seq![e]) == seq![e@] + entry_views(Seq::<LedgerEntry>::empty()));
    assert(entry_views(seq![e]) =~= seq![e@]);
    assert(seq![e@] =~= Seq::<LedgerEntryView>::empty().push(e@));
    lemma_seq_empty_to_multiset::<LedgerEntryView>();
    vstd::seq_lib::lemma_multiset_commutative(
        entry_views(tk) + entry_views(seq![e]),
        entry_views(sk),
    );
    vstd::seq_lib::lemma_multiset_commutative(entry_views(tk), entry_views(seq![e]));
    assert(prev =~= tk + sk);
    lemma_entry_views_concat(tk, sk);
    vstd::seq_lib::lemma_multiset_commutative(entry_views(tk), entry_views(sk));
    assert(entry_views(ins).to_multiset() =~= entry_views(prev).to_multiset().insert(e@));
}

/// A stable sort by `timestamp_ms`, ascending.
#[verifier::loop_isolation(false)]
fn sort_entries_by_ts(v: Vec<LedgerEntry>) -> (r: Vec<LedgerEntry>)
    ensures
        r@.len() == v@.len(),
        forall|i: int, j: int|
            0 <= i <= j < r@.len() ==> r@[i].timestamp_ms <= r@[j].timestamp_ms,
        forall|i: int| 0 <= i < r@.len() ==> entry_views(v@).contains(#[trigger] r@[i]@),
        entry_views(r@).to_multiset() == entry_views(v@).to_multiset(),
    decreases v@.len(),
{
    proof {
        lemma_entry_views(v@);
        broadcast use vstd::seq_lib::group_to_multiset_ensures;

        assert(v@.subrange(0, 0) =~= Seq::<LedgerEntry>::empty());
        lemma_seq_empty_to_multiset::<LedgerEntryView>();
        assert(entry_views(Seq::<LedgerEntry>::empty()) =~= Seq::<LedgerEntryView>::empty());
    }
    let mut out: Vec<LedgerEntry> = Vec::new();
    let mut k: usize = 0;
    while k < v.len()
        invariant
            k <= v@.len(),
            out@.len() == k,
            forall|i: int, j: int|
                0 <= i <= j < out@.len() ==> out@[i].timestamp_ms <= out@[j].timestamp_ms,
            forall|i: int| 0 <= i < out@.len() ==> entry_views(v@).contains(#[trigger] out@[i]@),
            entry_views(out@).to_multiset() == entry_views(
                v@.subrange(0, k as int),
            ).to_multiset(),
        decreases v@.len() - k,
    {
        let e = entry_clone(&v[k]);
        let ts = e.timestamp_ms;
        let mut pos: usize = out.len();
        while pos > 0 && out[pos - 1].timestamp_ms > ts
            invariant
                pos <= out@.len(),
                forall|m: int| pos <= m < out@.len() ==> out@[m].timestamp_ms > ts,
            decreases pos,
        {
            pos = pos - 1;
        }
        let ghost prev = out@;
        out.insert(pos, e);
        proof {
            broadcast use vstd::seq_lib::group_to_multiset_ensures;

            assert(out@ == prev.insert(pos as int, e));
            assert(e@ == v@[k as int]@);
            lemma_entry_views_insert_multiset(prev, e, pos as int);
            assert(v@.subrange(0, k + 1) =~= v@.subrange(0, k as int).push(v@[k as int]));
            lemma_entry_views(v@.subrange(0, k + 1));
            lemma_entry_views(v@.subrange(0, k as int));
            assert(entry_views(v@.subrange(0, k + 1)) =~= entry_views(
                v@.subrange(0, k as int),
            ).push(v@[k as int]@));
            assert(entry_views(out@).to_multiset() =~= entry_views(
                v@.subrange(0, k + 1),
            ).to_multiset());
            assert forall|i: int, j: int|
                0 <= i <= j < out@.len() implies out@[i].timestamp_ms
                <= out@[j].timestamp_ms by {
                if i < pos {
                    assert(out@[i] == prev[i]);
                }
                if j < pos {
                    assert(out@[j] == prev[j]);
                }
                if i > pos {
                    assert(out@[i] == prev[i - 1]);
                }
                if j > pos {
                    assert(out@[j] == prev[j - 1]);
                }
                if i == pos {
                    assert(out@[i] == e);
                }
                if j == pos {
                    assert(out@[j] == e);
                    if i < pos {
                        assert(pos >= 1);
                        assert(prev[i].timestamp_ms <= prev[pos - 1].timestamp_ms);
                        assert(prev[pos - 1].timestamp_ms <= ts);
                    }
                }
            }
            assert forall|i: int|
                0 <= i < out@.len() implies entry_views(v@).contains(#[trigger] out@[i]@) by {
                if i < pos {
                    assert(out@[i] == prev[i]);
                } else if i == pos {
                    assert(out@[i]@ == v@[k as int]@);
                    assert(entry_views(v@)[k as int] == v@[k as int]@);
                } else {
                    assert(out@[i] == prev[i - 1]);
                }
            }
        }
        k = k + 1;
    }
    proof {
        assert(v@.subrange(0, v@.len() as int) =~= v@);
    }
    out
}

impl ContextLedger {
    /// The session component a request resolves to against this ledger.
    pub open spec fn resolved_session(self, req: LedgerQueryRequest) -> Seq<char> {
        resolve_target(opt_str_view(req.session_id), self.cfg.session_id@)
    }

    pub open spec fn resolved_agent(self, req: LedgerQueryRequest) -> Seq<char> {
        resolve_target(opt_str_view(req.agent_id), self.cfg.agent_id@)
    }

    pub open spec fn resolved_mode(self, req: LedgerQueryRequest) -> Seq<char> {
        resolve_target(opt_str_view(req.mode), self.cfg.mode@)
    }

    /// Runs a query against records that the caller read from the target
    /// triple's file (or against this ledger's own records). Only the
    /// permission gate can fail.
    #[verifier::loop_isolation(false)]
    pub fn query_with_entries(
        &self,
        request: &LedgerQueryRequest,
        entries: &Vec<LedgerEntry>,
    ) -> (r: Result<LedgerQueryResponse, ContextLedgerError>)
        requires
            self.wf(),
        ensures
            match r {
                Ok(resp) => {
                    let matched = entry_views(entries@).filter(
                        |ev: LedgerEntryView| passes_request(
                            ev,
                            *request,
                            self.resolved_session(*request),
                            self.resolved_agent(*request),
                            self.resolved_mode(*request),
                        ),
                    );
                    &&& self.may_read(self.resolved_agent(*request))
                    &&& resp.total == matched.len()
                    &&& resp.truncated == (resp.total > effective_limit(request.limit))
                    &&& resp.entries@.len() == (if matched.len() <= effective_limit(request.limit) {
                        matched.len() as int
                    } else {
                        effective_limit(request.limit)
                    })
                    &&& (forall|i: int, j: int|
                        0 <= i <= j < resp.entries@.len() ==> resp.entries@[i].timestamp_ms
                            <= resp.entries@[j].timestamp_ms)
                    &&& (forall|i: int|
                        0 <= i < resp.entries@.len() ==> passes_request(
                            resp.entries@[i]@,
                            *request,
                            self.resolved_session(*request),
                            self.resolved_agent(*request),
                            self.resolved_mode(*request),
                        ))
                    &&& (exists|sorted_all: Seq<LedgerEntryView>|
                        {
                            &&& #[trigger] sorted_all.to_multiset() == matched.to_multiset()
                            &&& sorted_all.len() == matched.len()
                            &&& (forall|i: int, j: int|
                                0 <= i <= j < sorted_all.len() ==> sorted_all[i].timestamp_ms
                                    <= sorted_all[j].timestamp_ms)
                            &&& entry_views(resp.entries@) == sorted_all.skip(
                                sorted_all.len() - resp.entries@.len(),
                            )
                        })
                    &&& resp.timeline@.len() == resp.entries@.len()
                    &&& (forall|i: int|
                        0 <= i < resp.timeline@.len() ==> {
                            let p = #[trigger] resp.timeline@[i];
                            let e = resp.entries@[i];
                            &&& p.id@ == e.id@
                            &&& p.timestamp_ms == e.timestamp_ms
                            &&& p.timestamp_iso@ == e.timestamp_iso@
                            &&& p.event_type@ == e.event_type@
                            &&& p.agent_id@ == e.agent_id@
                            &&& p.mode@ == e.mode@
                            &&& p.preview@ == preview_spec(json_text(e.payload@), 160)
                        })
                },
                Err(err) => {
                    &&& !self.may_read(self.resolved_agent(*request))
                    &&& err is PermissionDenied
                },
            },
    {
        let own_agent = sanitize_component(self.cfg.agent_id.as_str());
        let target_session = resolve_component(&request.session_id, self.cfg.session_id.as_str());
        let target_agent = resolve_component(&request.agent_id, self.cfg.agent_id.as_str());
        let target_mode = resolve_component(&request.mode, self.cfg.mode.as_str());

        if !crate::text::str_eq(target_agent.as_str(), own_agent.as_str()) && !self.cfg.can_read_all
            && !member_str(&self.readable_agent_set, target_agent.as_str()) {
            return Err(ContextLedgerError::PermissionDenied { agent_id: target_agent });
        }

        let source = resolve_ledger_path(
            self.cfg.root_dir.as_str(),
            target_session.as_str(),
            target_agent.as_str(),
            target_mode.as_str(),
        );

        // Normalize the event-type set and the needle once.
        let ghost raw_types = str_views(request.event_types@);
        let mut types: Vec<String> = Vec::new();
        let mut i: usize = 0;
        proof {
            reveal(Seq::filter);
            assert(raw_types.subrange(0, 0) =~= Seq::<Seq<char>>::empty());
            assert(str_views(types@) =~= norm_types_spec(raw_types.subrange(0, 0)));
        }
        while i < request.event_types.len()
            invariant
                i <= request.event_types@.len(),
                str_views(types@) == norm_types_spec(raw_types.subrange(0, i as int)),
            decreases request.event_types@.len() - i,
        {
            let t = trim_str(request.event_types[i].as_str());
            let lt = crate::text::lowercase(t.as_str());
            proof {
                reveal(Seq::filter);
                assert(raw_types.subrange(0, i + 1) =~= raw_types.subrange(0, i as int).push(
                    raw_types[i as int]));
                assert(raw_types.subrange(0, i + 1).map_values(
                    |t: Seq<char>| lower_of(trim_spec(t)),
                ) =~= raw_types.subrange(0, i as int).map_values(
                    |t: Seq<char>| lower_of(trim_spec(t)),
                ).push(lower_of(trim_spec(raw_types[i as int]))));
                assert(raw_types.subrange(0, i + 1).map_values(
                    |t: Seq<char>| lower_of(trim_spec(t)),
                ).drop_last() =~= raw_types.subrange(0, i as int).map_values(
                    |t: Seq<char>| lower_of(trim_spec(t)),
                ));
                assert(raw_types[i as int] == request.event_types@[i as int]@);
            }
            if !lt.as_str().is_empty() {
                let ghost prev = str_views(types@);
                types.push(lt);
                proof {
                    assert(str_views(types@) =~= prev.push(
                        lower_of(trim_spec(raw_types[i as int])),
                    ));
                }
            }
            proof {
                assert(str_views(types@) =~= norm_types_spec(raw_types.subrange(0, i + 1)));
            }
            i = i + 1;
        }
        proof {
            assert(raw_types.subrange(0, raw_types.len() as int) =~= raw_types);
        }

        let needle: Option<String> = match &request.contains {
            Some(c) => {
                let t = trim_str(c.as_str());
                let lt = crate::text::lowercase(t.as_str());
                if lt.as_str().is_empty() {
                    None
                } else {
                    Some(lt)
                }
            },
            None => None,
        };
        proof {
            assert(opt_str_view(needle) == norm_needle_spec(opt_str_view(request.contains)));
        }

        // Filter.
        let ghost pred = |ev: LedgerEntryView|
            passes_request(
                ev,
                *request,
                self.resolved_session(*request),
                self.resolved_agent(*request),
                self.resolved_mode(*request),
            );
        let ghost evs = entry_views(entries@);
        let mut matched: Vec<LedgerEntry> = Vec::new();
        let mut i: usize = 0;
        proof {
            lemma_entry_views(entries@);
            reveal(Seq::filter);
            assert(evs.subrange(0, 0) =~= Seq::<LedgerEntryView>::empty());
            assert(entry_views(matched@) =~= evs.subrange(0, 0).filter(pred));
            assert(entry_views(matched@).len() == 0);
            lemma_entry_views(matched@);
        }
        while i < entries.len()
            invariant
                i <= entries@.len(),
                evs == entry_views(entries@),
                evs.len() == entries@.len(),
                matched@.len() <= i,
                entry_views(matched@) == evs.subrange(0, i as int).filter(pred),
            decreases entries@.len() - i,
        {
            proof {
                reveal(Seq::filter);
                assert(evs.subrange(0, i + 1) =~= evs.subrange(0, i as int).push(evs[i as int]));
                assert(evs.subrange(0, i + 1).drop_last() =~= evs.subrange(0, i as int));
                assert(evs[i as int] == entries@[i as int]@);
                evs.subrange(0, i + 1).lemma_filter_len(pred);
            }
            if entry_passes_exec(&entries[i], request.since_ms, request.until_ms, &types, &needle,
                request.fuzzy, target_session.as_str(), target_agent.as_str(),
                target_mode.as_str()) {
                let ghost prev_vec = matched@;
                let ghost prev = entry_views(matched@);
                let c = entry_clone(&entries[i]);
                matched.push(c);
                proof {
                    lemma_entry_views(prev_vec);
                    lemma_entry_views(matched@);
                    assert(matched@ == prev_vec.push(c));
                    assert(entry_views(matched@) =~= prev.push(c@));
                }
            }
            proof {
                assert(entry_views(matched@) =~= evs.subrange(0, i + 1).filter(pred));
            }
            i = i + 1;
        }
        proof {
            assert(evs.subrange(0, evs.len() as int) =~= evs);
        }
        let total = matched.len();

        let limit: usize = match request.limit {
            Some(l) => if l < 1 {
                1
            } else if l > 500 {
                500
            } else {
                l
            },
            None => 50,
        };
        let truncated = total > limit;

        let ghost matched_views = entry_views(matched@);
        proof {
            lemma_entry_views(matched@);
        }
        let sorted = sort_entries_by_ts(matched);
        let start: usize = if truncated {
            total - limit
        } else {
            0
        };
        let mut kept: Vec<LedgerEntry> = Vec::new();
        let mut k: usize = start;
        while k < sorted.len()
            invariant
                start <= k <= sorted@.len(),
                kept@.len() == k - start,
                forall|i: int, j: int|
                    0 <= i <= j < sorted@.len() ==> sorted@[i].timestamp_ms
                        <= sorted@[j].timestamp_ms,
                forall|i: int|
                    0 <= i < sorted@.len() ==> matched_views.contains(#[trigger] sorted@[i]@),
                forall|i: int| 0 <= i < kept@.len() ==> kept@[i]@ == sorted@[start + i]@,
                forall|i: int|
                    0 <= i < kept@.len() ==> kept@[i].timestamp_ms == sorted@[start
                        + i].timestamp_ms,
            decreases sorted@.len() - k,
        {
            let c = entry_clone(&sorted[k]);
            kept.push(c);
            k = k + 1;
        }

        // Timeline.
        let mut timeline: Vec<LedgerTimelinePoint> = Vec::new();
        let mut k: usize = 0;
        while k < kept.len()
            invariant
                k <= kept@.len(),
                timeline@.len() == k,
                forall|i: int|
                    0 <= i < k ==> {
                        let p = #[trigger] timeline@[i];
                        let e = kept@[i];
                        &&& p.id@ == e.id@
                        &&& p.timestamp_ms == e.timestamp_ms
                        &&& p.timestamp_iso@ == e.timestamp_iso@
                        &&& p.event_type@ == e.event_type@
                        &&& p.agent_id@ == e.agent_id@
                        &&& p.mode@ == e.mode@
                        &&& p.preview@ == preview_spec(json_text(e.payload@), 160)
                    },
            decreases kept@.len() - k,
        {
            let e = &kept[k];
            let ptext = json_to_text(&e.payload);
            let point = LedgerTimelinePoint {
                id: e.id.clone(),
                timestamp_ms: e.timestamp_ms,
                timestamp_iso: e.timestamp_iso.clone(),
                event_type: e.event_type.clone(),
                agent_id: e.agent_id.clone(),
                mode: e.mode.clone(),
                preview: build_preview(ptext.as_str(), 160),
            };
            timeline.push(point);
            k = k + 1;
        }

        proof {
            assert forall|i: int|
                0 <= i < kept@.len() implies passes_request(
                kept@[i]@,
                *request,
                self.resolved_session(*request),
                self.resolved_agent(*request),
                self.resolved_mode(*request),
            ) by {
                assert(matched_views.contains(sorted@[start + i]@));
                let j = choose|j: int|
                    0 <= j < matched_views.len() && matched_views[j] == sorted@[start + i]@;
                evs.lemma_filter_pred(pred, j);
            }
            broadcast use vstd::seq_lib::group_to_multiset_ensures;

            lemma_entry_views(sorted@);
            lemma_entry_views(kept@);
            let w = entry_views(sorted@);
            assert(w.to_multiset() == matched_views.to_multiset());
            assert(w.len() == matched_views.len());
            assert(forall|i: int, j: int|
                0 <= i <= j < w.len() ==> #[trigger] w[i].timestamp_ms <= #[trigger] w[
                j].timestamp_ms);
            assert(entry_views(kept@) =~= w.skip(start as int));
            assert(w.len() - entry_views(kept@).len() == start);
        }

        Ok(LedgerQueryResponse { entries: kept, timeline, total, truncated, source })
    }

    /// A query against this ledger's own records.
    pub fn query(&self, request: &LedgerQueryRequest) -> (r: Result<
        LedgerQueryResponse,
        ContextLedgerError,
    >)
        requires
            self.wf(),
        ensures
            match r {
                Ok(resp) => {
                    let matched = entry_views(self.entries@).filter(
                        |ev: LedgerEntryView| passes_request(
                            ev,
                            *request,
                            self.resolved_session(*request),
                            self.resolved_agent(*request),
                            self.resolved_mode(*request),
                        ),
                    );
                    &&& self.may_read(self.resolved_agent(*request))
                    &&& resp.total == matched.len()
                    &&& resp.truncated == (resp.total > effective_limit(request.limit))
                    &&& resp.entries@.len() == (if matched.len() <= effective_limit(request.limit) {
                        matched.len() as int
                    } else {
                        effective_limit(request.limit)
                    })
                    &&& (forall|i: int, j: int|
                        0 <= i <= j < resp.entries@.len() ==> resp.entries@[i].timestamp_ms
                            <= resp.entries@[j].timestamp_ms)
                    &&& (forall|i: int|
                        0 <= i < resp.entries@.len() ==> passes_request(
                            resp.entries@[i]@,
                            *request,
                            self.resolved_session(*request),
                            self.resolved_agent(*request),
                            self.resolved_mode(*request),
                        ))
                    &&& (exists|sorted_all: Seq<LedgerEntryView>|
                        {
                            &&& #[trigger] sorted_all.to_multiset() == matched.to_multiset()
                            &&& sorted_all.len() == matched.len()
                            &&& (forall|i: int, j: int|
                                0 <= i <= j < sorted_all.len() ==> sorted_all[i].timestamp_ms
                                    <= sorted_all[j].timestamp_ms)
                            &&& entry_views(resp.entries@) == sorted_all.skip(
                                sorted_all.len() - resp.entries@.len(),
                            )
                        })
                    &&& resp.timeline@.len() == resp.entries@.len()
                    &&& (forall|i: int|
                        0 <= i < resp.timeline@.len() ==> {
                            let p = #[trigger] resp.timeline@[i];
                            let e = resp.entries@[i];
                            &&& p.id@ == e.id@
                            &&& p.timestamp_ms == e.timestamp_ms
                            &&& p.timestamp_iso@ == e.timestamp_iso@
                            &&& p.event_type@ == e.event_type@
                            &&& p.agent_id@ == e.agent_id@
                            &&& p.mode@ == e.mode@
                            &&& p.preview@ == preview_spec(json_text(e.payload@), 160)
                        })
                },
                Err(err) => {
                    &&& !self.may_read(self.resolved_agent(*request))
                    &&& err is PermissionDenied
                },
            },
    {
        self.query_with_entries(request, &self.entries)
    }
}

fn resolve_component(opt: &Option<String>, own: &str) -> (r: String)
    ensures
        r@ == resolve_target(opt_str_view(*opt), own@),
{
    match opt {
        Some(s) => {
            let c = sanitize_component(s.as_str());
            if c.as_str().is_empty() {
                sanitize_component(own)
            } else {
                c
            }
        },
        None => sanitize_component(own),
    }
}


// ---------------------------------------------------------------------------
// Compact memory.
// ---------------------------------------------------------------------------

/// The persisted shape of one compact-memory record.
pub open spec fn compact_record_json(
    id: Seq<char>,
    timestamp_ms: u64,
    timestamp_iso: Seq<char>,
    session_id: Seq<char>,
    agent_id: Seq<char>,
    mode: Seq<char>,
    role: Option<Seq<char>>,
    payload: Json,
) -> Json {
    Json::Obj(
        seq![
            ("id"@, Json::Str(id)),
            ("timestamp_ms"@, Json::UInt(timestamp_ms)),
            ("timestamp_iso"@, Json::Str(timestamp_iso)),
            ("session_id"@, Json::Str(session_id)),
            ("agent_id"@, Json::Str(agent_id)),
            ("mode"@, Json::Str(mode)),
            ("role"@, match role {
                Some(r) => Json::Str(r),
                None => Json::Null,
            }),
            ("payload"@, payload),
        ],
    )
}

/// The text whose sanitization becomes a record's index summary: its
/// payload's `summary` string, else the whole payload rendered.
pub open spec fn record_summary_src(r: CompactRecordView) -> Seq<char> {
    match jstr_field(r.payload, "summary"@) {
        Some(s) => s,
        None => json_text(r.payload),
    }
}

/// Whether a record survives into the index: its sanitized summary trims
/// non-empty.
pub open spec fn record_kept(r: CompactRecordView) -> bool {
    trim_spec(sanitize_summary_spec(record_summary_src(r))).len() > 0
}

/// One record's index entry.
pub open spec fn record_index_entry(r: CompactRecordView) -> Json {
    Json::Obj(
        seq![
            ("id"@, Json::Str(r.id)),
            ("timestamp_ms"@, Json::UInt(r.timestamp_ms)),
            ("timestamp_iso"@, Json::Str(r.timestamp_iso)),
            ("summary"@, Json::Str(sanitize_summary_spec(record_summary_src(r)))),
            ("source_time_start"@, match jstr_field(r.payload, "source_time_start"@) {
                Some(s) => Json::Str(s),
                None => Json::Null,
            }),
            ("source_time_end"@, match jstr_field(r.payload, "source_time_end"@) {
                Some(s) => Json::Str(s),
                None => Json::Null,
            }),
        ],
    )
}

/// The index entries of the surviving records, in record order.
pub open spec fn kept_index_entries(rs: Seq<CompactRecordView>) -> Seq<Json>
    decreases rs.len(),
{
    if rs.len() == 0 {
        Seq::empty()
    } else {
        let rest = kept_index_entries(rs.drop_last());
        if record_kept(rs.last()) {
            rest.push(record_index_entry(rs.last()))
        } else {
            rest
        }
    }
}

/// The entries array of an index document, empty when malformed.
pub open spec fn index_entries_of(doc: Json) -> Seq<Json> {
    match jget(doc, "entries"@) {
        Some(e) => match e {
            Json::Arr(items) => items,
            _ => Seq::empty(),
        },
        None => Seq::empty(),
    }
}

/// The timestamp an index entry is ordered by.
pub open spec fn index_ts_of(v: Json) -> u64 {
    match jget(v, "timestamp_ms"@) {
        Some(t) => match t {
            Json::UInt(n) => n,
            _ => 0,
        },
        _ => 0,
    }
}

/// What the rebuilt index must look like: the marker fields, a correct
/// count, and entries ascending by timestamp.
pub open spec fn index_doc_ok(doc: Json, rebuilt_at_ms: u64) -> bool {
    &&& jget(doc, "timeline_order"@) == Some(Json::Str("ascending"@))
    &&& jget(doc, "rebuilt_at_ms"@) == Some(Json::UInt(rebuilt_at_ms))
    &&& jget(doc, "rebuilt_at_iso"@) == Some(
        Json::Str(crate::clock::rfc3339_of(rebuilt_at_ms)),
    )
    &&& (match jget(doc, "entries"@) {
        Some(e) => match e {
            Json::Arr(items) => {
                &&& jget(doc, "entry_count"@) == Some(Json::UInt(items.len() as u64))
                &&& (forall|i: int, j: int|
                    0 <= i <= j < items.len() ==> index_ts_of(#[trigger] items[i]) <= index_ts_of(
                        #[trigger] items[j],
                    ))
            },
            _ => false,
        },
        None => false,
    })
}

proof fn lemma_seq_empty_to_multiset<A>()
    ensures
        Seq::<A>::empty().to_multiset() =~= Multiset::<A>::empty(),
{
    broadcast use vstd::seq_lib::group_to_multiset_ensures;

    assert forall|x: A| Seq::<A>::empty().to_multiset().count(x) == 0 by {
        if Seq::<A>::empty().to_multiset().count(x) > 0 {
            assert(Seq::<A>::empty().contains(x));
        }
    }
}

/// Inserting one element adds exactly its view to the views' multiset.
proof fn lemma_views_insert_multiset(prev: Seq<JsonValue>, e: JsonValue, pos: int)
    requires
        0 <= pos <= prev.len(),
    ensures
        views_of(prev.insert(pos, e)).to_multiset() =~= views_of(prev).to_multiset().insert(e@),
{
    broadcast use vstd::seq_lib::group_to_multiset_ensures;

    let ins = prev.insert(pos, e);
    let tk = prev.take(pos);
    let sk = prev.skip(pos);
    assert(ins =~= tk + seq![e] + sk);
    crate::json::lemma_views_of_concat(tk + seq![e], sk);
    crate::json::lemma_views_of_concat(tk, seq![e]);
    assert(seq![e].drop_first() =~= Seq::<JsonValue>::empty());
    assert(views_of(seq![e]) == seq![e@] + views_of(Seq::<JsonValue>::empty()));
    assert(views_of(seq![e]) =~= seq![e@]);
    assert(seq![e@] =~= Seq::<Json>::empty().push(e@));
    lemma_seq_empty_to_multiset::<Json>();
    vstd::seq_lib::lemma_multiset_commutative(views_of(tk) + views_of(seq![e]), views_of(sk));
    vstd::seq_lib::lemma_multiset_commutative(views_of(tk), views_of(seq![e]));
    assert(prev =~= tk + sk);
    crate::json::lemma_views_of_concat(tk, sk);
    vstd::seq_lib::lemma_multiset_commutative(views_of(tk), views_of(sk));
    assert(views_of(ins).to_multiset() =~= views_of(prev).to_multiset().insert(e@));
}

#[verifier::loop_isolation(false)]
fn sort_json_by_ts(v: Vec<JsonValue>) -> (r: Vec<JsonValue>)
    ensures
        r@.len() == v@.len(),
        forall|i: int, j: int|
            0 <= i <= j < r@.len() ==> index_ts_of(#[trigger] r@[i]@) <= index_ts_of(
                #[trigger] r@[j]@,
            ),
        views_of(r@).to_multiset() == views_of(v@).to_multiset(),
{
    proof {
        lemma_views_of(v@);
        broadcast use vstd::seq_lib::group_to_multiset_ensures;

        assert(v@.subrange(0, 0) =~= Seq::<JsonValue>::empty());
        lemma_seq_empty_to_multiset::<Json>();
        assert(views_of(Seq::<JsonValue>::empty()) =~= Seq::<Json>::empty());
    }
    let mut out: Vec<JsonValue> = Vec::new();
    let mut k: usize = 0;
    while k < v.len()
        invariant
            k <= v@.len(),
            out@.len() == k,
            forall|i: int, j: int|
                0 <= i <= j < out@.len() ==> index_ts_of(#[trigger] out@[i]@) <= index_ts_of(
                    #[trigger] out@[j]@,
                ),
            views_of(out@).to_multiset() == views_of(v@.subrange(0, k as int)).to_multiset(),
        decreases v@.len() - k,
    {
        let e = json_clone(&v[k]);
        let ts: u64 = match e.get("timestamp_ms") {
            Some(t) => match t.as_u64() {
                Some(n) => n,
                None => 0,
            },
            None => 0,
        };
        proof {
            assert(ts == index_ts_of(e@));
        }
        let mut pos: usize = out.len();
        while pos > 0 && ts_field_of(&out[pos - 1]) > ts
            invariant
                pos <= out@.len(),
                forall|m: int| pos <= m < out@.len() ==> index_ts_of(#[trigger] out@[m]@) > ts,
            decreases pos,
        {
            pos = pos - 1;
        }
        let ghost prev = out@;
        out.insert(pos, e);
        proof {
            broadcast use vstd::seq_lib::group_to_multiset_ensures;

            assert(out@ == prev.insert(pos as int, e));
            lemma_views_insert_multiset(prev, e, pos as int);
            assert(v@.subrange(0, k + 1) =~= v@.subrange(0, k as int).push(v@[k as int]));
            lemma_views_of(v@.subrange(0, k + 1));
            lemma_views_of(v@.subrange(0, k as int));
            assert(views_of(v@.subrange(0, k + 1)) =~= views_of(v@.subrange(0, k as int)).push(
                v@[k as int]@));
            assert(views_of(out@).to_multiset() =~= views_of(
                v@.subrange(0, k + 1),
            ).to_multiset());
            assert forall|i: int, j: int|
                0 <= i <= j < out@.len() implies index_ts_of(#[trigger] out@[i]@) <= index_ts_of(
                #[trigger] out@[j]@,
            ) by {
                if i < pos {
                    assert(out@[i] == prev[i]);
                }
                if j < pos {
                    assert(out@[j] == prev[j]);
                }
                if i > pos {
                    assert(out@[i] == prev[i - 1]);
                }
                if j > pos {
                    assert(out@[j] == prev[j - 1]);
                }
                if i == pos {
                    assert(out@[i] == e);
                }
                if j == pos {
                    assert(out@[j] == e);
                    if i < pos {
                        assert(index_ts_of(prev[i]@) <= index_ts_of(prev[pos - 1]@));
                        assert(index_ts_of(prev[pos - 1]@) <= ts);
                    }
                }
            }
        }
        k = k + 1;
    }
    proof {
        assert(v@.subrange(0, v@.len() as int) =~= v@);
    }
    out
}

/// The `timestamp_ms` field of an index entry, zero when absent.
fn ts_field_of(v: &JsonValue) -> (r: u64)
    ensures
        r == index_ts_of(v@),
{
    match v.get("timestamp_ms") {
        Some(t) => match t.as_u64() {
            Some(n) => n,
            None => 0,
        },
        None => 0,
    }
}

impl ContextLedger {
    /// Records an already-persisted compact record read back by the caller.
    /// The counter advances past it, as `load_entry` does.
    pub fn load_compact_record(&mut self, r: CompactRecord)
        ensures
            final(self).cfg == old(self).cfg,
            final(self).readable_agent_set == old(self).readable_agent_set,
            final(self).entries == old(self).entries,
            final(self).focus == old(self).focus,
            final(self).next_counter == (if old(self).next_counter < u64::MAX {
                (old(self).next_counter + 1) as u64
            } else {
                u64::MAX
            }),
            final(self).compact_records@ == old(self).compact_records@.push(r),
    {
        self.compact_records.push(r);
        if self.next_counter < u64::MAX {
            self.next_counter = self.next_counter + 1;
        }
    }

    /// Appends one compact-memory record and rebuilds the index. The first
    /// returned string is the record's jsonl line; the second is the whole
    /// index document, both for the caller to persist.
    pub fn append_compact_memory(&mut self, payload: JsonValue) -> (r: (String, String))
        requires
            old(self).wf(),
        ensures
            final(self).wf(),
            final(self).cfg == old(self).cfg,
            final(self).readable_agent_set == old(self).readable_agent_set,
            final(self).entries == old(self).entries,
            final(self).focus == old(self).focus,
            final(self).next_counter == (if old(self).next_counter < u64::MAX {
                (old(self).next_counter + 1) as u64
            } else {
                u64::MAX
            }),
            final(self).compact_records@.len() == old(self).compact_records@.len() + 1,
            forall|i: int|
                0 <= i < old(self).compact_records@.len() ==> final(self).compact_records@[i]
                    == old(self).compact_records@[i],
            ({
                let rec = final(self).compact_records@.last();
                &&& rec.payload@ == payload@
                &&& rec.id@ == "cpt-"@ + crate::text::dec_of(rec.timestamp_ms as nat)
                    + seq!['-'] + crate::text::dec_of(old(self).next_counter as nat)
                &&& rec.timestamp_iso@ == crate::clock::rfc3339_of(rec.timestamp_ms)
                &&& r.0@ == json_text(
                    compact_record_json(
                        rec.id@,
                        rec.timestamp_ms,
                        rec.timestamp_iso@,
                        old(self).cfg.session_id@,
                        old(self).cfg.agent_id@,
                        old(self).cfg.mode@,
                        opt_str_view(old(self).cfg.role),
                        payload@,
                    ),
                )
            }),
            exists|doc: Json, ms: u64|
                {
                    &&& r.1@ == json_text(doc)
                    &&& #[trigger] index_doc_ok(doc, ms)
                    &&& index_entries_of(doc).to_multiset() == kept_index_entries(
                        cr_views(final(self).compact_records@),
                    ).to_multiset()
                },
    {
        let stamp = crate::clock::now_timestamp();
        let id = make_id("cpt-", stamp.0, self.next_counter);
        if self.next_counter < u64::MAX {
            self.next_counter = self.next_counter + 1;
        }
        let mut fields: Vec<(String, JsonValue)> = Vec::new();
        fields.push((lit_string("id"), JsonValue::Str(id.clone())));
        fields.push((lit_string("timestamp_ms"), JsonValue::UInt(stamp.0)));
        fields.push((lit_string("timestamp_iso"), JsonValue::Str(stamp.1.clone())));
        fields.push((lit_string("session_id"), JsonValue::Str(self.cfg.session_id.clone())));
        fields.push((lit_string("agent_id"), JsonValue::Str(self.cfg.agent_id.clone())));
        fields.push((lit_string("mode"), JsonValue::Str(self.cfg.mode.clone())));
        match &self.cfg.role {
            Some(role) => {
                fields.push((lit_string("role"), JsonValue::Str(role.clone())));
            },
            None => {
                fields.push((lit_string("role"), JsonValue::Null));
            },
        }
        fields.push((lit_string("payload"), json_clone(&payload)));
        let ghost gf = fields@;
        let record_json = JsonValue::Obj(fields);
        proof {
            lemma_field_views_of(gf);
            match self.cfg.role {
                Some(_) => {
                    assert(field_views_of(gf) =~= compact_record_json(
                        id@,
                        stamp.0,
                        stamp.1@,
                        self.cfg.session_id@,
                        self.cfg.agent_id@,
                        self.cfg.mode@,
                        opt_str_view(self.cfg.role),
                        payload@,
                    )->Obj_0);
                },
                None => {
                    assert(field_views_of(gf) =~= compact_record_json(
                        id@,
                        stamp.0,
                        stamp.1@,
                        self.cfg.session_id@,
                        self.cfg.agent_id@,
                        self.cfg.mode@,
                        opt_str_view(self.cfg.role),
                        payload@,
                    )->Obj_0);
                },
            }
        }
        let line = json_to_text(&record_json);
        self.compact_records.push(
            CompactRecord { id, timestamp_ms: stamp.0, timestamp_iso: stamp.1, payload },
        );
        let index_text = self.rebuild_compact_memory_index();
        (line, index_text)
    }

    /// Rebuilds the compact-memory index from the records at hand: one
    /// entry per record whose sanitized summary survives, sorted ascending
    /// by timestamp.
    #[verifier::loop_isolation(false)]
    #[verifier::rlimit(100)]
    pub fn rebuild_compact_memory_index(&self) -> (r: String)
        ensures
            exists|doc: Json, ms: u64|
                {
                    &&& r@ == json_text(doc)
                    &&& #[trigger] index_doc_ok(doc, ms)
                    &&& index_entries_of(doc).to_multiset() == kept_index_entries(
                        cr_views(self.compact_records@),
                    ).to_multiset()
                },
    {
        let ghost rv = cr_views(self.compact_records@);
        let mut items: Vec<JsonValue> = Vec::new();
        let mut i: usize = 0;
        proof {
            assert(rv.subrange(0, 0) =~= Seq::<CompactRecordView>::empty());
            assert(views_of(items@) =~= kept_index_entries(rv.subrange(0, 0)));
        }
        while i < self.compact_records.len()
            invariant
                i <= self.compact_records@.len(),
                rv == cr_views(self.compact_records@),
                rv.len() == self.compact_records@.len(),
                views_of(items@) == kept_index_entries(rv.subrange(0, i as int)),
            decreases self.compact_records@.len() - i,
        {
            proof {
                assert(rv.subrange(0, i + 1) =~= rv.subrange(0, i as int).push(rv[i as int]));
                assert(rv.subrange(0, i + 1).drop_last() =~= rv.subrange(0, i as int));
                assert(rv[i as int] == self.compact_records@[i as int]@);
            }
            let rec = &self.compact_records[i];
            let summary_raw: String = match rec.payload.str_field("summary") {
                Some(s) => s.clone(),
                None => json_to_text(&rec.payload),
            };
            proof {
                assert(summary_raw@ == record_summary_src(rv[i as int]));
            }
            let summary = sanitize_compact_summary_text(summary_raw.as_str());
            let st = trim_str(summary.as_str());
            if !st.as_str().is_empty() {
                let mut fields: Vec<(String, JsonValue)> = Vec::new();
                fields.push((lit_string("id"), JsonValue::Str(rec.id.clone())));
                fields.push((lit_string("timestamp_ms"), JsonValue::UInt(rec.timestamp_ms)));
                fields.push((lit_string("timestamp_iso"), JsonValue::Str(
                    rec.timestamp_iso.clone(),
                )));
                fields.push((lit_string("summary"), JsonValue::Str(summary)));
                let start_val: JsonValue = match rec.payload.str_field("source_time_start") {
                    Some(s) => JsonValue::Str(s.clone()),
                    None => JsonValue::Null,
                };
                fields.push((lit_string("source_time_start"), start_val));
                let end_val: JsonValue = match rec.payload.str_field("source_time_end") {
                    Some(s) => JsonValue::Str(s.clone()),
                    None => JsonValue::Null,
                };
                fields.push((lit_string("source_time_end"), end_val));
                let ghost gf = fields@;
                let entry = JsonValue::Obj(fields);
                proof {
                    lemma_field_views_of(gf);
                    assert(field_views_of(gf) =~= record_index_entry(rv[i as int])->Obj_0);
                }
                let ghost prev_vec = items@;
                let ghost prev = views_of(items@);
                items.push(entry);
                proof {
                    lemma_views_of(prev_vec);
                    lemma_views_of(items@);
                    assert(views_of(items@) =~= prev.push(record_index_entry(rv[i as int])));
                }
            }
            proof {
                assert(views_of(items@) =~= kept_index_entries(rv.subrange(0, i + 1)));
            }
            i = i + 1;
        }
        proof {
            assert(rv.subrange(0, rv.len() as int) =~= rv);
        }
        let ghost items_seq = items@;
        let sorted = sort_json_by_ts(items);
        let stamp = crate::clock::now_timestamp();
        let count = sorted.len();
        let mut doc_fields: Vec<(String, JsonValue)> = Vec::new();
        doc_fields.push((lit_string("timeline_order"), JsonValue::Str(lit_string("ascending"))));
        doc_fields.push((lit_string("rebuilt_at_ms"), JsonValue::UInt(stamp.0)));
        doc_fields.push((lit_string("rebuilt_at_iso"), JsonValue::Str(stamp.1)));
        doc_fields.push((lit_string("entry_count"), JsonValue::UInt(count as u64)));
        let ghost sorted_seq = sorted@;
        let ghost sorted_views = views_of(sorted@);
        doc_fields.push((lit_string("entries"), JsonValue::Arr(sorted)));
        let ghost gd = doc_fields@;
        let doc = JsonValue::Obj(doc_fields);
        proof {
            lemma_field_views_of(gd);
            lemma_views_of(sorted_seq);
            key_literals_distinct();
            lemma_obj_get_at(field_views_of(gd), "timeline_order"@, 0);
            lemma_obj_get_at(field_views_of(gd), "rebuilt_at_ms"@, 1);
            lemma_obj_get_at(field_views_of(gd), "rebuilt_at_iso"@, 2);
            lemma_obj_get_at(field_views_of(gd), "entry_count"@, 3);
            lemma_obj_get_at(field_views_of(gd), "entries"@, 4);
            assert(sorted_views.len() == sorted_seq.len());
            assert forall|i: int, j: int|
                0 <= i <= j < sorted_views.len() implies index_ts_of(#[trigger] sorted_views[i])
                <= index_ts_of(#[trigger] sorted_views[j]) by {
                assert(sorted_views[i] == sorted_seq[i]@);
                assert(sorted_views[j] == sorted_seq[j]@);
            }
            assert(index_doc_ok(doc@, stamp.0));
            assert(index_entries_of(doc@) == sorted_views);
            assert(index_entries_of(doc@).to_multiset() == kept_index_entries(rv).to_multiset());
        }
        json_to_text(&doc)
    }
}

/// The index's five keys are pairwise distinct.
proof fn key_literals_distinct()
    ensures
        "timeline_order"@ != "rebuilt_at_ms"@,
        "timeline_order"@ != "rebuilt_at_iso"@,
        "timeline_order"@ != "entry_count"@,
        "timeline_order"@ != "entries"@,
        "rebuilt_at_ms"@ != "rebuilt_at_iso"@,
        "rebuilt_at_ms"@ != "entry_count"@,
        "rebuilt_at_ms"@ != "entries"@,
        "rebuilt_at_iso"@ != "entry_count"@,
        "rebuilt_at_iso"@ != "entries"@,
        "entry_count"@ != "entries"@,
{
    reveal_strlit("timeline_order");
    reveal_strlit("rebuilt_at_ms");
    reveal_strlit("rebuilt_at_iso");
    reveal_strlit("entry_count");
    reveal_strlit("entries");
    assert("timeline_order"@.len() == 14);
    assert("rebuilt_at_ms"@.len() == 13);
    assert("rebuilt_at_iso"@.len() == 14);
    assert("entry_count"@.len() == 11);
    assert("entries"@.len() == 7);
    assert("timeline_order"@[0] == 't');
    assert("rebuilt_at_iso"@[0] == 'r');
}

} // verus!
