//! History compaction: the long tail of a conversation is replaced by the
//! initial-context prefix, optionally the user messages, and one
//! `<history_summary>` block.

use vstd::prelude::*;
use crate::json::JsonValue;
use crate::json::Json;
use crate::json::views_of;
use crate::json::lemma_views_of;
use crate::json::jget;
use crate::json::jstr_field;
use crate::json::jas_str;
use crate::json::jas_u64;
use crate::json::json_eq;
use crate::json::json_clone;
use crate::json::field_views_of;
use crate::json::lemma_field_views_of;
use crate::text::seq_contains;
use crate::text::contains_at;
use crate::text::trim_spec;
use crate::text::trim_str;
use crate::text::trim_chars;
use crate::text::chars_of;
use crate::text::string_from_chars;
use crate::text::str_contains;
use crate::text::str_eq;
use crate::text::lines_of;
use crate::text::join_with;
use crate::text::find_first;
use crate::text::find_first_chars;
use crate::text::subvec_chars;
use crate::text::dec_of;
use crate::text::char_views;
use crate::protocol::CompactConfig;

verus! {

// ---------------------------------------------------------------------------
// Reading text out of history items.
// ---------------------------------------------------------------------------

/// The first non-empty `text` or `input_text` string of one content part.
pub open spec fn part_text(p: Json) -> Option<Seq<char>> {
    if jstr_field(p, "text"@) is Some && trim_spec(jstr_field(p, "text"@)->0).len() > 0 {
        Some(trim_spec(jstr_field(p, "text"@)->0))
    } else if jstr_field(p, "input_text"@) is Some && trim_spec(
        jstr_field(p, "input_text"@)->0,
    ).len() > 0 {
        Some(trim_spec(jstr_field(p, "input_text"@)->0))
    } else {
        None
    }
}

pub open spec fn first_text(parts: Seq<Json>) -> Option<Seq<char>>
    decreases parts,
{
    if parts.len() == 0 {
        None
    } else if part_text(parts[0]) is Some {
        part_text(parts[0])
    } else {
        first_text(parts.drop_first())
    }
}

proof fn lemma_first_text_at(parts: Seq<Json>, i: int)
    requires
        0 <= i < parts.len(),
        forall|k: int| 0 <= k < i ==> part_text(#[trigger] parts[k]) is None,
        part_text(parts[i]) is Some,
    ensures
        first_text(parts) == part_text(parts[i]),
    decreases i,
{
    if i > 0 {
        lemma_first_text_at(parts.drop_first(), i - 1);
        assert(parts.drop_first()[i - 1] == parts[i]);
    }
}

proof fn lemma_first_text_none(parts: Seq<Json>)
    requires
        forall|k: int| 0 <= k < parts.len() ==> part_text(#[trigger] parts[k]) is None,
    ensures
        first_text(parts) is None,
    decreases parts.len(),
{
    if parts.len() > 0 {
        lemma_first_text_none(parts.drop_first());
    }
}

/// The trimmed text carried by one history item, if any.
pub open spec fn item_text(item: Json) -> Option<Seq<char>> {
    match jget(item, "content"@) {
        Some(c) => match c {
            Json::Arr(parts) => first_text(parts),
            _ => None,
        },
        None => None,
    }
}

fn part_text_exec(p: &JsonValue) -> (r: Option<String>)
    ensures
        match r {
            Some(s) => part_text(p@) == Some(s@),
            None => part_text(p@) is None,
        },
{
    match p.str_field("text") {
        Some(s) => {
            let t = trim_str(s.as_str());
            if !t.as_str().is_empty() {
                return Some(t);
            }
        },
        None => {},
    }
    match p.str_field("input_text") {
        Some(s) => {
            let t = trim_str(s.as_str());
            if !t.as_str().is_empty() {
                return Some(t);
            }
        },
        None => {},
    }
    None
}

/// The first non-empty text content of an item, trimmed.
#[verifier::loop_isolation(false)]
pub fn extract_text_from_history_item(item: &JsonValue) -> (r: Option<String>)
    ensures
        match r {
            Some(s) => item_text(item@) == Some(s@),
            None => item_text(item@) is None,
        },
{
    let parts = match item.get("content") {
        Some(c) => match c.as_array() {
            Some(parts) => parts,
            None => {
                return None;
            },
        },
        None => {
            return None;
        },
    };
    proof {
        lemma_views_of(parts@);
    }
    let mut i: usize = 0;
    while i < parts.len()
        invariant
            i <= parts@.len(),
            item_text(item@) == first_text(views_of(parts@)),
            forall|k: int| 0 <= k < i ==> part_text(#[trigger] views_of(parts@)[k]) is None,
        decreases parts@.len() - i,
    {
        match part_text_exec(&parts[i]) {
            Some(s) => {
                proof {
                    lemma_first_text_at(views_of(parts@), i as int);
                }
                return Some(s);
            },
            None => {},
        }
        i = i + 1;
    }
    proof {
        lemma_first_text_none(views_of(parts@));
    }
    None
}

/// The item's `role` string, empty when absent or not a string.
pub open spec fn item_role(item: Json) -> Seq<char> {
    match jget(item, "role"@) {
        Some(r) => match jas_str(r) {
            Some(s) => s,
            None => Seq::empty(),
        },
        None => Seq::empty(),
    }
}

pub fn item_role_exec(item: &JsonValue) -> (r: String)
    ensures
        r@ == item_role(item@),
{
    match item.get("role") {
        Some(r) => match r.as_str() {
            Some(s) => s.clone(),
            None => String::new(),
        },
        None => String::new(),
    }
}

// ---------------------------------------------------------------------------
// Context blocks.
// ---------------------------------------------------------------------------

/// `<name>` then the content then `</name>`, each on its own line.
pub open spec fn wrap_block_spec(name: Seq<char>, content: Seq<char>) -> Seq<char> {
    seq!['<'] + name + seq!['>', '\n'] + content + seq!['\n', '<', '/'] + name + seq!['>']
}

pub fn wrap_context_block(name: &str, content: &str) -> (r: String)
    ensures
        r@ == wrap_block_spec(name@, content@),
{
    let mut out: Vec<char> = Vec::new();
    out.push('<');
    let nv = chars_of(name);
    crate::text::extend_chars(&mut out, &nv);
    out.push('>');
    out.push('\n');
    let cv = chars_of(content);
    crate::text::extend_chars(&mut out, &cv);
    out.push('\n');
    out.push('<');
    out.push('/');
    crate::text::extend_chars(&mut out, &nv);
    out.push('>');
    proof {
        assert(out@ =~= wrap_block_spec(name@, content@));
    }
    string_from_chars(&out)
}

/// Whether a text carries one of the initial-context tags.
pub open spec fn is_initial_ctx(text: Seq<char>) -> bool {
    ||| seq_contains(text, "<developer_instructions>"@)
    ||| seq_contains(text, "<user_instructions>"@)
    ||| seq_contains(text, "<environment_context>"@)
    ||| seq_contains(text, "<turn_context>"@)
    ||| seq_contains(text, "<context_ledger_focus>"@)
}

pub fn is_initial_context_block(text: &str) -> (r: bool)
    ensures
        r == is_initial_ctx(text@),
{
    str_contains(text, "<developer_instructions>") || str_contains(text, "<user_instructions>")
        || str_contains(text, "<environment_context>") || str_contains(text, "<turn_context>")
        || str_contains(text, "<context_ledger_focus>")
}

/// Initial-context tags, or the system-message tag.
pub open spec fn is_filtered_text(text: Seq<char>) -> bool {
    is_initial_ctx(text) || seq_contains(text, "<system_message>"@)
}

pub fn is_filtered_compact_text(text: &str) -> (r: bool)
    ensures
        r == is_filtered_text(text@),
{
    is_initial_context_block(text) || str_contains(text, "<system_message>")
}

/// The trimmed inside of the first `<name>`...`</name>` span, if both tags
/// occur in order.
pub open spec fn extract_block_spec(text: Seq<char>, name: Seq<char>) -> Option<Seq<char>> {
    let open_tag = seq!['<'] + name + seq!['>'];
    let close_tag = seq!['<', '/'] + name + seq!['>'];
    match find_first(text, open_tag) {
        Some(start) => {
            let content_start = (start + open_tag.len()) as int;
            match find_first(text.skip(content_start), close_tag) {
                Some(off) => Some(
                    trim_spec(text.subrange(content_start, content_start + off)),
                ),
                None => None,
            }
        },
        None => None,
    }
}

pub fn extract_context_block(text: &str, name: &str) -> (r: Option<String>)
    ensures
        match r {
            Some(s) => extract_block_spec(text@, name@) == Some(s@),
            None => extract_block_spec(text@, name@) is None,
        },
{
    let tv = chars_of(text);
    let mut open_tag: Vec<char> = Vec::new();
    open_tag.push('<');
    let nv = chars_of(name);
    crate::text::extend_chars(&mut open_tag, &nv);
    open_tag.push('>');
    let mut close_tag: Vec<char> = Vec::new();
    close_tag.push('<');
    close_tag.push('/');
    crate::text::extend_chars(&mut close_tag, &nv);
    close_tag.push('>');
    proof {
        assert(open_tag@ =~= seq!['<'] + name@ + seq!['>']);
        assert(close_tag@ =~= seq!['<', '/'] + name@ + seq!['>']);
    }
    let start = match find_first_chars(&tv, &open_tag) {
        Some(i) => i,
        None => {
            return None;
        },
    };
    proof {
        assert(tv.len() == tv@.len());
        assert(start + open_tag@.len() <= tv@.len());
    }
    let content_start = start + open_tag.len();
    let rest = subvec_chars(&tv, content_start, tv.len());
    proof {
        assert(rest@ =~= tv@.skip(content_start as int));
    }
    let off = match find_first_chars(&rest, &close_tag) {
        Some(i) => i,
        None => {
            return None;
        },
    };
    let inner = subvec_chars(&tv, content_start, content_start + off);
    let t = trim_chars(&inner);
    Some(string_from_chars(&t))
}

/// Sanitized cache summary: kept lines joined, or nothing when they all go.
pub open spec fn cache_lines(s: Seq<char>) -> Seq<Seq<char>> {
    lines_of(s).map_values(|l: Seq<char>| trim_spec(l)).filter(
        |l: Seq<char>| l.len() > 0 && !is_filtered_text(l),
    )
}

pub open spec fn sanitize_cache_spec(s: Seq<char>) -> Seq<char> {
    join_with(cache_lines(s), seq!['\n'])
}

/// Drops empty and prompt-like lines of a candidate summary; nothing is left
/// of a summary whose every line goes.
#[verifier::loop_isolation(false)]
pub fn sanitize_compact_cache_summary(summary: Option<&String>) -> (r: Option<String>)
    ensures
        match summary {
            Some(raw) => {
                let cleaned = sanitize_cache_spec(raw@);
                match r {
                    Some(s) => s@ == cleaned && trim_spec(cleaned).len() > 0,
                    None => trim_spec(cleaned).len() == 0,
                }
            },
            None => r is None,
        },
{
    let raw = match summary {
        Some(s) => s,
        None => {
            return None;
        },
    };
    let v = chars_of(raw.as_str());
    let lines = crate::text::lines_of_chars(&v);
    let ghost mapped = lines_of(raw@).map_values(|l: Seq<char>| trim_spec(l));
    let ghost pred = |l: Seq<char>| l.len() > 0 && !is_filtered_text(l);
    let mut kept: Vec<Vec<char>> = Vec::new();
    let mut i: usize = 0;
    proof {
        reveal(Seq::filter);
        assert(mapped.subrange(0, 0) =~= Seq::<Seq<char>>::empty());
        assert(char_views(kept@) =~= mapped.subrange(0, 0).filter(pred));
    }
    while i < lines.len()
        invariant
            i <= lines@.len(),
            char_views(lines@) == lines_of(raw@),
            mapped == lines_of(raw@).map_values(|l: Seq<char>| trim_spec(l)),
            char_views(kept@) == mapped.subrange(0, i as int).filter(pred),
        decreases lines@.len() - i,
    {
        let line = trim_chars(&lines[i]);
        let line_str = string_from_chars(&line);
        let keep = line.len() > 0 && !is_filtered_compact_text(line_str.as_str());
        proof {
            reveal(Seq::filter);
            assert(mapped.subrange(0, i + 1) =~= mapped.subrange(0, i as int).push(
                mapped[i as int]));
            assert(mapped.subrange(0, i + 1).drop_last() =~= mapped.subrange(0, i as int));
            assert(mapped[i as int] == trim_spec(lines_of(raw@)[i as int]));
            assert(line@ == mapped[i as int]);
            assert(keep == pred(mapped[i as int]));
        }
        if keep {
            let ghost prev = char_views(kept@);
            kept.push(line);
            proof {
                assert(char_views(kept@) =~= prev.push(line@));
            }
        }
        proof {
            assert(char_views(kept@) =~= mapped.subrange(0, i + 1).filter(pred));
        }
        i = i + 1;
    }
    proof {
        assert(mapped.subrange(0, mapped.len() as int) =~= mapped);
    }
    let mut sep: Vec<char> = Vec::new();
    sep.push('\n');
    proof {
        assert(sep@ =~= seq!['\n']);
    }
    let joined = crate::text::join_chars(&kept, &sep);
    let joined_str = string_from_chars(&joined);
    let t = trim_str(joined_str.as_str());
    if t.as_str().is_empty() {
        None
    } else {
        Some(joined_str)
    }
}

// ---------------------------------------------------------------------------
// Time bounds.
// ---------------------------------------------------------------------------

/// The first usable timestamp label of an item: a non-empty string field, in
/// order of preference, else a numeric one rendered as an integer.
pub open spec fn time_label(item: Json) -> Option<Seq<char>> {
    if jstr_field(item, "timestamp_iso"@) is Some && trim_spec(
        jstr_field(item, "timestamp_iso"@)->0,
    ).len() > 0 {
        Some(trim_spec(jstr_field(item, "timestamp_iso"@)->0))
    } else if jstr_field(item, "timestamp"@) is Some && trim_spec(
        jstr_field(item, "timestamp"@)->0,
    ).len() > 0 {
        Some(trim_spec(jstr_field(item, "timestamp"@)->0))
    } else if jstr_field(item, "created_at"@) is Some && trim_spec(
        jstr_field(item, "created_at"@)->0,
    ).len() > 0 {
        Some(trim_spec(jstr_field(item, "created_at"@)->0))
    } else if jstr_field(item, "time"@) is Some && trim_spec(jstr_field(item, "time"@)->0).len()
        > 0 {
        Some(trim_spec(jstr_field(item, "time"@)->0))
    } else if (match jget(item, "timestamp_ms"@) {
        Some(t) => jas_u64(t) is Some,
        None => false,
    }) {
        Some(dec_of(jas_u64(jget(item, "timestamp_ms"@)->0)->0 as nat))
    } else if (match jget(item, "time_ms"@) {
        Some(t) => jas_u64(t) is Some,
        None => false,
    }) {
        Some(dec_of(jas_u64(jget(item, "time_ms"@)->0)->0 as nat))
    } else if (match jget(item, "created_at_ms"@) {
        Some(t) => jas_u64(t) is Some,
        None => false,
    }) {
        Some(dec_of(jas_u64(jget(item, "created_at_ms"@)->0)->0 as nat))
    } else {
        None
    }
}

fn str_label(item: &JsonValue, key: &str) -> (r: Option<String>)
    ensures
        match r {
            Some(s) => jstr_field(item@, key@) is Some && s@ == trim_spec(
                jstr_field(item@, key@)->0,
            ) && s@.len() > 0,
            None => jstr_field(item@, key@) is None || trim_spec(
                jstr_field(item@, key@)->0,
            ).len() == 0,
        },
{
    match item.str_field(key) {
        Some(s) => {
            let t = trim_str(s.as_str());
            if !t.as_str().is_empty() {
                Some(t)
            } else {
                None
            }
        },
        None => None,
    }
}

fn num_label(item: &JsonValue, key: &str) -> (r: Option<u64>)
    ensures
        match r {
            Some(n) => jget(item@, key@) is Some && jas_u64(jget(item@, key@)->0) == Some(n),
            None => jget(item@, key@) is None || jas_u64(jget(item@, key@)->0) is None,
        },
{
    match item.get(key) {
        Some(t) => t.as_u64(),
        None => None,
    }
}

pub fn extract_time_label_from_history_item(item: &JsonValue) -> (r: Option<String>)
    ensures
        match r {
            Some(s) => time_label(item@) == Some(s@),
            None => time_label(item@) is None,
        },
{
    match str_label(item, "timestamp_iso") {
        Some(s) => {
            return Some(s);
        },
        None => {},
    }
    match str_label(item, "timestamp") {
        Some(s) => {
            return Some(s);
        },
        None => {},
    }
    match str_label(item, "created_at") {
        Some(s) => {
            return Some(s);
        },
        None => {},
    }
    match str_label(item, "time") {
        Some(s) => {
            return Some(s);
        },
        None => {},
    }
    match num_label(item, "timestamp_ms") {
        Some(n) => {
            return Some(crate::text::u64_to_dec(n));
        },
        None => {},
    }
    match num_label(item, "time_ms") {
        Some(n) => {
            return Some(crate::text::u64_to_dec(n));
        },
        None => {},
    }
    match num_label(item, "created_at_ms") {
        Some(n) => {
            return Some(crate::text::u64_to_dec(n));
        },
        None => {},
    }
    None
}

/// The first and the last timestamp label over a history.
pub open spec fn time_bounds(h: Seq<Json>) -> (Option<Seq<char>>, Option<Seq<char>>)
    decreases h.len(),
{
    if h.len() == 0 {
        (None, None)
    } else {
        let prior = time_bounds(h.drop_last());
        match time_label(h.last()) {
            Some(l) => (
                match prior.0 {
                    Some(f) => Some(f),
                    None => Some(l),
                },
                Some(l),
            ),
            None => prior,
        }
    }
}

#[verifier::loop_isolation(false)]
pub fn extract_history_time_bounds(history: &Vec<JsonValue>) -> (r: (
    Option<String>,
    Option<String>,
))
    ensures
        ({
            let b = time_bounds(views_of(history@));
            &&& crate::protocol::ov(r.0) == b.0
            &&& crate::protocol::ov(r.1) == b.1
        }),
{
    proof {
        lemma_views_of(history@);
    }
    let mut first: Option<String> = None;
    let mut last: Option<String> = None;
    let mut i: usize = 0;
    proof {
        assert(views_of(history@).subrange(0, 0) =~= Seq::<Json>::empty());
    }
    while i < history.len()
        invariant
            i <= history@.len(),
            crate::protocol::ov(first) == time_bounds(
                views_of(history@).subrange(0, i as int),
            ).0,
            crate::protocol::ov(last) == time_bounds(views_of(history@).subrange(0, i as int)).1,
        decreases history@.len() - i,
    {
        let ghost pre = views_of(history@).subrange(0, i as int);
        proof {
            assert(views_of(history@).subrange(0, i + 1) =~= pre.push(
                views_of(history@)[i as int]));
            assert(views_of(history@).subrange(0, i + 1).drop_last() =~= pre);
        }
        match extract_time_label_from_history_item(&history[i]) {
            Some(l) => {
                if first.is_none() {
                    first = Some(l.clone());
                }
                last = Some(l);
            },
            None => {},
        }
        i = i + 1;
    }
    proof {
        assert(views_of(history@).subrange(0, views_of(history@).len() as int) =~= views_of(
            history@,
        ));
    }
    (first, last)
}


// ---------------------------------------------------------------------------
// The summary text.
// ---------------------------------------------------------------------------

/// The newline-joined pieces of the summary: the header fields, the merged
/// previous summary when one survives sanitization, the optional hint, and
/// the last 24 narrative lines.
pub open spec fn summary_pieces(
    prev: Option<Seq<char>>,
    lines: Seq<Seq<char>>,
    hint: Option<Seq<char>>,
    ms: u64,
    iso: Seq<char>,
    start: Option<Seq<char>>,
    end: Option<Seq<char>>,
) -> Seq<Seq<char>> {
    let head = seq![
        "compressed_at_ms="@ + dec_of(ms as nat),
        "compressed_at_iso="@ + iso,
        "source_time_start="@ + (match start {
            Some(s) => s,
            None => "unknown"@,
        }),
        "source_time_end="@ + (match end {
            Some(s) => s,
            None => "unknown"@,
        }),
        "timeline_order=ascending"@,
        "note=Compacted context is a time-ordered copy. Original ledger remains immutable append-only."@,
    ];
    let prev_part = match prev {
        Some(p) => if sanitize_cache_spec(p).len() > 0 {
            seq!["previous_summary="@, sanitize_cache_spec(p)]
        } else {
            Seq::<Seq<char>>::empty()
        },
        None => Seq::<Seq<char>>::empty(),
    };
    let hint_part = match hint {
        Some(h) => seq!["hint: "@ + h],
        None => Seq::<Seq<char>>::empty(),
    };
    let tail = if lines.len() <= 24 {
        lines
    } else {
        lines.skip(lines.len() - 24)
    };
    head + prev_part + hint_part + tail
}

pub open spec fn summary_text_spec(
    prev: Option<Seq<char>>,
    lines: Seq<Seq<char>>,
    hint: Option<Seq<char>>,
    ms: u64,
    iso: Seq<char>,
    start: Option<Seq<char>>,
    end: Option<Seq<char>>,
) -> Seq<char> {
    join_with(summary_pieces(prev, lines, hint, ms, iso, start, end), seq!['\n'])
}

fn concat_str_chars(prefix: &str, tail: &Vec<char>) -> (r: Vec<char>)
    ensures
        r@ == prefix@ + tail@,
{
    let mut out = chars_of(prefix);
    crate::text::extend_chars(&mut out, tail);
    out
}

/// Builds the human-readable summary body.
#[verifier::loop_isolation(false)]
#[verifier::rlimit(100)]
pub fn build_compact_summary(
    previous_summary: Option<&String>,
    lines: &Vec<String>,
    summary_hint: Option<&String>,
    compressed_at_ms: u64,
    compressed_at_iso: &str,
    source_time_start: Option<&String>,
    source_time_end: Option<&String>,
) -> (r: String)
    ensures
        r@ == summary_text_spec(
            match previous_summary {
                Some(p) => Some(p@),
                None => None,
            },
            lines@.map_values(|l: String| l@),
            match summary_hint {
                Some(h) => Some(h@),
                None => None,
            },
            compressed_at_ms,
            compressed_at_iso@,
            match source_time_start {
                Some(s) => Some(s@),
                None => None,
            },
            match source_time_end {
                Some(s) => Some(s@),
                None => None,
            },
        ),
{
    let ghost lvs = lines@.map_values(|l: String| l@);
    let mut pieces: Vec<Vec<char>> = Vec::new();
    let d = crate::text::dec_digits(compressed_at_ms);
    pieces.push(concat_str_chars("compressed_at_ms=", &d));
    let iso = chars_of(compressed_at_iso);
    pieces.push(concat_str_chars("compressed_at_iso=", &iso));
    let start_chars: Vec<char> = match source_time_start {
        Some(s) => chars_of(s.as_str()),
        None => chars_of("unknown"),
    };
    pieces.push(concat_str_chars("source_time_start=", &start_chars));
    let end_chars: Vec<char> = match source_time_end {
        Some(s) => chars_of(s.as_str()),
        None => chars_of("unknown"),
    };
    pieces.push(concat_str_chars("source_time_end=", &end_chars));
    pieces.push(chars_of("timeline_order=ascending"));
    pieces.push(
        chars_of(
            "note=Compacted context is a time-ordered copy. Original ledger remains immutable append-only.",
        ),
    );
    match previous_summary {
        Some(p) => {
            let merged = sanitize_compact_cache_summary(Some(p));
            match merged {
                Some(m) => {
                    proof {
                        assert(sanitize_cache_spec(p@).len() > 0) by {
                            if sanitize_cache_spec(p@).len() == 0 {
                                assert(trim_spec(sanitize_cache_spec(p@)).len() == 0);
                            }
                        }
                    }
                    pieces.push(chars_of("previous_summary="));
                    pieces.push(chars_of(m.as_str()));
                },
                None => {
                    proof {
                        assert(sanitize_cache_spec(p@).len() == 0) by {
                            if sanitize_cache_spec(p@).len() > 0 {
                                lemma_trim_of_cache_join(p@);
                            }
                        }
                    }
                },
            }
        },
        None => {},
    }
    match summary_hint {
        Some(h) => {
            let hv = chars_of(h.as_str());
            pieces.push(concat_str_chars("hint: ", &hv));
        },
        None => {},
    }
    let mut k: usize = if lines.len() <= 24 {
        0
    } else {
        lines.len() - 24
    };
    let ghost tail_base = k as int;
    let ghost before_tail = char_views(pieces@);
    while k < lines.len()
        invariant
            tail_base <= k <= lines@.len(),
            char_views(pieces@) == before_tail + lvs.subrange(tail_base, k as int),
        decreases lines@.len() - k,
    {
        let ghost prevp = char_views(pieces@);
        pieces.push(chars_of(lines[k].as_str()));
        proof {
            assert(char_views(pieces@) =~= prevp.push(lvs[k as int]));
            assert(before_tail + lvs.subrange(tail_base, k + 1) =~= (before_tail + lvs.subrange(
                tail_base,
                k as int,
            )).push(lvs[k as int]));
        }
        k = k + 1;
    }
    let mut sep: Vec<char> = Vec::new();
    sep.push('\n');
    proof {
        assert(sep@ =~= seq!['\n']);
        if lvs.len() <= 24 {
            assert(lvs.subrange(tail_base, lvs.len() as int) =~= lvs);
        } else {
            assert(lvs.subrange(tail_base, lvs.len() as int) =~= lvs.skip(lvs.len() - 24));
        }
        assert(char_views(pieces@) =~= summary_pieces(
            match previous_summary {
                Some(p) => Some(p@),
                None => None,
            },
            lvs,
            match summary_hint {
                Some(h) => Some(h@),
                None => None,
            },
            compressed_at_ms,
            compressed_at_iso@,
            match source_time_start {
                Some(s) => Some(s@),
                None => None,
            },
            match source_time_end {
                Some(s) => Some(s@),
                None => None,
            },
        ));
    }
    let joined = crate::text::join_chars(&pieces, &sep);
    string_from_chars(&joined)
}

/// A sanitized cache summary starts with a non-whitespace character, so
/// trimming it cannot empty it.
proof fn lemma_trim_of_cache_join(p: Seq<char>)
    requires
        sanitize_cache_spec(p).len() > 0,
    ensures
        trim_spec(sanitize_cache_spec(p)).len() > 0,
{
    let mapped = lines_of(p).map_values(|l: Seq<char>| trim_spec(l));
    let pred = |l: Seq<char>| l.len() > 0 && !is_filtered_text(l);
    let pieces = cache_lines(p);
    if pieces.len() == 0 {
        assert(sanitize_cache_spec(p).len() == 0);
    }
    mapped.lemma_filter_pred(pred, 0);
    lemma_filter_elems(mapped, pred, 0);
    let j = choose|j: int| 0 <= j < mapped.len() && mapped[j] == pieces[0];
    lemma_trim_head_not_ws(lines_of(p)[j]);
    lemma_join_head(pieces, seq!['\n']);
    lemma_trim_len_zero(sanitize_cache_spec(p));
}

/// Each element the filter keeps comes from the sequence it filtered.
proof fn lemma_filter_elems(s: Seq<Seq<char>>, pred: spec_fn(Seq<char>) -> bool, i: int)
    requires
        0 <= i < s.filter(pred).len(),
    ensures
        exists|j: int| 0 <= j < s.len() && s[j] == s.filter(pred)[i],
    decreases s.len(),
{
    reveal(Seq::filter);
    if s.len() > 0 {
        let sub = s.drop_last().filter(pred);
        if pred(s.last()) {
            if i < sub.len() {
                lemma_filter_elems(s.drop_last(), pred, i);
                let j = choose|j: int| 0 <= j < s.drop_last().len() && s.drop_last()[j]
                    == s.drop_last().filter(pred)[i];
                assert(s[j] == s.filter(pred)[i]);
            } else {
                assert(s.filter(pred)[i] == s.last());
                assert(s[s.len() - 1] == s.filter(pred)[i]);
            }
        } else {
            lemma_filter_elems(s.drop_last(), pred, i);
            let j = choose|j: int| 0 <= j < s.drop_last().len() && s.drop_last()[j]
                == s.drop_last().filter(pred)[i];
            assert(s[j] == s.filter(pred)[i]);
        }
    }
}

/// A non-empty join starts with the first piece's first character.
proof fn lemma_join_head(pieces: Seq<Seq<char>>, sep: Seq<char>)
    requires
        pieces.len() > 0,
        pieces[0].len() > 0,
    ensures
        join_with(pieces, sep).len() > 0,
        join_with(pieces, sep)[0] == pieces[0][0],
{
    if pieces.len() == 1 {
    } else {
        assert(join_with(pieces, sep) == pieces[0] + sep + join_with(pieces.drop_first(), sep));
    }
}

/// A trimmed text never starts with whitespace.
proof fn lemma_trim_head_not_ws(x: Seq<char>)
    ensures
        trim_spec(x).len() > 0 ==> !crate::text::char_is_whitespace(trim_spec(x)[0]),
{
    lemma_trim_front_head(x);
    lemma_trim_back_head(crate::text::trim_front(x));
}

proof fn lemma_trim_front_head(s: Seq<char>)
    ensures
        crate::text::trim_front(s).len() > 0 ==> !crate::text::char_is_whitespace(
            crate::text::trim_front(s)[0],
        ),
    decreases s.len(),
{
    if s.len() > 0 && crate::text::char_is_whitespace(s[0]) {
        lemma_trim_front_head(s.drop_first());
    }
}

proof fn lemma_trim_back_head(s: Seq<char>)
    ensures
        crate::text::trim_back(s).len() <= s.len(),
        crate::text::trim_back(s).len() > 0 ==> crate::text::trim_back(s)[0] == s[0],
    decreases s.len(),
{
    if s.len() > 0 && crate::text::char_is_whitespace(s.last()) {
        lemma_trim_back_head(s.drop_last());
        if crate::text::trim_back(s).len() > 0 {
            assert(s.drop_last()[0] == s[0]);
        }
    }
}

/// Trimming keeps a text whose head is not whitespace non-empty.
proof fn lemma_trim_len_zero(s: Seq<char>)
    requires
        s.len() > 0,
        !crate::text::char_is_whitespace(s[0]),
    ensures
        trim_spec(s).len() > 0,
{
    assert(crate::text::trim_front(s) == s);
    lemma_trim_back_keeps_head(s);
}

proof fn lemma_trim_back_keeps_head(s: Seq<char>)
    requires
        s.len() > 0,
        !crate::text::char_is_whitespace(s[0]),
    ensures
        crate::text::trim_back(s).len() > 0,
    decreases s.len(),
{
    if crate::text::char_is_whitespace(s.last()) {
        if s.len() == 1 {
        } else {
            assert(s.drop_last()[0] == s[0]);
            lemma_trim_back_keeps_head(s.drop_last());
        }
    }
}


// ---------------------------------------------------------------------------
// The classification fold and the compaction itself.
// ---------------------------------------------------------------------------

pub struct CompactScan {
    pub initial_blocks: Seq<Json>,
    pub user_messages: Seq<Json>,
    pub narrative: Seq<Seq<char>>,
    pub previous_summary: Option<Seq<char>>,
}

/// The collapsed, trimmed one-line form of a text.
pub open spec fn collapse_line(t: Seq<char>) -> Seq<char> {
    trim_spec(t.map_values(|c: char| crate::ledger::nl_to_space(c)))
}

/// One narrative line: the role in brackets, then the collapsed text.
pub open spec fn narrative_line(role: Seq<char>, norm: Seq<char>) -> Seq<char> {
    seq!['['] + role + seq![']', ' '] + norm
}

/// How one history item moves the scan forward.
pub open spec fn scan_step(st: CompactScan, item: Json) -> CompactScan {
    let role = item_role(item);
    let text = item_text(item);
    if role == "user"@ && text is Some && is_initial_ctx(text->0) {
        if st.initial_blocks.contains(item) {
            st
        } else {
            CompactScan { initial_blocks: st.initial_blocks.push(item), ..st }
        }
    } else if text is Some && is_filtered_text(text->0) {
        st
    } else if text is Some && extract_block_spec(text->0, "history_summary"@) is Some {
        let sanitized = sanitize_cache_spec(extract_block_spec(text->0, "history_summary"@)->0);
        if trim_spec(sanitized).len() > 0 {
            CompactScan { previous_summary: Some(sanitized), ..st }
        } else {
            st
        }
    } else {
        let st1 = if role == "user"@ {
            CompactScan { user_messages: st.user_messages.push(item), ..st }
        } else {
            st
        };
        match text {
            Some(t) => {
                if collapse_line(t).len() > 0 {
                    CompactScan {
                        narrative: st1.narrative.push(narrative_line(role, collapse_line(t))),
                        ..st1
                    }
                } else {
                    st1
                }
            },
            None => st1,
        }
    }
}

pub open spec fn scan_empty() -> CompactScan {
    CompactScan {
        initial_blocks: Seq::empty(),
        user_messages: Seq::empty(),
        narrative: Seq::empty(),
        previous_summary: None,
    }
}

pub open spec fn scan_history(h: Seq<Json>) -> CompactScan
    decreases h.len(),
{
    if h.len() == 0 {
        scan_empty()
    } else {
        scan_step(scan_history(h.drop_last()), h.last())
    }
}

/// The user messages compaction keeps: all of them, or the last twelve.
pub open spec fn kept_users(users: Seq<Json>, preserve: bool) -> Seq<Json> {
    if preserve || users.len() <= 12 {
        users
    } else {
        users.skip(users.len() - 12)
    }
}

/// The single closing message that carries the summary.
pub open spec fn summary_msg_json(text: Seq<char>) -> Json {
    Json::Obj(
        seq![
            ("role"@, Json::Str("assistant"@)),
            (
                "content"@,
                Json::Arr(
                    seq![
                        Json::Obj(
                            seq![
                                ("type"@, Json::Str("output_text"@)),
                                (
                                    "text"@,
                                    Json::Str(wrap_block_spec("history_summary"@, text)),
                                ),
                            ],
                        ),
                    ],
                ),
            ),
        ],
    )
}

/// The hint a compaction uses: the configured one, trimmed, when non-empty.
pub open spec fn hint_norm(hint: Option<Seq<char>>) -> Option<Seq<char>> {
    match hint {
        Some(h) => if trim_spec(h).len() > 0 {
            Some(trim_spec(h))
        } else {
            None
        },
        None => None,
    }
}

pub struct CompactResult {
    pub history: Vec<JsonValue>,
    pub summary: Option<String>,
    pub compressed_at_ms: u64,
    pub compressed_at_iso: String,
    pub source_time_start: Option<String>,
    pub source_time_end: Option<String>,
}

fn json_member(xs: &Vec<JsonValue>, x: &JsonValue) -> (r: bool)
    ensures
        r == views_of(xs@).contains(x@),
{
    proof {
        lemma_views_of(xs@);
    }
    let mut i: usize = 0;
    while i < xs.len()
        invariant
            i <= xs@.len(),
            forall|k: int| 0 <= k < i ==> views_of(xs@)[k] != x@,
        decreases xs@.len() - i,
    {
        proof {
            lemma_views_of(xs@);
        }
        if json_eq(&xs[i], x) {
            proof {
                assert(views_of(xs@)[i as int] == x@);
            }
            return true;
        }
        i = i + 1;
    }
    proof {
        lemma_views_of(xs@);
        assert forall|k: int| 0 <= k < views_of(xs@).len() implies views_of(xs@)[k] != x@ by {}
    }
    false
}

/// Replaces the history by: the deduplicated initial-context blocks, the
/// kept user messages, and one assistant message holding the summary.
#[verifier::loop_isolation(false)]
#[verifier::rlimit(100)]
pub fn compact_history(history: &Vec<JsonValue>, compact_cfg: Option<&CompactConfig>) -> (r:
    CompactResult)
    ensures
        ({
            let scan = scan_history(views_of(history@));
            let preserve = match compact_cfg {
                Some(c) => c.preserve_user_messages,
                None => true,
            };
            let hint = match compact_cfg {
                Some(c) => hint_norm(crate::protocol::ov(c.summary_hint)),
                None => None,
            };
            let bounds = time_bounds(views_of(history@));
            let stext = summary_text_spec(
                scan.previous_summary,
                scan.narrative,
                hint,
                r.compressed_at_ms,
                r.compressed_at_iso@,
                bounds.0,
                bounds.1,
            );
            &&& r.compressed_at_iso@ == crate::clock::rfc3339_of(r.compressed_at_ms)
            &&& crate::protocol::ov(r.source_time_start) == bounds.0
            &&& crate::protocol::ov(r.source_time_end) == bounds.1
            &&& crate::protocol::ov(r.summary) == Some(stext)
            &&& views_of(r.history@) == scan.initial_blocks + kept_users(
                scan.user_messages,
                preserve,
            ) + seq![summary_msg_json(stext)]
        }),
{
    let preserve = match compact_cfg {
        Some(c) => c.preserve_user_messages,
        None => true,
    };
    let hint: Option<String> = match compact_cfg {
        Some(c) => match &c.summary_hint {
            Some(h) => {
                let t = trim_str(h.as_str());
                if !t.as_str().is_empty() {
                    Some(t)
                } else {
                    None
                }
            },
            None => None,
        },
        None => None,
    };
    let stamp = crate::clock::now_timestamp();
    let bounds = extract_history_time_bounds(history);

    let ghost hv = views_of(history@);
    proof {
        lemma_views_of(history@);
    }
    let mut initial_blocks: Vec<JsonValue> = Vec::new();
    let mut user_messages: Vec<JsonValue> = Vec::new();
    let mut narrative: Vec<String> = Vec::new();
    let mut previous_summary: Option<String> = None;
    let mut i: usize = 0;
    proof {
        assert(hv.subrange(0, 0) =~= Seq::<Json>::empty());
        assert(views_of(initial_blocks@) =~= Seq::<Json>::empty());
        assert(views_of(user_messages@) =~= Seq::<Json>::empty());
        assert(narrative@.map_values(|l: String| l@) =~= Seq::<Seq<char>>::empty());
    }
    while i < history.len()
        invariant
            i <= history@.len(),
            hv == views_of(history@),
            hv.len() == history@.len(),
            views_of(initial_blocks@) == scan_history(hv.subrange(0, i as int)).initial_blocks,
            views_of(user_messages@) == scan_history(hv.subrange(0, i as int)).user_messages,
            narrative@.map_values(|l: String| l@) == scan_history(
                hv.subrange(0, i as int),
            ).narrative,
            crate::protocol::ov(previous_summary) == scan_history(
                hv.subrange(0, i as int),
            ).previous_summary,
        decreases history@.len() - i,
    {
        let ghost pre = hv.subrange(0, i as int);
        let ghost st = scan_history(pre);
        proof {
            assert(hv.subrange(0, i + 1) =~= pre.push(hv[i as int]));
            assert(hv.subrange(0, i + 1).drop_last() =~= pre);
            assert(scan_history(hv.subrange(0, i + 1)) == scan_step(st, hv[i as int]));
            assert(hv[i as int] == history@[i as int]@);
        }
        let item = &history[i];
        let role = item_role_exec(item);
        let text = extract_text_from_history_item(item);
        let is_user = str_eq(role.as_str(), "user");
        let mut handled = false;
        match &text {
            Some(t) => {
                if is_user && is_initial_context_block(t.as_str()) {
                    if !json_member(&initial_blocks, item) {
                        let ghost prev_vec = initial_blocks@;
                        let ghost prevb = views_of(initial_blocks@);
                        let c = json_clone(item);
                        initial_blocks.push(c);
                        proof {
                            lemma_views_of(prev_vec);
                            lemma_views_of(initial_blocks@);
                            assert(views_of(initial_blocks@) =~= prevb.push(hv[i as int]));
                        }
                    }
                    handled = true;
                } else if is_filtered_compact_text(t.as_str()) {
                    handled = true;
                } else {
                    match extract_context_block(t.as_str(), "history_summary") {
                        Some(block) => {
                            match sanitize_compact_cache_summary(Some(&block)) {
                                Some(cleaned) => {
                                    previous_summary = Some(cleaned);
                                },
                                None => {},
                            }
                            handled = true;
                        },
                        None => {},
                    }
                }
            },
            None => {},
        }
        if !handled {
            if is_user {
                let ghost prev_vec = user_messages@;
                let ghost prevu = views_of(user_messages@);
                let c = json_clone(item);
                user_messages.push(c);
                proof {
                    lemma_views_of(prev_vec);
                    lemma_views_of(user_messages@);
                    assert(views_of(user_messages@) =~= prevu.push(hv[i as int]));
                }
            }
            match &text {
                Some(t) => {
                    let flat = collapse_text(t.as_str());
                    if !flat.as_str().is_empty() {
                        let mut line: Vec<char> = Vec::new();
                        line.push('[');
                        let rv = chars_of(role.as_str());
                        crate::text::extend_chars(&mut line, &rv);
                        line.push(']');
                        line.push(' ');
                        let fv = chars_of(flat.as_str());
                        crate::text::extend_chars(&mut line, &fv);
                        proof {
                            assert(line@ =~= narrative_line(role@, collapse_line(t@)));
                        }
                        let ghost prevn = narrative@.map_values(|l: String| l@);
                        narrative.push(string_from_chars(&line));
                        proof {
                            assert(narrative@.map_values(|l: String| l@) =~= prevn.push(
                                narrative_line(item_role(hv[i as int]), collapse_line(t@)),
                            ));
                        }
                    }
                },
                None => {},
            }
        }
        proof {
            assert(views_of(initial_blocks@) =~= scan_step(st, hv[i as int]).initial_blocks);
            assert(views_of(user_messages@) =~= scan_step(st, hv[i as int]).user_messages);
            assert(narrative@.map_values(|l: String| l@) =~= scan_step(
                st,
                hv[i as int],
            ).narrative);
            assert(crate::protocol::ov(previous_summary) == scan_step(
                st,
                hv[i as int],
            ).previous_summary);
        }
        i = i + 1;
    }
    proof {
        assert(hv.subrange(0, hv.len() as int) =~= hv);
    }

    let summary_text = build_compact_summary(
        previous_summary.as_ref(),
        &narrative,
        hint.as_ref(),
        stamp.0,
        stamp.1.as_str(),
        bounds.0.as_ref(),
        bounds.1.as_ref(),
    );

    let ghost scan = scan_history(hv);
    let mut compacted: Vec<JsonValue> = Vec::new();
    let mut k: usize = 0;
    while k < initial_blocks.len()
        invariant
            k <= initial_blocks@.len(),
            views_of(initial_blocks@) == scan.initial_blocks,
            views_of(compacted@) == scan.initial_blocks.subrange(0, k as int),
        decreases initial_blocks@.len() - k,
    {
        proof {
            lemma_views_of(initial_blocks@);
        }
        let ghost prev_vec = compacted@;
        let ghost prevc = views_of(compacted@);
        let c = json_clone(&initial_blocks[k]);
        compacted.push(c);
        proof {
            lemma_views_of(prev_vec);
            lemma_views_of(compacted@);
            assert(views_of(compacted@) =~= prevc.push(scan.initial_blocks[k as int]));
            assert(scan.initial_blocks.subrange(0, k + 1) =~= scan.initial_blocks.subrange(
                0,
                k as int,
            ).push(scan.initial_blocks[k as int]));
        }
        k = k + 1;
    }
    proof {
        lemma_views_of(initial_blocks@);
        assert(scan.initial_blocks.subrange(0, scan.initial_blocks.len() as int)
            =~= scan.initial_blocks);
    }
    let start: usize = if preserve || user_messages.len() <= 12 {
        0
    } else {
        user_messages.len() - 12
    };
    let mut k: usize = start;
    let ghost base = views_of(compacted@);
    proof {
        lemma_views_of(user_messages@);
        assert(scan.user_messages.subrange(start as int, start as int) =~= Seq::<Json>::empty());
        assert(base + scan.user_messages.subrange(start as int, start as int) =~= base);
    }
    while k < user_messages.len()
        invariant
            start <= k <= user_messages@.len(),
            views_of(user_messages@) == scan.user_messages,
            views_of(compacted@) == base + scan.user_messages.subrange(start as int, k as int),
        decreases user_messages@.len() - k,
    {
        proof {
            lemma_views_of(user_messages@);
        }
        let ghost prev_vec = compacted@;
        let ghost prevc = views_of(compacted@);
        let c = json_clone(&user_messages[k]);
        compacted.push(c);
        proof {
            lemma_views_of(prev_vec);
            lemma_views_of(compacted@);
            assert(views_of(compacted@) =~= prevc.push(scan.user_messages[k as int]));
            assert(scan.user_messages.subrange(start as int, k + 1)
                =~= scan.user_messages.subrange(start as int, k as int).push(
                scan.user_messages[k as int],
            ));
        }
        k = k + 1;
    }
    proof {
        lemma_views_of(user_messages@);
        if preserve || scan.user_messages.len() <= 12 {
            assert(scan.user_messages.subrange(start as int, scan.user_messages.len() as int)
                =~= kept_users(scan.user_messages, preserve));
        } else {
            assert(scan.user_messages.subrange(start as int, scan.user_messages.len() as int)
                =~= kept_users(scan.user_messages, preserve));
        }
    }

    let wrapped = wrap_context_block("history_summary", summary_text.as_str());
    let mut part_fields: Vec<(String, JsonValue)> = Vec::new();
    part_fields.push((str_lit("type"), JsonValue::Str(str_lit("output_text"))));
    part_fields.push((str_lit("text"), JsonValue::Str(wrapped)));
    let ghost pf = part_fields@;
    let part = JsonValue::Obj(part_fields);
    let mut parts: Vec<JsonValue> = Vec::new();
    parts.push(part);
    let ghost pv = parts@;
    let mut msg_fields: Vec<(String, JsonValue)> = Vec::new();
    msg_fields.push((str_lit("role"), JsonValue::Str(str_lit("assistant"))));
    msg_fields.push((str_lit("content"), JsonValue::Arr(parts)));
    let ghost mf = msg_fields@;
    let msg = JsonValue::Obj(msg_fields);
    let ghost before_msg = views_of(compacted@);
    proof {
        lemma_field_views_of(pf);
        lemma_views_of(pv);
        lemma_field_views_of(mf);
        let spec_part = Json::Obj(
            seq![
                ("type"@, Json::Str("output_text"@)),
                ("text"@, Json::Str(wrap_block_spec("history_summary"@, summary_text@))),
            ],
        );
        assert(field_views_of(pf) =~= spec_part->Obj_0);
        assert(views_of(pv) =~= seq![spec_part]);
        assert(field_views_of(mf) =~= summary_msg_json(summary_text@)->Obj_0);
        assert(msg@ == summary_msg_json(summary_text@));
    }
    let ghost prev_vec_msg = compacted@;
    compacted.push(msg);
    proof {
        lemma_views_of(prev_vec_msg);
        lemma_views_of(compacted@);
        assert(views_of(compacted@) =~= before_msg.push(summary_msg_json(summary_text@)));
        assert(base == scan.initial_blocks);
        assert(before_msg == base + kept_users(scan.user_messages, preserve));
        assert(views_of(compacted@) =~= scan.initial_blocks + kept_users(
            scan.user_messages,
            preserve,
        ) + seq![summary_msg_json(summary_text@)]);
    }

    CompactResult {
        history: compacted,
        summary: Some(summary_text),
        compressed_at_ms: stamp.0,
        compressed_at_iso: stamp.1,
        source_time_start: bounds.0,
        source_time_end: bounds.1,
    }
}

/// Copies a literal into an owned string.
fn str_lit(s: &str) -> (r: String)
    ensures
        r@ == s@,
{
    s.to_owned()
}

/// Newlines become spaces and the ends are trimmed.
#[verifier::loop_isolation(false)]
fn collapse_text(t: &str) -> (r: String)
    ensures
        r@ == collapse_line(t@),
{
    let v = chars_of(t);
    let mut flat: Vec<char> = Vec::new();
    let mut i: usize = 0;
    while i < v.len()
        invariant
            i <= v@.len(),
            flat@ == v@.subrange(0, i as int).map_values(
                |c: char| crate::ledger::nl_to_space(c),
            ),
        decreases v@.len() - i,
    {
        let c = v[i];
        let fc: char = if c == '\n' {
            ' '
        } else {
            c
        };
        flat.push(fc);
        proof {
            assert(v@.subrange(0, i + 1) =~= v@.subrange(0, i as int).push(v@[i as int]));
            assert(v@.subrange(0, i + 1).map_values(|c: char| crate::ledger::nl_to_space(c))
                =~= v@.subrange(0, i as int).map_values(
                |c: char| crate::ledger::nl_to_space(c),
            ).push(crate::ledger::nl_to_space(v@[i as int])));
        }
        i = i + 1;
    }
    proof {
        assert(v@.subrange(0, v@.len() as int) =~= v@);
    }
    let tr = trim_chars(&flat);
    string_from_chars(&tr)
}


// ---------------------------------------------------------------------------
// What compaction guarantees.
// ---------------------------------------------------------------------------

proof fn lemma_contains_concat_left(a: Seq<char>, b: Seq<char>, x: Seq<char>)
    requires
        seq_contains(a, x),
    ensures
        seq_contains(a + b, x),
{
    let i = choose|i: int| contains_at(a, x, i);
    assert((a + b).subrange(i, i + x.len()) =~= a.subrange(i, i + x.len()));
    assert(contains_at(a + b, x, i));
}

proof fn lemma_contains_concat_right(a: Seq<char>, b: Seq<char>, x: Seq<char>)
    requires
        seq_contains(b, x),
    ensures
        seq_contains(a + b, x),
{
    let i = choose|i: int| contains_at(b, x, i);
    assert((a + b).subrange(a.len() + i, a.len() + i + x.len()) =~= b.subrange(i, i + x.len()));
    assert(contains_at(a + b, x, a.len() + i));
}

/// Every piece appears verbatim inside the join.
proof fn lemma_join_with_contains(pieces: Seq<Seq<char>>, sep: Seq<char>, k: int)
    requires
        0 <= k < pieces.len(),
    ensures
        seq_contains(join_with(pieces, sep), pieces[k]),
    decreases pieces.len(),
{
    let p0 = pieces[0];
    if pieces.len() == 1 {
        assert(join_with(pieces, sep) == p0);
        assert(p0.subrange(0, p0.len() as int) =~= p0);
        assert(contains_at(p0, p0, 0));
    } else {
        assert(join_with(pieces, sep) == p0 + sep + join_with(pieces.drop_first(), sep));
        if k == 0 {
            assert(p0.subrange(0, p0.len() as int) =~= p0);
            assert(contains_at(p0, p0, 0));
            lemma_contains_concat_left(p0, sep, p0);
            assert(p0 + sep + join_with(pieces.drop_first(), sep) =~= (p0 + sep) + join_with(
                pieces.drop_first(),
                sep,
            ));
            lemma_contains_concat_left(p0 + sep, join_with(pieces.drop_first(), sep), p0);
        } else {
            lemma_join_with_contains(pieces.drop_first(), sep, k - 1);
            assert(pieces.drop_first()[k - 1] == pieces[k]);
            assert(p0 + sep + join_with(pieces.drop_first(), sep) =~= (p0 + sep) + join_with(
                pieces.drop_first(),
                sep,
            ));
            lemma_contains_concat_right(p0 + sep, join_with(pieces.drop_first(), sep), pieces[k]);
        }
    }
}

/// The summary body always states its timeline order.
pub proof fn lemma_summary_states_order(
    prev: Option<Seq<char>>,
    lines: Seq<Seq<char>>,
    hint: Option<Seq<char>>,
    ms: u64,
    iso: Seq<char>,
    start: Option<Seq<char>>,
    end: Option<Seq<char>>,
)
    ensures
        seq_contains(
            summary_text_spec(prev, lines, hint, ms, iso, start, end),
            "timeline_order=ascending"@,
        ),
{
    let pieces = summary_pieces(prev, lines, hint, ms, iso, start, end);
    assert(pieces[4] == "timeline_order=ascending"@);
    lemma_join_with_contains(pieces, seq!['\n'], 4);
}

/// The summary body carries `timeline_order=ascending` as one complete
/// line, whatever the history contributed around it.
pub proof fn lemma_summary_order_is_a_line(
    prev: Option<Seq<char>>,
    lines: Seq<Seq<char>>,
    hint: Option<Seq<char>>,
    ms: u64,
    iso: Seq<char>,
    start: Option<Seq<char>>,
    end: Option<Seq<char>>,
)
    ensures
        crate::text::lines_of(summary_text_spec(prev, lines, hint, ms, iso, start, end)).contains(
            "timeline_order=ascending"@,
        ),
{
    let pieces = summary_pieces(prev, lines, hint, ms, iso, start, end);
    assert(pieces[4] == "timeline_order=ascending"@);
    reveal_strlit("timeline_order=ascending");
    assert("timeline_order=ascending"@.len() == 24);
    assert(forall|i: int|
        0 <= i < "timeline_order=ascending"@.len() ==> #[trigger] "timeline_order=ascending"@[i]
            != '\n');
    assert(forall|i: int|
        0 <= i < "timeline_order=ascending"@.len() ==> #[trigger] "timeline_order=ascending"@[i]
            != '\r');
    crate::text::lemma_join_piece_is_line(pieces, 4);
}

/// A history item whose text carries a prompt-control tag contributes
/// nothing to the narrative and nothing to the kept user messages: such
/// source lines are filtered out, never copied.
pub proof fn lemma_filtered_items_not_copied(st: CompactScan, item: Json)
    requires
        match item_text(item) {
            Some(t) => is_filtered_text(t),
            None => false,
        },
    ensures
        scan_step(st, item).narrative == st.narrative,
        scan_step(st, item).user_messages == st.user_messages,
{
}

/// Every line that sanitization lets into a merged previous summary is
/// non-empty and free of prompt-control tags.
pub proof fn lemma_cache_lines_clean(p: Seq<char>)
    ensures
        forall|k: int|
            0 <= k < cache_lines(p).len() ==> (#[trigger] cache_lines(p)[k]).len() > 0
                && !is_filtered_text(cache_lines(p)[k]),
{
    let mapped = lines_of(p).map_values(|l: Seq<char>| trim_spec(l));
    let pred = |l: Seq<char>| l.len() > 0 && !is_filtered_text(l);
    assert forall|k: int|
        0 <= k < cache_lines(p).len() implies (#[trigger] cache_lines(p)[k]).len() > 0
        && !is_filtered_text(cache_lines(p)[k]) by {
        mapped.lemma_filter_pred(pred, k);
    }
}

/// The scan keeps every initial-context block of the history exactly once:
/// its list has no duplicates, holds only user items whose text carries an
/// initial-context tag, and covers every such item of the history.
pub proof fn lemma_initial_blocks_once(h: Seq<Json>)
    ensures
        forall|i: int, j: int|
            0 <= i < j < scan_history(h).initial_blocks.len() ==> scan_history(
                h,
            ).initial_blocks[i] != scan_history(h).initial_blocks[j],
        forall|i: int|
            0 <= i < scan_history(h).initial_blocks.len() ==> h.contains(
                #[trigger] scan_history(h).initial_blocks[i],
            ) && item_role(scan_history(h).initial_blocks[i]) == "user"@ && item_text(
                scan_history(h).initial_blocks[i],
            ) is Some && is_initial_ctx(item_text(scan_history(h).initial_blocks[i])->0),
        forall|k: int|
            0 <= k < h.len() && item_role(#[trigger] h[k]) == "user"@ && item_text(h[k]) is Some
                && is_initial_ctx(item_text(h[k])->0) ==> scan_history(h).initial_blocks.contains(
                h[k],
            ),
    decreases h.len(),
{
    if h.len() > 0 {
        let hp = h.drop_last();
        lemma_initial_blocks_once(hp);
        let prior = scan_history(hp).initial_blocks;
        let cur = scan_history(h).initial_blocks;
        assert(scan_history(h) == scan_step(scan_history(hp), h.last()));
        assert forall|i: int| 0 <= i < prior.len() implies h.contains(#[trigger] prior[i]) by {
            assert(hp.contains(prior[i]));
            let j = choose|j: int| 0 <= j < hp.len() && hp[j] == prior[i];
            assert(h[j] == prior[i]);
        }
        assert forall|i: int|
            0 <= i < cur.len() implies h.contains(#[trigger] cur[i]) && item_role(cur[i])
            == "user"@ && item_text(cur[i]) is Some && is_initial_ctx(
            item_text(cur[i])->0,
        ) by {
            if i < prior.len() {
                assert(cur[i] == prior[i]);
            } else {
                assert(cur[i] == h.last());
                assert(h[h.len() - 1] == h.last());
            }
        }
        assert forall|i: int, j: int| 0 <= i < j < cur.len() implies cur[i] != cur[j] by {
            if j < prior.len() {
            } else if cur.len() > prior.len() {
                assert(cur[j] == h.last());
                assert(!prior.contains(h.last()));
                assert(cur[i] == prior[i]);
                if cur[i] == cur[j] {
                    assert(prior.contains(h.last()));
                }
            }
        }
        assert forall|k: int|
            0 <= k < h.len() && item_role(#[trigger] h[k]) == "user"@ && item_text(h[k]) is Some
                && is_initial_ctx(item_text(h[k])->0) implies cur.contains(h[k]) by {
            if k < h.len() - 1 {
                assert(hp[k] == h[k]);
                assert(prior.contains(h[k]));
                let j = choose|j: int| 0 <= j < prior.len() && prior[j] == h[k];
                assert(cur[j] == h[k]);
            } else {
                assert(h[k] == h.last());
                if prior.contains(h.last()) {
                    let j = choose|j: int| 0 <= j < prior.len() && prior[j] == h.last();
                    assert(cur[j] == h[k]);
                } else {
                    assert(cur == prior.push(h.last()));
                    assert(cur[cur.len() - 1] == h[k]);
                }
            }
        }
    }
}

} // verus!
