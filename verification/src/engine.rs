//! The chat engine's decisions: tool bindings and their model-facing names,
//! retry classification, tool-input shaping, the rolling-input construction,
//! token budgeting, and the per-turn progress sequence.

use vstd::prelude::*;
use crate::json::JsonValue;
use crate::json::Json;
use crate::json::views_of;
use crate::json::lemma_views_of;
use crate::json::field_views_of;
use crate::json::lemma_field_views_of;
use crate::json::json_clone;
use crate::json::json_text;
use crate::text::trim_spec;
use crate::text::trim_str;
use crate::text::seq_contains;
use crate::text::str_contains;
use crate::text::ascii_lower;
use crate::text::ascii_lower_str;
use crate::text::chars_of;
use crate::text::string_from_chars;
use crate::text::str_eq;
use crate::text::dec_of;
use crate::protocol::ToolSpec;
use crate::protocol::ov;
use crate::wire::is_digit;
use crate::wire::normalized_opt;
use crate::wire::lemma_dec_of_value;
use crate::wire::lemma_dec_of_digits;

verus! {

// ---------------------------------------------------------------------------
// Tool bindings.
// ---------------------------------------------------------------------------

pub struct ToolBinding {
    pub runtime_name: String,
    pub model_name: String,
    pub description: Option<String>,
    pub input_schema: Option<JsonValue>,
}

pub struct ToolBindingView {
    pub runtime_name: Seq<char>,
    pub model_name: Seq<char>,
    pub description: Option<Seq<char>>,
    pub input_schema: Option<Json>,
}

impl View for ToolBinding {
    type V = ToolBindingView;

    open spec fn view(&self) -> ToolBindingView {
        ToolBindingView {
            runtime_name: self.runtime_name@,
            model_name: self.model_name@,
            description: ov(self.description),
            input_schema: match self.input_schema {
                Some(ref v) => Some(v@),
                None => None,
            },
        }
    }
}

pub open spec fn tb_views(xs: Seq<ToolBinding>) -> Seq<ToolBindingView> {
    xs.map_values(|x: ToolBinding| x@)
}

/// The characters a model-facing tool name may carry.
pub open spec fn tool_char(c: char) -> bool {
    ('A' <= c && c <= 'Z') || ('a' <= c && c <= 'z') || ('0' <= c && c <= '9') || c == '_' || c
        == '-'
}

pub open spec fn sanitize_tool_char(c: char) -> char {
    if tool_char(c) {
        c
    } else {
        '_'
    }
}

/// A sanitized base name: each foreign character replaced by an underscore;
/// a name that leaves nothing but underscores becomes `tool`.
pub open spec fn sanitize_name_spec(s: Seq<char>) -> Seq<char> {
    let m = s.map_values(|c: char| sanitize_tool_char(c));
    if m.len() == 0 || (forall|i: int| 0 <= i < m.len() ==> m[i] == '_') {
        seq!['t', 'o', 'o', 'l']
    } else {
        m
    }
}

/// What every model-facing name satisfies.
pub open spec fn name_ok(n: Seq<char>) -> bool {
    n.len() > 0 && (forall|i: int| 0 <= i < n.len() ==> tool_char(#[trigger] n[i]))
}

#[verifier::loop_isolation(false)]
pub fn sanitize_model_tool_name(name: &str) -> (r: String)
    ensures
        r@ == sanitize_name_spec(name@),
        name_ok(r@),
{
    let v = chars_of(name);
    let mut out: Vec<char> = Vec::new();
    let mut all_underscore = true;
    let mut i: usize = 0;
    while i < v.len()
        invariant
            i <= v@.len(),
            out@ == v@.subrange(0, i as int).map_values(|c: char| sanitize_tool_char(c)),
            all_underscore ==> (forall|k: int| 0 <= k < i ==> #[trigger] out@[k] == '_'),
            !all_underscore ==> (exists|k: int| 0 <= k < i && #[trigger] out@[k] != '_'),
        decreases v@.len() - i,
    {
        let c = v[i];
        let sc: char = if ('A' <= c && c <= 'Z') || ('a' <= c && c <= 'z') || ('0' <= c && c
            <= '9') || c == '_' || c == '-' {
            c
        } else {
            '_'
        };
        let ghost was_underscore = all_underscore;
        let ghost prev_out = out@;
        if sc != '_' {
            all_underscore = false;
        }
        out.push(sc);
        proof {
            assert(v@.subrange(0, i + 1) =~= v@.subrange(0, i as int).push(v@[i as int]));
            assert(v@.subrange(0, i + 1).map_values(|c: char| sanitize_tool_char(c))
                =~= v@.subrange(0, i as int).map_values(|c: char| sanitize_tool_char(c)).push(
                sanitize_tool_char(v@[i as int])));
            if !was_underscore {
                let k = choose|k: int| 0 <= k < i && #[trigger] prev_out[k] != '_';
                assert(out@[k] != '_');
            } else if sc != '_' {
                assert(out@[i as int] != '_');
            }
        }
        i = i + 1;
    }
    proof {
        assert(v@.subrange(0, v@.len() as int) =~= v@);
        if !all_underscore {
            let k = choose|k: int| 0 <= k < out@.len() && #[trigger] out@[k] != '_';
            assert(v@.map_values(|c: char| sanitize_tool_char(c))[k] != '_');
        }
    }
    if out.len() == 0 || all_underscore {
        let mut t: Vec<char> = Vec::new();
        t.push('t');
        t.push('o');
        t.push('o');
        t.push('l');
        proof {
            assert(t@ =~= seq!['t', 'o', 'o', 'l']);
        }
        return string_from_chars(&t);
    }
    string_from_chars(&out)
}

/// A disambiguated model name: the base, an underscore, and a counter.
pub open spec fn name_with_suffix(base: Seq<char>, k: nat) -> Seq<char> {
    base + seq!['_'] + dec_of(k)
}

proof fn lemma_name_with_suffix_inj(base: Seq<char>, k1: nat, k2: nat)
    requires
        name_with_suffix(base, k1) == name_with_suffix(base, k2),
    ensures
        k1 == k2,
{
    lemma_dec_of_digits(k1);
    lemma_dec_of_digits(k2);
    let n1 = name_with_suffix(base, k1);
    let n2 = name_with_suffix(base, k2);
    assert(dec_of(k1) =~= n1.skip(base.len() as int + 1));
    assert(dec_of(k2) =~= n2.skip(base.len() as int + 1));
    lemma_dec_of_value(k1);
    lemma_dec_of_value(k2);
}

proof fn lemma_base_not_suffixed(base: Seq<char>, k: nat)
    ensures
        base != name_with_suffix(base, k),
{
    lemma_dec_of_digits(k);
    assert(name_with_suffix(base, k).len() > base.len());
}

fn concat_suffix(base: &str, k: u64) -> (r: String)
    ensures
        r@ == name_with_suffix(base@, k as nat),
{
    let mut v = chars_of(base);
    v.push('_');
    let d = crate::text::dec_digits(k);
    crate::text::extend_chars(&mut v, &d);
    proof {
        assert(v@ =~= name_with_suffix(base@, k as nat));
    }
    string_from_chars(&v)
}

fn member_str_vec(xs: &Vec<String>, x: &str) -> (r: bool)
    ensures
        r == crate::ledger::str_views(xs@).contains(x@),
{
    let mut i: usize = 0;
    while i < xs.len()
        invariant
            i <= xs@.len(),
            forall|k: int| 0 <= k < i ==> (#[trigger] xs@[k])@ != x@,
        decreases xs@.len() - i,
    {
        if str_eq(xs[i].as_str(), x) {
            assert(crate::ledger::str_views(xs@)[i as int] == x@);
            return true;
        }
        i = i + 1;
    }
    proof {
        let mapped = crate::ledger::str_views(xs@);
        assert forall|k: int| 0 <= k < mapped.len() implies #[trigger] mapped[k] != x@ by {
            assert(mapped[k] == xs@[k]@);
        }
        if mapped.contains(x@) {
            let k = choose|k: int| 0 <= k < mapped.len() && mapped[k] == x@;
            assert(false);
        }
    }
    false
}

/// Binds each tool to a model-facing name: the sanitized runtime name,
/// disambiguated by a numeric suffix when taken. The set of model names has
/// no duplicates and each is non-empty over the allowed characters.
#[verifier::loop_isolation(false)]
#[verifier::rlimit(100)]
pub fn build_tool_bindings(tools: &Vec<ToolSpec>) -> (r: Vec<ToolBinding>)
    ensures
        r@.len() == tools@.len(),
        forall|i: int| 0 <= i < r@.len() ==> (#[trigger] r@[i]).runtime_name@ == tools@[i].name@,
        forall|i: int| 0 <= i < r@.len() ==> name_ok((#[trigger] r@[i]).model_name@),
        forall|i: int, j: int|
            0 <= i < j < r@.len() ==> (#[trigger] r@[i]).model_name@ != (
            #[trigger] r@[j]).model_name@,
        forall|i: int|
            0 <= i < r@.len() ==> ((#[trigger] r@[i]).model_name@ == sanitize_name_spec(
                tools@[i].name@,
            ) || exists|n: nat|
                2 <= n && r@[i].model_name@ == #[trigger] name_with_suffix(
                    sanitize_name_spec(tools@[i].name@),
                    n,
                )),
{
    let mut used: Vec<String> = Vec::new();
    let mut bindings: Vec<ToolBinding> = Vec::new();
    let mut t: usize = 0;
    while t < tools.len()
        invariant
            t <= tools@.len(),
            bindings@.len() == t,
            used@.len() == t,
            forall|i: int| 0 <= i < t ==> (#[trigger] used@[i])@ == bindings@[i].model_name@,
            forall|i: int|
                0 <= i < t ==> (#[trigger] bindings@[i]).runtime_name@ == tools@[i].name@,
            forall|i: int| 0 <= i < t ==> name_ok((#[trigger] bindings@[i]).model_name@),
            forall|i: int, j: int|
                0 <= i < j < t ==> (#[trigger] bindings@[i]).model_name@ != (
                #[trigger] bindings@[j]).model_name@,
            forall|i: int|
                0 <= i < t ==> ((#[trigger] bindings@[i]).model_name@ == sanitize_name_spec(
                    tools@[i].name@,
                ) || exists|n: nat|
                    2 <= n && bindings@[i].model_name@ == #[trigger] name_with_suffix(
                        sanitize_name_spec(tools@[i].name@),
                        n,
                    )),
        decreases tools@.len() - t,
    {
        let tool = &tools[t];
        let base = sanitize_model_tool_name(tool.name.as_str());
        let mut model_name = base.clone();
        let mut suffix: u64 = 1;
        let ghost used_set = crate::ledger::str_views(used@).to_set();
        let ghost mut tried: Set<Seq<char>> = Set::empty();
        proof {
            crate::ledger::str_views(used@).lemma_cardinality_of_set();
            vstd::seq_lib::seq_to_set_is_finite(crate::ledger::str_views(used@));
            assert(used_set.finite());
        }
        while member_str_vec(&used, model_name.as_str())
            invariant
                1 <= suffix,
                suffix == 1 ==> model_name@ == base@,
                suffix >= 2 ==> model_name@ == name_with_suffix(base@, suffix as nat),
                name_ok(base@),
                used_set == crate::ledger::str_views(used@).to_set(),
                used_set.finite(),
                used_set.len() <= used@.len(),
                tried.finite(),
                tried.subset_of(used_set),
                tried.len() == suffix - 1,
                !tried.contains(model_name@),
                forall|c: Seq<char>|
                    #[trigger] tried.contains(c) ==> (c == base@ || exists|p: nat|
                        2 <= p < suffix && c == #[trigger] name_with_suffix(base@, p)),
            decreases used_set.len() + 2 - suffix,
        {
            proof {
                assert(crate::ledger::str_views(used@).contains(model_name@));
                assert(used_set.contains(model_name@));
                tried = tried.insert(model_name@);
                vstd::set_lib::lemma_len_subset(tried, used_set);
                assert(suffix <= used_set.len());
            }
            suffix = suffix + 1;
            model_name = concat_suffix(base.as_str(), suffix);
            proof {
                assert forall|c: Seq<char>| tried.contains(c) implies c != model_name@ by {
                    if c == base@ {
                        lemma_base_not_suffixed(base@, suffix as nat);
                    } else {
                        if c == model_name@ {
                            let prior = choose|p: nat|
                                2 <= p < suffix && c == #[trigger] name_with_suffix(base@, p);
                            lemma_name_with_suffix_inj(base@, prior, suffix as nat);
                            assert(false);
                        }
                    }
                }
            }
        }
        proof {
            if suffix >= 2 {
                lemma_dec_of_digits(suffix as nat);
                assert forall|i: int|
                    0 <= i < model_name@.len() implies tool_char(
                    #[trigger] model_name@[i],
                ) by {
                    if i < base@.len() {
                        assert(model_name@[i] == base@[i]);
                    } else if i == base@.len() {
                        assert(model_name@[i] == '_');
                    } else {
                        assert(model_name@[i] == dec_of(suffix as nat)[i - base@.len() - 1]);
                        assert(is_digit(dec_of(suffix as nat)[i - base@.len() - 1]));
                    }
                }
                assert(name_ok(model_name@));
            }
            assert forall|i: int|
                0 <= i < bindings@.len() implies (#[trigger] bindings@[i]).model_name@
                != model_name@ by {
                assert(used@[i]@ == bindings@[i].model_name@);
                assert(crate::ledger::str_views(used@)[i] == used@[i]@);
            }
            if suffix >= 2 {
                assert(model_name@ == name_with_suffix(
                    sanitize_name_spec(tools@[t as int].name@),
                    suffix as nat,
                ));
            } else {
                assert(model_name@ == sanitize_name_spec(tools@[t as int].name@));
            }
        }
        used.push(model_name.clone());
        bindings.push(
            ToolBinding {
                runtime_name: tool.name.clone(),
                model_name,
                description: crate::ledger::clone_opt_string(&tool.description),
                input_schema: match &tool.input_schema {
                    Some(s) => Some(json_clone(s)),
                    None => None,
                },
            },
        );
        t = t + 1;
    }
    bindings
}

/// The runtime name a model-facing name stands for; an unknown name is
/// passed through unchanged.
pub open spec fn resolve_name_spec(bindings: Seq<ToolBindingView>, model_name: Seq<char>) -> Seq<
    char,
>
    decreases bindings.len(),
{
    if bindings.len() == 0 {
        model_name
    } else if bindings[0].model_name == model_name {
        bindings[0].runtime_name
    } else {
        resolve_name_spec(bindings.drop_first(), model_name)
    }
}

proof fn lemma_resolve_at(bindings: Seq<ToolBindingView>, model_name: Seq<char>, i: int)
    requires
        0 <= i < bindings.len(),
        forall|k: int| 0 <= k < i ==> (#[trigger] bindings[k]).model_name != model_name,
        bindings[i].model_name == model_name,
    ensures
        resolve_name_spec(bindings, model_name) == bindings[i].runtime_name,
    decreases i,
{
    if i > 0 {
        assert forall|k: int|
            0 <= k < i - 1 implies (#[trigger] bindings.drop_first()[k]).model_name
            != model_name by {
            assert(bindings.drop_first()[k] == bindings[k + 1]);
        }
        assert(bindings.drop_first()[i - 1] == bindings[i]);
        lemma_resolve_at(bindings.drop_first(), model_name, i - 1);
    }
}

proof fn lemma_resolve_none(bindings: Seq<ToolBindingView>, model_name: Seq<char>)
    requires
        forall|k: int| 0 <= k < bindings.len() ==> (#[trigger] bindings[k]).model_name
            != model_name,
    ensures
        resolve_name_spec(bindings, model_name) == model_name,
    decreases bindings.len(),
{
    if bindings.len() > 0 {
        assert forall|k: int|
            0 <= k < bindings.drop_first().len() implies (
            #[trigger] bindings.drop_first()[k]).model_name != model_name by {
            assert(bindings.drop_first()[k] == bindings[k + 1]);
        }
        lemma_resolve_none(bindings.drop_first(), model_name);
    }
}

#[verifier::loop_isolation(false)]
pub fn resolve_runtime_tool_name(model_name: &str, bindings: &Vec<ToolBinding>) -> (r: String)
    ensures
        r@ == resolve_name_spec(tb_views(bindings@), model_name@),
{
    let mut i: usize = 0;
    while i < bindings.len()
        invariant
            i <= bindings@.len(),
            forall|k: int| 0 <= k < i ==> (#[trigger] tb_views(bindings@)[k]).model_name
                != model_name@,
        decreases bindings@.len() - i,
    {
        proof {
            assert(tb_views(bindings@)[i as int] == bindings@[i as int]@);
        }
        if str_eq(bindings[i].model_name.as_str(), model_name) {
            proof {
                lemma_resolve_at(tb_views(bindings@), model_name@, i as int);
            }
            return bindings[i].runtime_name.clone();
        }
        i = i + 1;
    }
    proof {
        lemma_resolve_none(tb_views(bindings@), model_name@);
    }
    lit(model_name)
}

fn lit(s: &str) -> (r: String)
    ensures
        r@ == s@,
{
    s.to_owned()
}


// ---------------------------------------------------------------------------
// The per-turn progress sequence.
// ---------------------------------------------------------------------------

/// The monotonically increasing counter shared by every progress event of a
/// turn. The ghost `emitted` records each value handed out.
pub struct ProgressTracker {
    pub last: u64,
    pub emitted: Ghost<Seq<u64>>,
}

impl ProgressTracker {
    /// The values handed out so far are exactly 1, 2, …, `last`, in order.
    pub open spec fn wf(self) -> bool {
        &&& self.emitted@.len() == self.last
        &&& forall|i: int| 0 <= i < self.emitted@.len() ==> #[trigger] self.emitted@[i] == i + 1
    }

    pub fn new() -> (r: ProgressTracker)
        ensures
            r.wf(),
            r.last == 0,
    {
        let r = ProgressTracker { last: 0, emitted: Ghost(Seq::empty()) };
        r
    }

    /// The next sequence value. The counter never wraps: at its maximum —
    /// beyond any real turn — it saturates and hands the same value out
    /// again instead of failing.
    pub fn next(&mut self) -> (r: u64)
        requires
            old(self).wf(),
        ensures
            final(self).wf(),
            old(self).last < u64::MAX ==> {
                &&& r == old(self).last + 1
                &&& final(self).last == old(self).last + 1
                &&& final(self).emitted@ == old(self).emitted@.push(r)
            },
            old(self).last == u64::MAX ==> {
                &&& r == u64::MAX
                &&& *final(self) == *old(self)
            },
    {
        if self.last == u64::MAX {
            return u64::MAX;
        }
        self.last = self.last + 1;
        let r = self.last;
        proof {
            self.emitted@ = self.emitted@.push(r);
        }
        r
    }
}

/// The progress `seq` values of a turn are 1, 2, …, k with no gaps, in
/// emission order.
pub proof fn lemma_progress_seq_dense(t: ProgressTracker)
    requires
        t.wf(),
    ensures
        t.emitted@.len() == t.last,
        forall|i: int| 0 <= i < t.emitted@.len() ==> #[trigger] t.emitted@[i] == i + 1,
        forall|i: int, j: int|
            0 <= i < j < t.emitted@.len() ==> #[trigger] t.emitted@[i] < #[trigger] t.emitted@[j],
{
}

// ---------------------------------------------------------------------------
// Retry classification.
// ---------------------------------------------------------------------------

/// Whether a failed round should be retried with `store` enabled: any
/// non-success status whose body names the persistence restriction.
pub open spec fn retry_with_store_spec(status: u16, body: Seq<char>) -> bool {
    &&& !(200 <= status < 300)
    &&& {
        let n = ascii_lower(body);
        ||| seq_contains(n, "items are not persisted when `store` is set to false"@)
        ||| seq_contains(n, "items are not persisted when store is set to false"@)
    }
}

pub fn should_retry_with_store(status: u16, body: &str) -> (r: bool)
    ensures
        r == retry_with_store_spec(status, body@),
{
    if 200 <= status && status < 300 {
        return false;
    }
    let n = ascii_lower_str(body);
    str_contains(n.as_str(), "items are not persisted when `store` is set to false")
        || str_contains(n.as_str(), "items are not persisted when store is set to false")
}

/// Whether a failed round should be retried with reasoning items stripped:
/// any non-success status whose body references a reasoning item id or the
/// persistence restriction.
pub open spec fn retry_without_reasoning_spec(status: u16, body: Seq<char>) -> bool {
    &&& !(200 <= status < 300)
    &&& {
        let n = ascii_lower(body);
        ||| seq_contains(n, "item with id 'rs_"@)
        ||| seq_contains(n, "item with id \"rs_"@)
        ||| seq_contains(n, "items are not persisted when `store` is set to false"@)
        ||| seq_contains(n, "items are not persisted when store is set to false"@)
    }
}

pub fn should_retry_without_reasoning_items(status: u16, body: &str) -> (r: bool)
    ensures
        r == retry_without_reasoning_spec(status, body@),
{
    if 200 <= status && status < 300 {
        return false;
    }
    let n = ascii_lower_str(body);
    str_contains(n.as_str(), "item with id 'rs_") || str_contains(n.as_str(), "item with id \"rs_")
        || str_contains(n.as_str(), "items are not persisted when `store` is set to false")
        || str_contains(n.as_str(), "items are not persisted when store is set to false")
}

/// Whether a failed round should be retried after a backoff: a 500, 401 or
/// 403 whose body mentions an authentication failure.
pub open spec fn retry_authentication_spec(status: u16, body: Seq<char>) -> bool {
    (status == 500 || status == 401 || status == 403) && seq_contains(
        ascii_lower(body),
        "authentication failed"@,
    )
}

pub fn should_retry_authentication_failure(status: u16, body: &str) -> (r: bool)
    ensures
        r == retry_authentication_spec(status, body@),
{
    if status != 500 && status != 401 && status != 403 {
        return false;
    }
    let n = ascii_lower_str(body);
    str_contains(n.as_str(), "authentication failed")
}

/// What a failed round does next.
pub enum RetryDecision {
    /// Repeat the round with `store` forced on.
    RetryWithStore,
    /// Repeat the round with reasoning items stripped from the input.
    RetryWithoutReasoning,
    /// Repeat the round unchanged after the backoff.
    RetryAfterBackoff { backoff_ms: u64 },
    /// The failure stands.
    GiveUp,
}

/// The once-per-class retry bookkeeping of a round: whether the store and
/// reasoning recoveries have been spent, and how many authentication
/// retries have run.
pub struct RetryState {
    pub store_retried: bool,
    pub reasoning_retried: bool,
    pub auth_attempts: u8,
}

/// How one non-success response is classified, in order: the store class
/// (once, unless `store` was already on), the reasoning class (once, and
/// only when the input still carries reasoning items), the authentication
/// class (twice, with a linear backoff), else the failure stands.
pub open spec fn retry_decision_spec(
    st: RetryState,
    status: u16,
    body: Seq<char>,
    store_already_on: bool,
    input_has_reasoning: bool,
) -> RetryDecision {
    if !st.store_retried && retry_with_store_spec(status, body) && !store_already_on {
        RetryDecision::RetryWithStore
    } else if !st.reasoning_retried && retry_without_reasoning_spec(status, body) {
        if input_has_reasoning {
            RetryDecision::RetryWithoutReasoning
        } else {
            RetryDecision::GiveUp
        }
    } else if retry_authentication_spec(status, body) && st.auth_attempts < 2 {
        RetryDecision::RetryAfterBackoff { backoff_ms: (200 * ((st.auth_attempts as int) + 1)) as u64 }
    } else {
        RetryDecision::GiveUp
    }
}

impl RetryState {
    pub fn new() -> (r: RetryState)
        ensures
            !r.store_retried,
            !r.reasoning_retried,
            r.auth_attempts == 0,
    {
        RetryState { store_retried: false, reasoning_retried: false, auth_attempts: 0 }
    }

    /// Classifies one non-success response and spends the class it picks.
    pub fn on_http_failure(
        &mut self,
        status: u16,
        body: &str,
        store_already_on: bool,
        input_has_reasoning: bool,
    ) -> (r: RetryDecision)
        ensures
            r == retry_decision_spec(
                *old(self),
                status,
                body@,
                store_already_on,
                input_has_reasoning,
            ),
            final(self).store_retried == (old(self).store_retried || r is RetryWithStore),
            final(self).reasoning_retried == (old(self).reasoning_retried || r
                is RetryWithoutReasoning),
            final(self).auth_attempts == (if r is RetryAfterBackoff {
                (old(self).auth_attempts + 1) as u8
            } else {
                old(self).auth_attempts
            }),
    {
        if !self.store_retried && should_retry_with_store(status, body) && !store_already_on {
            self.store_retried = true;
            return RetryDecision::RetryWithStore;
        }
        if !self.reasoning_retried && should_retry_without_reasoning_items(status, body) {
            if input_has_reasoning {
                self.reasoning_retried = true;
                return RetryDecision::RetryWithoutReasoning;
            }
            return RetryDecision::GiveUp;
        }
        if should_retry_authentication_failure(status, body) && self.auth_attempts < 2 {
            self.auth_attempts = self.auth_attempts + 1;
            return RetryDecision::RetryAfterBackoff {
                backoff_ms: 200u64 * (self.auth_attempts as u64),
            };
        }
        RetryDecision::GiveUp
    }
}

/// Each recovery class fires at most once per round (twice for the
/// authentication backoff): a spent class is never picked again.
pub proof fn lemma_retry_once_per_class(
    st: RetryState,
    status: u16,
    body: Seq<char>,
    store_already_on: bool,
    input_has_reasoning: bool,
)
    ensures
        st.store_retried ==> !(retry_decision_spec(
            st,
            status,
            body,
            store_already_on,
            input_has_reasoning,
        ) is RetryWithStore),
        st.reasoning_retried ==> !(retry_decision_spec(
            st,
            status,
            body,
            store_already_on,
            input_has_reasoning,
        ) is RetryWithoutReasoning),
        st.auth_attempts >= 2 ==> !(retry_decision_spec(
            st,
            status,
            body,
            store_already_on,
            input_has_reasoning,
        ) is RetryAfterBackoff),
{
}

/// Whether reasoning items replay into the rolling input: both reasoning
/// and encrypted content must be on, and both default on.
pub open spec fn replay_reasoning_spec(
    resp: Option<crate::protocol::ResponsesRequestOptionsView>,
) -> bool {
    crate::wire::reasoning_enabled_of(resp) && crate::wire::include_encrypted_of(resp)
}

pub fn should_replay_reasoning_items(
    responses: Option<&crate::protocol::ResponsesRequestOptions>,
) -> (r: bool)
    ensures
        r == replay_reasoning_spec(match responses {
            Some(o) => Some(o@),
            None => None,
        }),
{
    let enabled: bool = match responses {
        Some(o) => match &o.reasoning {
            Some(ro) => match ro.enabled {
                Some(b) => b,
                None => true,
            },
            None => true,
        },
        None => true,
    };
    let enc: bool = match responses {
        Some(o) => match &o.reasoning {
            Some(ro) => match ro.include_encrypted_content {
                Some(b) => b,
                None => true,
            },
            None => true,
        },
        None => true,
    };
    enabled && enc
}

/// The history items kept for replay: everything, or everything that is not
/// reasoning-typed.
pub open spec fn replay_filter_fold(items: Seq<Json>, keep_reasoning: bool) -> Seq<Json>
    decreases items.len(),
{
    if items.len() == 0 {
        Seq::empty()
    } else {
        let rest = replay_filter_fold(items.drop_last(), keep_reasoning);
        if keep_reasoning || crate::wire::type_of(items.last()) != "reasoning"@ {
            rest.push(items.last())
        } else {
            rest
        }
    }
}

#[verifier::loop_isolation(false)]
pub fn filter_history_items_for_replay(items: &Vec<JsonValue>, keep_reasoning: bool) -> (r: Vec<
    JsonValue,
>)
    ensures
        views_of(r@) == replay_filter_fold(views_of(items@), keep_reasoning),
{
    proof {
        lemma_views_of(items@);
    }
    let ghost iv = views_of(items@);
    let mut out: Vec<JsonValue> = Vec::new();
    let mut i: usize = 0;
    proof {
        assert(iv.subrange(0, 0) =~= Seq::<Json>::empty());
        assert(views_of(out@) =~= replay_filter_fold(iv.subrange(0, 0), keep_reasoning));
    }
    while i < items.len()
        invariant
            i <= items@.len(),
            iv == views_of(items@),
            iv.len() == items@.len(),
            views_of(out@) == replay_filter_fold(iv.subrange(0, i as int), keep_reasoning),
        decreases items@.len() - i,
    {
        proof {
            assert(iv.subrange(0, i + 1) =~= iv.subrange(0, i as int).push(iv[i as int]));
            assert(iv.subrange(0, i + 1).drop_last() =~= iv.subrange(0, i as int));
            assert(iv[i as int] == items@[i as int]@);
        }
        let ty: String = match items[i].str_field("type") {
            Some(t) => t.clone(),
            None => String::new(),
        };
        if keep_reasoning || !str_eq(ty.as_str(), "reasoning") {
            let ghost prev_vec = out@;
            let ghost prev = views_of(out@);
            let c = json_clone(&items[i]);
            out.push(c);
            proof {
                lemma_views_of(prev_vec);
                lemma_views_of(out@);
                assert(views_of(out@) =~= prev.push(iv[i as int]));
            }
        }
        i = i + 1;
    }
    proof {
        assert(iv.subrange(0, iv.len() as int) =~= iv);
    }
    out
}

/// Drops every reasoning-typed item.
pub fn strip_reasoning_history_items(items: &Vec<JsonValue>) -> (r: Vec<JsonValue>)
    ensures
        views_of(r@) == replay_filter_fold(views_of(items@), false),
{
    filter_history_items_for_replay(items, false)
}

// ---------------------------------------------------------------------------
// Tool inputs.
// ---------------------------------------------------------------------------

/// How a call's argument text becomes a tool input: parsed JSON where it
/// parses, the bare text otherwise, an empty object for an empty text.
pub open spec fn parse_args_spec(arguments: Seq<char>) -> Json {
    if trim_spec(arguments).len() == 0 {
        Json::Obj(Seq::empty())
    } else {
        match crate::json::parsed_json(trim_spec(arguments)) {
            Some(v) => v@,
            None => Json::Str(trim_spec(arguments)),
        }
    }
}

pub fn parse_function_arguments(arguments: &str) -> (r: JsonValue)
    ensures
        r@ == parse_args_spec(arguments@),
{
    let trimmed = trim_str(arguments);
    if trimmed.as_str().is_empty() {
        let fields: Vec<(String, JsonValue)> = Vec::new();
        let ghost gf = fields@;
        let r = JsonValue::Obj(fields);
        proof {
            lemma_field_views_of(gf);
            assert(field_views_of(gf) =~= Seq::<(Seq<char>, Json)>::empty());
        }
        return r;
    }
    match crate::json::parse_json_text(trimmed.as_str()) {
        Some(v) => v,
        None => JsonValue::Str(trimmed),
    }
}

/// `shell.exec` inputs gain a `command` key copied from `cmd` when only the
/// latter is present; anything else passes through.
pub open spec fn normalize_shell_spec(input: Json) -> Json {
    match input {
        Json::Obj(fields) => if crate::json::obj_get(fields, "command"@) is Some {
            Json::Obj(fields)
        } else {
            match crate::json::obj_get(fields, "cmd"@) {
                Some(cmd) => Json::Obj(fields.push(("command"@, cmd))),
                None => Json::Obj(fields),
            }
        },
        _ => input,
    }
}

#[verifier::loop_isolation(false)]
fn first_field<'a>(fields: &'a Vec<(String, JsonValue)>, key: &str) -> (r: Option<&'a JsonValue>)
    ensures
        match r {
            Some(v) => crate::json::obj_get(field_views_of(fields@), key@) == Some(v@),
            None => crate::json::obj_get(field_views_of(fields@), key@) is None,
        },
{
    proof {
        lemma_field_views_of(fields@);
    }
    let mut i: usize = 0;
    while i < fields.len()
        invariant
            i <= fields@.len(),
            forall|k: int| 0 <= k < i ==> (#[trigger] field_views_of(fields@)[k]).0 != key@,
        decreases fields@.len() - i,
    {
        if str_eq(fields[i].0.as_str(), key) {
            proof {
                crate::json::lemma_obj_get_at(field_views_of(fields@), key@, i as int);
            }
            return Some(&fields[i].1);
        }
        i = i + 1;
    }
    proof {
        crate::json::lemma_obj_get_none(field_views_of(fields@), key@);
    }
    None
}

pub fn normalize_shell_exec_input(input: JsonValue) -> (r: JsonValue)
    ensures
        r@ == normalize_shell_spec(input@),
{
    match input {
        JsonValue::Obj(mut fields) => {
            let ghost gf = field_views_of(fields@);
            if first_field(&fields, "command").is_some() {
                return JsonValue::Obj(fields);
            }
            let cmd: Option<JsonValue> = match first_field(&fields, "cmd") {
                Some(v) => Some(json_clone(v)),
                None => None,
            };
            match cmd {
                Some(v) => {
                    let ghost prev_vec = fields@;
                    fields.push((lit("command"), v));
                    proof {
                        lemma_field_views_of(prev_vec);
                        lemma_field_views_of(fields@);
                        assert(field_views_of(fields@) =~= gf.push(
                            ("command"@, crate::json::obj_get(gf, "cmd"@)->0),
                        ));
                    }
                    JsonValue::Obj(fields)
                },
                None => JsonValue::Obj(fields),
            }
        },
        other => other,
    }
}

/// The runtime context the ledger memory tool receives.
pub struct LedgerRuntimeContext {
    pub root_dir: String,
    pub session_id: String,
    pub agent_id: String,
    pub mode: String,
    pub can_read_all: bool,
    pub readable_agents: Vec<String>,
    pub focus_max_chars: usize,
}

/// The seven-field object the memory tool is handed.
pub open spec fn runtime_context_json(ctx: LedgerRuntimeContext) -> Json {
    Json::Obj(
        seq![
            ("root_dir"@, Json::Str(ctx.root_dir@)),
            ("session_id"@, Json::Str(ctx.session_id@)),
            ("agent_id"@, Json::Str(ctx.agent_id@)),
            ("mode"@, Json::Str(ctx.mode@)),
            ("can_read_all"@, Json::Bool(ctx.can_read_all)),
            (
                "readable_agents"@,
                Json::Arr(
                    ctx.readable_agents@.map_values(|s: String| Json::Str(s@)),
                ),
            ),
            ("focus_max_chars"@, Json::UInt(ctx.focus_max_chars as u64)),
        ],
    )
}

/// Injects `_runtime_context` into a `context_ledger.memory` input: an
/// object keeps its fields; null becomes an empty object; any other value
/// moves under a `value` key. The appended field carries the ledger's
/// runtime context.
#[verifier::loop_isolation(false)]
pub fn inject_context_ledger_runtime_context(input: JsonValue, ctx: &LedgerRuntimeContext) -> (r:
    JsonValue)
    ensures
        ({
            let base = match input@ {
                Json::Obj(fields) => fields,
                Json::Null => Seq::<(Seq<char>, Json)>::empty(),
                other => seq![("value"@, other)],
            };
            r@ == Json::Obj(base.push(("_runtime_context"@, runtime_context_json(*ctx))))
        }),
{
    let mut fields: Vec<(String, JsonValue)> = match input {
        JsonValue::Obj(f) => f,
        JsonValue::Null => Vec::new(),
        other => {
            let mut f: Vec<(String, JsonValue)> = Vec::new();
            f.push((lit("value"), other));
            f
        },
    };
    proof {
        lemma_field_views_of(fields@);
    }
    let ghost base = field_views_of(fields@);
    let mut agents: Vec<JsonValue> = Vec::new();
    let mut i: usize = 0;
    while i < ctx.readable_agents.len()
        invariant
            i <= ctx.readable_agents@.len(),
            agents@.len() == i,
            forall|k: int| 0 <= k < i ==> agents@[k]@ == Json::Str(ctx.readable_agents@[k]@),
        decreases ctx.readable_agents@.len() - i,
    {
        agents.push(JsonValue::Str(ctx.readable_agents[i].clone()));
        i = i + 1;
    }
    let ghost ga = agents@;
    let mut rc: Vec<(String, JsonValue)> = Vec::new();
    rc.push((lit("root_dir"), JsonValue::Str(ctx.root_dir.clone())));
    rc.push((lit("session_id"), JsonValue::Str(ctx.session_id.clone())));
    rc.push((lit("agent_id"), JsonValue::Str(ctx.agent_id.clone())));
    rc.push((lit("mode"), JsonValue::Str(ctx.mode.clone())));
    rc.push((lit("can_read_all"), JsonValue::Bool(ctx.can_read_all)));
    rc.push((lit("readable_agents"), JsonValue::Arr(agents)));
    rc.push((lit("focus_max_chars"), JsonValue::UInt(ctx.focus_max_chars as u64)));
    let ghost gr = rc@;
    let rc_obj = JsonValue::Obj(rc);
    proof {
        lemma_views_of(ga);
        lemma_field_views_of(gr);
        assert(views_of(ga) =~= ctx.readable_agents@.map_values(|s: String| Json::Str(s@)));
        assert(field_views_of(gr) =~= runtime_context_json(*ctx)->Obj_0);
    }
    let ghost prev_vec = fields@;
    fields.push((lit("_runtime_context"), rc_obj));
    proof {
        lemma_field_views_of(prev_vec);
        lemma_field_views_of(fields@);
        assert(field_views_of(fields@) =~= base.push(
            ("_runtime_context"@, runtime_context_json(*ctx)),
        ));
    }
    JsonValue::Obj(fields)
}

/// The `{ok, tool, result}` or `{ok, tool, error}` envelope a tool outcome
/// feeds back to the model, and the `function_call_output` item around it.
pub open spec fn tool_envelope_spec(ok: bool, tool: Seq<char>, body_key: Seq<char>, body: Json)
    -> Json {
    Json::Obj(seq![("ok"@, Json::Bool(ok)), ("tool"@, Json::Str(tool)), (body_key, body)])
}

pub open spec fn call_output_item_spec(call_id: Seq<char>, envelope: Json) -> Json {
    Json::Obj(
        seq![
            ("type"@, Json::Str("function_call_output"@)),
            ("call_id"@, Json::Str(call_id)),
            ("output"@, Json::Str(json_text(envelope))),
        ],
    )
}

/// A successful call's feedback item.
pub fn build_tool_success_item(call_id: &str, tool: &str, result: &JsonValue) -> (r: JsonValue)
    ensures
        r@ == call_output_item_spec(
            call_id@,
            tool_envelope_spec(true, tool@, "result"@, result@),
        ),
{
    let mut env: Vec<(String, JsonValue)> = Vec::new();
    env.push((lit("ok"), JsonValue::Bool(true)));
    env.push((lit("tool"), JsonValue::Str(lit(tool))));
    env.push((lit("result"), json_clone(result)));
    let ghost ge = env@;
    let envelope = JsonValue::Obj(env);
    proof {
        lemma_field_views_of(ge);
        assert(field_views_of(ge) =~= tool_envelope_spec(true, tool@, "result"@, result@)->Obj_0);
    }
    let output = crate::json::json_to_text(&envelope);
    let mut item: Vec<(String, JsonValue)> = Vec::new();
    item.push((lit("type"), JsonValue::Str(lit("function_call_output"))));
    item.push((lit("call_id"), JsonValue::Str(lit(call_id))));
    item.push((lit("output"), JsonValue::Str(output)));
    let ghost gi = item@;
    let r = JsonValue::Obj(item);
    proof {
        lemma_field_views_of(gi);
        assert(field_views_of(gi) =~= call_output_item_spec(
            call_id@,
            tool_envelope_spec(true, tool@, "result"@, result@),
        )->Obj_0);
    }
    r
}

/// A failed call's feedback item; the turn goes on.
pub fn build_tool_error_item(call_id: &str, tool: &str, error: &str) -> (r: JsonValue)
    ensures
        r@ == call_output_item_spec(
            call_id@,
            tool_envelope_spec(false, tool@, "error"@, Json::Str(error@)),
        ),
{
    let mut env: Vec<(String, JsonValue)> = Vec::new();
    env.push((lit("ok"), JsonValue::Bool(false)));
    env.push((lit("tool"), JsonValue::Str(lit(tool))));
    env.push((lit("error"), JsonValue::Str(lit(error))));
    let ghost ge = env@;
    let envelope = JsonValue::Obj(env);
    proof {
        lemma_field_views_of(ge);
        assert(field_views_of(ge) =~= tool_envelope_spec(
            false,
            tool@,
            "error"@,
            Json::Str(error@),
        )->Obj_0);
    }
    let output = crate::json::json_to_text(&envelope);
    let mut item: Vec<(String, JsonValue)> = Vec::new();
    item.push((lit("type"), JsonValue::Str(lit("function_call_output"))));
    item.push((lit("call_id"), JsonValue::Str(lit(call_id))));
    item.push((lit("output"), JsonValue::Str(output)));
    let ghost gi = item@;
    let r = JsonValue::Obj(item);
    proof {
        lemma_field_views_of(gi);
        assert(field_views_of(gi) =~= call_output_item_spec(
            call_id@,
            tool_envelope_spec(false, tool@, "error"@, Json::Str(error@)),
        )->Obj_0);
    }
    r
}

/// The wire definition of one bound tool.
pub open spec fn responses_tool_spec(b: ToolBindingView) -> Json {
    let description = match normalized_opt(b.description) {
        Some(d) => d,
        None => "Execute tool "@ + b.runtime_name,
    };
    let parameters = match b.input_schema {
        Some(s) => s,
        None => Json::Obj(
            seq![("type"@, Json::Str("object"@)), ("additionalProperties"@, Json::Bool(true))],
        ),
    };
    Json::Obj(
        seq![
            ("type"@, Json::Str("function"@)),
            ("name"@, Json::Str(b.model_name)),
            ("description"@, Json::Str(description)),
            ("parameters"@, parameters),
        ],
    )
}

pub fn build_responses_tool(tool: &ToolBinding) -> (r: JsonValue)
    ensures
        r@ == responses_tool_spec(tool@),
{
    let description: String = match crate::wire::normalized_option(tool.description.as_ref()) {
        Some(d) => d,
        None => {
            let mut v = chars_of("Execute tool ");
            let nv = chars_of(tool.runtime_name.as_str());
            crate::text::extend_chars(&mut v, &nv);
            string_from_chars(&v)
        },
    };
    let parameters: JsonValue = match &tool.input_schema {
        Some(s) => json_clone(s),
        None => {
            let mut f: Vec<(String, JsonValue)> = Vec::new();
            f.push((lit("type"), JsonValue::Str(lit("object"))));
            f.push((lit("additionalProperties"), JsonValue::Bool(true)));
            let ghost gf = f@;
            let p = JsonValue::Obj(f);
            proof {
                lemma_field_views_of(gf);
                assert(field_views_of(gf) =~= seq![
                    ("type"@, Json::Str("object"@)),
                    ("additionalProperties"@, Json::Bool(true)),
                ]);
            }
            p
        },
    };
    let mut fields: Vec<(String, JsonValue)> = Vec::new();
    fields.push((lit("type"), JsonValue::Str(lit("function"))));
    fields.push((lit("name"), JsonValue::Str(tool.model_name.clone())));
    fields.push((lit("description"), JsonValue::Str(description)));
    fields.push((lit("parameters"), parameters));
    let ghost gf = fields@;
    let r = JsonValue::Obj(fields);
    proof {
        lemma_field_views_of(gf);
        assert(field_views_of(gf) =~= responses_tool_spec(tool@)->Obj_0);
    }
    r
}

// ---------------------------------------------------------------------------
// Round outcomes.
// ---------------------------------------------------------------------------

/// What one parsed round means for the loop.
pub enum RoundOutcome {
    /// No calls and usable text: the trimmed final answer.
    Final(String),
    /// The round asked for tools; the loop continues.
    RunTools,
    /// No calls and no usable text: the round produced nothing.
    Empty,
}

/// Decides a round: tool calls continue the loop; otherwise the trimmed
/// output text is the answer, and an empty one fails the turn.
pub fn round_outcome(parsed: &crate::wire::ParsedResponse) -> (r: RoundOutcome)
    ensures
        match r {
            RoundOutcome::Final(t) => {
                &&& parsed.function_calls@.len() == 0
                &&& (match ov(parsed.output_text) {
                    Some(s) => trim_spec(s).len() > 0 && t@ == trim_spec(s),
                    None => false,
                })
            },
            RoundOutcome::RunTools => parsed.function_calls@.len() > 0,
            RoundOutcome::Empty => {
                &&& parsed.function_calls@.len() == 0
                &&& (match ov(parsed.output_text) {
                    Some(s) => trim_spec(s).len() == 0,
                    None => true,
                })
            },
        },
{
    if parsed.function_calls.len() > 0 {
        return RoundOutcome::RunTools;
    }
    match &parsed.output_text {
        Some(text) => {
            let t = trim_str(text.as_str());
            if t.as_str().is_empty() {
                RoundOutcome::Empty
            } else {
                RoundOutcome::Final(t)
            }
        },
        None => RoundOutcome::Empty,
    }
}

/// Closes the loop: the captured answer, or the round bound exceeded.
pub fn finish_turn(final_text: Option<String>) -> (r: Result<String, crate::wire::ModelError>)
    ensures
        match final_text {
            Some(t) => (r matches Ok(s) && s@ == t@),
            None => (r matches Err(e) && (e matches crate::wire::ModelError::ToolLoopExceeded {
                max_rounds,
            } && max_rounds == MAX_TOOL_LOOP_ROUNDS)),
        },
{
    match final_text {
        Some(t) => Ok(t),
        None => Err(
            crate::wire::ModelError::ToolLoopExceeded { max_rounds: MAX_TOOL_LOOP_ROUNDS },
        ),
    }
}

/// Whether an input item carries anything after trimming.
pub open spec fn item_supported(item: crate::protocol::InputItemView) -> bool {
    match item {
        crate::protocol::InputItemView::Text { text } => trim_spec(text).len() > 0,
        crate::protocol::InputItemView::Image { image_url } => trim_spec(image_url).len() > 0,
        crate::protocol::InputItemView::LocalImage { path } => trim_spec(path).len() > 0,
    }
}

/// Whether a turn has anything to send: some item survives trimming.
#[verifier::loop_isolation(false)]
pub fn has_supported_input(items: &Vec<crate::protocol::InputItem>) -> (r: bool)
    ensures
        r == (exists|i: int|
            0 <= i < items@.len() && item_supported(#[trigger] input_item_views(items@)[i])),
{
    let ghost iv = input_item_views(items@);
    let mut i: usize = 0;
    while i < items.len()
        invariant
            i <= items@.len(),
            iv == input_item_views(items@),
            iv.len() == items@.len(),
            forall|k: int| 0 <= k < i ==> !item_supported(#[trigger] iv[k]),
        decreases items@.len() - i,
    {
        proof {
            assert(iv[i as int] == items@[i as int]@);
        }
        let supported = match &items[i] {
            crate::protocol::InputItem::Text { text } => {
                let t = trim_str(text.as_str());
                !t.as_str().is_empty()
            },
            crate::protocol::InputItem::Image { image_url } => {
                let t = trim_str(image_url.as_str());
                !t.as_str().is_empty()
            },
            crate::protocol::InputItem::LocalImage { path } => {
                let t = trim_str(path.as_str());
                !t.as_str().is_empty()
            },
        };
        if supported {
            return true;
        }
        i = i + 1;
    }
    false
}

// ---------------------------------------------------------------------------
// Budgeting and compaction decisions.
// ---------------------------------------------------------------------------

pub open spec fn est_sum(items: Seq<Json>) -> nat
    decreases items.len(),
{
    if items.len() == 0 {
        0
    } else {
        est_sum(items.drop_last()) + crate::json::est_chars(items.last())
    }
}

/// Whether a history item carries the recalled focus block.
pub open spec fn is_focus_item(item: Json) -> bool {
    match crate::compact::item_text(item) {
        Some(t) => seq_contains(t, "<context_ledger_focus>"@),
        None => false,
    }
}

pub open spec fn est_sum_no_focus(items: Seq<Json>) -> nat
    decreases items.len(),
{
    if items.len() == 0 {
        0
    } else {
        let rest = est_sum_no_focus(items.drop_last());
        if is_focus_item(items.last()) {
            rest
        } else {
            rest + crate::json::est_chars(items.last())
        }
    }
}

/// Characters divided by four, rounded up, minus the baseline.
pub open spec fn tokens_of_chars(chars: nat, baseline: u64) -> nat {
    let t = (chars + 3) / 4;
    if t <= baseline {
        0
    } else {
        (t - baseline) as nat
    }
}

fn sat_add(a: u64, b: u64) -> (r: u64)
    ensures
        r <= a + b,
        a + b <= u64::MAX ==> r == a + b,
{
    if a > u64::MAX - b {
        u64::MAX
    } else {
        a + b
    }
}

/// The estimated token count of the rolling input, the baseline deducted;
/// exact for histories whose size fits a machine word.
#[verifier::loop_isolation(false)]
pub fn estimate_tokens_in_history(history: &Vec<JsonValue>, baseline_tokens: u64) -> (r: u64)
    ensures
        est_sum(views_of(history@)) + 3 <= usize::MAX ==> r == tokens_of_chars(
            est_sum(views_of(history@)),
            baseline_tokens,
        ),
{
    proof {
        lemma_views_of(history@);
    }
    let ghost hv = views_of(history@);
    let mut chars: u64 = 0;
    let mut i: usize = 0;
    proof {
        assert(hv.subrange(0, 0) =~= Seq::<Json>::empty());
    }
    while i < history.len()
        invariant
            i <= history@.len(),
            hv == views_of(history@),
            hv.len() == history@.len(),
            est_sum(hv.subrange(0, i as int)) <= usize::MAX ==> chars == est_sum(
                hv.subrange(0, i as int),
            ),
        decreases history@.len() - i,
    {
        proof {
            assert(hv.subrange(0, i + 1) =~= hv.subrange(0, i as int).push(hv[i as int]));
            assert(hv.subrange(0, i + 1).drop_last() =~= hv.subrange(0, i as int));
            assert(hv[i as int] == history@[i as int]@);
        }
        let c = crate::json::estimate_chars(&history[i]);
        chars = sat_add(chars, c);
        i = i + 1;
    }
    proof {
        assert(hv.subrange(0, hv.len() as int) =~= hv);
    }
    let tokens = sat_add(chars, 3) / 4;
    if tokens <= baseline_tokens {
        0
    } else {
        tokens - baseline_tokens
    }
}

/// The same estimate, skipping the recalled focus block.
#[verifier::loop_isolation(false)]
pub fn estimate_tokens_excluding_ledger_focus(history: &Vec<JsonValue>, baseline_tokens: u64) -> (r:
    u64)
    ensures
        est_sum_no_focus(views_of(history@)) + 3 <= usize::MAX ==> r == tokens_of_chars(
            est_sum_no_focus(views_of(history@)),
            baseline_tokens,
        ),
{
    proof {
        lemma_views_of(history@);
    }
    let ghost hv = views_of(history@);
    let mut chars: u64 = 0;
    let mut i: usize = 0;
    proof {
        assert(hv.subrange(0, 0) =~= Seq::<Json>::empty());
    }
    while i < history.len()
        invariant
            i <= history@.len(),
            hv == views_of(history@),
            hv.len() == history@.len(),
            est_sum_no_focus(hv.subrange(0, i as int)) <= usize::MAX ==> chars == est_sum_no_focus(
                hv.subrange(0, i as int),
            ),
        decreases history@.len() - i,
    {
        proof {
            assert(hv.subrange(0, i + 1) =~= hv.subrange(0, i as int).push(hv[i as int]));
            assert(hv.subrange(0, i + 1).drop_last() =~= hv.subrange(0, i as int));
            assert(hv[i as int] == history@[i as int]@);
        }
        let skip_item: bool = match crate::compact::extract_text_from_history_item(&history[i]) {
            Some(t) => str_contains(t.as_str(), "<context_ledger_focus>"),
            None => false,
        };
        if !skip_item {
            let c = crate::json::estimate_chars(&history[i]);
            chars = sat_add(chars, c);
        }
        i = i + 1;
    }
    proof {
        assert(hv.subrange(0, hv.len() as int) =~= hv);
    }
    let tokens = sat_add(chars, 3) / 4;
    if tokens <= baseline_tokens {
        0
    } else {
        tokens - baseline_tokens
    }
}

/// The most rounds a turn may take before it fails.
pub const MAX_TOOL_LOOP_ROUNDS: usize = 64;

/// Whether compaction must run after the loop: asked for, or the estimate
/// exceeds the window's threshold share.
pub open spec fn auto_compact_spec(
    estimated_tokens: u64,
    max_input_tokens: Option<u64>,
    threshold_percent: u64,
) -> bool {
    match max_input_tokens {
        Some(m) => 100 * (estimated_tokens as int) > (m as int) * (threshold_percent as int),
        None => false,
    }
}

pub fn should_auto_compact(
    estimated_tokens: u64,
    max_input_tokens: Option<u64>,
    threshold_percent: u64,
) -> (r: bool)
    ensures
        r == auto_compact_spec(estimated_tokens, max_input_tokens, threshold_percent),
{
    match max_input_tokens {
        Some(m) => {
            proof {
                assert((m as u128) * (threshold_percent as u128) < u128::MAX) by (nonlinear_arith)
                    requires
                        m <= u64::MAX,
                        threshold_percent <= u64::MAX,
                ;
            }
            let lhs: u128 = 100u128 * (estimated_tokens as u128);
            let rhs: u128 = (m as u128) * (threshold_percent as u128);
            lhs > rhs
        },
        None => false,
    }
}

/// The context-usage percentage surfaced on round events, capped at 100.
pub open spec fn usage_percent_spec(estimated_tokens: u64, max_input_tokens: Option<u64>)
    -> Option<u64> {
    match max_input_tokens {
        Some(m) => if m == 0 {
            None
        } else {
            Some(
                if (estimated_tokens as int) * 100 / (m as int) < 100 {
                    ((estimated_tokens as int) * 100 / (m as int)) as u64
                } else {
                    100
                },
            )
        },
        None => None,
    }
}

pub fn context_usage_percent(estimated_tokens: u64, max_input_tokens: Option<u64>) -> (r: Option<
    u64,
>)
    ensures
        r == usage_percent_spec(estimated_tokens, max_input_tokens),
{
    match max_input_tokens {
        Some(m) => {
            if m == 0 {
                None
            } else {
                let scaled: u128 = (estimated_tokens as u128) * 100;
                let pct: u128 = scaled / (m as u128);
                if pct < 100 {
                    Some(pct as u64)
                } else {
                    Some(100u64)
                }
            }
        },
        None => None,
    }
}


// ---------------------------------------------------------------------------
// Building the initial rolling input.
// ---------------------------------------------------------------------------

/// A user/developer message holding one `input_text` block.
pub open spec fn text_message_spec(role: Seq<char>, text: Seq<char>) -> Json {
    Json::Obj(
        seq![
            ("role"@, Json::Str(role)),
            (
                "content"@,
                Json::Arr(
                    seq![
                        Json::Obj(
                            seq![
                                ("type"@, Json::Str("input_text"@)),
                                ("text"@, Json::Str(text)),
                            ],
                        ),
                    ],
                ),
            ),
        ],
    )
}

pub fn build_text_message(role: &str, text: String) -> (r: JsonValue)
    ensures
        r@ == text_message_spec(role@, text@),
{
    let ghost tv = text@;
    let mut part: Vec<(String, JsonValue)> = Vec::new();
    part.push((lit("type"), JsonValue::Str(lit("input_text"))));
    part.push((lit("text"), JsonValue::Str(text)));
    let ghost gp = part@;
    let p = JsonValue::Obj(part);
    let mut parts: Vec<JsonValue> = Vec::new();
    parts.push(p);
    let ghost pv = parts@;
    let mut fields: Vec<(String, JsonValue)> = Vec::new();
    fields.push((lit("role"), JsonValue::Str(lit(role))));
    fields.push((lit("content"), JsonValue::Arr(parts)));
    let ghost gf = fields@;
    let r = JsonValue::Obj(fields);
    proof {
        lemma_field_views_of(gp);
        lemma_views_of(pv);
        lemma_field_views_of(gf);
        let spec_part = Json::Obj(
            seq![("type"@, Json::Str("input_text"@)), ("text"@, Json::Str(tv))],
        );
        assert(field_views_of(gp) =~= spec_part->Obj_0);
        assert(views_of(pv) =~= seq![spec_part]);
        assert(field_views_of(gf) =~= text_message_spec(role@, tv)->Obj_0);
    }
    r
}

/// Whether the history already holds the named block: any item whose text
/// carries the open tag or the whole block.
pub open spec fn history_has_block(
    items: Seq<Json>,
    open_tag: Seq<char>,
    full_block: Seq<char>,
) -> bool
    decreases items.len(),
{
    if items.len() == 0 {
        false
    } else {
        ||| history_has_block(items.drop_last(), open_tag, full_block)
        ||| (match crate::compact::item_text(items.last()) {
            Some(t) => seq_contains(t, open_tag) || seq_contains(t, full_block),
            None => false,
        })
    }
}

#[verifier::loop_isolation(false)]
pub fn history_contains_block(history: &Vec<JsonValue>, block_name: &str, full_block: &str) -> (r:
    bool)
    ensures
        r == history_has_block(
            views_of(history@),
            seq!['<'] + block_name@ + seq!['>'],
            full_block@,
        ),
{
    proof {
        lemma_views_of(history@);
    }
    let ghost hv = views_of(history@);
    let mut open_tag: Vec<char> = Vec::new();
    open_tag.push('<');
    let nv = chars_of(block_name);
    crate::text::extend_chars(&mut open_tag, &nv);
    open_tag.push('>');
    proof {
        assert(open_tag@ =~= seq!['<'] + block_name@ + seq!['>']);
    }
    let open_str = string_from_chars(&open_tag);
    let mut i: usize = 0;
    let mut found = false;
    proof {
        assert(hv.subrange(0, 0) =~= Seq::<Json>::empty());
    }
    while i < history.len()
        invariant
            i <= history@.len(),
            hv == views_of(history@),
            hv.len() == history@.len(),
            found == history_has_block(
                hv.subrange(0, i as int),
                seq!['<'] + block_name@ + seq!['>'],
                full_block@,
            ),
        decreases history@.len() - i,
    {
        proof {
            assert(hv.subrange(0, i + 1) =~= hv.subrange(0, i as int).push(hv[i as int]));
            assert(hv.subrange(0, i + 1).drop_last() =~= hv.subrange(0, i as int));
            assert(hv[i as int] == history@[i as int]@);
        }
        match crate::compact::extract_text_from_history_item(&history[i]) {
            Some(t) => {
                if str_contains(t.as_str(), open_str.as_str()) || str_contains(
                    t.as_str(),
                    full_block,
                ) {
                    found = true;
                }
            },
            None => {},
        }
        i = i + 1;
    }
    proof {
        assert(hv.subrange(0, hv.len() as int) =~= hv);
    }
    found
}

/// What injecting one context block adds: one wrapped message, unless the
/// content is empty or the history already carries the block.
pub open spec fn inject_block_spec(
    history: Seq<Json>,
    block_name: Seq<char>,
    content: Option<Seq<char>>,
    role: Seq<char>,
) -> Seq<Json> {
    match content {
        Some(raw) => if trim_spec(raw).len() == 0 {
            history
        } else {
            let block = crate::compact::wrap_block_spec(block_name, trim_spec(raw));
            if history_has_block(history, seq!['<'] + block_name + seq!['>'], block) {
                history
            } else {
                history.push(text_message_spec(role, block))
            }
        },
        None => history,
    }
}

pub fn maybe_inject_context_block(
    input: &mut Vec<JsonValue>,
    block_name: &str,
    content: Option<&String>,
    role: &str,
)
    ensures
        views_of(final(input)@) == inject_block_spec(
            views_of(old(input)@),
            block_name@,
            match content {
                Some(c) => Some(c@),
                None => None,
            },
            role@,
        ),
{
    proof {
        lemma_views_of(input@);
    }
    let raw = match content {
        Some(c) => c,
        None => {
            return ;
        },
    };
    let trimmed = trim_str(raw.as_str());
    if trimmed.as_str().is_empty() {
        return ;
    }
    let block = crate::compact::wrap_context_block(block_name, trimmed.as_str());
    if history_contains_block(input, block_name, block.as_str()) {
        return ;
    }
    let ghost prev_vec = input@;
    let ghost prev = views_of(input@);
    let msg = build_text_message(role, block);
    input.push(msg);
    proof {
        lemma_views_of(prev_vec);
        lemma_views_of(input@);
        assert(views_of(input@) =~= prev.push(
            text_message_spec(
                role@,
                crate::compact::wrap_block_spec(block_name@, trim_spec(raw@)),
            ),
        ));
    }
}

/// Only object-shaped history items survive normalization.
pub open spec fn object_items_fold(items: Seq<Json>) -> Seq<Json>
    decreases items.len(),
{
    if items.len() == 0 {
        Seq::empty()
    } else {
        let rest = object_items_fold(items.drop_last());
        if items.last() is Obj {
            rest.push(items.last())
        } else {
            rest
        }
    }
}

#[verifier::loop_isolation(false)]
pub fn normalize_history_items(history_items: &Vec<JsonValue>) -> (r: Vec<JsonValue>)
    ensures
        views_of(r@) == object_items_fold(views_of(history_items@)),
{
    proof {
        lemma_views_of(history_items@);
    }
    let ghost hv = views_of(history_items@);
    let mut out: Vec<JsonValue> = Vec::new();
    let mut i: usize = 0;
    proof {
        assert(hv.subrange(0, 0) =~= Seq::<Json>::empty());
        assert(views_of(out@) =~= object_items_fold(hv.subrange(0, 0)));
    }
    while i < history_items.len()
        invariant
            i <= history_items@.len(),
            hv == views_of(history_items@),
            hv.len() == history_items@.len(),
            views_of(out@) == object_items_fold(hv.subrange(0, i as int)),
        decreases history_items@.len() - i,
    {
        proof {
            assert(hv.subrange(0, i + 1) =~= hv.subrange(0, i as int).push(hv[i as int]));
            assert(hv.subrange(0, i + 1).drop_last() =~= hv.subrange(0, i as int));
            assert(hv[i as int] == history_items@[i as int]@);
        }
        if history_items[i].is_object() {
            let ghost prev_vec = out@;
            let ghost prev = views_of(out@);
            let c = json_clone(&history_items[i]);
            out.push(c);
            proof {
                lemma_views_of(prev_vec);
                lemma_views_of(out@);
                assert(views_of(out@) =~= prev.push(hv[i as int]));
            }
        }
        i = i + 1;
    }
    proof {
        assert(hv.subrange(0, hv.len() as int) =~= hv);
    }
    out
}

/// The rendered `turn_context` body: `key=value` lines for each non-empty
/// field, in a fixed order.
pub open spec fn turn_context_pieces(tc: crate::protocol::TurnContextView) -> Seq<Seq<char>> {
    let cwd_part = match normalized_opt(tc.cwd) {
        Some(v) => seq!["cwd="@ + v],
        None => Seq::<Seq<char>>::empty(),
    };
    let approval_part = match normalized_opt(tc.approval) {
        Some(v) => seq!["approval="@ + v],
        None => Seq::<Seq<char>>::empty(),
    };
    let sandbox_part = match normalized_opt(tc.sandbox) {
        Some(v) => seq!["sandbox="@ + v],
        None => Seq::<Seq<char>>::empty(),
    };
    let model_part = match normalized_opt(tc.model) {
        Some(v) => seq!["model="@ + v],
        None => Seq::<Seq<char>>::empty(),
    };
    cwd_part + approval_part + sandbox_part + model_part
}

pub open spec fn render_turn_context_spec(tc: crate::protocol::TurnContextView) -> Option<
    Seq<char>,
> {
    if turn_context_pieces(tc).len() == 0 {
        None
    } else {
        Some(crate::text::join_with(turn_context_pieces(tc), seq!['\n']))
    }
}

#[verifier::loop_isolation(false)]
pub fn render_turn_context_block(turn_context: Option<&crate::protocol::TurnContext>) -> (r:
    Option<String>)
    ensures
        match turn_context {
            Some(tc) => ov(r) == render_turn_context_spec(tc@),
            None => r is None,
        },
{
    let tc = match turn_context {
        Some(tc) => tc,
        None => {
            return None;
        },
    };
    let mut pieces: Vec<Vec<char>> = Vec::new();
    match crate::wire::normalized_option(tc.cwd.as_ref()) {
        Some(v) => {
            let mut line = chars_of("cwd=");
            let vv = chars_of(v.as_str());
            crate::text::extend_chars(&mut line, &vv);
            pieces.push(line);
        },
        None => {},
    }
    match crate::wire::normalized_option(tc.approval.as_ref()) {
        Some(v) => {
            let mut line = chars_of("approval=");
            let vv = chars_of(v.as_str());
            crate::text::extend_chars(&mut line, &vv);
            pieces.push(line);
        },
        None => {},
    }
    match crate::wire::normalized_option(tc.sandbox.as_ref()) {
        Some(v) => {
            let mut line = chars_of("sandbox=");
            let vv = chars_of(v.as_str());
            crate::text::extend_chars(&mut line, &vv);
            pieces.push(line);
        },
        None => {},
    }
    match crate::wire::normalized_option(tc.model.as_ref()) {
        Some(v) => {
            let mut line = chars_of("model=");
            let vv = chars_of(v.as_str());
            crate::text::extend_chars(&mut line, &vv);
            pieces.push(line);
        },
        None => {},
    }
    proof {
        assert(crate::text::char_views(pieces@) =~= turn_context_pieces(tc@));
    }
    if pieces.len() == 0 {
        return None;
    }
    let mut sep: Vec<char> = Vec::new();
    sep.push('\n');
    proof {
        assert(sep@ =~= seq!['\n']);
    }
    let joined = crate::text::join_chars(&pieces, &sep);
    Some(string_from_chars(&joined))
}

/// One input item's wire content: an `input_text` block or an `input_image`
/// reference; blank items vanish. Local images must already carry their
/// data URL.
pub open spec fn content_item_spec(
    item: crate::protocol::InputItemView,
    local_url: Option<Seq<char>>,
) -> Seq<Json> {
    match item {
        crate::protocol::InputItemView::Text { text } => if trim_spec(text).len() == 0 {
            Seq::empty()
        } else {
            seq![
                Json::Obj(
                    seq![("type"@, Json::Str("input_text"@)), ("text"@, Json::Str(text))],
                ),
            ]
        },
        crate::protocol::InputItemView::Image { image_url } => if trim_spec(image_url).len()
            == 0 {
            Seq::empty()
        } else {
            seq![
                Json::Obj(
                    seq![
                        ("type"@, Json::Str("input_image"@)),
                        ("image_url"@, Json::Str(image_url)),
                    ],
                ),
            ]
        },
        crate::protocol::InputItemView::LocalImage { path } => if trim_spec(path).len() == 0 {
            Seq::empty()
        } else {
            seq![
                Json::Obj(
                    seq![
                        ("type"@, Json::Str("input_image"@)),
                        ("image_url"@, Json::Str(local_url->0)),
                    ],
                ),
            ]
        },
    }
}

pub open spec fn content_fold(
    items: Seq<crate::protocol::InputItemView>,
    local_urls: Seq<Option<Seq<char>>>,
) -> Seq<Json>
    decreases items.len(),
{
    if items.len() == 0 {
        Seq::empty()
    } else {
        content_fold(items.drop_last(), local_urls.drop_last()) + content_item_spec(
            items.last(),
            local_urls.last(),
        )
    }
}

pub open spec fn input_item_views(xs: Seq<crate::protocol::InputItem>) -> Seq<
    crate::protocol::InputItemView,
> {
    xs.map_values(|x: crate::protocol::InputItem| x@)
}

pub open spec fn opt_str_views(xs: Seq<Option<String>>) -> Seq<Option<Seq<char>>> {
    xs.map_values(
        |x: Option<String>|
            match x {
                Some(s) => Some(s@),
                None => None,
            },
    )
}

/// Requires a data URL for every non-blank local image: the caller reads
/// the file and renders the URL before building the wire content.
#[verifier::loop_isolation(false)]
pub fn build_response_input_content(
    items: &Vec<crate::protocol::InputItem>,
    local_urls: &Vec<Option<String>>,
) -> (r: Vec<JsonValue>)
    requires
        local_urls@.len() == items@.len(),
        forall|i: int|
            0 <= i < items@.len() ==> ((#[trigger] items@[i]@) matches
                crate::protocol::InputItemView::LocalImage { path } && trim_spec(path).len() > 0
                ==> opt_str_views(local_urls@)[i] is Some),
    ensures
        views_of(r@) == content_fold(input_item_views(items@), opt_str_views(local_urls@)),
{
    let ghost iv = input_item_views(items@);
    let ghost uv = opt_str_views(local_urls@);
    let mut out: Vec<JsonValue> = Vec::new();
    let mut i: usize = 0;
    proof {
        lemma_views_of(out@);
        assert(iv.subrange(0, 0) =~= Seq::<crate::protocol::InputItemView>::empty());
        assert(uv.subrange(0, 0) =~= Seq::<Option<Seq<char>>>::empty());
        assert(views_of(out@) =~= content_fold(iv.subrange(0, 0), uv.subrange(0, 0)));
    }
    while i < items.len()
        invariant
            i <= items@.len(),
            iv.len() == items@.len(),
            uv.len() == items@.len(),
            iv == input_item_views(items@),
            uv == opt_str_views(local_urls@),
            views_of(out@) == content_fold(iv.subrange(0, i as int), uv.subrange(0, i as int)),
        decreases items@.len() - i,
    {
        proof {
            assert(iv.subrange(0, i + 1) =~= iv.subrange(0, i as int).push(iv[i as int]));
            assert(uv.subrange(0, i + 1) =~= uv.subrange(0, i as int).push(uv[i as int]));
            assert(iv.subrange(0, i + 1).drop_last() =~= iv.subrange(0, i as int));
            assert(uv.subrange(0, i + 1).drop_last() =~= uv.subrange(0, i as int));
            assert(iv[i as int] == items@[i as int]@);
        }
        let ghost prev_vec = out@;
        let ghost prev = views_of(out@);
        match &items[i] {
            crate::protocol::InputItem::Text { text } => {
                let t = trim_str(text.as_str());
                if !t.as_str().is_empty() {
                    let mut f: Vec<(String, JsonValue)> = Vec::new();
                    f.push((lit("type"), JsonValue::Str(lit("input_text"))));
                    f.push((lit("text"), JsonValue::Str(text.clone())));
                    let ghost gf = f@;
                    let m = JsonValue::Obj(f);
                    proof {
                        lemma_field_views_of(gf);
                        assert(field_views_of(gf) =~= seq![
                            ("type"@, Json::Str("input_text"@)),
                            ("text"@, Json::Str(text@)),
                        ]);
                    }
                    out.push(m);
                }
            },
            crate::protocol::InputItem::Image { image_url } => {
                let t = trim_str(image_url.as_str());
                if !t.as_str().is_empty() {
                    let mut f: Vec<(String, JsonValue)> = Vec::new();
                    f.push((lit("type"), JsonValue::Str(lit("input_image"))));
                    f.push((lit("image_url"), JsonValue::Str(image_url.clone())));
                    let ghost gf = f@;
                    let m = JsonValue::Obj(f);
                    proof {
                        lemma_field_views_of(gf);
                        assert(field_views_of(gf) =~= seq![
                            ("type"@, Json::Str("input_image"@)),
                            ("image_url"@, Json::Str(image_url@)),
                        ]);
                    }
                    out.push(m);
                }
            },
            crate::protocol::InputItem::LocalImage { path } => {
                let t = trim_str(path.as_str());
                if !t.as_str().is_empty() {
                    let url: &String = match &local_urls[i] {
                        Some(u) => u,
                        None => {
                            proof {
                                assert(uv[i as int] is Some);
                                assert(false);
                            }
                            path
                        },
                    };
                    let mut f: Vec<(String, JsonValue)> = Vec::new();
                    f.push((lit("type"), JsonValue::Str(lit("input_image"))));
                    f.push((lit("image_url"), JsonValue::Str(url.clone())));
                    let ghost gf = f@;
                    let m = JsonValue::Obj(f);
                    proof {
                        lemma_field_views_of(gf);
                        assert(field_views_of(gf) =~= seq![
                            ("type"@, Json::Str("input_image"@)),
                            ("image_url"@, Json::Str(uv[i as int]->0)),
                        ]);
                    }
                    out.push(m);
                }
            },
        }
        proof {
            lemma_views_of(prev_vec);
            lemma_views_of(out@);
            assert(views_of(out@) =~= prev + content_item_spec(iv[i as int], uv[i as int]));
        }
        i = i + 1;
    }
    proof {
        assert(iv.subrange(0, iv.len() as int) =~= iv);
        assert(uv.subrange(0, uv.len() as int) =~= uv);
    }
    out
}

/// The new user message that closes the initial input.
pub fn build_user_message_input(
    items: &Vec<crate::protocol::InputItem>,
    local_urls: &Vec<Option<String>>,
) -> (r: JsonValue)
    requires
        local_urls@.len() == items@.len(),
        forall|i: int|
            0 <= i < items@.len() ==> ((#[trigger] items@[i]@) matches
                crate::protocol::InputItemView::LocalImage { path } && trim_spec(path).len() > 0
                ==> opt_str_views(local_urls@)[i] is Some),
    ensures
        r@ == Json::Obj(
            seq![
                ("role"@, Json::Str("user"@)),
                (
                    "content"@,
                    Json::Arr(
                        content_fold(input_item_views(items@), opt_str_views(local_urls@)),
                    ),
                ),
            ],
        ),
{
    let content = build_response_input_content(items, local_urls);
    let ghost cv = views_of(content@);
    let mut fields: Vec<(String, JsonValue)> = Vec::new();
    fields.push((lit("role"), JsonValue::Str(lit("user"))));
    fields.push((lit("content"), JsonValue::Arr(content)));
    let ghost gf = fields@;
    let r = JsonValue::Obj(fields);
    proof {
        lemma_field_views_of(gf);
        assert(field_views_of(gf) =~= seq![
            ("role"@, Json::Str("user"@)),
            ("content"@, Json::Arr(cv)),
        ]);
    }
    r
}

// ---------------------------------------------------------------------------
// Fork truncation.
// ---------------------------------------------------------------------------

pub struct ForkScan {
    pub kept: Seq<Json>,
    pub seen_users: nat,
    pub stopped: bool,
}

pub open spec fn fork_step(st: ForkScan, item: Json, user_message_index: nat) -> ForkScan {
    if st.stopped {
        st
    } else if crate::compact::item_role(item) == "user"@ {
        ForkScan {
            kept: st.kept.push(item),
            seen_users: st.seen_users + 1,
            stopped: st.seen_users >= user_message_index,
        }
    } else {
        ForkScan { kept: st.kept.push(item), ..st }
    }
}

pub open spec fn fork_scan(h: Seq<Json>, user_message_index: nat) -> ForkScan
    decreases h.len(),
{
    if h.len() == 0 {
        ForkScan { kept: Seq::empty(), seen_users: 0, stopped: false }
    } else {
        fork_step(fork_scan(h.drop_last(), user_message_index), h.last(), user_message_index)
    }
}

/// Keeps the history up to and including the N-th user message, zero-based;
/// everything after that message is discarded.
#[verifier::loop_isolation(false)]
pub fn apply_fork_truncate(history: Vec<JsonValue>, user_message_index: usize) -> (r: Vec<
    JsonValue,
>)
    ensures
        views_of(r@) == fork_scan(views_of(history@), user_message_index as nat).kept,
{
    proof {
        lemma_views_of(history@);
    }
    let ghost hv = views_of(history@);
    let mut out: Vec<JsonValue> = Vec::new();
    let mut seen: u64 = 0;
    let mut stopped = false;
    let mut i: usize = 0;
    proof {
        assert(hv.subrange(0, 0) =~= Seq::<Json>::empty());
        assert(views_of(out@) =~= Seq::<Json>::empty());
    }
    while i < history.len()
        invariant
            i <= history@.len(),
            hv == views_of(history@),
            hv.len() == history@.len(),
            seen <= i,
            views_of(out@) == fork_scan(hv.subrange(0, i as int), user_message_index as nat).kept,
            seen == fork_scan(hv.subrange(0, i as int), user_message_index as nat).seen_users,
            stopped == fork_scan(hv.subrange(0, i as int), user_message_index as nat).stopped,
        decreases history@.len() - i,
    {
        proof {
            assert(hv.subrange(0, i + 1) =~= hv.subrange(0, i as int).push(hv[i as int]));
            assert(hv.subrange(0, i + 1).drop_last() =~= hv.subrange(0, i as int));
            assert(hv[i as int] == history@[i as int]@);
        }
        if !stopped {
            let role = crate::compact::item_role_exec(&history[i]);
            if str_eq(role.as_str(), "user") {
                if (seen as usize) >= user_message_index {
                    stopped = true;
                }
                seen = seen + 1;
                let ghost prev_vec = out@;
                let ghost prev = views_of(out@);
                let c = json_clone(&history[i]);
                out.push(c);
                proof {
                    lemma_views_of(prev_vec);
                    lemma_views_of(out@);
                    assert(views_of(out@) =~= prev.push(hv[i as int]));
                }
            } else {
                let ghost prev_vec = out@;
                let ghost prev = views_of(out@);
                let c = json_clone(&history[i]);
                out.push(c);
                proof {
                    lemma_views_of(prev_vec);
                    lemma_views_of(out@);
                    assert(views_of(out@) =~= prev.push(hv[i as int]));
                }
            }
        }
        i = i + 1;
    }
    proof {
        assert(hv.subrange(0, hv.len() as int) =~= hv);
    }
    out
}

// ---------------------------------------------------------------------------
// Local images.
// ---------------------------------------------------------------------------

pub uninterp spec fn base64_of(bytes: Seq<u8>) -> Seq<char>;

/// Relies on base64's STANDARD engine: the encoding depends on the bytes
/// alone.
#[verifier::external_body]
pub fn base64_encode(bytes: &Vec<u8>) -> (r: String)
    ensures
        r@ == base64_of(bytes@),
{
    base64::Engine::encode(&base64::engine::general_purpose::STANDARD, bytes)
}

/// The extension-based MIME classification of an image path.
pub open spec fn mime_of_ext(ext: Seq<char>) -> Seq<char> {
    if ext == "png"@ {
        "image/png"@
    } else if ext == "jpg"@ || ext == "jpeg"@ {
        "image/jpeg"@
    } else if ext == "gif"@ {
        "image/gif"@
    } else if ext == "webp"@ {
        "image/webp"@
    } else if ext == "bmp"@ {
        "image/bmp"@
    } else if ext == "tif"@ || ext == "tiff"@ {
        "image/tiff"@
    } else if ext == "svg"@ {
        "image/svg+xml"@
    } else {
        "application/octet-stream"@
    }
}

/// The lowercased extension of the path's file name: what follows the last
/// dot, provided the dot is neither the name's first nor last character.
pub open spec fn ext_spec(path: Seq<char>) -> Option<Seq<char>> {
    let name = match crate::text::find_last(path, '/') {
        Some(i) => path.skip(i + 1),
        None => path,
    };
    match crate::text::find_last(name, '.') {
        Some(d) => if d > 0 && d + 1 < name.len() {
            Some(ascii_lower(name.skip(d + 1)))
        } else {
            None
        },
        None => None,
    }
}

pub fn infer_image_mime_type(path: &str) -> (r: String)
    ensures
        r@ == (match ext_spec(path@) {
            Some(e) => mime_of_ext(e),
            None => "application/octet-stream"@,
        }),
{
    let v = chars_of(path);
    let name: Vec<char> = match crate::text::find_last_chars(&v, '/') {
        Some(i) => crate::text::subvec_chars(&v, i + 1, v.len()),
        None => crate::text::subvec_chars(&v, 0, v.len()),
    };
    proof {
        match crate::text::find_last(path@, '/') {
            Some(i) => {
                assert(name@ =~= path@.skip(i + 1));
            },
            None => {
                assert(name@ =~= path@);
            },
        }
    }
    let ext: Option<String> = match crate::text::find_last_chars(&name, '.') {
        Some(d) => {
            if d > 0 && d + 1 < name.len() {
                let tail = crate::text::subvec_chars(&name, d + 1, name.len());
                proof {
                    assert(tail@ =~= name@.skip(d + 1));
                }
                let ts = string_from_chars(&tail);
                Some(ascii_lower_str(ts.as_str()))
            } else {
                None
            }
        },
        None => None,
    };
    match ext {
        Some(e) => {
            if str_eq(e.as_str(), "png") {
                lit("image/png")
            } else if str_eq(e.as_str(), "jpg") || str_eq(e.as_str(), "jpeg") {
                lit("image/jpeg")
            } else if str_eq(e.as_str(), "gif") {
                lit("image/gif")
            } else if str_eq(e.as_str(), "webp") {
                lit("image/webp")
            } else if str_eq(e.as_str(), "bmp") {
                lit("image/bmp")
            } else if str_eq(e.as_str(), "tif") || str_eq(e.as_str(), "tiff") {
                lit("image/tiff")
            } else if str_eq(e.as_str(), "svg") {
                lit("image/svg+xml")
            } else {
                lit("application/octet-stream")
            }
        },
        None => lit("application/octet-stream"),
    }
}

/// The `data:` URL a local image becomes, from its path and bytes.
pub fn to_data_url_from_local_image(path: &str, bytes: &Vec<u8>) -> (r: String)
    ensures
        r@ == "data:"@ + (match ext_spec(path@) {
            Some(e) => mime_of_ext(e),
            None => "application/octet-stream"@,
        }) + ";base64,"@ + base64_of(bytes@),
{
    let mime = infer_image_mime_type(path);
    let encoded = base64_encode(bytes);
    let mut v = chars_of("data:");
    let mv = chars_of(mime.as_str());
    crate::text::extend_chars(&mut v, &mv);
    let sv = chars_of(";base64,");
    crate::text::extend_chars(&mut v, &sv);
    let ev = chars_of(encoded.as_str());
    crate::text::extend_chars(&mut v, &ev);
    proof {
        assert(v@ =~= "data:"@ + mime@ + ";base64,"@ + base64_of(bytes@));
    }
    string_from_chars(&v)
}


/// The initial rolling input: the object-shaped history, the recalled
/// focus block when one exists, the four context blocks in order (each
/// wrapped, injected once), and the new user message.
pub open spec fn initial_input_spec(
    history_items: Seq<Json>,
    focus_recall: Option<Seq<char>>,
    developer_instructions: Option<Seq<char>>,
    turn_context: Option<crate::protocol::TurnContextView>,
    user_instructions: Option<Seq<char>>,
    environment_context: Option<Seq<char>>,
    items: Seq<crate::protocol::InputItemView>,
    local_urls: Seq<Option<Seq<char>>>,
) -> Seq<Json> {
    let h0 = object_items_fold(history_items);
    let hf = inject_block_spec(h0, "context_ledger_focus"@, focus_recall, "user"@);
    let h1 = inject_block_spec(hf, "developer_instructions"@, developer_instructions, "developer"@);
    let h2 = match turn_context {
        Some(tc) => inject_block_spec(h1, "turn_context"@, render_turn_context_spec(tc), "developer"@),
        None => h1,
    };
    let h3 = inject_block_spec(h2, "user_instructions"@, user_instructions, "user"@);
    let h4 = inject_block_spec(h3, "environment_context"@, environment_context, "user"@);
    h4.push(
        Json::Obj(
            seq![
                ("role"@, Json::Str("user"@)),
                ("content"@, Json::Arr(content_fold(items, local_urls))),
            ],
        ),
    )
}

#[verifier::loop_isolation(false)]
pub fn build_initial_input(
    items: &Vec<crate::protocol::InputItem>,
    local_urls: &Vec<Option<String>>,
    history_items: &Vec<JsonValue>,
    focus_recall: Option<&String>,
    developer_instructions: Option<&String>,
    turn_context: Option<&crate::protocol::TurnContext>,
    user_instructions: Option<&String>,
    environment_context: Option<&String>,
) -> (r: Vec<JsonValue>)
    requires
        local_urls@.len() == items@.len(),
        forall|i: int|
            0 <= i < items@.len() ==> ((#[trigger] items@[i]@) matches
                crate::protocol::InputItemView::LocalImage { path } && trim_spec(path).len() > 0
                ==> opt_str_views(local_urls@)[i] is Some),
    ensures
        views_of(r@) == initial_input_spec(
            views_of(history_items@),
            match focus_recall {
                Some(s) => Some(s@),
                None => None,
            },
            match developer_instructions {
                Some(s) => Some(s@),
                None => None,
            },
            match turn_context {
                Some(tc) => Some(tc@),
                None => None,
            },
            match user_instructions {
                Some(s) => Some(s@),
                None => None,
            },
            match environment_context {
                Some(s) => Some(s@),
                None => None,
            },
            input_item_views(items@),
            opt_str_views(local_urls@),
        ),
{
    let mut input = normalize_history_items(history_items);
    maybe_inject_context_block(&mut input, "context_ledger_focus", focus_recall, "user");
    maybe_inject_context_block(&mut input, "developer_instructions", developer_instructions,
        "developer");
    match turn_context {
        Some(tc) => {
            let rendered = render_turn_context_block(Some(tc));
            maybe_inject_context_block(&mut input, "turn_context", rendered.as_ref(), "developer");
        },
        None => {},
    }
    maybe_inject_context_block(&mut input, "user_instructions", user_instructions, "user");
    maybe_inject_context_block(&mut input, "environment_context", environment_context, "user");
    let msg = build_user_message_input(items, local_urls);
    let ghost prev_vec = input@;
    let ghost prev = views_of(input@);
    let ghost mv = msg@;
    input.push(msg);
    proof {
        lemma_views_of(prev_vec);
        lemma_views_of(input@);
        assert(views_of(input@) =~= prev.push(mv));
    }
    input
}

} // verus!
