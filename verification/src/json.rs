//! A model of JSON documents.
//!
//! `JsonValue` is the executable shape; its view `Json` is the mathematical
//! one, over `Seq`. Numbers that are not unsigned 64-bit integers are kept as
//! their decimal text: the logic of this crate never reads them, only carries
//! them through.

use vstd::prelude::*;
use crate::text::dec_of;
use crate::text::join_with;
use crate::text::lemma_join_with_snoc;
use crate::text::chars_of;
use crate::text::string_from_chars;
use crate::text::extend_chars;
use crate::text::str_eq;

verus! {

pub enum JsonValue {
    Null,
    Bool(bool),
    UInt(u64),
    NumText(String),
    Str(String),
    Arr(Vec<JsonValue>),
    Obj(Vec<(String, JsonValue)>),
}

pub enum Json {
    Null,
    Bool(bool),
    UInt(u64),
    NumText(Seq<char>),
    Str(Seq<char>),
    Arr(Seq<Json>),
    Obj(Seq<(Seq<char>, Json)>),
}

pub open spec fn views_of(items: Seq<JsonValue>) -> Seq<Json>
    decreases items,
{
    if items.len() == 0 {
        Seq::empty()
    } else {
        seq![items[0]@] + views_of(items.drop_first())
    }
}

pub open spec fn field_views_of(fields: Seq<(String, JsonValue)>) -> Seq<(Seq<char>, Json)>
    decreases fields,
{
    if fields.len() == 0 {
        Seq::empty()
    } else {
        seq![(fields[0].0@, fields[0].1@)] + field_views_of(fields.drop_first())
    }
}

impl View for JsonValue {
    type V = Json;

    open spec fn view(&self) -> Json
        decreases self,
    {
        match self {
            JsonValue::Null => Json::Null,
            JsonValue::Bool(b) => Json::Bool(*b),
            JsonValue::UInt(n) => Json::UInt(*n),
            JsonValue::NumText(s) => Json::NumText(s@),
            JsonValue::Str(s) => Json::Str(s@),
            JsonValue::Arr(items) => Json::Arr(views_of(items@)),
            JsonValue::Obj(fields) => Json::Obj(field_views_of(fields@)),
        }
    }
}

impl DeepView for JsonValue {
    type V = Json;

    open spec fn deep_view(&self) -> Json {
        self.view()
    }
}

pub broadcast proof fn lemma_views_of(items: Seq<JsonValue>)
    ensures
        (#[trigger] views_of(items)).len() == items.len(),
        forall|i: int| 0 <= i < items.len() ==> views_of(items)[i] == items[i]@,
    decreases items,
{
    if items.len() > 0 {
        lemma_views_of(items.drop_first());
        assert(views_of(items) == seq![items[0]@] + views_of(items.drop_first()));
        assert forall|i: int| 0 <= i < items.len() implies views_of(items)[i] == items[i]@ by {
            if i > 0 {
                assert(views_of(items)[i] == views_of(items.drop_first())[i - 1]);
                assert(items.drop_first()[i - 1] == items[i]);
            }
        }
    }
}

pub broadcast proof fn lemma_field_views_of(fields: Seq<(String, JsonValue)>)
    ensures
        (#[trigger] field_views_of(fields)).len() == fields.len(),
        forall|i: int|
            0 <= i < fields.len() ==> field_views_of(fields)[i] == (fields[i].0@, fields[i].1@),
    decreases fields,
{
    if fields.len() > 0 {
        lemma_field_views_of(fields.drop_first());
        assert(field_views_of(fields) == seq![(fields[0].0@, fields[0].1@)] + field_views_of(
            fields.drop_first(),
        ));
        assert forall|i: int| 0 <= i < fields.len() implies field_views_of(fields)[i] == (
        fields[i].0@,
        fields[i].1@,
        ) by {
            if i > 0 {
                assert(field_views_of(fields)[i] == field_views_of(fields.drop_first())[i - 1]);
                assert(fields.drop_first()[i - 1] == fields[i]);
            }
        }
    }
}

/// Looking a key up returns the first field bearing it, if any.
pub proof fn lemma_obj_get_at(fields: Seq<(Seq<char>, Json)>, key: Seq<char>, i: int)
    requires
        0 <= i < fields.len(),
        forall|k: int| 0 <= k < i ==> fields[k].0 != key,
        fields[i].0 == key,
    ensures
        obj_get(fields, key) == Some(fields[i].1),
    decreases i,
{
    if i > 0 {
        lemma_obj_get_at(fields.drop_first(), key, i - 1);
        assert(fields.drop_first()[i - 1] == fields[i]);
    }
}

pub proof fn lemma_obj_get_none(fields: Seq<(Seq<char>, Json)>, key: Seq<char>)
    requires
        forall|k: int| 0 <= k < fields.len() ==> fields[k].0 != key,
    ensures
        obj_get(fields, key) is None,
    decreases fields.len(),
{
    if fields.len() > 0 {
        lemma_obj_get_none(fields.drop_first(), key);
    }
}


pub proof fn lemma_views_of_concat(a: Seq<JsonValue>, b: Seq<JsonValue>)
    ensures
        views_of(a + b) == views_of(a) + views_of(b),
    decreases a,
{
    if a.len() == 0 {
        assert(a + b =~= b);
        assert(views_of(a) + views_of(b) =~= views_of(b));
    } else {
        lemma_views_of_concat(a.drop_first(), b);
        assert((a + b).len() > 0);
        assert((a + b)[0] == a[0]);
        assert((a + b).drop_first() =~= a.drop_first() + b);
        assert(views_of(a + b) == seq![(a + b)[0]@] + views_of((a + b).drop_first()));
        assert(views_of(a) == seq![a[0]@] + views_of(a.drop_first()));
        assert(seq![a[0]@] + (views_of(a.drop_first()) + views_of(b)) =~= (seq![a[0]@]
            + views_of(a.drop_first())) + views_of(b));
    }
}

pub proof fn lemma_field_views_of_concat(a: Seq<(String, JsonValue)>, b: Seq<(String, JsonValue)>)
    ensures
        field_views_of(a + b) == field_views_of(a) + field_views_of(b),
    decreases a,
{
    if a.len() == 0 {
        assert(a + b =~= b);
        assert(field_views_of(a) + field_views_of(b) =~= field_views_of(b));
    } else {
        lemma_field_views_of_concat(a.drop_first(), b);
        assert((a + b).len() > 0);
        assert((a + b)[0] == a[0]);
        assert((a + b).drop_first() =~= a.drop_first() + b);
        assert(field_views_of(a + b) == seq![((a + b)[0].0@, (a + b)[0].1@)] + field_views_of(
            (a + b).drop_first(),
        ));
        assert(field_views_of(a) == seq![(a[0].0@, a[0].1@)] + field_views_of(a.drop_first()));
        assert(seq![(a[0].0@, a[0].1@)] + (field_views_of(a.drop_first()) + field_views_of(b))
            =~= (seq![(a[0].0@, a[0].1@)] + field_views_of(a.drop_first())) + field_views_of(b));
    }
}

// ---------------------------------------------------------------------------
// Reading values.
// ---------------------------------------------------------------------------

/// The value of the first field with the given key, as `serde`-style JSON
/// objects resolve lookups.
pub open spec fn obj_get(fields: Seq<(Seq<char>, Json)>, key: Seq<char>) -> Option<Json>
    decreases fields,
{
    if fields.len() == 0 {
        None
    } else if fields[0].0 == key {
        Some(fields[0].1)
    } else {
        obj_get(fields.drop_first(), key)
    }
}

pub open spec fn jget(v: Json, key: Seq<char>) -> Option<Json> {
    match v {
        Json::Obj(fields) => obj_get(fields, key),
        _ => None,
    }
}

pub open spec fn jas_str(v: Json) -> Option<Seq<char>> {
    match v {
        Json::Str(s) => Some(s),
        _ => None,
    }
}

pub open spec fn jas_u64(v: Json) -> Option<u64> {
    match v {
        Json::UInt(n) => Some(n),
        _ => None,
    }
}

pub open spec fn jas_bool(v: Json) -> Option<bool> {
    match v {
        Json::Bool(b) => Some(b),
        _ => None,
    }
}

pub open spec fn jstr_field(v: Json, key: Seq<char>) -> Option<Seq<char>> {
    match jget(v, key) {
        Some(f) => jas_str(f),
        None => None,
    }
}

impl JsonValue {
    #[verifier::loop_isolation(false)]
    pub fn get<'a>(&'a self, key: &str) -> (r: Option<&'a JsonValue>)
        ensures
            match r {
                Some(x) => jget(self@, key@) == Some(x@),
                None => jget(self@, key@) is None,
            },
    {
        match self {
            JsonValue::Obj(fields) => {
                let n = fields.len();
                let mut i: usize = 0;
                proof {
                    lemma_field_views_of(fields@);
                }
                while i < n
                    invariant
                        n == fields@.len(),
                        i <= n,
                        self@ == Json::Obj(field_views_of(fields@)),
                        forall|k: int| 0 <= k < i ==> field_views_of(fields@)[k].0 != key@,
                    decreases n - i,
                {
                    if str_eq(fields[i].0.as_str(), key) {
                        proof {
                            lemma_obj_get_at(field_views_of(fields@), key@, i as int);
                        }
                        return Some(&fields[i].1);
                    }
                    i = i + 1;
                }
                proof {
                    lemma_obj_get_none(field_views_of(fields@), key@);
                }
                None
            },
            _ => None,
        }
    }

    pub fn as_str<'a>(&'a self) -> (r: Option<&'a String>)
        ensures
            match r {
                Some(s) => jas_str(self@) == Some(s@),
                None => jas_str(self@) is None,
            },
    {
        match self {
            JsonValue::Str(s) => Some(s),
            _ => None,
        }
    }

    pub fn as_u64(&self) -> (r: Option<u64>)
        ensures
            r == jas_u64(self@),
    {
        match self {
            JsonValue::UInt(n) => Some(*n),
            _ => None,
        }
    }

    pub fn as_bool(&self) -> (r: Option<bool>)
        ensures
            r == jas_bool(self@),
    {
        match self {
            JsonValue::Bool(b) => Some(*b),
            _ => None,
        }
    }

    pub fn as_array<'a>(&'a self) -> (r: Option<&'a Vec<JsonValue>>)
        ensures
            match r {
                Some(items) => self@ == Json::Arr(views_of(items@)),
                None => !(self@ is Arr),
            },
    {
        match self {
            JsonValue::Arr(items) => Some(items),
            _ => None,
        }
    }

    pub fn as_object<'a>(&'a self) -> (r: Option<&'a Vec<(String, JsonValue)>>)
        ensures
            match r {
                Some(fields) => self@ == Json::Obj(field_views_of(fields@)),
                None => !(self@ is Obj),
            },
    {
        match self {
            JsonValue::Obj(fields) => Some(fields),
            _ => None,
        }
    }

    pub fn is_object(&self) -> (r: bool)
        ensures
            r == (self@ is Obj),
    {
        match self {
            JsonValue::Obj(_) => true,
            _ => false,
        }
    }

    /// A string field read through `get`, handed out by reference.
    pub fn str_field<'a>(&'a self, key: &str) -> (r: Option<&'a String>)
        ensures
            match r {
                Some(s) => jstr_field(self@, key@) == Some(s@),
                None => jstr_field(self@, key@) is None,
            },
    {
        match self.get(key) {
            Some(f) => f.as_str(),
            None => None,
        }
    }
}

// ---------------------------------------------------------------------------
// Deep copy.
// ---------------------------------------------------------------------------

#[verifier::loop_isolation(false)]
pub fn json_clone(v: &JsonValue) -> (r: JsonValue)
    ensures
        r@ == v@,
    decreases *v,
{
    match v {
        JsonValue::Null => JsonValue::Null,
        JsonValue::Bool(b) => JsonValue::Bool(*b),
        JsonValue::UInt(n) => JsonValue::UInt(*n),
        JsonValue::NumText(s) => JsonValue::NumText(s.clone()),
        JsonValue::Str(s) => JsonValue::Str(s.clone()),
        JsonValue::Arr(items) => {
            let mut out: Vec<JsonValue> = Vec::new();
            let mut i: usize = 0;
            while i < items.len()
                invariant
                    i <= items@.len(),
                    out@.len() == i,
                    forall|k: int| 0 <= k < i ==> out@[k]@ == items@[k]@,
                decreases items@.len() - i,
            {
                let c = json_clone(&items[i]);
                out.push(c);
                i = i + 1;
            }
            let r = JsonValue::Arr(out);
            proof {
                lemma_views_of(out@);
                lemma_views_of(items@);
                assert(views_of(out@) =~= views_of(items@));
            }
            r
        },
        JsonValue::Obj(fields) => {
            let mut out: Vec<(String, JsonValue)> = Vec::new();
            let mut i: usize = 0;
            while i < fields.len()
                invariant
                    i <= fields@.len(),
                    out@.len() == i,
                    forall|k: int|
                        0 <= k < i ==> out@[k].0@ == fields@[k].0@ && out@[k].1@ == fields@[k].1@,
                decreases fields@.len() - i,
            {
                let key = fields[i].0.clone();
                let val = json_clone(&fields[i].1);
                out.push((key, val));
                i = i + 1;
            }
            let r = JsonValue::Obj(out);
            proof {
                lemma_field_views_of(out@);
                lemma_field_views_of(fields@);
                assert(field_views_of(out@) =~= field_views_of(fields@));
            }
            r
        },
    }
}

// ---------------------------------------------------------------------------
// Structural equality at the view level.
// ---------------------------------------------------------------------------

#[verifier::loop_isolation(false)]
pub fn json_eq(a: &JsonValue, b: &JsonValue) -> (r: bool)
    ensures
        r == (a@ == b@),
    decreases *a,
{
    match (a, b) {
        (JsonValue::Null, JsonValue::Null) => true,
        (JsonValue::Bool(x), JsonValue::Bool(y)) => x == y,
        (JsonValue::UInt(x), JsonValue::UInt(y)) => x == y,
        (JsonValue::NumText(x), JsonValue::NumText(y)) => str_eq(x.as_str(), y.as_str()),
        (JsonValue::Str(x), JsonValue::Str(y)) => str_eq(x.as_str(), y.as_str()),
        (JsonValue::Arr(xs), JsonValue::Arr(ys)) => {
            proof {
                lemma_views_of(xs@);
                lemma_views_of(ys@);
            }
            if xs.len() != ys.len() {
                proof {
                    assert(views_of(xs@).len() != views_of(ys@).len());
                }
                return false;
            }
            let n = xs.len();
            let mut i: usize = 0;
            while i < n
                invariant
                    n == xs@.len() == ys@.len(),
                    i <= n,
                    forall|k: int| 0 <= k < i ==> views_of(xs@)[k] == views_of(ys@)[k],
                decreases n - i,
            {
                if !json_eq(&xs[i], &ys[i]) {
                    proof {
                        assert(views_of(xs@)[i as int] != views_of(ys@)[i as int]);
                    }
                    return false;
                }
                i = i + 1;
            }
            proof {
                assert(views_of(xs@) =~= views_of(ys@));
            }
            true
        },
        (JsonValue::Obj(xs), JsonValue::Obj(ys)) => {
            proof {
                lemma_field_views_of(xs@);
                lemma_field_views_of(ys@);
            }
            if xs.len() != ys.len() {
                proof {
                    assert(field_views_of(xs@).len() != field_views_of(ys@).len());
                }
                return false;
            }
            let n = xs.len();
            let mut i: usize = 0;
            while i < n
                invariant
                    n == xs@.len() == ys@.len(),
                    i <= n,
                    forall|k: int| 0 <= k < i ==> field_views_of(xs@)[k] == field_views_of(ys@)[k],
                decreases n - i,
            {
                let keys_equal = str_eq(xs[i].0.as_str(), ys[i].0.as_str());
                if !keys_equal {
                    proof {
                        assert(field_views_of(xs@)[i as int] != field_views_of(ys@)[i as int]);
                    }
                    return false;
                }
                if !json_eq(&xs[i].1, &ys[i].1) {
                    proof {
                        assert(field_views_of(xs@)[i as int] != field_views_of(ys@)[i as int]);
                    }
                    return false;
                }
                i = i + 1;
            }
            proof {
                assert(field_views_of(xs@) =~= field_views_of(ys@));
            }
            true
        },
        _ => {
            proof {
                assert(a@ != b@);
            }
            false
        },
    }
}

// ---------------------------------------------------------------------------
// Rendering as compact JSON text.
// ---------------------------------------------------------------------------

pub open spec fn hex_char(d: nat) -> char {
    if d == 0 {
        '0'
    } else if d == 1 {
        '1'
    } else if d == 2 {
        '2'
    } else if d == 3 {
        '3'
    } else if d == 4 {
        '4'
    } else if d == 5 {
        '5'
    } else if d == 6 {
        '6'
    } else if d == 7 {
        '7'
    } else if d == 8 {
        '8'
    } else if d == 9 {
        '9'
    } else if d == 10 {
        'a'
    } else if d == 11 {
        'b'
    } else if d == 12 {
        'c'
    } else if d == 13 {
        'd'
    } else if d == 14 {
        'e'
    } else {
        'f'
    }
}

/// How one character appears inside a JSON string literal.
pub open spec fn escape_char(c: char) -> Seq<char> {
    if c == '"' {
        seq!['\\', '"']
    } else if c == '\\' {
        seq!['\\', '\\']
    } else if c == '\u{8}' {
        seq!['\\', 'b']
    } else if c == '\t' {
        seq!['\\', 't']
    } else if c == '\n' {
        seq!['\\', 'n']
    } else if c == '\u{c}' {
        seq!['\\', 'f']
    } else if c == '\r' {
        seq!['\\', 'r']
    } else if (c as u32) < 32 {
        seq!['\\', 'u', '0', '0', hex_char(((c as u32) / 16) as nat), hex_char(
            ((c as u32) % 16) as nat,
        )]
    } else {
        seq![c]
    }
}

pub open spec fn escape_seq(s: Seq<char>) -> Seq<char>
    decreases s.len(),
{
    if s.len() == 0 {
        Seq::empty()
    } else {
        escape_char(s[0]) + escape_seq(s.drop_first())
    }
}

pub proof fn lemma_escape_seq_snoc(s: Seq<char>, c: char)
    ensures
        escape_seq(s.push(c)) == escape_seq(s) + escape_char(c),
    decreases s.len(),
{
    if s.len() == 0 {
        let t = s.push(c);
        assert(t[0] == c);
        assert(t.drop_first() =~= Seq::<char>::empty());
        assert(escape_seq(Seq::<char>::empty()) == Seq::<char>::empty());
        assert(escape_seq(t) == escape_char(c) + escape_seq(t.drop_first()));
        assert(escape_seq(s) == Seq::<char>::empty());
        assert(escape_seq(s.push(c)) =~= escape_seq(s) + escape_char(c));
    } else {
        lemma_escape_seq_snoc(s.drop_first(), c);
        assert(s.push(c)[0] == s[0]);
        assert(s.push(c).drop_first() =~= s.drop_first().push(c));
        assert(escape_char(s[0]) + (escape_seq(s.drop_first()) + escape_char(c)) =~= (escape_char(
            s[0],
        ) + escape_seq(s.drop_first())) + escape_char(c));
    }
}

/// A quoted JSON string literal.
pub open spec fn quoted(s: Seq<char>) -> Seq<char> {
    seq!['"'] + escape_seq(s) + seq!['"']
}

/// The compact text of a JSON document: no spaces, object fields in order.
pub open spec fn json_text(v: Json) -> Seq<char>
    decreases v,
{
    match v {
        Json::Null => seq!['n', 'u', 'l', 'l'],
        Json::Bool(b) => if b {
            seq!['t', 'r', 'u', 'e']
        } else {
            seq!['f', 'a', 'l', 's', 'e']
        },
        Json::UInt(n) => dec_of(n as nat),
        Json::NumText(s) => s,
        Json::Str(s) => quoted(s),
        Json::Arr(items) => seq!['['] + join_with(texts_of(items), seq![',']) + seq![']'],
        Json::Obj(fields) => seq!['{'] + join_with(field_texts_of(fields), seq![',']) + seq!['}'],
    }
}

pub open spec fn texts_of(items: Seq<Json>) -> Seq<Seq<char>>
    decreases items,
{
    if items.len() == 0 {
        Seq::empty()
    } else {
        seq![json_text(items[0])] + texts_of(items.drop_first())
    }
}

pub open spec fn field_texts_of(fields: Seq<(Seq<char>, Json)>) -> Seq<Seq<char>>
    decreases fields,
{
    if fields.len() == 0 {
        Seq::empty()
    } else {
        seq![quoted(fields[0].0) + seq![':'] + json_text(fields[0].1)] + field_texts_of(
            fields.drop_first(),
        )
    }
}

pub broadcast proof fn lemma_texts_of(items: Seq<Json>)
    ensures
        (#[trigger] texts_of(items)).len() == items.len(),
        forall|i: int| 0 <= i < items.len() ==> texts_of(items)[i] == json_text(items[i]),
    decreases items,
{
    if items.len() > 0 {
        lemma_texts_of(items.drop_first());
    }
}

pub broadcast proof fn lemma_field_texts_of(fields: Seq<(Seq<char>, Json)>)
    ensures
        (#[trigger] field_texts_of(fields)).len() == fields.len(),
        forall|i: int|
            0 <= i < fields.len() ==> field_texts_of(fields)[i] == quoted(fields[i].0)
                + seq![':'] + json_text(fields[i].1),
    decreases fields,
{
    if fields.len() > 0 {
        lemma_field_texts_of(fields.drop_first());
    }
}

fn hex_digit(d: u8) -> (r: char)
    requires
        d < 16,
    ensures
        r == hex_char(d as nat),
{
    if d == 0 {
        '0'
    } else if d == 1 {
        '1'
    } else if d == 2 {
        '2'
    } else if d == 3 {
        '3'
    } else if d == 4 {
        '4'
    } else if d == 5 {
        '5'
    } else if d == 6 {
        '6'
    } else if d == 7 {
        '7'
    } else if d == 8 {
        '8'
    } else if d == 9 {
        '9'
    } else if d == 10 {
        'a'
    } else if d == 11 {
        'b'
    } else if d == 12 {
        'c'
    } else if d == 13 {
        'd'
    } else if d == 14 {
        'e'
    } else {
        'f'
    }
}

#[verifier::loop_isolation(false)]
fn write_escaped(out: &mut Vec<char>, s: &str)
    ensures
        final(out)@ == old(out)@ + escape_seq(s@),
{
    let v = chars_of(s);
    let mut i: usize = 0;
    proof {
        assert(v@.subrange(0, 0) =~= Seq::<char>::empty());
        assert(old(out)@ + escape_seq(v@.subrange(0, 0)) =~= old(out)@);
    }
    while i < v.len()
        invariant
            i <= v@.len(),
            v@ == s@,
            out@ == old(out)@ + escape_seq(v@.subrange(0, i as int)),
        decreases v@.len() - i,
    {
        let c = v[i];
        let ghost prev = out@;
        if c == '"' {
            out.push('\\');
            out.push('"');
        } else if c == '\\' {
            out.push('\\');
            out.push('\\');
        } else if c == '\u{8}' {
            out.push('\\');
            out.push('b');
        } else if c == '\t' {
            out.push('\\');
            out.push('t');
        } else if c == '\n' {
            out.push('\\');
            out.push('n');
        } else if c == '\u{c}' {
            out.push('\\');
            out.push('f');
        } else if c == '\r' {
            out.push('\\');
            out.push('r');
        } else if (c as u32) < 32 {
            let code: u8 = (c as u32) as u8;
            out.push('\\');
            out.push('u');
            out.push('0');
            out.push('0');
            out.push(hex_digit(code / 16));
            out.push(hex_digit(code % 16));
        } else {
            out.push(c);
        }
        proof {
            assert(out@ =~= prev + escape_char(v@[i as int]));
            assert(v@.subrange(0, i + 1) =~= v@.subrange(0, i as int).push(v@[i as int]));
            lemma_escape_seq_snoc(v@.subrange(0, i as int), v@[i as int]);
            assert(out@ =~= old(out)@ + escape_seq(v@.subrange(0, i + 1)));
        }
        i = i + 1;
    }
    proof {
        assert(v@.subrange(0, v@.len() as int) =~= v@);
    }
}

#[verifier::loop_isolation(false)]
#[verifier::rlimit(60)]
fn write_json(out: &mut Vec<char>, v: &JsonValue)
    ensures
        final(out)@ == old(out)@ + json_text(v@),
    decreases *v,
{
    match v {
        JsonValue::Null => {
            out.push('n');
            out.push('u');
            out.push('l');
            out.push('l');
            proof {
                assert(out@ =~= old(out)@ + json_text(v@));
            }
        },
        JsonValue::Bool(b) => {
            if *b {
                out.push('t');
                out.push('r');
                out.push('u');
                out.push('e');
            } else {
                out.push('f');
                out.push('a');
                out.push('l');
                out.push('s');
                out.push('e');
            }
            proof {
                assert(out@ =~= old(out)@ + json_text(v@));
            }
        },
        JsonValue::UInt(n) => {
            let digits = crate::text::dec_digits(*n);
            extend_chars(out, &digits);
        },
        JsonValue::NumText(s) => {
            let cs = chars_of(s.as_str());
            extend_chars(out, &cs);
        },
        JsonValue::Str(s) => {
            out.push('"');
            write_escaped(out, s.as_str());
            out.push('"');
            proof {
                assert(out@ =~= old(out)@ + quoted(s@));
            }
        },
        JsonValue::Arr(items) => {
            out.push('[');
            let ghost parts = texts_of(views_of(items@));
            let ghost base = out@;
            proof {
                lemma_views_of(items@);
                lemma_texts_of(views_of(items@));
            }
            let n = items.len();
            let mut i: usize = 0;
            proof {
                assert(parts.subrange(0, 0) =~= Seq::<Seq<char>>::empty());
                assert(base + join_with(parts.subrange(0, 0), seq![',']) =~= base);
            }
            while i < n
                invariant
                    n == items@.len(),
                    parts == texts_of(views_of(items@)),
                    parts.len() == n,
                    i <= n,
                    out@ == base + join_with(parts.subrange(0, i as int), seq![',']),
                decreases n - i,
            {
                proof {
                    lemma_join_with_snoc(parts.subrange(0, i as int), parts[i as int], seq![',']);
                    assert(parts.subrange(0, i + 1) =~= parts.subrange(0, i as int).push(
                        parts[i as int]));
                }
                if i > 0 {
                    out.push(',');
                }
                let ghost before_item = out@;
                write_json(out, &items[i]);
                proof {
                    assert(parts[i as int] == json_text(items@[i as int]@));
                    assert(out@ =~= before_item + parts[i as int]);
                    if i == 0 {
                        assert(out@ =~= base + join_with(parts.subrange(0, i + 1), seq![',']));
                    } else {
                        assert(before_item =~= (base + join_with(
                            parts.subrange(0, i as int),
                            seq![','],
                        )).push(','));
                        assert(out@ =~= base + join_with(parts.subrange(0, i + 1), seq![',']));
                    }
                }
                i = i + 1;
            }
            out.push(']');
            proof {
                assert(parts.subrange(0, parts.len() as int) =~= parts);
                assert(out@ =~= old(out)@ + json_text(v@));
            }
        },
        JsonValue::Obj(fields) => {
            out.push('{');
            let ghost parts = field_texts_of(field_views_of(fields@));
            let ghost base = out@;
            proof {
                lemma_field_views_of(fields@);
                lemma_field_texts_of(field_views_of(fields@));
            }
            let n = fields.len();
            let mut i: usize = 0;
            proof {
                assert(parts.subrange(0, 0) =~= Seq::<Seq<char>>::empty());
                assert(base + join_with(parts.subrange(0, 0), seq![',']) =~= base);
            }
            while i < n
                invariant
                    n == fields@.len(),
                    parts == field_texts_of(field_views_of(fields@)),
                    parts.len() == n,
                    i <= n,
                    out@ == base + join_with(parts.subrange(0, i as int), seq![',']),
                decreases n - i,
            {
                proof {
                    lemma_join_with_snoc(parts.subrange(0, i as int), parts[i as int], seq![',']);
                    assert(parts.subrange(0, i + 1) =~= parts.subrange(0, i as int).push(
                        parts[i as int]));
                }
                if i > 0 {
                    out.push(',');
                }
                let ghost before_item = out@;
                out.push('"');
                write_escaped(out, fields[i].0.as_str());
                out.push('"');
                out.push(':');
                write_json(out, &fields[i].1);
                proof {
                    assert(parts[i as int] == quoted(fields@[i as int].0@) + seq![':'] + json_text(
                        fields@[i as int].1@,
                    ));
                    assert(out@ =~= before_item + parts[i as int]);
                    if i == 0 {
                        assert(out@ =~= base + join_with(parts.subrange(0, i + 1), seq![',']));
                    } else {
                        assert(before_item =~= (base + join_with(
                            parts.subrange(0, i as int),
                            seq![','],
                        )).push(','));
                        assert(out@ =~= base + join_with(parts.subrange(0, i + 1), seq![',']));
                    }
                }
                i = i + 1;
            }
            out.push('}');
            proof {
                assert(parts.subrange(0, parts.len() as int) =~= parts);
                assert(out@ =~= old(out)@ + json_text(v@));
            }
        },
    }
}

/// The compact JSON rendering of a document.
pub fn json_to_text(v: &JsonValue) -> (r: String)
    ensures
        r@ == json_text(v@),
{
    let mut out: Vec<char> = Vec::new();
    write_json(&mut out, v);
    string_from_chars(&out)
}

// ---------------------------------------------------------------------------
// Character-count estimation over a document.
// ---------------------------------------------------------------------------

/// The size estimate of a document: the sum over its strings of their byte
/// lengths, with one unit per boolean and eight per number.
pub open spec fn est_chars(v: Json) -> nat
    decreases v,
{
    match v {
        Json::Null => 0,
        Json::Bool(_) => 1,
        Json::UInt(_) => 8,
        Json::NumText(_) => 8,
        Json::Str(s) => vstd::utf8::encode_utf8(s).len(),
        Json::Arr(items) => est_list(items),
        Json::Obj(fields) => est_fields(fields),
    }
}

pub open spec fn est_list(items: Seq<Json>) -> nat
    decreases items,
{
    if items.len() == 0 {
        0
    } else {
        est_chars(items[0]) + est_list(items.drop_first())
    }
}

pub open spec fn est_fields(fields: Seq<(Seq<char>, Json)>) -> nat
    decreases fields,
{
    if fields.len() == 0 {
        0
    } else {
        vstd::utf8::encode_utf8(fields[0].0).len() + est_chars(fields[0].1) + est_fields(
            fields.drop_first(),
        )
    }
}

proof fn lemma_est_list_snoc(items: Seq<Json>, x: Json)
    ensures
        est_list(items.push(x)) == est_list(items) + est_chars(x),
    decreases items.len(),
{
    let t = items.push(x);
    if items.len() == 0 {
        assert(t[0] == x);
        assert(t.drop_first() =~= Seq::<Json>::empty());
        assert(est_list(Seq::<Json>::empty()) == 0);
        assert(est_list(t) == est_chars(x) + est_list(t.drop_first()));
    } else {
        lemma_est_list_snoc(items.drop_first(), x);
        assert(t[0] == items[0]);
        assert(t.drop_first() =~= items.drop_first().push(x));
        assert(est_list(t) == est_chars(items[0]) + est_list(t.drop_first()));
        assert(est_list(items) == est_chars(items[0]) + est_list(items.drop_first()));
    }
}

proof fn lemma_est_fields_snoc(fields: Seq<(Seq<char>, Json)>, x: (Seq<char>, Json))
    ensures
        est_fields(fields.push(x)) == est_fields(fields) + vstd::utf8::encode_utf8(x.0).len()
            + est_chars(x.1),
    decreases fields.len(),
{
    let t = fields.push(x);
    if fields.len() == 0 {
        assert(t[0] == x);
        assert(t.drop_first() =~= Seq::<(Seq<char>, Json)>::empty());
        assert(est_fields(Seq::<(Seq<char>, Json)>::empty()) == 0);
        assert(est_fields(t) == vstd::utf8::encode_utf8(x.0).len() + est_chars(x.1) + est_fields(
            t.drop_first(),
        ));
    } else {
        lemma_est_fields_snoc(fields.drop_first(), x);
        assert(t[0] == fields[0]);
        assert(t.drop_first() =~= fields.drop_first().push(x));
        assert(est_fields(t) == vstd::utf8::encode_utf8(fields[0].0).len() + est_chars(fields[0].1)
            + est_fields(t.drop_first()));
        assert(est_fields(fields) == vstd::utf8::encode_utf8(fields[0].0).len() + est_chars(
            fields[0].1,
        ) + est_fields(fields.drop_first()));
    }
}

fn sat_add_u64(a: u64, b: u64) -> (r: u64)
    ensures
        r <= a + b,
        a + b <= u64::MAX ==> r == a + b,
{
    if a > u64::MAX - b {
        u64::MAX
    } else {
        a + b
    }
}

/// The estimated character count of a document; exact whenever the true
/// estimate fits a machine word.
#[verifier::loop_isolation(false)]
pub fn estimate_chars(v: &JsonValue) -> (r: u64)
    ensures
        est_chars(v@) <= usize::MAX ==> r == est_chars(v@),
    decreases *v,
{
    match v {
        JsonValue::Null => 0,
        JsonValue::Bool(_) => 1,
        JsonValue::UInt(_) => 8,
        JsonValue::NumText(_) => 8,
        JsonValue::Str(s) => {
            let n = s.as_str().len();
            n as u64
        },
        JsonValue::Arr(items) => {
            let mut acc: u64 = 0;
            let mut i: usize = 0;
            let ghost vs = views_of(items@);
            proof {
                lemma_views_of(items@);
                assert(vs.subrange(0, 0) =~= Seq::<Json>::empty());
            }
            while i < items.len()
                invariant
                    i <= items@.len(),
                    vs == views_of(items@),
                    vs.len() == items@.len(),
                    est_list(vs.subrange(0, i as int)) <= usize::MAX ==> acc == est_list(
                        vs.subrange(0, i as int),
                    ),
                decreases items@.len() - i,
            {
                let c = estimate_chars(&items[i]);
                proof {
                    lemma_est_list_snoc(vs.subrange(0, i as int), vs[i as int]);
                    assert(vs.subrange(0, i + 1) =~= vs.subrange(0, i as int).push(vs[i as int]));
                }
                acc = sat_add_u64(acc, c);
                i = i + 1;
            }
            proof {
                assert(vs.subrange(0, vs.len() as int) =~= vs);
            }
            acc
        },
        JsonValue::Obj(fields) => {
            let mut acc: u64 = 0;
            let mut i: usize = 0;
            let ghost vs = field_views_of(fields@);
            proof {
                lemma_field_views_of(fields@);
                assert(vs.subrange(0, 0) =~= Seq::<(Seq<char>, Json)>::empty());
            }
            while i < fields.len()
                invariant
                    i <= fields@.len(),
                    vs == field_views_of(fields@),
                    vs.len() == fields@.len(),
                    est_fields(vs.subrange(0, i as int)) <= usize::MAX ==> acc == est_fields(
                        vs.subrange(0, i as int),
                    ),
                decreases fields@.len() - i,
            {
                let klen = fields[i].0.as_str().len();
                let c = estimate_chars(&fields[i].1);
                proof {
                    lemma_est_fields_snoc(vs.subrange(0, i as int), vs[i as int]);
                    assert(vs.subrange(0, i + 1) =~= vs.subrange(0, i as int).push(vs[i as int]));
                }
                acc = sat_add_u64(acc, klen as u64);
                acc = sat_add_u64(acc, c);
                i = i + 1;
            }
            proof {
                assert(vs.subrange(0, vs.len() as int) =~= vs);
            }
            acc
        },
    }
}

// ---------------------------------------------------------------------------
// Parsing, through serde_json.
// ---------------------------------------------------------------------------

#[verifier::external_type_specification]
#[verifier::external_body]
pub struct ExSerdeValue(serde_json::Value);

pub uninterp spec fn parsed_json(s: Seq<char>) -> Option<JsonValue>;

/// Relies on serde_json::Value and its From conversions: this rebuilds the
/// parsed tree one node at a time, keeping non-u64 numbers as their text.
#[verifier::external_body]
fn json_from_serde(v: serde_json::Value) -> JsonValue {
    match v {
        serde_json::Value::Null => JsonValue::Null,
        serde_json::Value::Bool(b) => JsonValue::Bool(b),
        serde_json::Value::Number(n) => match n.as_u64() {
            Some(u) => JsonValue::UInt(u),
            None => JsonValue::NumText(n.to_string()),
        },
        serde_json::Value::String(s) => JsonValue::Str(s),
        serde_json::Value::Array(items) => JsonValue::Arr(
            items.into_iter().map(json_from_serde).collect(),
        ),
        serde_json::Value::Object(fields) => JsonValue::Obj(
            fields.into_iter().map(|p| (p.0, json_from_serde(p.1))).collect(),
        ),
    }
}

/// Relies on serde_json::from_str: whether a text parses, and to what, depends
/// on the text alone.
#[verifier::external_body]
pub fn parse_json_text(s: &str) -> (r: Option<JsonValue>)
    ensures
        r == parsed_json(s@),
{
    match serde_json::from_str::<serde_json::Value>(s) {
        Ok(v) => Some(json_from_serde(v)),
        Err(_) => None,
    }
}

} // verus!
