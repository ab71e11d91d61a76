//! Character-level text utilities shared by the whole crate.
//!
//! Specifications speak over `Seq<char>`, the view of `String` and `&str`.

use vstd::prelude::*;

verus! {

// ---------------------------------------------------------------------------
// Names for Unicode classifications that std computes from its tables.
// ---------------------------------------------------------------------------

pub uninterp spec fn char_is_alphanumeric(c: char) -> bool;

/// The characters with the Unicode White_Space property, which is what
/// `char::is_whitespace` tests.
pub open spec fn char_is_whitespace(c: char) -> bool {
    ||| c == ' '
    ||| ('\u{9}' <= c && c <= '\u{d}')
    ||| c == '\u{85}'
    ||| c == '\u{a0}'
    ||| c == '\u{1680}'
    ||| ('\u{2000}' <= c && c <= '\u{200a}')
    ||| c == '\u{2028}'
    ||| c == '\u{2029}'
    ||| c == '\u{202f}'
    ||| c == '\u{205f}'
    ||| c == '\u{3000}'
}

pub uninterp spec fn lower_of(s: Seq<char>) -> Seq<char>;

/// Relies on char::is_alphanumeric: the result depends on the character alone.
#[verifier::external_body]
pub(crate) fn is_alnum(c: char) -> (r: bool)
    ensures
        r == char_is_alphanumeric(c),
{
    c.is_alphanumeric()
}

pub(crate) fn is_wspace(c: char) -> (r: bool)
    ensures
        r == char_is_whitespace(c),
{
    c == ' ' || ('\u{9}' <= c && c <= '\u{d}') || c == '\u{85}' || c == '\u{a0}' || c == '\u{1680}'
        || ('\u{2000}' <= c && c <= '\u{200a}') || c == '\u{2028}' || c == '\u{2029}'
        || c == '\u{202f}' || c == '\u{205f}' || c == '\u{3000}'
}

/// Relies on str::to_lowercase: the result depends on the characters alone.
#[verifier::external_body]
pub(crate) fn lowercase(s: &str) -> (r: String)
    ensures
        r@ == lower_of(s@),
        s@.len() == 0 ==> r@.len() == 0,
{
    s.to_lowercase()
}

// ---------------------------------------------------------------------------
// Conversions between `String` and `Vec<char>`.
// ---------------------------------------------------------------------------

/// Relies on str::chars: it yields exactly the string's characters in order.
#[verifier::external_body]
pub(crate) fn chars_of(s: &str) -> (r: Vec<char>)
    ensures
        r@ == s@,
{
    s.chars().collect()
}

/// Relies on String as FromIterator<char>: it collects exactly the given
/// characters in order.
#[verifier::external_body]
pub(crate) fn string_from_chars(v: &Vec<char>) -> (r: String)
    ensures
        r@ == v@,
{
    v.iter().collect()
}

/// Relies on str's PartialEq: two slices are equal exactly when their
/// characters are.
#[verifier::external_body]
pub(crate) fn str_eq(a: &str, b: &str) -> (r: bool)
    ensures
        r == (a@ == b@),
{
    a == b
}

// ---------------------------------------------------------------------------
// Substring containment.
// ---------------------------------------------------------------------------

pub open spec fn contains_at(text: Seq<char>, pat: Seq<char>, i: int) -> bool {
    0 <= i && i + pat.len() <= text.len() && text.subrange(i, i + pat.len()) == pat
}

pub open spec fn seq_contains(text: Seq<char>, pat: Seq<char>) -> bool {
    exists|i: int| contains_at(text, pat, i)
}

/// Whether `pat` occurs as a contiguous run of characters inside `text`.
pub fn contains_chars(text: &Vec<char>, pat: &Vec<char>) -> (r: bool)
    ensures
        r == seq_contains(text@, pat@),
{
    if pat.len() > text.len() {
        assert forall|i: int| !contains_at(text@, pat@, i) by {}
        return false;
    }
    if pat.len() == 0 {
        proof {
            assert(text@.subrange(0, 0) =~= pat@);
            assert(contains_at(text@, pat@, 0));
        }
        return true;
    }
    let last_start: usize = text.len() - pat.len();
    let mut i: usize = 0;
    while i <= last_start
        invariant
            1 <= pat.len() <= text.len(),
            last_start == text.len() - pat.len(),
            i <= last_start + 1,
            forall|k: int| 0 <= k < i ==> !contains_at(text@, pat@, k),
        decreases last_start + 1 - i,
    {
        let mut j: usize = 0;
        let mut matches: bool = true;
        while matches && j < pat.len()
            invariant
                matches ==> text@.subrange(i as int, i + j) == pat@.subrange(0, j as int),
                !matches ==> !contains_at(text@, pat@, i as int),
                i + pat.len() <= text.len(),
                j <= pat.len(),
            decreases (if matches { 1int } else { 0int }), pat.len() - j,
        {
            if text[i + j] != pat[j] {
                matches = false;
                proof {
                    assert(text@.subrange(i as int, i + pat@.len())[j as int] == text@[i + j]);
                    assert(pat@.subrange(0, pat@.len() as int) =~= pat@);
                    assert(!contains_at(text@, pat@, i as int));
                }
            } else {
                proof {
                    assert(text@.subrange(i as int, i + j + 1) =~= text@.subrange(i as int, i + j)
                        .push(text@[i + j]));
                    assert(pat@.subrange(0, j + 1) =~= pat@.subrange(0, j as int).push(
                        pat@[j as int]));
                }
                j = j + 1;
            }
        }
        if matches {
            proof {
                assert(j == pat@.len());
                assert(pat@.subrange(0, pat@.len() as int) =~= pat@);
                assert(text@.subrange(i as int, i + pat@.len()) == pat@);
                assert(contains_at(text@, pat@, i as int));
            }
            return true;
        }
        i = i + 1;
    }
    proof {
        assert forall|k: int| !contains_at(text@, pat@, k) by {
            if 0 <= k <= last_start {
                assert(!contains_at(text@, pat@, k));
            }
        }
    }
    false
}

/// Convenience form of `contains_chars` over string slices.
pub fn str_contains(text: &str, pat: &str) -> (r: bool)
    ensures
        r == seq_contains(text@, pat@),
{
    let tv = chars_of(text);
    let pv = chars_of(pat);
    contains_chars(&tv, &pv)
}

// ---------------------------------------------------------------------------
// Prefix test.
// ---------------------------------------------------------------------------

pub open spec fn is_prefix(text: Seq<char>, pat: Seq<char>) -> bool {
    pat.len() <= text.len() && text.subrange(0, pat.len() as int) == pat
}

pub fn starts_with_chars(text: &Vec<char>, pat: &Vec<char>) -> (r: bool)
    ensures
        r == is_prefix(text@, pat@),
{
    if pat.len() > text.len() {
        return false;
    }
    let mut j: usize = 0;
    while j < pat.len()
        invariant
            pat.len() <= text.len(),
            j <= pat.len(),
            text@.subrange(0, j as int) == pat@.subrange(0, j as int),
        decreases pat.len() - j,
    {
        if text[j] != pat[j] {
            proof {
                assert(text@.subrange(0, pat@.len() as int)[j as int] == text@[j as int]);
                assert(pat@.subrange(0, pat@.len() as int) =~= pat@);
            }
            return false;
        }
        proof {
            assert(text@.subrange(0, j + 1) =~= text@.subrange(0, j as int).push(text@[j as int]));
            assert(pat@.subrange(0, j + 1) =~= pat@.subrange(0, j as int).push(pat@[j as int]));
        }
        j = j + 1;
    }
    proof {
        assert(pat@.subrange(0, pat@.len() as int) =~= pat@);
    }
    true
}

// ---------------------------------------------------------------------------
// Sub-vector extraction.
// ---------------------------------------------------------------------------

pub fn subvec_chars(v: &Vec<char>, from: usize, to: usize) -> (r: Vec<char>)
    requires
        from <= to <= v@.len(),
    ensures
        r@ == v@.subrange(from as int, to as int),
{
    let mut r: Vec<char> = Vec::new();
    let mut i: usize = from;
    while i < to
        invariant
            from <= i <= to <= v@.len(),
            r@ == v@.subrange(from as int, i as int),
        decreases to - i,
    {
        r.push(v[i]);
        proof {
            assert(v@.subrange(from as int, i + 1) =~= v@.subrange(from as int, i as int).push(
                v@[i as int]));
        }
        i = i + 1;
    }
    r
}

// ---------------------------------------------------------------------------
// Trimming.
// ---------------------------------------------------------------------------

pub open spec fn trim_front(s: Seq<char>) -> Seq<char>
    decreases s.len(),
{
    if s.len() > 0 && char_is_whitespace(s[0]) {
        trim_front(s.drop_first())
    } else {
        s
    }
}

pub open spec fn trim_back(s: Seq<char>) -> Seq<char>
    decreases s.len(),
{
    if s.len() > 0 && char_is_whitespace(s.last()) {
        trim_back(s.drop_last())
    } else {
        s
    }
}

/// The string with leading and trailing whitespace characters removed.
pub open spec fn trim_spec(s: Seq<char>) -> Seq<char> {
    trim_back(trim_front(s))
}

pub fn trim_chars(v: &Vec<char>) -> (r: Vec<char>)
    ensures
        r@ == trim_spec(v@),
{
    let mut start: usize = 0;
    proof {
        assert(v@.skip(0) =~= v@);
    }
    while start < v.len() && is_wspace(v[start])
        invariant
            start <= v@.len(),
            trim_front(v@) == trim_front(v@.skip(start as int)),
        decreases v@.len() - start,
    {
        proof {
            assert(v@.skip(start as int).drop_first() =~= v@.skip(start + 1));
        }
        start = start + 1;
    }
    proof {
        assert(trim_front(v@.skip(start as int)) == v@.skip(start as int));
    }
    let mut end: usize = v.len();
    while end > start && is_wspace(v[end - 1])
        invariant
            start <= end <= v@.len(),
            trim_back(v@.skip(start as int)) == trim_back(v@.subrange(start as int, end as int)),
        decreases end,
    {
        proof {
            assert(v@.subrange(start as int, end as int).drop_last() =~= v@.subrange(
                start as int,
                end - 1,
            ));
        }
        end = end - 1;
    }
    proof {
        assert(trim_back(v@.subrange(start as int, end as int)) == v@.subrange(
            start as int,
            end as int,
        ));
    }
    subvec_chars(v, start, end)
}


pub fn trim_front_chars(v: &Vec<char>) -> (r: Vec<char>)
    ensures
        r@ == trim_front(v@),
{
    let mut start: usize = 0;
    proof {
        assert(v@.skip(0) =~= v@);
    }
    while start < v.len() && is_wspace(v[start])
        invariant
            start <= v@.len(),
            trim_front(v@) == trim_front(v@.skip(start as int)),
        decreases v@.len() - start,
    {
        proof {
            assert(v@.skip(start as int).drop_first() =~= v@.skip(start + 1));
        }
        start = start + 1;
    }
    proof {
        assert(trim_front(v@.skip(start as int)) == v@.skip(start as int));
        assert(v@.subrange(start as int, v@.len() as int) =~= v@.skip(start as int));
    }
    subvec_chars(v, start, v.len())
}

/// Trims a string slice, as the surrounding prose says `str::trim` does.
pub fn trim_str(s: &str) -> (r: String)
    ensures
        r@ == trim_spec(s@),
{
    let v = chars_of(s);
    let t = trim_chars(&v);
    string_from_chars(&t)
}

// ---------------------------------------------------------------------------
// ASCII lowercasing (exact, no trust needed).
// ---------------------------------------------------------------------------

pub open spec fn ascii_lower_char(c: char) -> char {
    if 'A' <= c && c <= 'Z' {
        (((c as u8) + 32) as u8) as char
    } else {
        c
    }
}

pub open spec fn ascii_lower(s: Seq<char>) -> Seq<char> {
    s.map_values(|c: char| ascii_lower_char(c))
}

pub fn ascii_lower_chars(v: &Vec<char>) -> (r: Vec<char>)
    ensures
        r@ == ascii_lower(v@),
{
    let mut r: Vec<char> = Vec::new();
    let mut i: usize = 0;
    while i < v.len()
        invariant
            i <= v@.len(),
            r@ == ascii_lower(v@.subrange(0, i as int)),
        decreases v@.len() - i,
    {
        let c = v[i];
        let lc: char = if 'A' <= c && c <= 'Z' {
            (((c as u8) + 32) as u8) as char
        } else {
            c
        };
        r.push(lc);
        proof {
            assert(v@.subrange(0, i + 1) =~= v@.subrange(0, i as int).push(v@[i as int]));
            assert(ascii_lower(v@.subrange(0, i + 1)) =~= ascii_lower(v@.subrange(0, i as int))
                .push(ascii_lower_char(v@[i as int])));
        }
        i = i + 1;
    }
    proof {
        assert(v@.subrange(0, v@.len() as int) =~= v@);
    }
    r
}

pub fn ascii_lower_str(s: &str) -> (r: String)
    ensures
        r@ == ascii_lower(s@),
{
    let v = chars_of(s);
    let l = ascii_lower_chars(&v);
    string_from_chars(&l)
}

// ---------------------------------------------------------------------------
// Keeping the tail of a bounded text.
// ---------------------------------------------------------------------------

/// The trailing `max` characters of `s`, or all of `s` when it is short enough.
pub open spec fn tail_chars(s: Seq<char>, max: nat) -> Seq<char> {
    if s.len() <= max {
        s
    } else {
        s.skip(s.len() - max)
    }
}

pub fn keep_tail_chars(s: &str, max_chars: usize) -> (r: String)
    ensures
        r@ == tail_chars(s@, max_chars as nat),
{
    let v = chars_of(s);
    if v.len() <= max_chars {
        return string_from_chars(&v);
    }
    let kept = subvec_chars(&v, v.len() - max_chars, v.len());
    proof {
        assert(v@.subrange(v@.len() - max_chars, v@.len() as int) =~= v@.skip(
            v@.len() - max_chars,
        ));
    }
    string_from_chars(&kept)
}

// ---------------------------------------------------------------------------
// Decimal rendering of unsigned integers.
// ---------------------------------------------------------------------------

pub open spec fn digit_char(d: nat) -> char {
    if d == 0 {
        '0'
    } else if d == 1 {
        '1'
    } else if d == 2 {
        '2'
    } else if d == 3 {
        '3'
    } else if d == 4 {
        '4'
    } else if d == 5 {
        '5'
    } else if d == 6 {
        '6'
    } else if d == 7 {
        '7'
    } else if d == 8 {
        '8'
    } else {
        '9'
    }
}

/// The decimal rendering of `n`, most significant digit first.
pub open spec fn dec_of(n: nat) -> Seq<char>
    decreases n,
{
    if n < 10 {
        seq![digit_char(n)]
    } else {
        dec_of(n / 10).push(digit_char(n % 10))
    }
}

pub(crate) fn dec_digits(n: u64) -> (r: Vec<char>)
    ensures
        r@ == dec_of(n as nat),
    decreases n,
{
    if n < 10 {
        let d: u64 = n;
        let c: char = if d == 0 {
            '0'
        } else if d == 1 {
            '1'
        } else if d == 2 {
            '2'
        } else if d == 3 {
            '3'
        } else if d == 4 {
            '4'
        } else if d == 5 {
            '5'
        } else if d == 6 {
            '6'
        } else if d == 7 {
            '7'
        } else if d == 8 {
            '8'
        } else {
            '9'
        };
        let mut r: Vec<char> = Vec::new();
        r.push(c);
        proof {
            assert(r@ =~= seq![digit_char(n as nat)]);
        }
        r
    } else {
        let mut r = dec_digits(n / 10);
        let d: u64 = n % 10;
        let c: char = if d == 0 {
            '0'
        } else if d == 1 {
            '1'
        } else if d == 2 {
            '2'
        } else if d == 3 {
            '3'
        } else if d == 4 {
            '4'
        } else if d == 5 {
            '5'
        } else if d == 6 {
            '6'
        } else if d == 7 {
            '7'
        } else if d == 8 {
            '8'
        } else {
            '9'
        };
        r.push(c);
        r
    }
}

pub fn u64_to_dec(n: u64) -> (r: String)
    ensures
        r@ == dec_of(n as nat),
{
    let v = dec_digits(n);
    string_from_chars(&v)
}

pub fn usize_to_dec(n: usize) -> (r: String)
    ensures
        r@ == dec_of(n as nat),
{
    u64_to_dec(n as u64)
}

// ---------------------------------------------------------------------------
// Splitting and joining.
// ---------------------------------------------------------------------------

/// The character sequences that a vector of character vectors stands for.
pub open spec fn char_views(vs: Seq<Vec<char>>) -> Seq<Seq<char>> {
    vs.map_values(|v: Vec<char>| v@)
}

/// Splitting on a separator character, keeping empty pieces.
pub open spec fn split_on(s: Seq<char>, sep: char) -> Seq<Seq<char>>
    decreases s.len(),
{
    if s.len() == 0 {
        seq![Seq::<char>::empty()]
    } else if s[0] == sep {
        seq![Seq::<char>::empty()] + split_on(s.drop_first(), sep)
    } else {
        let rest = split_on(s.drop_first(), sep);
        seq![seq![s[0]] + rest[0]] + rest.drop_first()
    }
}

pub proof fn lemma_split_on_len(s: Seq<char>, sep: char)
    ensures
        split_on(s, sep).len() >= 1,
    decreases s.len(),
{
    if s.len() > 0 {
        lemma_split_on_len(s.drop_first(), sep);
    }
}

pub proof fn lemma_split_on_snoc(s: Seq<char>, c: char, sep: char)
    ensures
        c == sep ==> split_on(s.push(c), sep) == split_on(s, sep).push(Seq::<char>::empty()),
        c != sep ==> split_on(s.push(c), sep) == split_on(s, sep).update(
            split_on(s, sep).len() - 1,
            split_on(s, sep).last().push(c),
        ),
    decreases s.len(),
{
    lemma_split_on_len(s, sep);
    let t = s.push(c);
    assert(t.len() == s.len() + 1);
    if s.len() == 0 {
        assert(t[0] == c);
        assert(t.drop_first() =~= Seq::<char>::empty());
        assert(split_on(Seq::<char>::empty(), sep) == seq![Seq::<char>::empty()]);
        assert(split_on(s, sep) == seq![Seq::<char>::empty()]);
        if c == sep {
            assert(split_on(t, sep) == seq![Seq::<char>::empty()] + split_on(
                t.drop_first(),
                sep,
            ));
            assert(split_on(t, sep) =~= split_on(s, sep).push(Seq::<char>::empty()));
        } else {
            let rest = split_on(t.drop_first(), sep);
            assert(rest == seq![Seq::<char>::empty()]);
            assert(split_on(t, sep) == seq![seq![c] + rest[0]] + rest.drop_first());
            assert(rest.drop_first() =~= Seq::<Seq<char>>::empty());
            assert(seq![c] + rest[0] =~= split_on(s, sep).last().push(c));
            assert(split_on(t, sep) =~= split_on(s, sep).update(
                split_on(s, sep).len() - 1,
                split_on(s, sep).last().push(c),
            ));
        }
    } else {
        lemma_split_on_snoc(s.drop_first(), c, sep);
        lemma_split_on_len(s.drop_first(), sep);
        assert(t.drop_first() =~= s.drop_first().push(c));
        assert(t[0] == s[0]);
        let rest = split_on(s.drop_first(), sep);
        let rest2 = split_on(s.drop_first().push(c), sep);
        if s[0] == sep {
            assert(split_on(t, sep) == seq![Seq::<char>::empty()] + rest2);
            assert(split_on(s, sep) == seq![Seq::<char>::empty()] + rest);
            if c == sep {
                assert(rest2 == rest.push(Seq::<char>::empty()));
                assert(split_on(t, sep) =~= split_on(s, sep).push(Seq::<char>::empty()));
            } else {
                assert(rest2 == rest.update(rest.len() - 1, rest.last().push(c)));
                assert(split_on(s, sep).last() == rest.last());
                assert(split_on(t, sep) =~= split_on(s, sep).update(
                    split_on(s, sep).len() - 1,
                    split_on(s, sep).last().push(c),
                ));
            }
        } else {
            assert(split_on(t, sep) == seq![seq![s[0]] + rest2[0]] + rest2.drop_first());
            assert(split_on(s, sep) == seq![seq![s[0]] + rest[0]] + rest.drop_first());
            if c == sep {
                assert(rest2 == rest.push(Seq::<char>::empty()));
                assert(rest2[0] == rest[0]);
                assert(rest2.drop_first() =~= rest.drop_first().push(Seq::<char>::empty()));
                assert(split_on(t, sep) =~= split_on(s, sep).push(Seq::<char>::empty()));
            } else {
                assert(rest2 == rest.update(rest.len() - 1, rest.last().push(c)));
                if rest.len() == 1 {
                    assert(rest2[0] == rest[0].push(c));
                    assert(rest2.drop_first() =~= Seq::<Seq<char>>::empty());
                    assert(rest.drop_first() =~= Seq::<Seq<char>>::empty());
                    assert(split_on(s, sep).len() == 1);
                    assert(split_on(s, sep).last() == seq![s[0]] + rest[0]);
                    assert(seq![s[0]] + rest[0].push(c) =~= (seq![s[0]] + rest[0]).push(c));
                    assert(split_on(t, sep) =~= split_on(s, sep).update(
                        split_on(s, sep).len() - 1,
                        split_on(s, sep).last().push(c),
                    ));
                } else {
                    assert(rest2[0] == rest[0]);
                    assert(split_on(s, sep).last() == rest.last());
                    assert(rest2.drop_first() =~= rest.drop_first().update(
                        rest.len() - 2,
                        rest.last().push(c),
                    ));
                    assert(split_on(t, sep) =~= split_on(s, sep).update(
                        split_on(s, sep).len() - 1,
                        split_on(s, sep).last().push(c),
                    ));
                }
            }
        }
    }
}

pub fn split_on_chars(v: &Vec<char>, sep: char) -> (r: Vec<Vec<char>>)
    ensures
        char_views(r@) == split_on(v@, sep),
{
    let mut pieces: Vec<Vec<char>> = Vec::new();
    let mut current: Vec<char> = Vec::new();
    let mut i: usize = 0;
    proof {
        assert(split_on(v@.subrange(0, 0), sep) == seq![Seq::<char>::empty()]);
        assert(char_views(pieces@).push(current@) =~= split_on(v@.subrange(0, 0), sep));
    }
    while i < v.len()
        invariant
            i <= v@.len(),
            char_views(pieces@).push(current@) == split_on(v@.subrange(0, i as int), sep),
        decreases v@.len() - i,
    {
        let c = v[i];
        proof {
            assert(v@.subrange(0, i + 1) =~= v@.subrange(0, i as int).push(v@[i as int]));
            lemma_split_on_snoc(v@.subrange(0, i as int), v@[i as int], sep);
            lemma_split_on_len(v@.subrange(0, i as int), sep);
        }
        if c == sep {
            let ghost prev = char_views(pieces@).push(current@);
            pieces.push(current);
            current = Vec::new();
            proof {
                assert(char_views(pieces@) =~= prev);
                assert(char_views(pieces@).push(current@) =~= split_on(
                    v@.subrange(0, i + 1),
                    sep,
                ));
            }
        } else {
            let ghost prev = char_views(pieces@).push(current@);
            current.push(c);
            proof {
                assert(char_views(pieces@).push(current@) =~= prev.update(
                    prev.len() - 1,
                    prev.last().push(v@[i as int]),
                ));
            }
        }
        i = i + 1;
    }
    let ghost prev = char_views(pieces@).push(current@);
    pieces.push(current);
    proof {
        assert(char_views(pieces@) =~= prev);
        assert(v@.subrange(0, v@.len() as int) =~= v@);
    }
    pieces
}

/// The pieces that `str::lines` yields: split on newline, drop a final empty
/// piece produced by a trailing newline, and strip one trailing carriage
/// return from each piece.
pub open spec fn strip_cr(s: Seq<char>) -> Seq<char> {
    if s.len() > 0 && s.last() == '\r' {
        s.drop_last()
    } else {
        s
    }
}

pub open spec fn lines_of(s: Seq<char>) -> Seq<Seq<char>> {
    if s.len() == 0 {
        Seq::empty()
    } else {
        let pieces = split_on(s, '\n');
        let kept = if s.last() == '\n' {
            pieces.drop_last()
        } else {
            pieces
        };
        kept.map_values(|p: Seq<char>| strip_cr(p))
    }
}

pub fn lines_of_chars(v: &Vec<char>) -> (r: Vec<Vec<char>>)
    ensures
        char_views(r@) == lines_of(v@),
{
    let mut r: Vec<Vec<char>> = Vec::new();
    if v.len() == 0 {
        proof {
            assert(char_views(r@) =~= lines_of(v@));
        }
        return r;
    }
    let pieces = split_on_chars(v, '\n');
    let keep: usize = if v[v.len() - 1] == '\n' {
        proof {
            lemma_split_on_len(v@, '\n');
        }
        pieces.len() - 1
    } else {
        pieces.len()
    };
    let mut i: usize = 0;
    while i < keep
        invariant
            keep <= pieces@.len(),
            i <= keep,
            char_views(pieces@) == split_on(v@, '\n'),
            v@.len() > 0,
            (v@.last() == '\n') ==> keep == char_views(pieces@).len() - 1,
            (v@.last() != '\n') ==> keep == char_views(pieces@).len(),
            char_views(r@) == lines_of(v@).subrange(0, i as int),
        decreases keep - i,
    {
        let piece = &pieces[i];
        let stripped: Vec<char> = if piece.len() > 0 && piece[piece.len() - 1] == '\r' {
            subvec_chars(piece, 0, piece.len() - 1)
        } else {
            subvec_chars(piece, 0, piece.len())
        };
        proof {
            let p = char_views(pieces@)[i as int];
            assert(p == pieces@[i as int]@);
            assert(p.subrange(0, p.len() as int) =~= p);
            if p.len() > 0 && p.last() == '\r' {
                assert(p.subrange(0, p.len() - 1) =~= p.drop_last());
            }
            assert(stripped@ == strip_cr(p));
            let kept = if v@.last() == '\n' {
                split_on(v@, '\n').drop_last()
            } else {
                split_on(v@, '\n')
            };
            assert(kept[i as int] == p);
            assert(lines_of(v@)[i as int] == strip_cr(p));
        }
        let ghost prev = char_views(r@);
        r.push(stripped);
        proof {
            assert(char_views(r@) =~= prev.push(stripped@));
            assert(char_views(r@) =~= lines_of(v@).subrange(0, i + 1));
        }
        i = i + 1;
    }
    proof {
        assert(lines_of(v@).len() == keep);
        assert(lines_of(v@).subrange(0, lines_of(v@).len() as int) =~= lines_of(v@));
    }
    r
}

pub proof fn lemma_split_on_no_sep(s: Seq<char>, sep: char)
    requires
        forall|i: int| 0 <= i < s.len() ==> s[i] != sep,
    ensures
        split_on(s, sep) == seq![s],
    decreases s.len(),
{
    if s.len() == 0 {
        assert(s =~= Seq::<char>::empty());
        assert(split_on(s, sep) =~= seq![s]);
    } else {
        assert forall|i: int| 0 <= i < s.drop_first().len() implies s.drop_first()[i] != sep by {
            assert(s.drop_first()[i] == s[i + 1]);
        }
        lemma_split_on_no_sep(s.drop_first(), sep);
        let rest = split_on(s.drop_first(), sep);
        assert(rest == seq![s.drop_first()]);
        assert(split_on(s, sep) == seq![seq![s[0]] + rest[0]] + rest.drop_first());
        assert(seq![s[0]] + s.drop_first() =~= s);
        assert(rest.drop_first() =~= Seq::<Seq<char>>::empty());
        assert(split_on(s, sep) =~= seq![s]);
    }
}

pub proof fn lemma_split_on_concat(a: Seq<char>, b: Seq<char>, sep: char)
    ensures
        split_on(a + seq![sep] + b, sep) == split_on(a, sep) + split_on(b, sep),
    decreases a.len(),
{
    let s = a + seq![sep] + b;
    if a.len() == 0 {
        assert(s =~= seq![sep] + b);
        assert(s.len() > 0);
        assert(s[0] == sep);
        assert(s.drop_first() =~= b);
        assert(split_on(s, sep) == seq![Seq::<char>::empty()] + split_on(b, sep));
        assert(split_on(a, sep) == seq![Seq::<char>::empty()]);
        assert(split_on(s, sep) =~= split_on(a, sep) + split_on(b, sep));
    } else {
        lemma_split_on_concat(a.drop_first(), b, sep);
        assert(s.len() > 0);
        assert(s[0] == a[0]);
        assert(s.drop_first() =~= a.drop_first() + seq![sep] + b);
        if a[0] == sep {
            assert(split_on(s, sep) == seq![Seq::<char>::empty()] + split_on(
                a.drop_first() + seq![sep] + b,
                sep,
            ));
            assert(split_on(a, sep) == seq![Seq::<char>::empty()] + split_on(
                a.drop_first(),
                sep,
            ));
            assert(split_on(s, sep) =~= split_on(a, sep) + split_on(b, sep));
        } else {
            let rest_s = split_on(a.drop_first() + seq![sep] + b, sep);
            let rest_a = split_on(a.drop_first(), sep);
            lemma_split_on_len(a.drop_first(), sep);
            lemma_split_on_len(b, sep);
            assert(rest_s == rest_a + split_on(b, sep));
            assert(rest_s[0] == rest_a[0]);
            assert(split_on(s, sep) == seq![seq![a[0]] + rest_s[0]] + rest_s.drop_first());
            assert(split_on(a, sep) == seq![seq![a[0]] + rest_a[0]] + rest_a.drop_first());
            assert(rest_s.drop_first() =~= rest_a.drop_first() + split_on(b, sep));
            assert(split_on(s, sep) =~= split_on(a, sep) + split_on(b, sep));
        }
    }
}

/// A piece free of the separator survives the join as one whole fragment.
pub proof fn lemma_join_contains_clean_piece(pieces: Seq<Seq<char>>, sep: char, k: int)
    requires
        0 <= k < pieces.len(),
        forall|i: int| 0 <= i < pieces[k].len() ==> pieces[k][i] != sep,
    ensures
        split_on(join_with(pieces, seq![sep]), sep).contains(pieces[k]),
    decreases pieces.len(),
{
    if pieces.len() == 1 {
        assert(join_with(pieces, seq![sep]) == pieces[0]);
        lemma_split_on_no_sep(pieces[0], sep);
        assert(split_on(join_with(pieces, seq![sep]), sep)[0] == pieces[k]);
    } else {
        let rest_join = join_with(pieces.drop_first(), seq![sep]);
        assert(join_with(pieces, seq![sep]) == pieces[0] + seq![sep] + rest_join);
        lemma_split_on_concat(pieces[0], rest_join, sep);
        lemma_split_on_len(pieces[0], sep);
        if k == 0 {
            lemma_split_on_no_sep(pieces[0], sep);
            assert(split_on(join_with(pieces, seq![sep]), sep)[0] == pieces[k]);
        } else {
            assert(pieces.drop_first()[k - 1] == pieces[k]);
            lemma_join_contains_clean_piece(pieces.drop_first(), sep, k - 1);
            let rest_split = split_on(rest_join, sep);
            let j = choose|j: int| 0 <= j < rest_split.len() && rest_split[j] == pieces[k];
            assert(split_on(join_with(pieces, seq![sep]), sep)[split_on(pieces[0], sep).len()
                + j] == pieces[k]);
        }
    }
}

/// A non-empty, separator- and return-free piece of a newline join appears
/// as one complete line of the joined text.
pub proof fn lemma_join_piece_is_line(pieces: Seq<Seq<char>>, k: int)
    requires
        0 <= k < pieces.len(),
        pieces[k].len() > 0,
        forall|i: int| 0 <= i < pieces[k].len() ==> pieces[k][i] != '\n',
        forall|i: int| 0 <= i < pieces[k].len() ==> pieces[k][i] != '\r',
    ensures
        lines_of(join_with(pieces, seq!['\n'])).contains(pieces[k]),
{
    let s = join_with(pieces, seq!['\n']);
    lemma_join_contains_clean_piece(pieces, '\n', k);
    let frags = split_on(s, '\n');
    let j = choose|j: int| 0 <= j < frags.len() && frags[j] == pieces[k];
    assert(s.len() > 0) by {
        if s.len() == 0 {
            assert(frags == seq![Seq::<char>::empty()]);
            assert(frags[j].len() == 0);
        }
    }
    let kept = if s.last() == '\n' {
        frags.drop_last()
    } else {
        frags
    };
    assert(kept.len() >= 1 ==> lines_of(s) == kept.map_values(|p: Seq<char>| strip_cr(p)));
    if s.last() == '\n' {
        assert(s =~= s.drop_last().push('\n'));
        lemma_split_on_snoc(s.drop_last(), '\n', '\n');
        assert(frags.last().len() == 0);
        assert(j < frags.len() - 1);
    }
    assert(0 <= j < kept.len() && kept[j] == pieces[k]);
    assert(strip_cr(pieces[k]) == pieces[k]);
    assert(lines_of(s)[j] == pieces[k]);
}

/// Joining pieces with a separator sequence.
pub open spec fn join_with(pieces: Seq<Seq<char>>, sep: Seq<char>) -> Seq<char>
    decreases pieces.len(),
{
    if pieces.len() == 0 {
        Seq::empty()
    } else if pieces.len() == 1 {
        pieces[0]
    } else {
        pieces[0] + sep + join_with(pieces.drop_first(), sep)
    }
}

pub proof fn lemma_join_with_snoc(pieces: Seq<Seq<char>>, x: Seq<char>, sep: Seq<char>)
    ensures
        pieces.len() == 0 ==> join_with(pieces.push(x), sep) == x,
        pieces.len() > 0 ==> join_with(pieces.push(x), sep) == join_with(pieces, sep) + sep + x,
    decreases pieces.len(),
{
    if pieces.len() == 0 {
        assert(join_with(pieces.push(x), sep) == pieces.push(x)[0]);
        assert(pieces.push(x)[0] == x);
    } else if pieces.len() == 1 {
        assert(pieces.push(x).drop_first() =~= seq![x]);
        assert(join_with(seq![x], sep) == seq![x][0]);
        assert(seq![x][0] == x);
        assert(join_with(pieces.push(x), sep) == pieces.push(x)[0] + sep + join_with(
            pieces.push(x).drop_first(),
            sep,
        ));
        assert(pieces.push(x)[0] == pieces[0]);
        assert(join_with(pieces.push(x), sep) == pieces[0] + sep + x);
        assert(join_with(pieces, sep) == pieces[0]);
    } else {
        lemma_join_with_snoc(pieces.drop_first(), x, sep);
        assert(pieces.push(x).drop_first() =~= pieces.drop_first().push(x));
        assert(join_with(pieces.push(x), sep) == pieces.push(x)[0] + sep + join_with(
            pieces.drop_first().push(x),
            sep,
        ));
        assert(pieces.push(x)[0] == pieces[0]);
        assert((pieces[0] + sep + (join_with(pieces.drop_first(), sep) + sep + x)) =~= (pieces[0]
            + sep + join_with(pieces.drop_first(), sep)) + sep + x);
    }
}

pub fn join_chars(pieces: &Vec<Vec<char>>, sep: &Vec<char>) -> (r: Vec<char>)
    ensures
        r@ == join_with(char_views(pieces@), sep@),
{
    let mut r: Vec<char> = Vec::new();
    let mut i: usize = 0;
    while i < pieces.len()
        invariant
            i <= pieces.len(),
            r@ == join_with(char_views(pieces@).subrange(0, i as int), sep@),
        decreases pieces.len() - i,
    {
        proof {
            lemma_join_with_snoc(char_views(pieces@).subrange(0, i as int), char_views(pieces@)[
                i as int], sep@);
            assert(char_views(pieces@).subrange(0, i + 1) =~= char_views(pieces@).subrange(
                0,
                i as int,
            ).push(char_views(pieces@)[i as int]));
        }
        if i > 0 {
            let mut k: usize = 0;
            while k < sep.len()
                invariant
                    k <= sep@.len(),
                    r@ == join_with(char_views(pieces@).subrange(0, i as int), sep@)
                        + sep@.subrange(0, k as int),
                    i >= 1,
                    i <= pieces.len(),
                decreases sep@.len() - k,
            {
                r.push(sep[k]);
                proof {
                    assert(sep@.subrange(0, k + 1) =~= sep@.subrange(0, k as int).push(
                        sep@[k as int]));
                    assert(join_with(char_views(pieces@).subrange(0, i as int), sep@)
                        + sep@.subrange(0, k + 1) =~= (join_with(
                        char_views(pieces@).subrange(0, i as int),
                        sep@,
                    ) + sep@.subrange(0, k as int)).push(sep@[k as int]));
                }
                k = k + 1;
            }
            proof {
                assert(sep@.subrange(0, sep@.len() as int) =~= sep@);
            }
        }
        let piece = &pieces[i];
        let mut k: usize = 0;
        let ghost base: Seq<char> = r@;
        while k < piece.len()
            invariant
                k <= piece@.len(),
                r@ == base + piece@.subrange(0, k as int),
            decreases piece@.len() - k,
        {
            r.push(piece[k]);
            proof {
                assert(piece@.subrange(0, k + 1) =~= piece@.subrange(0, k as int).push(
                    piece@[k as int]));
                assert(base + piece@.subrange(0, k + 1) =~= (base + piece@.subrange(0, k as int))
                    .push(piece@[k as int]));
            }
            k = k + 1;
        }
        proof {
            assert(piece@.subrange(0, piece@.len() as int) =~= piece@);
            assert(piece@ == char_views(pieces@)[i as int]);
            if i == 0 {
                assert(r@ =~= join_with(char_views(pieces@).subrange(0, i + 1), sep@));
            } else {
                assert(char_views(pieces@).subrange(0, i as int).len() > 0);
                assert(r@ =~= join_with(char_views(pieces@).subrange(0, i + 1), sep@));
            }
        }
        i = i + 1;
    }
    proof {
        assert(char_views(pieces@).subrange(0, char_views(pieces@).len() as int)
            =~= char_views(pieces@));
    }
    r
}

// ---------------------------------------------------------------------------
// Appending one char sequence to a vector.
// ---------------------------------------------------------------------------

pub fn extend_chars(dst: &mut Vec<char>, src: &Vec<char>)
    ensures
        final(dst)@ == old(dst)@ + src@,
{
    let mut k: usize = 0;
    while k < src.len()
        invariant
            k <= src@.len(),
            dst@ == old(dst)@ + src@.subrange(0, k as int),
        decreases src@.len() - k,
    {
        dst.push(src[k]);
        proof {
            assert(src@.subrange(0, k + 1) =~= src@.subrange(0, k as int).push(src@[k as int]));
            assert(old(dst)@ + src@.subrange(0, k + 1) =~= (old(dst)@ + src@.subrange(0, k as int))
                .push(src@[k as int]));
        }
        k = k + 1;
    }
    proof {
        assert(src@.subrange(0, src@.len() as int) =~= src@);
    }
}



/// The last index bearing the given character.
pub open spec fn find_last(s: Seq<char>, c: char) -> Option<int>
    decreases s.len(),
{
    if s.len() == 0 {
        None
    } else if s.last() == c {
        Some(s.len() - 1)
    } else {
        find_last(s.drop_last(), c)
    }
}

#[verifier::loop_isolation(false)]
pub fn find_last_chars(v: &Vec<char>, c: char) -> (r: Option<usize>)
    ensures
        match r {
            Some(i) => i < v@.len() && find_last(v@, c) == Some(i as int),
            None => find_last(v@, c) is None,
        },
{
    let mut i: usize = v.len();
    proof {
        assert(v@.subrange(0, v@.len() as int) =~= v@);
    }
    while i > 0
        invariant
            i <= v@.len(),
            find_last(v@, c) == find_last(v@.subrange(0, i as int), c),
        decreases i,
    {
        proof {
            assert(v@.subrange(0, i as int).last() == v@[i - 1]);
            assert(v@.subrange(0, i as int).drop_last() =~= v@.subrange(0, i - 1));
        }
        if v[i - 1] == c {
            return Some(i - 1);
        }
        i = i - 1;
    }
    proof {
        assert(v@.subrange(0, 0) =~= Seq::<char>::empty());
    }
    None
}

// ---------------------------------------------------------------------------
// First occurrence of a pattern.
// ---------------------------------------------------------------------------

pub open spec fn find_from(text: Seq<char>, pat: Seq<char>, i: int) -> Option<nat>
    decreases text.len() + 1 - i,
{
    if i < 0 || i + pat.len() > text.len() {
        None
    } else if contains_at(text, pat, i) {
        Some(i as nat)
    } else {
        find_from(text, pat, i + 1)
    }
}

/// The first index where `pat` occurs in `text`, if any.
pub open spec fn find_first(text: Seq<char>, pat: Seq<char>) -> Option<nat> {
    find_from(text, pat, 0)
}

#[verifier::loop_isolation(false)]
fn match_at(text: &Vec<char>, pat: &Vec<char>, i: usize) -> (r: bool)
    requires
        i + pat@.len() <= text@.len(),
    ensures
        r == contains_at(text@, pat@, i as int),
{
    let mut j: usize = 0;
    proof {
        assert(text.len() == text@.len());
    }
    while j < pat.len()
        invariant
            j <= pat@.len(),
            i + pat@.len() <= text@.len(),
            text@.subrange(i as int, i + j) == pat@.subrange(0, j as int),
        decreases pat@.len() - j,
    {
        proof {
            assert(i + j < text@.len());
        }
        if text[i + j] != pat[j] {
            proof {
                assert(text@.subrange(i as int, i + pat@.len())[j as int] == text@[i + j]);
                assert(pat@.subrange(0, pat@.len() as int) =~= pat@);
            }
            return false;
        }
        proof {
            assert(text@.subrange(i as int, i + j + 1) =~= text@.subrange(i as int, i + j).push(
                text@[i + j]));
            assert(pat@.subrange(0, j + 1) =~= pat@.subrange(0, j as int).push(pat@[j as int]));
        }
        j = j + 1;
    }
    proof {
        assert(pat@.subrange(0, pat@.len() as int) =~= pat@);
    }
    true
}

#[verifier::loop_isolation(false)]
pub fn find_first_chars(text: &Vec<char>, pat: &Vec<char>) -> (r: Option<usize>)
    ensures
        match r {
            Some(i) => {
                &&& find_first(text@, pat@) == Some(i as nat)
                &&& contains_at(text@, pat@, i as int)
            },
            None => find_first(text@, pat@) is None,
        },
{
    if pat.len() > text.len() {
        return None;
    }
    if pat.len() == 0 {
        proof {
            assert(text@.subrange(0, 0) =~= pat@);
            assert(contains_at(text@, pat@, 0));
        }
        return Some(0);
    }
    let last_start: usize = text.len() - pat.len();
    let mut i: usize = 0;
    while i <= last_start
        invariant
            i <= last_start + 1,
            1 <= pat@.len() <= text@.len(),
            last_start == text@.len() - pat@.len(),
            find_first(text@, pat@) == find_from(text@, pat@, i as int),
        decreases last_start + 1 - i,
    {
        if match_at(text, pat, i) {
            return Some(i);
        }
        i = i + 1;
    }
    None
}

} // verus!
