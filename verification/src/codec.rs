use vstd::prelude::*;
use crate::project::{Project, ProjectView};
use crate::strutil::{is_prefix, push_char};

verus! {

// ---------------------------------------------------------------------
// The rendered form of the registry document: a JSON array of project
// records with the fields name, path, tags, is_bare_repo and added_at,
// rendered compactly and in that order.
// ---------------------------------------------------------------------
/// How one character is escaped inside a JSON string: quote and
/// backslash get a backslash, everything else stands as itself.
pub open spec fn esc_char(c: char) -> Seq<char> {
    if c == '"' || c == '\\' {
        seq!['\\', c]
    } else {
        seq![c]
    }
}

/// A string's characters, escaped.
pub open spec fn esc(s: Seq<char>) -> Seq<char>
    decreases s.len(),
{
    if s.len() == 0 {
        Seq::empty()
    } else {
        esc_char(s[0]) + esc(s.skip(1))
    }
}

/// A JSON string literal: the escaped characters between quotes.
pub open spec fn json_str(s: Seq<char>) -> Seq<char> {
    seq!['"'] + esc(s) + seq!['"']
}

/// The characters of the JSON boolean literals.
pub open spec fn true_chars() -> Seq<char> {
    seq!['t', 'r', 'u', 'e']
}

pub open spec fn false_chars() -> Seq<char> {
    seq!['f', 'a', 'l', 's', 'e']
}

pub open spec fn json_bool(b: bool) -> Seq<char> {
    if b {
        true_chars()
    } else {
        false_chars()
    }
}

/// A quoted object key followed by its colon.
pub open spec fn kq(key: Seq<char>) -> Seq<char> {
    seq!['"'] + key + seq!['"', ':']
}

pub open spec fn key_name() -> Seq<char> {
    seq!['n', 'a', 'm', 'e']
}

pub open spec fn key_path() -> Seq<char> {
    seq!['p', 'a', 't', 'h']
}

pub open spec fn key_tags() -> Seq<char> {
    seq!['t', 'a', 'g', 's']
}

pub open spec fn key_bare() -> Seq<char> {
    seq!['i', 's', '_', 'b', 'a', 'r', 'e', '_', 'r', 'e', 'p', 'o']
}

pub open spec fn key_added() -> Seq<char> {
    seq!['a', 'd', 'd', 'e', 'd', '_', 'a', 't']
}

/// The comma-separated string literals inside the tags array.
pub open spec fn json_tags_items(ts: Seq<Seq<char>>) -> Seq<char>
    decreases ts.len(),
{
    if ts.len() == 0 {
        Seq::empty()
    } else if ts.len() == 1 {
        json_str(ts[0])
    } else {
        json_str(ts[0]) + seq![','] + json_tags_items(ts.skip(1))
    }
}

/// The tags array.
pub open spec fn json_tags(ts: Seq<Seq<char>>) -> Seq<char> {
    seq!['['] + json_tags_items(ts) + seq![']']
}

/// One project record.
pub open spec fn project_json(p: ProjectView) -> Seq<char> {
    seq!['{'] + kq(key_name()) + json_str(p.name) + seq![','] + kq(key_path()) + json_str(p.path)
        + seq![','] + kq(key_tags()) + json_tags(p.tags) + seq![','] + kq(key_bare()) + json_bool(
        p.is_bare_repo,
    ) + seq![','] + kq(key_added()) + json_str(p.added_at) + seq!['}']
}

/// The comma-separated project records inside the document array.
pub open spec fn json_reg_items(ps: Seq<ProjectView>) -> Seq<char>
    decreases ps.len(),
{
    if ps.len() == 0 {
        Seq::empty()
    } else if ps.len() == 1 {
        project_json(ps[0])
    } else {
        project_json(ps[0]) + seq![','] + json_reg_items(ps.skip(1))
    }
}

/// The whole registry document.
pub open spec fn registry_json(ps: Seq<ProjectView>) -> Seq<char> {
    seq!['['] + json_reg_items(ps) + seq![']']
}

// ---------------------------------------------------------------------
// The parser, as a mathematical function of the document text. Each
// parsing function yields the parsed value and how many characters it
// consumed, or nothing when the text does not fit the schema. The tags
// and is_bare_repo fields may be absent and then default to empty and
// to false.
// ---------------------------------------------------------------------
/// Which characters may follow a backslash, and what each denotes.
pub open spec fn escapable(c: char) -> bool {
    c == '"' || c == '\\' || c == '/' || c == 'n' || c == 't' || c == 'r'
}

pub open spec fn unesc(c: char) -> char {
    if c == 'n' {
        '\n'
    } else if c == 't' {
        '\t'
    } else if c == 'r' {
        '\r'
    } else {
        c
    }
}

/// The inside of a string literal, up to and including the closing
/// quote.
pub open spec fn sp_parse_str_body(s: Seq<char>) -> Option<(Seq<char>, int)>
    decreases s.len(),
{
    if s.len() == 0 {
        None
    } else if s[0] == '"' {
        Some((Seq::empty(), 1))
    } else if s[0] == '\\' {
        if s.len() >= 2 && escapable(s[1]) {
            match sp_parse_str_body(s.skip(2)) {
                Some((v, n)) => Some((seq![unesc(s[1])] + v, 2 + n)),
                None => None,
            }
        } else {
            None
        }
    } else {
        match sp_parse_str_body(s.skip(1)) {
            Some((v, n)) => Some((seq![s[0]] + v, 1 + n)),
            None => None,
        }
    }
}

/// A whole string literal.
pub open spec fn sp_parse_string(s: Seq<char>) -> Option<(Seq<char>, int)> {
    if s.len() > 0 && s[0] == '"' {
        match sp_parse_str_body(s.skip(1)) {
            Some((v, n)) => Some((v, 1 + n)),
            None => None,
        }
    } else {
        None
    }
}

/// A boolean literal.
pub open spec fn sp_parse_bool(s: Seq<char>) -> Option<(bool, int)> {
    if is_prefix(s, true_chars()) {
        Some((true, 4))
    } else if is_prefix(s, false_chars()) {
        Some((false, 5))
    } else {
        None
    }
}

/// A quoted key with its colon.
pub open spec fn sp_parse_key(s: Seq<char>, key: Seq<char>) -> Option<int> {
    if is_prefix(s, kq(key)) {
        Some(kq(key).len() as int)
    } else {
        None
    }
}

/// Every parse consumes at least one and at most all characters.
pub proof fn lemma_str_body_consumed(s: Seq<char>)
    ensures
        sp_parse_str_body(s) matches Some(r) ==> 1 <= r.1 <= s.len(),
    decreases s.len(),
{
    if s.len() == 0 {
    } else if s[0] == '"' {
    } else if s[0] == '\\' {
        if s.len() >= 2 && escapable(s[1]) {
            lemma_str_body_consumed(s.skip(2));
        }
    } else {
        lemma_str_body_consumed(s.skip(1));
    }
}

pub proof fn lemma_string_consumed(s: Seq<char>)
    ensures
        sp_parse_string(s) matches Some(r) ==> 2 <= r.1 <= s.len(),
{
    if s.len() > 0 && s[0] == '"' {
        lemma_str_body_consumed(s.skip(1));
    }
}

/// The remainder of the tags array after its first element: either the
/// closing bracket, or a comma and another string, repeated.
pub open spec fn sp_parse_tags_rest(s: Seq<char>) -> Option<(Seq<Seq<char>>, int)>
    decreases s.len(),
    via sp_parse_tags_rest_dec
{
    if s.len() == 0 {
        None
    } else if s[0] == ']' {
        Some((Seq::empty(), 1))
    } else if s[0] == ',' {
        match sp_parse_string(s.skip(1)) {
            Some((t, n)) => match sp_parse_tags_rest(s.skip(1 + n)) {
                Some((ts, m)) => Some((seq![t] + ts, 1 + n + m)),
                None => None,
            },
            None => None,
        }
    } else {
        None
    }
}

#[via_fn]
proof fn sp_parse_tags_rest_dec(s: Seq<char>) {
    if s.len() > 0 && s[0] != ']' && s[0] == ',' {
        lemma_string_consumed(s.skip(1));
    }
}

/// The whole tags array.
pub open spec fn sp_parse_tags(s: Seq<char>) -> Option<(Seq<Seq<char>>, int)> {
    if s.len() >= 2 && s[0] == '[' && s[1] == ']' {
        Some((Seq::empty(), 2))
    } else if s.len() > 0 && s[0] == '[' {
        match sp_parse_string(s.skip(1)) {
            Some((t, n)) => match sp_parse_tags_rest(s.skip(1 + n)) {
                Some((ts, m)) => Some((seq![t] + ts, 1 + n + m)),
                None => None,
            },
            None => None,
        }
    } else {
        None
    }
}

pub proof fn lemma_tags_rest_consumed(s: Seq<char>)
    ensures
        sp_parse_tags_rest(s) matches Some(r) ==> 1 <= r.1 <= s.len(),
    decreases s.len(),
{
    if s.len() > 0 && s[0] == ',' {
        lemma_string_consumed(s.skip(1));
        match sp_parse_string(s.skip(1)) {
            Some((t, n)) => {
                lemma_tags_rest_consumed(s.skip(1 + n));
            },
            None => {},
        }
    }
}

pub proof fn lemma_tags_consumed(s: Seq<char>)
    ensures
        sp_parse_tags(s) matches Some(r) ==> 2 <= r.1 <= s.len(),
{
    if s.len() >= 2 && s[0] == '[' && s[1] == ']' {
    } else if s.len() > 0 && s[0] == '[' {
        lemma_string_consumed(s.skip(1));
        match sp_parse_string(s.skip(1)) {
            Some((t, n)) => {
                lemma_tags_rest_consumed(s.skip(1 + n));
            },
            None => {},
        }
    }
}

/// The final field of a record: the added_at key, its string, and the
/// closing brace.
pub open spec fn sp_parse_added(s: Seq<char>) -> Option<(Seq<char>, int)> {
    match sp_parse_key(s, key_added()) {
        None => None,
        Some(k) => match sp_parse_string(s.skip(k)) {
            None => None,
            Some((v, n)) => {
                let s2 = s.skip(k + n);
                if s2.len() > 0 && s2[0] == '}' {
                    Some((v, k + n + 1))
                } else {
                    None
                }
            },
        },
    }
}

/// The record past its path field: an optional is_bare_repo field, then
/// the added_at field.
pub open spec fn sp_parse_tail2(s: Seq<char>) -> Option<((bool, Seq<char>), int)> {
    match sp_parse_key(s, key_bare()) {
        Some(k) => match sp_parse_bool(s.skip(k)) {
            None => None,
            Some((b, n)) => {
                let s2 = s.skip(k + n);
                if s2.len() > 0 && s2[0] == ',' {
                    match sp_parse_added(s.skip(k + n + 1)) {
                        Some((v, m)) => Some(((b, v), k + n + 1 + m)),
                        None => None,
                    }
                } else {
                    None
                }
            },
        },
        None => match sp_parse_added(s) {
            Some((v, m)) => Some(((false, v), m)),
            None => None,
        },
    }
}

/// The record past its path field: an optional tags field, then the
/// rest.
pub open spec fn sp_parse_tail(s: Seq<char>) -> Option<((Seq<Seq<char>>, bool, Seq<char>), int)> {
    match sp_parse_key(s, key_tags()) {
        Some(k) => match sp_parse_tags(s.skip(k)) {
            None => None,
            Some((ts, n)) => {
                let s2 = s.skip(k + n);
                if s2.len() > 0 && s2[0] == ',' {
                    match sp_parse_tail2(s.skip(k + n + 1)) {
                        Some(((b, v), m)) => Some(((ts, b, v), k + n + 1 + m)),
                        None => None,
                    }
                } else {
                    None
                }
            },
        },
        None => match sp_parse_tail2(s) {
            Some(((b, v), m)) => Some(((Seq::empty(), b, v), m)),
            None => None,
        },
    }
}

/// One whole project record.
pub open spec fn sp_parse_project(s: Seq<char>) -> Option<(ProjectView, int)> {
    if s.len() > 0 && s[0] == '{' {
        match sp_parse_key(s.skip(1), key_name()) {
            None => None,
            Some(k1) => match sp_parse_string(s.skip(1 + k1)) {
                None => None,
                Some((name, n1)) => {
                    let s2 = s.skip(1 + k1 + n1);
                    if s2.len() > 0 && s2[0] == ',' {
                        match sp_parse_key(s.skip(1 + k1 + n1 + 1), key_path()) {
                            None => None,
                            Some(k2) => match sp_parse_string(s.skip(1 + k1 + n1 + 1 + k2)) {
                                None => None,
                                Some((path, n2)) => {
                                    let s3 = s.skip(1 + k1 + n1 + 1 + k2 + n2);
                                    if s3.len() > 0 && s3[0] == ',' {
                                        match sp_parse_tail(
                                            s.skip(1 + k1 + n1 + 1 + k2 + n2 + 1),
                                        ) {
                                            Some(((ts, b, v), m)) => Some(
                                                (
                                                    ProjectView {
                                                        name,
                                                        path,
                                                        tags: ts,
                                                        is_bare_repo: b,
                                                        added_at: v,
                                                    },
                                                    1 + k1 + n1 + 1 + k2 + n2 + 1 + m,
                                                ),
                                            ),
                                            None => None,
                                        }
                                    } else {
                                        None
                                    }
                                },
                            },
                        }
                    } else {
                        None
                    }
                },
            },
        }
    } else {
        None
    }
}

pub proof fn lemma_added_consumed(s: Seq<char>)
    ensures
        sp_parse_added(s) matches Some(r) ==> 1 <= r.1 <= s.len(),
{
    match sp_parse_key(s, key_added()) {
        Some(k) => {
            lemma_string_consumed(s.skip(k));
        },
        None => {},
    }
}

pub proof fn lemma_tail2_consumed(s: Seq<char>)
    ensures
        sp_parse_tail2(s) matches Some(r) ==> 1 <= r.1 <= s.len(),
{
    match sp_parse_key(s, key_bare()) {
        Some(k) => {
            match sp_parse_bool(s.skip(k)) {
                Some((b, n)) => {
                    lemma_added_consumed(s.skip(k + n + 1));
                },
                None => {},
            }
        },
        None => {
            lemma_added_consumed(s);
        },
    }
}

pub proof fn lemma_tail_consumed(s: Seq<char>)
    ensures
        sp_parse_tail(s) matches Some(r) ==> 1 <= r.1 <= s.len(),
{
    match sp_parse_key(s, key_tags()) {
        Some(k) => {
            lemma_tags_consumed(s.skip(k));
            match sp_parse_tags(s.skip(k)) {
                Some((ts, n)) => {
                    lemma_tail2_consumed(s.skip(k + n + 1));
                },
                None => {},
            }
        },
        None => {
            lemma_tail2_consumed(s);
        },
    }
}

pub proof fn lemma_project_consumed(s: Seq<char>)
    ensures
        sp_parse_project(s) matches Some(r) ==> 1 <= r.1 <= s.len(),
{
    if s.len() > 0 && s[0] == '{' {
        match sp_parse_key(s.skip(1), key_name()) {
            Some(k1) => {
                lemma_string_consumed(s.skip(1 + k1));
                match sp_parse_string(s.skip(1 + k1)) {
                    Some((name, n1)) => {
                        match sp_parse_key(s.skip(1 + k1 + n1 + 1), key_path()) {
                            Some(k2) => {
                                lemma_string_consumed(s.skip(1 + k1 + n1 + 1 + k2));
                                match sp_parse_string(s.skip(1 + k1 + n1 + 1 + k2)) {
                                    Some((path, n2)) => {
                                        lemma_tail_consumed(s.skip(1 + k1 + n1 + 1 + k2 + n2 + 1));
                                    },
                                    None => {},
                                }
                            },
                            None => {},
                        }
                    },
                    None => {},
                }
            },
            None => {},
        }
    }
}

/// The remainder of the document array after its first record.
pub open spec fn sp_parse_reg_rest(s: Seq<char>) -> Option<(Seq<ProjectView>, int)>
    decreases s.len(),
    via sp_parse_reg_rest_dec
{
    if s.len() == 0 {
        None
    } else if s[0] == ']' {
        Some((Seq::empty(), 1))
    } else if s[0] == ',' {
        match sp_parse_project(s.skip(1)) {
            Some((p, n)) => match sp_parse_reg_rest(s.skip(1 + n)) {
                Some((ps, m)) => Some((seq![p] + ps, 1 + n + m)),
                None => None,
            },
            None => None,
        }
    } else {
        None
    }
}

#[via_fn]
proof fn sp_parse_reg_rest_dec(s: Seq<char>) {
    if s.len() > 0 && s[0] != ']' && s[0] == ',' {
        lemma_project_consumed(s.skip(1));
    }
}

/// The whole registry document.
pub open spec fn sp_parse_registry(s: Seq<char>) -> Option<(Seq<ProjectView>, int)> {
    if s.len() >= 2 && s[0] == '[' && s[1] == ']' {
        Some((Seq::empty(), 2))
    } else if s.len() > 0 && s[0] == '[' {
        match sp_parse_project(s.skip(1)) {
            Some((p, n)) => match sp_parse_reg_rest(s.skip(1 + n)) {
                Some((ps, m)) => Some((seq![p] + ps, 1 + n + m)),
                None => None,
            },
            None => None,
        }
    } else {
        None
    }
}


// ---------------------------------------------------------------------
// Round trip: parsing a rendered value, whatever follows it, yields the
// value back and consumes exactly its rendering.
// ---------------------------------------------------------------------
pub proof fn lemma_esc_rt(v: Seq<char>, rest: Seq<char>)
    ensures
        sp_parse_str_body(esc(v) + seq!['"'] + rest) == Some((v, esc(v).len() + 1 as int)),
    decreases v.len(),
{
    let s = esc(v) + seq!['"'] + rest;
    if v.len() == 0 {
        assert(esc(v) =~= Seq::empty());
        assert(s[0] == '"');
        assert(v =~= Seq::<char>::empty());
    } else {
        let tail = esc(v.skip(1)) + seq!['"'] + rest;
        lemma_esc_rt(v.skip(1), rest);
        if v[0] == '"' || v[0] == '\\' {
            assert(esc_char(v[0]) =~= seq!['\\', v[0]]);
            assert(s =~= seq!['\\', v[0]] + tail);
            assert(s[0] == '\\' && s[1] == v[0]);
            assert(escapable(s[1]));
            assert(s.skip(2) =~= tail);
            assert(unesc(v[0]) == v[0]);
            assert(seq![v[0]] + v.skip(1) =~= v);
            assert(esc(v).len() == 2 + esc(v.skip(1)).len());
        } else {
            assert(esc_char(v[0]) =~= seq![v[0]]);
            assert(s =~= seq![v[0]] + tail);
            assert(s[0] == v[0]);
            assert(s.skip(1) =~= tail);
            assert(seq![v[0]] + v.skip(1) =~= v);
            assert(esc(v).len() == 1 + esc(v.skip(1)).len());
        }
    }
}

pub proof fn lemma_string_rt(v: Seq<char>, rest: Seq<char>)
    ensures
        sp_parse_string(json_str(v) + rest) == Some((v, json_str(v).len() as int)),
{
    let s = json_str(v) + rest;
    assert(s[0] == '"');
    assert(s.skip(1) =~= esc(v) + seq!['"'] + rest);
    lemma_esc_rt(v, rest);
    assert(json_str(v).len() == esc(v).len() + 2);
}

pub proof fn lemma_key_rt(key: Seq<char>, rest: Seq<char>)
    ensures
        sp_parse_key(kq(key) + rest, key) == Some(kq(key).len() as int),
{
    let s = kq(key) + rest;
    assert(s.subrange(0, kq(key).len() as int) =~= kq(key));
    assert(is_prefix(s, kq(key)));
}

pub proof fn lemma_bool_rt(b: bool, rest: Seq<char>)
    ensures
        sp_parse_bool(json_bool(b) + rest) == Some((b, json_bool(b).len() as int)),
{
    let s = json_bool(b) + rest;
    if b {
        assert(s.subrange(0, 4) =~= true_chars());
        assert(is_prefix(s, true_chars()));
    } else {
        assert(s[0] == 'f');
        assert(!is_prefix(s, true_chars())) by {
            if is_prefix(s, true_chars()) {
                assert(s.subrange(0, 4)[0] == s[0]);
            }
        }
        assert(s.subrange(0, 5) =~= false_chars());
        assert(is_prefix(s, false_chars()));
    }
}

/// What follows the first element inside a rendered tags array.
pub open spec fn json_tags_rest(ts: Seq<Seq<char>>) -> Seq<char>
    decreases ts.len(),
{
    if ts.len() == 0 {
        seq![']']
    } else {
        seq![','] + json_str(ts[0]) + json_tags_rest(ts.skip(1))
    }
}

proof fn lemma_tags_decomp(ts: Seq<Seq<char>>)
    requires
        ts.len() >= 1,
    ensures
        json_tags_items(ts) + seq![']'] == json_str(ts[0]) + json_tags_rest(ts.skip(1)),
    decreases ts.len(),
{
    if ts.len() == 1 {
        assert(ts.skip(1) =~= Seq::<Seq<char>>::empty());
        assert(json_tags_items(ts) + seq![']'] =~= json_str(ts[0]) + json_tags_rest(ts.skip(1)));
    } else {
        lemma_tags_decomp(ts.skip(1));
        assert(ts.skip(1)[0] == ts[1]);
        assert(ts.skip(1).skip(1) =~= ts.skip(2));
        assert(json_tags_items(ts) + seq![']'] =~= json_str(ts[0]) + (seq![','] + (json_tags_items(
            ts.skip(1),
        ) + seq![']'])));
        assert(json_str(ts[0]) + (seq![','] + (json_str(ts.skip(1)[0]) + json_tags_rest(
            ts.skip(1).skip(1),
        ))) =~= json_str(ts[0]) + json_tags_rest(ts.skip(1)));
    }
}

proof fn lemma_tags_rest_rt(ts: Seq<Seq<char>>, rest: Seq<char>)
    ensures
        sp_parse_tags_rest(json_tags_rest(ts) + rest) == Some(
            (ts, json_tags_rest(ts).len() as int),
        ),
    decreases ts.len(),
{
    let s = json_tags_rest(ts) + rest;
    if ts.len() == 0 {
        assert(s[0] == ']');
        assert(ts =~= Seq::<Seq<char>>::empty());
    } else {
        assert(s[0] == ',');
        let jtr = json_tags_rest(ts.skip(1));
        assert(s.skip(1) =~= json_str(ts[0]) + (jtr + rest));
        lemma_string_rt(ts[0], jtr + rest);
        let n = json_str(ts[0]).len() as int;
        assert(s.skip(1 + n) =~= jtr + rest);
        lemma_tags_rest_rt(ts.skip(1), rest);
        assert(seq![ts[0]] + ts.skip(1) =~= ts);
        assert(json_tags_rest(ts).len() == 1 + n + jtr.len());
    }
}

pub proof fn lemma_tags_rt(ts: Seq<Seq<char>>, rest: Seq<char>)
    ensures
        sp_parse_tags(json_tags(ts) + rest) == Some((ts, json_tags(ts).len() as int)),
{
    let s = json_tags(ts) + rest;
    assert(s[0] == '[');
    if ts.len() == 0 {
        assert(json_tags_items(ts) =~= Seq::empty());
        assert(s =~= seq!['[', ']'] + rest);
        assert(s[1] == ']');
        assert(ts =~= Seq::<Seq<char>>::empty());
        assert(json_tags(ts).len() == 2);
    } else {
        lemma_tags_decomp(ts);
        let jtr = json_tags_rest(ts.skip(1));
        assert(s =~= seq!['['] + ((json_tags_items(ts) + seq![']']) + rest));
        assert(seq!['['] + ((json_tags_items(ts) + seq![']']) + rest) =~= seq!['['] + ((json_str(
            ts[0],
        ) + jtr) + rest));
        assert(seq!['['] + ((json_str(ts[0]) + jtr) + rest) =~= seq!['['] + (json_str(ts[0]) + (jtr
            + rest)));
        assert(s[1] == (json_str(ts[0]) + (jtr + rest))[0]);
        assert(s[1] == '"');
        assert(!(s.len() >= 2 && s[0] == '[' && s[1] == ']'));
        assert(s.skip(1) =~= json_str(ts[0]) + (jtr + rest));
        lemma_string_rt(ts[0], jtr + rest);
        let n = json_str(ts[0]).len() as int;
        assert(s.skip(1 + n) =~= jtr + rest);
        lemma_tags_rest_rt(ts.skip(1), rest);
        assert(seq![ts[0]] + ts.skip(1) =~= ts);
        assert(json_tags(ts).len() == 1 + n + jtr.len());
    }
}

proof fn lemma_added_rt(v: Seq<char>, rest: Seq<char>)
    ensures
        sp_parse_added(kq(key_added()) + json_str(v) + seq!['}'] + rest) == Some(
            (v, kq(key_added()).len() + json_str(v).len() + 1 as int),
        ),
{
    let s = kq(key_added()) + json_str(v) + seq!['}'] + rest;
    let k = kq(key_added()).len() as int;
    assert(s =~= kq(key_added()) + (json_str(v) + (seq!['}'] + rest)));
    lemma_key_rt(key_added(), json_str(v) + (seq!['}'] + rest));
    assert(s.skip(k) =~= json_str(v) + (seq!['}'] + rest));
    lemma_string_rt(v, seq!['}'] + rest);
    let n = json_str(v).len() as int;
    assert(s.skip(k + n) =~= seq!['}'] + rest);
    assert(s.skip(k + n)[0] == '}');
}

proof fn lemma_tail2_rt(b: bool, v: Seq<char>, rest: Seq<char>)
    ensures
        sp_parse_tail2(kq(key_bare()) + json_bool(b) + seq![','] + kq(key_added()) + json_str(v)
            + seq!['}'] + rest) == Some(
            (
                (b, v),
                kq(key_bare()).len() + json_bool(b).len() + 1 + kq(key_added()).len() + json_str(
                    v,
                ).len() + 1 as int,
            ),
        ),
{
    let added = kq(key_added()) + json_str(v) + seq!['}'] + rest;
    let s = kq(key_bare()) + json_bool(b) + seq![','] + kq(key_added()) + json_str(v) + seq!['}']
        + rest;
    let k = kq(key_bare()).len() as int;
    assert(s =~= kq(key_bare()) + (json_bool(b) + (seq![','] + added)));
    lemma_key_rt(key_bare(), json_bool(b) + (seq![','] + added));
    assert(s.skip(k) =~= json_bool(b) + (seq![','] + added));
    lemma_bool_rt(b, seq![','] + added);
    let n = json_bool(b).len() as int;
    assert(s.skip(k + n) =~= seq![','] + added);
    assert(s.skip(k + n)[0] == ',');
    assert(s.skip(k + n + 1) =~= added);
    lemma_added_rt(v, rest);
}

#[verifier::rlimit(100)]
proof fn lemma_tail_rt(ts: Seq<Seq<char>>, b: bool, v: Seq<char>, rest: Seq<char>)
    ensures
        sp_parse_tail(kq(key_tags()) + json_tags(ts) + seq![','] + kq(key_bare()) + json_bool(b)
            + seq![','] + kq(key_added()) + json_str(v) + seq!['}'] + rest) == Some(
            (
                (ts, b, v),
                kq(key_tags()).len() + json_tags(ts).len() + 1 + kq(key_bare()).len() + json_bool(
                    b,
                ).len() + 1 + kq(key_added()).len() + json_str(v).len() + 1 as int,
            ),
        ),
{
    let t2 = kq(key_bare()) + json_bool(b) + seq![','] + kq(key_added()) + json_str(v) + seq!['}']
        + rest;
    let s = kq(key_tags()) + json_tags(ts) + seq![','] + kq(key_bare()) + json_bool(b) + seq![',']
        + kq(key_added()) + json_str(v) + seq!['}'] + rest;
    let k = kq(key_tags()).len() as int;
    assert(s =~= kq(key_tags()) + (json_tags(ts) + (seq![','] + t2)));
    lemma_key_rt(key_tags(), json_tags(ts) + (seq![','] + t2));
    assert(s.skip(k) =~= json_tags(ts) + (seq![','] + t2));
    lemma_tags_rt(ts, seq![','] + t2);
    let n = json_tags(ts).len() as int;
    assert(s.skip(k + n) =~= seq![','] + t2);
    assert(s.skip(k + n)[0] == ',');
    assert(s.skip(k + n + 1) =~= t2);
    lemma_tail2_rt(b, v, rest);
}

#[verifier::rlimit(100)]
proof fn lemma_record_head_rt(
    name: Seq<char>,
    path: Seq<char>,
    ts: Seq<Seq<char>>,
    b: bool,
    v: Seq<char>,
    tail: Seq<char>,
    m: int,
)
    requires
        sp_parse_tail(tail) == Some(((ts, b, v), m)),
    ensures
        sp_parse_project(
            seq!['{'] + kq(key_name()) + json_str(name) + seq![','] + kq(key_path()) + json_str(
                path,
            ) + seq![','] + tail,
        ) == Some(
            (
                ProjectView { name, path, tags: ts, is_bare_repo: b, added_at: v },
                1 + kq(key_name()).len() + json_str(name).len() + 1 + kq(key_path()).len()
                    + json_str(path).len() + 1 + m,
            ),
        ),
{
    let s = seq!['{'] + kq(key_name()) + json_str(name) + seq![','] + kq(key_path()) + json_str(
        path,
    ) + seq![','] + tail;
    let k1 = kq(key_name()).len() as int;
    let n1 = json_str(name).len() as int;
    let k2 = kq(key_path()).len() as int;
    let n2 = json_str(path).len() as int;
    assert(s[0] == '{');
    assert(s.skip(1) =~= kq(key_name()) + (json_str(name) + (seq![','] + (kq(key_path()) + (
    json_str(path) + (seq![','] + tail))))));
    lemma_key_rt(
        key_name(),
        json_str(name) + (seq![','] + (kq(key_path()) + (json_str(path) + (seq![','] + tail)))),
    );
    assert(s.skip(1 + k1) =~= json_str(name) + (seq![','] + (kq(key_path()) + (json_str(path) + (
    seq![','] + tail)))));
    lemma_string_rt(name, seq![','] + (kq(key_path()) + (json_str(path) + (seq![','] + tail))));
    assert(s.skip(1 + k1 + n1) =~= seq![','] + (kq(key_path()) + (json_str(path) + (seq![',']
        + tail))));
    assert(s.skip(1 + k1 + n1)[0] == ',');
    assert(s.skip(1 + k1 + n1 + 1) =~= kq(key_path()) + (json_str(path) + (seq![','] + tail)));
    lemma_key_rt(key_path(), json_str(path) + (seq![','] + tail));
    assert(s.skip(1 + k1 + n1 + 1 + k2) =~= json_str(path) + (seq![','] + tail));
    lemma_string_rt(path, seq![','] + tail);
    assert(s.skip(1 + k1 + n1 + 1 + k2 + n2) =~= seq![','] + tail);
    assert(s.skip(1 + k1 + n1 + 1 + k2 + n2)[0] == ',');
    assert(s.skip(1 + k1 + n1 + 1 + k2 + n2 + 1) =~= tail);
}

#[verifier::rlimit(100)]
pub proof fn lemma_project_rt(p: ProjectView, rest: Seq<char>)
    ensures
        sp_parse_project(project_json(p) + rest) == Some((p, project_json(p).len() as int)),
{
    let tail = kq(key_tags()) + json_tags(p.tags) + seq![','] + kq(key_bare()) + json_bool(
        p.is_bare_repo,
    ) + seq![','] + kq(key_added()) + json_str(p.added_at) + seq!['}'] + rest;
    let m = kq(key_tags()).len() + json_tags(p.tags).len() + 1 + kq(key_bare()).len() + json_bool(
        p.is_bare_repo,
    ).len() + 1 + kq(key_added()).len() + json_str(p.added_at).len() + 1 as int;
    lemma_tail_rt(p.tags, p.is_bare_repo, p.added_at, rest);
    lemma_record_head_rt(p.name, p.path, p.tags, p.is_bare_repo, p.added_at, tail, m);
    assert(project_json(p) + rest =~= seq!['{'] + kq(key_name()) + json_str(p.name) + seq![',']
        + kq(key_path()) + json_str(p.path) + seq![','] + tail);
    assert(ProjectView {
        name: p.name,
        path: p.path,
        tags: p.tags,
        is_bare_repo: p.is_bare_repo,
        added_at: p.added_at,
    } == p);
}

/// What follows the first record inside the rendered document.
pub open spec fn json_reg_rest(ps: Seq<ProjectView>) -> Seq<char>
    decreases ps.len(),
{
    if ps.len() == 0 {
        seq![']']
    } else {
        seq![','] + project_json(ps[0]) + json_reg_rest(ps.skip(1))
    }
}

proof fn lemma_reg_decomp(ps: Seq<ProjectView>)
    requires
        ps.len() >= 1,
    ensures
        json_reg_items(ps) + seq![']'] == project_json(ps[0]) + json_reg_rest(ps.skip(1)),
    decreases ps.len(),
{
    if ps.len() == 1 {
        assert(ps.skip(1) =~= Seq::<ProjectView>::empty());
        assert(json_reg_items(ps) + seq![']'] =~= project_json(ps[0]) + json_reg_rest(ps.skip(1)));
    } else {
        lemma_reg_decomp(ps.skip(1));
        assert(ps.skip(1)[0] == ps[1]);
        assert(ps.skip(1).skip(1) =~= ps.skip(2));
        assert(json_reg_items(ps) + seq![']'] =~= project_json(ps[0]) + (seq![','] + (
        json_reg_items(ps.skip(1)) + seq![']'])));
        assert(project_json(ps[0]) + (seq![','] + (project_json(ps.skip(1)[0]) + json_reg_rest(
            ps.skip(1).skip(1),
        ))) =~= project_json(ps[0]) + json_reg_rest(ps.skip(1)));
    }
}

#[verifier::rlimit(100)]
proof fn lemma_reg_rest_rt(ps: Seq<ProjectView>, rest: Seq<char>)
    ensures
        sp_parse_reg_rest(json_reg_rest(ps) + rest) == Some((ps, json_reg_rest(ps).len() as int)),
    decreases ps.len(),
{
    let s = json_reg_rest(ps) + rest;
    if ps.len() == 0 {
        assert(s[0] == ']');
        assert(ps =~= Seq::<ProjectView>::empty());
    } else {
        assert(s[0] == ',');
        let jrr = json_reg_rest(ps.skip(1));
        assert(s.skip(1) =~= project_json(ps[0]) + (jrr + rest));
        lemma_project_rt(ps[0], jrr + rest);
        let n = project_json(ps[0]).len() as int;
        assert(s.skip(1 + n) =~= jrr + rest);
        lemma_reg_rest_rt(ps.skip(1), rest);
        assert(seq![ps[0]] + ps.skip(1) =~= ps);
        assert(json_reg_rest(ps).len() == 1 + n + jrr.len());
    }
}

#[verifier::rlimit(100)]
pub proof fn lemma_registry_rt(ps: Seq<ProjectView>, rest: Seq<char>)
    ensures
        sp_parse_registry(registry_json(ps) + rest) == Some(
            (ps, registry_json(ps).len() as int),
        ),
{
    let s = registry_json(ps) + rest;
    assert(s[0] == '[');
    if ps.len() == 0 {
        assert(json_reg_items(ps) =~= Seq::empty());
        assert(s =~= seq!['[', ']'] + rest);
        assert(s[1] == ']');
        assert(ps =~= Seq::<ProjectView>::empty());
        assert(registry_json(ps).len() == 2);
    } else {
        lemma_reg_decomp(ps);
        let jrr = json_reg_rest(ps.skip(1));
        assert(s =~= seq!['['] + ((json_reg_items(ps) + seq![']']) + rest));
        assert(seq!['['] + ((json_reg_items(ps) + seq![']']) + rest) =~= seq!['['] + ((project_json(
            ps[0],
        ) + jrr) + rest));
        assert(seq!['['] + ((project_json(ps[0]) + jrr) + rest) =~= seq!['['] + (project_json(
            ps[0],
        ) + (jrr + rest)));
        assert(s[1] == (project_json(ps[0]) + (jrr + rest))[0]);
        assert(s[1] == '{');
        assert(!(s.len() >= 2 && s[0] == '[' && s[1] == ']'));
        assert(s.skip(1) =~= project_json(ps[0]) + (jrr + rest));
        lemma_project_rt(ps[0], jrr + rest);
        let n = project_json(ps[0]).len() as int;
        assert(s.skip(1 + n) =~= jrr + rest);
        lemma_reg_rest_rt(ps.skip(1), rest);
        assert(seq![ps[0]] + ps.skip(1) =~= ps);
        assert(registry_json(ps).len() == 1 + n + jrr.len());
    }
}

/// The round trip of the whole registry document: parsing what the
/// renderer produced yields the same ordered project sequence, field for
/// field, and consumes the whole text.
pub proof fn lemma_registry_round_trip(ps: Seq<ProjectView>)
    ensures
        sp_parse_registry(registry_json(ps)) == Some((ps, registry_json(ps).len() as int)),
{
    lemma_registry_rt(ps, Seq::empty());
    assert(registry_json(ps) + Seq::<char>::empty() =~= registry_json(ps));
}


// ---------------------------------------------------------------------
// The executable parser: position-indexed recognizers over the document
// text, each proved to compute exactly what the corresponding parsing
// function of the text says.
// ---------------------------------------------------------------------
/// Whether `lit` stands at position `i` of `s`.
pub(crate) fn px_lit(s: &str, i: usize, lit: &str) -> (r: bool)
    requires
        i <= s@.len(),
    ensures
        r == is_prefix(s@.skip(i as int), lit@),
{
    let n = s.unicode_len();
    let m = lit.unicode_len();
    if m > n - i {
        return false;
    }
    let mut j: usize = 0;
    while j < m
        invariant
            i <= n,
            n == s@.len(),
            m == lit@.len(),
            m <= n - i,
            j <= m,
            forall|l: int| 0 <= l < j ==> s@.skip(i as int)[l] == lit@[l],
        decreases m - j,
    {
        if s.get_char(i + j) != lit.get_char(j) {
            proof {
                assert(s@.skip(i as int)[j as int] == s@[i + j]);
                assert(is_prefix(s@.skip(i as int), lit@) ==> s@.skip(i as int).subrange(
                    0,
                    m as int,
                )[j as int] == lit@[j as int]);
            }
            return false;
        }
        j += 1;
    }
    proof {
        assert(s@.skip(i as int).subrange(0, m as int) =~= lit@);
    }
    true
}

/// What an escape character denotes.
fn unescape_char(c: char) -> (r: char)
    ensures
        r == unesc(c),
{
    if c == 'n' {
        '\n'
    } else if c == 't' {
        '\t'
    } else if c == 'r' {
        '\r'
    } else {
        c
    }
}

/// The inside of a string literal, from position `i` up to and past the
/// closing quote.
fn px_str_body(s: &str, i: usize) -> (r: Option<(String, usize)>)
    requires
        i <= s@.len(),
    ensures
        match r {
            Some(v) => sp_parse_str_body(s@.skip(i as int)) == Some((v.0@, v.1 - i as int)) && i
                < v.1 <= s@.len(),
            None => sp_parse_str_body(s@.skip(i as int)) is None,
        },
{
    let n = s.unicode_len();
    let mut acc = String::new();
    let mut j = i;
    proof {
        assert(acc@ =~= Seq::<char>::empty());
    }
    loop
        invariant
            i <= j <= n,
            n == s@.len(),
            match sp_parse_str_body(s@.skip(j as int)) {
                Some(v) => sp_parse_str_body(s@.skip(i as int)) == Some(
                    (acc@ + v.0, (j - i) + v.1),
                ),
                None => sp_parse_str_body(s@.skip(i as int)) is None,
            },
        decreases n - j,
    {
        if j == n {
            proof {
                assert(s@.skip(j as int).len() == 0);
            }
            return None;
        }
        let c = s.get_char(j);
        proof {
            assert(s@.skip(j as int)[0] == c);
        }
        if c == '"' {
            proof {
                assert(acc@ + Seq::<char>::empty() =~= acc@);
            }
            return Some((acc, j + 1));
        } else if c == '\\' {
            if j + 1 == n {
                proof {
                    assert(s@.skip(j as int).len() == 1);
                }
                return None;
            }
            let c2 = s.get_char(j + 1);
            proof {
                assert(s@.skip(j as int)[1] == c2);
            }
            if c2 == '"' || c2 == '\\' || c2 == '/' || c2 == 'n' || c2 == 't' || c2 == 'r' {
                let u = unescape_char(c2);
                let ghost acc_old = acc@;
                push_char(&mut acc, u);
                proof {
                    assert(s@.skip(j as int).skip(2) =~= s@.skip(j + 2));
                    match sp_parse_str_body(s@.skip(j + 2)) {
                        Some(v) => {
                            assert(acc_old.push(unesc(c2)) + v.0 =~= acc_old + (seq![unesc(c2)]
                                + v.0));
                        },
                        None => {},
                    }
                }
                j += 2;
            } else {
                return None;
            }
        } else {
            let ghost acc_old = acc@;
            push_char(&mut acc, c);
            proof {
                assert(s@.skip(j as int).skip(1) =~= s@.skip(j + 1));
                match sp_parse_str_body(s@.skip(j + 1)) {
                    Some(v) => {
                        assert(acc_old.push(c) + v.0 =~= acc_old + (seq![c] + v.0));
                    },
                    None => {},
                }
            }
            j += 1;
        }
    }
}

/// A whole string literal at position `i`.
fn px_string(s: &str, i: usize) -> (r: Option<(String, usize)>)
    requires
        i <= s@.len(),
    ensures
        match r {
            Some(v) => sp_parse_string(s@.skip(i as int)) == Some((v.0@, v.1 - i as int)) && i
                < v.1 <= s@.len(),
            None => sp_parse_string(s@.skip(i as int)) is None,
        },
{
    let n = s.unicode_len();
    if i == n {
        return None;
    }
    let c = s.get_char(i);
    proof {
        assert(s@.skip(i as int)[0] == c);
    }
    if c != '"' {
        return None;
    }
    proof {
        assert(s@.skip(i as int).skip(1) =~= s@.skip(i + 1));
    }
    match px_str_body(s, i + 1) {
        Some((v, j)) => Some((v, j)),
        None => None,
    }
}

/// A boolean literal at position `i`.
fn px_bool(s: &str, i: usize) -> (r: Option<(bool, usize)>)
    requires
        i <= s@.len(),
    ensures
        match r {
            Some(v) => sp_parse_bool(s@.skip(i as int)) == Some((v.0, v.1 - i as int)) && i < v.1
                <= s@.len(),
            None => sp_parse_bool(s@.skip(i as int)) is None,
        },
{
    let n = s.unicode_len();
    proof {
        reveal_strlit("true");
        reveal_strlit("false");
        assert("true"@ =~= true_chars());
        assert("false"@ =~= false_chars());
    }
    if px_lit(s, i, "true") {
        proof {
            assert(i + 4 <= n);
        }
        Some((true, i + 4))
    } else if px_lit(s, i, "false") {
        proof {
            assert(i + 5 <= n);
        }
        Some((false, i + 5))
    } else {
        None
    }
}

/// The `name` key with its colon at position `i`.
fn px_key_name(s: &str, i: usize) -> (r: Option<usize>)
    requires
        i <= s@.len(),
    ensures
        match r {
            Some(j) => sp_parse_key(s@.skip(i as int), key_name()) == Some(j - i as int) && i < j
                <= s@.len(),
            None => sp_parse_key(s@.skip(i as int), key_name()) is None,
        },
{
    let n = s.unicode_len();
    proof {
        reveal_strlit("\"name\":");
        assert("\"name\":"@ =~= kq(key_name()));
    }
    if px_lit(s, i, "\"name\":") {
        proof {
            assert(i + 7 <= n);
        }
        Some(i + 7)
    } else {
        None
    }
}

/// The `path` key with its colon at position `i`.
fn px_key_path(s: &str, i: usize) -> (r: Option<usize>)
    requires
        i <= s@.len(),
    ensures
        match r {
            Some(j) => sp_parse_key(s@.skip(i as int), key_path()) == Some(j - i as int) && i < j
                <= s@.len(),
            None => sp_parse_key(s@.skip(i as int), key_path()) is None,
        },
{
    let n = s.unicode_len();
    proof {
        reveal_strlit("\"path\":");
        assert("\"path\":"@ =~= kq(key_path()));
    }
    if px_lit(s, i, "\"path\":") {
        proof {
            assert(i + 7 <= n);
        }
        Some(i + 7)
    } else {
        None
    }
}

/// The `tags` key with its colon at position `i`.
fn px_key_tags(s: &str, i: usize) -> (r: Option<usize>)
    requires
        i <= s@.len(),
    ensures
        match r {
            Some(j) => sp_parse_key(s@.skip(i as int), key_tags()) == Some(j - i as int) && i < j
                <= s@.len(),
            None => sp_parse_key(s@.skip(i as int), key_tags()) is None,
        },
{
    let n = s.unicode_len();
    proof {
        reveal_strlit("\"tags\":");
        assert("\"tags\":"@ =~= kq(key_tags()));
    }
    if px_lit(s, i, "\"tags\":") {
        proof {
            assert(i + 7 <= n);
        }
        Some(i + 7)
    } else {
        None
    }
}

/// The `is_bare_repo` key with its colon at position `i`.
fn px_key_bare(s: &str, i: usize) -> (r: Option<usize>)
    requires
        i <= s@.len(),
    ensures
        match r {
            Some(j) => sp_parse_key(s@.skip(i as int), key_bare()) == Some(j - i as int) && i < j
                <= s@.len(),
            None => sp_parse_key(s@.skip(i as int), key_bare()) is None,
        },
{
    let n = s.unicode_len();
    proof {
        reveal_strlit("\"is_bare_repo\":");
        assert("\"is_bare_repo\":"@ =~= kq(key_bare()));
    }
    if px_lit(s, i, "\"is_bare_repo\":") {
        proof {
            assert(i + 15 <= n);
        }
        Some(i + 15)
    } else {
        None
    }
}

/// The `added_at` key with its colon at position `i`.
fn px_key_added(s: &str, i: usize) -> (r: Option<usize>)
    requires
        i <= s@.len(),
    ensures
        match r {
            Some(j) => sp_parse_key(s@.skip(i as int), key_added()) == Some(j - i as int) && i < j
                <= s@.len(),
            None => sp_parse_key(s@.skip(i as int), key_added()) is None,
        },
{
    let n = s.unicode_len();
    proof {
        reveal_strlit("\"added_at\":");
        assert("\"added_at\":"@ =~= kq(key_added()));
    }
    if px_lit(s, i, "\"added_at\":") {
        proof {
            assert(i + 11 <= n);
        }
        Some(i + 11)
    } else {
        None
    }
}

/// The tags array at position `i`.
fn px_tags(s: &str, i: usize) -> (r: Option<(Vec<String>, usize)>)
    requires
        i <= s@.len(),
    ensures
        match r {
            Some(v) => sp_parse_tags(s@.skip(i as int)) == Some(
                (v.0@.map_values(|t: String| t@), v.1 - i as int),
            ) && i < v.1 <= s@.len(),
            None => sp_parse_tags(s@.skip(i as int)) is None,
        },
{
    let n = s.unicode_len();
    if i == n {
        return None;
    }
    let c = s.get_char(i);
    proof {
        assert(s@.skip(i as int)[0] == c);
    }
    if c != '[' {
        return None;
    }
    if i + 1 < n && s.get_char(i + 1) == ']' {
        let out: Vec<String> = Vec::new();
        proof {
            assert(s@.skip(i as int)[1] == ']');
            assert(out@.map_values(|t: String| t@) =~= Seq::<Seq<char>>::empty());
        }
        return Some((out, i + 2));
    }
    proof {
        if i + 1 < n {
            assert(s@.skip(i as int)[1] == s@[i + 1]);
        }
        assert(!(s@.skip(i as int).len() >= 2 && s@.skip(i as int)[0] == '[' && s@.skip(
            i as int,
        )[1] == ']'));
        assert(s@.skip(i as int).skip(1) =~= s@.skip(i + 1));
    }
    let (t0, mut j) = match px_string(s, i + 1) {
        None => {
            return None;
        },
        Some(x) => x,
    };
    let mut out: Vec<String> = Vec::new();
    out.push(t0);
    proof {
        assert(s@.skip(i as int).skip((j - i) as int) =~= s@.skip(j as int));
        assert(out@.map_values(|t: String| t@) =~= seq![out@[0]@]);
    }
    loop
        invariant
            i < j <= n,
            n == s@.len(),
            out@.len() >= 1,
            match sp_parse_tags_rest(s@.skip(j as int)) {
                Some(v) => sp_parse_tags(s@.skip(i as int)) == Some(
                    (out@.map_values(|t: String| t@) + v.0, (j - i) + v.1),
                ),
                None => sp_parse_tags(s@.skip(i as int)) is None,
            },
        decreases n - j,
    {
        if j == n {
            proof {
                assert(s@.skip(j as int).len() == 0);
            }
            return None;
        }
        let c2 = s.get_char(j);
        proof {
            assert(s@.skip(j as int)[0] == c2);
        }
        if c2 == ']' {
            proof {
                assert(out@.map_values(|t: String| t@) + Seq::<Seq<char>>::empty()
                    =~= out@.map_values(|t: String| t@));
            }
            return Some((out, j + 1));
        }
        if c2 != ',' {
            return None;
        }
        proof {
            assert(s@.skip(j as int).skip(1) =~= s@.skip(j + 1));
        }
        let (t, j2) = match px_string(s, j + 1) {
            None => {
                return None;
            },
            Some(x) => x,
        };
        let ghost out_old = out@.map_values(|t: String| t@);
        let ghost tview = t@;
        out.push(t);
        proof {
            assert(s@.skip(j + 1).skip((j2 - j - 1) as int) =~= s@.skip(j2 as int));
            assert(s@.skip(j as int).skip((j2 - j) as int) =~= s@.skip(j2 as int));
            assert(out@.map_values(|t: String| t@) =~= out_old.push(tview));
            match sp_parse_tags_rest(s@.skip(j2 as int)) {
                Some(v) => {
                    assert(out_old.push(tview) + v.0 =~= out_old + (seq![tview] + v.0));
                },
                None => {},
            }
        }
        j = j2;
    }
}

/// The final added_at field and the closing brace, at position `i`.
fn px_added(s: &str, i: usize) -> (r: Option<(String, usize)>)
    requires
        i <= s@.len(),
    ensures
        match r {
            Some(v) => sp_parse_added(s@.skip(i as int)) == Some((v.0@, v.1 - i as int)) && i < v.1
                <= s@.len(),
            None => sp_parse_added(s@.skip(i as int)) is None,
        },
{
    let n = s.unicode_len();
    let k = match px_key_added(s, i) {
        None => {
            return None;
        },
        Some(k) => k,
    };
    proof {
        assert(s@.skip(i as int).skip((k - i) as int) =~= s@.skip(k as int));
    }
    let (v, j) = match px_string(s, k) {
        None => {
            return None;
        },
        Some(x) => x,
    };
    proof {
        assert(s@.skip(i as int).skip((j - i) as int) =~= s@.skip(j as int));
    }
    if j == n {
        return None;
    }
    let c = s.get_char(j);
    proof {
        assert(s@.skip(j as int)[0] == c);
    }
    if c != '}' {
        return None;
    }
    Some((v, j + 1))
}

/// The record past its path field, starting after the second comma, at
/// position `i`: optional is_bare_repo, then added_at.
fn px_tail2(s: &str, i: usize) -> (r: Option<((bool, String), usize)>)
    requires
        i <= s@.len(),
    ensures
        match r {
            Some(v) => sp_parse_tail2(s@.skip(i as int)) == Some(
                ((v.0.0, v.0.1@), v.1 - i as int),
            ) && i < v.1 <= s@.len(),
            None => sp_parse_tail2(s@.skip(i as int)) is None,
        },
{
    let n = s.unicode_len();
    match px_key_bare(s, i) {
        Some(k) => {
            proof {
                assert(s@.skip(i as int).skip((k - i) as int) =~= s@.skip(k as int));
            }
            let (b, j) = match px_bool(s, k) {
                None => {
                    return None;
                },
                Some(x) => x,
            };
            proof {
                assert(s@.skip(i as int).skip((j - i) as int) =~= s@.skip(j as int));
            }
            if j == n {
                return None;
            }
            let c = s.get_char(j);
            proof {
                assert(s@.skip(j as int)[0] == c);
            }
            if c != ',' {
                return None;
            }
            proof {
                assert(s@.skip(i as int).skip((j + 1 - i) as int) =~= s@.skip(j + 1));
            }
            match px_added(s, j + 1) {
                None => None,
                Some((v, j2)) => Some(((b, v), j2)),
            }
        },
        None => {
            match px_added(s, i) {
                None => None,
                Some((v, j)) => Some(((false, v), j)),
            }
        },
    }
}

/// The record past its path field at position `i`: optional tags, then
/// the rest.
fn px_tail(s: &str, i: usize) -> (r: Option<((Vec<String>, bool, String), usize)>)
    requires
        i <= s@.len(),
    ensures
        match r {
            Some(v) => sp_parse_tail(s@.skip(i as int)) == Some(
                ((v.0.0@.map_values(|t: String| t@), v.0.1, v.0.2@), v.1 - i as int),
            ) && i < v.1 <= s@.len(),
            None => sp_parse_tail(s@.skip(i as int)) is None,
        },
{
    let n = s.unicode_len();
    match px_key_tags(s, i) {
        Some(k) => {
            proof {
                assert(s@.skip(i as int).skip((k - i) as int) =~= s@.skip(k as int));
            }
            let (ts, j) = match px_tags(s, k) {
                None => {
                    return None;
                },
                Some(x) => x,
            };
            proof {
                assert(s@.skip(i as int).skip((j - i) as int) =~= s@.skip(j as int));
            }
            if j == n {
                return None;
            }
            let c = s.get_char(j);
            proof {
                assert(s@.skip(j as int)[0] == c);
            }
            if c != ',' {
                return None;
            }
            proof {
                assert(s@.skip(i as int).skip((j + 1 - i) as int) =~= s@.skip(j + 1));
            }
            match px_tail2(s, j + 1) {
                None => None,
                Some(((b, v), j2)) => Some(((ts, b, v), j2)),
            }
        },
        None => {
            match px_tail2(s, i) {
                None => None,
                Some(((b, v), j)) => {
                    let ts: Vec<String> = Vec::new();
                    proof {
                        assert(ts@.map_values(|t: String| t@) =~= Seq::<Seq<char>>::empty());
                    }
                    Some(((ts, b, v), j))
                },
            }
        },
    }
}

/// One whole project record at position `i`.
#[verifier::rlimit(100)]
fn px_project(s: &str, i: usize) -> (r: Option<(Project, usize)>)
    requires
        i <= s@.len(),
    ensures
        match r {
            Some(v) => sp_parse_project(s@.skip(i as int)) == Some((v.0@, v.1 - i as int)) && i
                < v.1 <= s@.len(),
            None => sp_parse_project(s@.skip(i as int)) is None,
        },
{
    let n = s.unicode_len();
    if i == n {
        return None;
    }
    let c0 = s.get_char(i);
    proof {
        assert(s@.skip(i as int)[0] == c0);
    }
    if c0 != '{' {
        return None;
    }
    proof {
        assert(s@.skip(i as int).skip(1) =~= s@.skip(i + 1));
    }
    let k1 = match px_key_name(s, i + 1) {
        None => {
            return None;
        },
        Some(k) => k,
    };
    proof {
        assert(s@.skip(i + 1).skip((k1 - i - 1) as int) =~= s@.skip(k1 as int));
        assert(s@.skip(i as int).skip(1 + (k1 - i - 1)) =~= s@.skip(k1 as int));
    }
    let (name, j1) = match px_string(s, k1) {
        None => {
            return None;
        },
        Some(x) => x,
    };
    proof {
        assert(s@.skip(i as int).skip((j1 - i) as int) =~= s@.skip(j1 as int));
    }
    if j1 == n {
        return None;
    }
    let c1 = s.get_char(j1);
    proof {
        assert(s@.skip(j1 as int)[0] == c1);
    }
    if c1 != ',' {
        return None;
    }
    proof {
        assert(s@.skip(i as int).skip((j1 + 1 - i) as int) =~= s@.skip(j1 + 1));
    }
    let k2 = match px_key_path(s, j1 + 1) {
        None => {
            return None;
        },
        Some(k) => k,
    };
    proof {
        assert(s@.skip(j1 + 1).skip((k2 - j1 - 1) as int) =~= s@.skip(k2 as int));
        assert(s@.skip(i as int).skip((k2 - i) as int) =~= s@.skip(k2 as int));
    }
    let (path, j2) = match px_string(s, k2) {
        None => {
            return None;
        },
        Some(x) => x,
    };
    proof {
        assert(s@.skip(i as int).skip((j2 - i) as int) =~= s@.skip(j2 as int));
    }
    if j2 == n {
        return None;
    }
    let c2 = s.get_char(j2);
    proof {
        assert(s@.skip(j2 as int)[0] == c2);
    }
    if c2 != ',' {
        return None;
    }
    proof {
        assert(s@.skip(i as int).skip((j2 + 1 - i) as int) =~= s@.skip(j2 + 1));
    }
    match px_tail(s, j2 + 1) {
        None => None,
        Some(((tags, bare, added), j3)) => {
            let p = Project { name, path, tags, is_bare_repo: bare, added_at: added };
            Some((p, j3))
        },
    }
}

/// The whole document array at position `i`.
#[verifier::rlimit(100)]
pub(crate) fn px_registry(s: &str, i: usize) -> (r: Option<(Vec<Project>, usize)>)
    requires
        i <= s@.len(),
    ensures
        match r {
            Some(v) => sp_parse_registry(s@.skip(i as int)) == Some(
                (v.0@.map_values(|p: Project| p@), v.1 - i as int),
            ) && i < v.1 <= s@.len(),
            None => sp_parse_registry(s@.skip(i as int)) is None,
        },
{
    let n = s.unicode_len();
    if i == n {
        return None;
    }
    let c = s.get_char(i);
    proof {
        assert(s@.skip(i as int)[0] == c);
    }
    if c != '[' {
        return None;
    }
    if i + 1 < n && s.get_char(i + 1) == ']' {
        let out: Vec<Project> = Vec::new();
        proof {
            assert(s@.skip(i as int)[1] == ']');
            assert(out@.map_values(|p: Project| p@) =~= Seq::<ProjectView>::empty());
        }
        return Some((out, i + 2));
    }
    proof {
        if i + 1 < n {
            assert(s@.skip(i as int)[1] == s@[i + 1]);
        }
        assert(!(s@.skip(i as int).len() >= 2 && s@.skip(i as int)[0] == '[' && s@.skip(
            i as int,
        )[1] == ']'));
        assert(s@.skip(i as int).skip(1) =~= s@.skip(i + 1));
    }
    let (p0, mut j) = match px_project(s, i + 1) {
        None => {
            return None;
        },
        Some(x) => x,
    };
    let mut out: Vec<Project> = Vec::new();
    out.push(p0);
    proof {
        assert(s@.skip(i as int).skip((j - i) as int) =~= s@.skip(j as int));
        assert(out@.map_values(|p: Project| p@) =~= seq![out@[0]@]);
    }
    loop
        invariant
            i < j <= n,
            n == s@.len(),
            out@.len() >= 1,
            match sp_parse_reg_rest(s@.skip(j as int)) {
                Some(v) => sp_parse_registry(s@.skip(i as int)) == Some(
                    (out@.map_values(|p: Project| p@) + v.0, (j - i) + v.1),
                ),
                None => sp_parse_registry(s@.skip(i as int)) is None,
            },
        decreases n - j,
    {
        if j == n {
            proof {
                assert(s@.skip(j as int).len() == 0);
            }
            return None;
        }
        let c2 = s.get_char(j);
        proof {
            assert(s@.skip(j as int)[0] == c2);
        }
        if c2 == ']' {
            proof {
                assert(out@.map_values(|p: Project| p@) + Seq::<ProjectView>::empty()
                    =~= out@.map_values(|p: Project| p@));
            }
            return Some((out, j + 1));
        }
        if c2 != ',' {
            return None;
        }
        proof {
            assert(s@.skip(j as int).skip(1) =~= s@.skip(j + 1));
        }
        let (p, j2) = match px_project(s, j + 1) {
            None => {
                return None;
            },
            Some(x) => x,
        };
        let ghost out_old = out@.map_values(|p: Project| p@);
        let ghost pview = p@;
        out.push(p);
        proof {
            assert(s@.skip(j + 1).skip((j2 - j - 1) as int) =~= s@.skip(j2 as int));
            assert(s@.skip(j as int).skip((j2 - j) as int) =~= s@.skip(j2 as int));
            assert(out@.map_values(|p: Project| p@) =~= out_old.push(pview));
            match sp_parse_reg_rest(s@.skip(j2 as int)) {
                Some(v) => {
                    assert(out_old.push(pview) + v.0 =~= out_old + (seq![pview] + v.0));
                },
                None => {},
            }
        }
        j = j2;
    }
}

// ---------------------------------------------------------------------
// The executable renderer, proved to produce exactly the rendered form.
// ---------------------------------------------------------------------
proof fn lemma_esc_snoc(s: Seq<char>, c: char)
    ensures
        esc(s.push(c)) == esc(s) + esc_char(c),
    decreases s.len(),
{
    let p = s.push(c);
    if s.len() == 0 {
        assert(p.skip(1) =~= Seq::<char>::empty());
        assert(esc(Seq::<char>::empty()) == Seq::<char>::empty());
        assert(esc(p) =~= esc(s) + esc_char(c));
    } else {
        assert(p[0] == s[0]);
        assert(p.skip(1) =~= s.skip(1).push(c));
        lemma_esc_snoc(s.skip(1), c);
        assert(esc_char(s[0]) + (esc(s.skip(1)) + esc_char(c)) =~= (esc_char(s[0]) + esc(
            s.skip(1),
        )) + esc_char(c));
    }
}

/// Appends the JSON string literal for `v`.
fn enc_str(out: &mut String, v: &str)
    ensures
        final(out)@ == old(out)@ + json_str(v@),
{
    let ghost start = out@;
    let n = v.unicode_len();
    push_char(out, '"');
    let mut k: usize = 0;
    proof {
        assert(v@.subrange(0, 0) =~= Seq::<char>::empty());
        assert(esc(v@.subrange(0, 0)) =~= Seq::<char>::empty());
        assert(out@ =~= start + seq!['"'] + esc(v@.subrange(0, 0)));
    }
    while k < n
        invariant
            k <= n,
            n == v@.len(),
            out@ == start + seq!['"'] + esc(v@.subrange(0, k as int)),
        decreases n - k,
    {
        let c = v.get_char(k);
        let ghost before = out@;
        if c == '"' || c == '\\' {
            push_char(out, '\\');
            push_char(out, c);
            proof {
                assert(out@ =~= before + esc_char(c));
            }
        } else {
            push_char(out, c);
            proof {
                assert(out@ =~= before + esc_char(c));
            }
        }
        proof {
            assert(v@.subrange(0, k + 1) =~= v@.subrange(0, k as int).push(c));
            lemma_esc_snoc(v@.subrange(0, k as int), c);
            assert((start + seq!['"'] + esc(v@.subrange(0, k as int))) + esc_char(c) =~= start
                + seq!['"'] + (esc(v@.subrange(0, k as int)) + esc_char(c)));
        }
        k += 1;
    }
    push_char(out, '"');
    proof {
        assert(v@.subrange(0, n as int) =~= v@);
        assert(out@ =~= start + (seq!['"'] + esc(v@) + seq!['"']));
    }
}

/// Appends the boolean literal for `b`.
fn enc_bool(out: &mut String, b: bool)
    ensures
        final(out)@ == old(out)@ + json_bool(b),
{
    proof {
        reveal_strlit("true");
        reveal_strlit("false");
        assert("true"@ =~= true_chars());
        assert("false"@ =~= false_chars());
    }
    if b {
        out.append("true");
    } else {
        out.append("false");
    }
}

proof fn lemma_tags_items_snoc(ts: Seq<Seq<char>>, t: Seq<char>)
    ensures
        ts.len() == 0 ==> json_tags_items(ts.push(t)) == json_str(t),
        ts.len() >= 1 ==> json_tags_items(ts.push(t)) == json_tags_items(ts) + seq![',']
            + json_str(t),
    decreases ts.len(),
{
    let p = ts.push(t);
    if ts.len() == 0 {
        assert(p.len() == 1 && p[0] == t);
    } else {
        assert(p[0] == ts[0]);
        assert(p.skip(1) =~= ts.skip(1).push(t));
        lemma_tags_items_snoc(ts.skip(1), t);
        if ts.len() == 1 {
            assert(json_tags_items(p) =~= json_tags_items(ts) + seq![','] + json_str(t));
        } else {
            assert(json_str(ts[0]) + seq![','] + (json_tags_items(ts.skip(1)) + seq![',']
                + json_str(t)) =~= (json_str(ts[0]) + seq![','] + json_tags_items(ts.skip(1)))
                + seq![','] + json_str(t));
        }
    }
}

/// Appends the tags array for `tags`.
fn enc_tags(out: &mut String, tags: &Vec<String>)
    ensures
        final(out)@ == old(out)@ + json_tags(tags@.map_values(|t: String| t@)),
{
    let ghost start = out@;
    let ghost full = tags@.map_values(|t: String| t@);
    push_char(out, '[');
    let mut k: usize = 0;
    proof {
        assert(full.subrange(0, 0) =~= Seq::<Seq<char>>::empty());
        assert(out@ =~= start + seq!['['] + json_tags_items(full.subrange(0, 0)));
    }
    while k < tags.len()
        invariant
            k <= tags.len(),
            full == tags@.map_values(|t: String| t@),
            out@ == start + seq!['['] + json_tags_items(full.subrange(0, k as int)),
        decreases tags.len() - k,
    {
        let ghost before = out@;
        if k > 0 {
            push_char(out, ',');
        }
        enc_str(out, tags[k].as_str());
        proof {
            assert(full.subrange(0, k + 1) =~= full.subrange(0, k as int).push(full[k as int]));
            lemma_tags_items_snoc(full.subrange(0, k as int), full[k as int]);
            if k > 0 {
                assert(out@ =~= before + seq![','] + json_str(full[k as int]));
                assert((start + seq!['['] + json_tags_items(full.subrange(0, k as int))) + seq![
                    ',',
                ] + json_str(full[k as int]) =~= start + seq!['['] + (json_tags_items(
                    full.subrange(0, k as int),
                ) + seq![','] + json_str(full[k as int])));
            } else {
                assert(out@ =~= before + json_str(full[k as int]));
                assert(full.subrange(0, 0) =~= Seq::<Seq<char>>::empty());
                assert(out@ =~= start + seq!['['] + json_tags_items(full.subrange(0, 1)));
            }
        }
        k += 1;
    }
    push_char(out, ']');
    proof {
        assert(full.subrange(0, tags.len() as int) =~= full);
        assert(out@ =~= start + (seq!['['] + json_tags_items(full) + seq![']']));
    }
}

/// Appends one project record.
#[verifier::rlimit(100)]
fn enc_project(out: &mut String, p: &Project)
    ensures
        final(out)@ == old(out)@ + project_json(p@),
{
    let ghost start = out@;
    proof {
        reveal_strlit("{\"name\":");
        reveal_strlit(",\"path\":");
        reveal_strlit(",\"tags\":");
        reveal_strlit(",\"is_bare_repo\":");
        reveal_strlit(",\"added_at\":");
        assert("{\"name\":"@ =~= seq!['{'] + kq(key_name()));
        assert(",\"path\":"@ =~= seq![','] + kq(key_path()));
        assert(",\"tags\":"@ =~= seq![','] + kq(key_tags()));
        assert(",\"is_bare_repo\":"@ =~= seq![','] + kq(key_bare()));
        assert(",\"added_at\":"@ =~= seq![','] + kq(key_added()));
    }
    out.append("{\"name\":");
    enc_str(out, p.name.as_str());
    out.append(",\"path\":");
    enc_str(out, p.path.as_str());
    out.append(",\"tags\":");
    enc_tags(out, &p.tags);
    out.append(",\"is_bare_repo\":");
    enc_bool(out, p.is_bare_repo);
    out.append(",\"added_at\":");
    enc_str(out, p.added_at.as_str());
    push_char(out, '}');
    proof {
        assert(out@ =~= start + project_json(p@));
    }
}

proof fn lemma_reg_items_snoc(ps: Seq<ProjectView>, p: ProjectView)
    ensures
        ps.len() == 0 ==> json_reg_items(ps.push(p)) == project_json(p),
        ps.len() >= 1 ==> json_reg_items(ps.push(p)) == json_reg_items(ps) + seq![',']
            + project_json(p),
    decreases ps.len(),
{
    let q = ps.push(p);
    if ps.len() == 0 {
        assert(q.len() == 1 && q[0] == p);
    } else {
        assert(q[0] == ps[0]);
        assert(q.skip(1) =~= ps.skip(1).push(p));
        lemma_reg_items_snoc(ps.skip(1), p);
        if ps.len() == 1 {
            assert(json_reg_items(q) =~= json_reg_items(ps) + seq![','] + project_json(p));
        } else {
            assert(project_json(ps[0]) + seq![','] + (json_reg_items(ps.skip(1)) + seq![',']
                + project_json(p)) =~= (project_json(ps[0]) + seq![','] + json_reg_items(
                ps.skip(1),
            )) + seq![','] + project_json(p));
        }
    }
}

/// Renders the whole document array for `projects`.
pub(crate) fn enc_registry(projects: &Vec<Project>) -> (r: String)
    ensures
        r@ == registry_json(projects@.map_values(|p: Project| p@)),
{
    let ghost full = projects@.map_values(|p: Project| p@);
    let mut out = String::new();
    push_char(&mut out, '[');
    let mut k: usize = 0;
    proof {
        assert(full.subrange(0, 0) =~= Seq::<ProjectView>::empty());
        assert(out@ =~= seq!['['] + json_reg_items(full.subrange(0, 0)));
    }
    while k < projects.len()
        invariant
            k <= projects.len(),
            full == projects@.map_values(|p: Project| p@),
            out@ == seq!['['] + json_reg_items(full.subrange(0, k as int)),
        decreases projects.len() - k,
    {
        let ghost before = out@;
        if k > 0 {
            push_char(&mut out, ',');
        }
        enc_project(&mut out, &projects[k]);
        proof {
            assert(full.subrange(0, k + 1) =~= full.subrange(0, k as int).push(full[k as int]));
            lemma_reg_items_snoc(full.subrange(0, k as int), full[k as int]);
            if k > 0 {
                assert(out@ =~= before + seq![','] + project_json(full[k as int]));
                assert((seq!['['] + json_reg_items(full.subrange(0, k as int))) + seq![',']
                    + project_json(full[k as int]) =~= seq!['['] + (json_reg_items(full.subrange(
                    0,
                    k as int,
                )) + seq![','] + project_json(full[k as int])));
            } else {
                assert(out@ =~= before + project_json(full[k as int]));
                assert(full.subrange(0, 0) =~= Seq::<ProjectView>::empty());
                assert(out@ =~= seq!['['] + json_reg_items(full.subrange(0, 1)));
            }
        }
        k += 1;
    }
    push_char(&mut out, ']');
    proof {
        assert(full.subrange(0, projects.len() as int) =~= full);
        assert(out@ =~= seq!['['] + json_reg_items(full) + seq![']']);
    }
    out
}


} // verus!
