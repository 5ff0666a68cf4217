//! The persisted document format: a JSON object mapping identifiers to
//! records. Writing and reading are the library's own verified codec:
//! what `save` emits, `load` parses back to an equal mapping.

use vstd::prelude::*;

use crate::models::{Role, RoleView, User, UserView};
use crate::text::{chars_vec, string_from_chars};

verus! {

// ----- serialization: spec level -----

/// The escaped form of one character inside a quoted string: quote and
/// backslash get a backslash, every other character stands as itself.
pub open spec fn spec_escape_char(c: char) -> Seq<char> {
    if c == '"' {
        seq!['\\', '"']
    } else if c == '\\' {
        seq!['\\', '\\']
    } else {
        seq![c]
    }
}

/// The escaped form of a character sequence.
pub open spec fn spec_escape(s: Seq<char>) -> Seq<char>
    decreases s.len(),
{
    if s.len() == 0 {
        Seq::empty()
    } else {
        spec_escape_char(s[0]) + spec_escape(s.skip(1))
    }
}

/// A quoted, escaped string.
pub open spec fn spec_quote(s: Seq<char>) -> Seq<char> {
    seq!['"'] + spec_escape(s) + seq!['"']
}

/// A serialized boolean.
pub open spec fn spec_ser_bool(b: bool) -> Seq<char> {
    if b {
        seq!['t', 'r', 'u', 'e']
    } else {
        seq!['f', 'a', 'l', 's', 'e']
    }
}

// ----- serialization: exec level -----

/// Appends the escaped characters of `s` from position `i` on.
fn ser_escape_into(out: &mut Vec<char>, s: &Vec<char>, i: usize)
    requires
        i <= s.len(),
    ensures
        final(out)@ == old(out)@ + spec_escape(s@.skip(i as int)),
    decreases s.len() - i,
{
    if i == s.len() {
        proof {
            assert(s@.skip(i as int) =~= Seq::<char>::empty());
            assert(out@ + spec_escape(s@.skip(i as int)) =~= out@);
        }
    } else {
        let c = s[i];
        if c == '"' {
            out.push('\\');
            out.push('"');
        } else if c == '\\' {
            out.push('\\');
            out.push('\\');
        } else {
            out.push(c);
        }
        proof {
            assert(out@ =~= old(out)@ + spec_escape_char(s@[i as int]));
        }
        ser_escape_into(out, s, i + 1);
        proof {
            assert(s@.skip(i as int).len() > 0);
            assert(s@.skip(i as int)[0] == s@[i as int]);
            assert(s@.skip(i as int).skip(1) =~= s@.skip(i as int + 1));
            assert(spec_escape(s@.skip(i as int)) == spec_escape_char(s@[i as int]) + spec_escape(
                s@.skip(i as int + 1),
            ));
            assert(out@ =~= old(out)@ + spec_escape(s@.skip(i as int)));
        }
    }
}

/// Appends the quoted, escaped form of a string.
fn ser_quote_into(out: &mut Vec<char>, s: &String)
    ensures
        final(out)@ == old(out)@ + spec_quote(s@),
{
    out.push('"');
    let cv = chars_vec(s.as_str());
    ser_escape_into(out, &cv, 0);
    out.push('"');
    proof {
        assert(cv@.skip(0) =~= s@);
        assert(out@ =~= old(out)@ + spec_quote(s@));
    }
}

/// Appends `true` or `false`.
fn ser_bool_into(out: &mut Vec<char>, b: bool)
    ensures
        final(out)@ == old(out)@ + spec_ser_bool(b),
{
    if b {
        out.push('t');
        out.push('r');
        out.push('u');
        out.push('e');
    } else {
        out.push('f');
        out.push('a');
        out.push('l');
        out.push('s');
        out.push('e');
    }
    proof {
        assert(out@ =~= old(out)@ + spec_ser_bool(b));
    }
}

/// Appends the serialized items of a string list from position `i` on.
fn ser_str_items_into(out: &mut Vec<char>, v: &Vec<String>, i: usize)
    requires
        i <= v.len(),
    ensures
        final(out)@ == old(out)@ + spec_ser_str_items(v.deep_view().skip(i as int)),
    decreases v.len() - i,
{
    let ghost dv = v.deep_view();
    if i == v.len() {
        proof {
            assert(dv.skip(i as int) =~= Seq::<Seq<char>>::empty());
            assert(out@ + spec_ser_str_items(dv.skip(i as int)) =~= out@);
        }
    } else if i + 1 == v.len() {
        ser_quote_into(out, &v[i]);
        proof {
            assert(dv.skip(i as int).len() == 1);
            assert(dv.skip(i as int)[0] == v@[i as int]@);
            assert(out@ =~= old(out)@ + spec_ser_str_items(dv.skip(i as int)));
        }
    } else {
        ser_quote_into(out, &v[i]);
        out.push(',');
        ser_str_items_into(out, v, i + 1);
        proof {
            assert(dv.skip(i as int).len() >= 2);
            assert(dv.skip(i as int)[0] == v@[i as int]@);
            assert(dv.skip(i as int).skip(1) =~= dv.skip(i as int + 1));
            assert(out@ =~= old(out)@ + spec_ser_str_items(dv.skip(i as int)));
        }
    }
}

/// Appends a serialized array of strings.
fn ser_str_array_into(out: &mut Vec<char>, v: &Vec<String>)
    ensures
        final(out)@ == old(out)@ + spec_ser_str_array(v.deep_view()),
{
    out.push('[');
    ser_str_items_into(out, v, 0);
    out.push(']');
    proof {
        assert(v.deep_view().skip(0) =~= v.deep_view());
        assert(out@ =~= old(out)@ + spec_ser_str_array(v.deep_view()));
    }
}

/// Appends `"uuid":`.
fn push_key_uuid(out: &mut Vec<char>)
    ensures
        final(out)@ == old(out)@ + key_uuid() + seq![':'],
{
    out.push('"');
    out.push('u');
    out.push('u');
    out.push('i');
    out.push('d');
    out.push('"');
    out.push(':');
    proof {
        assert(out@ =~= old(out)@ + key_uuid() + seq![':']);
    }
}

/// Appends `"full_name":`.
fn push_key_full_name(out: &mut Vec<char>)
    ensures
        final(out)@ == old(out)@ + key_full_name() + seq![':'],
{
    out.push('"');
    out.push('f');
    out.push('u');
    out.push('l');
    out.push('l');
    out.push('_');
    out.push('n');
    out.push('a');
    out.push('m');
    out.push('e');
    out.push('"');
    out.push(':');
    proof {
        assert(out@ =~= old(out)@ + key_full_name() + seq![':']);
    }
}

/// Appends `"is_blocked":`.
fn push_key_is_blocked(out: &mut Vec<char>)
    ensures
        final(out)@ == old(out)@ + key_is_blocked() + seq![':'],
{
    out.push('"');
    out.push('i');
    out.push('s');
    out.push('_');
    out.push('b');
    out.push('l');
    out.push('o');
    out.push('c');
    out.push('k');
    out.push('e');
    out.push('d');
    out.push('"');
    out.push(':');
    proof {
        assert(out@ =~= old(out)@ + key_is_blocked() + seq![':']);
    }
}

/// Appends `"roles":`.
fn push_key_roles(out: &mut Vec<char>)
    ensures
        final(out)@ == old(out)@ + key_roles() + seq![':'],
{
    out.push('"');
    out.push('r');
    out.push('o');
    out.push('l');
    out.push('e');
    out.push('s');
    out.push('"');
    out.push(':');
    proof {
        assert(out@ =~= old(out)@ + key_roles() + seq![':']);
    }
}

/// Appends `"name":`.
fn push_key_name(out: &mut Vec<char>)
    ensures
        final(out)@ == old(out)@ + key_name() + seq![':'],
{
    out.push('"');
    out.push('n');
    out.push('a');
    out.push('m');
    out.push('e');
    out.push('"');
    out.push(':');
    proof {
        assert(out@ =~= old(out)@ + key_name() + seq![':']);
    }
}

/// Appends `"description":`.
fn push_key_description(out: &mut Vec<char>)
    ensures
        final(out)@ == old(out)@ + key_description() + seq![':'],
{
    out.push('"');
    out.push('d');
    out.push('e');
    out.push('s');
    out.push('c');
    out.push('r');
    out.push('i');
    out.push('p');
    out.push('t');
    out.push('i');
    out.push('o');
    out.push('n');
    out.push('"');
    out.push(':');
    proof {
        assert(out@ =~= old(out)@ + key_description() + seq![':']);
    }
}

/// Appends a serialized user record.
#[verifier::rlimit(100)]
fn ser_user_into(out: &mut Vec<char>, u: &User)
    ensures
        final(out)@ == old(out)@ + spec_ser_user(u@),
{
    out.push('{');
    push_key_uuid(out);
    ser_quote_into(out, &u.uuid);
    out.push(',');
    let ghost p1 = seq!['{'] + key_uuid() + seq![':'] + spec_quote(u@.uuid) + seq![','];
    proof {
        assert(out@ =~= old(out)@ + p1);
    }
    push_key_full_name(out);
    ser_quote_into(out, &u.full_name);
    out.push(',');
    let ghost p2 = p1 + key_full_name() + seq![':'] + spec_quote(u@.full_name) + seq![','];
    proof {
        assert(out@ =~= old(out)@ + p2);
    }
    push_key_is_blocked(out);
    ser_bool_into(out, u.is_blocked);
    out.push(',');
    let ghost p3 = p2 + key_is_blocked() + seq![':'] + spec_ser_bool(u@.is_blocked) + seq![','];
    proof {
        assert(out@ =~= old(out)@ + p3);
    }
    push_key_roles(out);
    ser_str_array_into(out, &u.roles);
    out.push('}');
    proof {
        assert(out@ =~= old(out)@ + (p3 + key_roles() + seq![':'] + spec_ser_str_array(u@.roles)
            + seq!['}']));
        assert(p3 + key_roles() + seq![':'] + spec_ser_str_array(u@.roles) + seq!['}']
            =~= spec_ser_user(u@));
    }
}

/// Appends a serialized role record.
#[verifier::rlimit(100)]
fn ser_role_into(out: &mut Vec<char>, r: &Role)
    ensures
        final(out)@ == old(out)@ + spec_ser_role(r@),
{
    out.push('{');
    push_key_uuid(out);
    ser_quote_into(out, &r.uuid);
    out.push(',');
    let ghost p1 = seq!['{'] + key_uuid() + seq![':'] + spec_quote(r@.uuid) + seq![','];
    proof {
        assert(out@ =~= old(out)@ + p1);
    }
    push_key_name(out);
    ser_quote_into(out, &r.name);
    out.push(',');
    let ghost p2 = p1 + key_name() + seq![':'] + spec_quote(r@.name) + seq![','];
    proof {
        assert(out@ =~= old(out)@ + p2);
    }
    push_key_description(out);
    ser_quote_into(out, &r.description);
    out.push('}');
    proof {
        assert(out@ =~= old(out)@ + (p2 + key_description() + seq![':'] + spec_quote(
            r@.description,
        ) + seq!['}']));
        assert(p2 + key_description() + seq![':'] + spec_quote(r@.description) + seq!['}']
            =~= spec_ser_role(r@));
    }
}

/// Appends the serialized user entries from position `i` on.
#[verifier::rlimit(100)]
fn ser_user_entries_into(out: &mut Vec<char>, v: &Vec<(String, User)>, i: usize)
    requires
        i <= v.len(),
    ensures
        final(out)@ == old(out)@ + spec_ser_user_entries(
            crate::kvmap::entries_view(v@).skip(i as int),
        ),
    decreases v.len() - i,
{
    let ghost ev = crate::kvmap::entries_view(v@);
    if i == v.len() {
        proof {
            assert(ev.skip(i as int) =~= Seq::<(Seq<char>, UserView)>::empty());
            assert(out@ + spec_ser_user_entries(ev.skip(i as int)) =~= out@);
        }
    } else if i + 1 == v.len() {
        ser_quote_into(out, &v[i].0);
        out.push(':');
        ser_user_into(out, &v[i].1);
        proof {
            assert(ev.skip(i as int).len() == 1);
            assert(ev.skip(i as int)[0] == (v@[i as int].0@, v@[i as int].1@));
            assert(out@ =~= old(out)@ + spec_ser_user_entry(ev.skip(i as int)[0]));
            assert(out@ =~= old(out)@ + spec_ser_user_entries(ev.skip(i as int)));
        }
    } else {
        ser_quote_into(out, &v[i].0);
        out.push(':');
        ser_user_into(out, &v[i].1);
        out.push(',');
        let ghost mid = out@;
        proof {
            assert(ev.skip(i as int)[0] == (v@[i as int].0@, v@[i as int].1@));
            assert(mid =~= old(out)@ + spec_ser_user_entry(ev.skip(i as int)[0]) + seq![',']);
        }
        ser_user_entries_into(out, v, i + 1);
        proof {
            assert(ev.skip(i as int).len() >= 2);
            assert(ev.skip(i as int).skip(1) =~= ev.skip(i as int + 1));
            assert(out@ == mid + spec_ser_user_entries(ev.skip(i as int + 1)));
            assert(out@ =~= old(out)@ + spec_ser_user_entries(ev.skip(i as int)));
        }
    }
}

/// The serialized user document of these entries.
pub fn ser_users_text(v: &Vec<(String, User)>) -> (r: Vec<char>)
    ensures
        r@ == spec_ser_users(crate::kvmap::entries_view(v@)),
{
    let mut out: Vec<char> = Vec::new();
    out.push('{');
    ser_user_entries_into(&mut out, v, 0);
    out.push('}');
    proof {
        assert(crate::kvmap::entries_view(v@).skip(0) =~= crate::kvmap::entries_view(v@));
        assert(out@ =~= spec_ser_users(crate::kvmap::entries_view(v@)));
    }
    out
}

/// Appends the serialized role entries from position `i` on.
#[verifier::rlimit(100)]
fn ser_role_entries_into(out: &mut Vec<char>, v: &Vec<(String, Role)>, i: usize)
    requires
        i <= v.len(),
    ensures
        final(out)@ == old(out)@ + spec_ser_role_entries(
            crate::kvmap::entries_view(v@).skip(i as int),
        ),
    decreases v.len() - i,
{
    let ghost ev = crate::kvmap::entries_view(v@);
    if i == v.len() {
        proof {
            assert(ev.skip(i as int) =~= Seq::<(Seq<char>, RoleView)>::empty());
            assert(out@ + spec_ser_role_entries(ev.skip(i as int)) =~= out@);
        }
    } else if i + 1 == v.len() {
        ser_quote_into(out, &v[i].0);
        out.push(':');
        ser_role_into(out, &v[i].1);
        proof {
            assert(ev.skip(i as int).len() == 1);
            assert(ev.skip(i as int)[0] == (v@[i as int].0@, v@[i as int].1@));
            assert(out@ =~= old(out)@ + spec_ser_role_entry(ev.skip(i as int)[0]));
            assert(out@ =~= old(out)@ + spec_ser_role_entries(ev.skip(i as int)));
        }
    } else {
        ser_quote_into(out, &v[i].0);
        out.push(':');
        ser_role_into(out, &v[i].1);
        out.push(',');
        let ghost mid = out@;
        proof {
            assert(ev.skip(i as int)[0] == (v@[i as int].0@, v@[i as int].1@));
            assert(mid =~= old(out)@ + spec_ser_role_entry(ev.skip(i as int)[0]) + seq![',']);
        }
        ser_role_entries_into(out, v, i + 1);
        proof {
            assert(ev.skip(i as int).len() >= 2);
            assert(ev.skip(i as int).skip(1) =~= ev.skip(i as int + 1));
            assert(out@ == mid + spec_ser_role_entries(ev.skip(i as int + 1)));
            assert(out@ =~= old(out)@ + spec_ser_role_entries(ev.skip(i as int)));
        }
    }
}

/// The serialized role document of these entries.
pub fn ser_roles_text(v: &Vec<(String, Role)>) -> (r: Vec<char>)
    ensures
        r@ == spec_ser_roles(crate::kvmap::entries_view(v@)),
{
    let mut out: Vec<char> = Vec::new();
    out.push('{');
    ser_role_entries_into(&mut out, v, 0);
    out.push('}');
    proof {
        assert(crate::kvmap::entries_view(v@).skip(0) =~= crate::kvmap::entries_view(v@));
        assert(out@ =~= spec_ser_roles(crate::kvmap::entries_view(v@)));
    }
    out
}

// ----- parsing: spec level -----

/// A whitespace character between tokens.
pub open spec fn spec_is_ws(c: char) -> bool {
    c == ' ' || c == '\n' || c == '\r' || c == '\t'
}

/// The first position at or after `i` holding no whitespace.
pub open spec fn spec_ws(s: Seq<char>, i: int) -> int
    decreases s.len() - i,
{
    if 0 <= i < s.len() && spec_is_ws(s[i]) {
        spec_ws(s, i + 1)
    } else {
        i
    }
}

/// The unescaped character that a backslash escape stands for.
pub open spec fn spec_unescape_char(e: char) -> Option<char> {
    if e == '"' {
        Some('"')
    } else if e == '\\' {
        Some('\\')
    } else if e == '/' {
        Some('/')
    } else if e == 'n' {
        Some('\n')
    } else if e == 'r' {
        Some('\r')
    } else if e == 't' {
        Some('\t')
    } else if e == 'b' {
        Some('\u{8}')
    } else if e == 'f' {
        Some('\u{c}')
    } else {
        None
    }
}

/// Parses the inside of a quoted string, from just after the opening quote
/// up to and past the closing quote; yields the unescaped characters.
pub open spec fn parse_string_body(s: Seq<char>, i: int) -> Option<(Seq<char>, int)>
    decreases s.len() - i,
{
    if i < 0 || i >= s.len() {
        None
    } else if s[i] == '"' {
        Some((Seq::empty(), i + 1))
    } else if s[i] == '\\' {
        if i + 1 >= s.len() {
            None
        } else {
            match spec_unescape_char(s[i + 1]) {
                None => None,
                Some(c) => match parse_string_body(s, i + 2) {
                    None => None,
                    Some((t, j)) => Some((seq![c] + t, j)),
                },
            }
        }
    } else {
        match parse_string_body(s, i + 1) {
            None => None,
            Some((t, j)) => Some((seq![s[i]] + t, j)),
        }
    }
}

/// Parses a quoted string starting at its opening quote.
pub open spec fn parse_quoted(s: Seq<char>, i: int) -> Option<(Seq<char>, int)> {
    if 0 <= i < s.len() && s[i] == '"' {
        parse_string_body(s, i + 1)
    } else {
        None
    }
}

/// A successful string-body parse moves forward and stays inside the input.
pub proof fn lemma_string_body_advances(s: Seq<char>, i: int)
    requires
        parse_string_body(s, i) is Some,
    ensures
        i < parse_string_body(s, i)->Some_0.1 <= s.len(),
    decreases s.len() - i,
{
    if i < 0 || i >= s.len() {
    } else if s[i] == '"' {
    } else if s[i] == '\\' {
        lemma_string_body_advances(s, i + 2);
    } else {
        lemma_string_body_advances(s, i + 1);
    }
}

/// Skipping whitespace never moves backward nor past the end.
pub proof fn lemma_ws_bounds(s: Seq<char>, i: int)
    requires
        0 <= i <= s.len(),
    ensures
        i <= spec_ws(s, i) <= s.len(),
    decreases s.len() - i,
{
    if i < s.len() && spec_is_ws(s[i]) {
        lemma_ws_bounds(s, i + 1);
    }
}

/// At a non-whitespace character, skipping whitespace stands still.
pub proof fn lemma_ws_at_nonws(s: Seq<char>, i: int)
    requires
        0 <= i <= s.len(),
        i < s.len() ==> !spec_is_ws(s[i]),
    ensures
        spec_ws(s, i) == i,
{
}

// ----- the string round trip -----

/// Parsing an escaped string followed by its closing quote recovers
/// exactly the original characters.
pub proof fn lemma_parse_escape_round(t: Seq<char>, s: Seq<char>, i: int)
    requires
        0 <= i,
        i + spec_escape(t).len() + 1 <= s.len(),
        s.subrange(i, i + spec_escape(t).len() + 1) == spec_escape(t).push('"'),
    ensures
        parse_string_body(s, i) == Some((t, i + spec_escape(t).len() + 1)),
    decreases t.len(),
{
    let e = spec_escape(t);
    if t.len() == 0 {
        assert(s[i] == e.push('"')[0]);
        assert(s[i] == '"');
        assert(parse_string_body(s, i) == Some((Seq::<char>::empty(), i + 1)));
        assert(t =~= Seq::<char>::empty());
    } else {
        let c = t[0];
        let t2 = t.skip(1);
        let e2 = spec_escape(t2);
        let ec = spec_escape_char(c);
        assert(e == ec + e2);
        let sub = s.subrange(i, i + e.len() + 1);
        if c == '"' || c == '\\' {
            assert(ec.len() == 2);
            assert(s[i] == sub[0]);
            assert(s[i] == '\\');
            assert(s[i + 1] == sub[1]);
            assert(s[i + 1] == (if c == '"' {
                '"'
            } else {
                '\\'
            }));
            assert(spec_unescape_char(s[i + 1]) == Some(c));
            assert(s.subrange(i + 2, i + 2 + e2.len() + 1) =~= sub.subrange(2, 2 + e2.len() as int + 1));
            assert(sub.subrange(2, 2 + e2.len() as int + 1) =~= e2.push('"'));
            lemma_parse_escape_round(t2, s, i + 2);
            assert(parse_string_body(s, i + 2) == Some((t2, i + 2 + e2.len() + 1)));
            assert(seq![c] + t2 =~= t);
            assert(i + 2 + e2.len() + 1 == i + e.len() + 1);
        } else {
            assert(ec.len() == 1);
            assert(s[i] == sub[0]);
            assert(s[i] == c);
            assert(s[i] != '"' && s[i] != '\\');
            assert(s.subrange(i + 1, i + 1 + e2.len() + 1) =~= sub.subrange(1, 1 + e2.len() as int + 1));
            assert(sub.subrange(1, 1 + e2.len() as int + 1) =~= e2.push('"'));
            lemma_parse_escape_round(t2, s, i + 1);
            assert(parse_string_body(s, i + 1) == Some((t2, i + 1 + e2.len() + 1)));
            assert(seq![c] + t2 =~= t);
            assert(i + 1 + e2.len() + 1 == i + e.len() + 1);
        }
    }
}

/// Parsing a quoted string recovers exactly the characters it quotes.
pub proof fn lemma_parse_quoted_round(t: Seq<char>, s: Seq<char>, i: int)
    requires
        0 <= i,
        i + spec_quote(t).len() <= s.len(),
        s.subrange(i, i + spec_quote(t).len()) == spec_quote(t),
    ensures
        parse_quoted(s, i) == Some((t, i + spec_quote(t).len())),
{
    let q = spec_quote(t);
    let e = spec_escape(t);
    assert(s[i] == q[0]);
    assert(s[i] == '"');
    assert(s.subrange(i + 1, i + 1 + e.len() + 1) =~= q.subrange(1, 1 + e.len() as int + 1));
    assert(q.subrange(1, 1 + e.len() as int + 1) =~= e.push('"'));
    lemma_parse_escape_round(t, s, i + 1);
}

// ----- arrays of strings -----

/// Serialized comma-separated quoted strings, without the brackets.
pub open spec fn spec_ser_str_items(ss: Seq<Seq<char>>) -> Seq<char>
    decreases ss.len(),
{
    if ss.len() == 0 {
        Seq::empty()
    } else if ss.len() == 1 {
        spec_quote(ss[0])
    } else {
        spec_quote(ss[0]) + seq![','] + spec_ser_str_items(ss.skip(1))
    }
}

/// A serialized array of strings.
pub open spec fn spec_ser_str_array(ss: Seq<Seq<char>>) -> Seq<char> {
    seq!['['] + spec_ser_str_items(ss) + seq![']']
}

/// Parses a fixed literal.
pub open spec fn parse_lit(s: Seq<char>, i: int, lit: Seq<char>) -> Option<int> {
    if 0 <= i && i + lit.len() <= s.len() && s.subrange(i, i + lit.len() as int) == lit {
        Some(i + lit.len() as int)
    } else {
        None
    }
}

/// Parses `true` or `false`.
pub open spec fn parse_bool(s: Seq<char>, i: int) -> Option<(bool, int)> {
    match parse_lit(s, i, spec_ser_bool(true)) {
        Some(j) => Some((true, j)),
        None => match parse_lit(s, i, spec_ser_bool(false)) {
            Some(j) => Some((false, j)),
            None => None,
        },
    }
}

/// Parses one or more comma-separated quoted strings followed by the
/// closing bracket.
pub open spec fn parse_str_items(s: Seq<char>, i: int) -> Option<(Seq<Seq<char>>, int)>
    decreases s.len() - i,
    via parse_str_items_dec
{
    match parse_quoted(s, i) {
        None => None,
        Some((t, j)) => {
            let k = spec_ws(s, j);
            if k < s.len() && s[k] == ']' {
                Some((seq![t], k + 1))
            } else if k < s.len() && s[k] == ',' {
                match parse_str_items(s, spec_ws(s, k + 1)) {
                    None => None,
                    Some((ts, e)) => Some((seq![t] + ts, e)),
                }
            } else {
                None
            }
        },
    }
}

#[via_fn]
proof fn parse_str_items_dec(s: Seq<char>, i: int) {
    match parse_quoted(s, i) {
        None => {},
        Some((t, j)) => {
            lemma_string_body_advances(s, i + 1);
            lemma_ws_bounds(s, j);
            let k = spec_ws(s, j);
            if k < s.len() && s[k] == ',' {
                lemma_ws_bounds(s, k + 1);
            }
        },
    }
}

/// Parses an array of strings starting at its opening bracket.
pub open spec fn parse_str_array(s: Seq<char>, i: int) -> Option<(Seq<Seq<char>>, int)> {
    if 0 <= i < s.len() && s[i] == '[' {
        let j = spec_ws(s, i + 1);
        if j < s.len() && s[j] == ']' {
            Some((Seq::empty(), j + 1))
        } else {
            parse_str_items(s, j)
        }
    } else {
        None
    }
}

/// A successful item-list parse moves forward and stays inside the input.
pub proof fn lemma_str_items_advances(s: Seq<char>, i: int)
    requires
        parse_str_items(s, i) is Some,
    ensures
        i < parse_str_items(s, i)->Some_0.1 <= s.len(),
    decreases s.len() - i,
{
    let (t, j) = parse_quoted(s, i)->Some_0;
    lemma_string_body_advances(s, i + 1);
    lemma_ws_bounds(s, j);
    let k = spec_ws(s, j);
    if k < s.len() && s[k] == ']' {
    } else {
        lemma_ws_bounds(s, k + 1);
        lemma_str_items_advances(s, spec_ws(s, k + 1));
    }
}

/// A successful array parse moves forward and stays inside the input.
pub proof fn lemma_str_array_advances(s: Seq<char>, i: int)
    requires
        parse_str_array(s, i) is Some,
    ensures
        i < parse_str_array(s, i)->Some_0.1 <= s.len(),
{
    lemma_ws_bounds(s, i + 1);
    let j = spec_ws(s, i + 1);
    if j < s.len() && s[j] == ']' {
    } else {
        lemma_str_items_advances(s, j);
    }
}

/// Parsing a serialized boolean recovers it.
pub proof fn lemma_parse_bool_round(b: bool, s: Seq<char>, i: int)
    requires
        0 <= i,
        i + spec_ser_bool(b).len() <= s.len(),
        s.subrange(i, i + spec_ser_bool(b).len() as int) == spec_ser_bool(b),
    ensures
        parse_bool(s, i) == Some((b, i + spec_ser_bool(b).len())),
{
    if b {
    } else {
        assert(s[i] == spec_ser_bool(false)[0]);
        assert(s[i] == 'f');
        if i + 4 <= s.len() {
            assert(s.subrange(i, i + 4)[0] == 'f');
            assert(s.subrange(i, i + 4) != spec_ser_bool(true));
        }
    }
}

/// Parsing serialized items followed by the closing bracket recovers them.
pub proof fn lemma_parse_str_items_round(ss: Seq<Seq<char>>, s: Seq<char>, i: int)
    requires
        ss.len() >= 1,
        0 <= i,
        i + spec_ser_str_items(ss).len() + 1 <= s.len(),
        s.subrange(i, i + spec_ser_str_items(ss).len() + 1) == spec_ser_str_items(ss).push(']'),
    ensures
        parse_str_items(s, i) == Some((ss, i + spec_ser_str_items(ss).len() + 1)),
    decreases ss.len(),
{
    let items = spec_ser_str_items(ss);
    let q = spec_quote(ss[0]);
    if ss.len() == 1 {
        assert(items == q);
        assert(s.subrange(i, i + q.len() as int) =~= q);
        lemma_parse_quoted_round(ss[0], s, i);
        let j = i + q.len() as int;
        assert(s[j] == s.subrange(i, i + items.len() + 1)[j - i]);
        assert(s[j] == ']');
        lemma_ws_at_nonws(s, j);
        assert(parse_str_items(s, i) == Some((seq![ss[0]], j + 1)));
        assert(seq![ss[0]] =~= ss);
    } else {
        let rest = ss.skip(1);
        let items2 = spec_ser_str_items(rest);
        assert(items == q + seq![','] + items2);
        assert(s.subrange(i, i + q.len() as int) =~= q);
        lemma_parse_quoted_round(ss[0], s, i);
        let j = i + q.len() as int;
        assert(s[j] == s.subrange(i, i + items.len() + 1)[j - i]);
        assert(s[j] == ',');
        lemma_ws_at_nonws(s, j);
        let m = j + 1;
        assert(spec_ser_str_items(rest)[0] == spec_quote(rest[0])[0]) by {
            if rest.len() == 1 {
            } else {
            }
        }
        assert(s[m] == s.subrange(i, i + items.len() + 1)[m - i]);
        assert(s[m] == '"');
        lemma_ws_at_nonws(s, m);
        assert forall|k: int| 0 <= k < items2.len() + 1 implies s.subrange(
            m,
            m + items2.len() + 1,
        )[k] == items2.push(']')[k] by {
            assert(s[m + k] == s.subrange(i, i + items.len() + 1)[m - i + k]);
        }
        assert(s.subrange(m, m + items2.len() + 1) =~= items2.push(']'));
        lemma_parse_str_items_round(rest, s, m);
        assert(parse_str_items(s, m) == Some((rest, m + items2.len() + 1)));
        assert(seq![ss[0]] + rest =~= ss);
        assert(m + items2.len() + 1 == i + items.len() + 1);
    }
}

/// Parsing a serialized array of strings recovers it.
pub proof fn lemma_parse_str_array_round(ss: Seq<Seq<char>>, s: Seq<char>, i: int)
    requires
        0 <= i,
        i + spec_ser_str_array(ss).len() <= s.len(),
        s.subrange(i, i + spec_ser_str_array(ss).len() as int) == spec_ser_str_array(ss),
    ensures
        parse_str_array(s, i) == Some((ss, i + spec_ser_str_array(ss).len())),
{
    let a = spec_ser_str_array(ss);
    let items = spec_ser_str_items(ss);
    assert(s[i] == a[0]);
    assert(s[i] == '[');
    if ss.len() == 0 {
        assert(s[i + 1] == a[1]);
        assert(s[i + 1] == ']');
        lemma_ws_at_nonws(s, i + 1);
        assert(Seq::<Seq<char>>::empty() =~= ss);
    } else {
        assert(items[0] == spec_quote(ss[0])[0]) by {
            if ss.len() == 1 {
            } else {
            }
        }
        assert(s[i + 1] == a[1]);
        assert(s[i + 1] == '"');
        lemma_ws_at_nonws(s, i + 1);
        assert forall|k: int| 0 <= k < items.len() + 1 implies s.subrange(
            i + 1,
            i + 1 + items.len() + 1,
        )[k] == items.push(']')[k] by {
            assert(s[i + 1 + k] == s.subrange(i, i + a.len() as int)[1 + k]);
        }
        assert(s.subrange(i + 1, i + 1 + items.len() + 1) =~= items.push(']'));
        lemma_parse_str_items_round(ss, s, i + 1);
    }
}

// ----- records as objects -----

/// The quoted field name `uuid`.
pub open spec fn key_uuid() -> Seq<char> {
    seq!['"', 'u', 'u', 'i', 'd', '"']
}

/// The quoted field name `full_name`.
pub open spec fn key_full_name() -> Seq<char> {
    seq!['"', 'f', 'u', 'l', 'l', '_', 'n', 'a', 'm', 'e', '"']
}

/// The quoted field name `is_blocked`.
pub open spec fn key_is_blocked() -> Seq<char> {
    seq!['"', 'i', 's', '_', 'b', 'l', 'o', 'c', 'k', 'e', 'd', '"']
}

/// The quoted field name `roles`.
pub open spec fn key_roles() -> Seq<char> {
    seq!['"', 'r', 'o', 'l', 'e', 's', '"']
}

/// The quoted field name `name`.
pub open spec fn key_name() -> Seq<char> {
    seq!['"', 'n', 'a', 'm', 'e', '"']
}

/// The quoted field name `description`.
pub open spec fn key_description() -> Seq<char> {
    seq!['"', 'd', 'e', 's', 'c', 'r', 'i', 'p', 't', 'i', 'o', 'n', '"']
}

/// A serialized user record: an object with the four fields in order.
pub open spec fn spec_ser_user(u: UserView) -> Seq<char> {
    seq!['{'] + key_uuid() + seq![':'] + spec_quote(u.uuid) + seq![','] + key_full_name()
        + seq![':'] + spec_quote(u.full_name) + seq![','] + key_is_blocked() + seq![':']
        + spec_ser_bool(u.is_blocked) + seq![','] + key_roles() + seq![':'] + spec_ser_str_array(
        u.roles,
    ) + seq!['}']
}

/// A serialized role record: an object with the three fields in order.
pub open spec fn spec_ser_role(r: RoleView) -> Seq<char> {
    seq!['{'] + key_uuid() + seq![':'] + spec_quote(r.uuid) + seq![','] + key_name() + seq![':']
        + spec_quote(r.name) + seq![','] + key_description() + seq![':'] + spec_quote(
        r.description,
    ) + seq!['}']
}

/// Parses a fixed quoted field name and the colon after it, whitespace
/// allowed around both; yields the position of the value.
pub open spec fn parse_key(s: Seq<char>, i: int, key: Seq<char>) -> Option<int> {
    let a = spec_ws(s, i);
    match parse_lit(s, a, key) {
        None => None,
        Some(b) => {
            let c = spec_ws(s, b);
            if c < s.len() && s[c] == ':' {
                Some(spec_ws(s, c + 1))
            } else {
                None
            }
        },
    }
}

/// A successful key parse moves forward and stays inside the input.
pub proof fn lemma_parse_key_advances(s: Seq<char>, i: int, key: Seq<char>)
    requires
        0 <= i <= s.len(),
        key.len() > 0,
        parse_key(s, i, key) is Some,
    ensures
        i < parse_key(s, i, key)->Some_0 <= s.len(),
{
    lemma_ws_bounds(s, i);
    let a = spec_ws(s, i);
    let b = parse_lit(s, a, key)->Some_0;
    lemma_ws_bounds(s, b);
    let c = spec_ws(s, b);
    lemma_ws_bounds(s, c + 1);
}

/// The comma or closing brace that follows a field: skips whitespace and
/// reports which one stands there.
pub open spec fn parse_sep(s: Seq<char>, i: int, sep: char) -> Option<int> {
    let a = spec_ws(s, i);
    if a < s.len() && s[a] == sep {
        Some(a + 1)
    } else {
        None
    }
}

/// A successful separator parse moves forward and stays inside the input.
pub proof fn lemma_parse_sep_advances(s: Seq<char>, i: int, sep: char)
    requires
        0 <= i <= s.len(),
        parse_sep(s, i, sep) is Some,
    ensures
        i < parse_sep(s, i, sep)->Some_0 <= s.len(),
{
    lemma_ws_bounds(s, i);
}

/// Parses a user object starting at its opening brace.
pub open spec fn parse_user(s: Seq<char>, i: int) -> Option<(UserView, int)> {
    if 0 <= i < s.len() && s[i] == '{' {
        match parse_key(s, i + 1, key_uuid()) {
            None => None,
            Some(p0) => match parse_quoted(s, p0) {
                None => None,
                Some((uuid_v, p1)) => match parse_sep(s, p1, ',') {
                    None => None,
                    Some(c1) => match parse_key(s, c1, key_full_name()) {
                        None => None,
                        Some(p2) => match parse_quoted(s, p2) {
                            None => None,
                            Some((name_v, p3)) => match parse_sep(s, p3, ',') {
                                None => None,
                                Some(c3) => match parse_key(s, c3, key_is_blocked()) {
                                    None => None,
                                    Some(p4) => match parse_bool(s, p4) {
                                        None => None,
                                        Some((b_v, p5)) => match parse_sep(s, p5, ',') {
                                            None => None,
                                            Some(c5) => match parse_key(s, c5, key_roles()) {
                                                None => None,
                                                Some(p6) => match parse_str_array(s, p6) {
                                                    None => None,
                                                    Some((rs_v, p7)) => match parse_sep(
                                                        s,
                                                        p7,
                                                        '}',
                                                    ) {
                                                        None => None,
                                                        Some(p8) => Some(
                                                            (
                                                                UserView {
                                                                    uuid: uuid_v,
                                                                    full_name: name_v,
                                                                    is_blocked: b_v,
                                                                    roles: rs_v,
                                                                },
                                                                p8,
                                                            ),
                                                        ),
                                                    },
                                                },
                                            },
                                        },
                                    },
                                },
                            },
                        },
                    },
                },
            },
        }
    } else {
        None
    }
}

/// Parses a role object starting at its opening brace.
pub open spec fn parse_role(s: Seq<char>, i: int) -> Option<(RoleView, int)> {
    if 0 <= i < s.len() && s[i] == '{' {
        match parse_key(s, i + 1, key_uuid()) {
            None => None,
            Some(p0) => match parse_quoted(s, p0) {
                None => None,
                Some((uuid_v, p1)) => match parse_sep(s, p1, ',') {
                    None => None,
                    Some(c1) => match parse_key(s, c1, key_name()) {
                        None => None,
                        Some(p2) => match parse_quoted(s, p2) {
                            None => None,
                            Some((name_v, p3)) => match parse_sep(s, p3, ',') {
                                None => None,
                                Some(c3) => match parse_key(s, c3, key_description()) {
                                    None => None,
                                    Some(p4) => match parse_quoted(s, p4) {
                                        None => None,
                                        Some((desc_v, p5)) => match parse_sep(s, p5, '}') {
                                            None => None,
                                            Some(p6) => Some(
                                                (
                                                    RoleView {
                                                        uuid: uuid_v,
                                                        name: name_v,
                                                        description: desc_v,
                                                    },
                                                    p6,
                                                ),
                                            ),
                                        },
                                    },
                                },
                            },
                        },
                    },
                },
            },
        }
    } else {
        None
    }
}

/// A successful user parse moves forward and stays inside the input.
pub proof fn lemma_parse_user_advances(s: Seq<char>, i: int)
    requires
        parse_user(s, i) is Some,
    ensures
        i < parse_user(s, i)->Some_0.1 <= s.len(),
{
    let p0 = parse_key(s, i + 1, key_uuid())->Some_0;
    lemma_parse_key_advances(s, i + 1, key_uuid());
    let p1 = parse_quoted(s, p0)->Some_0.1;
    lemma_string_body_advances(s, p0 + 1);
    let c1 = parse_sep(s, p1, ',')->Some_0;
    lemma_parse_sep_advances(s, p1, ',');
    let p2 = parse_key(s, c1, key_full_name())->Some_0;
    lemma_parse_key_advances(s, c1, key_full_name());
    let p3 = parse_quoted(s, p2)->Some_0.1;
    lemma_string_body_advances(s, p2 + 1);
    let c3 = parse_sep(s, p3, ',')->Some_0;
    lemma_parse_sep_advances(s, p3, ',');
    let p4 = parse_key(s, c3, key_is_blocked())->Some_0;
    lemma_parse_key_advances(s, c3, key_is_blocked());
    let p5 = parse_bool(s, p4)->Some_0.1;
    let c5 = parse_sep(s, p5, ',')->Some_0;
    lemma_parse_sep_advances(s, p5, ',');
    let p6 = parse_key(s, c5, key_roles())->Some_0;
    lemma_parse_key_advances(s, c5, key_roles());
    let p7 = parse_str_array(s, p6)->Some_0.1;
    lemma_str_array_advances(s, p6);
    lemma_parse_sep_advances(s, p7, '}');
}

/// A successful role parse moves forward and stays inside the input.
pub proof fn lemma_parse_role_advances(s: Seq<char>, i: int)
    requires
        parse_role(s, i) is Some,
    ensures
        i < parse_role(s, i)->Some_0.1 <= s.len(),
{
    let p0 = parse_key(s, i + 1, key_uuid())->Some_0;
    lemma_parse_key_advances(s, i + 1, key_uuid());
    let p1 = parse_quoted(s, p0)->Some_0.1;
    lemma_string_body_advances(s, p0 + 1);
    let c1 = parse_sep(s, p1, ',')->Some_0;
    lemma_parse_sep_advances(s, p1, ',');
    let p2 = parse_key(s, c1, key_name())->Some_0;
    lemma_parse_key_advances(s, c1, key_name());
    let p3 = parse_quoted(s, p2)->Some_0.1;
    lemma_string_body_advances(s, p2 + 1);
    let c3 = parse_sep(s, p3, ',')->Some_0;
    lemma_parse_sep_advances(s, p3, ',');
    let p4 = parse_key(s, c3, key_description())->Some_0;
    lemma_parse_key_advances(s, c3, key_description());
    let p5 = parse_quoted(s, p4)->Some_0.1;
    lemma_string_body_advances(s, p4 + 1);
    lemma_parse_sep_advances(s, p5, '}');
}

/// Inside a window of `s` known to equal `w`, the piece of `w` at `off`
/// is also a piece of `s`.
pub proof fn lemma_sub_at(s: Seq<char>, i: int, w: Seq<char>, off: int, part: Seq<char>)
    requires
        0 <= i,
        i + w.len() <= s.len(),
        s.subrange(i, i + w.len() as int) == w,
        0 <= off,
        off + part.len() <= w.len(),
        w.subrange(off, off + part.len() as int) == part,
    ensures
        s.subrange(i + off, i + off + part.len() as int) == part,
{
    assert forall|k: int| 0 <= k < part.len() implies s.subrange(
        i + off,
        i + off + part.len() as int,
    )[k] == part[k] by {
        assert(s[i + off + k] == s.subrange(i, i + w.len() as int)[off + k]);
        assert(w[off + k] == w.subrange(off, off + part.len() as int)[k]);
    }
    assert(s.subrange(i + off, i + off + part.len() as int) =~= part);
}

/// One character of the window.
pub proof fn lemma_char_at(s: Seq<char>, i: int, w: Seq<char>, off: int)
    requires
        0 <= i,
        i + w.len() <= s.len(),
        s.subrange(i, i + w.len() as int) == w,
        0 <= off < w.len(),
    ensures
        s[i + off] == w[off],
{
    assert(s[i + off] == s.subrange(i, i + w.len() as int)[off]);
}

/// Parsing a serialized user record recovers it.
#[verifier::rlimit(100)]
pub proof fn lemma_parse_user_round(u: UserView, s: Seq<char>, i: int)
    requires
        0 <= i,
        i + spec_ser_user(u).len() <= s.len(),
        s.subrange(i, i + spec_ser_user(u).len() as int) == spec_ser_user(u),
    ensures
        parse_user(s, i) == Some((u, i + spec_ser_user(u).len())),
{
    let w = spec_ser_user(u);
    let q1 = spec_quote(u.uuid);
    let q2 = spec_quote(u.full_name);
    let bb = spec_ser_bool(u.is_blocked);
    let ar = spec_ser_str_array(u.roles);
    let o_q1: int = 8;
    let o_cm1: int = o_q1 + q1.len();
    let o_k2: int = o_cm1 + 1;
    let o_q2: int = o_k2 + 12;
    let o_cm2: int = o_q2 + q2.len();
    let o_k3: int = o_cm2 + 1;
    let o_b: int = o_k3 + 13;
    let o_cm3: int = o_b + bb.len();
    let o_k4: int = o_cm3 + 1;
    let o_a: int = o_k4 + 8;
    let o_end: int = o_a + ar.len();
    assert(w.len() == o_end + 1);

    assert(s[i] == w[0]) by { lemma_char_at(s, i, w, 0); }
    assert(w[0] == '{');

    // field `uuid`
    assert(w.subrange(1, 7) =~= key_uuid());
    lemma_sub_at(s, i, w, 1, key_uuid());
    assert(s[i + 1] == w[1]) by { lemma_char_at(s, i, w, 1); }
    lemma_ws_at_nonws(s, i + 1);
    assert(s[i + 7] == w[7]) by { lemma_char_at(s, i, w, 7); }
    assert(w[7] == ':');
    lemma_ws_at_nonws(s, i + 7);
    assert(s[i + o_q1] == w[o_q1]) by { lemma_char_at(s, i, w, o_q1); }
    assert(w[o_q1] == q1[0]);
    assert(q1[0] == '"');
    lemma_ws_at_nonws(s, i + o_q1);
    assert(parse_key(s, i + 1, key_uuid()) == Some(i + o_q1));
    assert(w.subrange(o_q1, o_q1 + q1.len() as int) =~= q1);
    lemma_sub_at(s, i, w, o_q1, q1);
    lemma_parse_quoted_round(u.uuid, s, i + o_q1);
    assert(parse_quoted(s, i + o_q1) == Some((u.uuid, i + o_cm1)));

    // separator and field `full_name`
    assert(s[i + o_cm1] == w[o_cm1]) by { lemma_char_at(s, i, w, o_cm1); }
    assert(w[o_cm1] == ',');
    lemma_ws_at_nonws(s, i + o_cm1);
    assert(parse_sep(s, i + o_cm1, ',') == Some(i + o_k2));
    assert(w.subrange(o_k2, o_k2 + 11) =~= key_full_name());
    lemma_sub_at(s, i, w, o_k2, key_full_name());
    assert(s[i + o_k2] == w[o_k2]) by { lemma_char_at(s, i, w, o_k2); }
    assert(w[o_k2] == '"');
    lemma_ws_at_nonws(s, i + o_k2);
    assert(s[i + o_k2 + 11] == w[o_k2 + 11]) by { lemma_char_at(s, i, w, o_k2 + 11); }
    assert(w[o_k2 + 11] == ':');
    lemma_ws_at_nonws(s, i + o_k2 + 11);
    assert(s[i + o_q2] == w[o_q2]) by { lemma_char_at(s, i, w, o_q2); }
    assert(w[o_q2] == q2[0]);
    assert(q2[0] == '"');
    lemma_ws_at_nonws(s, i + o_q2);
    assert(parse_key(s, i + o_k2, key_full_name()) == Some(i + o_q2));
    assert(w.subrange(o_q2, o_q2 + q2.len() as int) =~= q2);
    lemma_sub_at(s, i, w, o_q2, q2);
    lemma_parse_quoted_round(u.full_name, s, i + o_q2);
    assert(parse_quoted(s, i + o_q2) == Some((u.full_name, i + o_cm2)));

    // separator and field `is_blocked`
    assert(s[i + o_cm2] == w[o_cm2]) by { lemma_char_at(s, i, w, o_cm2); }
    assert(w[o_cm2] == ',');
    lemma_ws_at_nonws(s, i + o_cm2);
    assert(parse_sep(s, i + o_cm2, ',') == Some(i + o_k3));
    assert(w.subrange(o_k3, o_k3 + 12) =~= key_is_blocked());
    lemma_sub_at(s, i, w, o_k3, key_is_blocked());
    assert(s[i + o_k3] == w[o_k3]) by { lemma_char_at(s, i, w, o_k3); }
    assert(w[o_k3] == '"');
    lemma_ws_at_nonws(s, i + o_k3);
    assert(s[i + o_k3 + 12] == w[o_k3 + 12]) by { lemma_char_at(s, i, w, o_k3 + 12); }
    assert(w[o_k3 + 12] == ':');
    lemma_ws_at_nonws(s, i + o_k3 + 12);
    assert(s[i + o_b] == w[o_b]) by { lemma_char_at(s, i, w, o_b); }
    assert(w[o_b] == bb[0]);
    assert(bb[0] == 't' || bb[0] == 'f');
    lemma_ws_at_nonws(s, i + o_b);
    assert(parse_key(s, i + o_k3, key_is_blocked()) == Some(i + o_b));
    assert(w.subrange(o_b, o_b + bb.len() as int) =~= bb);
    lemma_sub_at(s, i, w, o_b, bb);
    lemma_parse_bool_round(u.is_blocked, s, i + o_b);
    assert(parse_bool(s, i + o_b) == Some((u.is_blocked, i + o_cm3)));

    // separator and field `roles`
    assert(s[i + o_cm3] == w[o_cm3]) by { lemma_char_at(s, i, w, o_cm3); }
    assert(w[o_cm3] == ',');
    lemma_ws_at_nonws(s, i + o_cm3);
    assert(parse_sep(s, i + o_cm3, ',') == Some(i + o_k4));
    assert(w.subrange(o_k4, o_k4 + 7) =~= key_roles());
    lemma_sub_at(s, i, w, o_k4, key_roles());
    assert(s[i + o_k4] == w[o_k4]) by { lemma_char_at(s, i, w, o_k4); }
    assert(w[o_k4] == '"');
    lemma_ws_at_nonws(s, i + o_k4);
    assert(s[i + o_k4 + 7] == w[o_k4 + 7]) by { lemma_char_at(s, i, w, o_k4 + 7); }
    assert(w[o_k4 + 7] == ':');
    lemma_ws_at_nonws(s, i + o_k4 + 7);
    assert(s[i + o_a] == w[o_a]) by { lemma_char_at(s, i, w, o_a); }
    assert(w[o_a] == ar[0]);
    assert(ar[0] == '[');
    lemma_ws_at_nonws(s, i + o_a);
    assert(parse_key(s, i + o_k4, key_roles()) == Some(i + o_a));
    assert(w.subrange(o_a, o_a + ar.len() as int) =~= ar);
    lemma_sub_at(s, i, w, o_a, ar);
    lemma_parse_str_array_round(u.roles, s, i + o_a);
    assert(parse_str_array(s, i + o_a) == Some((u.roles, i + o_end)));

    // closing brace
    assert(s[i + o_end] == w[o_end]) by { lemma_char_at(s, i, w, o_end); }
    assert(w[o_end] == '}');
    lemma_ws_at_nonws(s, i + o_end);
    assert(parse_sep(s, i + o_end, '}') == Some(i + o_end + 1));

    assert(parse_user(s, i) == Some((u, i + w.len() as int)));
}

/// Parsing a serialized role record recovers it.
#[verifier::rlimit(60)]
pub proof fn lemma_parse_role_round(r: RoleView, s: Seq<char>, i: int)
    requires
        0 <= i,
        i + spec_ser_role(r).len() <= s.len(),
        s.subrange(i, i + spec_ser_role(r).len() as int) == spec_ser_role(r),
    ensures
        parse_role(s, i) == Some((r, i + spec_ser_role(r).len())),
{
    let w = spec_ser_role(r);
    let q1 = spec_quote(r.uuid);
    let q2 = spec_quote(r.name);
    let q3 = spec_quote(r.description);
    let o_q1: int = 8;
    let o_cm1: int = o_q1 + q1.len();
    let o_k2: int = o_cm1 + 1;
    let o_q2: int = o_k2 + 7;
    let o_cm2: int = o_q2 + q2.len();
    let o_k3: int = o_cm2 + 1;
    let o_q3: int = o_k3 + 14;
    let o_end: int = o_q3 + q3.len();
    assert(w.len() == o_end + 1);

    assert(s[i] == w[0]) by { lemma_char_at(s, i, w, 0); }
    assert(w[0] == '{');

    // field `uuid`
    assert(w.subrange(1, 7) =~= key_uuid());
    lemma_sub_at(s, i, w, 1, key_uuid());
    assert(s[i + 1] == w[1]) by { lemma_char_at(s, i, w, 1); }
    lemma_ws_at_nonws(s, i + 1);
    assert(s[i + 7] == w[7]) by { lemma_char_at(s, i, w, 7); }
    assert(w[7] == ':');
    lemma_ws_at_nonws(s, i + 7);
    assert(s[i + o_q1] == w[o_q1]) by { lemma_char_at(s, i, w, o_q1); }
    assert(w[o_q1] == q1[0]);
    assert(q1[0] == '"');
    lemma_ws_at_nonws(s, i + o_q1);
    assert(parse_key(s, i + 1, key_uuid()) == Some(i + o_q1));
    assert(w.subrange(o_q1, o_q1 + q1.len() as int) =~= q1);
    lemma_sub_at(s, i, w, o_q1, q1);
    lemma_parse_quoted_round(r.uuid, s, i + o_q1);
    assert(parse_quoted(s, i + o_q1) == Some((r.uuid, i + o_cm1)));

    // separator and field `name`
    assert(s[i + o_cm1] == w[o_cm1]) by { lemma_char_at(s, i, w, o_cm1); }
    assert(w[o_cm1] == ',');
    lemma_ws_at_nonws(s, i + o_cm1);
    assert(parse_sep(s, i + o_cm1, ',') == Some(i + o_k2));
    assert(w.subrange(o_k2, o_k2 + 6) =~= key_name());
    lemma_sub_at(s, i, w, o_k2, key_name());
    assert(s[i + o_k2] == w[o_k2]) by { lemma_char_at(s, i, w, o_k2); }
    assert(w[o_k2] == '"');
    lemma_ws_at_nonws(s, i + o_k2);
    assert(s[i + o_k2 + 6] == w[o_k2 + 6]) by { lemma_char_at(s, i, w, o_k2 + 6); }
    assert(w[o_k2 + 6] == ':');
    lemma_ws_at_nonws(s, i + o_k2 + 6);
    assert(s[i + o_q2] == w[o_q2]) by { lemma_char_at(s, i, w, o_q2); }
    assert(w[o_q2] == q2[0]);
    assert(q2[0] == '"');
    lemma_ws_at_nonws(s, i + o_q2);
    assert(parse_key(s, i + o_k2, key_name()) == Some(i + o_q2));
    assert(w.subrange(o_q2, o_q2 + q2.len() as int) =~= q2);
    lemma_sub_at(s, i, w, o_q2, q2);
    lemma_parse_quoted_round(r.name, s, i + o_q2);
    assert(parse_quoted(s, i + o_q2) == Some((r.name, i + o_cm2)));

    // separator and field `description`
    assert(s[i + o_cm2] == w[o_cm2]) by { lemma_char_at(s, i, w, o_cm2); }
    assert(w[o_cm2] == ',');
    lemma_ws_at_nonws(s, i + o_cm2);
    assert(parse_sep(s, i + o_cm2, ',') == Some(i + o_k3));
    assert(w.subrange(o_k3, o_k3 + 13) =~= key_description());
    lemma_sub_at(s, i, w, o_k3, key_description());
    assert(s[i + o_k3] == w[o_k3]) by { lemma_char_at(s, i, w, o_k3); }
    assert(w[o_k3] == '"');
    lemma_ws_at_nonws(s, i + o_k3);
    assert(s[i + o_k3 + 13] == w[o_k3 + 13]) by { lemma_char_at(s, i, w, o_k3 + 13); }
    assert(w[o_k3 + 13] == ':');
    lemma_ws_at_nonws(s, i + o_k3 + 13);
    assert(s[i + o_q3] == w[o_q3]) by { lemma_char_at(s, i, w, o_q3); }
    assert(w[o_q3] == q3[0]);
    assert(q3[0] == '"');
    lemma_ws_at_nonws(s, i + o_q3);
    assert(parse_key(s, i + o_k3, key_description()) == Some(i + o_q3));
    assert(w.subrange(o_q3, o_q3 + q3.len() as int) =~= q3);
    lemma_sub_at(s, i, w, o_q3, q3);
    lemma_parse_quoted_round(r.description, s, i + o_q3);
    assert(parse_quoted(s, i + o_q3) == Some((r.description, i + o_end)));

    // closing brace
    assert(s[i + o_end] == w[o_end]) by { lemma_char_at(s, i, w, o_end); }
    assert(w[o_end] == '}');
    lemma_ws_at_nonws(s, i + o_end);
    assert(parse_sep(s, i + o_end, '}') == Some(i + o_end + 1));

    assert(parse_role(s, i) == Some((r, i + w.len() as int)));
}

// ----- whole documents -----

/// One serialized user entry: quoted key, colon, record.
pub open spec fn spec_ser_user_entry(e: (Seq<char>, UserView)) -> Seq<char> {
    spec_quote(e.0) + seq![':'] + spec_ser_user(e.1)
}

/// Serialized comma-separated user entries, without the braces.
pub open spec fn spec_ser_user_entries(es: Seq<(Seq<char>, UserView)>) -> Seq<char>
    decreases es.len(),
{
    if es.len() == 0 {
        Seq::empty()
    } else if es.len() == 1 {
        spec_ser_user_entry(es[0])
    } else {
        spec_ser_user_entry(es[0]) + seq![','] + spec_ser_user_entries(es.skip(1))
    }
}

/// The serialized user document: an object holding every entry in order.
pub open spec fn spec_ser_users(es: Seq<(Seq<char>, UserView)>) -> Seq<char> {
    seq!['{'] + spec_ser_user_entries(es) + seq!['}']
}

/// One serialized role entry.
pub open spec fn spec_ser_role_entry(e: (Seq<char>, RoleView)) -> Seq<char> {
    spec_quote(e.0) + seq![':'] + spec_ser_role(e.1)
}

/// Serialized comma-separated role entries, without the braces.
pub open spec fn spec_ser_role_entries(es: Seq<(Seq<char>, RoleView)>) -> Seq<char>
    decreases es.len(),
{
    if es.len() == 0 {
        Seq::empty()
    } else if es.len() == 1 {
        spec_ser_role_entry(es[0])
    } else {
        spec_ser_role_entry(es[0]) + seq![','] + spec_ser_role_entries(es.skip(1))
    }
}

/// The serialized role document.
pub open spec fn spec_ser_roles(es: Seq<(Seq<char>, RoleView)>) -> Seq<char> {
    seq!['{'] + spec_ser_role_entries(es) + seq!['}']
}

/// Parses one or more user entries followed by the closing brace.
pub open spec fn parse_user_entries(s: Seq<char>, i: int) -> Option<
    (Seq<(Seq<char>, UserView)>, int),
>
    decreases s.len() - i,
    via parse_user_entries_dec
{
    match parse_quoted(s, i) {
        None => None,
        Some((k, j)) => {
            let c = spec_ws(s, j);
            if c < s.len() && s[c] == ':' {
                match parse_user(s, spec_ws(s, c + 1)) {
                    None => None,
                    Some((u, m)) => {
                        let e = spec_ws(s, m);
                        if e < s.len() && s[e] == '}' {
                            Some((seq![(k, u)], e + 1))
                        } else if e < s.len() && s[e] == ',' {
                            match parse_user_entries(s, spec_ws(s, e + 1)) {
                                None => None,
                                Some((es, f)) => Some((seq![(k, u)] + es, f)),
                            }
                        } else {
                            None
                        }
                    },
                }
            } else {
                None
            }
        },
    }
}

#[via_fn]
proof fn parse_user_entries_dec(s: Seq<char>, i: int) {
    match parse_quoted(s, i) {
        None => {},
        Some((k, j)) => {
            lemma_string_body_advances(s, i + 1);
            lemma_ws_bounds(s, j);
            let c = spec_ws(s, j);
            if c < s.len() && s[c] == ':' {
                lemma_ws_bounds(s, c + 1);
                let p = spec_ws(s, c + 1);
                match parse_user(s, p) {
                    None => {},
                    Some((u, m)) => {
                        lemma_parse_user_advances(s, p);
                        lemma_ws_bounds(s, m);
                        let e = spec_ws(s, m);
                        if e < s.len() && s[e] == ',' {
                            lemma_ws_bounds(s, e + 1);
                        }
                    },
                }
            }
        },
    }
}

/// Parses one or more role entries followed by the closing brace.
pub open spec fn parse_role_entries(s: Seq<char>, i: int) -> Option<
    (Seq<(Seq<char>, RoleView)>, int),
>
    decreases s.len() - i,
    via parse_role_entries_dec
{
    match parse_quoted(s, i) {
        None => None,
        Some((k, j)) => {
            let c = spec_ws(s, j);
            if c < s.len() && s[c] == ':' {
                match parse_role(s, spec_ws(s, c + 1)) {
                    None => None,
                    Some((u, m)) => {
                        let e = spec_ws(s, m);
                        if e < s.len() && s[e] == '}' {
                            Some((seq![(k, u)], e + 1))
                        } else if e < s.len() && s[e] == ',' {
                            match parse_role_entries(s, spec_ws(s, e + 1)) {
                                None => None,
                                Some((es, f)) => Some((seq![(k, u)] + es, f)),
                            }
                        } else {
                            None
                        }
                    },
                }
            } else {
                None
            }
        },
    }
}

#[via_fn]
proof fn parse_role_entries_dec(s: Seq<char>, i: int) {
    match parse_quoted(s, i) {
        None => {},
        Some((k, j)) => {
            lemma_string_body_advances(s, i + 1);
            lemma_ws_bounds(s, j);
            let c = spec_ws(s, j);
            if c < s.len() && s[c] == ':' {
                lemma_ws_bounds(s, c + 1);
                let p = spec_ws(s, c + 1);
                match parse_role(s, p) {
                    None => {},
                    Some((u, m)) => {
                        lemma_parse_role_advances(s, p);
                        lemma_ws_bounds(s, m);
                        let e = spec_ws(s, m);
                        if e < s.len() && s[e] == ',' {
                            lemma_ws_bounds(s, e + 1);
                        }
                    },
                }
            }
        },
    }
}

/// Parses a whole user document: one object, nothing but whitespace after.
pub open spec fn parse_users_doc(s: Seq<char>) -> Option<Seq<(Seq<char>, UserView)>> {
    let i = spec_ws(s, 0);
    if i < s.len() && s[i] == '{' {
        let j = spec_ws(s, i + 1);
        if j < s.len() && s[j] == '}' {
            if spec_ws(s, j + 1) == s.len() {
                Some(Seq::empty())
            } else {
                None
            }
        } else {
            match parse_user_entries(s, j) {
                None => None,
                Some((es, f)) => {
                    if spec_ws(s, f) == s.len() {
                        Some(es)
                    } else {
                        None
                    }
                },
            }
        }
    } else {
        None
    }
}

/// Parses a whole role document.
pub open spec fn parse_roles_doc(s: Seq<char>) -> Option<Seq<(Seq<char>, RoleView)>> {
    let i = spec_ws(s, 0);
    if i < s.len() && s[i] == '{' {
        let j = spec_ws(s, i + 1);
        if j < s.len() && s[j] == '}' {
            if spec_ws(s, j + 1) == s.len() {
                Some(Seq::empty())
            } else {
                None
            }
        } else {
            match parse_role_entries(s, j) {
                None => None,
                Some((es, f)) => {
                    if spec_ws(s, f) == s.len() {
                        Some(es)
                    } else {
                        None
                    }
                },
            }
        }
    } else {
        None
    }
}

/// Parsing serialized user entries followed by the closing brace
/// recovers them.
#[verifier::rlimit(100)]
pub proof fn lemma_parse_user_entries_round(
    es: Seq<(Seq<char>, UserView)>,
    s: Seq<char>,
    i: int,
)
    requires
        es.len() >= 1,
        0 <= i,
        i + spec_ser_user_entries(es).len() + 1 <= s.len(),
        s.subrange(i, i + spec_ser_user_entries(es).len() + 1) == spec_ser_user_entries(es).push(
            '}',
        ),
    ensures
        parse_user_entries(s, i) == Some((es, i + spec_ser_user_entries(es).len() + 1)),
    decreases es.len(),
{
    let all = spec_ser_user_entries(es);
    let w = all.push('}');
    let q = spec_quote(es[0].0);
    let uw = spec_ser_user(es[0].1);
    let entry = spec_ser_user_entry(es[0]);
    let o_colon: int = q.len() as int;
    let o_u: int = o_colon + 1;
    let o_sep: int = o_u + uw.len();
    assert(entry.len() == o_sep);

    assert(w.subrange(0, q.len() as int) =~= q);
    lemma_sub_at(s, i, w, 0, q);
    lemma_parse_quoted_round(es[0].0, s, i);
    assert(parse_quoted(s, i) == Some((es[0].0, i + o_colon)));
    assert(s[i + o_colon] == w[o_colon]) by { lemma_char_at(s, i, w, o_colon); }
    assert(w[o_colon] == ':');
    lemma_ws_at_nonws(s, i + o_colon);
    assert(s[i + o_u] == w[o_u]) by { lemma_char_at(s, i, w, o_u); }
    assert(w[o_u] == uw[0]);
    assert(uw[0] == '{');
    lemma_ws_at_nonws(s, i + o_u);
    assert(w.subrange(o_u, o_u + uw.len() as int) =~= uw);
    lemma_sub_at(s, i, w, o_u, uw);
    lemma_parse_user_round(es[0].1, s, i + o_u);
    assert(parse_user(s, i + o_u) == Some((es[0].1, i + o_sep)));

    if es.len() == 1 {
        assert(all == entry);
        assert(s[i + o_sep] == w[o_sep]) by { lemma_char_at(s, i, w, o_sep); }
        assert(w[o_sep] == '}');
        lemma_ws_at_nonws(s, i + o_sep);
        assert(parse_user_entries(s, i) == Some((seq![(es[0].0, es[0].1)], i + o_sep + 1)));
        assert(seq![(es[0].0, es[0].1)] =~= es);
    } else {
        let rest = es.skip(1);
        let all2 = spec_ser_user_entries(rest);
        assert(all == entry + seq![','] + all2);
        assert(s[i + o_sep] == w[o_sep]) by { lemma_char_at(s, i, w, o_sep); }
        assert(w[o_sep] == ',');
        lemma_ws_at_nonws(s, i + o_sep);
        let m = i + o_sep + 1;
        assert(all2[0] == spec_quote(rest[0].0)[0]) by {
            if rest.len() == 1 {
            } else {
            }
        }
        assert(s[m] == w[o_sep + 1]) by { lemma_char_at(s, i, w, o_sep + 1); }
        assert(s[m] == '"');
        lemma_ws_at_nonws(s, m);
        assert forall|k: int| 0 <= k < all2.len() + 1 implies s.subrange(
            m,
            m + all2.len() + 1,
        )[k] == all2.push('}')[k] by {
            assert(s[m + k] == s.subrange(i, i + all.len() + 1)[o_sep + 1 + k]);
        }
        assert(s.subrange(m, m + all2.len() + 1) =~= all2.push('}'));
        lemma_parse_user_entries_round(rest, s, m);
        assert(parse_user_entries(s, m) == Some((rest, m + all2.len() + 1)));
        assert(seq![(es[0].0, es[0].1)] + rest =~= es);
        assert(m + all2.len() + 1 == i + all.len() + 1);
    }
}

/// Parsing serialized role entries followed by the closing brace
/// recovers them.
#[verifier::rlimit(100)]
pub proof fn lemma_parse_role_entries_round(
    es: Seq<(Seq<char>, RoleView)>,
    s: Seq<char>,
    i: int,
)
    requires
        es.len() >= 1,
        0 <= i,
        i + spec_ser_role_entries(es).len() + 1 <= s.len(),
        s.subrange(i, i + spec_ser_role_entries(es).len() + 1) == spec_ser_role_entries(es).push(
            '}',
        ),
    ensures
        parse_role_entries(s, i) == Some((es, i + spec_ser_role_entries(es).len() + 1)),
    decreases es.len(),
{
    let all = spec_ser_role_entries(es);
    let w = all.push('}');
    let q = spec_quote(es[0].0);
    let uw = spec_ser_role(es[0].1);
    let entry = spec_ser_role_entry(es[0]);
    let o_colon: int = q.len() as int;
    let o_u: int = o_colon + 1;
    let o_sep: int = o_u + uw.len();
    assert(entry.len() == o_sep);

    assert(w.subrange(0, q.len() as int) =~= q);
    lemma_sub_at(s, i, w, 0, q);
    lemma_parse_quoted_round(es[0].0, s, i);
    assert(parse_quoted(s, i) == Some((es[0].0, i + o_colon)));
    assert(s[i + o_colon] == w[o_colon]) by { lemma_char_at(s, i, w, o_colon); }
    assert(w[o_colon] == ':');
    lemma_ws_at_nonws(s, i + o_colon);
    assert(s[i + o_u] == w[o_u]) by { lemma_char_at(s, i, w, o_u); }
    assert(w[o_u] == uw[0]);
    assert(uw[0] == '{');
    lemma_ws_at_nonws(s, i + o_u);
    assert(w.subrange(o_u, o_u + uw.len() as int) =~= uw);
    lemma_sub_at(s, i, w, o_u, uw);
    lemma_parse_role_round(es[0].1, s, i + o_u);
    assert(parse_role(s, i + o_u) == Some((es[0].1, i + o_sep)));

    if es.len() == 1 {
        assert(all == entry);
        assert(s[i + o_sep] == w[o_sep]) by { lemma_char_at(s, i, w, o_sep); }
        assert(w[o_sep] == '}');
        lemma_ws_at_nonws(s, i + o_sep);
        assert(parse_role_entries(s, i) == Some((seq![(es[0].0, es[0].1)], i + o_sep + 1)));
        assert(seq![(es[0].0, es[0].1)] =~= es);
    } else {
        let rest = es.skip(1);
        let all2 = spec_ser_role_entries(rest);
        assert(all == entry + seq![','] + all2);
        assert(s[i + o_sep] == w[o_sep]) by { lemma_char_at(s, i, w, o_sep); }
        assert(w[o_sep] == ',');
        lemma_ws_at_nonws(s, i + o_sep);
        let m = i + o_sep + 1;
        assert(all2[0] == spec_quote(rest[0].0)[0]) by {
            if rest.len() == 1 {
            } else {
            }
        }
        assert(s[m] == w[o_sep + 1]) by { lemma_char_at(s, i, w, o_sep + 1); }
        assert(s[m] == '"');
        lemma_ws_at_nonws(s, m);
        assert forall|k: int| 0 <= k < all2.len() + 1 implies s.subrange(
            m,
            m + all2.len() + 1,
        )[k] == all2.push('}')[k] by {
            assert(s[m + k] == s.subrange(i, i + all.len() + 1)[o_sep + 1 + k]);
        }
        assert(s.subrange(m, m + all2.len() + 1) =~= all2.push('}'));
        lemma_parse_role_entries_round(rest, s, m);
        assert(parse_role_entries(s, m) == Some((rest, m + all2.len() + 1)));
        assert(seq![(es[0].0, es[0].1)] + rest =~= es);
        assert(m + all2.len() + 1 == i + all.len() + 1);
    }
}

/// The round trip of a user document: parsing what was serialized
/// recovers exactly the serialized entries.
pub proof fn lemma_users_round_trip(es: Seq<(Seq<char>, UserView)>)
    ensures
        parse_users_doc(spec_ser_users(es)) == Some(es),
{
    let s = spec_ser_users(es);
    let all = spec_ser_user_entries(es);
    assert(s[0] == '{');
    lemma_ws_at_nonws(s, 0);
    if es.len() == 0 {
        assert(s.len() == 2);
        assert(s[1] == '}');
        lemma_ws_at_nonws(s, 1);
        lemma_ws_at_nonws(s, 2);
        assert(parse_users_doc(s) == Some(Seq::<(Seq<char>, UserView)>::empty()));
        assert(Seq::<(Seq<char>, UserView)>::empty() =~= es);
    } else {
        assert(all[0] == spec_quote(es[0].0)[0]) by {
            if es.len() == 1 {
            } else {
            }
        }
        assert(s[1] == all[0]);
        assert(s[1] == '"');
        lemma_ws_at_nonws(s, 1);
        assert(s.subrange(1, 1 + all.len() as int + 1) =~= all.push('}'));
        lemma_parse_user_entries_round(es, s, 1);
        assert(parse_user_entries(s, 1) == Some((es, s.len() as int)));
        lemma_ws_at_nonws(s, s.len() as int);
    }
}

/// The round trip of a role document.
pub proof fn lemma_roles_round_trip(es: Seq<(Seq<char>, RoleView)>)
    ensures
        parse_roles_doc(spec_ser_roles(es)) == Some(es),
{
    let s = spec_ser_roles(es);
    let all = spec_ser_role_entries(es);
    assert(s[0] == '{');
    lemma_ws_at_nonws(s, 0);
    if es.len() == 0 {
        assert(s.len() == 2);
        assert(s[1] == '}');
        lemma_ws_at_nonws(s, 1);
        lemma_ws_at_nonws(s, 2);
        assert(parse_roles_doc(s) == Some(Seq::<(Seq<char>, RoleView)>::empty()));
        assert(Seq::<(Seq<char>, RoleView)>::empty() =~= es);
    } else {
        assert(all[0] == spec_quote(es[0].0)[0]) by {
            if es.len() == 1 {
            } else {
            }
        }
        assert(s[1] == all[0]);
        assert(s[1] == '"');
        lemma_ws_at_nonws(s, 1);
        assert(s.subrange(1, 1 + all.len() as int + 1) =~= all.push('}'));
        lemma_parse_role_entries_round(es, s, 1);
        assert(parse_role_entries(s, 1) == Some((es, s.len() as int)));
        lemma_ws_at_nonws(s, s.len() as int);
    }
}

// ----- parsing: exec level -----

/// Skips whitespace.
fn ws_exec(s: &Vec<char>, i: usize) -> (r: usize)
    requires
        i <= s.len(),
    ensures
        r as int == spec_ws(s@, i as int),
        i <= r <= s.len(),
    decreases s.len() - i,
{
    if i < s.len() {
        let c = s[i];
        if c == ' ' || c == '\n' || c == '\r' || c == '\t' {
            ws_exec(s, i + 1)
        } else {
            i
        }
    } else {
        i
    }
}

/// Compares a fixed literal against the input.
#[verifier::loop_isolation(false)]
fn parse_lit_exec(s: &Vec<char>, i: usize, lit: &Vec<char>) -> (r: Option<usize>)
    requires
        i <= s.len(),
    ensures
        match r {
            Some(j) => parse_lit(s@, i as int, lit@) == Some(j as int) && i <= j <= s.len(),
            None => parse_lit(s@, i as int, lit@) is None,
        },
{
    if s.len() - i < lit.len() {
        return None;
    }
    let mut k: usize = 0;
    while k < lit.len()
        invariant
            k <= lit.len(),
            forall|m: int| 0 <= m < k ==> s@[i + m] == lit@[m],
        decreases lit.len() - k,
    {
        if s[i + k] != lit[k] {
            proof {
                assert(s@.subrange(i as int, i as int + lit@.len() as int)[k as int] == s@[i
                    + k]);
            }
            return None;
        }
        k = k + 1;
    }
    proof {
        assert(s@.subrange(i as int, i as int + lit@.len() as int) =~= lit@);
    }
    Some(i + lit.len())
}

/// The unescaped character of an escape, as the parser accepts it.
fn unescape_char_exec(e: char) -> (r: Option<char>)
    ensures
        r == spec_unescape_char(e),
{
    if e == '"' {
        Some('"')
    } else if e == '\\' {
        Some('\\')
    } else if e == '/' {
        Some('/')
    } else if e == 'n' {
        Some('\n')
    } else if e == 'r' {
        Some('\r')
    } else if e == 't' {
        Some('\t')
    } else if e == 'b' {
        Some('\u{8}')
    } else if e == 'f' {
        Some('\u{c}')
    } else {
        None
    }
}

/// Parses the inside of a quoted string.
fn parse_string_body_exec(s: &Vec<char>, i: usize) -> (r: Option<(Vec<char>, usize)>)
    requires
        i <= s.len(),
    ensures
        match r {
            Some(t) => parse_string_body(s@, i as int) == Some((t.0@, t.1 as int)) && i < t.1
                <= s.len(),
            None => parse_string_body(s@, i as int) is None,
        },
    decreases s.len() - i,
{
    if i >= s.len() {
        return None;
    }
    let c = s[i];
    if c == '"' {
        let t: Vec<char> = Vec::new();
        proof {
            assert(t@ =~= Seq::<char>::empty());
        }
        return Some((t, i + 1));
    }
    if c == '\\' {
        if s.len() - i < 2 {
            return None;
        }
        let e = s[i + 1];
        match unescape_char_exec(e) {
            None => None,
            Some(u) => {
                match parse_string_body_exec(s, i + 2) {
                    None => None,
                    Some((mut t, j)) => {
                        let ghost tv = t@;
                        t.insert(0, u);
                        proof {
                            assert(t@ =~= seq![u] + tv);
                        }
                        Some((t, j))
                    },
                }
            },
        }
    } else {
        match parse_string_body_exec(s, i + 1) {
            None => None,
            Some((mut t, j)) => {
                let ghost tv = t@;
                t.insert(0, c);
                proof {
                    assert(t@ =~= seq![s@[i as int]] + tv);
                }
                Some((t, j))
            },
        }
    }
}

/// Parses a quoted string.
fn parse_quoted_exec(s: &Vec<char>, i: usize) -> (r: Option<(Vec<char>, usize)>)
    requires
        i <= s.len(),
    ensures
        match r {
            Some(t) => parse_quoted(s@, i as int) == Some((t.0@, t.1 as int)) && i < t.1
                <= s.len(),
            None => parse_quoted(s@, i as int) is None,
        },
{
    if i < s.len() && s[i] == '"' {
        parse_string_body_exec(s, i + 1)
    } else {
        None
    }
}

/// The characters of `true`.
fn lit_true() -> (v: Vec<char>)
    ensures
        v@ == spec_ser_bool(true),
{
    let mut v: Vec<char> = Vec::new();
    v.push('t');
    v.push('r');
    v.push('u');
    v.push('e');
    proof {
        assert(v@ =~= spec_ser_bool(true));
    }
    v
}

/// The characters of `false`.
fn lit_false() -> (v: Vec<char>)
    ensures
        v@ == spec_ser_bool(false),
{
    let mut v: Vec<char> = Vec::new();
    v.push('f');
    v.push('a');
    v.push('l');
    v.push('s');
    v.push('e');
    proof {
        assert(v@ =~= spec_ser_bool(false));
    }
    v
}

/// Parses `true` or `false`.
fn parse_bool_exec(s: &Vec<char>, i: usize) -> (r: Option<(bool, usize)>)
    requires
        i <= s.len(),
    ensures
        match r {
            Some(t) => parse_bool(s@, i as int) == Some((t.0, t.1 as int)) && i < t.1 <= s.len(),
            None => parse_bool(s@, i as int) is None,
        },
{
    let tl = lit_true();
    match parse_lit_exec(s, i, &tl) {
        Some(j) => Some((true, j)),
        None => {
            let fl = lit_false();
            match parse_lit_exec(s, i, &fl) {
                Some(j) => Some((false, j)),
                None => None,
            }
        },
    }
}

/// Skips whitespace and takes one expected separator character.
fn parse_sep_exec(s: &Vec<char>, i: usize, sep: char) -> (r: Option<usize>)
    requires
        i <= s.len(),
    ensures
        match r {
            Some(j) => parse_sep(s@, i as int, sep) == Some(j as int) && i < j <= s.len(),
            None => parse_sep(s@, i as int, sep) is None,
        },
{
    let a = ws_exec(s, i);
    if a < s.len() && s[a] == sep {
        Some(a + 1)
    } else {
        None
    }
}

/// Parses a fixed quoted field name and its colon.
fn parse_key_exec(s: &Vec<char>, i: usize, lit: &Vec<char>) -> (r: Option<usize>)
    requires
        i <= s.len(),
    ensures
        match r {
            Some(j) => parse_key(s@, i as int, lit@) == Some(j as int) && i <= j <= s.len(),
            None => parse_key(s@, i as int, lit@) is None,
        },
{
    let a = ws_exec(s, i);
    match parse_lit_exec(s, a, lit) {
        None => None,
        Some(b) => {
            let c = ws_exec(s, b);
            if c < s.len() && s[c] == ':' {
                Some(ws_exec(s, c + 1))
            } else {
                None
            }
        },
    }
}

/// The characters of the quoted field name `uuid`.
fn key_uuid_vec() -> (v: Vec<char>)
    ensures
        v@ == key_uuid(),
{
    let mut v: Vec<char> = Vec::new();
    v.push('"');
    v.push('u');
    v.push('u');
    v.push('i');
    v.push('d');
    v.push('"');
    proof {
        assert(v@ =~= key_uuid());
    }
    v
}

/// The characters of the quoted field name `full_name`.
fn key_full_name_vec() -> (v: Vec<char>)
    ensures
        v@ == key_full_name(),
{
    let mut v: Vec<char> = Vec::new();
    v.push('"');
    v.push('f');
    v.push('u');
    v.push('l');
    v.push('l');
    v.push('_');
    v.push('n');
    v.push('a');
    v.push('m');
    v.push('e');
    v.push('"');
    proof {
        assert(v@ =~= key_full_name());
    }
    v
}

/// The characters of the quoted field name `is_blocked`.
fn key_is_blocked_vec() -> (v: Vec<char>)
    ensures
        v@ == key_is_blocked(),
{
    let mut v: Vec<char> = Vec::new();
    v.push('"');
    v.push('i');
    v.push('s');
    v.push('_');
    v.push('b');
    v.push('l');
    v.push('o');
    v.push('c');
    v.push('k');
    v.push('e');
    v.push('d');
    v.push('"');
    proof {
        assert(v@ =~= key_is_blocked());
    }
    v
}

/// The characters of the quoted field name `roles`.
fn key_roles_vec() -> (v: Vec<char>)
    ensures
        v@ == key_roles(),
{
    let mut v: Vec<char> = Vec::new();
    v.push('"');
    v.push('r');
    v.push('o');
    v.push('l');
    v.push('e');
    v.push('s');
    v.push('"');
    proof {
        assert(v@ =~= key_roles());
    }
    v
}

/// The characters of the quoted field name `name`.
fn key_name_vec() -> (v: Vec<char>)
    ensures
        v@ == key_name(),
{
    let mut v: Vec<char> = Vec::new();
    v.push('"');
    v.push('n');
    v.push('a');
    v.push('m');
    v.push('e');
    v.push('"');
    proof {
        assert(v@ =~= key_name());
    }
    v
}

/// The characters of the quoted field name `description`.
fn key_description_vec() -> (v: Vec<char>)
    ensures
        v@ == key_description(),
{
    let mut v: Vec<char> = Vec::new();
    v.push('"');
    v.push('d');
    v.push('e');
    v.push('s');
    v.push('c');
    v.push('r');
    v.push('i');
    v.push('p');
    v.push('t');
    v.push('i');
    v.push('o');
    v.push('n');
    v.push('"');
    proof {
        assert(v@ =~= key_description());
    }
    v
}

/// Parses one or more comma-separated quoted strings and the closing
/// bracket.
fn parse_str_items_exec(s: &Vec<char>, i: usize) -> (r: Option<(Vec<String>, usize)>)
    requires
        i <= s.len(),
    ensures
        match r {
            Some(t) => parse_str_items(s@, i as int) == Some((t.0.deep_view(), t.1 as int)) && i
                < t.1 <= s.len(),
            None => parse_str_items(s@, i as int) is None,
        },
    decreases s.len() - i,
{
    match parse_quoted_exec(s, i) {
        None => None,
        Some((t, j)) => {
            let k = ws_exec(s, j);
            if k < s.len() && s[k] == ']' {
                let mut ts: Vec<String> = Vec::new();
                ts.push(string_from_chars(&t));
                proof {
                    assert(ts.deep_view() =~= seq![t@]);
                }
                Some((ts, k + 1))
            } else if k < s.len() && s[k] == ',' {
                let m = ws_exec(s, k + 1);
                match parse_str_items_exec(s, m) {
                    None => None,
                    Some((mut ts, e)) => {
                        let ghost td = ts.deep_view();
                        ts.insert(0, string_from_chars(&t));
                        proof {
                            assert(ts.deep_view() =~= seq![t@] + td);
                        }
                        Some((ts, e))
                    },
                }
            } else {
                None
            }
        },
    }
}

/// Parses an array of strings.
fn parse_str_array_exec(s: &Vec<char>, i: usize) -> (r: Option<(Vec<String>, usize)>)
    requires
        i <= s.len(),
    ensures
        match r {
            Some(t) => parse_str_array(s@, i as int) == Some((t.0.deep_view(), t.1 as int)) && i
                < t.1 <= s.len(),
            None => parse_str_array(s@, i as int) is None,
        },
{
    if i < s.len() && s[i] == '[' {
        let j = ws_exec(s, i + 1);
        if j < s.len() && s[j] == ']' {
            let ts: Vec<String> = Vec::new();
            proof {
                assert(ts.deep_view() =~= Seq::<Seq<char>>::empty());
            }
            Some((ts, j + 1))
        } else {
            parse_str_items_exec(s, j)
        }
    } else {
        None
    }
}

/// Parses a user object.
fn parse_user_exec(s: &Vec<char>, i: usize) -> (r: Option<(User, usize)>)
    requires
        i <= s.len(),
    ensures
        match r {
            Some(t) => parse_user(s@, i as int) == Some((t.0@, t.1 as int)) && i < t.1 <= s.len(),
            None => parse_user(s@, i as int) is None,
        },
{
    if !(i < s.len() && s[i] == '{') {
        return None;
    }
    let k1 = key_uuid_vec();
    let p0 = match parse_key_exec(s, i + 1, &k1) {
        None => { return None; },
        Some(p) => p,
    };
    let (uuid_t, p1) = match parse_quoted_exec(s, p0) {
        None => { return None; },
        Some(t) => t,
    };
    let c1 = match parse_sep_exec(s, p1, ',') {
        None => { return None; },
        Some(p) => p,
    };
    let k2 = key_full_name_vec();
    let p2 = match parse_key_exec(s, c1, &k2) {
        None => { return None; },
        Some(p) => p,
    };
    let (name_t, p3) = match parse_quoted_exec(s, p2) {
        None => { return None; },
        Some(t) => t,
    };
    let c3 = match parse_sep_exec(s, p3, ',') {
        None => { return None; },
        Some(p) => p,
    };
    let k3 = key_is_blocked_vec();
    let p4 = match parse_key_exec(s, c3, &k3) {
        None => { return None; },
        Some(p) => p,
    };
    let (b_v, p5) = match parse_bool_exec(s, p4) {
        None => { return None; },
        Some(t) => t,
    };
    let c5 = match parse_sep_exec(s, p5, ',') {
        None => { return None; },
        Some(p) => p,
    };
    let k4 = key_roles_vec();
    let p6 = match parse_key_exec(s, c5, &k4) {
        None => { return None; },
        Some(p) => p,
    };
    let (rs_v, p7) = match parse_str_array_exec(s, p6) {
        None => { return None; },
        Some(t) => t,
    };
    let p8 = match parse_sep_exec(s, p7, '}') {
        None => { return None; },
        Some(p) => p,
    };
    let u = User {
        uuid: string_from_chars(&uuid_t),
        full_name: string_from_chars(&name_t),
        is_blocked: b_v,
        roles: rs_v,
    };
    proof {
        assert(u@ =~= parse_user(s@, i as int)->Some_0.0);
    }
    Some((u, p8))
}

/// Parses a role object.
fn parse_role_exec(s: &Vec<char>, i: usize) -> (r: Option<(Role, usize)>)
    requires
        i <= s.len(),
    ensures
        match r {
            Some(t) => parse_role(s@, i as int) == Some((t.0@, t.1 as int)) && i < t.1 <= s.len(),
            None => parse_role(s@, i as int) is None,
        },
{
    if !(i < s.len() && s[i] == '{') {
        return None;
    }
    let k1 = key_uuid_vec();
    let p0 = match parse_key_exec(s, i + 1, &k1) {
        None => { return None; },
        Some(p) => p,
    };
    let (uuid_t, p1) = match parse_quoted_exec(s, p0) {
        None => { return None; },
        Some(t) => t,
    };
    let c1 = match parse_sep_exec(s, p1, ',') {
        None => { return None; },
        Some(p) => p,
    };
    let k2 = key_name_vec();
    let p2 = match parse_key_exec(s, c1, &k2) {
        None => { return None; },
        Some(p) => p,
    };
    let (name_t, p3) = match parse_quoted_exec(s, p2) {
        None => { return None; },
        Some(t) => t,
    };
    let c3 = match parse_sep_exec(s, p3, ',') {
        None => { return None; },
        Some(p) => p,
    };
    let k3 = key_description_vec();
    let p4 = match parse_key_exec(s, c3, &k3) {
        None => { return None; },
        Some(p) => p,
    };
    let (desc_t, p5) = match parse_quoted_exec(s, p4) {
        None => { return None; },
        Some(t) => t,
    };
    let p6 = match parse_sep_exec(s, p5, '}') {
        None => { return None; },
        Some(p) => p,
    };
    let role = Role {
        uuid: string_from_chars(&uuid_t),
        name: string_from_chars(&name_t),
        description: string_from_chars(&desc_t),
    };
    proof {
        assert(role@ =~= parse_role(s@, i as int)->Some_0.0);
    }
    Some((role, p6))
}

/// Parses one or more user entries and the closing brace.
fn parse_user_entries_exec(s: &Vec<char>, i: usize) -> (r: Option<(Vec<(String, User)>, usize)>)
    requires
        i <= s.len(),
    ensures
        match r {
            Some(t) => parse_user_entries(s@, i as int) == Some(
                (crate::kvmap::entries_view(t.0@), t.1 as int),
            ) && i < t.1 <= s.len(),
            None => parse_user_entries(s@, i as int) is None,
        },
    decreases s.len() - i,
{
    match parse_quoted_exec(s, i) {
        None => None,
        Some((k_t, j)) => {
            let c = ws_exec(s, j);
            if c < s.len() && s[c] == ':' {
                let p = ws_exec(s, c + 1);
                match parse_user_exec(s, p) {
                    None => None,
                    Some((u, m)) => {
                        let e = ws_exec(s, m);
                        if e < s.len() && s[e] == '}' {
                            let mut es: Vec<(String, User)> = Vec::new();
                            es.push((string_from_chars(&k_t), u));
                            proof {
                                assert(crate::kvmap::entries_view(es@) =~= seq![
                                    (k_t@, parse_user(s@, p as int)->Some_0.0),
                                ]);
                            }
                            Some((es, e + 1))
                        } else if e < s.len() && s[e] == ',' {
                            let m2 = ws_exec(s, e + 1);
                            match parse_user_entries_exec(s, m2) {
                                None => None,
                                Some((mut es, f)) => {
                                    let ghost ed = crate::kvmap::entries_view(es@);
                                    es.insert(0, (string_from_chars(&k_t), u));
                                    proof {
                                        assert(crate::kvmap::entries_view(es@) =~= seq![
                                            (k_t@, parse_user(s@, p as int)->Some_0.0),
                                        ] + ed);
                                    }
                                    Some((es, f))
                                },
                            }
                        } else {
                            None
                        }
                    },
                }
            } else {
                None
            }
        },
    }
}

/// Parses one or more role entries and the closing brace.
fn parse_role_entries_exec(s: &Vec<char>, i: usize) -> (r: Option<(Vec<(String, Role)>, usize)>)
    requires
        i <= s.len(),
    ensures
        match r {
            Some(t) => parse_role_entries(s@, i as int) == Some(
                (crate::kvmap::entries_view(t.0@), t.1 as int),
            ) && i < t.1 <= s.len(),
            None => parse_role_entries(s@, i as int) is None,
        },
    decreases s.len() - i,
{
    match parse_quoted_exec(s, i) {
        None => None,
        Some((k_t, j)) => {
            let c = ws_exec(s, j);
            if c < s.len() && s[c] == ':' {
                let p = ws_exec(s, c + 1);
                match parse_role_exec(s, p) {
                    None => None,
                    Some((u, m)) => {
                        let e = ws_exec(s, m);
                        if e < s.len() && s[e] == '}' {
                            let mut es: Vec<(String, Role)> = Vec::new();
                            es.push((string_from_chars(&k_t), u));
                            proof {
                                assert(crate::kvmap::entries_view(es@) =~= seq![
                                    (k_t@, parse_role(s@, p as int)->Some_0.0),
                                ]);
                            }
                            Some((es, e + 1))
                        } else if e < s.len() && s[e] == ',' {
                            let m2 = ws_exec(s, e + 1);
                            match parse_role_entries_exec(s, m2) {
                                None => None,
                                Some((mut es, f)) => {
                                    let ghost ed = crate::kvmap::entries_view(es@);
                                    es.insert(0, (string_from_chars(&k_t), u));
                                    proof {
                                        assert(crate::kvmap::entries_view(es@) =~= seq![
                                            (k_t@, parse_role(s@, p as int)->Some_0.0),
                                        ] + ed);
                                    }
                                    Some((es, f))
                                },
                            }
                        } else {
                            None
                        }
                    },
                }
            } else {
                None
            }
        },
    }
}

/// Parses a whole user document.
pub fn parse_users_doc_exec(s: &Vec<char>) -> (r: Option<Vec<(String, User)>>)
    ensures
        match r {
            Some(v) => parse_users_doc(s@) == Some(crate::kvmap::entries_view(v@)),
            None => parse_users_doc(s@) is None,
        },
{
    let i = ws_exec(s, 0);
    if i < s.len() && s[i] == '{' {
        let j = ws_exec(s, i + 1);
        if j < s.len() && s[j] == '}' {
            let e = ws_exec(s, j + 1);
            if e == s.len() {
                let v: Vec<(String, User)> = Vec::new();
                proof {
                    assert(crate::kvmap::entries_view(v@) =~= Seq::<(Seq<char>, UserView)>::empty());
                }
                Some(v)
            } else {
                None
            }
        } else {
            match parse_user_entries_exec(s, j) {
                None => None,
                Some((es, f)) => {
                    let e = ws_exec(s, f);
                    if e == s.len() {
                        Some(es)
                    } else {
                        None
                    }
                },
            }
        }
    } else {
        None
    }
}

/// Parses a whole role document.
pub fn parse_roles_doc_exec(s: &Vec<char>) -> (r: Option<Vec<(String, Role)>>)
    ensures
        match r {
            Some(v) => parse_roles_doc(s@) == Some(crate::kvmap::entries_view(v@)),
            None => parse_roles_doc(s@) is None,
        },
{
    let i = ws_exec(s, 0);
    if i < s.len() && s[i] == '{' {
        let j = ws_exec(s, i + 1);
        if j < s.len() && s[j] == '}' {
            let e = ws_exec(s, j + 1);
            if e == s.len() {
                let v: Vec<(String, Role)> = Vec::new();
                proof {
                    assert(crate::kvmap::entries_view(v@) =~= Seq::<(Seq<char>, RoleView)>::empty());
                }
                Some(v)
            } else {
                None
            }
        } else {
            match parse_role_entries_exec(s, j) {
                None => None,
                Some((es, f)) => {
                    let e = ws_exec(s, f);
                    if e == s.len() {
                        Some(es)
                    } else {
                        None
                    }
                },
            }
        }
    } else {
        None
    }
}

} // verus!
