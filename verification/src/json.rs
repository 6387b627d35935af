//! JSON text handling. The library keeps JSON values as text: argument
//! objects and schemas travel through the agent as validated strings.
//! Reading inside such text is delegated to serde_json behind small trusted
//! wrappers; producing protocol text is done by the verified escaping
//! functions below.

use vstd::prelude::*;

verus! {

/// Whether a text is one valid JSON value, as serde_json accepts it.
pub uninterp spec fn json_ok(s: Seq<char>) -> bool;

/// Relies on `serde_json::from_str::<Value>`: it returns `Ok` exactly when
/// the text is one well-formed JSON value.
#[verifier::external_body]
pub(crate) fn json_check(s: &str) -> (r: bool)
    ensures
        r == json_ok(s@),
{
    serde_json::from_str::<serde_json::Value>(s).is_ok()
}

/// The field of a JSON object under a string key, re-serialized to JSON
/// text. `None` when the text is not valid JSON, is not an object, or has
/// no such field.
pub uninterp spec fn json_field(s: Seq<char>, key: Seq<char>) -> Option<Seq<char>>;

/// Relies on serde_json: `from_str`, `Value::get` with a string key (a
/// field lookup in an object), and `Value`'s `Display`, whose `to_string`
/// re-serializes the value as valid JSON text.
#[verifier::external_body]
pub(crate) fn json_get_raw(s: &str, key: &str) -> (r: Option<String>)
    ensures
        r matches Some(t) ==> json_field(s@, key@) == Some(t@) && json_ok(t@) && json_ok(s@),
        r is None ==> json_field(s@, key@) is None,
{
    let v: serde_json::Value = serde_json::from_str(s).ok()?;
    Some(v.get(key)?.to_string())
}

/// The string value of a field of a JSON object: `None` when the text is
/// not valid JSON, the field is missing, or it is not a JSON string.
pub uninterp spec fn json_str_field(s: Seq<char>, key: Seq<char>) -> Option<Seq<char>>;

/// Relies on serde_json: `from_str`, `Value::get`, and `Value::as_str`,
/// which returns the string when the value is a JSON string.
#[verifier::external_body]
pub(crate) fn json_get_str(s: &str, key: &str) -> (r: Option<String>)
    ensures
        r matches Some(t) ==> json_str_field(s@, key@) == Some(t@),
        r is None ==> json_str_field(s@, key@) is None,
{
    let v: serde_json::Value = serde_json::from_str(s).ok()?;
    Some(v.get(key)?.as_str()?.to_string())
}

/// The boolean value of a field of a JSON object, when present and boolean.
pub uninterp spec fn json_bool_field(s: Seq<char>, key: Seq<char>) -> Option<bool>;

/// Relies on serde_json: `from_str`, `Value::get`, and `Value::as_bool`.
#[verifier::external_body]
pub(crate) fn json_get_bool(s: &str, key: &str) -> (r: Option<bool>)
    ensures
        r == json_bool_field(s@, key@),
{
    let v: serde_json::Value = serde_json::from_str(s).ok()?;
    v.get(key)?.as_bool()
}

/// The unsigned integer value of a field of a JSON object, when present
/// and representable as a `u64`.
pub uninterp spec fn json_u64_field(s: Seq<char>, key: Seq<char>) -> Option<u64>;

/// Relies on serde_json: `from_str`, `Value::get`, and `Value::as_u64`.
#[verifier::external_body]
pub(crate) fn json_get_u64(s: &str, key: &str) -> (r: Option<u64>)
    ensures
        r == json_u64_field(s@, key@),
{
    let v: serde_json::Value = serde_json::from_str(s).ok()?;
    v.get(key)?.as_u64()
}

/// The elements of a JSON array, each re-serialized to JSON text; `None`
/// when the text is not valid JSON or not an array.
pub uninterp spec fn json_elements(s: Seq<char>) -> Option<Seq<Seq<char>>>;

/// Relies on serde_json: `from_str`, `Value::as_array`, and `Value`'s
/// `Display`, whose `to_string` re-serializes each element as valid JSON.
#[verifier::external_body]
pub(crate) fn json_array_elements(s: &str) -> (r: Option<Vec<String>>)
    ensures
        r matches Some(v) ==> json_elements(s@) == Some(v.deep_view()) && forall|i: int|
            0 <= i < v.deep_view().len() ==> json_ok(v.deep_view()[i]),
        r is None ==> json_elements(s@) is None,
{
    let v: serde_json::Value = serde_json::from_str(s).ok()?;
    let arr = v.as_array()?;
    Some(arr.iter().map(|x| x.to_string()).collect())
}

/// The lower-case hexadecimal digit for `d`.
pub open spec fn hex_digit(d: nat) -> char {
    if d == 0 {
        '0'
    } else if d == 1 {
        '1'
    } else if d == 2 {
        '2'
    } else if d == 3 {
        '3'
    } else if d == 4 {
        '4'
    } else if d == 5 {
        '5'
    } else if d == 6 {
        '6'
    } else if d == 7 {
        '7'
    } else if d == 8 {
        '8'
    } else if d == 9 {
        '9'
    } else if d == 10 {
        'a'
    } else if d == 11 {
        'b'
    } else if d == 12 {
        'c'
    } else if d == 13 {
        'd'
    } else if d == 14 {
        'e'
    } else {
        'f'
    }
}

/// How one character is written inside a JSON string literal: quotes,
/// backslashes and the common control characters get a two-character
/// escape, other control characters a `\u00..` escape, and everything else
/// stands as itself.
pub open spec fn escape_char(c: char) -> Seq<char> {
    if c == '"' {
        seq!['\\', '"']
    } else if c == '\\' {
        seq!['\\', '\\']
    } else if c == '\n' {
        seq!['\\', 'n']
    } else if c == '\r' {
        seq!['\\', 'r']
    } else if c == '\t' {
        seq!['\\', 't']
    } else if (c as nat) < 0x20 {
        seq!['\\', 'u', '0', '0', hex_digit(c as nat / 16), hex_digit(c as nat % 16)]
    } else {
        seq![c]
    }
}

/// The body of the JSON string literal denoting `s`.
pub open spec fn json_escaped(s: Seq<char>) -> Seq<char>
    decreases s.len(),
{
    if s.len() == 0 {
        Seq::empty()
    } else {
        escape_char(s[0]) + json_escaped(s.drop_first())
    }
}

proof fn lemma_json_escaped_push(s: Seq<char>, c: char)
    ensures
        json_escaped(s.push(c)) == json_escaped(s) + escape_char(c),
    decreases s.len(),
{
    if s.len() == 0 {
        let p = s.push(c);
        assert(p[0] == c);
        assert(p.drop_first() =~= s);
        assert(json_escaped(p) == escape_char(c) + json_escaped(s));
        assert(json_escaped(s) == Seq::<char>::empty());
        assert(json_escaped(p) =~= json_escaped(s) + escape_char(c));
    } else {
        assert(s.push(c)[0] == s[0]);
        assert(s.push(c).drop_first() =~= s.drop_first().push(c));
        lemma_json_escaped_push(s.drop_first(), c);
        assert(json_escaped(s.push(c)) == escape_char(s[0]) + json_escaped(s.drop_first().push(c)));
        assert(json_escaped(s.push(c)) =~= json_escaped(s) + escape_char(c));
    }
}

fn push_hex_digit(d: u32, out: &mut Vec<char>)
    requires
        d < 16,
    ensures
        final(out)@ == old(out)@.push(hex_digit(d as nat)),
{
    let c: char = if d == 0 {
        '0'
    } else if d == 1 {
        '1'
    } else if d == 2 {
        '2'
    } else if d == 3 {
        '3'
    } else if d == 4 {
        '4'
    } else if d == 5 {
        '5'
    } else if d == 6 {
        '6'
    } else if d == 7 {
        '7'
    } else if d == 8 {
        '8'
    } else if d == 9 {
        '9'
    } else if d == 10 {
        'a'
    } else if d == 11 {
        'b'
    } else if d == 12 {
        'c'
    } else if d == 13 {
        'd'
    } else if d == 14 {
        'e'
    } else {
        'f'
    };
    out.push(c);
}

fn push_escaped_char(c: char, out: &mut Vec<char>)
    ensures
        final(out)@ == old(out)@ + escape_char(c),
{
    if c == '"' {
        out.push('\\');
        out.push('"');
        proof {
            assert(out@ =~= old(out)@ + escape_char(c));
        }
    } else if c == '\\' {
        out.push('\\');
        out.push('\\');
        proof {
            assert(out@ =~= old(out)@ + escape_char(c));
        }
    } else if c == '\n' {
        out.push('\\');
        out.push('n');
        proof {
            assert(out@ =~= old(out)@ + escape_char(c));
        }
    } else if c == '\r' {
        out.push('\\');
        out.push('r');
        proof {
            assert(out@ =~= old(out)@ + escape_char(c));
        }
    } else if c == '\t' {
        out.push('\\');
        out.push('t');
        proof {
            assert(out@ =~= old(out)@ + escape_char(c));
        }
    } else if (c as u32) < 0x20 {
        out.push('\\');
        out.push('u');
        out.push('0');
        out.push('0');
        push_hex_digit((c as u32) / 16, out);
        push_hex_digit((c as u32) % 16, out);
        proof {
            assert(out@ =~= old(out)@ + escape_char(c));
        }
    } else {
        out.push(c);
        proof {
            assert(out@ =~= old(out)@ + escape_char(c));
        }
    }
}

/// Appends the body of the JSON string literal denoting `s` to `out`.
pub(crate) fn push_json_escaped(s: &Vec<char>, out: &mut Vec<char>)
    ensures
        final(out)@ == old(out)@ + json_escaped(s@),
{
    let mut i: usize = 0;
    proof {
        assert(s@.subrange(0, 0) =~= Seq::<char>::empty());
        assert(json_escaped(s@.subrange(0, 0)) =~= Seq::<char>::empty());
        assert(out@ =~= out@ + json_escaped(s@.subrange(0, 0)));
    }
    while i < s.len()
        invariant
            i <= s@.len(),
            out@ == old(out)@ + json_escaped(s@.subrange(0, i as int)),
        decreases s@.len() - i,
    {
        push_escaped_char(s[i], out);
        proof {
            assert(s@.subrange(0, i + 1 as int) =~= s@.subrange(0, i as int).push(s@[i as int]));
            lemma_json_escaped_push(s@.subrange(0, i as int), s@[i as int]);
        }
        i += 1;
    }
    proof {
        assert(s@.subrange(0, s@.len() as int) =~= s@);
    }
}

} // verus!
