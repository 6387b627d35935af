//! Character-level text utilities: conversions between `String`/`&str` and
//! `Vec<char>`, substring search, and the tool-name namespacing rule.

use vstd::prelude::*;

verus! {

/// Converts a string slice into its sequence of characters.
pub fn str_to_chars(s: &str) -> (r: Vec<char>)
    ensures
        r@ == s@,
{
    let n = s.unicode_len();
    let mut r: Vec<char> = Vec::new();
    let mut i: usize = 0;
    while i < n
        invariant
            n == s@.len(),
            i <= n,
            r@ == s@.subrange(0, i as int),
        decreases n - i,
    {
        r.push(s.get_char(i));
        proof {
            assert(r@ =~= s@.subrange(0, i + 1 as int));
        }
        i += 1;
    }
    proof {
        assert(r@ =~= s@);
    }
    r
}

/// Relies on `Iterator::collect` for `String`: building a string from an
/// iterator of characters concatenates the characters in order.
#[verifier::external_body]
pub fn chars_to_string(v: &Vec<char>) -> (r: String)
    ensures
        r@ == v@,
{
    v.iter().collect()
}

/// Copies the characters of `v` between `from` and `to`.
pub fn subvec(v: &Vec<char>, from: usize, to: usize) -> (r: Vec<char>)
    requires
        from <= to <= v@.len(),
    ensures
        r@ == v@.subrange(from as int, to as int),
{
    let mut r: Vec<char> = Vec::new();
    let mut i: usize = from;
    while i < to
        invariant
            from <= i <= to <= v@.len(),
            r@ == v@.subrange(from as int, i as int),
        decreases to - i,
    {
        r.push(v[i]);
        proof {
            assert(r@ =~= v@.subrange(from as int, i + 1 as int));
        }
        i += 1;
    }
    r
}

/// Whether two character vectors hold the same text.
pub fn eq_chars(a: &Vec<char>, b: &Vec<char>) -> (r: bool)
    ensures
        r == (a@ == b@),
{
    if a.len() != b.len() {
        return false;
    }
    let n = a.len();
    let mut i: usize = 0;
    while i < n
        invariant
            i <= n,
            n == a@.len() == b@.len(),
            forall|k: int| 0 <= k < i ==> a@[k] == b@[k],
        decreases n - i,
    {
        if a[i] != b[i] {
            return false;
        }
        i += 1;
    }
    proof {
        assert(a@ =~= b@);
    }
    true
}

/// Appends all characters of `src` to `dst`.
pub fn push_all(dst: &mut Vec<char>, src: &Vec<char>)
    ensures
        final(dst)@ == old(dst)@ + src@,
{
    let mut i: usize = 0;
    while i < src.len()
        invariant
            i <= src@.len(),
            dst@ == old(dst)@ + src@.subrange(0, i as int),
        decreases src@.len() - i,
    {
        dst.push(src[i]);
        proof {
            assert(dst@ =~= old(dst)@ + src@.subrange(0, i + 1 as int));
        }
        i += 1;
    }
    proof {
        assert(old(dst)@ + src@.subrange(0, src@.len() as int) =~= old(dst)@ + src@);
    }
}

/// Whether `pat` occurs in `s` starting exactly at index `i`.
pub open spec fn match_at(s: Seq<char>, pat: Seq<char>, i: int) -> bool {
    0 <= i && i + pat.len() <= s.len() && s.subrange(i, i + pat.len()) == pat
}

/// The first index at or after `from` where `pat` occurs in `s`.
pub open spec fn find_from(s: Seq<char>, pat: Seq<char>, from: int) -> Option<int>
    decreases s.len() - from,
{
    if from < 0 || from + pat.len() > s.len() {
        None
    } else if pat.len() == 0 || match_at(s, pat, from) {
        Some(from)
    } else {
        find_from(s, pat, from + 1)
    }
}

pub open spec fn contains_pat(s: Seq<char>, pat: Seq<char>) -> bool {
    find_from(s, pat, 0) is Some
}

pub open spec fn starts_with(s: Seq<char>, pat: Seq<char>) -> bool {
    match_at(s, pat, 0)
}

pub open spec fn ends_with(s: Seq<char>, pat: Seq<char>) -> bool {
    match_at(s, pat, s.len() - pat.len())
}

pub proof fn lemma_find_from_props(s: Seq<char>, pat: Seq<char>, from: int)
    requires
        0 <= from,
    ensures
        find_from(s, pat, from) matches Some(i) ==> from <= i && match_at(s, pat, i),
        find_from(s, pat, from) matches Some(i) ==> forall|j: int|
            from <= j < i ==> !match_at(s, pat, j),
        find_from(s, pat, from) is None ==> forall|j: int| from <= j ==> !match_at(s, pat, j),
    decreases s.len() - from,
{
    if from < 0 || from + pat.len() > s.len() {
    } else if pat.len() == 0 {
        assert(s.subrange(from, from) =~= pat);
    } else if match_at(s, pat, from) {
    } else {
        lemma_find_from_props(s, pat, from + 1);
    }
}

/// Searching from `from` and finding nothing before `to` is the same as
/// searching from `to`.
proof fn lemma_find_from_skip(s: Seq<char>, pat: Seq<char>, from: int, to: int)
    requires
        0 <= from <= to,
        1 <= pat.len(),
        forall|j: int| from <= j < to ==> !match_at(s, pat, j),
    ensures
        find_from(s, pat, from) == find_from(s, pat, to),
    decreases to - from,
{
    if from < to {
        lemma_find_from_skip(s, pat, from + 1, to);
    }
}

/// Whether `pat` occurs in `v` starting exactly at `i`.
pub fn eq_at(v: &Vec<char>, pat: &Vec<char>, i: usize) -> (r: bool)
    requires
        i <= v@.len(),
        pat@.len() <= v@.len() - i,
    ensures
        r == match_at(v@, pat@, i as int),
{
    let n = v.len();
    let m = pat.len();
    let mut j: usize = 0;
    while j < m
        invariant
            j <= m,
            n == v@.len(),
            m == pat@.len(),
            i + m <= n,
            forall|k: int| 0 <= k < j ==> v@[i + k] == pat@[k],
        decreases m - j,
    {
        if v[i + j] != pat[j] {
            proof {
                assert(v@.subrange(i as int, i + m as int)[j as int] != pat@[j as int]);
            }
            return false;
        }
        j += 1;
    }
    proof {
        assert(v@.subrange(i as int, i + m as int) =~= pat@);
    }
    true
}

/// The first occurrence of `pat` in `v` at or after `from`.
pub fn find_pat(v: &Vec<char>, pat: &Vec<char>, from: usize) -> (r: Option<usize>)
    ensures
        match r {
            Some(i) => find_from(v@, pat@, from as int) == Some(i as int),
            None => find_from(v@, pat@, from as int) is None,
        },
{
    let n = v.len();
    let m = pat.len();
    if m > n || from > n - m {
        return None;
    }
    if m == 0 {
        return Some(from);
    }
    let mut i: usize = from;
    while i <= n - m
        invariant
            from <= i <= n - m + 1,
            1 <= m <= n,
            n == v@.len(),
            m == pat@.len(),
            forall|j: int| from <= j < i ==> !match_at(v@, pat@, j),
        decreases n - i,
    {
        if eq_at(v, pat, i) {
            proof {
                lemma_find_from_skip(v@, pat@, from as int, i as int);
            }
            return Some(i);
        }
        i += 1;
    }
    proof {
        lemma_find_from_skip(v@, pat@, from as int, i as int);
    }
    None
}

/// Whether `v` ends with `pat`.
pub fn ends_with_pat(v: &Vec<char>, pat: &Vec<char>) -> (r: bool)
    ensures
        r == ends_with(v@, pat@),
{
    let n = v.len();
    let m = pat.len();
    if m > n {
        return false;
    }
    eq_at(v, pat, n - m)
}

/// Whether `pat` occurs at index `i` of `v`, where `i` may be out of range.
pub fn matches_at(v: &Vec<char>, pat: &Vec<char>, i: usize) -> (r: bool)
    ensures
        r == match_at(v@, pat@, i as int),
{
    let n = v.len();
    let m = pat.len();
    if i > n || m > n - i {
        return false;
    }
    eq_at(v, pat, i)
}

/// Space, tab, carriage return and line feed: the characters stripped by
/// trimming.
pub open spec fn is_space(c: char) -> bool {
    c == ' ' || c == '\t' || c == '\r' || c == '\n'
}

pub open spec fn trim_start_spec(s: Seq<char>) -> Seq<char>
    decreases s.len(),
{
    if s.len() > 0 && is_space(s[0]) {
        trim_start_spec(s.drop_first())
    } else {
        s
    }
}

pub open spec fn trim_end_spec(s: Seq<char>) -> Seq<char>
    decreases s.len(),
{
    if s.len() > 0 && is_space(s.last()) {
        trim_end_spec(s.drop_last())
    } else {
        s
    }
}

pub open spec fn trim_spec(s: Seq<char>) -> Seq<char> {
    trim_end_spec(trim_start_spec(s))
}

proof fn lemma_trim_start_skip(s: Seq<char>, i: int)
    requires
        0 <= i <= s.len(),
        forall|j: int| 0 <= j < i ==> is_space(s[j]),
    ensures
        trim_start_spec(s) == trim_start_spec(s.subrange(i, s.len() as int)),
    decreases i,
{
    if i > 0 {
        let t = s.drop_first();
        assert(is_space(s[0]));
        assert(trim_start_spec(s) == trim_start_spec(t));
        assert forall|j: int| 0 <= j < i - 1 implies is_space(t[j]) by {
            assert(t[j] == s[j + 1]);
        }
        lemma_trim_start_skip(t, i - 1);
        assert(t.subrange(i - 1, t.len() as int) =~= s.subrange(i, s.len() as int));
    } else {
        assert(s.subrange(0, s.len() as int) =~= s);
    }
}

proof fn lemma_trim_end_skip(s: Seq<char>, i: int)
    requires
        0 <= i <= s.len(),
        forall|j: int| i <= j < s.len() ==> is_space(s[j]),
    ensures
        trim_end_spec(s) == trim_end_spec(s.subrange(0, i)),
    decreases s.len() - i,
{
    if i < s.len() {
        let t = s.drop_last();
        assert(is_space(s.last()));
        assert(trim_end_spec(s) == trim_end_spec(t));
        assert forall|j: int| i <= j < t.len() implies is_space(t[j]) by {
            assert(t[j] == s[j]);
        }
        lemma_trim_end_skip(t, i);
        assert(t.subrange(0, i) =~= s.subrange(0, i));
    } else {
        assert(s.subrange(0, i) =~= s);
    }
}

/// The characters of `v` between `from` and `to`, with surrounding
/// whitespace removed.
pub fn trimmed_range(v: &Vec<char>, from: usize, to: usize) -> (r: Vec<char>)
    requires
        from <= to <= v@.len(),
    ensures
        r@ == trim_spec(v@.subrange(from as int, to as int)),
{
    let ghost orig = v@.subrange(from as int, to as int);
    let mut a: usize = from;
    while a < to && (v[a] == ' ' || v[a] == '\t' || v[a] == '\r' || v[a] == '\n')
        invariant
            from <= a <= to <= v@.len(),
            forall|j: int| from <= j < a ==> is_space(v@[j]),
        decreases to - a,
    {
        a += 1;
    }
    proof {
        lemma_trim_start_skip(orig, a - from as int);
        assert(orig.subrange(a - from as int, orig.len() as int) =~= v@.subrange(
            a as int,
            to as int,
        ));
        if a < to {
            assert(trim_start_spec(v@.subrange(a as int, to as int)) == v@.subrange(
                a as int,
                to as int,
            ));
        } else {
            assert(v@.subrange(a as int, to as int).len() == 0);
        }
    }
    // now trim_start_spec(orig) == v@[a..to], whose first char is not a space
    let mut b: usize = to;
    while b > a && (v[b - 1] == ' ' || v[b - 1] == '\t' || v[b - 1] == '\r' || v[b - 1] == '\n')
        invariant
            a <= b <= to <= v@.len(),
            forall|j: int| b <= j < to ==> is_space(v@[j]),
        decreases b,
    {
        b -= 1;
    }
    proof {
        let mid = v@.subrange(a as int, to as int);
        lemma_trim_end_skip(mid, b - a as int);
        assert(mid.subrange(0, b - a as int) =~= v@.subrange(a as int, b as int));
        if b > a {
            assert(trim_end_spec(v@.subrange(a as int, b as int)) == v@.subrange(
                a as int,
                b as int,
            ));
        } else {
            assert(v@.subrange(a as int, b as int).len() == 0);
        }
    }
    subvec(v, a, b)
}

/// The lines of `s`, split on `'\n'`: one more line than there are line
/// feeds, so the result is never empty.
pub open spec fn split_lines(s: Seq<char>) -> Seq<Seq<char>>
    decreases s.len(),
{
    if s.len() == 0 {
        seq![Seq::<char>::empty()]
    } else if s[0] == '\n' {
        seq![Seq::<char>::empty()] + split_lines(s.drop_first())
    } else {
        let rest = split_lines(s.drop_first());
        seq![seq![s[0]] + rest[0]] + rest.drop_first()
    }
}

pub proof fn lemma_split_lines_len(s: Seq<char>)
    ensures
        split_lines(s).len() >= 1,
    decreases s.len(),
{
    if s.len() > 0 {
        lemma_split_lines_len(s.drop_first());
    }
}

/// Splits `v` into its lines.
pub fn lines_of(v: &Vec<char>) -> (r: Vec<Vec<char>>)
    ensures
        r.deep_view() == split_lines(v@),
{
    let n = v.len();
    let mut out: Vec<Vec<char>> = Vec::new();
    let mut cur: Vec<char> = Vec::new();
    let mut i: usize = 0;
    proof {
        lemma_split_lines_len(v@);
        assert(v@.subrange(0, n as int) =~= v@);
    }
    while i < n
        invariant
            i <= n,
            n == v@.len(),
            split_lines(v@) =~~= out.deep_view() + seq![
                cur@ + split_lines(v@.subrange(i as int, n as int))[0],
            ] + split_lines(v@.subrange(i as int, n as int)).drop_first(),
        decreases n - i,
    {
        let ghost rem = v@.subrange(i as int, n as int);
        let ghost rem2 = v@.subrange(i + 1 as int, n as int);
        proof {
            assert(rem.len() > 0);
            assert(rem[0] == v@[i as int]);
            assert(rem.drop_first() =~= rem2);
            lemma_split_lines_len(rem2);
        }
        if v[i] == '\n' {
            out.push(cur);
            cur = Vec::new();
            proof {
                assert(split_lines(rem) == seq![Seq::<char>::empty()] + split_lines(rem2));
                assert(split_lines(v@) =~~= out.deep_view() + seq![
                    cur@ + split_lines(rem2)[0],
                ] + split_lines(rem2).drop_first());
            }
        } else {
            cur.push(v[i]);
            proof {
                let rest = split_lines(rem2);
                assert(split_lines(rem) == seq![seq![rem[0]] + rest[0]] + rest.drop_first());
                assert(split_lines(v@) =~~= out.deep_view() + seq![cur@ + rest[0]]
                    + rest.drop_first());
            }
        }
        i += 1;
    }
    proof {
        let rem = v@.subrange(n as int, n as int);
        assert(rem.len() == 0);
        assert(split_lines(rem) == seq![Seq::<char>::empty()]);
        assert(cur@ + split_lines(rem)[0] =~= cur@);
    }
    out.push(cur);
    proof {
        assert(split_lines(v@) =~~= out.deep_view());
    }
    out
}

/// The character for a decimal digit.
pub open spec fn digit_char(d: nat) -> char {
    if d == 0 {
        '0'
    } else if d == 1 {
        '1'
    } else if d == 2 {
        '2'
    } else if d == 3 {
        '3'
    } else if d == 4 {
        '4'
    } else if d == 5 {
        '5'
    } else if d == 6 {
        '6'
    } else if d == 7 {
        '7'
    } else if d == 8 {
        '8'
    } else {
        '9'
    }
}

/// The decimal representation of `n`, most significant digit first.
pub open spec fn dec_str(n: nat) -> Seq<char>
    decreases n,
{
    if n < 10 {
        seq![digit_char(n)]
    } else {
        dec_str(n / 10).push(digit_char(n % 10))
    }
}

fn push_digit(d: u64, out: &mut Vec<char>)
    requires
        d < 10,
    ensures
        final(out)@ == old(out)@.push(digit_char(d as nat)),
{
    let c: char = if d == 0 {
        '0'
    } else if d == 1 {
        '1'
    } else if d == 2 {
        '2'
    } else if d == 3 {
        '3'
    } else if d == 4 {
        '4'
    } else if d == 5 {
        '5'
    } else if d == 6 {
        '6'
    } else if d == 7 {
        '7'
    } else if d == 8 {
        '8'
    } else {
        '9'
    };
    out.push(c);
}

fn push_dec(n: u64, out: &mut Vec<char>)
    ensures
        final(out)@ == old(out)@ + dec_str(n as nat),
    decreases n,
{
    if n < 10 {
        push_digit(n, out);
        proof {
            assert(old(out)@ + dec_str(n as nat) =~= old(out)@.push(digit_char(n as nat)));
        }
    } else {
        push_dec(n / 10, out);
        push_digit(n % 10, out);
        proof {
            assert(old(out)@ + dec_str(n as nat) =~= (old(out)@ + dec_str(n as nat / 10)).push(
                digit_char(n as nat % 10),
            ));
        }
    }
}

/// The decimal digits of `n`.
pub fn dec_chars(n: u64) -> (r: Vec<char>)
    ensures
        r@ == dec_str(n as nat),
{
    let mut out: Vec<char> = Vec::new();
    push_dec(n, &mut out);
    proof {
        assert(Seq::<char>::empty() + dec_str(n as nat) =~= dec_str(n as nat));
    }
    out
}

/// The local (server-side) tool name: everything after the last `.` of a
/// possibly namespaced name, or the whole name when it has no `.`.
pub open spec fn local_name_of(s: Seq<char>) -> Seq<char>
    decreases s.len(),
{
    if s.len() == 0 {
        s
    } else if s.last() == '.' {
        Seq::empty()
    } else {
        local_name_of(s.drop_last()).push(s.last())
    }
}

proof fn lemma_local_name_no_dot(s: Seq<char>)
    requires
        forall|i: int| 0 <= i < s.len() ==> s[i] != '.',
    ensures
        local_name_of(s) == s,
    decreases s.len(),
{
    if s.len() == 0 {
        assert(local_name_of(s) =~= s);
    } else {
        lemma_local_name_no_dot(s.drop_last());
        assert(local_name_of(s) =~= s);
    }
}

proof fn lemma_local_name_after_dot(s: Seq<char>, i: int)
    requires
        0 <= i < s.len(),
        s[i] == '.',
        forall|j: int| i < j < s.len() ==> s[j] != '.',
    ensures
        local_name_of(s) == s.subrange(i + 1, s.len() as int),
    decreases s.len(),
{
    if i == s.len() - 1 {
        assert(local_name_of(s) =~= s.subrange(i + 1, s.len() as int));
    } else {
        lemma_local_name_after_dot(s.drop_last(), i);
        assert(s.drop_last() == s.subrange(0, s.len() - 1));
        assert(local_name_of(s) =~= s.subrange(i + 1, s.len() as int));
    }
}

/// Namespacing round trip: a name built as `<ns>.<tool>`, where neither part
/// contains a `.`, resolves back to `tool`.
pub proof fn lemma_resolve_round_trip(ns: Seq<char>, tool: Seq<char>)
    requires
        forall|i: int| 0 <= i < ns.len() ==> ns[i] != '.',
        forall|i: int| 0 <= i < tool.len() ==> tool[i] != '.',
    ensures
        local_name_of(ns + seq!['.'] + tool) == tool,
{
    let s = ns + seq!['.'] + tool;
    lemma_local_name_after_dot(s, ns.len() as int);
    assert(s.subrange(ns.len() as int + 1, s.len() as int) =~= tool);
}

/// Strips the namespace prefix from a possibly namespaced tool name:
/// everything up to and including the last `.` is removed.
pub fn resolve_local_name(name: &str) -> (r: String)
    ensures
        r@ == local_name_of(name@),
{
    let v = str_to_chars(name);
    let n = v.len();
    let mut i: usize = n;
    // scan backwards for the last '.'
    while i > 0
        invariant
            i <= n,
            n == v@.len(),
            v@ == name@,
            forall|j: int| i <= j < n ==> v@[j] != '.',
        decreases i,
    {
        if v[i - 1] == '.' {
            let tail = subvec(&v, i, n);
            proof {
                lemma_local_name_after_dot(v@, i - 1);
            }
            return chars_to_string(&tail);
        }
        i -= 1;
    }
    proof {
        lemma_local_name_no_dot(v@);
    }
    chars_to_string(&v)
}

} // verus!
