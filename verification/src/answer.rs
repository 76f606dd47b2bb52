//! Reading the `code` member of the backend's JSON answer to a connection
//! request, such as `{"code": "OK"}`.
//!
//! The answer is read as a JSON object whose members are read in order; a
//! comma may follow the last one. A member's value is a string, a plain token
//! (numbers, `true`, `false`, `null`), or an object or array, which is skipped
//! by its brackets (strings inside it are respected, its inner syntax is not
//! checked). The code's escapes are decoded before it is compared.
use vstd::prelude::*;

verus! {

/// JSON white space: space, tab, line feed, carriage return.
pub open spec fn is_json_space(b: u8) -> bool {
    b == 32 || b == 9 || b == 10 || b == 13
}

/// A byte of a plain token: a letter, a digit, `+`, `-` or `.`.
pub open spec fn is_token_byte(b: u8) -> bool {
    ||| 48 <= b <= 57
    ||| 65 <= b <= 90
    ||| 97 <= b <= 122
    ||| b == 43 || b == 45 || b == 46
}

/// The first position at or after `i` that holds no white space.
pub open spec fn skip_space(s: Seq<u8>, i: int) -> int
    decreases s.len() - i,
{
    if 0 <= i < s.len() && is_json_space(s[i]) {
        skip_space(s, i + 1)
    } else {
        i
    }
}

/// The first position at or after `i` that holds no token byte.
pub open spec fn token_end(s: Seq<u8>, i: int) -> int
    decreases s.len() - i,
{
    if 0 <= i < s.len() && is_token_byte(s[i]) {
        token_end(s, i + 1)
    } else {
        i
    }
}

/// The position of the quote that closes a string whose contents start at
/// `i`; a backslash escapes the byte after it.
pub open spec fn string_close(s: Seq<u8>, i: int) -> Option<int>
    decreases s.len() + 1 - i,
{
    if i < 0 || i >= s.len() {
        None
    } else if s[i] == 34 {
        Some(i)
    } else if s[i] == 92 {
        string_close(s, i + 2)
    } else {
        string_close(s, i + 1)
    }
}

/// Inside an object or array `depth` brackets deep, from position `i`: the
/// position just after the bracket that closes the outermost one.
pub open spec fn nested_end(s: Seq<u8>, i: int, depth: nat) -> Option<int>
    decreases s.len() + 1 - i,
{
    if i < 0 || i >= s.len() {
        None
    } else if s[i] == 34 {
        match string_close(s, i + 1) {
            Some(e) => {
                proof {
                    lemma_string_close(s, i + 1);
                }
                nested_end(s, e + 1, depth)
            },
            None => None,
        }
    } else if s[i] == 123 || s[i] == 91 {
        nested_end(s, i + 1, depth + 1)
    } else if s[i] == 125 || s[i] == 93 {
        if depth <= 1 {
            Some(i + 1)
        } else {
            nested_end(s, i + 1, (depth - 1) as nat)
        }
    } else {
        nested_end(s, i + 1, depth)
    }
}

pub proof fn lemma_nested_end(s: Seq<u8>, i: int, depth: nat)
    ensures
        nested_end(s, i, depth) matches Some(e) ==> i < e <= s.len(),
    decreases s.len() + 1 - i,
{
    if 0 <= i < s.len() {
        if s[i] == 34 {
            lemma_string_close(s, i + 1);
            if let Some(e) = string_close(s, i + 1) {
                lemma_nested_end(s, e + 1, depth);
            }
        } else if s[i] == 123 || s[i] == 91 {
            lemma_nested_end(s, i + 1, depth + 1);
        } else if s[i] == 125 || s[i] == 93 {
            if depth > 1 {
                lemma_nested_end(s, i + 1, (depth - 1) as nat);
            }
        } else {
            lemma_nested_end(s, i + 1, depth);
        }
    }
}

/// Where the value starting at `v` ends, with its contents when it is a
/// string; `None` when no value starts there.
pub open spec fn value_at(s: Seq<u8>, v: int) -> Option<(int, Option<Seq<u8>>)> {
    if 0 <= v < s.len() && s[v] == 34 {
        match string_close(s, v + 1) {
            Some(e) => Some((e + 1, Some(s.subrange(v + 1, e)))),
            None => None,
        }
    } else if 0 <= v < s.len() && (s[v] == 123 || s[v] == 91) {
        match nested_end(s, v + 1, 1) {
            Some(e) => Some((e, None)),
            None => None,
        }
    } else {
        let e = token_end(s, v);
        if e > v {
            Some((e, None))
        } else {
            None
        }
    }
}

/// The bytes of the member name `code`.
pub open spec fn code_name() -> Seq<u8> {
    seq![99u8, 111u8, 100u8, 101u8]
}


pub proof fn lemma_skip_space(s: Seq<u8>, i: int)
    requires
        0 <= i <= s.len(),
    ensures
        i <= skip_space(s, i) <= s.len(),
        skip_space(s, i) < s.len() ==> !is_json_space(s[skip_space(s, i)]),
    decreases s.len() - i,
{
    if i < s.len() && is_json_space(s[i]) {
        lemma_skip_space(s, i + 1);
    }
}

pub proof fn lemma_token_end(s: Seq<u8>, i: int)
    requires
        0 <= i <= s.len(),
    ensures
        i <= token_end(s, i) <= s.len(),
    decreases s.len() - i,
{
    if i < s.len() && is_token_byte(s[i]) {
        lemma_token_end(s, i + 1);
    }
}

pub proof fn lemma_string_close(s: Seq<u8>, i: int)
    requires
        0 <= i,
    ensures
        string_close(s, i) matches Some(e) ==> i <= e < s.len() && s[e] == 34,
    decreases s.len() + 1 - i,
{
    if 0 <= i < s.len() && s[i] != 34 {
        if s[i] == 92 {
            lemma_string_close(s, i + 2);
        } else {
            lemma_string_close(s, i + 1);
        }
    }
}

pub proof fn lemma_value_at(s: Seq<u8>, v: int)
    requires
        0 <= v <= s.len(),
    ensures
        value_at(s, v) matches Some((e, _)) ==> v < e <= s.len(),
{
    if 0 <= v < s.len() && s[v] == 34 {
        lemma_string_close(s, v + 1);
    } else if 0 <= v < s.len() && (s[v] == 123 || s[v] == 91) {
        lemma_nested_end(s, v + 1, 1);
    } else {
        lemma_token_end(s, v);
    }
}

/// Reads the members of the object from position `i` (just after `{` or a
/// comma), `code` being what the members read so far set the code to: the
/// code at the closing brace, or `None` when the text is malformed. The
/// closing brace may come right after `{` or after a comma.
pub open spec fn members(s: Seq<u8>, i: int, code: Option<Seq<u8>>) -> Option<Option<Seq<u8>>>
    decreases s.len() - i,
{
    let k = skip_space(s, i);
    if 0 <= k < s.len() && s[k] == 125 {
        if skip_space(s, k + 1) == s.len() {
            Some(code)
        } else {
            None
        }
    } else if !(0 <= k < s.len() && s[k] == 34) {
        None
    } else {
        match string_close(s, k + 1) {
            None => None,
            Some(ke) => {
                let name = s.subrange(k + 1, ke);
                let c = skip_space(s, ke + 1);
                if !(0 <= c < s.len() && s[c] == 58) {
                    None
                } else {
                    let v = skip_space(s, c + 1);
                    match value_at(s, v) {
                        None => None,
                        Some((ve, val)) => {
                            let code2 = if name == code_name() {
                                val
                            } else {
                                code
                            };
                            let n = skip_space(s, ve);
                            if 0 <= n < s.len() && s[n] == 44 {
                                proof {
                                    lemma_skip_space(s, i);
                                    lemma_string_close(s, k + 1);
                                    lemma_skip_space(s, ke + 1);
                                    lemma_skip_space(s, c + 1);
                                    lemma_value_at(s, v);
                                    lemma_skip_space(s, ve);
                                }
                                members(s, n + 1, code2)
                            } else if 0 <= n < s.len() && s[n] == 125 && skip_space(s, n + 1)
                                == s.len() {
                                Some(code2)
                            } else {
                                None
                            }
                        },
                    }
                }
            },
        }
    }
}

/// The code that a JSON answer carries: `None` when the answer is not a
/// flat JSON object, `Some(None)` when it has no `code` member whose value
/// is a string, else `Some(Some(c))` with the contents of the last such member.
pub open spec fn answer_code(s: Seq<u8>) -> Option<Option<Seq<u8>>> {
    let b = skip_space(s, 0);
    if !(0 <= b < s.len() && s[b] == 123) {
        None
    } else {
        members(s, b + 1, None)
    }
}

fn skip_space_exec(s: &Vec<u8>, i: usize) -> (r: usize)
    requires
        i <= s@.len(),
    ensures
        r as int == skip_space(s@, i as int),
        i <= r <= s@.len(),
{
    let mut j = i;
    while j < s.len() && (s[j] == 32 || s[j] == 9 || s[j] == 10 || s[j] == 13)
        invariant
            i <= j <= s@.len(),
            skip_space(s@, i as int) == skip_space(s@, j as int),
        decreases s@.len() - j,
    {
        j = j + 1;
    }
    j
}

fn token_end_exec(s: &Vec<u8>, i: usize) -> (r: usize)
    requires
        i <= s@.len(),
    ensures
        r as int == token_end(s@, i as int),
        i <= r <= s@.len(),
{
    let mut j = i;
    while j < s.len() && ((48 <= s[j] && s[j] <= 57) || (65 <= s[j] && s[j] <= 90) || (97 <= s[j]
        && s[j] <= 122) || s[j] == 43 || s[j] == 45 || s[j] == 46)
        invariant
            i <= j <= s@.len(),
            token_end(s@, i as int) == token_end(s@, j as int),
        decreases s@.len() - j,
    {
        j = j + 1;
    }
    j
}

fn string_close_exec(s: &Vec<u8>, i: usize) -> (r: Option<usize>)
    ensures
        match r {
            Some(e) => string_close(s@, i as int) == Some(e as int),
            None => string_close(s@, i as int) is None,
        },
{
    let mut j = i;
    while j < s.len()
        invariant
            i <= j,
            string_close(s@, i as int) == string_close(s@, j as int),
        decreases s@.len() - j,
    {
        if s[j] == 34 {
            return Some(j);
        } else if s[j] == 92 {
            if j + 1 >= s.len() {
                assert(string_close(s@, j as int + 2) is None);
                return None;
            }
            j = j + 2;
        } else {
            j = j + 1;
        }
    }
    None
}

fn nested_end_exec(s: &Vec<u8>, i: usize) -> (r: Option<usize>)
    requires
        1 <= i,
    ensures
        match r {
            Some(e) => nested_end(s@, i as int, 1) == Some(e as int),
            None => nested_end(s@, i as int, 1) is None,
        },
{
    let mut j = i;
    let mut depth: usize = 1;
    while j < s.len()
        invariant
            1 <= depth <= j,
            nested_end(s@, i as int, 1) == nested_end(s@, j as int, depth as nat),
        decreases s@.len() - j,
    {
        if s[j] == 34 {
            match string_close_exec(s, j + 1) {
                Some(e) => {
                    proof {
                        lemma_string_close(s@, j + 1);
                    }
                    j = e + 1;
                },
                None => return None,
            }
        } else if s[j] == 123 || s[j] == 91 {
            depth = depth + 1;
            j = j + 1;
        } else if s[j] == 125 || s[j] == 93 {
            if depth <= 1 {
                return Some(j + 1);
            }
            depth = depth - 1;
            j = j + 1;
        } else {
            j = j + 1;
        }
    }
    None
}

/// Whether `s[a..b]` spells `code`.
fn names_code(s: &Vec<u8>, a: usize, b: usize) -> (r: bool)
    requires
        a <= b <= s@.len(),
    ensures
        r == (s@.subrange(a as int, b as int) == code_name()),
{
    let ghost t = s@.subrange(a as int, b as int);
    assert(code_name().len() == 4);
    if b - a != 4 {
        assert(t.len() != code_name().len());
        return false;
    }
    assert(t[0] == s@[a as int]);
    assert(t[1] == s@[a + 1]);
    assert(t[2] == s@[a + 2]);
    assert(t[3] == s@[a + 3]);
    let r = s[a] == 99 && s[a + 1] == 111 && s[a + 2] == 100 && s[a + 3] == 101;
    proof {
        if r {
            assert(t =~= code_name());
        } else if t == code_name() {
            assert(t[0] == 99u8 && t[1] == 111u8 && t[2] == 100u8 && t[3] == 101u8);
        }
    }
    r
}

/// The bytes `s[a..b]`.
fn copy_range(s: &Vec<u8>, a: usize, b: usize) -> (r: Vec<u8>)
    requires
        a <= b <= s@.len(),
    ensures
        r@ == s@.subrange(a as int, b as int),
{
    let mut r: Vec<u8> = Vec::new();
    let mut j = a;
    while j < b
        invariant
            a <= j <= b <= s@.len(),
            r@ == s@.subrange(a as int, j as int),
        decreases b - j,
    {
        r.push(s[j]);
        assert(r@ =~= s@.subrange(a as int, j + 1));
        j = j + 1;
    }
    r
}

/// The text that a range of `s` stands for.
pub open spec fn range_text(s: Seq<u8>, r: Option<(usize, usize)>) -> Option<Seq<u8>> {
    match r {
        Some((a, b)) => Some(s.subrange(a as int, b as int)),
        None => None,
    }
}

/// The code that the JSON answer `body` carries (see `answer_code`).
pub fn read_answer_code(body: &Vec<u8>) -> (r: Option<Option<Vec<u8>>>)
    ensures
        match r {
            None => answer_code(body@) is None,
            Some(None) => answer_code(body@) == Some(None::<Seq<u8>>),
            Some(Some(c)) => answer_code(body@) == Some(Some(c@)),
        },
{
    let s = body;
    let n = s.len();
    let b = skip_space_exec(s, 0);
    if !(b < n && s[b] == 123) {
        return None;
    }
    let mut i = b + 1;
    let mut code: Option<(usize, usize)> = None;
    loop
        invariant
            n == s@.len(),
            s@ == body@,
            i <= n,
            answer_code(s@) == members(s@, i as int, range_text(s@, code)),
            code matches Some((x, y)) ==> x <= y <= n,
        decreases n - i,
    {
        let k = skip_space_exec(s, i);
        if k < n && s[k] == 125 {
            if skip_space_exec(s, k + 1) == n {
                return match code {
                    Some((x, y)) => Some(Some(copy_range(s, x, y))),
                    None => Some(None),
                };
            }
            return None;
        }
        if !(k < n && s[k] == 34) {
            return None;
        }
        let ke = match string_close_exec(s, k + 1) {
            None => return None,
            Some(e) => e,
        };
        proof {
            lemma_string_close(s@, k + 1);
        }
        let is_code = names_code(s, k + 1, ke);
        let c = skip_space_exec(s, ke + 1);
        if !(c < n && s[c] == 58) {
            return None;
        }
        let v = skip_space_exec(s, c + 1);
        let ve: usize;
        let val: Option<(usize, usize)>;
        if v < n && s[v] == 34 {
            match string_close_exec(s, v + 1) {
                None => return None,
                Some(e) => {
                    proof {
                        lemma_string_close(s@, v + 1);
                    }
                    ve = e + 1;
                    val = Some((v + 1, e));
                },
            }
        } else if v < n && (s[v] == 123 || s[v] == 91) {
            match nested_end_exec(s, v + 1) {
                None => return None,
                Some(e) => {
                    proof {
                        lemma_nested_end(s@, v + 1, 1);
                    }
                    ve = e;
                    val = None;
                },
            }
        } else {
            let e = token_end_exec(s, v);
            if e > v {
                ve = e;
                val = None;
            } else {
                return None;
            }
        }
        let ghost before = range_text(s@, code);
        if is_code {
            code = val;
        }
        assert(range_text(s@, code) == (if s@.subrange(k + 1, ke as int) == code_name() {
            range_text(s@, val)
        } else {
            before
        }));
        let m = skip_space_exec(s, ve);
        if m < n && s[m] == 44 {
            i = m + 1;
        } else if m < n && s[m] == 125 && skip_space_exec(s, m + 1) == n {
            return match code {
                Some((x, y)) => Some(Some(copy_range(s, x, y))),
                None => Some(None),
            };
        } else {
            return None;
        }
    }
}


/// The value of the hexadecimal digit `b`, or -1.
pub open spec fn hex_value(b: u8) -> int {
    if 48 <= b <= 57 {
        b - 48
    } else if 97 <= b <= 102 {
        b - 87
    } else if 65 <= b <= 70 {
        b - 55
    } else {
        -1
    }
}

/// The unit that the two-byte escape `\b` stands for, or -1.
pub open spec fn escape_unit(b: u8) -> int {
    if b == 34 || b == 92 || b == 47 {
        b as int
    } else if b == 98 {
        8
    } else if b == 102 {
        12
    } else if b == 110 {
        10
    } else if b == 114 {
        13
    } else if b == 116 {
        9
    } else {
        -1
    }
}

/// The units spelled by the bytes of `t` from position `i`, escapes decoded
/// (`\uXXXX` gives its UTF-16 unit; other bytes stand for themselves), or
/// `None` when an escape is malformed.
pub open spec fn decode_from(t: Seq<u8>, i: int) -> Option<Seq<u32>>
    decreases t.len() - i,
{
    if i < 0 || i >= t.len() {
        Some(Seq::<u32>::empty())
    } else if t[i] == 92 {
        if i + 1 >= t.len() {
            None
        } else if t[i + 1] == 117 {
            if i + 6 <= t.len() && hex_value(t[i + 2]) >= 0 && hex_value(t[i + 3]) >= 0
                && hex_value(t[i + 4]) >= 0 && hex_value(t[i + 5]) >= 0 {
                let u = hex_value(t[i + 2]) * 4096 + hex_value(t[i + 3]) * 256 + hex_value(
                    t[i + 4],
                ) * 16 + hex_value(t[i + 5]);
                match decode_from(t, i + 6) {
                    Some(r) => Some(seq![u as u32] + r),
                    None => None,
                }
            } else {
                None
            }
        } else if escape_unit(t[i + 1]) >= 0 {
            match decode_from(t, i + 2) {
                Some(r) => Some(seq![escape_unit(t[i + 1]) as u32] + r),
                None => None,
            }
        } else {
            None
        }
    } else {
        match decode_from(t, i + 1) {
            Some(r) => Some(seq![t[i] as u32] + r),
            None => None,
        }
    }
}

/// `p` followed by the units `o`, if any.
pub open spec fn prefixed(p: Seq<u32>, o: Option<Seq<u32>>) -> Option<Seq<u32>> {
    match o {
        Some(r) => Some(p + r),
        None => None,
    }
}

proof fn lemma_prefixed_step(p: Seq<u32>, x: u32, o: Option<Seq<u32>>)
    ensures
        prefixed(p, prefixed(seq![x], o)) == prefixed(p.push(x), o),
{
    if let Some(r) = o {
        assert(p + (seq![x] + r) =~= p.push(x) + r);
    }
}

fn hex_value_exec(b: u8) -> (v: i32)
    ensures
        v as int == hex_value(b),
{
    if 48 <= b && b <= 57 {
        (b - 48) as i32
    } else if 97 <= b && b <= 102 {
        (b - 87) as i32
    } else if 65 <= b && b <= 70 {
        (b - 55) as i32
    } else {
        -1
    }
}

fn escape_unit_exec(b: u8) -> (v: i32)
    ensures
        v as int == escape_unit(b),
{
    if b == 34 || b == 92 || b == 47 {
        b as i32
    } else if b == 98 {
        8
    } else if b == 102 {
        12
    } else if b == 110 {
        10
    } else if b == 114 {
        13
    } else if b == 116 {
        9
    } else {
        -1
    }
}

/// The units that the string contents `t` spell, escapes decoded.
pub fn decode_string(t: &Vec<u8>) -> (r: Option<Vec<u32>>)
    ensures
        match r {
            Some(u) => decode_from(t@, 0) == Some(u@),
            None => decode_from(t@, 0) is None,
        },
{
    let n = t.len();
    let mut out: Vec<u32> = Vec::new();
    let mut i: usize = 0;
    assert(out@ =~= Seq::<u32>::empty());
    while i < n
        invariant
            n == t@.len(),
            i <= n,
            decode_from(t@, 0) == prefixed(out@, decode_from(t@, i as int)),
        decreases n - i,
    {
        let ghost before = out@;
        if t[i] == 92 {
            if i + 1 >= n {
                return None;
            }
            if t[i + 1] == 117 {
                if n - i < 6 {
                    return None;
                }
                let h0 = hex_value_exec(t[i + 2]);
                let h1 = hex_value_exec(t[i + 3]);
                let h2 = hex_value_exec(t[i + 4]);
                let h3 = hex_value_exec(t[i + 5]);
                if h0 < 0 || h1 < 0 || h2 < 0 || h3 < 0 {
                    return None;
                }
                let u = (h0 * 4096 + h1 * 256 + h2 * 16 + h3) as u32;
                proof {
                    lemma_prefixed_step(before, u, decode_from(t@, i + 6));
                }
                out.push(u);
                i = i + 6;
            } else {
                let e = escape_unit_exec(t[i + 1]);
                if e < 0 {
                    return None;
                }
                proof {
                    lemma_prefixed_step(before, e as u32, decode_from(t@, i + 2));
                }
                out.push(e as u32);
                i = i + 2;
            }
        } else {
            proof {
                lemma_prefixed_step(before, t[i as int] as u32, decode_from(t@, i + 1));
            }
            out.push(t[i] as u32);
            i = i + 1;
        }
    }
    assert(out@ + Seq::<u32>::empty() =~= out@);
    Some(out)
}

/// The units of the code `OK`.
pub open spec fn ok_units() -> Seq<u32> {
    seq![79u32, 75u32]
}

/// Bytes free of quotes and backslashes: they stand for themselves inside
/// a JSON string.
pub open spec fn plain(t: Seq<u8>) -> bool {
    forall|j: int| 0 <= j < t.len() ==> #[trigger] t[j] != 34 && t[j] != 92
}

/// The JSON string whose contents are `t`.
pub open spec fn quoted(t: Seq<u8>) -> Seq<u8> {
    seq![34u8] + t + seq![34u8]
}

/// The JSON member `"k":"v"`.
pub open spec fn member_text(k: Seq<u8>, v: Seq<u8>) -> Seq<u8> {
    quoted(k) + seq![58u8] + quoted(v)
}

/// The JSON object holding the member texts `a` and then `b`.
pub open spec fn object2(a: Seq<u8>, b: Seq<u8>) -> Seq<u8> {
    seq![123u8] + a + seq![44u8] + b + seq![125u8]
}

/// A string whose contents are plain closes at the first quote after them.
proof fn lemma_plain_close(s: Seq<u8>, a: int, b: int)
    requires
        0 <= a <= b < s.len(),
        s[b] == 34,
        forall|p: int| a <= p < b ==> s[p] != 34 && s[p] != 92,
    ensures
        string_close(s, a) == Some(b),
    decreases b - a,
{
    if a < b {
        lemma_plain_close(s, a + 1, b);
    }
}

/// The positions of a member `"k":"v"` that starts at `i` in `s`.
proof fn lemma_member_layout(s: Seq<u8>, i: int, k: Seq<u8>, v: Seq<u8>)
    requires
        0 <= i,
        i + member_text(k, v).len() <= s.len(),
        s.subrange(i, i + member_text(k, v).len()) == member_text(k, v),
        plain(k),
        plain(v),
    ensures
        member_text(k, v).len() == k.len() + v.len() + 5,
        s[i] == 34,
        string_close(s, i + 1) == Some(i + 1 + k.len()),
        s.subrange(i + 1, i + 1 + k.len()) == k,
        s[i + 2 + k.len()] == 58,
        s[i + 3 + k.len()] == 34,
        string_close(s, i + 4 + k.len()) == Some(i + 4 + k.len() + v.len()),
        s.subrange(i + 4 + k.len(), i + 4 + k.len() + v.len()) == v,
{
    let m = member_text(k, v);
    let kl = k.len() as int;
    let vl = v.len() as int;
    assert(m.len() == kl + vl + 5);
    assert forall|j: int| 0 <= j < m.len() implies #[trigger] s[i + j] == m[j] by {
        assert(s.subrange(i, i + m.len())[j] == s[i + j]);
    }
    assert(m[0] == 34u8);
    assert(s[i + 0] == m[0]);
    assert forall|j: int| 0 <= j < kl implies #[trigger] m[1 + j] == k[j] by {}
    assert(m[1 + kl] == 34u8);
    assert(m[2 + kl] == 58u8);
    assert(m[3 + kl] == 34u8);
    assert forall|j: int| 0 <= j < vl implies #[trigger] m[4 + kl + j] == v[j] by {}
    assert(m[4 + kl + vl] == 34u8);
    assert(s[i + (1 + kl)] == m[1 + kl]);
    assert(s[i + (2 + kl)] == m[2 + kl]);
    assert(s[i + (3 + kl)] == m[3 + kl]);
    assert(s[i + (4 + kl + vl)] == m[4 + kl + vl]);
    assert forall|p: int| i + 1 <= p < i + 1 + kl implies s[p] != 34 && s[p] != 92 by {
        assert(s[i + (p - i)] == m[p - i]);
        assert(m[1 + (p - i - 1)] == k[p - i - 1]);
    }
    lemma_plain_close(s, i + 1, i + 1 + kl);
    assert forall|p: int| i + 4 + kl <= p < i + 4 + kl + vl implies s[p] != 34 && s[p] != 92 by {
        assert(s[i + (p - i)] == m[p - i]);
        assert(m[4 + kl + (p - i - 4 - kl)] == v[p - i - 4 - kl]);
    }
    lemma_plain_close(s, i + 4 + kl, i + 4 + kl + vl);
    assert forall|j: int| 0 <= j < kl implies #[trigger] s.subrange(i + 1, i + 1 + kl)[j] == k[j] by {
        assert(s[i + (1 + j)] == m[1 + j]);
    }
    assert(s.subrange(i + 1, i + 1 + kl) =~= k);
    assert forall|j: int| 0 <= j < vl implies #[trigger] s.subrange(i + 4 + kl, i + 4 + kl + vl)[j]
        == v[j] by {
        assert(s[i + (4 + kl + j)] == m[4 + kl + j]);
    }
    assert(s.subrange(i + 4 + kl, i + 4 + kl + vl) =~= v);
}

/// Reading a member `"k":"v"` (plain `k` and `v`) followed by a comma goes on
/// after the comma with the code set to `v` when `k` is `code`, and with the
/// code unchanged for any other name; followed by the closing brace at the
/// end of the answer, it gives that code. A member not named `code` never
/// changes the code.
pub proof fn law_member_sets_code(s: Seq<u8>, i: int, code: Option<Seq<u8>>, k: Seq<u8>, v: Seq<u8>)
    requires
        0 <= i,
        i + member_text(k, v).len() < s.len(),
        s.subrange(i, i + member_text(k, v).len()) == member_text(k, v),
        plain(k),
        plain(v),
    ensures
        ({
            let e = i + member_text(k, v).len();
            let next = if k == code_name() {
                Some(v)
            } else {
                code
            };
            &&& s[e] == 44 ==> members(s, i, code) == members(s, e + 1, next)
            &&& s[e] == 125 && e + 1 == s.len() ==> members(s, i, code) == Some(next)
        }),
{
    lemma_member_layout(s, i, k, v);
    let kl = k.len() as int;
    let vl = v.len() as int;
    let e = i + kl + vl + 5;
    assert(skip_space(s, i) == i);
    assert(skip_space(s, i + 2 + kl) == i + 2 + kl);
    assert(skip_space(s, i + 3 + kl) == i + 3 + kl);
    assert(value_at(s, i + 3 + kl) == Some((e, Some(v))));
    if s[e] == 44 {
        assert(skip_space(s, e) == e);
    }
    if s[e] == 125 && e + 1 == s.len() {
        assert(skip_space(s, e) == e);
        assert(skip_space(s, e + 1) == s.len());
    }
}

/// Bytes that make a plain token (a number or a literal such as `true`).
pub open spec fn token_text(t: Seq<u8>) -> bool {
    t.len() > 0 && forall|j: int| 0 <= j < t.len() ==> #[trigger] is_token_byte(t[j])
}

/// A run of token bytes ends at the first byte that is not one.
proof fn lemma_token_run(s: Seq<u8>, a: int, b: int)
    requires
        0 <= a <= b < s.len(),
        !is_token_byte(s[b]),
        forall|p: int| a <= p < b ==> is_token_byte(s[p]),
    ensures
        token_end(s, a) == b,
    decreases b - a,
{
    if a < b {
        lemma_token_run(s, a + 1, b);
    }
}

/// Reading a member `"k":t` whose value is a plain token `t`, followed by a
/// comma, goes on after the comma with the code unchanged for any name but
/// `code`, and with no code when the name is `code` (its value is no string).
pub proof fn law_token_member_keeps_code(
    s: Seq<u8>,
    i: int,
    code: Option<Seq<u8>>,
    k: Seq<u8>,
    t: Seq<u8>,
)
    requires
        0 <= i,
        i + quoted(k).len() + 1 + t.len() < s.len(),
        s.subrange(i, i + quoted(k).len() + 1 + t.len()) == quoted(k) + seq![58u8] + t,
        s[i + quoted(k).len() + 1 + t.len()] == 44,
        plain(k),
        token_text(t),
    ensures
        members(s, i, code) == members(
            s,
            i + quoted(k).len() + 1 + t.len() + 1,
            if k == code_name() {
                None
            } else {
                code
            },
        ),
{
    let m = quoted(k) + seq![58u8] + t;
    let kl = k.len() as int;
    let tl = t.len() as int;
    let e = i + kl + 3 + tl;
    assert(m.len() == kl + 3 + tl);
    assert forall|j: int| 0 <= j < m.len() implies #[trigger] s[i + j] == m[j] by {
        assert(s.subrange(i, i + m.len())[j] == s[i + j]);
    }
    assert(s[i + 0] == m[0]);
    assert(s[i + (1 + kl)] == m[1 + kl]);
    assert(s[i + (2 + kl)] == m[2 + kl]);
    assert forall|p: int| i + 1 <= p < i + 1 + kl implies s[p] != 34 && s[p] != 92 by {
        assert(s[i + (p - i)] == m[p - i]);
        assert(m[1 + (p - i - 1)] == k[p - i - 1]);
    }
    lemma_plain_close(s, i + 1, i + 1 + kl);
    assert forall|j: int| 0 <= j < kl implies #[trigger] s.subrange(i + 1, i + 1 + kl)[j] == k[j] by {
        assert(s[i + (1 + j)] == m[1 + j]);
    }
    assert(s.subrange(i + 1, i + 1 + kl) =~= k);
    assert forall|p: int| i + 3 + kl <= p < e implies is_token_byte(s[p]) by {
        assert(s[i + (p - i)] == m[p - i]);
        assert(m[3 + kl + (p - i - 3 - kl)] == t[p - i - 3 - kl]);
    }
    assert(is_token_byte(s[i + 3 + kl])) by {
        assert(s[i + (3 + kl)] == m[3 + kl]);
        assert(m[3 + kl + 0] == t[0]);
    }
    lemma_token_run(s, i + 3 + kl, e);
    assert(skip_space(s, i) == i);
    assert(skip_space(s, i + 2 + kl) == i + 2 + kl);
    assert(skip_space(s, i + 3 + kl) == i + 3 + kl);
    assert(value_at(s, i + 3 + kl) == Some((e, None::<Seq<u8>>)));
    assert(skip_space(s, e) == e);
}

/// Plain string contents decode to their own bytes.
pub proof fn law_decode_plain(t: Seq<u8>, i: int)
    requires
        plain(t),
        0 <= i <= t.len(),
    ensures
        decode_from(t, i) == Some(t.subrange(i, t.len() as int).map_values(|b: u8| b as u32)),
    decreases t.len() - i,
{
    if i < t.len() {
        law_decode_plain(t, i + 1);
        assert(t[i] != 92);
        assert(seq![t[i] as u32] + t.subrange(i + 1, t.len() as int).map_values(|b: u8| b as u32)
            =~= t.subrange(i, t.len() as int).map_values(|b: u8| b as u32));
    } else {
        assert(t.subrange(i, t.len() as int).map_values(|b: u8| b as u32) =~= Seq::<u32>::empty());
    }
}

/// With status 200, an answer holding `"code":"OK"` and one other plain
/// member is accepted, whichever comes first.
pub proof fn law_ok_answer_accepted(k: Seq<u8>, v: Seq<u8>)
    requires
        plain(k),
        plain(v),
        k != code_name(),
    ensures
        answer_accepts(200, object2(member_text(code_name(), seq![79u8, 75u8]), member_text(k, v))),
        answer_accepts(200, object2(member_text(k, v), member_text(code_name(), seq![79u8, 75u8]))),
{
    let ok = seq![79u8, 75u8];
    assert(plain(ok)) by {
        assert forall|j: int| 0 <= j < ok.len() implies #[trigger] ok[j] != 34 && ok[j] != 92 by {}
    }
    law_other_members_keep_code(ok, k, v);
    law_decode_plain(ok, 0);
    assert(ok.subrange(0, 2).map_values(|b: u8| b as u32) =~= ok_units());
}

/// An answer holding the member `"code":"c"` and one other member whose
/// name is not `code` carries the code `c`, whichever member comes first:
/// other members never clear or change the code.
pub proof fn law_other_members_keep_code(c: Seq<u8>, k: Seq<u8>, v: Seq<u8>)
    requires
        plain(c),
        plain(k),
        plain(v),
        k != code_name(),
    ensures
        answer_code(object2(member_text(code_name(), c), member_text(k, v))) == Some(Some(c)),
        answer_code(object2(member_text(k, v), member_text(code_name(), c))) == Some(Some(c)),
{
    assert(plain(code_name())) by {
        assert forall|j: int| 0 <= j < code_name().len() implies #[trigger] code_name()[j] != 34
            && code_name()[j] != 92 by {}
    }
    lemma_object2(member_text(code_name(), c), code_name(), c, member_text(k, v), k, v);
    lemma_object2(member_text(k, v), k, v, member_text(code_name(), c), code_name(), c);
}

/// How an object of two plain members is read.
proof fn lemma_object2(a: Seq<u8>, k1: Seq<u8>, v1: Seq<u8>, b: Seq<u8>, k2: Seq<u8>, v2: Seq<u8>)
    requires
        a == member_text(k1, v1),
        b == member_text(k2, v2),
        plain(k1),
        plain(v1),
        plain(k2),
        plain(v2),
    ensures
        answer_code(object2(a, b)) == Some(
            if k2 == code_name() {
                Some(v2)
            } else if k1 == code_name() {
                Some(v1)
            } else {
                None::<Seq<u8>>
            },
        ),
{
    let s = object2(a, b);
    let la = a.len() as int;
    let lb = b.len() as int;
    assert(s.len() == la + lb + 3);
    assert(s[0] == 123u8);
    assert(skip_space(s, 0) == 0);
    assert(s.subrange(1, 1 + la) =~= a);
    assert(s[1 + la] == 44u8);
    assert(s.subrange(2 + la, 2 + la + lb) =~= b);
    assert(s[2 + la + lb] == 125u8);
    let first = if k1 == code_name() {
        Some(v1)
    } else {
        None::<Seq<u8>>
    };
    law_member_sets_code(s, 1, None, k1, v1);
    law_member_sets_code(s, 2 + la, first, k2, v2);
}

/// Whether the backend's answer accepts a connection: HTTP status 200 and a
/// JSON body whose `code` is `OK`.
pub open spec fn answer_accepts(status: u16, body: Seq<u8>) -> bool {
    &&& status == 200
    &&& answer_code(body) matches Some(Some(c)) && decode_from(c, 0) == Some(ok_units())
}

/// An answer whose code is anything but `OK`, or that carries no code, or
/// whose status is not 200, refuses the connection.
pub proof fn law_only_ok_accepts(status: u16, body: Seq<u8>)
    ensures
        answer_accepts(status, body) ==> status == 200,
        answer_code(body) matches Some(Some(c)) && decode_from(c, 0) != Some(ok_units())
            ==> !answer_accepts(status, body),
        answer_code(body) == Some(None::<Seq<u8>>) ==> !answer_accepts(status, body),
        answer_code(body) is None ==> !answer_accepts(status, body),
{
}

} // verus!
