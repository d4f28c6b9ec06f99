//! Verified building blocks for the string processing the site generator
//! does: substring search, replacement, path joining, decimal formatting.

use vstd::prelude::*;

verus! {

use vstd::string::StrSliceExecFns;

/// Relies on String::push: appends the given character to the end of the string.
pub assume_specification[ String::push ](s: &mut String, ch: char)
    ensures
        final(s)@ == old(s)@.push(ch),
;

/// The ASCII whitespace characters (space, tab, line feed, carriage
/// return, form feed).
pub open spec fn is_ws_char(c: char) -> bool {
    c == ' ' || c == '\t' || c == '\n' || c == '\r' || c == '\u{c}'
}

pub fn ws_char(c: char) -> (r: bool)
    ensures
        r == is_ws_char(c),
{
    c == ' ' || c == '\t' || c == '\n' || c == '\r' || c == '\u{c}'
}

/// The Unicode white-space characters: the ASCII controls and space, and
/// the Unicode space marks.
pub open spec fn is_space_mark(c: char) -> bool {
    ('\u{9}' <= c && c <= '\u{d}') || c == ' ' || c == '\u{85}' || c == '\u{a0}'
        || c == '\u{1680}' || ('\u{2000}' <= c && c <= '\u{200a}') || c == '\u{2028}'
        || c == '\u{2029}' || c == '\u{202f}' || c == '\u{205f}' || c == '\u{3000}'
}

pub fn space_mark(c: char) -> (r: bool)
    ensures
        r == is_space_mark(c),
{
    ('\u{9}' <= c && c <= '\u{d}') || c == ' ' || c == '\u{85}' || c == '\u{a0}'
        || c == '\u{1680}' || ('\u{2000}' <= c && c <= '\u{200a}') || c == '\u{2028}'
        || c == '\u{2029}' || c == '\u{202f}' || c == '\u{205f}' || c == '\u{3000}'
}

/// ASCII letters and digits.
pub open spec fn is_alnum_char(c: char) -> bool {
    ('a' <= c && c <= 'z') || ('A' <= c && c <= 'Z') || ('0' <= c && c <= '9')
}

pub fn alnum_char(c: char) -> (r: bool)
    ensures
        r == is_alnum_char(c),
{
    ('a' <= c && c <= 'z') || ('A' <= c && c <= 'Z') || ('0' <= c && c <= '9')
}

/// The pattern `pat` occurs in `s` starting at position `i`.
pub open spec fn match_at(s: Seq<char>, pat: Seq<char>, i: int) -> bool {
    0 <= i && i + pat.len() <= s.len() && s.subrange(i, i + pat.len()) == pat
}

/// Compare `pat` against `s` at position `i`.
pub fn is_match_at(s: &str, pat: &str, i: usize) -> (r: bool)
    requires
        i + pat@.len() <= s@.len(),
    ensures
        r == match_at(s@, pat@, i as int),
{
    let n: usize = s.unicode_len();
    let m: usize = pat.unicode_len();
    let mut k: usize = 0;
    while k < m
        invariant
            n == s@.len(),
            m == pat@.len(),
            i + m <= n,
            0 <= k <= m,
            forall|j: int| 0 <= j < k ==> s@[i + j] == pat@[j],
        decreases m - k,
    {
        if s.get_char(i + k) != pat.get_char(k) {
            assert(s@.subrange(i as int, i + pat@.len()) != pat@) by {
                assert(s@.subrange(i as int, i + pat@.len())[k as int] == s@[i + k]);
            }
            return false;
        }
        k = k + 1;
    }
    assert(s@.subrange(i as int, i + pat@.len()) =~= pat@);
    true
}

/// Leftmost occurrence of `pat` in `s`, as a character position.
pub fn find_sub(s: &str, pat: &str) -> (r: Option<usize>)
    ensures
        match r {
            Some(i) => match_at(s@, pat@, i as int) && forall|j: int|
                0 <= j < i ==> !match_at(s@, pat@, j),
            None => forall|j: int| !match_at(s@, pat@, j),
        },
{
    let n: usize = s.unicode_len();
    let m: usize = pat.unicode_len();
    if m > n {
        return None;
    }
    if m == 0 {
        assert(s@.subrange(0, 0) =~= pat@);
        return Some(0);
    }
    let mut i: usize = 0;
    while i <= n - m
        invariant
            n == s@.len(),
            m == pat@.len(),
            0 < m <= n,
            0 <= i <= n - m + 1,
            forall|j: int| 0 <= j < i ==> !match_at(s@, pat@, j),
        decreases n - i,
    {
        if is_match_at(s, pat, i) {
            return Some(i);
        }
        i = i + 1;
    }
    None
}

/// Whether `pat` occurs anywhere in `s`.
pub fn contains_sub(s: &str, pat: &str) -> (r: bool)
    ensures
        r == exists|j: int| match_at(s@, pat@, j),
{
    match find_sub(s, pat) {
        Some(i) => {
            assert(match_at(s@, pat@, i as int));
            true
        },
        None => false,
    }
}

/// Every occurrence of `pat` replaced by `rep`, scanning left to right
/// without overlap, as `str::replace` does.
pub open spec fn replace_spec(s: Seq<char>, pat: Seq<char>, rep: Seq<char>) -> Seq<char>
    decreases s.len(),
    when pat.len() > 0
{
    if s.len() == 0 {
        s
    } else if match_at(s, pat, 0) {
        rep + replace_spec(s.subrange(pat.len() as int, s.len() as int), pat, rep)
    } else {
        seq![s[0]] + replace_spec(s.subrange(1, s.len() as int), pat, rep)
    }
}

pub fn replace_all(s: &str, pat: &str, rep: &str) -> (r: String)
    requires
        pat@.len() > 0,
    ensures
        r@ == replace_spec(s@, pat@, rep@),
    decreases s@.len(),
{
    let n: usize = s.unicode_len();
    let m: usize = pat.unicode_len();
    if n == 0 {
        let r = String::new();
        assert(r@ =~= s@);
        return r;
    }
    if m <= n && is_match_at(s, pat, 0) {
        let rest = s.substring_char(m, n);
        let tail = replace_all(rest, pat, rep);
        let mut out = rep.to_owned();
        out.append(tail.as_str());
        assert(out@ =~= replace_spec(s@, pat@, rep@));
        out
    } else {
        assert(!match_at(s@, pat@, 0));
        let rest = s.substring_char(1, n);
        let tail = replace_all(rest, pat, rep);
        let mut out = String::new();
        out.push(s.get_char(0));
        out.append(tail.as_str());
        assert(out@ =~= seq![s@[0]] + tail@);
        assert(out@ =~= replace_spec(s@, pat@, rep@));
        out
    }
}

/// Join of an output root and a relative path, as `Path::join` behaves on
/// plain `/`-separated paths: an absolute right side wins, otherwise the two
/// are joined with exactly one separator.
pub open spec fn join_path_spec(a: Seq<char>, b: Seq<char>) -> Seq<char> {
    if b.len() > 0 && b[0] == '/' {
        b
    } else if a.len() == 0 {
        b
    } else if a[a.len() - 1] == '/' {
        a + b
    } else {
        a + seq!['/'] + b
    }
}

pub fn join_path(a: &str, b: &str) -> (r: String)
    ensures
        r@ == join_path_spec(a@, b@),
{
    let bn: usize = b.unicode_len();
    let an: usize = a.unicode_len();
    if bn > 0 && b.get_char(0) == '/' {
        return b.to_owned();
    }
    if an == 0 {
        return b.to_owned();
    }
    let mut out = a.to_owned();
    if a.get_char(an - 1) != '/' {
        out.push('/');
    }
    out.append(b);
    assert(out@ =~= join_path_spec(a@, b@));
    out
}

/// The decimal digit `d` as a character.
pub open spec fn dec_digit(d: int) -> char {
    ((48 + d) as u8) as char
}

/// The decimal representation of a non-negative integer.
pub open spec fn dec_str(n: int) -> Seq<char>
    decreases n,
    when n >= 0
{
    if n < 10 {
        seq![dec_digit(n)]
    } else {
        dec_str(n / 10).push(dec_digit(n % 10))
    }
}

/// The decimal representation of an integer, with a leading minus sign when
/// negative.
pub open spec fn dec_str_signed(n: int) -> Seq<char> {
    if n >= 0 {
        dec_str(n)
    } else {
        seq!['-'] + dec_str(-n)
    }
}

pub fn u64_to_string(n: u64) -> (r: String)
    ensures
        r@ == dec_str(n as int),
    decreases n,
{
    if n < 10 {
        let mut out = String::new();
        out.push(((48 + n) as u8) as char);
        assert(out@ =~= dec_str(n as int));
        out
    } else {
        let mut out = u64_to_string(n / 10);
        out.push(((48 + n % 10) as u8) as char);
        assert(out@ =~= dec_str(n as int));
        out
    }
}

pub fn i64_to_string(n: i64) -> (r: String)
    ensures
        r@ == dec_str_signed(n as int),
{
    if n >= 0 {
        u64_to_string(n as u64)
    } else {
        let mag: u64 = ((-(n + 1)) as u64) + 1;
        let tail = u64_to_string(mag);
        let mut out = String::new();
        out.push('-');
        out.append(tail.as_str());
        assert(out@ =~= dec_str_signed(n as int));
        out
    }
}

pub fn i32_to_string(n: i32) -> (r: String)
    ensures
        r@ == dec_str_signed(n as int),
{
    i64_to_string(n as i64)
}

pub fn u32_to_string(n: u32) -> (r: String)
    ensures
        r@ == dec_str(n as int),
{
    u64_to_string(n as u64)
}

/// `t` without its leading whitespace.
pub open spec fn trim_start_spec(t: Seq<char>) -> Seq<char>
    decreases t.len(),
{
    if t.len() > 0 && is_space_mark(t[0]) {
        trim_start_spec(t.drop_first())
    } else {
        t
    }
}

/// `t` without its trailing whitespace.
pub open spec fn trim_end_spec(t: Seq<char>) -> Seq<char>
    decreases t.len(),
{
    if t.len() > 0 && is_space_mark(t[t.len() - 1]) {
        trim_end_spec(t.drop_last())
    } else {
        t
    }
}

/// `t` without leading and trailing whitespace.
pub open spec fn trim_spec(t: Seq<char>) -> Seq<char> {
    trim_end_spec(trim_start_spec(t))
}

proof fn lemma_trim_start_range(t: Seq<char>, a: int)
    requires
        0 <= a <= t.len(),
        forall|j: int| 0 <= j < a ==> is_space_mark(t[j]),
        a < t.len() ==> !is_space_mark(t[a]),
    ensures
        trim_start_spec(t) =~= t.subrange(a, t.len() as int),
    decreases a,
{
    if a == 0 {
        assert(t.subrange(0, t.len() as int) =~= t);
    } else {
        assert(is_space_mark(t[0]));
        let rest = t.drop_first();
        assert(forall|j: int| 0 <= j < a - 1 ==> is_space_mark(rest[j]));
        if a - 1 < rest.len() {
            assert(rest[a - 1] == t[a]);
        }
        lemma_trim_start_range(rest, a - 1);
        assert(rest.subrange(a - 1, rest.len() as int) =~= t.subrange(a, t.len() as int));
    }
}

proof fn lemma_trim_end_range(t: Seq<char>, b: int)
    requires
        0 <= b <= t.len(),
        forall|j: int| b <= j < t.len() ==> is_space_mark(t[j]),
        b > 0 ==> !is_space_mark(t[b - 1]),
    ensures
        trim_end_spec(t) =~= t.subrange(0, b),
    decreases t.len() - b,
{
    if b == t.len() {
        assert(t.subrange(0, t.len() as int) =~= t);
    } else {
        assert(is_space_mark(t[t.len() - 1]));
        assert(t.drop_last() =~= t.subrange(0, t.len() - 1));
        assert(forall|j: int| b <= j < t.drop_last().len() ==> is_space_mark(t.drop_last()[j]));
        if b > 0 {
            assert(t.drop_last()[b - 1] == t[b - 1]);
        }
        lemma_trim_end_range(t.drop_last(), b);
        assert(t.drop_last().subrange(0, b) =~= t.subrange(0, b));
    }
}

/// The text without leading and trailing whitespace.
pub fn trim_of(s: &str) -> (r: String)
    ensures
        r@ == trim_spec(s@),
{
    let n: usize = s.unicode_len();
    let mut a: usize = 0;
    while a < n && space_mark(s.get_char(a))
        invariant
            n == s@.len(),
            0 <= a <= n,
            forall|j: int| 0 <= j < a ==> is_space_mark(s@[j]),
        decreases n - a,
    {
        a = a + 1;
    }
    proof {
        lemma_trim_start_range(s@, a as int);
    }
    let ghost started = trim_start_spec(s@);
    let mut b: usize = n;
    while b > a && space_mark(s.get_char(b - 1))
        invariant
            n == s@.len(),
            0 <= a <= b <= n,
            started == s@.subrange(a as int, n as int),
            forall|j: int| 0 <= j < a ==> is_space_mark(s@[j]),
            a < n ==> !is_space_mark(s@[a as int]),
            forall|j: int| b <= j < n ==> is_space_mark(s@[j]),
        decreases b,
    {
        b = b - 1;
    }
    proof {
        assert(forall|j: int|
            b - a <= j < started.len() ==> is_space_mark(#[trigger] started[j]));
        if b > a {
            assert(started[b - a - 1] == s@[b - 1]);
        }
        lemma_trim_end_range(started, b - a);
    }
    let piece = s.substring_char(a, b);
    let r = piece.to_owned();
    assert(r@ =~= trim_spec(s@)) by {
        assert(started.subrange(0, b - a) =~= s@.subrange(a as int, b as int));
    }
    r
}

/// Strict lexicographic order on character sequences, by code point — the
/// order `str` comparison gives on these texts.
pub open spec fn lex_lt(a: Seq<char>, b: Seq<char>) -> bool
    decreases a.len(),
{
    if b.len() == 0 {
        false
    } else if a.len() == 0 {
        true
    } else if a[0] != b[0] {
        a[0] < b[0]
    } else {
        lex_lt(a.drop_first(), b.drop_first())
    }
}

/// Two texts that neither precede nor follow one another are the same.
pub proof fn lemma_lex_total(a: Seq<char>, b: Seq<char>)
    requires
        !lex_lt(a, b),
        !lex_lt(b, a),
    ensures
        a == b,
    decreases a.len(),
{
    if a.len() == 0 || b.len() == 0 {
        assert(a =~= b);
    } else {
        lemma_lex_total(a.drop_first(), b.drop_first());
        assert(a =~= seq![a[0]] + a.drop_first());
        assert(b =~= seq![b[0]] + b.drop_first());
    }
}

/// The order is transitive.
pub proof fn lemma_lex_trans(a: Seq<char>, b: Seq<char>, c: Seq<char>)
    requires
        lex_lt(a, b),
        lex_lt(b, c),
    ensures
        lex_lt(a, c),
    decreases a.len(),
{
    if a.len() == 0 {
    } else if b.len() == 0 {
    } else if c.len() == 0 {
    } else {
        if a[0] == b[0] && b[0] == c[0] {
            lemma_lex_trans(a.drop_first(), b.drop_first(), c.drop_first());
        }
    }
}

/// Compare two texts in the lexicographic order.
pub fn str_lt(a: &str, b: &str) -> (r: bool)
    ensures
        r == lex_lt(a@, b@),
{
    let an: usize = a.unicode_len();
    let bn: usize = b.unicode_len();
    let mut i: usize = 0;
    assert(a@.skip(0) =~= a@);
    assert(b@.skip(0) =~= b@);
    while i < an && i < bn
        invariant
            an == a@.len(),
            bn == b@.len(),
            0 <= i <= an,
            0 <= i <= bn,
            lex_lt(a@, b@) == lex_lt(a@.skip(i as int), b@.skip(i as int)),
        decreases an - i,
    {
        let ghost pa = a@.skip(i as int);
        let ghost pb = b@.skip(i as int);
        proof {
            assert(pa[0] == a@[i as int]);
            assert(pb[0] == b@[i as int]);
            assert(pa.drop_first() =~= a@.skip(i + 1));
            assert(pb.drop_first() =~= b@.skip(i + 1));
        }
        let ca = a.get_char(i);
        let cb = b.get_char(i);
        if ca != cb {
            return ca < cb;
        }
        i = i + 1;
    }
    proof {
        if i >= bn {
            assert(b@.skip(i as int).len() == 0);
        } else {
            assert(a@.skip(i as int).len() == 0);
            assert(b@.skip(i as int).len() > 0);
        }
    }
    i < bn
}

/// A copy of a vector of strings, equal element by element.
pub fn clone_string_vec(v: &Vec<String>) -> (r: Vec<String>)
    ensures
        r@ == v@,
{
    let mut out: Vec<String> = Vec::new();
    let mut i: usize = 0;
    while i < v.len()
        invariant
            0 <= i <= v.len(),
            out@ == v@.subrange(0, i as int),
        decreases v.len() - i,
    {
        out.push(v[i].clone());
        assert(out@ =~= v@.subrange(0, i + 1));
        i = i + 1;
    }
    assert(out@ =~= v@);
    out
}

/// A copy of a vector of string pairs, equal element by element.
pub fn clone_pair_vec(v: &Vec<(String, String)>) -> (r: Vec<(String, String)>)
    ensures
        r@ == v@,
{
    let mut out: Vec<(String, String)> = Vec::new();
    let mut i: usize = 0;
    while i < v.len()
        invariant
            0 <= i <= v.len(),
            out@ == v@.subrange(0, i as int),
        decreases v.len() - i,
    {
        let pair = (v[i].0.clone(), v[i].1.clone());
        out.push(pair);
        assert(out@ =~= v@.subrange(0, i + 1));
        i = i + 1;
    }
    assert(out@ =~= v@);
    out
}

/// The final path segment: what follows the last separator, empty when the
/// path ends in a separator.
pub open spec fn file_name_spec(t: Seq<char>) -> Seq<char>
    decreases t.len(),
{
    if t.len() == 0 {
        t
    } else if t[t.len() - 1] == '/' {
        Seq::empty()
    } else {
        file_name_spec(t.drop_last()).push(t[t.len() - 1])
    }
}

pub fn file_name_of(path: &str) -> (r: String)
    ensures
        r@ == file_name_spec(path@),
{
    let n: usize = path.unicode_len();
    let mut i: usize = n;
    while i > 0
        invariant
            n == path@.len(),
            0 <= i <= n,
            forall|j: int| i <= j < n ==> path@[j] != '/',
        decreases i,
    {
        if path.get_char(i - 1) == '/' {
            let seg = path.substring_char(i, n);
            let r = seg.to_owned();
            assert(r@ =~= file_name_spec(path@)) by {
                lemma_file_name_after_slash(path@, i as int);
            }
            return r;
        }
        i = i - 1;
    }
    let r = path.to_owned();
    assert(r@ =~= file_name_spec(path@)) by {
        lemma_file_name_no_slash(path@);
    }
    r
}

proof fn lemma_file_name_no_slash(t: Seq<char>)
    requires
        forall|j: int| 0 <= j < t.len() ==> t[j] != '/',
    ensures
        file_name_spec(t) =~= t,
    decreases t.len(),
{
    if t.len() > 0 {
        lemma_file_name_no_slash(t.drop_last());
    }
}

proof fn lemma_file_name_after_slash(t: Seq<char>, i: int)
    requires
        0 < i <= t.len(),
        t[i - 1] == '/',
        forall|j: int| i <= j < t.len() ==> t[j] != '/',
    ensures
        file_name_spec(t) =~= t.subrange(i, t.len() as int),
    decreases t.len(),
{
    if t.len() == i {
        assert(t[t.len() - 1] == '/');
    } else {
        lemma_file_name_after_slash(t.drop_last(), i);
        assert(t.drop_last().subrange(i, t.len() - 1) =~= t.subrange(i, t.len() - 1));
        assert(t.subrange(i, t.len() as int) =~= t.subrange(i, t.len() - 1).push(
            t[t.len() - 1],
        ));
    }
}

} // verus!
