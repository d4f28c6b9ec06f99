//! Content hashing and the small text utilities the generator exposes.

use vstd::prelude::*;

verus! {

use vstd::string::StrSliceExecFns;
use crate::strings::{is_ws_char, is_alnum_char, ws_char, alnum_char, is_space_mark, space_mark};
use sha2::Digest;

/// The lowercase hexadecimal form of the SHA-256 digest of a string.
pub uninterp spec fn sha256_hex_of(s: Seq<char>) -> Seq<char>;

/// Relies on sha2's Sha256: the digest is 32 bytes, printed here as 64
/// lowercase hexadecimal characters, and depends on the input alone.
#[verifier::external_body]
fn sha256_hex(input: &str) -> (r: String)
    ensures
        r@ == sha256_hex_of(input@),
        r@.len() == 64,
{
    format!("{:x}", sha2::Sha256::digest(input.as_bytes()))
}

/// A fixed-length prefix of the SHA-256 digest of `input`, used as the
/// content hash of documents.
pub fn hash_string(input: &str, length: usize) -> (r: String)
    requires
        length <= 64,
    ensures
        r@ == sha256_hex_of(input@).subrange(0, length as int),
        r@.len() == length,
{
    let full = sha256_hex(input);
    let short = full.as_str().substring_char(0, length);
    short.to_owned()
}

/// The lowercase form of a string, as `str::to_lowercase` computes it.
pub uninterp spec fn lower_of(s: Seq<char>) -> Seq<char>;

/// Relies on str::to_lowercase: the result depends on the characters alone.
#[verifier::external_body]
fn lowercase(s: &str) -> (r: String)
    ensures
        r@ == lower_of(s@),
        s@.len() == 0 ==> r@.len() == 0,
{
    s.to_lowercase()
}

/// The slug of `t`: ASCII letters and digits kept, whitespace runs turned
/// into single dashes between words, everything else dropped. `emitted` says
/// whether a word has been written already, `pending` whether the next word
/// must be preceded by a dash.
pub open spec fn slug_seq(t: Seq<char>, emitted: bool, pending: bool) -> Seq<char>
    decreases t.len(),
{
    if t.len() == 0 {
        Seq::empty()
    } else {
        let c = t[0];
        let rest = t.drop_first();
        if is_alnum_char(c) {
            (if pending {
                seq!['-', c]
            } else {
                seq![c]
            }) + slug_seq(rest, true, false)
        } else if is_ws_char(c) {
            slug_seq(rest, emitted, emitted)
        } else {
            slug_seq(rest, emitted, pending)
        }
    }
}

/// A lowercase, ASCII-only identifier built from a title: words of letters
/// and digits joined by single dashes.
pub fn slugify(input: &str) -> (r: String)
    ensures
        r@ == slug_seq(lower_of(input@), false, false),
{
    let low = lowercase(input);
    let s = low.as_str();
    let n: usize = s.unicode_len();
    let mut out = String::new();
    let mut emitted: bool = false;
    let mut pending: bool = false;
    let mut i: usize = 0;
    assert(s@.subrange(0, n as int) =~= s@);
    assert(out@ + slug_seq(s@, false, false) =~= slug_seq(s@, false, false));
    while i < n
        invariant
            n == s@.len(),
            0 <= i <= n,
            slug_seq(s@, false, false) == out@ + slug_seq(
                s@.subrange(i as int, n as int),
                emitted,
                pending,
            ),
        decreases n - i,
    {
        let ghost pre = s@.subrange(i as int, n as int);
        let ghost out0 = out@;
        let ghost em0 = emitted;
        let ghost pend0 = pending;
        assert(pre[0] == s@[i as int]);
        assert(pre.drop_first() =~= s@.subrange(i + 1, n as int));
        let c = s.get_char(i);
        if alnum_char(c) {
            if pending {
                out.push('-');
            }
            out.push(c);
            emitted = true;
            pending = false;
        } else if ws_char(c) {
            pending = emitted;
        }
        i = i + 1;
        assert(out@ + slug_seq(s@.subrange(i as int, n as int), emitted, pending) =~= out0
            + slug_seq(pre, em0, pend0));
    }
    assert(s@.subrange(n as int, n as int) =~= Seq::<char>::empty());
    assert(out@ =~= out@ + slug_seq(s@.subrange(n as int, n as int), emitted, pending));
    out
}

/// `t` with every run of two or more white-space characters — the Unicode
/// set — collapsed into a single space; a lone white-space character is kept
/// as it is. `in_run` says whether the scan stands inside a run whose output
/// was already written.
pub open spec fn collapse_seq(t: Seq<char>, in_run: bool) -> Seq<char>
    decreases t.len(),
{
    if t.len() == 0 {
        Seq::empty()
    } else {
        let c = t[0];
        let rest = t.drop_first();
        if is_space_mark(c) {
            if in_run {
                collapse_seq(rest, true)
            } else if rest.len() > 0 && is_space_mark(rest[0]) {
                seq![' '] + collapse_seq(rest, true)
            } else {
                seq![c] + collapse_seq(rest, false)
            }
        } else {
            seq![c] + collapse_seq(rest, false)
        }
    }
}

/// Whitespace runs collapsed to single spaces, as the generator does before
/// indexing text for search.
pub fn collapse_whitespace(text: &str) -> (r: String)
    ensures
        r@ == collapse_seq(text@, false),
{
    let n: usize = text.unicode_len();
    let mut out = String::new();
    let mut in_run: bool = false;
    let mut i: usize = 0;
    assert(text@.subrange(0, n as int) =~= text@);
    assert(out@ + collapse_seq(text@, false) =~= collapse_seq(text@, false));
    while i < n
        invariant
            n == text@.len(),
            0 <= i <= n,
            collapse_seq(text@, false) == out@ + collapse_seq(
                text@.subrange(i as int, n as int),
                in_run,
            ),
        decreases n - i,
    {
        let ghost pre = text@.subrange(i as int, n as int);
        let ghost out0 = out@;
        let ghost run0 = in_run;
        assert(pre[0] == text@[i as int]);
        assert(pre.drop_first() =~= text@.subrange(i + 1, n as int));
        let c = text.get_char(i);
        if space_mark(c) {
            if in_run {
            } else if i + 1 < n && space_mark(text.get_char(i + 1)) {
                assert(pre.drop_first()[0] == text@[i + 1]);
                out.push(' ');
                in_run = true;
            } else {
                if i + 1 < n {
                    assert(pre.drop_first()[0] == text@[i + 1]);
                }
                out.push(c);
                in_run = false;
            }
        } else {
            out.push(c);
            in_run = false;
        }
        i = i + 1;
        assert(out@ + collapse_seq(text@.subrange(i as int, n as int), in_run) =~= out0
            + collapse_seq(pre, run0));
    }
    assert(text@.subrange(n as int, n as int) =~= Seq::<char>::empty());
    assert(out@ =~= out@ + collapse_seq(text@.subrange(n as int, n as int), in_run));
    out
}

} // verus!
