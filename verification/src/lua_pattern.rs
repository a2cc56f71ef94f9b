//! Lua 5.3/5.4 pattern matching, as `lstrlib.c` does it.
//!
//! Lua patterns are not regular expressions: they have character classes
//! (`%a %d %s %w ...` and their complements), sets `[...]`, the anchors `^` and
//! `$`, the quantifiers `* + - ?`, captures `(...)`, position captures `()`,
//! `%b`, `%f` and back-references `%1`-`%9`. Matching works on bytes and
//! reports byte offsets.
//!
//! The meaning of a pattern is the backtracking search of the reference
//! implementation, including its recursion limit; the `sm_*` spec functions below
//! state that search, and every executable step is proved to follow it.

use vstd::prelude::*;
use vstd::string::*;
use crate::error::SiltError;

verus! {

/// At most this many nested matcher calls (`matchdepth` in `lstrlib.c`).
pub const MAX_CALLS: usize = 220;
/// At most this many captures in one pattern.
pub const MAX_CAPTURES: usize = 32;

/// A resolved capture: a substring (byte range `[start, end)`) or a position
/// capture `()`, which yields a 1-based index.
#[derive(Debug, Clone, Copy, PartialEq, Eq, Structural)]
pub enum Capture {
    Str(usize, usize),
    Pos(usize),
}

/// A successful match: the byte range of the whole match and its explicit
/// captures (empty when the pattern has none).
#[derive(Debug, Clone)]
pub struct MatchResult {
    pub start: usize,
    pub end: usize,
    pub caps: Vec<Capture>,
}

/// What went wrong with a pattern.
#[derive(Debug, Clone, Copy, PartialEq, Eq, Structural)]
pub enum PatternError {
    EndsWithEscape,
    MissingBracket,
    MissingBalanceArgs,
    TooManyCaptures,
    InvalidPatternCapture,
    InvalidCaptureIndex,
    TooComplex,
    MissingFrontierSet,
}

/// The message that a pattern error is reported with.
pub open spec fn pattern_error_message(e: PatternError) -> Seq<char> {
    match e {
        PatternError::EndsWithEscape => "malformed pattern (ends with '%')"@,
        PatternError::MissingBracket => "malformed pattern (missing ']')"@,
        PatternError::MissingBalanceArgs => "missing arguments to '%b'"@,
        PatternError::TooManyCaptures => "too many captures"@,
        PatternError::InvalidPatternCapture => "invalid pattern capture"@,
        PatternError::InvalidCaptureIndex => "invalid capture index"@,
        PatternError::TooComplex => "pattern too complex"@,
        PatternError::MissingFrontierSet => "missing '[' after '%f' in pattern"@,
    }
}

fn pattern_error(e: PatternError) -> (r: SiltError)
    ensures
        r matches SiltError::Custom(m) && m@ == pattern_error_message(e),
{
    let msg = match e {
        PatternError::EndsWithEscape => "malformed pattern (ends with '%')",
        PatternError::MissingBalanceArgs => "missing arguments to '%b'",
        PatternError::MissingBracket => "malformed pattern (missing ']')",
        PatternError::TooManyCaptures => "too many captures",
        PatternError::InvalidPatternCapture => "invalid pattern capture",
        PatternError::InvalidCaptureIndex => "invalid capture index",
        PatternError::TooComplex => "pattern too complex",
        PatternError::MissingFrontierSet => "missing '[' after '%f' in pattern",
    };
    SiltError::Custom(String::from_str(msg))
}

// ---------------------------------------------------------------------------
// Character classes
// ---------------------------------------------------------------------------

/// An ASCII upper-case letter.
pub open spec fn is_upper(c: u8) -> bool { 65 <= c <= 90 }
/// An ASCII lower-case letter.
pub open spec fn is_lower(c: u8) -> bool { 97 <= c <= 122 }
/// An ASCII letter.
pub open spec fn is_alpha(c: u8) -> bool { is_upper(c) || is_lower(c) }
/// An ASCII digit.
pub open spec fn is_digit(c: u8) -> bool { 48 <= c <= 57 }
/// An ASCII letter or digit.
pub open spec fn is_alnum(c: u8) -> bool { is_alpha(c) || is_digit(c) }
/// C `isspace`: space, `\t`, `\n`, `\v`, `\f`, `\r`.
pub open spec fn is_space(c: u8) -> bool { c == 32 || (9 <= c <= 13) }
/// An ASCII control character.
pub open spec fn is_control(c: u8) -> bool { c < 32 || c == 127 }
/// A printable ASCII character other than space.
pub open spec fn is_graphic(c: u8) -> bool { 33 <= c <= 126 }
/// ASCII punctuation.
pub open spec fn is_punct(c: u8) -> bool { is_graphic(c) && !is_alnum(c) }
/// An ASCII hexadecimal digit.
pub open spec fn is_hex(c: u8) -> bool { is_digit(c) || (65 <= c <= 70) || (97 <= c <= 102) }
/// The ASCII lower case of a byte.
pub open spec fn to_lower(c: u8) -> u8 { if is_upper(c) { (c + 32) as u8 } else { c } }

/// Does byte `c` match the class letter `cl` (`a d l s u w c p x g`, upper case for
/// the complement)? Any other `cl` stands for itself.
pub open spec fn class_matches(c: u8, cl: u8) -> bool {
    let l = to_lower(cl);
    let res = if l == 97 { is_alpha(c) }
        else if l == 100 { is_digit(c) }
        else if l == 108 { is_lower(c) }
        else if l == 115 { is_space(c) }
        else if l == 117 { is_upper(c) }
        else if l == 119 { is_alnum(c) }
        else if l == 99 { is_control(c) }
        else if l == 112 { is_punct(c) }
        else if l == 120 { is_hex(c) }
        else if l == 103 { is_graphic(c) }
        else { false };
    let is_class = l == 97 || l == 100 || l == 108 || l == 115 || l == 117 || l == 119
        || l == 99 || l == 112 || l == 120 || l == 103;
    if !is_class { cl == c } else if is_upper(cl) { !res } else { res }
}

fn match_class(c: u8, cl: u8) -> (r: bool)
    ensures
        r == class_matches(c, cl),
{
    let l = if 65 <= cl && cl <= 90 { cl + 32 } else { cl };
    let res = if l == 97 { (65 <= c && c <= 90) || (97 <= c && c <= 122) }
        else if l == 100 { 48 <= c && c <= 57 }
        else if l == 108 { 97 <= c && c <= 122 }
        else if l == 115 { c == 32 || (9 <= c && c <= 13) }
        else if l == 117 { 65 <= c && c <= 90 }
        else if l == 119 { (65 <= c && c <= 90) || (97 <= c && c <= 122) || (48 <= c && c <= 57) }
        else if l == 99 { c < 32 || c == 127 }
        else if l == 112 {
            (33 <= c && c <= 126) && !((65 <= c && c <= 90) || (97 <= c && c <= 122) || (48 <= c && c <= 57))
        }
        else if l == 120 { (48 <= c && c <= 57) || (65 <= c && c <= 70) || (97 <= c && c <= 102) }
        else if l == 103 { 33 <= c && c <= 126 }
        else { return cl == c; };
    if 65 <= cl && cl <= 90 { !res } else { res }
}

/// Membership in the set items `pat[p..ec)`; `sig` is what a hit answers.
pub open spec fn bracket_scan(c: u8, pat: Seq<u8>, p: int, ec: int, sig: bool) -> bool
    decreases ec + 2 - p,
{
    if p >= ec || p < 0 {
        !sig
    } else if pat[p] == 37 {
        if class_matches(c, pat[p + 1]) { sig } else { bracket_scan(c, pat, p + 2, ec, sig) }
    } else if p + 1 < pat.len() && pat[p + 1] == 45 && p + 2 < ec {
        if pat[p] <= c && c <= pat[p + 2] { sig } else { bracket_scan(c, pat, p + 3, ec, sig) }
    } else if pat[p] == c {
        sig
    } else {
        bracket_scan(c, pat, p + 1, ec, sig)
    }
}

/// Does `c` belong to the set `[...]` that opens at `pat[p]` and closes at `pat[ec]`?
pub open spec fn bracket_matches(c: u8, pat: Seq<u8>, p: int, ec: int) -> bool {
    if p + 1 < pat.len() && pat[p + 1] == 94 {
        bracket_scan(c, pat, p + 2, ec, false)
    } else {
        bracket_scan(c, pat, p + 1, ec, true)
    }
}

fn match_bracket_class(c: u8, pat: &[u8], p: usize, ec: usize) -> (r: bool)
    requires
        p < ec < pat@.len(),
    ensures
        r == bracket_matches(c, pat@, p as int, ec as int),
{
    let mut sig = true;
    let mut q = p + 1;
    if q < pat.len() && pat[q] == 94 {
        sig = false;
        q += 1;
    }
    while q < ec
        invariant
            p < ec < pat@.len(),
            q <= ec + 1,
            bracket_matches(c, pat@, p as int, ec as int) == bracket_scan(c, pat@, q as int, ec as int, sig),
        decreases ec + 2 - q,
    {
        if pat[q] == 37 {
            if match_class(c, pat[q + 1]) {
                return sig;
            }
            q += 2;
        } else if q + 1 < pat.len() && pat[q + 1] == 45 && q + 2 < ec {
            if pat[q] <= c && c <= pat[q + 2] {
                return sig;
            }
            q += 3;
        } else if pat[q] == c {
            return sig;
        } else {
            q += 1;
        }
    }
    !sig
}

// ---------------------------------------------------------------------------
// Pattern items
// ---------------------------------------------------------------------------

/// End of the set whose first member is at `p` (after `[` and an optional `^`).
pub open spec fn set_end(pat: Seq<u8>, p: int) -> Result<int, PatternError>
    decreases pat.len() - p,
{
    if p >= pat.len() || p < 0 {
        Err(PatternError::MissingBracket)
    } else {
        let q = p + 1;
        let q2 = if pat[p] == 37 && q < pat.len() { q + 1 } else { q };
        if q2 < pat.len() && pat[q2] == 93 {
            Ok(q2 + 1)
        } else {
            set_end(pat, q2)
        }
    }
}

/// The index just past the single pattern class that starts at `pat[p]`.
pub open spec fn class_end(pat: Seq<u8>, p: int) -> Result<int, PatternError> {
    let c = pat[p];
    let p1 = p + 1;
    if c == 37 {
        if p1 >= pat.len() { Err(PatternError::EndsWithEscape) } else { Ok(p1 + 1) }
    } else if c == 91 {
        set_end(pat, if p1 < pat.len() && pat[p1] == 94 { p1 + 1 } else { p1 })
    } else {
        Ok(p1)
    }
}

/// A set that closes ends after its `]`, at least two bytes on.
pub proof fn lemma_set_end(pat: Seq<u8>, p: int)
    requires
        0 <= p,
    ensures
        set_end(pat, p) matches Ok(e) ==> p + 2 <= e <= pat.len() && pat[e - 1] == 93,
    decreases pat.len() - p,
{
    if p < pat.len() {
        let q = p + 1;
        let q2 = if pat[p] == 37 && q < pat.len() { q + 1 } else { q };
        if !(q2 < pat.len() && pat[q2] == 93) {
            lemma_set_end(pat, q2);
        }
    }
}

/// A single class ends past its first byte, a set after its `]`, an escape two
/// bytes on.
pub proof fn lemma_class_end(pat: Seq<u8>, p: int)
    requires
        0 <= p < pat.len(),
    ensures
        class_end(pat, p) matches Ok(e) ==> p + 1 <= e <= pat.len(),
        pat[p] == 91 ==> (class_end(pat, p) matches Ok(e) ==> p + 3 <= e && pat[e - 1] == 93),
        pat[p] == 37 ==> (class_end(pat, p) matches Ok(e) ==> e == p + 2),
{
    let p1 = p + 1;
    if pat[p] == 91 {
        lemma_set_end(pat, if p1 < pat.len() && pat[p1] == 94 { p1 + 1 } else { p1 });
    }
}

/// Does the byte at `src[s]` match the class `pat[p..ep)`?
pub open spec fn single_match(src: Seq<u8>, pat: Seq<u8>, s: int, p: int, ep: int) -> bool {
    if s >= src.len() || s < 0 {
        false
    } else {
        let c = src[s];
        if pat[p] == 46 {
            true
        } else if pat[p] == 37 {
            class_matches(c, pat[p + 1])
        } else if pat[p] == 91 {
            bracket_matches(c, pat, p, ep - 1)
        } else {
            pat[p] == c
        }
    }
}

/// Scan of `%b`: `cont` openers are still unmatched.
pub open spec fn balance_scan(src: Seq<u8>, b: u8, e: u8, s: int, cont: int) -> Option<int>
    decreases src.len() - s,
{
    if s >= src.len() || s < 0 {
        None
    } else if src[s] == e {
        if cont - 1 == 0 { Some(s + 1) } else { balance_scan(src, b, e, s + 1, cont - 1) }
    } else if src[s] == b {
        balance_scan(src, b, e, s + 1, cont + 1)
    } else {
        balance_scan(src, b, e, s + 1, cont)
    }
}

/// `%bxy` with `x = pat[p]` and `y = pat[p + 1]`, at `src[s]`.
pub open spec fn balance(src: Seq<u8>, pat: Seq<u8>, s: int, p: int) -> Result<Option<int>, PatternError> {
    if p + 1 >= pat.len() {
        Err(PatternError::MissingBalanceArgs)
    } else if s >= src.len() || src[s] != pat[p] {
        Ok(None)
    } else {
        Ok(balance_scan(src, pat[p], pat[p + 1], s + 1, 1))
    }
}

// ---------------------------------------------------------------------------
// Captures
// ---------------------------------------------------------------------------

/// The state of a capture while matching.
#[derive(Debug, Clone, Copy, PartialEq, Eq, Structural)]
pub enum CapLen {
    /// Opened and not closed yet.
    Unfinished,
    /// A position capture `()`.
    Position,
    /// Closed, with this many bytes.
    Closed(usize),
}

/// Captures as (start, state).
pub type Cap = (usize, CapLen);

/// Index of the most recently opened capture that is still open.
pub open spec fn last_unfinished(caps: Seq<Cap>) -> Option<int>
    decreases caps.len(),
{
    if caps.len() == 0 {
        None
    } else if caps.last().1 == CapLen::Unfinished {
        Some(caps.len() - 1)
    } else {
        last_unfinished(caps.drop_last())
    }
}

proof fn lemma_last_unfinished(caps: Seq<Cap>)
    ensures
        last_unfinished(caps) matches Some(l) ==> 0 <= l < caps.len() && caps[l].1 == CapLen::Unfinished,
        last_unfinished(caps) is None ==> forall|i: int| 0 <= i < caps.len() ==> caps[i].1 != CapLen::Unfinished,
    decreases caps.len(),
{
    if caps.len() > 0 && caps.last().1 != CapLen::Unfinished {
        lemma_last_unfinished(caps.drop_last());
        if last_unfinished(caps) is None {
            assert forall|i: int| 0 <= i < caps.len() implies caps[i].1 != CapLen::Unfinished by {
                if i < caps.len() - 1 {
                    assert(caps[i] == caps.drop_last()[i]);
                }
            }
        }
    }
}

/// Back-reference `%d` with `d = idx` at `src[s]`.
pub open spec fn match_capture(src: Seq<u8>, s: int, idx: u8, caps: Seq<Cap>) -> Result<Option<int>, PatternError> {
    let l = idx - 49;
    if l < 0 || l >= caps.len() || caps[l].1 == CapLen::Unfinished {
        Err(PatternError::InvalidCaptureIndex)
    } else {
        match caps[l].1 {
            CapLen::Closed(n) => {
                let init = caps[l].0 as int;
                if src.len() - s >= n && src.subrange(init, init + n) == src.subrange(s, s + n) {
                    Ok(Some(s + n))
                } else {
                    Ok(None)
                }
            },
            _ => Ok(None),
        }
    }
}

// ---------------------------------------------------------------------------
// The matcher
// ---------------------------------------------------------------------------

/// Outcome of a matching step, and the captures it leaves behind.
pub type Step = (Result<Option<int>, PatternError>, Seq<Cap>);

/// Match `pat[p..]` against `src[s..]` with `d` matcher calls already active.
pub open spec fn sm_do_match(src: Seq<u8>, pat: Seq<u8>, s: int, p: int, caps: Seq<Cap>, d: int) -> Step
    decreases MAX_CALLS - d, 0int, 0int,
{
    if d + 1 > MAX_CALLS || d < 0 {
        (Err(PatternError::TooComplex), caps)
    } else {
        sm_loop(src, pat, s, p, caps, d + 1)
    }
}

/// The body of one matcher call; pattern items that need no backtracking are
/// consumed in place.
pub open spec fn sm_loop(src: Seq<u8>, pat: Seq<u8>, s: int, p: int, caps: Seq<Cap>, d: int) -> Step
    decreases MAX_CALLS - d, 4int, 2 * (pat.len() - p) + 1,
{
    if d > MAX_CALLS || d < 1 || p < 0 {
        (Err(PatternError::TooComplex), caps)
    } else if p >= pat.len() {
        (Ok(Some(s)), caps)
    } else {
        let c = pat[p];
        if c == 40 {
            if p + 1 < pat.len() && pat[p + 1] == 41 {
                sm_start_capture(src, pat, s, p + 2, CapLen::Position, caps, d)
            } else {
                sm_start_capture(src, pat, s, p + 1, CapLen::Unfinished, caps, d)
            }
        } else if c == 41 {
            sm_end_capture(src, pat, s, p + 1, caps, d)
        } else if c == 36 && p + 1 == pat.len() {
            (Ok(if s == src.len() { Some(s) } else { None }), caps)
        } else if c == 37 && p + 1 < pat.len() && pat[p + 1] == 98 {
            match balance(src, pat, s, p + 2) {
                Err(e) => (Err(e), caps),
                Ok(None) => (Ok(None), caps),
                Ok(Some(ns)) => sm_loop(src, pat, ns, p + 4, caps, d),
            }
        } else if c == 37 && p + 1 < pat.len() && pat[p + 1] == 102 {
            let p2 = p + 2;
            if !(p2 < pat.len() && pat[p2] == 91) {
                (Err(PatternError::MissingFrontierSet), caps)
            } else {
                match class_end(pat, p2) {
                    Err(e) => (Err(e), caps),
                    Ok(ep) => {
                        let prev: u8 = if s == 0 { 0 } else { src[s - 1] };
                        let cur: u8 = if s < src.len() { src[s] } else { 0 };
                        if !bracket_matches(prev, pat, p2, ep - 1) && bracket_matches(cur, pat, p2, ep - 1) {
                            proof {
                                lemma_class_end(pat, p2);
                            }
                            sm_loop(src, pat, s, ep, caps, d)
                        } else {
                            (Ok(None), caps)
                        }
                    },
                }
            }
        } else if c == 37 && p + 1 < pat.len() && is_digit(pat[p + 1]) {
            match match_capture(src, s, pat[p + 1], caps) {
                Err(e) => (Err(e), caps),
                Ok(None) => (Ok(None), caps),
                Ok(Some(ns)) => sm_loop(src, pat, ns, p + 2, caps, d),
            }
        } else {
            sm_default(src, pat, s, p, caps, d)
        }
    }
}

/// A single class with an optional quantifier (`* + - ?`). An item that is
/// skipped, or matched once with no quantifier, is consumed in the same matcher
/// call; only repetitions and a matched `?` try the rest in a nested call.
pub open spec fn sm_default(src: Seq<u8>, pat: Seq<u8>, s: int, p: int, caps: Seq<Cap>, d: int) -> Step
    decreases MAX_CALLS - d, 4int, 2 * (pat.len() - p),
{
    if d > MAX_CALLS || d < 1 || p < 0 || p >= pat.len() {
        (Err(PatternError::TooComplex), caps)
    } else {
        match class_end(pat, p) {
            Err(e) => (Err(e), caps),
            Ok(ep) => {
                proof {
                    lemma_class_end(pat, p);
                }
                let m = single_match(src, pat, s, p, ep);
                let has = ep < pat.len();
                let suf = pat[ep];
                if !m {
                    if has && (suf == 42 || suf == 63 || suf == 45) {
                        sm_loop(src, pat, s, ep + 1, caps, d)
                    } else {
                        (Ok(None), caps)
                    }
                } else if has && suf == 63 {
                    let (r1, c1) = sm_do_match(src, pat, s + 1, ep + 1, caps, d);
                    match r1 {
                        Ok(None) => sm_loop(src, pat, s, ep + 1, c1, d),
                        _ => (r1, c1),
                    }
                } else if has && suf == 43 {
                    sm_max_try(src, pat, s + 1, run_len(src, pat, s + 1, p, ep), p, ep, caps, d)
                } else if has && suf == 42 {
                    sm_max_try(src, pat, s, run_len(src, pat, s, p, ep), p, ep, caps, d)
                } else if has && suf == 45 {
                    sm_min_expand(src, pat, s, p, ep, caps, d)
                } else {
                    sm_loop(src, pat, s + 1, ep, caps, d)
                }
            },
        }
    }
}

/// How many bytes from `src[s]` on match the class `pat[p..ep)`.
pub open spec fn run_len(src: Seq<u8>, pat: Seq<u8>, s: int, p: int, ep: int) -> int
    decreases src.len() - s,
{
    if single_match(src, pat, s, p, ep) { 1 + run_len(src, pat, s + 1, p, ep) } else { 0 }
}

/// Greedy repetition: try the longest run first, then shorter ones.
pub open spec fn sm_max_try(src: Seq<u8>, pat: Seq<u8>, s: int, i: int, p: int, ep: int, caps: Seq<Cap>, d: int) -> Step
    decreases MAX_CALLS - d, 1int, i,
{
    if d > MAX_CALLS || d < 1 {
        (Err(PatternError::TooComplex), caps)
    } else {
        let (r, c1) = sm_do_match(src, pat, s + i, ep + 1, caps, d);
        match r {
            Ok(None) => if i <= 0 { (Ok(None), c1) } else { sm_max_try(src, pat, s, i - 1, p, ep, c1, d) },
            _ => (r, c1),
        }
    }
}

/// Lazy repetition: try the rest of the pattern first, then one more byte.
pub open spec fn sm_min_expand(src: Seq<u8>, pat: Seq<u8>, s: int, p: int, ep: int, caps: Seq<Cap>, d: int) -> Step
    decreases MAX_CALLS - d, 1int, src.len() - s,
{
    if d > MAX_CALLS || d < 1 {
        (Err(PatternError::TooComplex), caps)
    } else {
        let (r, c1) = sm_do_match(src, pat, s, ep + 1, caps, d);
        match r {
            Ok(None) => if single_match(src, pat, s, p, ep) {
                sm_min_expand(src, pat, s + 1, p, ep, c1, d)
            } else {
                (Ok(None), c1)
            },
            _ => (r, c1),
        }
    }
}

/// Open a capture at `src[s]` and match the rest; the capture is dropped again
/// when the rest does not match.
pub open spec fn sm_start_capture(src: Seq<u8>, pat: Seq<u8>, s: int, p: int, what: CapLen, caps: Seq<Cap>, d: int) -> Step
    decreases MAX_CALLS - d, 1int, 0int,
{
    if d > MAX_CALLS || d < 1 {
        (Err(PatternError::TooComplex), caps)
    } else if caps.len() >= MAX_CAPTURES {
        (Err(PatternError::TooManyCaptures), caps)
    } else {
        let (r, c2) = sm_do_match(src, pat, s, p, caps.push((s as usize, what)), d);
        if r == Ok::<Option<int>, PatternError>(None) { (r, c2.drop_last()) } else { (r, c2) }
    }
}

/// Close the most recent open capture at `src[s]` and match the rest; the capture
/// is reopened when the rest does not match.
pub open spec fn sm_end_capture(src: Seq<u8>, pat: Seq<u8>, s: int, p: int, caps: Seq<Cap>, d: int) -> Step
    decreases MAX_CALLS - d, 1int, 0int,
{
    if d > MAX_CALLS || d < 1 {
        (Err(PatternError::TooComplex), caps)
    } else {
        match last_unfinished(caps) {
            None => (Err(PatternError::InvalidPatternCapture), caps),
            Some(l) => {
                let c1 = caps.update(l, (caps[l].0, CapLen::Closed((s - caps[l].0) as usize)));
                let (r, c2) = sm_do_match(src, pat, s, p, c1, d);
                if r == Ok::<Option<int>, PatternError>(None) {
                    (r, c2.update(l, (c2[l].0, CapLen::Unfinished)))
                } else {
                    (r, c2)
                }
            },
        }
    }
}

/// The captures reported for a match.
pub open spec fn resolve_cap(c: Cap) -> Capture {
    match c.1 {
        CapLen::Position => Capture::Pos((c.0 + 1) as usize),
        CapLen::Unfinished => Capture::Str(c.0, c.0),
        CapLen::Closed(n) => Capture::Str(c.0, (c.0 + n) as usize),
    }
}

/// A match of `pat` anchored at `src[s]` (a leading `^` is implied there):
/// its end and captures, `None` when there is none.
pub open spec fn spec_match_at(src: Seq<u8>, pat: Seq<u8>, s: int) -> Result<Option<(int, Seq<Capture>)>, PatternError> {
    let p0 = if pat.len() > 0 && pat[0] == 94 { 1int } else { 0int };
    let (r, caps) = sm_do_match(src, pat, s, p0, Seq::empty(), 0);
    match r {
        Err(e) => Err(e),
        Ok(None) => Ok(None),
        Ok(Some(e)) => Ok(Some((e, caps.map_values(|c: Cap| resolve_cap(c))))),
    }
}

/// Does the exec result `r` report the match outcome `m` at `s`?
pub open spec fn reports(r: Result<Option<MatchResult>, SiltError>, m: Result<Option<(int, Seq<Capture>)>, PatternError>, s: int) -> bool {
    match m {
        Err(e) => r matches Err(SiltError::Custom(msg)) && msg@ == pattern_error_message(e),
        Ok(None) => r matches Ok(None),
        Ok(Some((e, caps))) => r matches Ok(Some(mr)) && mr.start == s && mr.end == e && mr.caps@ == caps,
    }
}

// ---------------------------------------------------------------------------
// The executable matcher
// ---------------------------------------------------------------------------

/// The spec view of an executable step result.
pub open spec fn lift(r: Result<Option<usize>, PatternError>) -> Result<Option<int>, PatternError> {
    match r {
        Err(e) => Err(e),
        Ok(None) => Ok(None),
        Ok(Some(e)) => Ok(Some(e as int)),
    }
}

/// Captures that start inside the subject and, when closed, end inside it.
pub open spec fn caps_wf(caps: Seq<Cap>, n: int) -> bool {
    &&& caps.len() <= MAX_CAPTURES
    &&& forall|i: int| 0 <= i < caps.len() ==> (#[trigger] caps[i]).0 <= n
        && (caps[i].1 matches CapLen::Closed(k) ==> caps[i].0 + k <= n)
}

/// Every capture started at or before `s`.
pub open spec fn caps_before(caps: Seq<Cap>, s: int) -> bool {
    forall|i: int| 0 <= i < caps.len() ==> (#[trigger] caps[i]).0 <= s
}

struct MatchState<'a> {
    src: &'a [u8],
    pat: &'a [u8],
    caps: Vec<Cap>,
    depth: usize,
}

impl<'a> MatchState<'a> {
    spec fn inv(&self) -> bool {
        &&& caps_wf(self.caps@, self.src@.len() as int)
        &&& self.src@.len() < usize::MAX
    }

    /// The same matcher state apart from the captures.
    spec fn same_frame(&self, other: &Self) -> bool {
        &&& self.src@ == other.src@
        &&& self.pat@ == other.pat@
        &&& self.depth == other.depth
    }

    fn class_end(&self, p: usize) -> (r: Result<usize, PatternError>)
        requires
            p < self.pat@.len(),
        ensures
            match r {
                Ok(e) => class_end(self.pat@, p as int) == Ok::<int, PatternError>(e as int),
                Err(e) => class_end(self.pat@, p as int) == Err::<int, PatternError>(e),
            },
    {
        let pat = self.pat;
        let c = pat[p];
        let mut q = p + 1;
        if c == 37 {
            if q >= pat.len() {
                return Err(PatternError::EndsWithEscape);
            }
            return Ok(q + 1);
        }
        if c == 91 {
            if q < pat.len() && pat[q] == 94 {
                q += 1;
            }
            loop
                invariant
                    q <= pat@.len() + 1,
                    p < pat@.len(),
                    pat@ == self.pat@,
                    pat@[p as int] == 91,
                    class_end(pat@, p as int) == set_end(pat@, q as int),
                decreases pat@.len() + 1 - q,
            {
                if q >= pat.len() {
                    return Err(PatternError::MissingBracket);
                }
                let cc = pat[q];
                q += 1;
                if cc == 37 && q < pat.len() {
                    q += 1;
                }
                if q < pat.len() && pat[q] == 93 {
                    return Ok(q + 1);
                }
            }
        }
        Ok(q)
    }

    fn single_match(&self, s: usize, p: usize, ep: usize) -> (r: bool)
        requires
            p < self.pat@.len(),
            class_end(self.pat@, p as int) == Ok::<int, PatternError>(ep as int),
        ensures
            r == single_match(self.src@, self.pat@, s as int, p as int, ep as int),
    {
        proof {
            lemma_class_end(self.pat@, p as int);
        }
        if s >= self.src.len() {
            return false;
        }
        let c = self.src[s];
        let pc = self.pat[p];
        if pc == 46 {
            true
        } else if pc == 37 {
            match_class(c, self.pat[p + 1])
        } else if pc == 91 {
            match_bracket_class(c, self.pat, p, ep - 1)
        } else {
            pc == c
        }
    }

    fn match_balance(&self, s: usize, p: usize) -> (r: Result<Option<usize>, PatternError>)
        requires
            s <= self.src@.len(),
        ensures
            lift(r) == balance(self.src@, self.pat@, s as int, p as int),
            r matches Ok(Some(e)) ==> s < e <= self.src@.len(),
    {
        if p >= self.pat.len() || p + 1 >= self.pat.len() {
            return Err(PatternError::MissingBalanceArgs);
        }
        if s >= self.src.len() || self.src[s] != self.pat[p] {
            return Ok(None);
        }
        let b = self.pat[p];
        let e = self.pat[p + 1];
        let mut cont: usize = 1;
        let mut i = s + 1;
        while i < self.src.len()
            invariant
                s < i <= self.src@.len(),
                1 <= cont <= i - s,
                b == self.pat@[p as int],
                e == self.pat@[p as int + 1],
                p + 1 < self.pat@.len(),
                balance(self.src@, self.pat@, s as int, p as int)
                    == Ok::<Option<int>, PatternError>(balance_scan(self.src@, b, e, i as int, cont as int)),
            decreases self.src@.len() - i,
        {
            if self.src[i] == e {
                cont -= 1;
                if cont == 0 {
                    return Ok(Some(i + 1));
                }
            } else if self.src[i] == b {
                cont += 1;
            }
            i += 1;
        }
        Ok(None)
    }

    fn match_capture(&self, s: usize, idx: u8) -> (r: Result<Option<usize>, PatternError>)
        requires
            self.inv(),
            s <= self.src@.len(),
        ensures
            lift(r) == match_capture(self.src@, s as int, idx, self.caps@),
            r matches Ok(Some(e)) ==> s <= e <= self.src@.len(),
    {
        if idx < 49 {
            return Err(PatternError::InvalidCaptureIndex);
        }
        let l = (idx - 49) as usize;
        if l >= self.caps.len() {
            return Err(PatternError::InvalidCaptureIndex);
        }
        let (init, len) = self.caps[l];
        match len {
            CapLen::Unfinished => Err(PatternError::InvalidCaptureIndex),
            CapLen::Position => Ok(None),
            CapLen::Closed(n) => {
                proof {
                    assert(self.caps@[l as int].0 + n <= self.src@.len());
                }
                if self.src.len() - s >= n {
                    let ghost a = self.src@.subrange(init as int, init + n);
                    let ghost b = self.src@.subrange(s as int, s + n);
                    let mut j: usize = 0;
                    while j < n
                        invariant
                            j <= n,
                            init + n <= self.src@.len(),
                            s + n <= self.src@.len(),
                            self.src@.len() < usize::MAX,
                            idx >= 49,
                            l == idx - 49,
                            l < self.caps@.len(),
                            self.caps@[l as int] == (init, CapLen::Closed(n)),
                            s <= self.src@.len(),
                            self.src@.len() - s >= n,
                            a == self.src@.subrange(init as int, init + n),
                            b == self.src@.subrange(s as int, s + n),
                            forall|k: int| 0 <= k < j ==> #[trigger] a[k] == b[k],
                        decreases n - j,
                    {
                        if self.src[init + j] != self.src[s + j] {
                            proof {
                                assert(a[j as int] != b[j as int]);
                                assert(a != b);
                                assert(!(self.src@.subrange(init as int, init + n) == self.src@.subrange(s as int, s + n)));
                            }
                            return Ok(None);
                        }
                        j += 1;
                    }
                    proof {
                        assert(a =~= b);
                    }
                    Ok(Some(s + n))
                } else {
                    Ok(None)
                }
            },
        }
    }

    fn do_match(&mut self, s: usize, p: usize) -> (r: Result<Option<usize>, PatternError>)
        requires
            old(self).inv(),
            s <= old(self).src@.len(),
            p <= old(self).pat@.len(),
            caps_before(old(self).caps@, s as int),
            old(self).depth <= MAX_CALLS,
        ensures
            final(self).inv(),
            final(self).same_frame(old(self)),
            r matches Ok(Some(e)) ==> s <= e <= old(self).src@.len(),
            r == Ok::<Option<usize>, PatternError>(None) ==> final(self).caps@ == old(self).caps@,
            (lift(r), final(self).caps@)
                == sm_do_match(old(self).src@, old(self).pat@, s as int, p as int, old(self).caps@, old(self).depth as int),
        decreases MAX_CALLS - old(self).depth, 0int, 0int,
    {
        self.depth += 1;
        if self.depth > MAX_CALLS {
            self.depth -= 1;
            return Err(PatternError::TooComplex);
        }
        let r = self.match_loop(s, p);
        self.depth -= 1;
        r
    }

    fn match_loop(&mut self, s: usize, p: usize) -> (r: Result<Option<usize>, PatternError>)
        requires
            old(self).inv(),
            s <= old(self).src@.len(),
            p <= old(self).pat@.len(),
            caps_before(old(self).caps@, s as int),
            1 <= old(self).depth <= MAX_CALLS,
        ensures
            final(self).inv(),
            final(self).same_frame(old(self)),
            r matches Ok(Some(e)) ==> s <= e <= old(self).src@.len(),
            r == Ok::<Option<usize>, PatternError>(None) ==> final(self).caps@ == old(self).caps@,
            (lift(r), final(self).caps@)
                == sm_loop(old(self).src@, old(self).pat@, s as int, p as int, old(self).caps@, old(self).depth as int),
        decreases MAX_CALLS - old(self).depth, 4int, 2 * (old(self).pat@.len() - p) + 1,
    {
        let len = self.pat.len();
        if p >= len {
            return Ok(Some(s));
        }
        let c = self.pat[p];
        if c == 40 {
            if p + 1 < len && self.pat[p + 1] == 41 {
                return self.start_capture(s, p + 2, CapLen::Position);
            } else {
                return self.start_capture(s, p + 1, CapLen::Unfinished);
            }
        }
        if c == 41 {
            return self.end_capture(s, p + 1);
        }
        if c == 36 && p + 1 == len {
            return Ok(if s == self.src.len() { Some(s) } else { None });
        }
        if c == 37 && p + 1 < len {
            let d = self.pat[p + 1];
            if d == 98 {
                match self.match_balance(s, p + 2) {
                    Err(e) => return Err(e),
                    Ok(None) => return Ok(None),
                    Ok(Some(ns)) => {
                        return self.match_loop(ns, p + 4);
                    },
                }
            } else if d == 102 {
                let p2 = p + 2;
                if !(p2 < len && self.pat[p2] == 91) {
                    return Err(PatternError::MissingFrontierSet);
                }
                let ep = match self.class_end(p2) {
                    Err(e) => return Err(e),
                    Ok(ep) => ep,
                };
                proof {
                    lemma_class_end(self.pat@, p2 as int);
                }
                let prev: u8 = if s == 0 { 0 } else { self.src[s - 1] };
                let cur: u8 = if s < self.src.len() { self.src[s] } else { 0 };
                if !match_bracket_class(prev, self.pat, p2, ep - 1)
                    && match_bracket_class(cur, self.pat, p2, ep - 1) {
                    return self.match_loop(s, ep);
                }
                return Ok(None);
            } else if 48 <= d && d <= 57 {
                match self.match_capture(s, d) {
                    Err(e) => return Err(e),
                    Ok(None) => return Ok(None),
                    Ok(Some(ns)) => {
                        return self.match_loop(ns, p + 2);
                    },
                }
            }
        }
        self.default_match(s, p)
    }

    fn default_match(&mut self, s: usize, p: usize) -> (r: Result<Option<usize>, PatternError>)
        requires
            old(self).inv(),
            s <= old(self).src@.len(),
            p < old(self).pat@.len(),
            caps_before(old(self).caps@, s as int),
            1 <= old(self).depth <= MAX_CALLS,
        ensures
            final(self).inv(),
            final(self).same_frame(old(self)),
            r matches Ok(Some(e)) ==> s <= e <= old(self).src@.len(),
            r == Ok::<Option<usize>, PatternError>(None) ==> final(self).caps@ == old(self).caps@,
            (lift(r), final(self).caps@)
                == sm_default(old(self).src@, old(self).pat@, s as int, p as int, old(self).caps@, old(self).depth as int),
        decreases MAX_CALLS - old(self).depth, 4int, 2 * (old(self).pat@.len() - p),
    {
        let ep = match self.class_end(p) {
            Err(e) => return Err(e),
            Ok(ep) => ep,
        };
        proof {
            lemma_class_end(self.pat@, p as int);
        }
        let m = self.single_match(s, p, ep);
        let has = ep < self.pat.len();
        let suf: u8 = if has { self.pat[ep] } else { 0 };
        if !m {
            if has && (suf == 42 || suf == 63 || suf == 45) {
                return self.match_loop(s, ep + 1);
            }
            return Ok(None);
        }
        if has && suf == 63 {
            let r1 = self.do_match(s + 1, ep + 1);
            match r1 {
                Ok(None) => self.match_loop(s, ep + 1),
                _ => r1,
            }
        } else if has && suf == 43 {
            self.max_expand(s + 1, p, ep)
        } else if has && suf == 42 {
            self.max_expand(s, p, ep)
        } else if has && suf == 45 {
            self.min_expand(s, p, ep)
        } else {
            self.match_loop(s + 1, ep)
        }
    }

    fn max_expand(&mut self, s: usize, p: usize, ep: usize) -> (r: Result<Option<usize>, PatternError>)
        requires
            old(self).inv(),
            s <= old(self).src@.len(),
            p < ep < old(self).pat@.len(),
            class_end(old(self).pat@, p as int) == Ok::<int, PatternError>(ep as int),
            caps_before(old(self).caps@, s as int),
            1 <= old(self).depth <= MAX_CALLS,
        ensures
            final(self).inv(),
            final(self).same_frame(old(self)),
            r matches Ok(Some(e)) ==> s <= e <= old(self).src@.len(),
            r == Ok::<Option<usize>, PatternError>(None) ==> final(self).caps@ == old(self).caps@,
            (lift(r), final(self).caps@) == sm_max_try(old(self).src@, old(self).pat@, s as int,
                run_len(old(self).src@, old(self).pat@, s as int, p as int, ep as int),
                p as int, ep as int, old(self).caps@, old(self).depth as int),
        decreases MAX_CALLS - old(self).depth, 2int, 0int,
    {
        let ghost src = self.src@;
        let ghost pat = self.pat@;
        let plen = self.pat.len();
        let mut i: usize = 0;
        while self.single_match(s + i, p, ep)
            invariant
                self.src@ == src,
                self.pat@ == pat,
                src == old(self).src@,
                pat == old(self).pat@,
                src.len() < usize::MAX,
                plen == pat.len(),
                p < ep < pat.len(),
                class_end(pat, p as int) == Ok::<int, PatternError>(ep as int),
                s + i <= src.len(),
                run_len(src, pat, s as int, p as int, ep as int) == i + run_len(src, pat, (s + i) as int, p as int, ep as int),
            decreases src.len() - (s + i),
        {
            i += 1;
        }
        let ghost caps0 = self.caps@;
        let ghost full = run_len(src, pat, s as int, p as int, ep as int);
        assert(run_len(src, pat, (s + i) as int, p as int, ep as int) == 0);
        assert(full == i);
        loop
            invariant
                self.inv(),
                self.src@ == src,
                self.pat@ == pat,
                src == old(self).src@,
                pat == old(self).pat@,
                plen == pat.len(),
                self.depth == old(self).depth,
                1 <= self.depth <= MAX_CALLS,
                self.caps@ == caps0,
                caps0 == old(self).caps@,
                caps_before(caps0, s as int),
                p < ep < pat.len(),
                s + i <= src.len(),
                full == run_len(src, pat, s as int, p as int, ep as int),
                sm_max_try(src, pat, s as int, full, p as int, ep as int, caps0, self.depth as int)
                    == sm_max_try(src, pat, s as int, i as int, p as int, ep as int, caps0, self.depth as int),
            decreases i,
        {
            let r = self.do_match(s + i, ep + 1);
            proof {
                assert(sm_do_match(src, pat, s + i, ep + 1, caps0, self.depth as int) == (lift(r), self.caps@));
                assert(sm_max_try(src, pat, s as int, i as int, p as int, ep as int, caps0, self.depth as int)
                    == match lift(r) {
                        Ok(None) => if i <= 0 { (lift(r), self.caps@) } else {
                            sm_max_try(src, pat, s as int, i - 1, p as int, ep as int, self.caps@, self.depth as int) },
                        _ => (lift(r), self.caps@),
                    });
            }
            match r {
                Ok(None) => {
                    if i == 0 {
                        return Ok(None);
                    }
                    i -= 1;
                },
                _ => {
                    return r;
                },
            }
        }
    }

    fn min_expand(&mut self, s: usize, p: usize, ep: usize) -> (r: Result<Option<usize>, PatternError>)
        requires
            old(self).inv(),
            s <= old(self).src@.len(),
            p < ep < old(self).pat@.len(),
            class_end(old(self).pat@, p as int) == Ok::<int, PatternError>(ep as int),
            caps_before(old(self).caps@, s as int),
            1 <= old(self).depth <= MAX_CALLS,
        ensures
            final(self).inv(),
            final(self).same_frame(old(self)),
            r matches Ok(Some(e)) ==> s <= e <= old(self).src@.len(),
            r == Ok::<Option<usize>, PatternError>(None) ==> final(self).caps@ == old(self).caps@,
            (lift(r), final(self).caps@) == sm_min_expand(old(self).src@, old(self).pat@, s as int,
                p as int, ep as int, old(self).caps@, old(self).depth as int),
        decreases MAX_CALLS - old(self).depth, 2int, 0int,
    {
        let ghost src = self.src@;
        let ghost pat = self.pat@;
        let ghost caps0 = self.caps@;
        let plen = self.pat.len();
        let mut t = s;
        loop
            invariant
                self.inv(),
                self.src@ == src,
                self.pat@ == pat,
                src == old(self).src@,
                pat == old(self).pat@,
                plen == pat.len(),
                self.depth == old(self).depth,
                1 <= self.depth <= MAX_CALLS,
                self.caps@ == caps0,
                caps0 == old(self).caps@,
                s <= t <= src.len(),
                caps_before(caps0, s as int),
                p < ep < pat.len(),
                class_end(pat, p as int) == Ok::<int, PatternError>(ep as int),
                sm_min_expand(src, pat, s as int, p as int, ep as int, caps0, self.depth as int)
                    == sm_min_expand(src, pat, t as int, p as int, ep as int, caps0, self.depth as int),
            decreases src.len() - t,
        {
            let r = self.do_match(t, ep + 1);
            match r {
                Ok(None) => {
                    if self.single_match(t, p, ep) {
                        t += 1;
                    } else {
                        return Ok(None);
                    }
                },
                _ => {
                    return r;
                },
            }
        }
    }

    fn start_capture(&mut self, s: usize, p: usize, what: CapLen) -> (r: Result<Option<usize>, PatternError>)
        requires
            old(self).inv(),
            s <= old(self).src@.len(),
            p <= old(self).pat@.len(),
            caps_before(old(self).caps@, s as int),
            1 <= old(self).depth <= MAX_CALLS,
            what == CapLen::Unfinished || what == CapLen::Position,
        ensures
            final(self).inv(),
            final(self).same_frame(old(self)),
            r matches Ok(Some(e)) ==> s <= e <= old(self).src@.len(),
            r == Ok::<Option<usize>, PatternError>(None) ==> final(self).caps@ == old(self).caps@,
            (lift(r), final(self).caps@) == sm_start_capture(old(self).src@, old(self).pat@, s as int,
                p as int, what, old(self).caps@, old(self).depth as int),
        decreases MAX_CALLS - old(self).depth, 1int, 0int,
    {
        if self.caps.len() >= MAX_CAPTURES {
            return Err(PatternError::TooManyCaptures);
        }
        self.caps.push((s, what));
        let r = self.do_match(s, p);
        match r {
            Ok(None) => {
                self.caps.pop();
                proof {
                    assert(self.caps@ =~= old(self).caps@);
                }
            },
            _ => {},
        }
        r
    }

    fn end_capture(&mut self, s: usize, p: usize) -> (r: Result<Option<usize>, PatternError>)
        requires
            old(self).inv(),
            s <= old(self).src@.len(),
            p <= old(self).pat@.len(),
            caps_before(old(self).caps@, s as int),
            1 <= old(self).depth <= MAX_CALLS,
        ensures
            final(self).inv(),
            final(self).same_frame(old(self)),
            r matches Ok(Some(e)) ==> s <= e <= old(self).src@.len(),
            r == Ok::<Option<usize>, PatternError>(None) ==> final(self).caps@ == old(self).caps@,
            (lift(r), final(self).caps@) == sm_end_capture(old(self).src@, old(self).pat@, s as int,
                p as int, old(self).caps@, old(self).depth as int),
        decreases MAX_CALLS - old(self).depth, 1int, 0int,
    {
        proof {
            lemma_last_unfinished(self.caps@);
        }
        let mut k = self.caps.len();
        proof {
            assert(self.caps@.subrange(0, k as int) =~= self.caps@);
        }
        while k > 0 && !(self.caps[k - 1].1 == CapLen::Unfinished)
            invariant
                k <= self.caps@.len(),
                self.caps@ == old(self).caps@,
                last_unfinished(self.caps@) == last_unfinished(self.caps@.subrange(0, k as int)),
            decreases k,
        {
            proof {
                assert(self.caps@.subrange(0, k as int).drop_last() =~= self.caps@.subrange(0, k - 1));
            }
            k -= 1;
        }
        if k == 0 {
            proof {
                assert(self.caps@.subrange(0, 0) =~= Seq::<Cap>::empty());
            }
            return Err(PatternError::InvalidPatternCapture);
        }
        let l = k - 1;
        proof {
            assert(last_unfinished(self.caps@.subrange(0, k as int)) == Some(l as int));
        }
        let init = self.caps[l].0;
        self.caps.set(l, (init, CapLen::Closed(s - init)));
        let r = self.do_match(s, p);
        match r {
            Ok(None) => {
                let i2 = self.caps[l].0;
                self.caps.set(l, (i2, CapLen::Unfinished));
                proof {
                    assert(self.caps@ =~= old(self).caps@);
                }
            },
            _ => {},
        }
        r
    }

    fn resolve_caps(&self) -> (r: Vec<Capture>)
        requires
            self.inv(),
        ensures
            r@ == self.caps@.map_values(|c: Cap| resolve_cap(c)),
    {
        let mut out: Vec<Capture> = Vec::new();
        let mut i: usize = 0;
        while i < self.caps.len()
            invariant
                self.inv(),
                i <= self.caps@.len(),
                out@ == self.caps@.subrange(0, i as int).map_values(|c: Cap| resolve_cap(c)),
            decreases self.caps@.len() - i,
        {
            let (init, len) = self.caps[i];
            let c = match len {
                CapLen::Position => Capture::Pos(init + 1),
                CapLen::Unfinished => Capture::Str(init, init),
                CapLen::Closed(n) => Capture::Str(init, init + n),
            };
            out.push(c);
            i += 1;
            proof {
                assert(out@ =~= self.caps@.subrange(0, i as int).map_values(|c: Cap| resolve_cap(c)));
            }
        }
        proof {
            assert(self.caps@.subrange(0, i as int) =~= self.caps@);
        }
        out
    }
}

/// A match lies inside the subject, and so do its captures.
pub open spec fn within_subject(m: MatchResult, n: int) -> bool {
    &&& m.start <= m.end <= n
    &&& forall|i: int| 0 <= i < m.caps@.len() ==> match #[trigger] m.caps@[i] {
        Capture::Str(a, b) => a <= b <= n,
        Capture::Pos(k) => 1 <= k <= n + 1,
    }
}

/// Match `pat` anchored exactly at byte `s` (no forward search). A leading `^` is
/// skipped, the anchor being implied by the fixed position; this is what `gsub`
/// steps with.
pub fn match_at(src: &[u8], pat: &[u8], s: usize) -> (r: Result<Option<MatchResult>, SiltError>)
    requires
        s <= src@.len(),
        src@.len() < usize::MAX,
    ensures
        reports(r, spec_match_at(src@, pat@, s as int), s as int),
        r matches Ok(Some(m)) ==> within_subject(m, src@.len() as int),
{
    let p_start: usize = if pat.len() > 0 && pat[0] == 94 { 1 } else { 0 };
    let mut ms = MatchState { src, pat, caps: Vec::new(), depth: 0 };
    match ms.do_match(s, p_start) {
        Err(e) => Err(pattern_error(e)),
        Ok(None) => Ok(None),
        Ok(Some(e)) => {
            let caps = ms.resolve_caps();
            proof {
                assert forall|i: int| 0 <= i < caps@.len() implies match #[trigger] caps@[i] {
                    Capture::Str(a, b) => a <= b <= src@.len(),
                    Capture::Pos(k) => 1 <= k <= src@.len() + 1,
                } by {
                    assert(ms.caps@[i].0 <= src@.len());
                }
            }
            Ok(Some(MatchResult { start: s, end: e, caps }))
        },
    }
}

/// Does `pat` start with the anchor `^`?
pub open spec fn anchored(pat: Seq<u8>) -> bool {
    pat.len() > 0 && pat[0] == 94
}

/// Where a search from `init` starts: `init`, clamped to the subject's length.
pub open spec fn search_start(src: Seq<u8>, init: int) -> int {
    if init < src.len() { init } else { src.len() as int }
}

/// Search `src[init..]` for the first match of `pat`. A leading `^` pins the match
/// to `init` (clamped to the subject's length) and disables the forward scan.
pub fn find(src: &[u8], pat: &[u8], init: usize) -> (r: Result<Option<MatchResult>, SiltError>)
    requires
        src@.len() < usize::MAX,
    ensures
        ({
            let s0 = search_start(src@, init as int);
            let last = if anchored(pat@) { s0 } else { src@.len() as int };
            &&& r matches Ok(Some(m)) ==> {
                &&& s0 <= m.start <= last
                &&& within_subject(m, src@.len() as int)
                &&& reports(r, spec_match_at(src@, pat@, m.start as int), m.start as int)
                &&& forall|j: int| s0 <= j < m.start ==> spec_match_at(src@, pat@, j) == Ok::<Option<(int, Seq<Capture>)>, PatternError>(None)
            }
            &&& r matches Ok(None) ==>
                forall|j: int| s0 <= j <= last ==> spec_match_at(src@, pat@, j) == Ok::<Option<(int, Seq<Capture>)>, PatternError>(None)
            &&& r is Err ==> exists|k: int| {
                &&& s0 <= k <= last
                &&& reports(r, #[trigger] spec_match_at(src@, pat@, k), k)
                &&& forall|j: int| s0 <= j < k ==> spec_match_at(src@, pat@, j) == Ok::<Option<(int, Seq<Capture>)>, PatternError>(None)
            }
        }),
{
    let anchor = pat.len() > 0 && pat[0] == 94;
    let mut s = if init < src.len() { init } else { src.len() };
    let ghost s0 = s as int;
    loop
        invariant
            src@.len() < usize::MAX,
            s0 == search_start(src@, init as int),
            anchor == anchored(pat@),
            s0 <= s <= src@.len(),
            anchor ==> s == s0,
            forall|j: int| s0 <= j < s ==> spec_match_at(src@, pat@, j) == Ok::<Option<(int, Seq<Capture>)>, PatternError>(None),
        decreases src@.len() - s,
    {
        let m = match_at(src, pat, s);
        match m {
            Ok(Some(found)) => {
                proof {
                    if spec_match_at(src@, pat@, s as int) is Err || spec_match_at(src@, pat@, s as int) == Ok::<Option<(int, Seq<Capture>)>, PatternError>(None) {
                        assert(false);
                    }
                }
                return Ok(Some(found));
            },
            Err(e) => {
                proof {
                    assert(reports(Err::<Option<MatchResult>, SiltError>(e), spec_match_at(src@, pat@, s as int), s as int));
                }
                return Err(e);
            },
            Ok(None) => {
                proof {
                    if spec_match_at(src@, pat@, s as int) != Ok::<Option<(int, Seq<Capture>)>, PatternError>(None) {
                        assert(false);
                    }
                }
                if anchor || s >= src.len() {
                    return Ok(None);
                }
                s += 1;
            },
        }
    }
}

/// The class letters match the ASCII character classes of C: `%a` letters,
/// `%d` digits, `%l` lower case, `%s` white space (space, `\t`, `\n`, `\v`,
/// `\f`, `\r`), `%u` upper case, `%w` letters and digits, `%c` control
/// characters, `%p` punctuation, `%x` hexadecimal digits and `%g` printable
/// characters but space; each upper-case letter matches exactly the bytes its
/// lower-case letter does not; after `%` any other byte matches itself alone.
pub proof fn law_class_letters(c: u8, other: u8)
    ensures
        class_matches(c, 97) <==> ((65 <= c && c <= 90) || (97 <= c && c <= 122)),
        class_matches(c, 100) <==> (48 <= c && c <= 57),
        class_matches(c, 108) <==> (97 <= c && c <= 122),
        class_matches(c, 115) <==> (c == 32 || (9 <= c && c <= 13)),
        class_matches(c, 117) <==> (65 <= c && c <= 90),
        class_matches(c, 119) <==> ((65 <= c && c <= 90) || (97 <= c && c <= 122) || (48 <= c && c <= 57)),
        class_matches(c, 99) <==> (c < 32 || c == 127),
        class_matches(c, 112) <==> ((33 <= c && c <= 47) || (58 <= c && c <= 64) || (91 <= c && c <= 96) || (123 <= c && c <= 126)),
        class_matches(c, 120) <==> ((48 <= c && c <= 57) || (65 <= c && c <= 70) || (97 <= c && c <= 102)),
        class_matches(c, 103) <==> (33 <= c && c <= 126),
        class_matches(c, 65) <==> !class_matches(c, 97),
        class_matches(c, 68) <==> !class_matches(c, 100),
        class_matches(c, 76) <==> !class_matches(c, 108),
        class_matches(c, 83) <==> !class_matches(c, 115),
        class_matches(c, 85) <==> !class_matches(c, 117),
        class_matches(c, 87) <==> !class_matches(c, 119),
        class_matches(c, 67) <==> !class_matches(c, 99),
        class_matches(c, 80) <==> !class_matches(c, 112),
        class_matches(c, 88) <==> !class_matches(c, 120),
        class_matches(c, 71) <==> !class_matches(c, 103),
        !(other == 97 || other == 100 || other == 108 || other == 115 || other == 117 || other == 119
            || other == 99 || other == 112 || other == 120 || other == 103 || other == 65 || other == 68
            || other == 76 || other == 83 || other == 85 || other == 87 || other == 67 || other == 80
            || other == 88 || other == 71) ==> (class_matches(c, other) <==> c == other),
{
}

/// `%s` matches a space, a tab and a newline wherever they stand in the
/// subject, and `%S` matches none of them.
pub proof fn law_space_item(src: Seq<u8>, pat: Seq<u8>, s: int, p: int)
    requires
        0 <= s < src.len(),
        0 <= p && p + 1 < pat.len(),
        pat[p] == 37,
        src[s] == 32 || src[s] == 9 || src[s] == 10,
    ensures
        pat[p + 1] == 115 ==> single_match(src, pat, s, p, p + 2),
        pat[p + 1] == 83 ==> !single_match(src, pat, s, p, p + 2),
{
}

} // verus!
