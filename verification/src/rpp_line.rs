//! The line patterns of the REAPER `.rpp` format.
//!
//! Each pattern reads one trimmed line from its start. White space is Unicode
//! `White_Space` and a digit is any Unicode decimal digit (general category Nd),
//! as in regular-expression classes `\s` and `\d`.
use vstd::prelude::*;
use crate::text::{is_decimal_digit, is_decimal_digit_exec, is_white_space, is_white_space_exec, occurs_at, starts_with};

verus! {

/// The character classes the line patterns use.
#[derive(Debug, Clone, Copy, PartialEq, Eq, Structural)]
pub enum CharClass {
    /// White space (`\s`).
    Space,
    /// A decimal digit (`\d`).
    Digit,
    /// A decimal digit or `.` (`[\d.]`).
    DigitOrDot,
    /// Anything but `"` (`[^"]`).
    NotQuote,
    /// An ASCII hexadecimal digit (`[0-9a-fA-F]`).
    Hex,
}

pub open spec fn is_hex(c: char) -> bool {
    ('0' <= c && c <= '9') || ('a' <= c && c <= 'f') || ('A' <= c && c <= 'F')
}

pub open spec fn in_class(c: char, k: CharClass) -> bool {
    match k {
        CharClass::Space => is_white_space(c),
        CharClass::Digit => is_decimal_digit(c),
        CharClass::DigitOrDot => is_decimal_digit(c) || c == '.',
        CharClass::NotQuote => c != '"',
        CharClass::Hex => is_hex(c),
    }
}

/// Length of the run of characters of class `k` starting at index `i`.
pub open spec fn run(t: Seq<char>, i: int, k: CharClass) -> nat
    decreases t.len() - i,
{
    if 0 <= i < t.len() && in_class(t[i], k) { 1 + run(t, i + 1, k) } else { 0 }
}

/// The literal `p` at index `i`: the index after it.
pub open spec fn lit(t: Seq<char>, i: int, p: Seq<char>) -> Option<int> {
    if occurs_at(t, p, i) { Some(i + p.len()) } else { None }
}

/// One or more characters of class `k` at index `i` (as many as there are):
/// the index after them.
pub open spec fn some1(t: Seq<char>, i: int, k: CharClass) -> Option<int> {
    if run(t, i, k) > 0 { Some(i + run(t, i, k)) } else { None }
}

/// `"([^"]*)"` at index `i` (`"([^"]+)"` when `nonempty`): the text between the
/// quotes and the index after the closing one.
pub open spec fn quoted(t: Seq<char>, i: int, nonempty: bool) -> Option<(Seq<char>, int)> {
    if 0 <= i < t.len() && t[i] == '"' {
        let n = run(t, i + 1, CharClass::NotQuote);
        let e = i + 1 + n;
        if e < t.len() && t[e] == '"' && (n > 0 || !nonempty) {
            Some((t.subrange(i + 1, e), e + 1))
        } else {
            None
        }
    } else {
        None
    }
}

/// `\s*([^"]+)"` at index `i`: the capture. The greedy `\s*` gives back one
/// white-space character when nothing else stands before the quote.
pub open spec fn spaced_capture(t: Seq<char>, i: int) -> Option<Seq<char>> {
    let w = run(t, i, CharClass::Space);
    let q = run(t, i, CharClass::NotQuote);
    let _tl = t.len();
    let e = i + q;
    if e < t.len() && t[e] == '"' {
        if w < q {
            Some(t.subrange(i + w, e))
        } else if q > 0 {
            Some(t.subrange(e - 1, e))
        } else {
            None
        }
    } else {
        None
    }
}

/// `<REAPER_PROJECT\s+[\d.]+\s+"([^"]*)"`: the version.
pub open spec fn version_line(t: Seq<char>) -> Option<Seq<char>> {
    match lit(t, 0, "<REAPER_PROJECT"@) {
        None => None,
        Some(a) => match some1(t, a, CharClass::Space) {
            None => None,
            Some(b) => match some1(t, b, CharClass::DigitOrDot) {
                None => None,
                Some(c) => match some1(t, c, CharClass::Space) {
                    None => None,
                    Some(d) => match quoted(t, d, false) {
                        None => None,
                        Some((v, _)) => Some(v),
                    },
                },
            },
        },
    }
}

/// `TEMPO\s+([\d.]+)\s+(\d+)\s+(\d+)`: tempo, numerator and denominator.
pub open spec fn tempo_line(t: Seq<char>) -> Option<(Seq<char>, Seq<char>, Seq<char>)> {
    match lit(t, 0, "TEMPO"@) {
        None => None,
        Some(a) => match some1(t, a, CharClass::Space) {
            None => None,
            Some(b) => match some1(t, b, CharClass::DigitOrDot) {
                None => None,
                Some(c) => match some1(t, c, CharClass::Space) {
                    None => None,
                    Some(d) => match some1(t, d, CharClass::Digit) {
                        None => None,
                        Some(e) => match some1(t, e, CharClass::Space) {
                            None => None,
                            Some(f) => match some1(t, f, CharClass::Digit) {
                                None => None,
                                Some(g) => Some((t.subrange(b, c), t.subrange(d, e), t.subrange(f, g))),
                            },
                        },
                    },
                },
            },
        },
    }
}

/// `MARKER\s+\d+\s+([\d.]+)\s+"([^"]*)"`: position and name.
pub open spec fn marker_line(t: Seq<char>) -> Option<(Seq<char>, Seq<char>)> {
    match lit(t, 0, "MARKER"@) {
        None => None,
        Some(a) => match some1(t, a, CharClass::Space) {
            None => None,
            Some(b) => match some1(t, b, CharClass::Digit) {
                None => None,
                Some(c) => match some1(t, c, CharClass::Space) {
                    None => None,
                    Some(d) => match some1(t, d, CharClass::DigitOrDot) {
                        None => None,
                        Some(e) => match some1(t, e, CharClass::Space) {
                            None => None,
                            Some(f) => match quoted(t, f, false) {
                                None => None,
                                Some((name, _)) => Some((t.subrange(d, e), name)),
                            },
                        },
                    },
                },
            },
        },
    }
}

/// `<key>\s+"([^"]*)"` (the `NAME` and `FILE` lines): the quoted text.
pub open spec fn keyed_line(t: Seq<char>, key: Seq<char>) -> Option<Seq<char>> {
    match lit(t, 0, key) {
        None => None,
        Some(a) => match some1(t, a, CharClass::Space) {
            None => None,
            Some(b) => match quoted(t, b, false) {
                None => None,
                Some((v, _)) => Some(v),
            },
        },
    }
}

/// `AUXRECV\s+`.
pub open spec fn auxrecv_line(t: Seq<char>) -> bool {
    match lit(t, 0, "AUXRECV"@) {
        None => false,
        Some(a) => some1(t, a, CharClass::Space) is Some,
    }
}

/// Two hexadecimal digits at index `i`.
pub open spec fn hex2_at(t: Seq<char>, i: int) -> bool {
    0 <= i && i + 2 <= t.len() && is_hex(t[i]) && is_hex(t[i + 1])
}

/// `E\s+\d+\s+9[0-9a-fA-F]\s+([0-9a-fA-F]{2})\s+([0-9a-fA-F]{2})`: a note-on
/// event's pitch and velocity, as hexadecimal text.
pub open spec fn note_line(t: Seq<char>) -> Option<(Seq<char>, Seq<char>)> {
    match lit(t, 0, "E"@) {
        None => None,
        Some(a) => match some1(t, a, CharClass::Space) {
            None => None,
            Some(b) => match some1(t, b, CharClass::Digit) {
                None => None,
                Some(c) => match some1(t, c, CharClass::Space) {
                    None => None,
                    Some(d) => if d + 2 <= t.len() && t[d] == '9' && is_hex(t[d + 1]) {
                        match some1(t, d + 2, CharClass::Space) {
                            None => None,
                            Some(f) => if hex2_at(t, f) {
                                match some1(t, f + 2, CharClass::Space) {
                                    None => None,
                                    Some(h) => if hex2_at(t, h) {
                                        Some((t.subrange(f, f + 2), t.subrange(h, h + 2)))
                                    } else {
                                        None
                                    },
                                }
                            } else {
                                None
                            },
                        }
                    } else {
                        None
                    },
                },
            },
        },
    }
}

/// `<(VOLENV|PANENV|WIDTHENV|PARMENV|MUTEENV|FXENV)`: an automation envelope.
pub open spec fn envelope_line(t: Seq<char>) -> bool {
    starts_with(t, "<VOLENV"@) || starts_with(t, "<PANENV"@) || starts_with(t, "<WIDTHENV"@)
        || starts_with(t, "<PARMENV"@) || starts_with(t, "<MUTEENV"@) || starts_with(t, "<FXENV"@)
}

/// `<VST\s+"(?:VST[i3]?:\s*)([^"]+)"`: the raw plugin name.
pub open spec fn vst_line(t: Seq<char>) -> Option<Seq<char>> {
    match lit(t, 0, "<VST"@) {
        None => None,
        Some(a) => match some1(t, a, CharClass::Space) {
            None => None,
            Some(b) => match lit(t, b, "\"VST"@) {
                None => None,
                Some(c) => if c < t.len() && t[c] == ':' {
                    spaced_capture(t, c + 1)
                } else if c + 1 < t.len() && (t[c] == 'i' || t[c] == '3') && t[c + 1] == ':' {
                    spaced_capture(t, c + 2)
                } else {
                    None
                },
            },
        },
    }
}

/// Index `i`, or the index after it when it holds an `i`.
pub open spec fn skip_i(t: Seq<char>, i: int) -> int {
    if 0 <= i < t.len() && t[i] == 'i' { i + 1 } else { i }
}

/// `<AU[i]?\s+"(?:AU[i]?:\s*)([^"]+)"`: the raw plugin name.
pub open spec fn au_line(t: Seq<char>) -> Option<Seq<char>> {
    match lit(t, 0, "<AU"@) {
        None => None,
        Some(a) => match some1(t, skip_i(t, a), CharClass::Space) {
            None => None,
            Some(b) => match lit(t, b, "\"AU"@) {
                None => None,
                Some(c) => match lit(t, skip_i(t, c), ":"@) {
                    None => None,
                    Some(d) => spaced_capture(t, d),
                },
            },
        },
    }
}

/// `<CLAP\s+"(?:CLAP:\s*)([^"]+)"`: the raw plugin name.
pub open spec fn clap_line(t: Seq<char>) -> Option<Seq<char>> {
    match lit(t, 0, "<CLAP"@) {
        None => None,
        Some(a) => match some1(t, a, CharClass::Space) {
            None => None,
            Some(b) => match lit(t, b, "\"CLAP:"@) {
                None => None,
                Some(c) => spaced_capture(t, c),
            },
        },
    }
}

/// `<JS\s+"([^"]+)"`: the effect's path.
pub open spec fn js_line(t: Seq<char>) -> Option<Seq<char>> {
    match lit(t, 0, "<JS"@) {
        None => None,
        Some(a) => match some1(t, a, CharClass::Space) {
            None => None,
            Some(b) => match quoted(t, b, true) {
                None => None,
                Some((v, _)) => Some(v),
            },
        },
    }
}

} // verus!

verus! {

/// `r` is the position `s`.
pub open spec fn pos_is(r: Option<usize>, s: Option<int>) -> bool {
    match (r, s) {
        (Some(a), Some(b)) => a == b,
        (None, None) => true,
        _ => false,
    }
}

/// `r` holds the text `s`.
pub open spec fn text_is(r: Option<Vec<char>>, s: Option<Seq<char>>) -> bool {
    match (r, s) {
        (Some(a), Some(b)) => a@ == b,
        (None, None) => true,
        _ => false,
    }
}

fn in_class_exec(c: char, k: CharClass) -> (r: bool)
    ensures
        r == in_class(c, k),
{
    match k {
        CharClass::Space => is_white_space_exec(c),
        CharClass::Digit => is_decimal_digit_exec(c),
        CharClass::DigitOrDot => is_decimal_digit_exec(c) || c == '.',
        CharClass::NotQuote => c != '"',
        CharClass::Hex => ('0' <= c && c <= '9') || ('a' <= c && c <= 'f') || ('A' <= c && c <= 'F'),
    }
}

fn run_exec(t: &[char], i: usize, k: CharClass) -> (r: usize)
    requires
        i <= t@.len(),
    ensures
        r == run(t@, i as int, k),
        i + r <= t@.len(),
{
    let mut j: usize = i;
    while j < t.len() && in_class_exec(t[j], k)
        invariant
            i <= j <= t@.len(),
            run(t@, i as int, k) == (j - i) + run(t@, j as int, k),
        decreases t.len() - j,
    {
        j = j + 1;
    }
    j - i
}

fn lit_exec(t: &[char], i: usize, p: &str) -> (r: Option<usize>)
    ensures
        pos_is(r, lit(t@, i as int, p@)),
        r matches Some(e) ==> e <= t@.len(),
{
    let pc = crate::text::chars_of(p);
    let _tl = t.len();
    if crate::text::matches_at(t, pc.as_slice(), i) {
        Some(i + pc.len())
    } else {
        None
    }
}

fn some1_exec(t: &[char], i: usize, k: CharClass) -> (r: Option<usize>)
    requires
        i <= t@.len(),
    ensures
        pos_is(r, some1(t@, i as int, k)),
        r matches Some(e) ==> e <= t@.len(),
{
    let n = run_exec(t, i, k);
    let _tl = t.len();
    if n > 0 { Some(i + n) } else { None }
}

fn quoted_exec(t: &[char], i: usize, nonempty: bool) -> (r: Option<(Vec<char>, usize)>)
    ensures
        match (r, quoted(t@, i as int, nonempty)) {
            (Some((v, e)), Some((sv, se))) => v@ == sv && e == se && e <= t@.len(),
            (None, None) => true,
            _ => false,
        },
{
    if i < t.len() && t[i] == '"' {
        let n = run_exec(t, i + 1, CharClass::NotQuote);
        let e = i + 1 + n;
        if e < t.len() && t[e] == '"' && (n > 0 || !nonempty) {
            Some((vstd::slice::slice_to_vec(vstd::slice::slice_subrange(t, i + 1, e)), e + 1))
        } else {
            None
        }
    } else {
        None
    }
}

proof fn lemma_space_in_not_quote(t: Seq<char>, i: int)
    requires
        0 <= i,
    ensures
        run(t, i, CharClass::Space) <= run(t, i, CharClass::NotQuote),
    decreases t.len() - i,
{
    if 0 <= i < t.len() && in_class(t[i], CharClass::Space) {
        lemma_space_in_not_quote(t, i + 1);
    }
}

fn spaced_capture_exec(t: &[char], i: usize) -> (r: Option<Vec<char>>)
    requires
        i <= t@.len(),
    ensures
        text_is(r, spaced_capture(t@, i as int)),
{
    let w = run_exec(t, i, CharClass::Space);
    let q = run_exec(t, i, CharClass::NotQuote);
    proof {
        lemma_space_in_not_quote(t@, i as int);
    }
    let _tl = t.len();
    let e = i + q;
    if e < t.len() && t[e] == '"' {
        if w < q {
            Some(vstd::slice::slice_to_vec(vstd::slice::slice_subrange(t, i + w, e)))
        } else if q > 0 {
            Some(vstd::slice::slice_to_vec(vstd::slice::slice_subrange(t, e - 1, e)))
        } else {
            None
        }
    } else {
        None
    }
}

pub fn version_line_exec(t: &[char]) -> (r: Option<Vec<char>>)
    ensures
        text_is(r, version_line(t@)),
{
    let a = match lit_exec(t, 0, "<REAPER_PROJECT") { Some(a) => a, None => return None };
    let b = match some1_exec(t, a, CharClass::Space) { Some(b) => b, None => return None };
    let c = match some1_exec(t, b, CharClass::DigitOrDot) { Some(c) => c, None => return None };
    let d = match some1_exec(t, c, CharClass::Space) { Some(d) => d, None => return None };
    match quoted_exec(t, d, false) {
        Some((v, _)) => Some(v),
        None => None,
    }
}

pub fn tempo_line_exec(t: &[char]) -> (r: Option<(Vec<char>, Vec<char>, Vec<char>)>)
    ensures
        match (r, tempo_line(t@)) {
            (Some((x, y, z)), Some((sx, sy, sz))) => x@ == sx && y@ == sy && z@ == sz,
            (None, None) => true,
            _ => false,
        },
{
    let a = match lit_exec(t, 0, "TEMPO") { Some(a) => a, None => return None };
    let b = match some1_exec(t, a, CharClass::Space) { Some(b) => b, None => return None };
    let c = match some1_exec(t, b, CharClass::DigitOrDot) { Some(c) => c, None => return None };
    let d = match some1_exec(t, c, CharClass::Space) { Some(d) => d, None => return None };
    let e = match some1_exec(t, d, CharClass::Digit) { Some(e) => e, None => return None };
    let f = match some1_exec(t, e, CharClass::Space) { Some(f) => f, None => return None };
    let g = match some1_exec(t, f, CharClass::Digit) { Some(g) => g, None => return None };
    Some((
        vstd::slice::slice_to_vec(vstd::slice::slice_subrange(t, b, c)),
        vstd::slice::slice_to_vec(vstd::slice::slice_subrange(t, d, e)),
        vstd::slice::slice_to_vec(vstd::slice::slice_subrange(t, f, g)),
    ))
}

pub fn marker_line_exec(t: &[char]) -> (r: Option<(Vec<char>, Vec<char>)>)
    ensures
        match (r, marker_line(t@)) {
            (Some((x, y)), Some((sx, sy))) => x@ == sx && y@ == sy,
            (None, None) => true,
            _ => false,
        },
{
    let a = match lit_exec(t, 0, "MARKER") { Some(a) => a, None => return None };
    let b = match some1_exec(t, a, CharClass::Space) { Some(b) => b, None => return None };
    let c = match some1_exec(t, b, CharClass::Digit) { Some(c) => c, None => return None };
    let d = match some1_exec(t, c, CharClass::Space) { Some(d) => d, None => return None };
    let e = match some1_exec(t, d, CharClass::DigitOrDot) { Some(e) => e, None => return None };
    let f = match some1_exec(t, e, CharClass::Space) { Some(f) => f, None => return None };
    match quoted_exec(t, f, false) {
        Some((name, _)) => Some((vstd::slice::slice_to_vec(vstd::slice::slice_subrange(t, d, e)), name)),
        None => None,
    }
}

pub fn keyed_line_exec(t: &[char], key: &str) -> (r: Option<Vec<char>>)
    ensures
        text_is(r, keyed_line(t@, key@)),
{
    let a = match lit_exec(t, 0, key) { Some(a) => a, None => return None };
    let b = match some1_exec(t, a, CharClass::Space) { Some(b) => b, None => return None };
    match quoted_exec(t, b, false) {
        Some((v, _)) => Some(v),
        None => None,
    }
}

pub fn auxrecv_line_exec(t: &[char]) -> (r: bool)
    ensures
        r == auxrecv_line(t@),
{
    match lit_exec(t, 0, "AUXRECV") {
        Some(a) => some1_exec(t, a, CharClass::Space).is_some(),
        None => false,
    }
}

fn hex2_exec(t: &[char], i: usize) -> (r: bool)
    ensures
        r == hex2_at(t@, i as int),
{
    i < t.len() && t.len() - i >= 2 && in_class_exec(t[i], CharClass::Hex) && in_class_exec(t[i + 1], CharClass::Hex)
}

pub fn note_line_exec(t: &[char]) -> (r: Option<(Vec<char>, Vec<char>)>)
    ensures
        match (r, note_line(t@)) {
            (Some((x, y)), Some((sx, sy))) => x@ == sx && y@ == sy,
            (None, None) => true,
            _ => false,
        },
{
    let a = match lit_exec(t, 0, "E") { Some(a) => a, None => return None };
    let b = match some1_exec(t, a, CharClass::Space) { Some(b) => b, None => return None };
    let c = match some1_exec(t, b, CharClass::Digit) { Some(c) => c, None => return None };
    let d = match some1_exec(t, c, CharClass::Space) { Some(d) => d, None => return None };
    if !(t.len() - d >= 2 && t[d] == '9' && in_class_exec(t[d + 1], CharClass::Hex)) {
        return None;
    }
    let f = match some1_exec(t, d + 2, CharClass::Space) { Some(f) => f, None => return None };
    if !hex2_exec(t, f) {
        return None;
    }
    let h = match some1_exec(t, f + 2, CharClass::Space) { Some(h) => h, None => return None };
    if !hex2_exec(t, h) {
        return None;
    }
    Some((
        vstd::slice::slice_to_vec(vstd::slice::slice_subrange(t, f, f + 2)),
        vstd::slice::slice_to_vec(vstd::slice::slice_subrange(t, h, h + 2)),
    ))
}

pub fn envelope_line_exec(t: &[char]) -> (r: bool)
    ensures
        r == envelope_line(t@),
{
    crate::text::begins_with(t, "<VOLENV") || crate::text::begins_with(t, "<PANENV")
        || crate::text::begins_with(t, "<WIDTHENV") || crate::text::begins_with(t, "<PARMENV")
        || crate::text::begins_with(t, "<MUTEENV") || crate::text::begins_with(t, "<FXENV")
}

pub fn vst_line_exec(t: &[char]) -> (r: Option<Vec<char>>)
    ensures
        text_is(r, vst_line(t@)),
{
    let a = match lit_exec(t, 0, "<VST") { Some(a) => a, None => return None };
    let b = match some1_exec(t, a, CharClass::Space) { Some(b) => b, None => return None };
    let c = match lit_exec(t, b, "\"VST") { Some(c) => c, None => return None };
    if c < t.len() && t[c] == ':' {
        spaced_capture_exec(t, c + 1)
    } else if t.len() - c >= 2 && (t[c] == 'i' || t[c] == '3') && t[c + 1] == ':' {
        spaced_capture_exec(t, c + 2)
    } else {
        None
    }
}

fn skip_i_exec(t: &[char], i: usize) -> (r: usize)
    requires
        i <= t@.len(),
    ensures
        r == skip_i(t@, i as int),
        r <= t@.len(),
{
    if i < t.len() && t[i] == 'i' { i + 1 } else { i }
}

pub fn au_line_exec(t: &[char]) -> (r: Option<Vec<char>>)
    ensures
        text_is(r, au_line(t@)),
{
    let a = match lit_exec(t, 0, "<AU") { Some(a) => a, None => return None };
    let b = match some1_exec(t, skip_i_exec(t, a), CharClass::Space) { Some(b) => b, None => return None };
    let c = match lit_exec(t, b, "\"AU") { Some(c) => c, None => return None };
    let d = match lit_exec(t, skip_i_exec(t, c), ":") { Some(d) => d, None => return None };
    spaced_capture_exec(t, d)
}

pub fn clap_line_exec(t: &[char]) -> (r: Option<Vec<char>>)
    ensures
        text_is(r, clap_line(t@)),
{
    let a = match lit_exec(t, 0, "<CLAP") { Some(a) => a, None => return None };
    let b = match some1_exec(t, a, CharClass::Space) { Some(b) => b, None => return None };
    let c = match lit_exec(t, b, "\"CLAP:") { Some(c) => c, None => return None };
    spaced_capture_exec(t, c)
}

pub fn js_line_exec(t: &[char]) -> (r: Option<Vec<char>>)
    ensures
        text_is(r, js_line(t@)),
{
    let a = match lit_exec(t, 0, "<JS") { Some(a) => a, None => return None };
    let b = match some1_exec(t, a, CharClass::Space) { Some(b) => b, None => return None };
    match quoted_exec(t, b, true) {
        Some((v, _)) => Some(v),
        None => None,
    }
}

} // verus!
