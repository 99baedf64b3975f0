//! Tempo, time signature and drummer character from the JSON fragments that a
//! Logic `ProjectData` embeds.
use vstd::prelude::*;
use crate::project_data::{ProjectIntelligence, ProjectModel};
use crate::text::{chars_of, string_from_chars, until};

verus! {

/// Index of the first character of `s` that is neither an ASCII digit nor `.`,
/// or `s.len()`.
pub open spec fn first_non_number(s: Seq<char>) -> int
    decreases s.len(),
{
    if s.len() == 0 {
        0
    } else if !(crate::text::is_ascii_digit(s[0]) || s[0] == '.') {
        0
    } else {
        1 + first_non_number(s.drop_first())
    }
}

/// The digits and dots that open `s`, when something else follows them; empty
/// when `s` holds nothing else.
pub open spec fn number_prefix(s: Seq<char>) -> Seq<char> {
    let k = first_non_number(s);
    if k < s.len() { s.take(k) } else { Seq::empty() }
}

/// The text between `key` and the next `"`, for the first occurrence of `key`
/// in `t`; empty when no `"` follows.
pub open spec fn quoted_after(t: Seq<char>, key: Seq<char>) -> Option<Seq<char>> {
    match crate::text::find(t, key) {
        Some(pos) => {
            let rest = t.skip(pos + key.len());
            Some(if rest.contains('"') { until(rest, '"') } else { Seq::empty() })
        },
        None => None,
    }
}

pub open spec fn tempo_block_key() -> Seq<char> {
    "\"Tempo\":[{"@
}

pub open spec fn tempo_key() -> Seq<char> {
    "\"tempo\":"@
}

pub open spec fn signature_key() -> Seq<char> {
    "\"signature\":\""@
}

pub open spec fn drummer_key() -> Seq<char> {
    "\"selectedCharacterIdentifier\":\""@
}

/// The tempo literal of the first `"Tempo":[{` block of `t`, when `f64` parsing
/// accepts it.
pub open spec fn json_tempo(t: Seq<char>) -> Option<Seq<char>> {
    match crate::text::find(t, tempo_block_key()) {
        Some(pos) => {
            let after = t.skip(pos);
            match crate::text::find(after, tempo_key()) {
                Some(tp) => {
                    let v = number_prefix(after.skip(tp + tempo_key().len()));
                    if crate::number::is_float_literal(v) { Some(v) } else { None }
                },
                None => None,
            }
        },
        None => None,
    }
}

/// `m` with tempo, time signature and drummer character taken from the JSON
/// that `t` embeds, where `t` holds them; other fields unchanged.
pub open spec fn with_json_fields(m: ProjectModel, t: Seq<char>) -> ProjectModel {
    ProjectModel {
        bpm: match json_tempo(t) {
            Some(v) => Some(crate::number::NumberModel::Literal(v)),
            None => m.bpm,
        },
        time_signature: match quoted_after(t, signature_key()) {
            Some(v) => if v.contains('/') { Some(v) } else { m.time_signature },
            None => m.time_signature,
        },
        drummer_character: match quoted_after(t, drummer_key()) {
            Some(v) => if v.len() > 0 { Some(v) } else { m.drummer_character },
            None => m.drummer_character,
        },
        ..m
    }
}

fn number_prefix_exec(s: &[char]) -> (r: Vec<char>)
    ensures
        r@ == number_prefix(s@),
{
    let mut i: usize = 0;
    assert(s@.skip(0) =~= s@);
    while i < s.len() && (('0' <= s[i] && s[i] <= '9') || s[i] == '.')
        invariant
            0 <= i <= s.len(),
            first_non_number(s@) == i + first_non_number(s@.skip(i as int)),
        decreases s.len() - i,
    {
        assert(s@.skip(i as int).drop_first() =~= s@.skip(i + 1));
        i = i + 1;
    }
    if i < s.len() {
        assert(s@.subrange(0, i as int) =~= s@.take(i as int));
        vstd::slice::slice_to_vec(vstd::slice::slice_subrange(s, 0, i))
    } else {
        assert(s@.skip(i as int) =~= Seq::<char>::empty());
        Vec::new()
    }
}

fn has_char(s: &[char], c: char) -> (r: bool)
    ensures
        r == s@.contains(c),
{
    let mut i: usize = 0;
    while i < s.len()
        invariant
            0 <= i <= s.len(),
            forall|k: int| 0 <= k < i ==> s@[k] != c,
        decreases s.len() - i,
    {
        if s[i] == c {
            assert(s@[i as int] == c);
            return true;
        }
        i = i + 1;
    }
    false
}

fn quoted_after_exec(t: &[char], key: &[char]) -> (r: Option<Vec<char>>)
    ensures
        r.deep_view() == quoted_after(t@, key@),
{
    match crate::text::find_chars(t, key) {
        Some(pos) => {
            assert(crate::text::occurs_at(t@, key@, pos as int));
            let klen = key.len();
            let tlen = t.len();
            assert(pos + klen <= tlen);
            let rest = vstd::slice::slice_subrange(t, pos + klen, tlen);
            assert(rest@ =~= t@.skip(pos + key@.len()));
            let v = if has_char(rest, '"') { crate::text::until_char(rest, '"') } else { Vec::new() };
            assert(v@ =~= (if rest@.contains('"') { until(rest@, '"') } else { Seq::<char>::empty() }));
            Some(v)
        },
        None => None,
    }
}

fn json_tempo_exec(t: &[char]) -> (r: Option<Vec<char>>)
    ensures
        r.deep_view() == json_tempo(t@),
{
    let block = chars_of("\"Tempo\":[{");
    let key = chars_of("\"tempo\":");
    match crate::text::find_chars(t, block.as_slice()) {
        Some(pos) => {
            let after = vstd::slice::slice_subrange(t, pos, t.len());
            assert(after@ =~= t@.skip(pos as int));
            match crate::text::find_chars(after, key.as_slice()) {
                Some(tp) => {
                    let rest = vstd::slice::slice_subrange(after, tp + key.len(), after.len());
                    assert(rest@ =~= after@.skip(tp + key@.len()));
                    let v = number_prefix_exec(rest);
                    if crate::number::is_float_literal_exec(v.as_slice()) {
                        Some(v)
                    } else {
                        None
                    }
                },
                None => None,
            }
        },
        None => None,
    }
}

/// Reads tempo, time signature and Logic Drummer character from the JSON that a
/// `ProjectData` text embeds (`"Tempo":[{ … "tempo":128 …`, `"signature":"4/4"`,
/// `"selectedCharacterIdentifier":"…"`), setting each field of `intel` that the
/// text holds. [`crate::project_data::parse_project_data`] does not call it: that tempo comes from
/// beat detection, not from the project.
pub fn extract_tempo_from_json(text: &str, intel: &mut ProjectIntelligence)
    ensures
        final(intel)@ == with_json_fields(old(intel)@, text@),
{
    let t = chars_of(text);
    let ts = t.as_slice();
    let ghost m = intel@;
    let sig_key = chars_of("\"signature\":\"");
    let drummer_key = chars_of("\"selectedCharacterIdentifier\":\"");
    let tempo = json_tempo_exec(ts);
    let sig = quoted_after_exec(ts, sig_key.as_slice());
    let drummer = quoted_after_exec(ts, drummer_key.as_slice());
    if let Some(v) = tempo {
        proof {
            crate::project_data::lemma_chars_deep(v);
        }
        intel.bpm = Some(crate::number::Number::Literal(string_from_chars(v.as_slice())));
    }
    if let Some(v) = sig {
        proof {
            crate::project_data::lemma_chars_deep(v);
        }
        if has_char(v.as_slice(), '/') {
            intel.time_signature = Some(string_from_chars(v.as_slice()));
        }
    }
    if let Some(v) = drummer {
        proof {
            crate::project_data::lemma_chars_deep(v);
        }
        if v.len() > 0 {
            intel.drummer_character = Some(string_from_chars(v.as_slice()));
        }
    }
}

} // verus!
