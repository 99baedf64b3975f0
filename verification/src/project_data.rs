//! Logic Pro `ProjectData` binaries.
//!
//! The binary is undocumented; what can be read dependably are the printable
//! ASCII strings it embeds (plugin names, sample names, track names, markers,
//! routing). Tempo, time signature, duration and swing are left empty: the
//! tempo Logic embeds comes from beat detection, not from the project.
use vstd::prelude::*;
use crate::text::{
    chars_of, contains, dedup, dedup_push, digit_char, flatten, has_infix, has_str, is_decimal_digit,
    is_decimal_digit_exec, is_white_space, is_white_space_exec, occurs_at, push_new, select, somes,
    starts_with, string_from_chars, until,
};

verus! {

/// Printable ASCII: the bytes `0x20..=0x7E`.
pub open spec fn printable(b: u8) -> bool {
    0x20 <= b && b <= 0x7e
}

/// The finished runs and the current run after reading `b`.
pub open spec fn runs(b: Seq<u8>, min_len: nat) -> (Seq<Seq<char>>, Seq<char>)
    decreases b.len(),
{
    if b.len() == 0 {
        (Seq::empty(), Seq::empty())
    } else {
        let (done, cur) = runs(b.drop_last(), min_len);
        if printable(b.last()) {
            (done, cur.push(b.last() as char))
        } else if cur.len() >= min_len {
            (done.push(cur), Seq::empty())
        } else {
            (done, Seq::empty())
        }
    }
}

/// The maximal runs of printable ASCII in `b` that are at least `min_len` long, in order.
pub open spec fn extract_strings_spec(b: Seq<u8>, min_len: nat) -> Seq<Seq<char>> {
    let (done, cur) = runs(b, min_len);
    if cur.len() >= min_len { done.push(cur) } else { done }
}

/// Every character of every string is printable ASCII.
pub open spec fn all_printable(strings: Seq<Seq<char>>) -> bool {
    forall|i: int, j: int| 0 <= i < strings.len() && 0 <= j < strings[i].len() ==>
        0x20 <= (#[trigger] strings[i][j]) as u32 && (strings[i][j] as u32) <= 0x7e
}

proof fn lemma_runs_printable(b: Seq<u8>, min_len: nat)
    ensures
        all_printable(runs(b, min_len).0),
        forall|j: int| 0 <= j < runs(b, min_len).1.len() ==>
            0x20 <= (#[trigger] runs(b, min_len).1[j]) as u32 && (runs(b, min_len).1[j] as u32) <= 0x7e,
        forall|i: int| 0 <= i < runs(b, min_len).0.len() ==> (#[trigger] runs(b, min_len).0[i]).len() >= min_len,
    decreases b.len(),
{
    if b.len() > 0 {
        lemma_runs_printable(b.drop_last(), min_len);
        let (done, cur) = runs(b.drop_last(), min_len);
        if printable(b.last()) {
            let c2 = cur.push(b.last() as char);
            assert forall|j: int| 0 <= j < c2.len() implies 0x20 <= (#[trigger] c2[j]) as u32 && (c2[j] as u32) <= 0x7e by {
                if j < cur.len() {
                    assert(c2[j] == cur[j]);
                }
            }
        } else if cur.len() >= min_len {
            let d2 = done.push(cur);
            assert forall|i: int, j: int| 0 <= i < d2.len() && 0 <= j < d2[i].len() implies
                0x20 <= (#[trigger] d2[i][j]) as u32 && (d2[i][j] as u32) <= 0x7e by {
                if i < done.len() {
                    assert(d2[i] == done[i]);
                }
            }
            assert forall|i: int| 0 <= i < d2.len() implies (#[trigger] d2[i]).len() >= min_len by {
                if i < done.len() {
                    assert(d2[i] == done[i]);
                }
            }
        }
    }
}

/// The strings [`extract_strings`] finds are printable ASCII, each at least
/// `min_len` characters long.
pub proof fn law_extracted_strings_are_printable_runs(b: Seq<u8>, min_len: nat)
    ensures
        all_printable(extract_strings_spec(b, min_len)),
        forall|i: int| 0 <= i < extract_strings_spec(b, min_len).len() ==>
            (#[trigger] extract_strings_spec(b, min_len)[i]).len() >= min_len,
{
    lemma_runs_printable(b, min_len);
    let (done, cur) = runs(b, min_len);
    if cur.len() >= min_len {
        let d2 = done.push(cur);
        assert forall|i: int, j: int| 0 <= i < d2.len() && 0 <= j < d2[i].len() implies
            0x20 <= (#[trigger] d2[i][j]) as u32 && (d2[i][j] as u32) <= 0x7e by {
            if i < done.len() {
                assert(d2[i] == done[i]);
            }
        }
        assert forall|i: int| 0 <= i < d2.len() implies (#[trigger] d2[i]).len() >= min_len by {
            if i < done.len() {
                assert(d2[i] == done[i]);
            }
        }
    }
}

/// Readable ASCII strings of a binary: every maximal run of printable ASCII
/// bytes that is at least `min_len` bytes long, in order.
pub fn extract_strings(bytes: &[u8], min_len: usize) -> (r: Vec<String>)
    ensures
        r.deep_view() == extract_strings_spec(bytes@, min_len as nat),
{
    let mut strings: Vec<String> = Vec::new();
    let mut current: Vec<char> = Vec::new();
    let mut i: usize = 0;
    assert(bytes@.take(0) =~= Seq::<u8>::empty());
    assert(strings.deep_view() =~= Seq::<Seq<char>>::empty());
    while i < bytes.len()
        invariant
            0 <= i <= bytes.len(),
            (strings.deep_view(), current@) == runs(bytes@.take(i as int), min_len as nat),
        decreases bytes.len() - i,
    {
        let byte = bytes[i];
        assert(bytes@.take(i + 1).drop_last() =~= bytes@.take(i as int));
        if 0x20 <= byte && byte <= 0x7e {
            current.push(byte as char);
        } else {
            if current.len() >= min_len {
                let ghost prev = strings.deep_view();
                let s = string_from_chars(current.as_slice());
                strings.push(s);
                assert(strings.deep_view() =~= prev.push(current@));
            }
            current = Vec::new();
        }
        i = i + 1;
    }
    assert(bytes@.take(bytes.len() as int) =~= bytes@);
    if current.len() >= min_len {
        let ghost prev = strings.deep_view();
        let s = string_from_chars(current.as_slice());
        strings.push(s);
        assert(strings.deep_view() =~= prev.push(current@));
    }
    strings
}

/// A plugin name with its number of occurrences.
#[derive(Debug, Clone)]
pub struct PluginCount {
    pub name: String,
    pub count: u32,
}

pub struct PluginCountModel {
    pub name: Seq<char>,
    pub count: u32,
}

impl View for PluginCount {
    type V = PluginCountModel;

    open spec fn view(&self) -> PluginCountModel {
        PluginCountModel { name: self.name@, count: self.count }
    }
}

impl DeepView for PluginCount {
    type V = PluginCountModel;

    open spec fn deep_view(&self) -> PluginCountModel {
        self@
    }
}

/// Bus and send usage.
#[derive(Debug, Clone)]
pub struct RoutingHints {
    /// Bus numbers seen, ascending and without repeats.
    pub buses_used: Vec<u32>,
    pub bus_count: u32,
    /// Number of strings that name a send control.
    pub send_count: u32,
    pub has_routing: bool,
}

pub struct RoutingModel {
    pub buses_used: Seq<u32>,
    pub bus_count: u32,
    pub send_count: u32,
    pub has_routing: bool,
}

impl View for RoutingHints {
    type V = RoutingModel;

    open spec fn view(&self) -> RoutingModel {
        RoutingModel {
            buses_used: self.buses_used@,
            bus_count: self.bus_count,
            send_count: self.send_count,
            has_routing: self.has_routing,
        }
    }
}

pub open spec fn empty_routing() -> RoutingModel {
    RoutingModel { buses_used: Seq::empty(), bus_count: 0, send_count: 0, has_routing: false }
}

impl Default for RoutingHints {
    fn default() -> (r: RoutingHints)
        ensures
            r@ == empty_routing(),
    {
        let r = RoutingHints { buses_used: Vec::new(), bus_count: 0, send_count: 0, has_routing: false };
        assert(r@.buses_used =~= Seq::<u32>::empty());
        r
    }
}

/// Number of white-space characters starting at index `i`.
pub open spec fn ws_run(s: Seq<char>, i: int) -> nat
    decreases s.len() - i,
{
    if 0 <= i < s.len() && is_white_space(s[i]) { 1 + ws_run(s, i + 1) } else { 0 }
}

/// Number of Unicode decimal-digit characters starting at index `i`.
pub open spec fn digit_run(s: Seq<char>, i: int) -> nat
    decreases s.len() - i,
{
    if 0 <= i < s.len() && is_decimal_digit(s[i]) { 1 + digit_run(s, i + 1) } else { 0 }
}

/// The pattern `Bus\s+(\d+)` matches at index `i`.
pub open spec fn bus_at(s: Seq<char>, i: int) -> bool {
    occurs_at(s, "Bus"@, i) && ws_run(s, i + 3) > 0 && digit_run(s, i + 3 + ws_run(s, i + 3)) > 0
}

/// The digits the leftmost match of `Bus\s+(\d+)` in `s` captures.
pub open spec fn bus_capture(s: Seq<char>) -> Option<Seq<char>> {
    if exists|i: int| bus_at(s, i) {
        let i = choose|i: int| bus_at(s, i) && forall|j: int| 0 <= j < i ==> !bus_at(s, j);
        let d = i + 3 + ws_run(s, i + 3);
        Some(s.subrange(d, d + digit_run(s, d)))
    } else {
        None
    }
}

/// Value of a sequence of ASCII digits.
pub open spec fn digits_value(t: Seq<char>) -> nat
    decreases t.len(),
{
    if t.len() == 0 { 0 } else { 10 * digits_value(t.drop_last()) + ((t.last() as u32) - ('0' as u32)) as nat }
}

/// `t` without one leading `+`.
pub open spec fn strip_plus(t: Seq<char>) -> Seq<char> {
    if t.len() > 0 && t[0] == '+' { t.drop_first() } else { t }
}

/// Every character of `d` is an ASCII digit.
pub open spec fn all_ascii_digits(d: Seq<char>) -> bool {
    forall|k: int| 0 <= k < d.len() ==> '0' <= #[trigger] d[k] && d[k] <= '9'
}

/// What `str::parse::<u32>` gives: an optional `+`, then one or more ASCII
/// digits whose value fits in `u32`.
pub open spec fn parse_u32(t: Seq<char>) -> Option<u32> {
    let d = strip_plus(t);
    if d.len() > 0 && all_ascii_digits(d) && digits_value(d) <= u32::MAX {
        Some(digits_value(d) as u32)
    } else {
        None
    }
}

/// `str::parse::<u32>` on a character slice.
pub fn parse_u32_exec(t: &[char]) -> (r: Option<u32>)
    ensures
        r == parse_u32(t@),
{
    let start: usize = if t.len() > 0 && t[0] == '+' { 1 } else { 0 };
    let ghost d = strip_plus(t@);
    assert(d =~= t@.skip(start as int));
    if start >= t.len() {
        return None;
    }
    let mut v: u64 = 0;
    let mut i: usize = start;
    while i < t.len()
        invariant
            start <= i <= t.len(),
            d == strip_plus(t@),
            d =~= t@.skip(start as int),
            forall|k: int| start <= k < i ==> '0' <= #[trigger] t@[k] && t@[k] <= '9',
            v == digits_value(t@.subrange(start as int, i as int)),
            v <= u32::MAX,
        decreases t.len() - i,
    {
        let c = t[i];
        if c < '0' || c > '9' {
            proof {
                let j = (i - start) as int;
                assert(d[j] == c);
                assert(!('0' <= d[j] && d[j] <= '9'));
                assert(!all_ascii_digits(d));
                assert(parse_u32(t@) is None);
            }
            return None;
        }
        assert(t@.subrange(start as int, i + 1).drop_last() =~= t@.subrange(start as int, i as int));
        let dv = (c as u32 - '0' as u32) as u64;
        v = 10 * v + dv;
        i = i + 1;
        if v > 0xffff_ffff {
            proof {
                assert(d.take((i - start) as int) =~= t@.subrange(start as int, i as int));
                if all_ascii_digits(d) {
                    lemma_digits_value_prefix(d, (i - start) as int);
                    assert(digits_value(d) > u32::MAX);
                }
                assert(parse_u32(t@) is None);
            }
            return None;
        }
    }
    assert(t@.subrange(start as int, t.len() as int) =~= d);
    Some(v as u32)
}

proof fn lemma_digits_value_prefix(d: Seq<char>, k: int)
    requires
        0 <= k <= d.len(),
        forall|m: int| 0 <= m < d.len() ==> '0' <= #[trigger] d[m] && d[m] <= '9',
    ensures
        digits_value(d.take(k)) <= digits_value(d),
    decreases d.len() - k,
{
    if k < d.len() {
        lemma_digits_value_prefix(d, k + 1);
        assert(d.take(k + 1).drop_last() =~= d.take(k));
    } else {
        assert(d.take(k) =~= d);
    }
}

/// The bus number a string names, if it names one.
pub open spec fn bus_number(s: Seq<char>) -> Option<u32> {
    match bus_capture(s) {
        Some(t) => parse_u32(t),
        None => None,
    }
}

/// The string names a send control.
pub open spec fn is_send(s: Seq<char>) -> bool {
    contains(s, "Send Level"@) || contains(s, "Send Pan"@) || contains(s, "Send On/Off"@)
}

/// `x` inserted into the ascending sequence `sorted` at its place.
pub open spec fn insert_asc(sorted: Seq<u32>, x: u32) -> Seq<u32>
    decreases sorted.len(),
{
    if sorted.len() == 0 {
        seq![x]
    } else if sorted.last() <= x {
        sorted.push(x)
    } else {
        insert_asc(sorted.drop_last(), x).push(sorted.last())
    }
}

/// `s` sorted ascending.
pub open spec fn sort_asc(s: Seq<u32>) -> Seq<u32>
    decreases s.len(),
{
    if s.len() == 0 { s } else { insert_asc(sort_asc(s.drop_last()), s.last()) }
}

/// The bus numbers the strings name, in order (with repeats).
pub open spec fn bus_numbers(strings: Seq<Seq<char>>) -> Seq<u32>
    decreases strings.len(),
{
    if strings.len() == 0 {
        Seq::empty()
    } else {
        match bus_number(strings.last()) {
            Some(n) => bus_numbers(strings.drop_last()).push(n),
            None => bus_numbers(strings.drop_last()),
        }
    }
}

/// Number of strings that name a send control.
pub open spec fn send_total(strings: Seq<Seq<char>>) -> nat
    decreases strings.len(),
{
    if strings.len() == 0 {
        0
    } else {
        send_total(strings.drop_last()) + if is_send(strings.last()) { 1nat } else { 0nat }
    }
}

/// The routing summary of a project's strings: the distinct bus numbers named
/// by `Bus <n>`, ascending; their count; the number of send strings; and
/// whether either is non-zero.
pub open spec fn routing_spec(strings: Seq<Seq<char>>) -> RoutingModel {
    let buses = sort_asc(dedup(bus_numbers(strings)));
    RoutingModel {
        buses_used: buses,
        bus_count: buses.len() as u32,
        send_count: send_total(strings) as u32,
        has_routing: buses.len() as u32 > 0 || send_total(strings) > 0,
    }
}

fn ws_run_exec(s: &[char], i: usize) -> (r: usize)
    requires
        i <= s.len(),
    ensures
        r == ws_run(s@, i as int),
        i + r <= s.len(),
{
    let mut k: usize = i;
    while k < s.len() && is_white_space_exec(s[k])
        invariant
            i <= k <= s.len(),
            ws_run(s@, i as int) == (k - i) + ws_run(s@, k as int),
        decreases s.len() - k,
    {
        k = k + 1;
    }
    k - i
}

fn digit_run_exec(s: &[char], i: usize) -> (r: usize)
    requires
        i <= s.len(),
    ensures
        r == digit_run(s@, i as int),
        i + r <= s.len(),
{
    let mut k: usize = i;
    while k < s.len() && is_decimal_digit_exec(s[k])
        invariant
            i <= k <= s.len(),
            digit_run(s@, i as int) == (k - i) + digit_run(s@, k as int),
        decreases s.len() - k,
    {
        k = k + 1;
    }
    k - i
}

proof fn lemma_runs_bounded(s: Seq<char>, i: int)
    requires
        0 <= i,
    ensures
        i + ws_run(s, i) <= s.len() || ws_run(s, i) == 0,
        i + digit_run(s, i) <= s.len() || digit_run(s, i) == 0,
    decreases s.len() - i,
{
    if 0 <= i < s.len() {
        lemma_runs_bounded(s, i + 1);
    }
}

/// The digits captured by the leftmost match of `Bus\s+(\d+)`, if any.
pub fn bus_capture_exec(s: &[char]) -> (r: Option<Vec<char>>)
    ensures
        match (r, bus_capture(s@)) {
            (Some(v), Some(t)) => v@ == t,
            (None, None) => true,
            _ => false,
        },
{
    let bus = chars_of("Bus");
    proof {
        reveal_strlit("Bus");
        assert(bus@.len() == 3);
    }
    let mut i: usize = 0;
    while i < s.len()
        invariant
            0 <= i <= s.len(),
            bus@ == "Bus"@,
            bus@.len() == 3,
            forall|j: int| 0 <= j < i ==> !bus_at(s@, j),
        decreases s.len() - i,
    {
        if crate::text::matches_at(s, bus.as_slice(), i) {
            let w = ws_run_exec(s, i + 3);
            if w > 0 {
                let d = digit_run_exec(s, i + 3 + w);
                if d > 0 {
                    let ghost k = choose|k: int| bus_at(s@, k) && forall|j: int| 0 <= j < k ==> !bus_at(s@, j);
                    assert(bus_at(s@, i as int));
                    assert(k == i as int) by {
                        if k < i as int {
                        } else if k > i as int {
                        }
                    }
                    let v = vstd::slice::slice_to_vec(vstd::slice::slice_subrange(s, i + 3 + w, i + 3 + w + d));
                    return Some(v);
                }
            }
        }
        i = i + 1;
    }
    assert forall|j: int| !bus_at(s@, j) by {
        if bus_at(s@, j) {
            assert(j < i);
        }
    }
    None
}

fn is_send_exec(s: &[char]) -> (r: bool)
    ensures
        r == is_send(s@),
{
    has_str(s, "Send Level") || has_str(s, "Send Pan") || has_str(s, "Send On/Off")
}

/// The bus number `s` names, if it names one.
pub fn bus_number_exec(s: &[char]) -> (r: Option<u32>)
    ensures
        r == bus_number(s@),
{
    match bus_capture_exec(s) {
        Some(digits) => parse_u32_exec(digits.as_slice()),
        None => None,
    }
}

fn push_new_u32(list: &mut Vec<u32>, x: u32)
    ensures
        final(list)@ == dedup_push(old(list)@, x),
{
    let mut k: usize = 0;
    while k < list.len()
        invariant
            0 <= k <= list.len(),
            forall|m: int| 0 <= m < k ==> list@[m] != x,
        decreases list.len() - k,
    {
        if list[k] == x {
            assert(list@[k as int] == x);
            return;
        }
        k = k + 1;
    }
    list.push(x);
}

proof fn lemma_routing_step(sv: Seq<Seq<char>>, i: int)
    requires
        0 <= i < sv.len(),
    ensures
        bus_numbers(sv.take(i + 1)) == (match bus_number(sv[i]) {
            Some(n) => bus_numbers(sv.take(i)).push(n),
            None => bus_numbers(sv.take(i)),
        }),
        send_total(sv.take(i + 1)) == send_total(sv.take(i)) + if is_send(sv[i]) { 1nat } else { 0nat },
{
    assert(sv.take(i + 1).drop_last() =~= sv.take(i));
    assert(sv.take(i + 1).last() == sv[i]);
}

/// Bus usage and send count of a project's strings.
pub fn extract_routing_hints(strings: &[String]) -> (r: RoutingHints)
    requires
        strings@.len() <= u32::MAX,
    ensures
        r@ == routing_spec(strings.deep_view()),
{
    let ghost sv = strings.deep_view();
    let mut found: Vec<u32> = Vec::new();
    let mut send_count: u32 = 0;
    let mut i: usize = 0;
    assert(sv.take(0) =~= Seq::<Seq<char>>::empty());
    while i < strings.len()
        invariant
            0 <= i <= strings.len(),
            sv == strings.deep_view(),
            strings@.len() <= u32::MAX,
            found@ == dedup(bus_numbers(sv.take(i as int))),
            send_count == send_total(sv.take(i as int)),
            send_count <= i,
        decreases strings.len() - i,
    {
        let s = chars_of(strings[i].as_str());
        assert(s@ == sv[i as int]);
        proof {
            lemma_routing_step(sv, i as int);
        }
        let bn = bus_number_exec(s.as_slice());
        match bn {
            Some(num) => {
                let ghost prev = bus_numbers(sv.take(i as int));
                push_new_u32(&mut found, num);
                assert(prev.push(num).drop_last() =~= prev);
                assert(dedup(prev.push(num)) == dedup_push(dedup(prev), num));
            },
            None => {},
        }
        if is_send_exec(s.as_slice()) {
            send_count = send_count + 1;
        }
        i = i + 1;
    }
    assert(sv.take(strings.len() as int) =~= sv);
    let buses = sort_asc_exec(&found);
    let bus_count = buses.len() as u32;
    RoutingHints {
        has_routing: bus_count > 0 || send_count > 0,
        buses_used: buses,
        bus_count: bus_count,
        send_count: send_count,
    }
}

proof fn lemma_insert_asc(sorted: Seq<u32>, x: u32, j: int)
    requires
        0 <= j <= sorted.len(),
        forall|k: int| j <= k < sorted.len() ==> #[trigger] sorted[k] > x,
        j > 0 ==> sorted[j - 1] <= x,
    ensures
        insert_asc(sorted, x) == sorted.take(j).push(x) + sorted.skip(j),
    decreases sorted.len(),
{
    if sorted.len() == 0 {
        assert(sorted.take(j).push(x) + sorted.skip(j) =~= seq![x]);
    } else if sorted.last() <= x {
        assert(j == sorted.len());
        assert(sorted.take(j).push(x) + sorted.skip(j) =~= sorted.push(x));
    } else {
        lemma_insert_asc(sorted.drop_last(), x, j);
        assert(sorted.drop_last().take(j) =~= sorted.take(j));
        assert(sorted.take(j).push(x) + sorted.skip(j) =~= (sorted.take(j).push(x) + sorted.drop_last().skip(j)).push(sorted.last()));
    }
}

fn sort_asc_exec(v: &Vec<u32>) -> (r: Vec<u32>)
    ensures
        r@ == sort_asc(v@),
{
    let mut r: Vec<u32> = Vec::new();
    let mut i: usize = 0;
    assert(v@.take(0) =~= Seq::<u32>::empty());
    while i < v.len()
        invariant
            0 <= i <= v.len(),
            r@ == sort_asc(v@.take(i as int)),
        decreases v.len() - i,
    {
        let x = v[i];
        assert(v@.take(i + 1).drop_last() =~= v@.take(i as int));
        let mut j: usize = r.len();
        while j > 0 && r[j - 1] > x
            invariant
                0 <= j <= r.len(),
                forall|k: int| j <= k < r.len() ==> #[trigger] r@[k] > x,
            decreases j,
        {
            j = j - 1;
        }
        proof {
            lemma_insert_asc(r@, x, j as int);
        }
        let ghost before = r@;
        r.insert(j, x);
        assert(r@ =~= before.take(j as int).push(x) + before.skip(j as int));
        i = i + 1;
    }
    assert(v@.take(v.len() as int) =~= v@);
    r
}

/// Each element is smaller than every later one.
pub open spec fn strictly_ascending(s: Seq<u32>) -> bool {
    forall|i: int, j: int| 0 <= i < j < s.len() ==> #[trigger] s[i] < #[trigger] s[j]
}

proof fn lemma_insert_asc_strict(sorted: Seq<u32>, x: u32)
    requires
        strictly_ascending(sorted),
        !sorted.contains(x),
    ensures
        strictly_ascending(insert_asc(sorted, x)),
        insert_asc(sorted, x).len() == sorted.len() + 1,
        forall|v: u32| insert_asc(sorted, x).contains(v) <==> (sorted.contains(v) || v == x),
    decreases sorted.len(),
{
    let r = insert_asc(sorted, x);
    if sorted.len() == 0 {
        assert(r[0] == x);
    } else if sorted.last() <= x {
        assert(r =~= sorted.push(x));
        assert forall|i: int, j: int| 0 <= i < j < r.len() implies #[trigger] r[i] < #[trigger] r[j] by {
            if j == sorted.len() {
                if i < sorted.len() - 1 {
                    assert(sorted[i] < sorted[sorted.len() - 1]);
                }
                assert(sorted[sorted.len() - 1] != x);
            } else {
                assert(sorted[i] < sorted[j]);
            }
        }
        assert forall|v: u32| r.contains(v) <==> (sorted.contains(v) || v == x) by {
            if r.contains(v) {
                let k = choose|k: int| 0 <= k < r.len() && r[k] == v;
                if k < sorted.len() {
                    assert(sorted[k] == v);
                }
            }
            if sorted.contains(v) {
                let k = choose|k: int| 0 <= k < sorted.len() && sorted[k] == v;
                assert(r[k] == v);
            }
            if v == x {
                assert(r[sorted.len() as int] == v);
            }
        }
    } else {
        let p = sorted.drop_last();
        let last = sorted.last();
        assert forall|i: int, j: int| 0 <= i < j < p.len() implies #[trigger] p[i] < #[trigger] p[j] by {
            assert(sorted[i] < sorted[j]);
        }
        assert(!p.contains(x)) by {
            if p.contains(x) {
                let k = choose|k: int| 0 <= k < p.len() && p[k] == x;
                assert(sorted[k] == x);
            }
        }
        lemma_insert_asc_strict(p, x);
        let q = insert_asc(p, x);
        assert(r =~= q.push(last));
        assert forall|k: int| 0 <= k < q.len() implies #[trigger] q[k] < last by {
            assert(q.contains(q[k]));
            if q[k] != x {
                assert(p.contains(q[k]));
                let m = choose|m: int| 0 <= m < p.len() && p[m] == q[k];
                assert(sorted[m] < sorted[sorted.len() - 1]);
            }
        }
        assert forall|i: int, j: int| 0 <= i < j < r.len() implies #[trigger] r[i] < #[trigger] r[j] by {
            if j == q.len() {
                assert(r[i] == q[i]);
                assert(q[i] < last);
            } else {
                assert(q[i] < q[j]);
            }
        }
        assert forall|v: u32| r.contains(v) <==> (sorted.contains(v) || v == x) by {
            if r.contains(v) {
                let k = choose|k: int| 0 <= k < r.len() && r[k] == v;
                if k < q.len() {
                    assert(q.contains(v));
                    if v != x {
                        assert(p.contains(v));
                        let m = choose|m: int| 0 <= m < p.len() && p[m] == v;
                        assert(sorted[m] == v);
                    }
                } else {
                    assert(sorted[sorted.len() - 1] == v);
                }
            }
            if sorted.contains(v) {
                let k = choose|k: int| 0 <= k < sorted.len() && sorted[k] == v;
                if k < p.len() {
                    assert(p[k] == v);
                    assert(p.contains(v));
                    assert(q.contains(v));
                    let m = choose|m: int| 0 <= m < q.len() && q[m] == v;
                    assert(r[m] == v);
                } else {
                    assert(r[q.len() as int] == v);
                }
            }
            if v == x {
                assert(q.contains(v));
                let m = choose|m: int| 0 <= m < q.len() && q[m] == v;
                assert(r[m] == v);
            }
        }
    }
}

proof fn lemma_sort_asc_strict(s: Seq<u32>)
    requires
        forall|i: int, j: int| 0 <= i < j < s.len() ==> s[i] != s[j],
    ensures
        strictly_ascending(sort_asc(s)),
        sort_asc(s).len() == s.len(),
        forall|v: u32| sort_asc(s).contains(v) <==> s.contains(v),
    decreases s.len(),
{
    if s.len() > 0 {
        let p = s.drop_last();
        let x = s.last();
        assert forall|i: int, j: int| 0 <= i < j < p.len() implies p[i] != p[j] by {
            assert(s[i] != s[j]);
        }
        lemma_sort_asc_strict(p);
        assert(!p.contains(x)) by {
            if p.contains(x) {
                let k = choose|k: int| 0 <= k < p.len() && p[k] == x;
                assert(s[k] != s[s.len() - 1]);
            }
        }
        lemma_insert_asc_strict(sort_asc(p), x);
        assert forall|v: u32| sort_asc(s).contains(v) <==> s.contains(v) by {
            if s.contains(v) {
                let k = choose|k: int| 0 <= k < s.len() && s[k] == v;
                if k < p.len() {
                    assert(p[k] == v);
                    assert(p.contains(v));
                }
            }
            if p.contains(v) {
                let k = choose|k: int| 0 <= k < p.len() && p[k] == v;
                assert(s[k] == v);
            }
            if v == x {
                assert(s[s.len() - 1] == v);
            }
        }
    }
}

proof fn lemma_bus_numbers_len(strings: Seq<Seq<char>>)
    ensures
        bus_numbers(strings).len() <= strings.len(),
        send_total(strings) <= strings.len(),
    decreases strings.len(),
{
    if strings.len() > 0 {
        lemma_bus_numbers_len(strings.drop_last());
    }
}

/// The routing summary lists each bus number named by a `Bus <n>` string once,
/// in ascending order; its bus count is the length of that list; its send count
/// is the number of send strings; and it reports routing exactly when it found a
/// bus or a send.
pub proof fn law_routing_summary_is_consistent(strings: Seq<Seq<char>>)
    requires
        strings.len() <= u32::MAX,
    ensures
        strictly_ascending(routing_spec(strings).buses_used),
        forall|v: u32| routing_spec(strings).buses_used.contains(v) <==> bus_numbers(strings).contains(v),
        routing_spec(strings).bus_count == routing_spec(strings).buses_used.len(),
        routing_spec(strings).send_count == send_total(strings),
        routing_spec(strings).has_routing <==> (routing_spec(strings).bus_count > 0
            || routing_spec(strings).send_count > 0),
{
    let b = bus_numbers(strings);
    lemma_bus_numbers_len(strings);
    crate::text::lemma_dedup_distinct(b);
    lemma_dedup_len(b);
    lemma_sort_asc_strict(dedup(b));
    assert forall|v: u32| dedup(b).contains(v) <==> b.contains(v) by {
        if b.contains(v) {
            lemma_dedup_keeps(b, v);
        }
    }
}

} // verus!

verus! {

/// Logic's stock plugins, in the order they are looked for.
pub open spec fn plugin_catalog() -> Seq<Seq<char>> {
    seq![
        "Channel EQ"@,
        "Compressor"@,
        "Limiter"@,
        "Multipressor"@,
        "Space Designer"@,
        "ChromaVerb"@,
        "SilverVerb"@,
        "Alchemy"@,
        "Retro Synth"@,
        "ES2"@,
        "EXS24"@,
        "Sampler"@,
        "Ultrabeat"@,
        "Drum Kit Designer"@,
        "Drum Machine Designer"@,
        "AutoFilter"@,
        "Ringshifter"@,
        "Vocal Transformer"@,
        "Pitch Shifter"@,
        "Chorus"@,
        "Flanger"@,
        "Phaser"@,
        "Tremolo"@,
        "Distortion"@,
        "Overdrive"@,
        "Clip Distortion"@,
        "Bitcrusher"@,
        "Tape Delay"@,
        "Stereo Delay"@,
        "Echo"@,
        "Noise Gate"@,
        "DeEsser"@,
        "Exciter"@,
        "Gain"@,
        "Test Oscillator"@,
        "Tuner"@,
        "Rhino Reverb"@,
        "Camel Strip"@
    ]
}

fn plugin_catalog_exec() -> (r: Vec<Vec<char>>)
    ensures
        r.deep_view() == plugin_catalog(),
        r@.len() == 38,
{
    let mut r: Vec<Vec<char>> = Vec::new();
    let e = chars_of("Channel EQ");
    proof { lemma_chars_deep(e); }
    r.push(e);
    let e = chars_of("Compressor");
    proof { lemma_chars_deep(e); }
    r.push(e);
    let e = chars_of("Limiter");
    proof { lemma_chars_deep(e); }
    r.push(e);
    let e = chars_of("Multipressor");
    proof { lemma_chars_deep(e); }
    r.push(e);
    let e = chars_of("Space Designer");
    proof { lemma_chars_deep(e); }
    r.push(e);
    let e = chars_of("ChromaVerb");
    proof { lemma_chars_deep(e); }
    r.push(e);
    let e = chars_of("SilverVerb");
    proof { lemma_chars_deep(e); }
    r.push(e);
    let e = chars_of("Alchemy");
    proof { lemma_chars_deep(e); }
    r.push(e);
    let e = chars_of("Retro Synth");
    proof { lemma_chars_deep(e); }
    r.push(e);
    let e = chars_of("ES2");
    proof { lemma_chars_deep(e); }
    r.push(e);
    let e = chars_of("EXS24");
    proof { lemma_chars_deep(e); }
    r.push(e);
    let e = chars_of("Sampler");
    proof { lemma_chars_deep(e); }
    r.push(e);
    let e = chars_of("Ultrabeat");
    proof { lemma_chars_deep(e); }
    r.push(e);
    let e = chars_of("Drum Kit Designer");
    proof { lemma_chars_deep(e); }
    r.push(e);
    let e = chars_of("Drum Machine Designer");
    proof { lemma_chars_deep(e); }
    r.push(e);
    let e = chars_of("AutoFilter");
    proof { lemma_chars_deep(e); }
    r.push(e);
    let e = chars_of("Ringshifter");
    proof { lemma_chars_deep(e); }
    r.push(e);
    let e = chars_of("Vocal Transformer");
    proof { lemma_chars_deep(e); }
    r.push(e);
    let e = chars_of("Pitch Shifter");
    proof { lemma_chars_deep(e); }
    r.push(e);
    let e = chars_of("Chorus");
    proof { lemma_chars_deep(e); }
    r.push(e);
    let e = chars_of("Flanger");
    proof { lemma_chars_deep(e); }
    r.push(e);
    let e = chars_of("Phaser");
    proof { lemma_chars_deep(e); }
    r.push(e);
    let e = chars_of("Tremolo");
    proof { lemma_chars_deep(e); }
    r.push(e);
    let e = chars_of("Distortion");
    proof { lemma_chars_deep(e); }
    r.push(e);
    let e = chars_of("Overdrive");
    proof { lemma_chars_deep(e); }
    r.push(e);
    let e = chars_of("Clip Distortion");
    proof { lemma_chars_deep(e); }
    r.push(e);
    let e = chars_of("Bitcrusher");
    proof { lemma_chars_deep(e); }
    r.push(e);
    let e = chars_of("Tape Delay");
    proof { lemma_chars_deep(e); }
    r.push(e);
    let e = chars_of("Stereo Delay");
    proof { lemma_chars_deep(e); }
    r.push(e);
    let e = chars_of("Echo");
    proof { lemma_chars_deep(e); }
    r.push(e);
    let e = chars_of("Noise Gate");
    proof { lemma_chars_deep(e); }
    r.push(e);
    let e = chars_of("DeEsser");
    proof { lemma_chars_deep(e); }
    r.push(e);
    let e = chars_of("Exciter");
    proof { lemma_chars_deep(e); }
    r.push(e);
    let e = chars_of("Gain");
    proof { lemma_chars_deep(e); }
    r.push(e);
    let e = chars_of("Test Oscillator");
    proof { lemma_chars_deep(e); }
    r.push(e);
    let e = chars_of("Tuner");
    proof { lemma_chars_deep(e); }
    r.push(e);
    let e = chars_of("Rhino Reverb");
    proof { lemma_chars_deep(e); }
    r.push(e);
    let e = chars_of("Camel Strip");
    proof { lemma_chars_deep(e); }
    r.push(e);
    assert(r.deep_view() =~= plugin_catalog());
    assert(r@.len() == 38);
    r
}

/// Hardware emulations (premium channel strips).
pub open spec fn hardware_catalog() -> Seq<Seq<char>> {
    seq![
        "Avalon VT-737"@,
        "Avalon VT-747SP"@,
        "SSL E Channel"@,
        "SSL G Channel"@,
        "Neve 1073"@,
        "API 550"@,
        "Manley VOXBOX"@,
        "Universal Audio"@,
        "Pultec EQP-1A"@,
        "LA-2A"@,
        "1176"@,
        "Fairchild 670"@
    ]
}

fn hardware_catalog_exec() -> (r: Vec<Vec<char>>)
    ensures
        r.deep_view() == hardware_catalog(),
        r@.len() == 12,
{
    let mut r: Vec<Vec<char>> = Vec::new();
    let e = chars_of("Avalon VT-737");
    proof { lemma_chars_deep(e); }
    r.push(e);
    let e = chars_of("Avalon VT-747SP");
    proof { lemma_chars_deep(e); }
    r.push(e);
    let e = chars_of("SSL E Channel");
    proof { lemma_chars_deep(e); }
    r.push(e);
    let e = chars_of("SSL G Channel");
    proof { lemma_chars_deep(e); }
    r.push(e);
    let e = chars_of("Neve 1073");
    proof { lemma_chars_deep(e); }
    r.push(e);
    let e = chars_of("API 550");
    proof { lemma_chars_deep(e); }
    r.push(e);
    let e = chars_of("Manley VOXBOX");
    proof { lemma_chars_deep(e); }
    r.push(e);
    let e = chars_of("Universal Audio");
    proof { lemma_chars_deep(e); }
    r.push(e);
    let e = chars_of("Pultec EQP-1A");
    proof { lemma_chars_deep(e); }
    r.push(e);
    let e = chars_of("LA-2A");
    proof { lemma_chars_deep(e); }
    r.push(e);
    let e = chars_of("1176");
    proof { lemma_chars_deep(e); }
    r.push(e);
    let e = chars_of("Fairchild 670");
    proof { lemma_chars_deep(e); }
    r.push(e);
    assert(r.deep_view() =~= hardware_catalog());
    r
}

/// Section marker names.
pub open spec fn marker_catalog() -> Seq<Seq<char>> {
    seq![
        "Verse"@,
        "Chorus"@,
        "Bridge"@,
        "Intro"@,
        "Outro"@,
        "Hook"@,
        "Drop"@,
        "Break"@,
        "Pre-Chorus"@,
        "Interlude"@,
        "Buildup"@,
        "Breakdown"@
    ]
}

fn marker_catalog_exec() -> (r: Vec<Vec<char>>)
    ensures
        r.deep_view() == marker_catalog(),
        r@.len() == 12,
{
    let mut r: Vec<Vec<char>> = Vec::new();
    let e = chars_of("Verse");
    proof { lemma_chars_deep(e); }
    r.push(e);
    let e = chars_of("Chorus");
    proof { lemma_chars_deep(e); }
    r.push(e);
    let e = chars_of("Bridge");
    proof { lemma_chars_deep(e); }
    r.push(e);
    let e = chars_of("Intro");
    proof { lemma_chars_deep(e); }
    r.push(e);
    let e = chars_of("Outro");
    proof { lemma_chars_deep(e); }
    r.push(e);
    let e = chars_of("Hook");
    proof { lemma_chars_deep(e); }
    r.push(e);
    let e = chars_of("Drop");
    proof { lemma_chars_deep(e); }
    r.push(e);
    let e = chars_of("Break");
    proof { lemma_chars_deep(e); }
    r.push(e);
    let e = chars_of("Pre-Chorus");
    proof { lemma_chars_deep(e); }
    r.push(e);
    let e = chars_of("Interlude");
    proof { lemma_chars_deep(e); }
    r.push(e);
    let e = chars_of("Buildup");
    proof { lemma_chars_deep(e); }
    r.push(e);
    let e = chars_of("Breakdown");
    proof { lemma_chars_deep(e); }
    r.push(e);
    assert(r.deep_view() =~= marker_catalog());
    r
}

} // verus!

verus! {

/// A character vector's deep view is its view.
pub proof fn lemma_chars_deep(v: Vec<char>)
    ensures
        v.deep_view() == v@,
{
    assert(v.deep_view() =~= v@);
}

/// The catalogs whose names are looked for in each string.
#[derive(Debug, Clone, Copy, PartialEq, Eq, Structural)]
pub enum Catalog {
    Plugins,
    Hardware,
    Markers,
}

pub open spec fn catalog(k: Catalog) -> Seq<Seq<char>> {
    match k {
        Catalog::Plugins => plugin_catalog(),
        Catalog::Hardware => hardware_catalog(),
        Catalog::Markers => marker_catalog(),
    }
}

/// String `s` mentions catalog entry `item`: a plugin when `s` starts with its
/// name and is less than five characters longer; a hardware emulation when `s`
/// contains its name; a marker when `s` is its name or starts with it and a space.
pub open spec fn hit(k: Catalog, s: Seq<char>, item: Seq<char>) -> bool {
    match k {
        Catalog::Plugins => starts_with(s, item) && s.len() < item.len() + 5,
        Catalog::Hardware => contains(s, item),
        Catalog::Markers => s == item || starts_with(s, item.push(' ')),
    }
}

/// The entries of `items` that `s` mentions, in catalog order.
pub open spec fn hits(k: Catalog, s: Seq<char>, items: Seq<Seq<char>>) -> Seq<Seq<char>>
    decreases items.len(),
{
    if items.len() == 0 {
        Seq::empty()
    } else if hit(k, s, items.last()) {
        hits(k, s, items.drop_last()).push(items.last())
    } else {
        hits(k, s, items.drop_last())
    }
}

/// Catalog entries mentioned by each string in turn.
pub open spec fn all_hits(k: Catalog, strings: Seq<Seq<char>>) -> Seq<Seq<char>>
    decreases strings.len(),
{
    if strings.len() == 0 {
        Seq::empty()
    } else {
        all_hits(k, strings.drop_last()) + hits(k, strings.last(), catalog(k))
    }
}

fn catalog_exec(k: Catalog) -> (r: Vec<Vec<char>>)
    ensures
        r.deep_view() == catalog(k),
        r@.len() <= 38,
{
    match k {
        Catalog::Plugins => plugin_catalog_exec(),
        Catalog::Hardware => hardware_catalog_exec(),
        Catalog::Markers => marker_catalog_exec(),
    }
}

fn hit_exec(k: Catalog, s: &[char], item: &[char]) -> (r: bool)
    ensures
        r == hit(k, s@, item@),
{
    match k {
        Catalog::Plugins => crate::text::has_prefix(s, item) && s.len() - item.len() < 5,
        Catalog::Hardware => has_infix(s, item),
        Catalog::Markers => {
            let mut with_space = vstd::slice::slice_to_vec(item);
            with_space.push(' ');
            crate::text::chars_eq(s, item) || crate::text::has_prefix(s, with_space.as_slice())
        },
    }
}

proof fn lemma_hits_len(k: Catalog, s: Seq<char>, items: Seq<Seq<char>>)
    ensures
        hits(k, s, items).len() <= items.len(),
    decreases items.len(),
{
    if items.len() > 0 {
        lemma_hits_len(k, s, items.drop_last());
    }
}

/// Every catalog entry that each string mentions, string after string.
fn all_hits_exec(k: Catalog, strings: &Vec<Vec<char>>) -> (r: Vec<String>)
    ensures
        r.deep_view() == all_hits(k, strings.deep_view()),
        r@.len() <= 38 * strings@.len(),
{
    let items = catalog_exec(k);
    let ghost sv = strings.deep_view();
    let mut r: Vec<String> = Vec::new();
    let mut i: usize = 0;
    assert(sv.take(0) =~= Seq::<Seq<char>>::empty());
    assert(r.deep_view() =~= Seq::<Seq<char>>::empty());
    while i < strings.len()
        invariant
            0 <= i <= strings.len(),
            sv == strings.deep_view(),
            items.deep_view() == catalog(k),
            items@.len() <= 38,
            r.deep_view() == all_hits(k, sv.take(i as int)),
            r@.len() <= 38 * i,
        decreases strings.len() - i,
    {
        let s = &strings[i];
        proof {
            lemma_chars_deep(strings@[i as int]);
        }
        let ghost base = r.deep_view();
        let mut j: usize = 0;
        assert(items.deep_view().take(0) =~= Seq::<Seq<char>>::empty());
        assert(base + hits(k, s@, items.deep_view().take(0)) =~= base);
        while j < items.len()
            invariant
                0 <= j <= items.len(),
                items@.len() <= 38,
                r.deep_view() == base + hits(k, s@, items.deep_view().take(j as int)),
                r@.len() <= base.len() + j,
            decreases items.len() - j,
        {
            let ghost before = r.deep_view();
            assert(items.deep_view().take(j + 1).drop_last() =~= items.deep_view().take(j as int));
            assert(items.deep_view().take(j + 1).last() == items[j as int]@) by {
                lemma_chars_deep(items@[j as int]);
            }
            if hit_exec(k, s.as_slice(), items[j].as_slice()) {
                r.push(string_from_chars(items[j].as_slice()));
                assert(r.deep_view() =~= before.push(items[j as int]@));
            }
            j = j + 1;
        }
        assert(items.deep_view().take(items.len() as int) =~= items.deep_view());
        assert(sv.take(i + 1).drop_last() =~= sv.take(i as int));
        assert(sv.take(i + 1).last() == s@);
        i = i + 1;
    }
    assert(sv.take(strings.len() as int) =~= sv);
    r
}

/// The distinct strings of `v`, in order of first occurrence.
pub(crate) fn dedup_strings(v: &Vec<String>) -> (r: Vec<String>)
    ensures
        r.deep_view() == dedup(v.deep_view()),
{
    let ghost vv = v.deep_view();
    let mut r: Vec<String> = Vec::new();
    let mut i: usize = 0;
    assert(vv.take(0) =~= Seq::<Seq<char>>::empty());
    assert(r.deep_view() =~= Seq::<Seq<char>>::empty());
    while i < v.len()
        invariant
            0 <= i <= v.len(),
            vv == v.deep_view(),
            r.deep_view() == dedup(vv.take(i as int)),
        decreases v.len() - i,
    {
        assert(vv.take(i + 1).drop_last() =~= vv.take(i as int));
        push_new(&mut r, v[i].clone());
        i = i + 1;
    }
    assert(vv.take(v.len() as int) =~= vv);
    r
}

/// The per-string extractions whose results are kept once each.
#[derive(Debug, Clone, Copy, PartialEq, Eq, Structural)]
pub enum Harvest {
    Samples,
    TrackHints,
    Grooves,
    SynthPatches,
}

/// The string looks like the name of a drum sample or one-shot.
pub open spec fn sample_candidate(s: Seq<char>) -> bool {
    let l = crate::text::lower(s);
    (contains(l, "kick"@) || contains(l, "snare"@) || contains(l, "hat"@) || contains(l, "clap"@)
        || contains(l, "tom"@) || contains(l, "perc"@) || contains(l, "808"@) || contains(l, "one_shot"@)
        || contains(l, "drum"@))
    && s.len() > 8
    && !contains(s, "NSD"@) && !contains(s, "NSO"@) && !contains(s, "{"@) && !contains(s, "customLabel"@)
    && !starts_with(s, "Automatic"@) && !starts_with(s, "DD_GR_"@) && !contains(s, "kDisplay"@)
    && !contains(s, "Track "@) && !contains(s, "="@) && !contains(s, "+"@) && !contains(s, "/"@)
    && !contains(s, "*"@) && !contains(s, "contentTag"@) && !starts_with(s, "GM "@)
}

/// The string names a track.
pub open spec fn track_hint(s: Seq<char>) -> bool {
    (starts_with(s, "Audio "@) || starts_with(s, "Inst "@) || starts_with(s, "Aux "@)
        || starts_with(s, "Bus "@) || starts_with(s, "Track "@)) && s.len() < 30
}

/// What string `s` contributes to the list `k`: a sample name (up to its first
/// `.`, more than five characters), a track name (shorter than 30), a drummer
/// groove template (`DD_GR_` names up to the first `.`, trailing `_` removed,
/// more than eight characters), or a patch name (after leading non-letters,
/// an `Automatic-` prefix, trimmed).
pub open spec fn harvest(k: Harvest, s: Seq<char>) -> Option<Seq<char>> {
    match k {
        Harvest::Samples => if sample_candidate(s) && until(s, '.').len() > 5 {
            Some(until(s, '.'))
        } else {
            None
        },
        Harvest::TrackHints => if track_hint(s) { Some(s) } else { None },
        Harvest::Grooves => {
            let name = crate::text::strip_trailing(until(s, '.'), '_');
            if starts_with(s, "DD_GR_"@) && name.len() > 8 { Some(name) } else { None }
        },
        Harvest::SynthPatches => {
            let cleaned = crate::text::strip_leading_nonalpha(s);
            let name = crate::text::trim(crate::text::strip_prefix_all(cleaned, "Automatic-"@));
            if starts_with(cleaned, "Automatic-"@) && cleaned.len() > 12 && name.len() > 0 {
                Some(name)
            } else {
                None
            }
        },
    }
}

/// What each string contributes to the list `k`, string after string.
pub open spec fn harvested(k: Harvest, strings: Seq<Seq<char>>) -> Seq<Seq<char>>
    decreases strings.len(),
{
    if strings.len() == 0 {
        Seq::empty()
    } else {
        match harvest(k, strings.last()) {
            Some(x) => harvested(k, strings.drop_last()).push(x),
            None => harvested(k, strings.drop_last()),
        }
    }
}

fn sample_candidate_exec(s: &[char]) -> (r: bool)
    ensures
        r == sample_candidate(s@),
{
    let lv = crate::text::lower_chars(s);
    let l = lv.as_slice();
    (has_str(l, "kick") || has_str(l, "snare") || has_str(l, "hat") || has_str(l, "clap")
        || has_str(l, "tom") || has_str(l, "perc") || has_str(l, "808") || has_str(l, "one_shot")
        || has_str(l, "drum"))
    && s.len() > 8
    && !has_str(s, "NSD") && !has_str(s, "NSO") && !has_str(s, "{") && !has_str(s, "customLabel")
    && !crate::text::begins_with(s, "Automatic") && !crate::text::begins_with(s, "DD_GR_")
    && !has_str(s, "kDisplay") && !has_str(s, "Track ") && !has_str(s, "=") && !has_str(s, "+")
    && !has_str(s, "/") && !has_str(s, "*") && !has_str(s, "contentTag")
    && !crate::text::begins_with(s, "GM ")
}

fn harvest_exec(k: Harvest, s: &[char]) -> (r: Option<Vec<char>>)
    ensures
        match (r, harvest(k, s@)) {
            (Some(v), Some(x)) => v@ == x,
            (None, None) => true,
            _ => false,
        },
{
    match k {
        Harvest::Samples => {
            if sample_candidate_exec(s) {
                let clean = crate::text::until_char(s, '.');
                if clean.len() > 5 {
                    return Some(clean);
                }
            }
            None
        },
        Harvest::TrackHints => {
            let b = crate::text::begins_with;
            if (b(s, "Audio ") || b(s, "Inst ") || b(s, "Aux ") || b(s, "Bus ") || b(s, "Track "))
                && s.len() < 30
            {
                Some(vstd::slice::slice_to_vec(s))
            } else {
                None
            }
        },
        Harvest::Grooves => {
            let head = crate::text::until_char(s, '.');
            let name = crate::text::strip_trailing_exec(head.as_slice(), '_');
            if crate::text::begins_with(s, "DD_GR_") && name.len() > 8 {
                Some(name)
            } else {
                None
            }
        },
        Harvest::SynthPatches => {
            let cleaned = crate::text::strip_leading_nonalpha_exec(s);
            let prefix = chars_of("Automatic-");
            let rest = crate::text::strip_prefix_all_exec(cleaned.as_slice(), prefix.as_slice());
            let name = crate::text::trim_chars(rest.as_slice());
            if crate::text::begins_with(cleaned.as_slice(), "Automatic-") && cleaned.len() > 12
                && name.len() > 0
            {
                Some(name)
            } else {
                None
            }
        },
    }
}

fn harvested_exec(k: Harvest, strings: &Vec<Vec<char>>) -> (r: Vec<String>)
    ensures
        r.deep_view() == harvested(k, strings.deep_view()),
{
    let ghost sv = strings.deep_view();
    let mut r: Vec<String> = Vec::new();
    let mut i: usize = 0;
    assert(sv.take(0) =~= Seq::<Seq<char>>::empty());
    assert(r.deep_view() =~= Seq::<Seq<char>>::empty());
    while i < strings.len()
        invariant
            0 <= i <= strings.len(),
            sv == strings.deep_view(),
            r.deep_view() == harvested(k, sv.take(i as int)),
        decreases strings.len() - i,
    {
        assert(sv.take(i + 1).drop_last() =~= sv.take(i as int));
        assert(sv.take(i + 1).last() == strings[i as int]@) by {
            lemma_chars_deep(strings@[i as int]);
        }
        match harvest_exec(k, strings[i].as_slice()) {
            Some(v) => {
                let ghost before = r.deep_view();
                r.push(string_from_chars(v.as_slice()));
                assert(r.deep_view() =~= before.push(v@));
            },
            None => {},
        }
        i = i + 1;
    }
    assert(sv.take(strings.len() as int) =~= sv);
    r
}

/// Number of strings that mention `Automation` and are shorter than 40.
pub open spec fn automation_total(strings: Seq<Seq<char>>) -> nat
    decreases strings.len(),
{
    if strings.len() == 0 {
        0
    } else {
        automation_total(strings.drop_last())
            + if contains(strings.last(), "Automation"@) && strings.last().len() < 40 { 1nat } else { 0nat }
    }
}

fn automation_count_exec(strings: &Vec<Vec<char>>) -> (r: u32)
    ensures
        r == (if automation_total(strings.deep_view()) > u32::MAX {
            u32::MAX as nat
        } else {
            automation_total(strings.deep_view())
        }),
{
    let ghost sv = strings.deep_view();
    let mut count: u64 = 0;
    let mut i: usize = 0;
    assert(sv.take(0) =~= Seq::<Seq<char>>::empty());
    while i < strings.len()
        invariant
            0 <= i <= strings.len(),
            sv == strings.deep_view(),
            count == automation_total(sv.take(i as int)),
            count <= i,
        decreases strings.len() - i,
    {
        assert(sv.take(i + 1).drop_last() =~= sv.take(i as int));
        assert(sv.take(i + 1).last() == strings[i as int]@) by {
            lemma_chars_deep(strings@[i as int]);
        }
        if has_str(strings[i].as_slice(), "Automation") && strings[i].len() < 40 {
            count = count + 1;
        }
        i = i + 1;
    }
    assert(sv.take(strings.len() as int) =~= sv);
    if count > 0xffff_ffff { u32::MAX } else { count as u32 }
}

fn has_lead_sheet_exec(strings: &Vec<Vec<char>>) -> (r: bool)
    ensures
        r == strings.deep_view().contains("Lead Sheet"@),
{
    let lead = chars_of("Lead Sheet");
    let mut i: usize = 0;
    while i < strings.len()
        invariant
            0 <= i <= strings.len(),
            lead@ == "Lead Sheet"@,
            forall|k: int| 0 <= k < i ==> strings.deep_view()[k] != "Lead Sheet"@,
        decreases strings.len() - i,
    {
        proof {
            lemma_chars_deep(strings@[i as int]);
        }
        if crate::text::chars_eq(strings[i].as_slice(), lead.as_slice()) {
            assert(strings.deep_view()[i as int] == "Lead Sheet"@);
            return true;
        }
        i = i + 1;
    }
    false
}

/// A plugin count entry's model as a count list entry.
pub open spec fn counts_of(list: Seq<crate::PluginModel>) -> Seq<PluginCountModel> {
    list.map_values(|m: crate::PluginModel| PluginCountModel { name: m.name, count: m.count })
}

/// `x` inserted into `sorted` (descending by count) after every entry whose
/// count is at least as large.
pub open spec fn insert_desc(sorted: Seq<PluginCountModel>, x: PluginCountModel) -> Seq<PluginCountModel>
    decreases sorted.len(),
{
    if sorted.len() == 0 {
        seq![x]
    } else if sorted.last().count >= x.count {
        sorted.push(x)
    } else {
        insert_desc(sorted.drop_last(), x).push(sorted.last())
    }
}

/// `s` sorted by descending count; entries with equal counts keep their order.
pub open spec fn sort_desc(s: Seq<PluginCountModel>) -> Seq<PluginCountModel>
    decreases s.len(),
{
    if s.len() == 0 { s } else { insert_desc(sort_desc(s.drop_last()), s.last()) }
}

proof fn lemma_insert_desc(sorted: Seq<PluginCountModel>, x: PluginCountModel, j: int)
    requires
        0 <= j <= sorted.len(),
        forall|k: int| j <= k < sorted.len() ==> (#[trigger] sorted[k]).count < x.count,
        j > 0 ==> sorted[j - 1].count >= x.count,
    ensures
        insert_desc(sorted, x) == sorted.take(j).push(x) + sorted.skip(j),
    decreases sorted.len(),
{
    if sorted.len() == 0 {
        assert(sorted.take(j).push(x) + sorted.skip(j) =~= seq![x]);
    } else if sorted.last().count >= x.count {
        assert(j == sorted.len());
        assert(sorted.take(j).push(x) + sorted.skip(j) =~= sorted.push(x));
    } else {
        lemma_insert_desc(sorted.drop_last(), x, j);
        assert(sorted.drop_last().take(j) =~= sorted.take(j));
        assert(sorted.take(j).push(x) + sorted.skip(j) =~= (sorted.take(j).push(x) + sorted.drop_last().skip(j)).push(sorted.last()));
    }
}

/// Plugin counts, most frequent first (a stable sort).
fn sorted_counts(list: &Vec<crate::PluginInfo>) -> (r: Vec<PluginCount>)
    ensures
        r.deep_view() == sort_desc(counts_of(list.deep_view())),
{
    let ghost c = counts_of(list.deep_view());
    let mut r: Vec<PluginCount> = Vec::new();
    let mut i: usize = 0;
    assert(c.take(0) =~= Seq::<PluginCountModel>::empty());
    assert(r.deep_view() =~= Seq::<PluginCountModel>::empty());
    while i < list.len()
        invariant
            0 <= i <= list.len(),
            c == counts_of(list.deep_view()),
            r.deep_view() == sort_desc(c.take(i as int)),
        decreases list.len() - i,
    {
        let x = PluginCount { name: list[i].name.clone(), count: list[i].count };
        assert(x@ == c[i as int]);
        assert(c.take(i + 1).drop_last() =~= c.take(i as int));
        let mut j: usize = r.len();
        while j > 0 && r[j - 1].count < x.count
            invariant
                0 <= j <= r.len(),
                forall|k: int| j <= k < r.len() ==> (#[trigger] r.deep_view()[k]).count < x.count,
            decreases j,
        {
            j = j - 1;
        }
        proof {
            lemma_insert_desc(r.deep_view(), x@, j as int);
        }
        let ghost before = r.deep_view();
        let ghost xv = x@;
        r.insert(j, x);
        assert(r.deep_view() =~= before.take(j as int).push(xv) + before.skip(j as int));
        i = i + 1;
    }
    assert(c.take(list.len() as int) =~= c);
    r
}

/// Everything read from a Logic `ProjectData` binary.
#[derive(Debug, Clone)]
pub struct ProjectIntelligence {
    pub bpm: Option<crate::number::Number>,
    pub time_signature: Option<String>,
    pub duration_seconds: Option<crate::number::Number>,
    pub swing_percentage: Option<crate::number::Number>,
    /// Stock plugins with their number of mentions, most frequent first.
    pub plugins: Vec<PluginCount>,
    pub samples: Vec<String>,
    pub markers: Vec<String>,
    pub hardware_emulations: Vec<String>,
    pub track_hints: Vec<String>,
    pub groove_templates: Vec<String>,
    pub synth_patches: Vec<String>,
    pub automation_count: u32,
    pub has_lead_sheet: bool,
    pub routing_hints: RoutingHints,
    pub drummer_character: Option<String>,
}

pub struct ProjectModel {
    pub bpm: Option<crate::number::NumberModel>,
    pub time_signature: Option<Seq<char>>,
    pub duration_seconds: Option<crate::number::NumberModel>,
    pub swing_percentage: Option<crate::number::NumberModel>,
    pub plugins: Seq<PluginCountModel>,
    pub samples: Seq<Seq<char>>,
    pub markers: Seq<Seq<char>>,
    pub hardware_emulations: Seq<Seq<char>>,
    pub track_hints: Seq<Seq<char>>,
    pub groove_templates: Seq<Seq<char>>,
    pub synth_patches: Seq<Seq<char>>,
    pub automation_count: u32,
    pub has_lead_sheet: bool,
    pub routing_hints: RoutingModel,
    pub drummer_character: Option<Seq<char>>,
}

impl View for ProjectIntelligence {
    type V = ProjectModel;

    open spec fn view(&self) -> ProjectModel {
        ProjectModel {
            bpm: self.bpm.deep_view(),
            time_signature: self.time_signature.deep_view(),
            duration_seconds: self.duration_seconds.deep_view(),
            swing_percentage: self.swing_percentage.deep_view(),
            plugins: self.plugins.deep_view(),
            samples: self.samples.deep_view(),
            markers: self.markers.deep_view(),
            hardware_emulations: self.hardware_emulations.deep_view(),
            track_hints: self.track_hints.deep_view(),
            groove_templates: self.groove_templates.deep_view(),
            synth_patches: self.synth_patches.deep_view(),
            automation_count: self.automation_count,
            has_lead_sheet: self.has_lead_sheet,
            routing_hints: self.routing_hints@,
            drummer_character: self.drummer_character.deep_view(),
        }
    }
}

pub open spec fn empty_project() -> ProjectModel {
    ProjectModel {
        bpm: None,
        time_signature: None,
        duration_seconds: None,
        swing_percentage: None,
        plugins: Seq::empty(),
        samples: Seq::empty(),
        markers: Seq::empty(),
        hardware_emulations: Seq::empty(),
        track_hints: Seq::empty(),
        groove_templates: Seq::empty(),
        synth_patches: Seq::empty(),
        automation_count: 0,
        has_lead_sheet: false,
        routing_hints: empty_routing(),
        drummer_character: None,
    }
}

impl Default for ProjectIntelligence {
    fn default() -> (r: ProjectIntelligence)
        ensures
            r@ == empty_project(),
    {
        let r = ProjectIntelligence {
            bpm: None,
            time_signature: None,
            duration_seconds: None,
            swing_percentage: None,
            plugins: Vec::new(),
            samples: Vec::new(),
            markers: Vec::new(),
            hardware_emulations: Vec::new(),
            track_hints: Vec::new(),
            groove_templates: Vec::new(),
            synth_patches: Vec::new(),
            automation_count: 0,
            has_lead_sheet: false,
            routing_hints: RoutingHints::default(),
            drummer_character: None,
        };
        assert(r@.plugins =~= Seq::<PluginCountModel>::empty());
        assert(r@.samples =~= Seq::<Seq<char>>::empty());
        assert(r@.markers =~= Seq::<Seq<char>>::empty());
        assert(r@.hardware_emulations =~= Seq::<Seq<char>>::empty());
        assert(r@.track_hints =~= Seq::<Seq<char>>::empty());
        assert(r@.groove_templates =~= Seq::<Seq<char>>::empty());
        assert(r@.synth_patches =~= Seq::<Seq<char>>::empty());
        r
    }
}

/// What the strings of a `ProjectData` binary say about the project.
pub open spec fn analyze(strings: Seq<Seq<char>>) -> ProjectModel {
    ProjectModel {
        plugins: sort_desc(counts_of(crate::tally::tally(crate::tally::keys_of(""@, all_hits(Catalog::Plugins, strings))))),
        samples: dedup(harvested(Harvest::Samples, strings)),
        markers: dedup(all_hits(Catalog::Markers, strings)),
        hardware_emulations: dedup(all_hits(Catalog::Hardware, strings)),
        track_hints: dedup(harvested(Harvest::TrackHints, strings)),
        groove_templates: dedup(harvested(Harvest::Grooves, strings)),
        synth_patches: dedup(harvested(Harvest::SynthPatches, strings)),
        automation_count: if automation_total(strings) > u32::MAX {
            u32::MAX
        } else {
            automation_total(strings) as u32
        },
        has_lead_sheet: strings.contains("Lead Sheet"@),
        routing_hints: routing_spec(strings),
        ..empty_project()
    }
}

/// Largest `ProjectData` this parser reads (10 MiB).
pub const MAX_PROJECT_DATA_BYTES: u64 = 10485760;

/// A file of `len` bytes is too large to be read.
pub open spec fn too_large(len: nat) -> bool {
    len > MAX_PROJECT_DATA_BYTES
}

/// Whether a file of `len` bytes is over the size limit.
pub fn exceeds_limit(len: u64) -> (r: bool)
    ensures
        r == too_large(len as nat),
{
    len > MAX_PROJECT_DATA_BYTES
}

/// The outcome of reading a `ProjectData` binary.
pub open spec fn parse_project_data_spec(bytes: Seq<u8>) -> Option<ProjectModel> {
    if too_large(bytes.len()) {
        None
    } else {
        Some(analyze(extract_strings_spec(bytes, 4)))
    }
}

proof fn lemma_runs_count(b: Seq<u8>, min_len: nat)
    ensures
        runs(b, min_len).0.len() + (if runs(b, min_len).1.len() > 0 { 1int } else { 0int }) <= b.len(),
    decreases b.len(),
{
    if b.len() > 0 {
        lemma_runs_count(b.drop_last(), min_len);
    }
}

proof fn lemma_harvested_len(k: Harvest, strings: Seq<Seq<char>>)
    ensures
        harvested(k, strings).len() <= strings.len(),
    decreases strings.len(),
{
    if strings.len() > 0 {
        lemma_harvested_len(k, strings.drop_last());
    }
}

proof fn lemma_dedup_len<T>(s: Seq<T>)
    ensures
        dedup(s).len() <= s.len(),
    decreases s.len(),
{
    if s.len() > 0 {
        lemma_dedup_len(s.drop_last());
    }
}

proof fn lemma_dedup_keeps<T>(s: Seq<T>, x: T)
    requires
        s.contains(x),
    ensures
        dedup(s).contains(x),
    decreases s.len(),
{
    if s.last() != x {
        let k = choose|k: int| 0 <= k < s.len() && s[k] == x;
        assert(s.drop_last()[k] == x);
        lemma_dedup_keeps(s.drop_last(), x);
        let p = dedup(s.drop_last());
        let m = choose|m: int| 0 <= m < p.len() && p[m] == x;
        if !p.contains(s.last()) {
            assert(p.push(s.last())[m] == x);
        }
    } else if dedup(s.drop_last()).contains(x) {
    } else {
        assert(dedup(s.drop_last()).push(x)[dedup(s.drop_last()).len() as int] == x);
    }
}

/// A `ProjectData` binary names no more tracks than it has bytes.
pub proof fn lemma_track_hints_bound(bytes: Seq<u8>)
    ensures
        parse_project_data_spec(bytes) matches Some(m) ==> m.track_hints.len() <= bytes.len(),
{
    lemma_runs_count(bytes, 4);
    let strings = extract_strings_spec(bytes, 4);
    lemma_harvested_len(Harvest::TrackHints, strings);
    lemma_dedup_len(harvested(Harvest::TrackHints, strings));
}

/// Reads the contents of a `ProjectData` binary: `None` when it is larger than
/// [`MAX_PROJECT_DATA_BYTES`], else what its strings say.
pub fn parse_project_data(bytes: &[u8]) -> (r: Option<ProjectIntelligence>)
    ensures
        match (r, parse_project_data_spec(bytes@)) {
            (Some(v), Some(m)) => v@ == m,
            (None, None) => true,
            _ => false,
        },
{
    if exceeds_limit(bytes.len() as u64) {
        return None;
    }
    let strings = extract_strings(bytes, 4);
    proof {
        lemma_runs_count(bytes@, 4);
    }
    let mut chars: Vec<Vec<char>> = Vec::new();
    let mut i: usize = 0;
    while i < strings.len()
        invariant
            0 <= i <= strings.len(),
            chars.deep_view() =~= strings.deep_view().take(i as int),
        decreases strings.len() - i,
    {
        let c = chars_of(strings[i].as_str());
        proof {
            lemma_chars_deep(c);
        }
        let ghost prev = chars.deep_view();
        let ghost cv = c@;
        chars.push(c);
        assert(chars.deep_view() =~= prev.push(cv));
        assert(strings.deep_view().take(i + 1) =~= strings.deep_view().take(i as int).push(cv));
        i = i + 1;
    }
    let ghost sv = strings.deep_view();
    assert(chars.deep_view() =~= sv);
    let plugin_hits = all_hits_exec(Catalog::Plugins, &chars);
    let tallied = crate::tally::tally_names("", &plugin_hits);
    let plugins = sorted_counts(&tallied);
    let hw_hits = all_hits_exec(Catalog::Hardware, &chars);
    let marker_hits = all_hits_exec(Catalog::Markers, &chars);
    let sample_list = harvested_exec(Harvest::Samples, &chars);
    let hint_list = harvested_exec(Harvest::TrackHints, &chars);
    let groove_list = harvested_exec(Harvest::Grooves, &chars);
    let patch_list = harvested_exec(Harvest::SynthPatches, &chars);
    let r = ProjectIntelligence {
        bpm: None,
        time_signature: None,
        duration_seconds: None,
        swing_percentage: None,
        plugins: plugins,
        samples: dedup_strings(&sample_list),
        markers: dedup_strings(&marker_hits),
        hardware_emulations: dedup_strings(&hw_hits),
        track_hints: dedup_strings(&hint_list),
        groove_templates: dedup_strings(&groove_list),
        synth_patches: dedup_strings(&patch_list),
        automation_count: automation_count_exec(&chars),
        has_lead_sheet: has_lead_sheet_exec(&chars),
        routing_hints: extract_routing_hints(strings.as_slice()),
        drummer_character: None,
    };
    Some(r)
}

} // verus!


verus! {

/// Counts never rise from one entry to a later one.
pub open spec fn counts_descending(s: Seq<PluginCountModel>) -> bool {
    forall|i: int, j: int| 0 <= i < j < s.len() ==> #[trigger] s[i].count >= #[trigger] s[j].count
}

/// No two entries share a name.
pub open spec fn count_names_distinct(s: Seq<PluginCountModel>) -> bool {
    forall|i: int, j: int| 0 <= i < j < s.len() ==> #[trigger] s[i].name != #[trigger] s[j].name
}

#[verifier::rlimit(30)]
proof fn lemma_insert_desc_props(sorted: Seq<PluginCountModel>, x: PluginCountModel)
    requires
        counts_descending(sorted),
        count_names_distinct(sorted),
        forall|k: int| 0 <= k < sorted.len() ==> (#[trigger] sorted[k]).name != x.name,
    ensures
        counts_descending(insert_desc(sorted, x)),
        count_names_distinct(insert_desc(sorted, x)),
        insert_desc(sorted, x).len() == sorted.len() + 1,
        forall|v: PluginCountModel| #[trigger] insert_desc(sorted, x).contains(v) <==> (sorted.contains(v) || v == x),
    decreases sorted.len(),
{
    let r = insert_desc(sorted, x);
    if sorted.len() == 0 {
        assert(r[0] == x);
    } else if sorted.last().count >= x.count {
        assert(r =~= sorted.push(x));
        assert forall|i: int, j: int| 0 <= i < j < r.len() implies #[trigger] r[i].count >= #[trigger] r[j].count by {
            if j == sorted.len() {
                if i < sorted.len() - 1 {
                    assert(sorted[i].count >= sorted[sorted.len() - 1].count);
                }
            } else {
                assert(sorted[i].count >= sorted[j].count);
            }
        }
        assert forall|i: int, j: int| 0 <= i < j < r.len() implies #[trigger] r[i].name != #[trigger] r[j].name by {
            if j == sorted.len() {
                assert(sorted[i].name != x.name);
            } else {
                assert(sorted[i].name != sorted[j].name);
            }
        }
        assert forall|v: PluginCountModel| r.contains(v) <==> (sorted.contains(v) || v == x) by {
            if r.contains(v) {
                let k = choose|k: int| 0 <= k < r.len() && r[k] == v;
                if k < sorted.len() {
                    assert(sorted[k] == v);
                }
            }
            if sorted.contains(v) {
                let k = choose|k: int| 0 <= k < sorted.len() && sorted[k] == v;
                assert(r[k] == v);
            }
            if v == x {
                assert(r[sorted.len() as int] == v);
            }
        }
    } else {
        let p = sorted.drop_last();
        let last = sorted.last();
        assert forall|i: int, j: int| 0 <= i < j < p.len() implies #[trigger] p[i].count >= #[trigger] p[j].count by {
            assert(sorted[i].count >= sorted[j].count);
        }
        assert forall|i: int, j: int| 0 <= i < j < p.len() implies #[trigger] p[i].name != #[trigger] p[j].name by {
            assert(sorted[i].name != sorted[j].name);
        }
        assert forall|k: int| 0 <= k < p.len() implies (#[trigger] p[k]).name != x.name by {
            assert(sorted[k].name != x.name);
        }
        lemma_insert_desc_props(p, x);
        let q = insert_desc(p, x);
        assert(r =~= q.push(last));
        assert forall|k: int| #![trigger q[k]] 0 <= k < q.len() implies q[k].count >= last.count
            && q[k].name != last.name by {
            assert(q.contains(q[k]));
            if q[k] != x {
                assert(p.contains(q[k]));
                let m = choose|m: int| 0 <= m < p.len() && p[m] == q[k];
                assert(sorted[m].count >= sorted[sorted.len() - 1].count);
                assert(sorted[m].name != sorted[sorted.len() - 1].name);
            } else {
                assert(sorted[sorted.len() - 1].name != x.name);
            }
        }
        assert forall|i: int, j: int| 0 <= i < j < r.len() implies #[trigger] r[i].count >= #[trigger] r[j].count by {
            if j == q.len() {
                assert(r[i] == q[i]);
                assert(q[i].count >= last.count);
            } else {
                assert(q[i].count >= q[j].count);
            }
        }
        assert forall|i: int, j: int| 0 <= i < j < r.len() implies #[trigger] r[i].name != #[trigger] r[j].name by {
            if j == q.len() {
                assert(r[i] == q[i]);
                assert(q[i].name != last.name);
            } else {
                assert(q[i].name != q[j].name);
            }
        }
        assert forall|v: PluginCountModel| r.contains(v) <==> (sorted.contains(v) || v == x) by {
            if r.contains(v) {
                let k = choose|k: int| 0 <= k < r.len() && r[k] == v;
                if k < q.len() {
                    assert(q.contains(v));
                    if v != x {
                        assert(p.contains(v));
                        let m = choose|m: int| 0 <= m < p.len() && p[m] == v;
                        assert(sorted[m] == v);
                    }
                } else {
                    assert(sorted[sorted.len() - 1] == v);
                }
            }
            if sorted.contains(v) {
                let k = choose|k: int| 0 <= k < sorted.len() && sorted[k] == v;
                if k < p.len() {
                    assert(p[k] == v);
                    assert(p.contains(v));
                    assert(q.contains(v));
                    let m = choose|m: int| 0 <= m < q.len() && q[m] == v;
                    assert(r[m] == v);
                } else {
                    assert(r[q.len() as int] == v);
                }
            }
            if v == x {
                assert(q.contains(v));
                let m = choose|m: int| 0 <= m < q.len() && q[m] == v;
                assert(r[m] == v);
            }
        }
    }
}

/// Sorting by descending count keeps the entries and puts the most frequent first.
pub proof fn lemma_sort_desc_props(s: Seq<PluginCountModel>)
    requires
        count_names_distinct(s),
    ensures
        counts_descending(sort_desc(s)),
        count_names_distinct(sort_desc(s)),
        sort_desc(s).len() == s.len(),
        forall|v: PluginCountModel| #[trigger] sort_desc(s).contains(v) <==> s.contains(v),
    decreases s.len(),
{
    if s.len() > 0 {
        let p = s.drop_last();
        let x = s.last();
        assert forall|i: int, j: int| 0 <= i < j < p.len() implies #[trigger] p[i].name != #[trigger] p[j].name by {
            assert(s[i].name != s[j].name);
        }
        lemma_sort_desc_props(p);
        let q = sort_desc(p);
        assert forall|k: int| 0 <= k < q.len() implies (#[trigger] q[k]).name != x.name by {
            assert(q.contains(q[k]));
            assert(p.contains(q[k]));
            let m = choose|m: int| 0 <= m < p.len() && p[m] == q[k];
            assert(s[m].name != s[s.len() - 1].name);
        }
        lemma_insert_desc_props(q, x);
        assert forall|v: PluginCountModel| sort_desc(s).contains(v) <==> s.contains(v) by {
            if s.contains(v) {
                let k = choose|k: int| 0 <= k < s.len() && s[k] == v;
                if k < p.len() {
                    assert(p[k] == v);
                    assert(p.contains(v));
                }
            }
            if p.contains(v) {
                let k = choose|k: int| 0 <= k < p.len() && p[k] == v;
                assert(s[k] == v);
            }
            if v == x {
                assert(s[s.len() - 1] == v);
            }
        }
    }
}

proof fn lemma_all_hits_len(k: Catalog, strings: Seq<Seq<char>>)
    ensures
        all_hits(k, strings).len() <= 38 * strings.len(),
    decreases strings.len(),
{
    if strings.len() > 0 {
        lemma_all_hits_len(k, strings.drop_last());
        lemma_hits_len(k, strings.last(), catalog(k));
        assert(catalog(k).len() <= 38);
    }
}

proof fn lemma_dedup_no_duplicates<T>(s: Seq<T>)
    ensures
        dedup(s).no_duplicates(),
{
    crate::text::lemma_dedup_distinct(s);
    let d = dedup(s);
    assert forall|i: int, j: int| 0 <= i < d.len() && 0 <= j < d.len() && i != j implies d[i] != d[j] by {
        if i < j {
            assert(d[i] != d[j]);
        } else {
            assert(d[j] != d[i]);
        }
    }
}

proof fn lemma_hits_in_catalog(k: Catalog, s: Seq<char>, items: Seq<Seq<char>>)
    ensures
        forall|i: int| 0 <= i < hits(k, s, items).len() ==> items.contains(#[trigger] hits(k, s, items)[i]),
    decreases items.len(),
{
    if items.len() > 0 {
        let p = items.drop_last();
        lemma_hits_in_catalog(k, s, p);
        let h = hits(k, s, items);
        let hp = hits(k, s, p);
        assert forall|i: int| 0 <= i < h.len() implies items.contains(#[trigger] h[i]) by {
            if i < hp.len() {
                assert(h[i] == hp[i]);
                let j = choose|j: int| 0 <= j < p.len() && p[j] == hp[i];
                assert(items[j] == p[j]);
            } else {
                assert(h[i] == items[items.len() - 1]);
            }
        }
    }
}

proof fn lemma_all_hits_in_catalog(k: Catalog, strings: Seq<Seq<char>>)
    ensures
        forall|i: int| 0 <= i < all_hits(k, strings).len() ==> catalog(k).contains(#[trigger] all_hits(k, strings)[i]),
    decreases strings.len(),
{
    if strings.len() > 0 {
        lemma_all_hits_in_catalog(k, strings.drop_last());
        lemma_hits_in_catalog(k, strings.last(), catalog(k));
        let a = all_hits(k, strings.drop_last());
        let h = hits(k, strings.last(), catalog(k));
        let r = all_hits(k, strings);
        assert forall|i: int| 0 <= i < r.len() implies catalog(k).contains(#[trigger] r[i]) by {
            if i < a.len() {
                assert(r[i] == a[i]);
            } else {
                assert(r[i] == h[i - a.len()]);
            }
        }
    }
}

proof fn lemma_harvested_hints(strings: Seq<Seq<char>>)
    ensures
        forall|i: int| 0 <= i < harvested(Harvest::TrackHints, strings).len() ==>
            track_hint(#[trigger] harvested(Harvest::TrackHints, strings)[i]),
    decreases strings.len(),
{
    if strings.len() > 0 {
        lemma_harvested_hints(strings.drop_last());
        let a = harvested(Harvest::TrackHints, strings.drop_last());
        let r = harvested(Harvest::TrackHints, strings);
        assert forall|i: int| 0 <= i < r.len() implies track_hint(#[trigger] r[i]) by {
            if i < a.len() {
                assert(r[i] == a[i]);
            }
        }
    }
}

/// Reading a `ProjectData` binary draws its plugin names from Logic's stock
/// plugin list and its markers from the section names; every track name begins
/// with `Audio `, `Inst `, `Aux `, `Bus ` or `Track ` and is shorter than 30
/// characters; the Lead Sheet flag says whether a string is exactly `Lead Sheet`;
/// and the routing summary is that of the binary's strings.
pub proof fn law_project_data_draws_from_its_lists(bytes: Seq<u8>)
    ensures
        parse_project_data_spec(bytes) matches Some(m) ==> {
            let strings = extract_strings_spec(bytes, 4);
            &&& forall|i: int| 0 <= i < m.plugins.len() ==> plugin_catalog().contains(#[trigger] m.plugins[i].name)
            &&& forall|i: int| 0 <= i < m.markers.len() ==> marker_catalog().contains(#[trigger] m.markers[i])
            &&& forall|i: int| 0 <= i < m.track_hints.len() ==> track_hint(#[trigger] m.track_hints[i])
            &&& m.has_lead_sheet == strings.contains("Lead Sheet"@)
            &&& m.routing_hints == routing_spec(strings)
        },
{
    if !too_large(bytes.len()) {
        let strings = extract_strings_spec(bytes, 4);
        let m = analyze(strings);
        let hits = all_hits(Catalog::Plugins, strings);
        lemma_all_hits_in_catalog(Catalog::Plugins, strings);
        lemma_all_hits_in_catalog(Catalog::Markers, strings);
        lemma_harvested_hints(strings);
        let keys = crate::tally::keys_of(""@, hits);
        crate::tally::lemma_tally_names(keys);
        let t = crate::tally::tally(keys);
        let c = counts_of(t);
        lemma_runs_count(bytes, 4);
        lemma_all_hits_len(Catalog::Plugins, strings);
        crate::tally::law_tally_lists_each_plugin_once(keys);
        crate::tally::lemma_tally_kinds(keys, ""@);
        assert forall|i: int, j: int| 0 <= i < j < c.len() implies #[trigger] c[i].name != #[trigger] c[j].name by {
            assert(t[i].plugin_type == t[j].plugin_type);
        }
        lemma_sort_desc_props(c);
        assert forall|i: int| 0 <= i < m.plugins.len() implies plugin_catalog().contains(#[trigger] m.plugins[i].name) by {
            assert(m.plugins.contains(m.plugins[i]));
            assert(c.contains(m.plugins[i]));
            let k = choose|k: int| 0 <= k < c.len() && c[k] == m.plugins[i];
            assert(c[k].name == t[k].name);
            let j = choose|j: int| 0 <= j < keys.len() && keys[j].1 == (#[trigger] t[k]).name;
            assert(keys[j].1 == hits[j]);
            assert(catalog(Catalog::Plugins).contains(hits[j]));
        }
        let mh = all_hits(Catalog::Markers, strings);
        crate::text::lemma_dedup_distinct(mh);
        assert forall|i: int| 0 <= i < m.markers.len() implies marker_catalog().contains(#[trigger] m.markers[i]) by {
            assert(dedup(mh).contains(m.markers[i]));
            assert(mh.contains(m.markers[i]));
            let k = choose|k: int| 0 <= k < mh.len() && mh[k] == m.markers[i];
            assert(catalog(Catalog::Markers).contains(mh[k]));
        }
        let th = harvested(Harvest::TrackHints, strings);
        crate::text::lemma_dedup_distinct(th);
        assert forall|i: int| 0 <= i < m.track_hints.len() implies track_hint(#[trigger] m.track_hints[i]) by {
            assert(dedup(th).contains(m.track_hints[i]));
            assert(th.contains(m.track_hints[i]));
            let k = choose|k: int| 0 <= k < th.len() && th[k] == m.track_hints[i];
            assert(track_hint(th[k]));
        }
    }
}

/// Reading a `ProjectData` binary lists its plugins most frequent first, each
/// name once with a positive count; lists each sample, marker, hardware
/// emulation, track name, groove template and synth patch once; and gives a
/// routing summary whose buses are ascending without repeats, whose bus count is
/// their number, and which reports routing exactly when it found a bus or a send.
pub proof fn law_project_data_is_consistent(bytes: Seq<u8>)
    ensures
        parse_project_data_spec(bytes) matches Some(m) ==> {
            &&& counts_descending(m.plugins)
            &&& count_names_distinct(m.plugins)
            &&& forall|i: int| 0 <= i < m.plugins.len() ==> #[trigger] m.plugins[i].count >= 1
            &&& m.samples.no_duplicates()
            &&& m.markers.no_duplicates()
            &&& m.hardware_emulations.no_duplicates()
            &&& m.track_hints.no_duplicates()
            &&& m.groove_templates.no_duplicates()
            &&& m.synth_patches.no_duplicates()
            &&& strictly_ascending(m.routing_hints.buses_used)
            &&& m.routing_hints.bus_count == m.routing_hints.buses_used.len()
            &&& m.routing_hints.has_routing <==> (m.routing_hints.bus_count > 0 || m.routing_hints.send_count > 0)
        },
{
    if !too_large(bytes.len()) {
        let strings = extract_strings_spec(bytes, 4);
        lemma_runs_count(bytes, 4);
        law_routing_summary_is_consistent(strings);
        let hits = all_hits(Catalog::Plugins, strings);
        lemma_all_hits_len(Catalog::Plugins, strings);
        let keys = crate::tally::keys_of(""@, hits);
        crate::tally::law_tally_lists_each_plugin_once(keys);
        crate::tally::lemma_tally_kinds(keys, ""@);
        let t = crate::tally::tally(keys);
        let c = counts_of(t);
        assert forall|i: int, j: int| 0 <= i < j < c.len() implies #[trigger] c[i].name != #[trigger] c[j].name by {
            assert(t[i].plugin_type == t[j].plugin_type);
        }
        lemma_sort_desc_props(c);
        let sd = sort_desc(c);
        assert forall|i: int| 0 <= i < sd.len() implies #[trigger] sd[i].count >= 1 by {
            assert(sd.contains(sd[i]));
            assert(c.contains(sd[i]));
            let k = choose|k: int| 0 <= k < c.len() && c[k] == sd[i];
            assert(t[k].count >= 1);
        }
        lemma_dedup_no_duplicates(harvested(Harvest::Samples, strings));
        lemma_dedup_no_duplicates(all_hits(Catalog::Markers, strings));
        lemma_dedup_no_duplicates(all_hits(Catalog::Hardware, strings));
        lemma_dedup_no_duplicates(harvested(Harvest::TrackHints, strings));
        lemma_dedup_no_duplicates(harvested(Harvest::Grooves, strings));
        lemma_dedup_no_duplicates(harvested(Harvest::SynthPatches, strings));
    }
}

} // verus!

verus! {

proof fn lemma_until_props(s: Seq<char>, c: char)
    ensures
        until(s, c).len() <= s.len(),
        s.subrange(0, until(s, c).len() as int) == until(s, c),
        forall|j: int| 0 <= j < until(s, c).len() ==> until(s, c)[j] != c,
        until(s, c).len() == s.len() || s[until(s, c).len() as int] == c,
    decreases s.len(),
{
    if s.len() > 0 && s[0] != c {
        let t = s.drop_first();
        lemma_until_props(t, c);
        let u = until(s, c);
        assert(u == seq![s[0]].add(until(t, c)));
        assert(s.subrange(0, u.len() as int) =~= u);
        assert forall|j: int| 0 <= j < u.len() implies u[j] != c by {
            if j > 0 {
                assert(u[j] == until(t, c)[j - 1]);
            }
        }
        if u.len() < s.len() {
            assert(s[u.len() as int] == t[until(t, c).len() as int]);
        }
    } else if s.len() > 0 {
        assert(s.subrange(0, 0) =~= Seq::<char>::empty());
    }
}

proof fn lemma_harvested_from(k: Harvest, strings: Seq<Seq<char>>)
    ensures
        forall|i: int| 0 <= i < harvested(k, strings).len() ==>
            exists|j: int| 0 <= j < strings.len() && harvest(k, strings[j]) == Some(#[trigger] harvested(k, strings)[i]),
    decreases strings.len(),
{
    if strings.len() > 0 {
        let p = strings.drop_last();
        lemma_harvested_from(k, p);
        let a = harvested(k, p);
        let r = harvested(k, strings);
        assert forall|i: int| 0 <= i < r.len() implies
            exists|j: int| 0 <= j < strings.len() && harvest(k, strings[j]) == Some(#[trigger] r[i]) by {
            if i < a.len() {
                assert(r[i] == a[i]);
                let j = choose|j: int| 0 <= j < p.len() && harvest(k, p[j]) == Some(a[i]);
                assert(strings[j] == p[j]);
            } else {
                assert(harvest(k, strings[strings.len() - 1]) == Some(r[i]));
            }
        }
    }
}

/// No sample name of a `ProjectData` binary holds a `.`: each is the part of one
/// of the binary's strings before its first `.` (Logic numbers region copies
/// `Name.1`, `Name.2`, …, which all give the one sample `Name`).
pub proof fn law_samples_stop_before_the_first_dot(bytes: Seq<u8>)
    ensures
        parse_project_data_spec(bytes) matches Some(m) ==> {
            let strings = extract_strings_spec(bytes, 4);
            forall|i: int| 0 <= i < m.samples.len() ==> {
                let x = #[trigger] m.samples[i];
                &&& forall|j: int| 0 <= j < x.len() ==> x[j] != '.'
                &&& exists|k: int| 0 <= k < strings.len() && x.len() <= strings[k].len()
                    && strings[k].subrange(0, x.len() as int) == x
                    && (x.len() == strings[k].len() || strings[k][x.len() as int] == '.')
            }
        },
{
    if !too_large(bytes.len()) {
        let strings = extract_strings_spec(bytes, 4);
        let m = analyze(strings);
        let h = harvested(Harvest::Samples, strings);
        crate::text::lemma_dedup_distinct(h);
        lemma_harvested_from(Harvest::Samples, strings);
        assert forall|i: int| 0 <= i < m.samples.len() implies {
            let x = #[trigger] m.samples[i];
            &&& forall|j: int| 0 <= j < x.len() ==> x[j] != '.'
            &&& exists|k: int| 0 <= k < strings.len() && x.len() <= strings[k].len()
                && strings[k].subrange(0, x.len() as int) == x
                && (x.len() == strings[k].len() || strings[k][x.len() as int] == '.')
        } by {
            let x = m.samples[i];
            assert(dedup(h).contains(x));
            assert(h.contains(x));
            let q = choose|q: int| 0 <= q < h.len() && h[q] == x;
            let k = choose|k: int| 0 <= k < strings.len() && harvest(Harvest::Samples, strings[k]) == Some(h[q]);
            lemma_until_props(strings[k], '.');
            assert(x == until(strings[k], '.'));
        }
    }
}

/// The string names the section `c`: it is `c`, or `c` followed by a space and
/// more text (`Verse 1`).
pub open spec fn names_section(s: Seq<char>, c: Seq<char>) -> bool {
    s == c || (s.len() > c.len() && s.subrange(0, c.len() as int) == c && s[c.len() as int] == ' ')
}

proof fn lemma_hits_contains(k: Catalog, s: Seq<char>, items: Seq<Seq<char>>, j: int)
    requires
        0 <= j < items.len(),
        hit(k, s, items[j]),
    ensures
        hits(k, s, items).contains(items[j]),
    decreases items.len(),
{
    let h = hits(k, s, items);
    if j == items.len() - 1 {
        assert(h.last() == items[j]);
    } else {
        let p = items.drop_last();
        assert(p[j] == items[j]);
        lemma_hits_contains(k, s, p, j);
        let hp = hits(k, s, p);
        let q = choose|q: int| 0 <= q < hp.len() && hp[q] == items[j];
        assert(h[q] == items[j]);
    }
}

proof fn lemma_all_hits_contains(k: Catalog, strings: Seq<Seq<char>>, i: int, x: Seq<char>)
    requires
        0 <= i < strings.len(),
        hits(k, strings[i], catalog(k)).contains(x),
    ensures
        all_hits(k, strings).contains(x),
    decreases strings.len(),
{
    let a = all_hits(k, strings.drop_last());
    let h = hits(k, strings.last(), catalog(k));
    let r = all_hits(k, strings);
    assert(r == a + h);
    if i == strings.len() - 1 {
        let q = choose|q: int| 0 <= q < h.len() && h[q] == x;
        assert(r[a.len() + q] == x);
    } else {
        assert(strings.drop_last()[i] == strings[i]);
        lemma_all_hits_contains(k, strings.drop_last(), i, x);
        let q = choose|q: int| 0 <= q < a.len() && a[q] == x;
        assert(r[q] == x);
    }
}

/// Every section name that a string of a `ProjectData` binary names (`Verse`, or
/// `Verse 1`) is among its markers.
pub proof fn law_sections_named_are_markers(bytes: Seq<u8>)
    ensures
        parse_project_data_spec(bytes) matches Some(m) ==> {
            let strings = extract_strings_spec(bytes, 4);
            forall|i: int, j: int| 0 <= i < strings.len() && 0 <= j < marker_catalog().len()
                && names_section(#[trigger] strings[i], #[trigger] marker_catalog()[j])
                ==> m.markers.contains(marker_catalog()[j])
        },
{
    if !too_large(bytes.len()) {
        let strings = extract_strings_spec(bytes, 4);
        let m = analyze(strings);
        let cat = marker_catalog();
        assert forall|i: int, j: int| 0 <= i < strings.len() && 0 <= j < cat.len()
            && names_section(#[trigger] strings[i], #[trigger] cat[j]) implies m.markers.contains(cat[j]) by {
            let s = strings[i];
            let c = cat[j];
            if s != c {
                assert(s.subrange(0, c.push(' ').len() as int) =~= c.push(' '));
            }
            assert(hit(Catalog::Markers, s, c));
            assert(catalog(Catalog::Markers) == cat);
            lemma_hits_contains(Catalog::Markers, s, cat, j);
            lemma_all_hits_contains(Catalog::Markers, strings, i, c);
            lemma_dedup_keeps(all_hits(Catalog::Markers, strings), c);
        }
    }
}

proof fn lemma_harvested_contains(k: Harvest, strings: Seq<Seq<char>>, i: int, x: Seq<char>)
    requires
        0 <= i < strings.len(),
        harvest(k, strings[i]) == Some(x),
    ensures
        harvested(k, strings).contains(x),
    decreases strings.len(),
{
    let r = harvested(k, strings);
    if i == strings.len() - 1 {
        assert(r[r.len() - 1] == x);
    } else {
        let p = strings.drop_last();
        assert(p[i] == strings[i]);
        lemma_harvested_contains(k, p, i, x);
        let a = harvested(k, p);
        let q = choose|q: int| 0 <= q < a.len() && a[q] == x;
        assert(r[q] == x);
    }
}

/// Every string of a `ProjectData` binary that begins with `Audio `, `Inst `,
/// `Aux `, `Bus ` or `Track ` and is shorter than 30 characters is among its
/// track names.
pub proof fn law_track_like_strings_are_track_names(bytes: Seq<u8>)
    ensures
        parse_project_data_spec(bytes) matches Some(m) ==> {
            let strings = extract_strings_spec(bytes, 4);
            forall|i: int| 0 <= i < strings.len() && (#[trigger] strings[i]).len() < 30 && (
                strings[i].subrange(0, 6) == "Audio "@ || strings[i].subrange(0, 5) == "Inst "@
                || strings[i].subrange(0, 4) == "Aux "@ || strings[i].subrange(0, 4) == "Bus "@
                || strings[i].subrange(0, 6) == "Track "@)
                && strings[i].len() >= 6 ==> m.track_hints.contains(strings[i])
        },
{
    if !too_large(bytes.len()) {
        let strings = extract_strings_spec(bytes, 4);
        reveal_strlit("Audio ");
        reveal_strlit("Inst ");
        reveal_strlit("Aux ");
        reveal_strlit("Bus ");
        reveal_strlit("Track ");
        assert forall|i: int| 0 <= i < strings.len() && (#[trigger] strings[i]).len() < 30 && (
            strings[i].subrange(0, 6) == "Audio "@ || strings[i].subrange(0, 5) == "Inst "@
            || strings[i].subrange(0, 4) == "Aux "@ || strings[i].subrange(0, 4) == "Bus "@
            || strings[i].subrange(0, 6) == "Track "@)
            && strings[i].len() >= 6 implies analyze(strings).track_hints.contains(strings[i]) by {
            let s = strings[i];
            assert(track_hint(s));
            lemma_harvested_contains(Harvest::TrackHints, strings, i, s);
            lemma_dedup_keeps(harvested(Harvest::TrackHints, strings), s);
        }
    }
}

/// Every stock plugin that a string of a `ProjectData` binary names (the string
/// begins with the plugin's name and is less than five characters longer) is
/// among its plugins.
pub proof fn law_named_stock_plugins_are_listed(bytes: Seq<u8>)
    ensures
        parse_project_data_spec(bytes) matches Some(m) ==> {
            let strings = extract_strings_spec(bytes, 4);
            forall|i: int, j: int| 0 <= i < strings.len() && 0 <= j < plugin_catalog().len()
                && (#[trigger] plugin_catalog()[j]).len() <= (#[trigger] strings[i]).len()
                && strings[i].subrange(0, plugin_catalog()[j].len() as int) == plugin_catalog()[j]
                && strings[i].len() < plugin_catalog()[j].len() + 5
                ==> exists|k: int| 0 <= k < m.plugins.len() && (#[trigger] m.plugins[k]).name == plugin_catalog()[j]
        },
{
    if !too_large(bytes.len()) {
        let strings = extract_strings_spec(bytes, 4);
        let m = analyze(strings);
        let cat = plugin_catalog();
        let hits = all_hits(Catalog::Plugins, strings);
        let keys = crate::tally::keys_of(""@, hits);
        let t = crate::tally::tally(keys);
        let c = counts_of(t);
        crate::tally::lemma_tally_has_keys(keys);
        lemma_runs_count(bytes, 4);
        lemma_all_hits_len(Catalog::Plugins, strings);
        crate::tally::law_tally_lists_each_plugin_once(keys);
        crate::tally::lemma_tally_kinds(keys, ""@);
        assert forall|a: int, b: int| 0 <= a < b < c.len() implies #[trigger] c[a].name != #[trigger] c[b].name by {
            assert(t[a].plugin_type == t[b].plugin_type);
        }
        lemma_sort_desc_props(c);
        assert forall|i: int, j: int| 0 <= i < strings.len() && 0 <= j < cat.len()
            && (#[trigger] cat[j]).len() <= (#[trigger] strings[i]).len()
            && strings[i].subrange(0, cat[j].len() as int) == cat[j]
            && strings[i].len() < cat[j].len() + 5
            implies exists|k: int| 0 <= k < m.plugins.len() && (#[trigger] m.plugins[k]).name == cat[j] by {
            let s = strings[i];
            let p = cat[j];
            assert(catalog(Catalog::Plugins) == cat);
            assert(hit(Catalog::Plugins, s, p));
            lemma_hits_contains(Catalog::Plugins, s, cat, j);
            lemma_all_hits_contains(Catalog::Plugins, strings, i, p);
            let q = choose|q: int| 0 <= q < hits.len() && hits[q] == p;
            assert(keys[q] == (""@, p));
            assert(crate::tally::has_entry(t, keys[q].0, keys[q].1));
            let e = choose|e: int| 0 <= e < t.len() && (#[trigger] t[e]).plugin_type == ""@ && t[e].name == p;
            assert(c[e].name == p);
            assert(c.contains(c[e]));
            assert(m.plugins.contains(c[e]));
            let k = choose|k: int| 0 <= k < m.plugins.len() && m.plugins[k] == c[e];
            assert(m.plugins[k].name == p);
        }
    }
}

} // verus!
