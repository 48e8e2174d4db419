//! Linux software RAID, from `/proc/mdstat`.
//!
//! An array's header line names it, its state, its level and its member
//! devices; the indented status line below gives its size, its slot count
//! and which slots are up; a progress line, when there is one, reports a
//! resync, recovery, reshape or check under way.

use vstd::prelude::*;
use crate::collect::io::sat_mul;
use crate::text::{contains, find, is_digit, lines, occurs_at, parse_uint, starts_with, trim, trim_end, trim_start, words};

verus! {

/// One member device of an array: `sda1[0]`, `sdd1[3](F)`.
#[derive(Debug, Clone)]
pub struct MdRaidMember {
    pub device: String,
    pub index: u32,
    /// `(F)` failed, `(S)` spare, `(W)` write-mostly.
    pub flag: Option<String>,
}

/// A resync, recovery, reshape or check under way.
#[derive(Debug, Clone)]
pub struct MdRaidProgress {
    pub op: String,
    /// The percentage as the kernel prints it (`15.0`); empty when the
    /// line has none.
    pub percent: String,
    pub eta: String,
    pub speed: String,
}

/// One md array.
#[derive(Debug, Clone)]
pub struct MdRaidArray {
    pub name: String,
    pub level: String,
    pub state: String,
    pub size_bytes: u64,
    /// `[4/3]`: slots, and slots with a working member.
    pub members_total: u32,
    pub members_present: u32,
    /// `[UUU_]`: one character per slot, `U` for up.
    pub member_state: String,
    pub members: Vec<MdRaidMember>,
    pub progress: Option<MdRaidProgress>,
}

pub ghost struct MemberModel {
    pub device: Seq<char>,
    pub index: u32,
    pub flag: Option<Seq<char>>,
}

pub ghost struct ProgressModel {
    pub op: Seq<char>,
    pub percent: Seq<char>,
    pub eta: Seq<char>,
    pub speed: Seq<char>,
}

pub ghost struct ArrayModel {
    pub name: Seq<char>,
    pub level: Seq<char>,
    pub state: Seq<char>,
    pub size_bytes: u64,
    pub members_total: u32,
    pub members_present: u32,
    pub member_state: Seq<char>,
    pub members: Seq<MemberModel>,
    pub progress: Option<ProgressModel>,
}

impl View for MdRaidMember {
    type V = MemberModel;

    open spec fn view(&self) -> MemberModel {
        MemberModel { device: self.device@, index: self.index, flag: crate::config::opt_view(self.flag) }
    }
}

impl View for MdRaidProgress {
    type V = ProgressModel;

    open spec fn view(&self) -> ProgressModel {
        ProgressModel { op: self.op@, percent: self.percent@, eta: self.eta@, speed: self.speed@ }
    }
}

impl View for MdRaidArray {
    type V = ArrayModel;

    open spec fn view(&self) -> ArrayModel {
        ArrayModel {
            name: self.name@,
            level: self.level@,
            state: self.state@,
            size_bytes: self.size_bytes,
            members_total: self.members_total,
            members_present: self.members_present,
            member_state: self.member_state@,
            members: self.members@.map_values(|m: MdRaidMember| m@),
            progress: match self.progress {
                Some(p) => Some(p@),
                None => None,
            },
        }
    }
}

pub open spec fn u32_of(s: Seq<char>) -> Option<u32> {
    match parse_uint(s, u32::MAX as nat) {
        Some(n) => Some(n as u32),
        None => None,
    }
}

// ── members ──────────────────────────────────────────────────────────────

/// A member token's brackets are in order where it has both.
pub open spec fn member_token_ok(tok: Seq<char>) -> bool {
    match (find(tok, "["@), find(tok, "]"@)) {
        (Some(lb), Some(rb)) => rb > lb,
        _ => true,
    }
}

/// A member token: the device, its slot index in brackets, and any flag
/// after them.
pub open spec fn member_of(tok: Seq<char>) -> Option<MemberModel> {
    match (find(tok, "["@), find(tok, "]"@)) {
        (Some(lb), Some(rb)) => match u32_of(tok.subrange(lb + 1, rb)) {
            Some(index) => Some(MemberModel {
                device: tok.take(lb),
                index,
                flag: if tok.len() > rb + 1 { Some(tok.skip(rb + 1)) } else { None },
            }),
            None => None,
        },
        _ => None,
    }
}

/// The members that parse, of the tokens `toks`, in order.
pub open spec fn members_of(toks: Seq<Seq<char>>) -> Seq<MemberModel>
    decreases toks.len(),
{
    if toks.len() == 0 {
        Seq::empty()
    } else {
        let r = members_of(toks.drop_last());
        match member_of(toks.last()) {
            Some(m) => r.push(m),
            None => r,
        }
    }
}

// ── the status line ──────────────────────────────────────────────────────

/// The first `[a/b]` from index `i` on whose halves both parse; a `[`
/// with no `]` after it ends the search.
pub open spec fn slot_pair_from(line: Seq<char>, i: int) -> Option<(u32, u32)>
    decreases line.len() - i,
{
    if i < 0 || i >= line.len() {
        None
    } else if line[i] == '[' {
        match find(line.skip(i), "]"@) {
            None => None,
            Some(j) => {
                let close = i + j;
                let inside = line.subrange(i + 1, close);
                let next = if i < close < line.len() { slot_pair_from(line, close + 1) } else { None };
                match find(inside, "/"@) {
                    Some(s) => match (u32_of(inside.take(s)), u32_of(inside.skip(s + 1))) {
                        (Some(a), Some(b)) => Some((a, b)),
                        _ => next,
                    },
                    None => next,
                }
            },
        }
    } else {
        slot_pair_from(line, i + 1)
    }
}

/// A slot map's characters: up, missing, or (on newer kernels) blocked.
pub open spec fn slot_chars(s: Seq<char>) -> bool {
    s.len() > 0 && forall|k: int| 0 <= k < s.len() ==> (#[trigger] s[k] == 'U' || s[k] == '_' || s[k] == 'B')
}

/// The first bracketed slot map from index `i` on.
pub open spec fn member_state_from(line: Seq<char>, i: int) -> Option<Seq<char>>
    decreases line.len() - i,
{
    if i < 0 || i >= line.len() {
        None
    } else if line[i] == '[' {
        match find(line.skip(i), "]"@) {
            None => None,
            Some(j) => {
                let close = i + j;
                let inside = line.subrange(i + 1, close);
                if slot_chars(inside) {
                    Some(inside)
                } else if i < close < line.len() {
                    member_state_from(line, close + 1)
                } else {
                    None
                }
            },
        }
    } else {
        member_state_from(line, i + 1)
    }
}

// ── the progress line ────────────────────────────────────────────────────

/// The text after the first `marker`, up to the next one.
pub open spec fn after_marker(line: Seq<char>, marker: Seq<char>) -> Option<Seq<char>> {
    match find(line, marker) {
        Some(i) => {
            let rest = line.skip(i + marker.len());
            Some(match find(rest, marker) {
                Some(j) => rest.take(j),
                None => rest,
            })
        },
        None => None,
    }
}

/// The first word of `after_marker`, or nothing.
pub open spec fn marked_word(line: Seq<char>, marker: Seq<char>) -> Seq<char> {
    match after_marker(line, marker) {
        Some(p) => if words(p).len() > 0 { words(p)[0] } else { Seq::empty() },
        None => Seq::empty(),
    }
}

/// Which operation a progress line reports.
pub open spec fn progress_op(line: Seq<char>) -> Option<Seq<char>> {
    if contains(line, "resync"@) {
        Some("resync"@)
    } else if contains(line, "recovery"@) {
        Some("recovery"@)
    } else if contains(line, "reshape"@) {
        Some("reshape"@)
    } else if contains(line, "check"@) {
        Some("check"@)
    } else {
        None
    }
}

/// The percentage after `op = `, up to the `%`, trimmed. The bar's own
/// `=` signs would confound a plain split on `=`.
pub open spec fn percent_text(line: Seq<char>, op: Seq<char>) -> Seq<char> {
    let needle = op + " = "@;
    match find(line, needle) {
        Some(i) => {
            let rest = line.skip(i + needle.len());
            trim(match find(rest, "%"@) {
                Some(j) => rest.take(j),
                None => rest,
            })
        },
        None => Seq::empty(),
    }
}

/// The operation a progress line names: a resync wherever "resync"
/// appears; otherwise a recovery wherever "recovery" appears; then a
/// reshape, then a check. A rebuilding array is never reported as a
/// resync.
pub proof fn law_a_progress_line_names_its_operation(line: Seq<char>)
    ensures
        contains(line, "resync"@) ==> (progress_of(line) matches Some(p) && p.op == "resync"@),
        !contains(line, "resync"@) && contains(line, "recovery"@) ==> (progress_of(line) matches Some(p) && p.op == "recovery"@),
        !contains(line, "resync"@) && !contains(line, "recovery"@) && contains(line, "reshape"@)
            ==> (progress_of(line) matches Some(p) && p.op == "reshape"@),
        !contains(line, "resync"@) && !contains(line, "recovery"@) && !contains(line, "reshape"@)
            && contains(line, "check"@) ==> (progress_of(line) matches Some(p) && p.op == "check"@),
        !contains(line, "resync"@) && !contains(line, "recovery"@) && !contains(line, "reshape"@)
            && !contains(line, "check"@) ==> progress_of(line) is None,
{
}

/// A recovery's percentage is the text between the first "recovery = "
/// and the first `%` after it, trimmed.
pub proof fn law_a_recovery_reports_its_percentage(line: Seq<char>, i: int, k: int)
    requires
        !contains(line, "resync"@),
        occurs_at(line, "recovery = "@, i),
        forall|x: int| 0 <= x < i ==> !occurs_at(line, "recovery = "@, x),
        i + 11 <= k < line.len(),
        line[k] == '%',
        forall|x: int| i + 11 <= x < k ==> line[x] != '%',
    ensures
        progress_of(line) matches Some(p) && p.op == "recovery"@ && p.percent == trim(line.subrange(i + 11, k)),
{
    reveal_strlit("recovery = ");
    reveal_strlit("recovery");
    reveal_strlit("%");
    let needle = "recovery = "@;
    assert(needle.len() == 11);
    assert("recovery"@ + " = "@ =~= needle) by {
        reveal_strlit(" = ");
    }
    assert(occurs_at(line, "recovery"@, i)) by {
        assert(line.subrange(i, i + 8) =~= "recovery"@) by {
            assert(line.subrange(i, i + 11) == needle);
            assert forall|x: int| 0 <= x < 8 implies line.subrange(i, i + 8)[x] == "recovery"@[x] by {
                assert(line.subrange(i, i + 11)[x] == needle[x]);
            }
        }
    }
    crate::text::lemma_find_from_first(line, needle, 0, i);
    crate::text::lemma_find_from_found(line, "recovery"@, 0);
    lemma_find_reaches(line, "recovery"@, 0, i);
    let rest = line.skip(i + 11);
    let j = k - (i + 11);
    assert forall|x: int| 0 <= x < j implies !occurs_at(rest, "%"@, x) by {
        if occurs_at(rest, "%"@, x) {
            assert(rest.subrange(x, x + 1)[0] == "%"@[0]);
            assert(rest[x] == line[i + 11 + x]);
        }
    }
    assert(occurs_at(rest, "%"@, j)) by {
        assert(rest.subrange(j, j + 1) =~= "%"@);
    }
    crate::text::lemma_find_from_first(rest, "%"@, 0, j);
    assert(rest.take(j) =~= line.subrange(i + 11, k));
}

proof fn lemma_find_reaches(s: Seq<char>, p: Seq<char>, from: int, i: int)
    requires
        0 <= from <= i,
        occurs_at(s, p, i),
    ensures
        crate::text::find_from(s, p, from) is Some,
    decreases i - from,
{
    if from < i && !occurs_at(s, p, from) {
        lemma_find_reaches(s, p, from + 1, i);
    }
}

pub open spec fn progress_of(line: Seq<char>) -> Option<ProgressModel> {
    match progress_op(line) {
        Some(op) => Some(ProgressModel {
            op,
            percent: percent_text(line, op),
            eta: marked_word(line, "finish="@),
            speed: marked_word(line, "speed="@),
        }),
        None => None,
    }
}

} // verus!

verus! {

use crate::text::{range_find_str, string_of};

fn u32_in(v: &Vec<char>, lo: usize, hi: usize) -> (r: Option<u32>)
    requires
        lo <= hi <= v@.len(),
    ensures
        r == u32_of(v@.subrange(lo as int, hi as int)),
{
    crate::text::parse_u32(v, lo, hi)
}

/// The member `v[lo..hi]` names, if it is one.
fn parse_member(v: &Vec<char>, lo: usize, hi: usize) -> (r: Option<MdRaidMember>)
    requires
        lo <= hi <= v@.len(),
        member_token_ok(v@.subrange(lo as int, hi as int)),
    ensures
        match member_of(v@.subrange(lo as int, hi as int)) {
            Some(m) => r matches Some(x) && x@ == m,
            None => r is None,
        },
{
    let ghost tok = v@.subrange(lo as int, hi as int);
    let lb = match range_find_str(v, lo, hi, "[") {
        Some(i) => i,
        None => return None,
    };
    let rb = match range_find_str(v, lo, hi, "]") {
        Some(i) => i,
        None => return None,
    };
    proof {
        reveal_strlit("[");
        reveal_strlit("]");
        assert(tok.subrange(lb - lo + 1, rb - lo) =~= v@.subrange(lb + 1, rb as int));
        assert(tok.take(lb - lo) =~= v@.subrange(lo as int, lb as int));
        assert(tok.skip(rb - lo + 1) =~= v@.subrange(rb + 1, hi as int));
    }
    let index = match u32_in(v, lb + 1, rb) {
        Some(n) => n,
        None => return None,
    };
    let flag = if hi > rb + 1 {
        Some(string_of(v, rb + 1, hi))
    } else {
        None
    };
    Some(MdRaidMember { device: string_of(v, lo, lb), index, flag })
}

/// The first `[a/b]` of `v[lo..hi]` whose halves both parse.
fn find_slot_pair(v: &Vec<char>, lo: usize, hi: usize) -> (r: Option<(u32, u32)>)
    requires
        lo <= hi <= v@.len(),
    ensures
        r == slot_pair_from(v@.subrange(lo as int, hi as int), 0),
{
    let ghost line = v@.subrange(lo as int, hi as int);
    let mut i = lo;
    while i < hi
        invariant
            lo <= i <= hi <= v@.len(),
            line == v@.subrange(lo as int, hi as int),
            slot_pair_from(line, 0) == slot_pair_from(line, i - lo),
        decreases hi - i,
    {
        if v[i] == '[' {
            proof {
                reveal_strlit("]");
                assert(line.skip(i - lo) =~= v@.subrange(i as int, hi as int));
            }
            let close = match range_find_str(v, i, hi, "]") {
                Some(c) => c,
                None => return None,
            };
            proof {
                assert(v@.subrange(i as int, hi as int).subrange(close - i, close - i + 1)[0] == v@[close as int]);
                assert(v@[close as int] == ']');
                assert(line.subrange(i - lo + 1, close - lo) =~= v@.subrange(i + 1, close as int));
            }
            match range_find_str(v, i + 1, close, "/") {
                Some(s) => {
                    proof {
                        reveal_strlit("/");
                        let inside = line.subrange(i - lo + 1, close - lo);
                        assert(inside.take(s - (i + 1)) =~= v@.subrange(i + 1, s as int));
                        assert(inside.skip(s - (i + 1) + 1) =~= v@.subrange(s + 1, close as int));
                    }
                    match (u32_in(v, i + 1, s), u32_in(v, s + 1, close)) {
                        (Some(a), Some(b)) => {
                            return Some((a, b));
                        },
                        _ => {},
                    }
                },
                None => {},
            }
            i = close + 1;
        } else {
            i += 1;
        }
    }
    None
}

/// The first bracketed slot map of `v[lo..hi]`.
fn find_member_state(v: &Vec<char>, lo: usize, hi: usize) -> (r: Option<String>)
    requires
        lo <= hi <= v@.len(),
    ensures
        crate::config::opt_view(r) == member_state_from(v@.subrange(lo as int, hi as int), 0),
{
    let ghost line = v@.subrange(lo as int, hi as int);
    let mut i = lo;
    while i < hi
        invariant
            lo <= i <= hi <= v@.len(),
            line == v@.subrange(lo as int, hi as int),
            member_state_from(line, 0) == member_state_from(line, i - lo),
        decreases hi - i,
    {
        if v[i] == '[' {
            proof {
                reveal_strlit("]");
                assert(line.skip(i - lo) =~= v@.subrange(i as int, hi as int));
            }
            let close = match range_find_str(v, i, hi, "]") {
                Some(c) => c,
                None => return None,
            };
            proof {
                assert(v@.subrange(i as int, hi as int).subrange(close - i, close - i + 1)[0] == v@[close as int]);
                assert(v@[close as int] == ']');
            }
            let ghost inside = line.subrange(i - lo + 1, close - lo);
            proof {
                assert(inside =~= v@.subrange(i + 1, close as int));
            }
            let mut k = i + 1;
            while k < close && (v[k] == 'U' || v[k] == '_' || v[k] == 'B')
                invariant
                    i + 1 <= k <= close <= hi <= v@.len(),
                    forall|q: int| i + 1 <= q < k ==> (#[trigger] v@[q] == 'U' || v@[q] == '_' || v@[q] == 'B'),
                decreases close - k,
            {
                k += 1;
            }
            if close > i + 1 && k == close {
                proof {
                    assert(slot_chars(inside));
                }
                return Some(string_of(v, i + 1, close));
            }
            proof {
                if k < close {
                    assert(!(inside[k - i - 1] == 'U' || inside[k - i - 1] == '_' || inside[k - i - 1] == 'B'));
                }
            }
            i = close + 1;
        } else {
            i += 1;
        }
    }
    None
}

} // verus!

verus! {

/// The first word after the first `marker` of `v[lo..hi]`, up to the next.
fn marked_word_in(v: &Vec<char>, lo: usize, hi: usize, marker: &str) -> (r: String)
    requires
        lo <= hi <= v@.len(),
    ensures
        r@ == marked_word(v@.subrange(lo as int, hi as int), marker@),
{
    let ghost line = v@.subrange(lo as int, hi as int);
    let i = match range_find_str(v, lo, hi, marker) {
        Some(i) => i,
        None => return String::new(),
    };
    let m = to_chars_len(marker);
    let start = i + m;
    let ghost rest = line.skip(i - lo + marker@.len());
    proof {
        assert(rest =~= v@.subrange(start as int, hi as int));
    }
    let end = match range_find_str(v, start, hi, marker) {
        Some(j) => j,
        None => hi,
    };
    let ghost piece = v@.subrange(start as int, end as int);
    proof {
        if end < hi {
            assert(rest.take(end - start) =~= piece);
        } else {
            assert(rest =~= piece);
        }
        assert(after_marker(line, marker@) == Some(piece));
    }
    let w = crate::text::word_ranges(v, start, end);
    if w.len() == 0 {
        proof {
            assert(words(piece).len() == 0);
        }
        return String::new();
    }
    let (a, b) = w[0];
    proof {
        assert(w@[0].0 <= w@[0].1);
        assert(words(piece)[0] == crate::text::ranges_view(v@, w@)[0]);
    }
    string_of(v, a, b)
}

fn to_chars_len(s: &str) -> (n: usize)
    ensures
        n == s@.len(),
{
    crate::text::to_chars(s).len()
}

/// The progress a line of `v[lo..hi]` reports.
fn parse_progress(v: &Vec<char>, lo: usize, hi: usize) -> (r: Option<MdRaidProgress>)
    requires
        lo <= hi <= v@.len(),
    ensures
        match progress_of(v@.subrange(lo as int, hi as int)) {
            Some(p) => r matches Some(x) && x@ == p,
            None => r is None,
        },
{
    let op: &str = if crate::text::range_contains(v, lo, hi, "resync") {
        "resync"
    } else if crate::text::range_contains(v, lo, hi, "recovery") {
        "recovery"
    } else if crate::text::range_contains(v, lo, hi, "reshape") {
        "reshape"
    } else if crate::text::range_contains(v, lo, hi, "check") {
        "check"
    } else {
        return None;
    };
    let ghost line = v@.subrange(lo as int, hi as int);
    let needle = crate::text::cat(crate::text::owned(op), " = ");
    let ghost op_text: Seq<char> = op@;
    assert(needle@ == op_text + " = "@);
    let percent = match range_find_str(v, lo, hi, needle.as_str()) {
        Some(i) => {
            let start = i + to_chars_len(needle.as_str());
            let ghost rest = line.skip(i - lo + needle@.len());
            proof {
                assert(rest =~= v@.subrange(start as int, hi as int));
            }
            let end = match range_find_str(v, start, hi, "%") {
                Some(j) => j,
                None => hi,
            };
            let ghost piece = v@.subrange(start as int, end as int);
            proof {
                reveal_strlit("%");
                if end < hi {
                    assert(rest.take(end - start) =~= piece);
                } else {
                    assert(rest =~= piece);
                }
                assert(find(line, op_text + " = "@) == Some(i - lo));
                assert(line.skip(i - lo + (op_text + " = "@).len()) == rest);
                if end < hi {
                    assert(find(rest, "%"@) == Some(end - start));
                } else {
                    assert(find(rest, "%"@) is None);
                }
                assert(percent_text(line, op_text) == trim(piece));
            }
            let (a, b) = crate::text::trim_range(v, start, end);
            string_of(v, a, b)
        },
        None => String::new(),
    };
    assert(percent@ == percent_text(line, op_text));
    Some(MdRaidProgress {
        op: crate::text::owned(op),
        percent,
        eta: marked_word_in(v, lo, hi, "finish="),
        speed: marked_word_in(v, lo, hi, "speed="),
    })
}

} // verus!

verus! {

// ── the file ─────────────────────────────────────────────────────────────

/// Arrays read so far, and the one whose lines are being read.
pub ghost struct MdState {
    pub done: Seq<ArrayModel>,
    pub cur: Option<ArrayModel>,
}

/// The words after a header's ` : `.
pub open spec fn header_words(line: Seq<char>, colon: int) -> Seq<Seq<char>> {
    words(line.skip(colon + 3))
}

/// A header line: `md0 : active raid10 sda1[0] sdb1[1] …`.
pub open spec fn header_of(line: Seq<char>, colon: int) -> ArrayModel {
    let toks = header_words(line, colon);
    ArrayModel {
        name: trim(line.take(colon)),
        state: if toks.len() > 0 { toks[0] } else { Seq::empty() },
        level: if toks.len() > 1 { toks[1] } else { Seq::empty() },
        size_bytes: 0,
        members_total: 0,
        members_present: 0,
        member_state: Seq::empty(),
        members: members_of(if toks.len() > 2 { toks.skip(2) } else { Seq::empty() }),
        progress: None,
    }
}

/// A status line: the size in KiB blocks, the `[slots/up]` pair and the
/// slot map, each kept from before where the line lacks it.
pub open spec fn status_update(a: ArrayModel, line: Seq<char>) -> ArrayModel {
    let ws = words(line);
    let size = if ws.len() > 0 {
        match crate::collect::io::u64_of(ws[0]) {
            Some(b) => sat_mul(b, 1024),
            None => a.size_bytes,
        }
    } else {
        a.size_bytes
    };
    let (total, present) = match slot_pair_from(line, 0) {
        Some(p) => p,
        None => (a.members_total, a.members_present),
    };
    ArrayModel {
        size_bytes: size,
        members_total: total,
        members_present: present,
        member_state: match member_state_from(line, 0) {
            Some(s) => s,
            None => a.member_state,
        },
        ..a
    }
}

pub open spec fn is_status_line(line: Seq<char>) -> bool {
    let t = trim_start(line);
    t.len() > 0 && is_digit(t[0]) && contains(line, "blocks"@)
}

pub open spec fn is_progress_line(line: Seq<char>) -> bool {
    let t = trim_start(line);
    &&& t.len() > 0
    &&& t[0] == '['
    &&& (contains(t, "resync"@) || contains(t, "recovery"@) || contains(t, "reshape"@) || contains(t, "check"@))
}

pub open spec fn flushed(st: MdState) -> Seq<ArrayModel> {
    match st.cur {
        Some(a) => st.done.push(a),
        None => st.done,
    }
}

/// What one line of `/proc/mdstat` does: a header starts an array; a
/// status or progress line fills in the array being read; anything else,
/// and any line before the first header, is passed over.
pub open spec fn md_step(st: MdState, raw: Seq<char>) -> MdState {
    let line = trim_end(raw);
    if starts_with(line, "Personalities"@) || starts_with(line, "unused devices"@) {
        st
    } else {
        match find(line, " : "@) {
            Some(colon) => MdState { done: flushed(st), cur: Some(header_of(line, colon)) },
            None => match st.cur {
                None => st,
                Some(a) => if is_status_line(line) {
                    MdState { cur: Some(status_update(a, line)), ..st }
                } else if is_progress_line(line) {
                    MdState { cur: Some(ArrayModel { progress: progress_of(line), ..a }), ..st }
                } else {
                    st
                },
            },
        }
    }
}

pub open spec fn md_fold(ls: Seq<Seq<char>>) -> MdState
    decreases ls.len(),
{
    if ls.len() == 0 {
        MdState { done: Seq::empty(), cur: None }
    } else {
        md_step(md_fold(ls.drop_last()), ls.last())
    }
}

/// The arrays `/proc/mdstat` text lists, in order.
pub open spec fn mdstat(text: Seq<char>) -> Seq<ArrayModel> {
    flushed(md_fold(lines(text)))
}

/// Every member token of a header line has its brackets in order.
pub open spec fn md_line_ok(raw: Seq<char>) -> bool {
    let line = trim_end(raw);
    if starts_with(line, "Personalities"@) || starts_with(line, "unused devices"@) {
        true
    } else {
        match find(line, " : "@) {
            Some(colon) => forall|k: int| 2 <= k < header_words(line, colon).len()
                ==> member_token_ok(#[trigger] header_words(line, colon)[k]),
            None => true,
        }
    }
}

pub open spec fn mdstat_ok(text: Seq<char>) -> bool {
    forall|i: int| 0 <= i < lines(text).len() ==> md_line_ok(#[trigger] lines(text)[i])
}

} // verus!

verus! {

fn header_in(v: &Vec<char>, lo: usize, e: usize, colon: usize) -> (a: MdRaidArray)
    requires
        lo <= colon,
        colon + 3 <= e <= v@.len(),
        forall|k: int| 2 <= k < header_words(v@.subrange(lo as int, e as int), colon - lo).len()
            ==> member_token_ok(#[trigger] header_words(v@.subrange(lo as int, e as int), colon - lo)[k]),
    ensures
        a@ == header_of(v@.subrange(lo as int, e as int), colon - lo),
{
    let ghost line = v@.subrange(lo as int, e as int);
    let (na, nb) = crate::text::trim_range(v, lo, colon);
    proof {
        assert(line.take(colon - lo) =~= v@.subrange(lo as int, colon as int));
        assert(line.skip(colon - lo + 3) =~= v@.subrange(colon + 3, e as int));
    }
    let w = crate::text::word_ranges(v, colon + 3, e);
    let ghost toks = header_words(line, colon - lo);
    assert(toks == crate::text::ranges_view(v@, w@));
    let state = if w.len() > 0 {
        let (a, b) = w[0];
        proof {
            assert(w@[0].0 <= w@[0].1);
        }
        string_of(v, a, b)
    } else {
        String::new()
    };
    let level = if w.len() > 1 {
        let (a, b) = w[1];
        proof {
            assert(w@[1].0 <= w@[1].1);
        }
        string_of(v, a, b)
    } else {
        String::new()
    };
    let mut members: Vec<MdRaidMember> = Vec::new();
    let mut k: usize = 2;
    let ghost rest: Seq<Seq<char>> = if toks.len() > 2 { toks.skip(2) } else { Seq::empty() };
    proof {
        assert(members@.map_values(|m: MdRaidMember| m@) =~= members_of(rest.take(0)));
    }
    while k < w.len()
        invariant
            2 <= k <= w@.len() || (w@.len() < 2 && k == 2),
            toks == crate::text::ranges_view(v@, w@),
            crate::text::ranges_in(w@, v@.len()),
            rest == (if toks.len() > 2 { toks.skip(2) } else { Seq::<Seq<char>>::empty() }),
            forall|q: int| 2 <= q < toks.len() ==> member_token_ok(#[trigger] toks[q]),
            k >= 2 && k <= w@.len() ==> members@.map_values(|m: MdRaidMember| m@) == members_of(rest.take(k - 2)),
            k == 2 ==> members@.map_values(|m: MdRaidMember| m@) == members_of(rest.take(0)),
        decreases w@.len() - k,
    {
        let (a, b) = w[k];
        proof {
            assert(w@[k as int].0 <= w@[k as int].1);
            assert(rest.take(k - 2 + 1).drop_last() =~= rest.take(k - 2));
            assert(rest[k - 2] == toks[k as int]);
            assert(member_token_ok(toks[k as int]));
        }
        match parse_member(v, a, b) {
            Some(m) => {
                proof {
                    assert(members@.push(m).map_values(|x: MdRaidMember| x@)
                        =~= members@.map_values(|x: MdRaidMember| x@).push(m@));
                }
                members.push(m);
            },
            None => {},
        }
        k += 1;
    }
    proof {
        if toks.len() > 2 {
            assert(rest.take(rest.len() as int) =~= rest);
        } else {
            assert(rest.take(0) =~= rest);
        }
    }
    MdRaidArray {
        name: string_of(v, na, nb),
        level,
        state,
        size_bytes: 0,
        members_total: 0,
        members_present: 0,
        member_state: String::new(),
        members,
        progress: None,
    }
}

impl MdRaidArray {
    fn take_status(&mut self, v: &Vec<char>, lo: usize, e: usize)
        requires
            lo <= e <= v@.len(),
        ensures
            final(self)@ == status_update(old(self)@, v@.subrange(lo as int, e as int)),
    {
        let w = crate::text::word_ranges(v, lo, e);
        if w.len() > 0 {
            let (a, b) = w[0];
            proof {
                assert(w@[0].0 <= w@[0].1);
            }
            match crate::text::parse_u64(v, a, b) {
                Some(blocks) => {
                    self.size_bytes = crate::collect::io::saturating_mul(blocks, 1024);
                },
                None => {},
            }
        }
        match find_slot_pair(v, lo, e) {
            Some((t, p)) => {
                self.members_total = t;
                self.members_present = p;
            },
            None => {},
        }
        match find_member_state(v, lo, e) {
            Some(s) => {
                self.member_state = s;
            },
            None => {},
        }
    }
}

} // verus!

verus! {

pub open spec fn arrays_view(v: Seq<MdRaidArray>) -> Seq<ArrayModel> {
    v.map_values(|a: MdRaidArray| a@)
}

pub open spec fn opt_array_view(o: Option<MdRaidArray>) -> Option<ArrayModel> {
    match o {
        Some(a) => Some(a@),
        None => None,
    }
}

/// The arrays `/proc/mdstat` text lists, in order.
pub fn parse_mdstat(text: &str) -> (r: Vec<MdRaidArray>)
    requires
        mdstat_ok(text@),
    ensures
        arrays_view(r@) == mdstat(text@),
{
    let v = crate::text::to_chars(text);
    let lr = crate::text::line_ranges(&v);
    let ghost ls = lines(text@);
    let mut out: Vec<MdRaidArray> = Vec::new();
    let mut cur: Option<MdRaidArray> = None;
    let mut k: usize = 0;
    proof {
        assert(arrays_view(out@) =~= Seq::<ArrayModel>::empty());
        assert(ls.take(0) =~= Seq::<Seq<char>>::empty());
    }
    while k < lr.len()
        invariant
            v@ == text@,
            ls == lines(text@),
            mdstat_ok(text@),
            crate::text::ranges_in(lr@, v@.len()),
            crate::text::ranges_view(v@, lr@) == ls,
            0 <= k <= lr@.len(),
            md_fold(ls.take(k as int)) == (MdState { done: arrays_view(out@), cur: opt_array_view(cur) }),
        decreases lr@.len() - k,
    {
        let (lo, hi) = lr[k];
        proof {
            assert(ls.take(k + 1).drop_last() =~= ls.take(k as int));
            assert(lr@[k as int].0 <= lr@[k as int].1);
            assert(ls[k as int] == v@.subrange(lo as int, hi as int));
            assert(md_line_ok(ls[k as int]));
        }
        let e = crate::text::skip_ws_back(&v, lo, hi);
        let ghost line = v@.subrange(lo as int, e as int);
        if crate::text::range_has_prefix(&v, lo, e, "Personalities")
            || crate::text::range_has_prefix(&v, lo, e, "unused devices") {
            k += 1;
            continue;
        }
        match range_find_str(&v, lo, e, " : ") {
            Some(colon) => {
                proof {
                    reveal_strlit(" : ");
                }
                let a = header_in(&v, lo, e, colon);
                match cur {
                    Some(prev) => {
                        proof {
                            assert(arrays_view(out@.push(prev)) =~= arrays_view(out@).push(prev@));
                        }
                        out.push(prev);
                    },
                    None => {},
                }
                cur = Some(a);
            },
            None => {
                match cur {
                    None => {},
                    Some(mut a) => {
                        let s = crate::text::skip_ws(&v, lo, e);
                        proof {
                            assert(v@.subrange(s as int, e as int) == trim_start(line));
                        }
                        let digit_led = s < e && '0' <= v[s] && v[s] <= '9';
                        if digit_led && crate::text::range_contains(&v, lo, e, "blocks") {
                            a.take_status(&v, lo, e);
                        } else if s < e && v[s] == '[' && (crate::text::range_contains(&v, s, e, "resync")
                            || crate::text::range_contains(&v, s, e, "recovery")
                            || crate::text::range_contains(&v, s, e, "reshape")
                            || crate::text::range_contains(&v, s, e, "check")) {
                            a.progress = parse_progress(&v, lo, e);
                        }
                        cur = Some(a);
                    },
                }
            },
        }
        k += 1;
    }
    proof {
        assert(ls.take(ls.len() as int) =~= ls);
    }
    match cur {
        Some(a) => {
            proof {
                assert(arrays_view(out@.push(a)) =~= arrays_view(out@).push(a@));
            }
            out.push(a);
        },
        None => {},
    }
    out
}

} // verus!

verus! {

/// An APFS volume inside a container.
#[derive(Debug, Clone)]
pub struct ApfsVolume {
    pub bsd: String,
    pub name: String,
    pub role: String,
    pub mount_point: Option<String>,
    pub consumed_bytes: u64,
}

/// An APFS container and the volumes sharing its space.
#[derive(Debug, Clone)]
pub struct ApfsContainer {
    pub bsd: String,
    pub size_bytes: u64,
    pub used_bytes: u64,
    pub physical_store: Option<String>,
    pub volumes: Vec<ApfsVolume>,
}

/// Everything the volumes tab shows: APFS containers (macOS) and md
/// arrays (Linux).
#[derive(Debug, Clone)]
pub struct VolumeTick {
    pub containers: Vec<ApfsContainer>,
    pub mdraid: Vec<MdRaidArray>,
}

impl VolumeTick {
    /// No containers and no arrays.
    pub fn empty() -> (t: VolumeTick)
        ensures
            t.containers@.len() == 0,
            t.mdraid@.len() == 0,
    {
        VolumeTick { containers: Vec::new(), mdraid: Vec::new() }
    }
}

} // verus!

verus! {

proof fn lemma_bad_token(raw: Seq<char>, colon: int, k: int)
    requires
        !starts_with(trim_end(raw), "Personalities"@),
        !starts_with(trim_end(raw), "unused devices"@),
        find(trim_end(raw), " : "@) == Some(colon),
        2 <= k < header_words(trim_end(raw), colon).len(),
        !member_token_ok(header_words(trim_end(raw), colon)[k]),
    ensures
        !md_line_ok(raw),
{
    let line = trim_end(raw);
    assert(!(starts_with(line, "Personalities"@) || starts_with(line, "unused devices"@)));
    assert(md_line_ok(raw) == (forall|j: int| 2 <= j < header_words(line, colon).len()
        ==> member_token_ok(#[trigger] header_words(line, colon)[j])));
}

fn token_ok(v: &Vec<char>, lo: usize, hi: usize) -> (b: bool)
    requires
        lo <= hi <= v@.len(),
    ensures
        b == member_token_ok(v@.subrange(lo as int, hi as int)),
{
    let lb = range_find_str(v, lo, hi, "[");
    let rb = range_find_str(v, lo, hi, "]");
    match (lb, rb) {
        (Some(l), Some(r)) => r > l,
        _ => true,
    }
}

fn line_ok(v: &Vec<char>, lo: usize, hi: usize) -> (b: bool)
    requires
        lo <= hi <= v@.len(),
    ensures
        b == md_line_ok(v@.subrange(lo as int, hi as int)),
{
    let e = crate::text::skip_ws_back(v, lo, hi);
    let ghost line = v@.subrange(lo as int, e as int);
    if crate::text::range_has_prefix(v, lo, e, "Personalities")
        || crate::text::range_has_prefix(v, lo, e, "unused devices") {
        return true;
    }
    match range_find_str(v, lo, e, " : ") {
        None => true,
        Some(colon) => {
            proof {
                reveal_strlit(" : ");
                assert(line.skip(colon - lo + 3) =~= v@.subrange(colon + 3, e as int));
                assert(find(line, " : "@) == Some(colon - lo));
            }
            let w = crate::text::word_ranges(v, colon + 3, e);
            let ghost toks = header_words(line, colon - lo);
            assert(toks == crate::text::ranges_view(v@, w@));
            let mut k: usize = 2;
            while k < w.len()
                invariant
                    2 <= k,
                    lo <= colon,
                    colon + 3 <= e <= hi <= v@.len(),
                    line == v@.subrange(lo as int, e as int),
                    trim_end(v@.subrange(lo as int, hi as int)) == line,
                    find(line, " : "@) == Some(colon - lo),
                    !starts_with(line, "Personalities"@),
                    !starts_with(line, "unused devices"@),
                    toks == header_words(line, colon - lo),
                    w@.len() == toks.len(),
                    toks == crate::text::ranges_view(v@, w@),
                    crate::text::ranges_in(w@, v@.len()),
                    forall|j: int| 2 <= j < k && j < toks.len() ==> member_token_ok(#[trigger] toks[j]),
                decreases w@.len() - k,
            {
                let (a, b) = w[k];
                proof {
                    assert(w@[k as int].0 <= w@[k as int].1 <= v@.len());
                }
                if !token_ok(v, a, b) {
                    proof {
                        assert(toks[k as int] == v@.subrange(a as int, b as int));
                        assert(trim_end(v@.subrange(lo as int, hi as int)) == line);
                        assert(find(line, " : "@) == Some(colon - lo));
                        assert(k < toks.len());
                        assert(!member_token_ok(header_words(line, colon - lo)[k as int]));
                        let raw = v@.subrange(lo as int, hi as int);
                        assert(!(forall|j: int| 2 <= j < header_words(line, colon - lo).len()
                            ==> member_token_ok(#[trigger] header_words(line, colon - lo)[j])));
                        lemma_bad_token(raw, colon - lo, k as int);
                    }
                    return false;
                }
                proof {
                    assert(toks[k as int] == v@.subrange(a as int, b as int));
                }
                k += 1;
            }
            true
        },
    }
}

/// Whether `/proc/mdstat` text is one [`parse_mdstat`] can read: every
/// member token of a header line has its brackets in order.
pub fn mdstat_well_formed(text: &str) -> (b: bool)
    ensures
        b == mdstat_ok(text@),
{
    let v = crate::text::to_chars(text);
    let lr = crate::text::line_ranges(&v);
    let ghost ls = lines(text@);
    let mut k: usize = 0;
    while k < lr.len()
        invariant
            v@ == text@,
            ls == lines(text@),
            crate::text::ranges_in(lr@, v@.len()),
            crate::text::ranges_view(v@, lr@) == ls,
            0 <= k <= lr@.len(),
            forall|j: int| 0 <= j < k ==> md_line_ok(#[trigger] ls[j]),
        decreases lr@.len() - k,
    {
        let (lo, hi) = lr[k];
        proof {
            assert(lr@[k as int].0 <= lr@[k as int].1);
            assert(ls[k as int] == v@.subrange(lo as int, hi as int));
        }
        if !line_ok(&v, lo, hi) {
            return false;
        }
        k += 1;
    }
    true
}

} // verus!

verus! {

// ── APFS containers, from `diskutil apfs list` ──────────────────────────

pub ghost struct VolumeModel {
    pub bsd: Seq<char>,
    pub name: Seq<char>,
    pub role: Seq<char>,
    pub mount_point: Option<Seq<char>>,
    pub consumed_bytes: u64,
}

pub ghost struct ContainerModel {
    pub bsd: Seq<char>,
    pub size_bytes: u64,
    pub used_bytes: u64,
    pub physical_store: Option<Seq<char>>,
    pub volumes: Seq<VolumeModel>,
}

impl View for ApfsVolume {
    type V = VolumeModel;

    open spec fn view(&self) -> VolumeModel {
        VolumeModel {
            bsd: self.bsd@,
            name: self.name@,
            role: self.role@,
            mount_point: crate::config::opt_view(self.mount_point),
            consumed_bytes: self.consumed_bytes,
        }
    }
}

impl View for ApfsContainer {
    type V = ContainerModel;

    open spec fn view(&self) -> ContainerModel {
        ContainerModel {
            bsd: self.bsd@,
            size_bytes: self.size_bytes,
            used_bytes: self.used_bytes,
            physical_store: crate::config::opt_view(self.physical_store),
            volumes: self.volumes@.map_values(|v: ApfsVolume| v@),
        }
    }
}

/// The text up to the first whitespace.
pub open spec fn leading_token(s: Seq<char>) -> Seq<char>
    decreases s.len(),
{
    if s.len() == 0 || crate::text::is_ws(s[0]) {
        Seq::empty()
    } else {
        seq![s[0]] + leading_token(s.drop_first())
    }
}

/// `s` from its first decimal digit on.
pub open spec fn from_first_digit(s: Seq<char>) -> Seq<char>
    decreases s.len(),
{
    if s.len() == 0 || is_digit(s[0]) {
        s
    } else {
        from_first_digit(s.drop_first())
    }
}

/// The decimal digits `s` starts with.
pub open spec fn digit_run(s: Seq<char>) -> Seq<char>
    decreases s.len(),
{
    if s.len() > 0 && is_digit(s[0]) {
        seq![s[0]] + digit_run(s.drop_first())
    } else {
        Seq::empty()
    }
}

/// The first byte count on a line like `319709114368 B (319.7 GB)`: its
/// first run of digits, or zero where there is none or it overflows.
pub open spec fn byte_count(s: Seq<char>) -> u64 {
    match parse_uint(digit_run(from_first_digit(s)), u64::MAX as nat) {
        Some(n) => n as u64,
        None => 0,
    }
}

pub ghost struct ApfsState {
    pub done: Seq<ContainerModel>,
    pub cur: Option<ContainerModel>,
    pub vol: Option<VolumeModel>,
}

/// The volume being read, filed under the container being read.
pub open spec fn volume_filed(st: ApfsState) -> ApfsState {
    ApfsState {
        cur: match (st.cur, st.vol) {
            (Some(c), Some(v)) => Some(ContainerModel { volumes: c.volumes.push(v), ..c }),
            _ => st.cur,
        },
        vol: None,
        done: st.done,
    }
}

/// The containers read so far, the one being read included.
pub open spec fn containers_filed(st: ApfsState) -> Seq<ContainerModel> {
    match st.cur {
        Some(c) => st.done.push(c),
        None => st.done,
    }
}

/// A volume role: the text in the first parentheses, where there are some.
pub open spec fn role_after(old_role: Seq<char>, rest: Seq<char>) -> Seq<char> {
    match find(rest, "("@) {
        Some(o) => match find(rest.skip(o), ")"@) {
            Some(c) => rest.subrange(o + 1, o + c),
            None => old_role,
        },
        None => old_role,
    }
}

/// A volume name: the value without the parenthesised note after it.
pub open spec fn volume_name(rest: Seq<char>) -> Seq<char> {
    let n = trim(rest);
    match find(n, " ("@) {
        Some(i) => trim(n.take(i)),
        None => trim(n),
    }
}

/// A mount point, kept from before where the line says there is none.
pub open spec fn mount_after(old_mp: Option<Seq<char>>, rest: Seq<char>) -> Option<Seq<char>> {
    let mp = trim(rest);
    if mp.len() > 0 && mp != "Not Mounted"@ { Some(mp) } else { old_mp }
}

/// What one line of `diskutil apfs list` does to the containers read so far.
pub open spec fn apfs_step(st: ApfsState, raw: Seq<char>) -> ApfsState {
    let t = trim_start(raw);
    if starts_with(t, "+-- Container "@) {
        let f = volume_filed(st);
        ApfsState {
            done: containers_filed(f),
            cur: Some(ContainerModel {
                bsd: leading_token(t.skip(14)),
                size_bytes: 0,
                used_bytes: 0,
                physical_store: None,
                volumes: Seq::empty(),
            }),
            vol: None,
        }
    } else if starts_with(t, "+-> Volume "@) {
        ApfsState {
            vol: Some(VolumeModel {
                bsd: leading_token(t.skip(11)),
                name: Seq::empty(),
                role: Seq::empty(),
                mount_point: None,
                consumed_bytes: 0,
            }),
            ..volume_filed(st)
        }
    } else if starts_with(t, "+-< Physical Store "@) {
        match st.cur {
            Some(c) => ApfsState { cur: Some(ContainerModel { physical_store: Some(leading_token(t.skip(19))), ..c }), ..st },
            None => st,
        }
    } else if starts_with(t, "Size (Capacity Ceiling):"@) {
        match (st.cur, st.vol) {
            (Some(c), None) => ApfsState { cur: Some(ContainerModel { size_bytes: byte_count(t.skip(24)), ..c }), ..st },
            _ => st,
        }
    } else if starts_with(t, "Capacity In Use By Volumes:"@) {
        match st.cur {
            Some(c) => ApfsState { cur: Some(ContainerModel { used_bytes: byte_count(t.skip(27)), ..c }), ..st },
            None => st,
        }
    } else if starts_with(t, "APFS Volume Disk (Role):"@) {
        match st.vol {
            Some(v) => ApfsState { vol: Some(VolumeModel { role: role_after(v.role, t.skip(24)), ..v }), ..st },
            None => st,
        }
    } else if starts_with(t, "Name:"@) {
        match st.vol {
            Some(v) => ApfsState { vol: Some(VolumeModel { name: volume_name(t.skip(5)), ..v }), ..st },
            None => st,
        }
    } else if starts_with(t, "Mount Point:"@) {
        match st.vol {
            Some(v) => ApfsState { vol: Some(VolumeModel { mount_point: mount_after(v.mount_point, t.skip(12)), ..v }), ..st },
            None => st,
        }
    } else if starts_with(t, "Capacity Consumed:"@) {
        match st.vol {
            Some(v) => ApfsState { vol: Some(VolumeModel { consumed_bytes: byte_count(t.skip(18)), ..v }), ..st },
            None => st,
        }
    } else {
        st
    }
}

pub open spec fn apfs_fold(ls: Seq<Seq<char>>) -> ApfsState
    decreases ls.len(),
{
    if ls.len() == 0 {
        ApfsState { done: Seq::empty(), cur: None, vol: None }
    } else {
        apfs_step(apfs_fold(ls.drop_last()), ls.last())
    }
}

/// The APFS containers `diskutil apfs list` text describes, in order,
/// each with its volumes.
pub open spec fn apfs_list(text: Seq<char>) -> Seq<ContainerModel> {
    containers_filed(volume_filed(apfs_fold(lines(text))))
}

} // verus!

verus! {

/// End of the token that starts at `a`: the first whitespace, or `hi`.
fn token_end(v: &Vec<char>, a: usize, hi: usize) -> (e: usize)
    requires
        a <= hi <= v@.len(),
    ensures
        a <= e <= hi,
        v@.subrange(a as int, e as int) == leading_token(v@.subrange(a as int, hi as int)),
{
    let mut e = a;
    while e < hi && !crate::text::is_whitespace(v[e])
        invariant
            a <= e <= hi <= v@.len(),
            leading_token(v@.subrange(a as int, hi as int))
                == v@.subrange(a as int, e as int) + leading_token(v@.subrange(e as int, hi as int)),
        decreases hi - e,
    {
        proof {
            let s = v@.subrange(e as int, hi as int);
            assert(s.drop_first() =~= v@.subrange(e + 1, hi as int));
            assert(v@.subrange(a as int, e + 1) =~= v@.subrange(a as int, e as int).push(v@[e as int]));
            assert(v@.subrange(a as int, e as int) + (seq![s[0]] + leading_token(s.drop_first()))
                =~= v@.subrange(a as int, e + 1) + leading_token(s.drop_first()));
        }
        e += 1;
    }
    proof {
        assert(v@.subrange(a as int, e as int) + Seq::<char>::empty() =~= v@.subrange(a as int, e as int));
    }
    e
}

/// Index of the first decimal digit of `v[lo..hi]`, or `hi`.
fn first_digit(v: &Vec<char>, lo: usize, hi: usize) -> (d: usize)
    requires
        lo <= hi <= v@.len(),
    ensures
        lo <= d <= hi,
        v@.subrange(d as int, hi as int) == from_first_digit(v@.subrange(lo as int, hi as int)),
{
    let mut d = lo;
    while d < hi && !('0' <= v[d] && v[d] <= '9')
        invariant
            lo <= d <= hi <= v@.len(),
            from_first_digit(v@.subrange(lo as int, hi as int)) == from_first_digit(v@.subrange(d as int, hi as int)),
        decreases hi - d,
    {
        proof {
            assert(v@.subrange(d as int, hi as int).drop_first() =~= v@.subrange(d + 1, hi as int));
        }
        d += 1;
    }
    d
}

/// End of the run of decimal digits that starts at `d`.
fn digit_run_end(v: &Vec<char>, d: usize, hi: usize) -> (e: usize)
    requires
        d <= hi <= v@.len(),
    ensures
        d <= e <= hi,
        v@.subrange(d as int, e as int) == digit_run(v@.subrange(d as int, hi as int)),
{
    let mut e = d;
    while e < hi && '0' <= v[e] && v[e] <= '9'
        invariant
            d <= e <= hi <= v@.len(),
            digit_run(v@.subrange(d as int, hi as int))
                == v@.subrange(d as int, e as int) + digit_run(v@.subrange(e as int, hi as int)),
        decreases hi - e,
    {
        proof {
            let s = v@.subrange(e as int, hi as int);
            assert(s.drop_first() =~= v@.subrange(e + 1, hi as int));
            assert(v@.subrange(d as int, e as int) + (seq![s[0]] + digit_run(s.drop_first()))
                =~= v@.subrange(d as int, e + 1) + digit_run(s.drop_first()));
        }
        e += 1;
    }
    proof {
        assert(v@.subrange(d as int, e as int) + Seq::<char>::empty() =~= v@.subrange(d as int, e as int));
    }
    e
}

/// The byte count `v[lo..hi]` opens with.
fn byte_count_in(v: &Vec<char>, lo: usize, hi: usize) -> (n: u64)
    requires
        lo <= hi <= v@.len(),
    ensures
        n == byte_count(v@.subrange(lo as int, hi as int)),
{
    let d = first_digit(v, lo, hi);
    let e = digit_run_end(v, d, hi);
    match crate::text::parse_u64(v, d, e) {
        Some(n) => n,
        None => 0,
    }
}

/// The first run of decimal digits in `s`, read as a byte count: zero where
/// there is none or it does not fit in a `u64`.
pub fn first_byte_count(s: &str) -> (n: u64)
    ensures
        n == byte_count(s@),
{
    let v = crate::text::to_chars(s);
    let n = byte_count_in(&v, 0, v.len());
    proof {
        assert(v@.subrange(0, v@.len() as int) =~= s@);
    }
    n
}

} // verus!

verus! {

pub open spec fn containers_view(s: Seq<ApfsContainer>) -> Seq<ContainerModel> {
    s.map_values(|c: ApfsContainer| c@)
}

pub open spec fn opt_container_view(o: Option<ApfsContainer>) -> Option<ContainerModel> {
    match o {
        Some(c) => Some(c@),
        None => None,
    }
}

pub open spec fn opt_volume_view(o: Option<ApfsVolume>) -> Option<VolumeModel> {
    match o {
        Some(w) => Some(w@),
        None => None,
    }
}

/// The containers filed, the one being read and the volume being read.
struct ApfsReader {
    done: Vec<ApfsContainer>,
    cur: Option<ApfsContainer>,
    vol: Option<ApfsVolume>,
}

spec fn reader_state(r: ApfsReader) -> ApfsState {
    ApfsState { done: containers_view(r.done@), cur: opt_container_view(r.cur), vol: opt_volume_view(r.vol) }
}

fn file_volume(st: ApfsReader) -> (r: ApfsReader)
    ensures
        reader_state(r) == volume_filed(reader_state(st)),
{
    let ApfsReader { done, cur, vol } = st;
    match (cur, vol) {
        (Some(mut c), Some(w)) => {
            proof {
                let f = |x: ApfsVolume| x@;
                assert(c.volumes@.push(w).map_values(f) =~= c.volumes@.map_values(f).push(w@));
            }
            c.volumes.push(w);
            ApfsReader { done, cur: Some(c), vol: None }
        },
        (cur, _) => ApfsReader { done, cur, vol: None },
    }
}

fn file_container(st: ApfsReader) -> (r: Vec<ApfsContainer>)
    ensures
        containers_view(r@) == containers_filed(reader_state(st)),
{
    let ApfsReader { mut done, cur, vol: _ } = st;
    match cur {
        Some(c) => {
            proof {
                assert(containers_view(done@.push(c)) =~= containers_view(done@).push(c@));
            }
            done.push(c);
            done
        },
        None => done,
    }
}

/// The role in the first parentheses of `v[lo..hi]`, else `old`.
fn role_in(v: &Vec<char>, lo: usize, hi: usize, old: String) -> (r: String)
    requires
        lo <= hi <= v@.len(),
    ensures
        r@ == role_after(old@, v@.subrange(lo as int, hi as int)),
{
    let ghost rest = v@.subrange(lo as int, hi as int);
    proof {
        reveal_strlit("(");
        reveal_strlit(")");
        assert("("@ =~= seq!['(']);
        assert(")"@ =~= seq![')']);
    }
    match crate::text::range_find_char(v, lo, hi, '(') {
        Some(o) => {
            proof {
                assert(rest.skip(o - lo) =~= v@.subrange(o as int, hi as int));
            }
            match crate::text::range_find_char(v, o, hi, ')') {
                Some(c) => {
                    proof {
                        assert(rest.subrange(o - lo + 1, c - lo) =~= v@.subrange(o + 1, c as int));
                    }
                    string_of(v, o + 1, c)
                },
                None => old,
            }
        },
        None => old,
    }
}

/// The volume name on `v[lo..hi]`.
fn name_in(v: &Vec<char>, lo: usize, hi: usize) -> (r: String)
    requires
        lo <= hi <= v@.len(),
    ensures
        r@ == volume_name(v@.subrange(lo as int, hi as int)),
{
    let (a, b) = crate::text::trim_range(v, lo, hi);
    let ghost n = v@.subrange(a as int, b as int);
    match range_find_str(v, a, b, " (") {
        Some(i) => {
            proof {
                assert(n.take(i - a) =~= v@.subrange(a as int, i as int));
            }
            let (x, y) = crate::text::trim_range(v, a, i);
            string_of(v, x, y)
        },
        None => {
            let (x, y) = crate::text::trim_range(v, a, b);
            string_of(v, x, y)
        },
    }
}

/// The mount point on `v[lo..hi]`, else `old`.
fn mount_in(v: &Vec<char>, lo: usize, hi: usize, old: Option<String>) -> (r: Option<String>)
    requires
        lo <= hi <= v@.len(),
    ensures
        crate::config::opt_view(r) == mount_after(crate::config::opt_view(old), v@.subrange(lo as int, hi as int)),
{
    let (a, b) = crate::text::trim_range(v, lo, hi);
    if a < b && !crate::text::range_is(v, a, b, "Not Mounted") {
        Some(string_of(v, a, b))
    } else {
        old
    }
}

} // verus!

verus! {

/// A header line: a container, a volume or a physical store. `t` is the
/// line from its first non-blank character, `v[s..hi]`.
fn apfs_header(st: ApfsReader, v: &Vec<char>, lo: usize, s: usize, hi: usize) -> (r: (ApfsReader, bool))
    requires
        lo <= s <= hi <= v@.len(),
        v@.subrange(s as int, hi as int) == trim_start(v@.subrange(lo as int, hi as int)),
    ensures
        ({
            let t = v@.subrange(s as int, hi as int);
            let is_header = starts_with(t, "+-- Container "@) || starts_with(t, "+-> Volume "@)
                || starts_with(t, "+-< Physical Store "@);
            &&& r.1 == is_header
            &&& is_header ==> reader_state(r.0) == apfs_step(reader_state(st), v@.subrange(lo as int, hi as int))
            &&& !is_header ==> r.0 == st
        }),
{
    let ghost t = v@.subrange(s as int, hi as int);
    proof {
        reveal_strlit("+-- Container ");
        reveal_strlit("+-> Volume ");
        reveal_strlit("+-< Physical Store ");
    }
    if crate::text::range_has_prefix(v, s, hi, "+-- Container ") {
        let e = token_end(v, s + 14, hi);
        proof {
            assert(t.skip(14) =~= v@.subrange(s + 14, hi as int));
        }
        let f = file_volume(st);
        let done = file_container(f);
        let c = ApfsContainer {
            bsd: string_of(v, s + 14, e),
            size_bytes: 0,
            used_bytes: 0,
            physical_store: None,
            volumes: Vec::new(),
        };
        proof {
            assert(c.volumes@.map_values(|x: ApfsVolume| x@) =~= Seq::<VolumeModel>::empty());
        }
        (ApfsReader { done, cur: Some(c), vol: None }, true)
    } else if crate::text::range_has_prefix(v, s, hi, "+-> Volume ") {
        let e = token_end(v, s + 11, hi);
        proof {
            assert(t.skip(11) =~= v@.subrange(s + 11, hi as int));
        }
        let f = file_volume(st);
        let w = ApfsVolume {
            bsd: string_of(v, s + 11, e),
            name: String::new(),
            role: String::new(),
            mount_point: None,
            consumed_bytes: 0,
        };
        (ApfsReader { done: f.done, cur: f.cur, vol: Some(w) }, true)
    } else if crate::text::range_has_prefix(v, s, hi, "+-< Physical Store ") {
        let e = token_end(v, s + 19, hi);
        proof {
            assert(t.skip(19) =~= v@.subrange(s + 19, hi as int));
        }
        let ApfsReader { done, cur, vol } = st;
        match cur {
            Some(mut c) => {
                c.physical_store = Some(string_of(v, s + 19, e));
                (ApfsReader { done, cur: Some(c), vol }, true)
            },
            None => (ApfsReader { done, cur: None, vol }, true),
        }
    } else {
        (st, false)
    }
}

/// A container field: its size or the space its volumes use.
fn apfs_container_field(st: ApfsReader, v: &Vec<char>, lo: usize, s: usize, hi: usize) -> (r: (ApfsReader, bool))
    requires
        lo <= s <= hi <= v@.len(),
        v@.subrange(s as int, hi as int) == trim_start(v@.subrange(lo as int, hi as int)),
        !starts_with(v@.subrange(s as int, hi as int), "+-- Container "@),
        !starts_with(v@.subrange(s as int, hi as int), "+-> Volume "@),
        !starts_with(v@.subrange(s as int, hi as int), "+-< Physical Store "@),
    ensures
        ({
            let t = v@.subrange(s as int, hi as int);
            let is_field = starts_with(t, "Size (Capacity Ceiling):"@)
                || starts_with(t, "Capacity In Use By Volumes:"@);
            &&& r.1 == is_field
            &&& is_field ==> reader_state(r.0) == apfs_step(reader_state(st), v@.subrange(lo as int, hi as int))
            &&& !is_field ==> r.0 == st
        }),
{
    let ghost t = v@.subrange(s as int, hi as int);
    proof {
        reveal_strlit("+-- Container ");
        reveal_strlit("+-> Volume ");
        reveal_strlit("+-< Physical Store ");
        reveal_strlit("Size (Capacity Ceiling):");
        reveal_strlit("Capacity In Use By Volumes:");
    }
    if crate::text::range_has_prefix(v, s, hi, "Size (Capacity Ceiling):") {
        proof {
            assert(t.skip(24) =~= v@.subrange(s + 24, hi as int));
        }
        let ApfsReader { done, cur, vol } = st;
        match cur {
            Some(mut c) => {
                if vol.is_none() {
                    c.size_bytes = byte_count_in(v, s + 24, hi);
                }
                (ApfsReader { done, cur: Some(c), vol }, true)
            },
            None => (ApfsReader { done, cur: None, vol }, true),
        }
    } else if crate::text::range_has_prefix(v, s, hi, "Capacity In Use By Volumes:") {
        proof {
            assert(t.skip(27) =~= v@.subrange(s + 27, hi as int));
        }
        let ApfsReader { done, cur, vol } = st;
        match cur {
            Some(mut c) => {
                c.used_bytes = byte_count_in(v, s + 27, hi);
                (ApfsReader { done, cur: Some(c), vol }, true)
            },
            None => (ApfsReader { done, cur: None, vol }, true),
        }
    } else {
        (st, false)
    }
}

} // verus!

verus! {

/// A volume field: its role, name, mount point or consumed space.
fn apfs_volume_field(st: ApfsReader, v: &Vec<char>, lo: usize, s: usize, hi: usize) -> (r: ApfsReader)
    requires
        lo <= s <= hi <= v@.len(),
        v@.subrange(s as int, hi as int) == trim_start(v@.subrange(lo as int, hi as int)),
        !starts_with(v@.subrange(s as int, hi as int), "+-- Container "@),
        !starts_with(v@.subrange(s as int, hi as int), "+-> Volume "@),
        !starts_with(v@.subrange(s as int, hi as int), "+-< Physical Store "@),
        !starts_with(v@.subrange(s as int, hi as int), "Size (Capacity Ceiling):"@),
        !starts_with(v@.subrange(s as int, hi as int), "Capacity In Use By Volumes:"@),
    ensures
        reader_state(r) == apfs_step(reader_state(st), v@.subrange(lo as int, hi as int)),
{
    let ghost t = v@.subrange(s as int, hi as int);
    proof {
        reveal_strlit("APFS Volume Disk (Role):");
        reveal_strlit("Name:");
        reveal_strlit("Mount Point:");
        reveal_strlit("Capacity Consumed:");
    }
    let ApfsReader { done, cur, vol } = st;
    let is_role = crate::text::range_has_prefix(v, s, hi, "APFS Volume Disk (Role):");
    let is_name = !is_role && crate::text::range_has_prefix(v, s, hi, "Name:");
    let is_mount = !is_role && !is_name && crate::text::range_has_prefix(v, s, hi, "Mount Point:");
    let is_consumed = !is_role && !is_name && !is_mount
        && crate::text::range_has_prefix(v, s, hi, "Capacity Consumed:");
    match vol {
        Some(mut w) => {
            if is_role {
                proof {
                    assert(t.skip(24) =~= v@.subrange(s + 24, hi as int));
                }
                let old_role = w.role;
                w.role = role_in(v, s + 24, hi, old_role);
            } else if is_name {
                proof {
                    assert(t.skip(5) =~= v@.subrange(s + 5, hi as int));
                }
                w.name = name_in(v, s + 5, hi);
            } else if is_mount {
                proof {
                    assert(t.skip(12) =~= v@.subrange(s + 12, hi as int));
                }
                let old_mp = w.mount_point;
                w.mount_point = mount_in(v, s + 12, hi, old_mp);
            } else if is_consumed {
                proof {
                    assert(t.skip(18) =~= v@.subrange(s + 18, hi as int));
                }
                w.consumed_bytes = byte_count_in(v, s + 18, hi);
            }
            ApfsReader { done, cur, vol: Some(w) }
        },
        None => ApfsReader { done, cur, vol: None },
    }
}

/// What one line of `diskutil apfs list`, `v[lo..hi]`, does to the reader.
fn apfs_line(st: ApfsReader, v: &Vec<char>, lo: usize, hi: usize) -> (r: ApfsReader)
    requires
        lo <= hi <= v@.len(),
    ensures
        reader_state(r) == apfs_step(reader_state(st), v@.subrange(lo as int, hi as int)),
{
    let s = crate::text::skip_ws(v, lo, hi);
    let (st, done) = apfs_header(st, v, lo, s, hi);
    if done {
        return st;
    }
    let (st, done) = apfs_container_field(st, v, lo, s, hi);
    if done {
        return st;
    }
    apfs_volume_field(st, v, lo, s, hi)
}

/// The APFS containers that `diskutil apfs list` text describes, in order,
/// each with its physical store, size, space in use and volumes.
pub fn parse_apfs_list(text: &str) -> (r: Vec<ApfsContainer>)
    ensures
        containers_view(r@) == apfs_list(text@),
{
    let v = crate::text::to_chars(text);
    let lr = crate::text::line_ranges(&v);
    let ghost ls = lines(text@);
    let mut st = ApfsReader { done: Vec::new(), cur: None, vol: None };
    let mut k: usize = 0;
    proof {
        assert(containers_view(st.done@) =~= Seq::<ContainerModel>::empty());
        assert(ls.take(0) =~= Seq::<Seq<char>>::empty());
    }
    while k < lr.len()
        invariant
            v@ == text@,
            ls == lines(text@),
            crate::text::ranges_in(lr@, v@.len()),
            crate::text::ranges_view(v@, lr@) == ls,
            0 <= k <= lr@.len(),
            apfs_fold(ls.take(k as int)) == reader_state(st),
        decreases lr@.len() - k,
    {
        let (lo, hi) = lr[k];
        proof {
            assert(ls.take(k + 1).drop_last() =~= ls.take(k as int));
            assert(lr@[k as int].0 <= lr@[k as int].1);
            assert(ls[k as int] == v@.subrange(lo as int, hi as int));
        }
        st = apfs_line(st, &v, lo, hi);
        k += 1;
    }
    proof {
        assert(ls.take(ls.len() as int) =~= ls);
    }
    let f = file_volume(st);
    file_container(f)
}

} // verus!
