//! Real-time traffic analysis and monitoring.
use vstd::prelude::*;
use vstd::utf8::{decode_utf8, valid_utf8};

use crate::clock::NANOS_PER_SECOND;
use crate::sealing::text_from_utf8;
use crate::table::texts;
use crate::text::{
    decimal, decimal_u64, join3, lemma_text_occurs_between, occurs_at, occurs_in, to_chars,
};
use crate::types::copy_bytes;

verus! {

/// Which way data goes.
#[derive(Clone, Copy, Debug, PartialEq, Eq, Structural)]
pub enum DataDirection {
    ClientToServer,
    ServerToClient,
}

/// Data structure for skimming operations
#[derive(Debug)]
pub struct SkimData {
    pub client_id: String,
    pub data: Vec<u8>,
    pub direction: DataDirection,
    pub timestamp: i64,
}

/// Data skimming functionality for analyzing traffic without blocking passthrough:
/// data waits here until it is looked at.
#[derive(Debug)]
pub struct DataSkimmer {
    pub waiting: Vec<SkimData>,
}

/// Whether `c` is white space by Unicode.
pub open spec fn is_white_space(c: char) -> bool {
    ||| '\u{9}' <= c <= '\u{d}'
    ||| c == '\u{20}'
    ||| c == '\u{85}'
    ||| c == '\u{a0}'
    ||| c == '\u{1680}'
    ||| '\u{2000}' <= c <= '\u{200a}'
    ||| c == '\u{2028}'
    ||| c == '\u{2029}'
    ||| c == '\u{202f}'
    ||| c == '\u{205f}'
    ||| c == '\u{3000}'
}

fn white_space(c: char) -> (result: bool)
    ensures
        result == is_white_space(c),
{
    ('\u{9}' <= c && c <= '\u{d}') || c == '\u{20}' || c == '\u{85}' || c == '\u{a0}' || c
        == '\u{1680}' || ('\u{2000}' <= c && c <= '\u{200a}') || c == '\u{2028}' || c == '\u{2029}'
        || c == '\u{202f}' || c == '\u{205f}' || c == '\u{3000}'
}

/// The text without white space at its start.
pub open spec fn trimmed_start(text: Seq<char>) -> Seq<char>
    decreases text.len(),
{
    if text.len() > 0 && is_white_space(text[0]) {
        trimmed_start(text.skip(1))
    } else {
        text
    }
}

/// The text without white space at its end.
pub open spec fn trimmed_end(text: Seq<char>) -> Seq<char>
    decreases text.len(),
{
    if text.len() > 0 && is_white_space(text.last()) {
        trimmed_end(text.drop_last())
    } else {
        text
    }
}

/// The text without white space at its ends.
pub open spec fn trimmed(text: Seq<char>) -> Seq<char> {
    trimmed_end(trimmed_start(text))
}

/// Whether `c` ends a line.
pub open spec fn ends_line(c: char) -> bool {
    c == '\n' || c == '\r'
}

/// The first position from `start` on at which a line ends, or the end of the text.
pub open spec fn line_end(text: Seq<char>, start: int) -> int
    decreases text.len() - start,
{
    if start >= text.len() || ends_line(text[start]) {
        start
    } else {
        line_end(text, start + 1)
    }
}

/// Whether the text holds a command to move a client.
pub open spec fn holds_move(text: Seq<char>) -> bool {
    ||| occurs_in(text, "\"client\":\"move\""@)
    ||| occurs_in(text, "\"type\":\"move\""@)
    ||| occurs_in(text, "\"action\":\"move\""@)
}

/// The first line from `start` on that holds a command to move, without white space at
/// its ends; a stand-in where there is none.
pub open spec fn move_line(text: Seq<char>, start: int) -> Seq<char>
    decreases text.len() - start,
{
    let end = line_end(text, start);
    if start < 0 || start > text.len() || end < start {
        "Movement data"@
    } else {
        let line = trimmed(text.subrange(start, end));
        if line.len() > 0 && holds_move(line) {
            line
        } else if end >= text.len() {
            "Movement data"@
        } else {
            move_line(text, end + 1)
        }
    }
}

/// Whether a text is one line without white space at its ends.
pub open spec fn is_tidy_line(text: Seq<char>) -> bool {
    &&& forall|i: int| 0 <= i < text.len() ==> !ends_line(#[trigger] text[i])
    &&& text.len() > 0 ==> !is_white_space(text[0]) && !is_white_space(text.last())
}

/// The lines that are logged of game events in a client's data, in order.
pub open spec fn event_lines(text: Seq<char>, client: Seq<char>) -> Seq<Seq<char>> {
    let joined = if occurs_in(text, "\"type\":\"connect\""@) || occurs_in(
        text,
        "\"event\":\"join\""@,
    ) {
        seq!["[GAME] Client "@ + client + " connected"@]
    } else {
        Seq::empty()
    };
    let left = if occurs_in(text, "\"type\":\"disconnect\""@) || occurs_in(
        text,
        "\"event\":\"leave\""@,
    ) {
        seq!["[GAME] Client "@ + client + " disconnected"@]
    } else {
        Seq::empty()
    };
    let failed = if occurs_in(text, "\"error\""@) || occurs_in(text, "\"status\":\"error\""@) {
        seq!["[GAME] Error detected for client "@ + client + ": "@ + text]
    } else {
        Seq::empty()
    };
    joined + left + failed
}

/// The whole seconds since the Unix epoch, zero before it.
pub open spec fn epoch_seconds(timestamp: i64) -> nat {
    if timestamp >= 0 {
        (timestamp / NANOS_PER_SECOND) as nat
    } else {
        0
    }
}

/// The line that is logged of a client's movement.
pub open spec fn movement_line(timestamp: i64, client: Seq<char>, text: Seq<char>) -> Seq<char> {
    "["@ + decimal(epoch_seconds(timestamp)) + "] Client "@ + client + " movement detected: "@
        + move_line(text, 0)
}

/// The lines that are logged of a client's data: of its movement, and of game events.
/// Data that is not text is passed over.
pub open spec fn skim_lines(data: SkimData) -> Seq<Seq<char>> {
    if !valid_utf8(data.data@) {
        Seq::empty()
    } else {
        let text = decode_utf8(data.data@);
        let moved = if holds_move(text) {
            seq![movement_line(data.timestamp, data.client_id@, text)]
        } else {
            Seq::empty()
        };
        moved + event_lines(text, data.client_id@)
    }
}

/// The lines that are logged of all data, in order.
pub open spec fn all_skim_lines(waiting: Seq<SkimData>) -> Seq<Seq<char>>
    decreases waiting.len(),
{
    if waiting.len() == 0 {
        Seq::empty()
    } else {
        all_skim_lines(waiting.drop_last()) + skim_lines(waiting.last())
    }
}

fn occurs(chars: &Vec<char>, needle: &str) -> (result: bool)
    ensures
        result == occurs_in(chars@, needle@),
{
    let wanted = to_chars(needle);
    if wanted.len() > chars.len() {
        assert(forall|i: int| !occurs_at(chars@, needle@, i));
        return false;
    }
    let mut i: usize = 0;
    while i <= chars.len() - wanted.len()
        invariant
            wanted@ == needle@,
            wanted@.len() <= chars@.len(),
            i <= chars@.len() - wanted@.len() + 1,
            forall|k: int| 0 <= k < i ==> !#[trigger] occurs_at(chars@, needle@, k),
        decreases chars@.len() - wanted@.len() + 1 - i,
    {
        let mut j: usize = 0;
        while j < wanted.len() && chars[i + j] == wanted[j]
            invariant
                wanted@ == needle@,
                i + wanted.len() <= chars.len(),
                j <= wanted@.len(),
                forall|k: int| 0 <= k < j ==> chars@[i + k] == wanted@[k],
            decreases wanted@.len() - j,
        {
            j += 1;
        }
        if j == wanted.len() {
            assert(chars@.subrange(i as int, i + needle@.len()) =~= needle@);
            assert(occurs_at(chars@, needle@, i as int));
            return true;
        }
        assert(chars@.subrange(i as int, i + needle@.len())[j as int] != needle@[j as int]);
        assert(!occurs_at(chars@, needle@, i as int));
        i += 1;
    }
    assert(forall|k: int| !occurs_at(chars@, needle@, k));
    false
}

proof fn lemma_trim_start(text: Seq<char>, lo: int)
    requires
        0 <= lo <= text.len(),
        forall|i: int| 0 <= i < lo ==> is_white_space(#[trigger] text[i]),
        lo < text.len() ==> !is_white_space(text[lo]),
    ensures
        trimmed_start(text) == text.skip(lo),
    decreases lo,
{
    if lo > 0 {
        assert(is_white_space(text[0]));
        let rest = text.skip(1);
        assert forall|i: int| 0 <= i < lo - 1 implies is_white_space(#[trigger] rest[i]) by {
            assert(is_white_space(text[i + 1]));
        }
        lemma_trim_start(rest, lo - 1);
        assert(rest.skip(lo - 1) =~= text.skip(lo));
    } else {
        assert(text.skip(0) =~= text);
    }
}

proof fn lemma_trim_end(text: Seq<char>, hi: int)
    requires
        0 <= hi <= text.len(),
        forall|i: int| hi <= i < text.len() ==> is_white_space(#[trigger] text[i]),
        0 < hi ==> !is_white_space(text[hi - 1]),
    ensures
        trimmed_end(text) == text.take(hi),
    decreases text.len() - hi,
{
    if hi < text.len() {
        assert(is_white_space(text[text.len() - 1]));
        let rest = text.drop_last();
        assert forall|i: int| hi <= i < rest.len() implies is_white_space(#[trigger] rest[i]) by {
            assert(is_white_space(text[i]));
        }
        lemma_trim_end(rest, hi);
        assert(rest.take(hi) =~= text.take(hi));
    } else {
        assert(text.take(hi) =~= text);
    }
}

proof fn lemma_line_end(text: Seq<char>, start: int, end: int)
    requires
        0 <= start <= end <= text.len(),
        forall|i: int| start <= i < end ==> !ends_line(#[trigger] text[i]),
        end < text.len() ==> ends_line(text[end]),
    ensures
        line_end(text, start) == end,
    decreases end - start,
{
    if start < end {
        assert(!ends_line(text[start]));
        lemma_line_end(text, start + 1, end);
    }
}

impl DataSkimmer {
    /// A skimmer with no data waiting.
    pub fn new() -> (result: Self)
        ensures
            result.waiting@.len() == 0,
    {
        DataSkimmer { waiting: Vec::new() }
    }

    /// Send data for skimming (non-blocking)
    pub fn skim(&mut self, client_id: String, data: Vec<u8>, direction: DataDirection, now: i64)
        ensures
            final(self).waiting@ == old(self).waiting@.push(
                SkimData { client_id, data, direction, timestamp: now },
            ),
    {
        self.waiting.push(SkimData { client_id, data, direction, timestamp: now });
    }

    /// Looks at all data that is waiting, in order, and gives the lines to log.
    pub fn skim_worker(&mut self) -> (result: Vec<String>)
        ensures
            final(self).waiting@.len() == 0,
            texts(result@) == all_skim_lines(old(self).waiting@),
    {
        let mut waiting: Vec<SkimData> = Vec::new();
        std::mem::swap(&mut self.waiting, &mut waiting);
        let mut out: Vec<String> = Vec::new();
        assert(texts(out@) =~= Seq::<Seq<char>>::empty());
        assert(waiting@.take(0) =~= Seq::<SkimData>::empty());
        let mut i: usize = 0;
        while i < waiting.len()
            invariant
                i <= waiting@.len(),
                self.waiting@.len() == 0,
                waiting@ == old(self).waiting@,
                texts(out@) == all_skim_lines(waiting@.take(i as int)),
            decreases waiting@.len() - i,
        {
            assert(waiting@.take(i + 1).drop_last() =~= waiting@.take(i as int));
            let ghost before = out@;
            let mut lines = Self::process_data(&waiting[i]);
            let ghost added = lines@;
            out.append(&mut lines);
            assert(texts(out@) =~= texts(before) + texts(added));
            i += 1;
        }
        assert(waiting@.take(i as int) =~= waiting@);
        out
    }

    /// The lines to log of one client's data.
    pub fn process_data(skim_data: &SkimData) -> (result: Vec<String>)
        ensures
            texts(result@) == skim_lines(*skim_data),
    {
        let mut out: Vec<String> = Vec::new();
        assert(texts(out@) =~= Seq::<Seq<char>>::empty());
        let text: String = match text_from_utf8(copy_bytes(&skim_data.data)) {
            Ok(text) => text,
            Err(_) => {
                return out;
            },
        };
        if Self::contains_client_move(text.as_str()) {
            let seconds: u64 = if skim_data.timestamp >= 0 {
                (skim_data.timestamp as u64) / (NANOS_PER_SECOND as u64)
            } else {
                0
            };
            let digits: String = decimal_u64(seconds);
            let info: String = Self::extract_move_info(text.as_str());
            let mut line: String = join3("[", digits.as_str(), "] Client ");
            line.append(skim_data.client_id.as_str());
            line.append(" movement detected: ");
            line.append(info.as_str());
            out.push(line);
            assert(texts(out@) =~= seq![
                movement_line(skim_data.timestamp, skim_data.client_id@, text@),
            ]);
        }
        let ghost before = out@;
        let mut events = Self::analyze_game_events(text.as_str(), skim_data.client_id.as_str());
        let ghost added = events@;
        out.append(&mut events);
        assert(texts(out@) =~= texts(before) + texts(added));
        assert(texts(out@) =~= skim_lines(*skim_data));
        out
    }

    /// Check if data contains client movement commands
    pub fn contains_client_move(text: &str) -> (result: bool)
        ensures
            result == holds_move(text@),
    {
        let chars = to_chars(text);
        occurs(&chars, "\"client\":\"move\"") || occurs(&chars, "\"type\":\"move\"") || occurs(
            &chars,
            "\"action\":\"move\"",
        )
    }

    /// Extract movement information from text: the first line that holds a command to
    /// move, without white space at its ends
    pub fn extract_move_info(text: &str) -> (result: String)
        ensures
            result@ == move_line(text@, 0),
            holds_move(result@) == holds_move(text@),
            is_tidy_line(result@),
    {
        proof {
            lemma_move_line_tells(text@);
        }
        let chars = to_chars(text);
        let count: usize = chars.len();
        let mut start: usize = 0;
        loop
            invariant
                chars@ == text@,
                count == chars@.len(),
                start <= count,
                move_line(text@, 0) == move_line(text@, start as int),
                holds_move(move_line(text@, 0)) == holds_move(text@),
                is_tidy_line(move_line(text@, 0)),
            decreases count - start,
        {
            let mut end: usize = start;
            while end < count && chars[end] != '\n' && chars[end] != '\r'
                invariant
                    chars@ == text@,
                    count == chars@.len(),
                    start <= end <= count,
                    forall|i: int| start <= i < end ==> !ends_line(#[trigger] text@[i]),
                decreases count - end,
            {
                end += 1;
            }
            proof {
                lemma_line_end(text@, start as int, end as int);
            }
            let mut lo: usize = start;
            while lo < end && white_space(chars[lo])
                invariant
                    chars@ == text@,
                    count == chars@.len(),
                    start <= lo <= end <= count,
                    forall|i: int| start <= i < lo ==> is_white_space(#[trigger] text@[i]),
                decreases end - lo,
            {
                lo += 1;
            }
            let mut hi: usize = end;
            while hi > lo && white_space(chars[hi - 1])
                invariant
                    chars@ == text@,
                    count == chars@.len(),
                    start <= lo <= hi <= end <= count,
                    forall|i: int| hi <= i < end ==> is_white_space(#[trigger] text@[i]),
                decreases hi - lo,
            {
                hi -= 1;
            }
            let ghost line = text@.subrange(start as int, end as int);
            proof {
                assert forall|i: int| 0 <= i < lo - start implies is_white_space(#[trigger] line[i]) by {
                    assert(is_white_space(text@[start + i]));
                }
                lemma_trim_start(line, lo - start);
                let rest = line.skip(lo - start);
                assert forall|i: int| hi - lo <= i < rest.len() implies is_white_space(
                    #[trigger] rest[i],
                ) by {
                    assert(is_white_space(text@[lo + i]));
                }
                lemma_trim_end(rest, hi - lo);
                assert(rest.take(hi - lo) =~= text@.subrange(lo as int, hi as int));
            }
            if hi > lo {
                let part: &str = text.substring_char(lo, hi);
                if Self::contains_client_move(part) {
                    return part.to_owned();
                }
            }
            if end >= count {
                return "Movement data".to_owned();
            }
            start = end + 1;
        }
    }

    /// The lines to log of game events: clients that join and leave, and errors
    pub fn analyze_game_events(text: &str, client_id: &str) -> (result: Vec<String>)
        ensures
            texts(result@) == event_lines(text@, client_id@),
    {
        let chars = to_chars(text);
        let mut out: Vec<String> = Vec::new();
        let ghost mut told: Seq<Seq<char>> = Seq::empty();
        assert(texts(out@) =~= told);
        if occurs(&chars, "\"type\":\"connect\"") || occurs(&chars, "\"event\":\"join\"") {
            out.push(join3("[GAME] Client ", client_id, " connected"));
            proof {
                told = told.push("[GAME] Client "@ + client_id@ + " connected"@);
                assert(texts(out@) =~= told);
            }
        }
        if occurs(&chars, "\"type\":\"disconnect\"") || occurs(&chars, "\"event\":\"leave\"") {
            out.push(join3("[GAME] Client ", client_id, " disconnected"));
            proof {
                told = told.push("[GAME] Client "@ + client_id@ + " disconnected"@);
                assert(texts(out@) =~= told);
            }
        }
        if occurs(&chars, "\"error\"") || occurs(&chars, "\"status\":\"error\"") {
            let mut line: String = join3("[GAME] Error detected for client ", client_id, ": ");
            line.append(text);
            out.push(line);
            proof {
                told = told.push("[GAME] Error detected for client "@ + client_id@ + ": "@ + text@);
                assert(texts(out@) =~= told);
            }
        }
        assert(texts(out@) =~= event_lines(text@, client_id@));
        out
    }
}

/// Whether `needle` occurs in the text at `start` or later.
spec fn occurs_from(text: Seq<char>, needle: Seq<char>, start: int) -> bool {
    exists|k: int| start <= k && #[trigger] occurs_at(text, needle, k)
}

/// Whether a command to move a client stands in the text at `start` or later.
spec fn holds_move_from(text: Seq<char>, start: int) -> bool {
    ||| occurs_from(text, "\"client\":\"move\""@, start)
    ||| occurs_from(text, "\"type\":\"move\""@, start)
    ||| occurs_from(text, "\"action\":\"move\""@, start)
}

proof fn lemma_holds_move_from_start(text: Seq<char>)
    ensures
        holds_move(text) == holds_move_from(text, 0),
{
    lemma_occurs_from_start(text, "\"client\":\"move\""@);
    lemma_occurs_from_start(text, "\"type\":\"move\""@);
    lemma_occurs_from_start(text, "\"action\":\"move\""@);
}

proof fn lemma_occurs_from_start(text: Seq<char>, needle: Seq<char>)
    ensures
        occurs_in(text, needle) == occurs_from(text, needle, 0),
{
    if occurs_in(text, needle) {
        let k = choose|k: int| occurs_at(text, needle, k);
        assert(occurs_at(text, needle, k));
    }
}

proof fn lemma_line_bounds(text: Seq<char>, start: int)
    requires
        0 <= start <= text.len(),
    ensures
        start <= line_end(text, start) <= text.len(),
        forall|i: int| start <= i < line_end(text, start) ==> !ends_line(#[trigger] text[i]),
        line_end(text, start) < text.len() ==> ends_line(text[line_end(text, start)]),
    decreases text.len() - start,
{
    if start < text.len() && !ends_line(text[start]) {
        lemma_line_bounds(text, start + 1);
    }
}

proof fn lemma_start_found(text: Seq<char>) -> (lo: int)
    ensures
        0 <= lo <= text.len(),
        forall|i: int| 0 <= i < lo ==> is_white_space(#[trigger] text[i]),
        lo < text.len() ==> !is_white_space(text[lo]),
    decreases text.len(),
{
    if text.len() > 0 && is_white_space(text[0]) {
        let rest = text.skip(1);
        let lo = lemma_start_found(rest);
        assert forall|i: int| 0 <= i < lo + 1 implies is_white_space(#[trigger] text[i]) by {
            if i > 0 {
                assert(is_white_space(rest[i - 1]));
            }
        }
        lo + 1
    } else {
        0
    }
}

proof fn lemma_end_found(text: Seq<char>) -> (hi: int)
    ensures
        0 <= hi <= text.len(),
        forall|i: int| hi <= i < text.len() ==> is_white_space(#[trigger] text[i]),
        0 < hi ==> !is_white_space(text[hi - 1]),
    decreases text.len(),
{
    if text.len() > 0 && is_white_space(text.last()) {
        let rest = text.drop_last();
        let hi = lemma_end_found(rest);
        assert forall|i: int| hi <= i < text.len() implies is_white_space(#[trigger] text[i]) by {
            if i < rest.len() {
                assert(is_white_space(rest[i]));
            }
        }
        hi
    } else {
        text.len() as int
    }
}

/// The part of a text that is left when white space is taken off its ends.
proof fn lemma_trimmed_part(text: Seq<char>) -> (part: (int, int))
    ensures
        0 <= part.0 <= part.1 <= text.len(),
        trimmed(text) == text.subrange(part.0, part.1),
        forall|i: int|
            0 <= i < text.len() && !is_white_space(#[trigger] text[i]) ==> part.0 <= i < part.1,
        part.0 < part.1 ==> !is_white_space(text[part.0]) && !is_white_space(text[part.1 - 1]),
{
    let lo = lemma_start_found(text);
    lemma_trim_start(text, lo);
    let rest = text.skip(lo);
    let hi = lemma_end_found(rest);
    lemma_trim_end(rest, hi);
    assert(rest.take(hi) =~= text.subrange(lo, lo + hi));
    assert forall|i: int| 0 <= i < text.len() && !is_white_space(#[trigger] text[i]) implies lo <= i
        < lo + hi by {
        if i >= lo + hi {
            assert(is_white_space(rest[i - lo]));
        }
    }
    (lo, lo + hi)
}

/// Whether a text that is searched for fits into a line and is not cut short when white
/// space is taken off the line's ends.
spec fn stays_whole(needle: Seq<char>) -> bool {
    needle.len() > 0 && is_tidy_line(needle)
}

/// Where a text stands in a line, it stands in it once white space is taken off its ends;
/// elsewhere it stands after the line.
proof fn lemma_needle_in_line(text: Seq<char>, needle: Seq<char>, start: int)
    requires
        0 <= start <= text.len(),
        stays_whole(needle),
    ensures
        ({
            let end = line_end(text, start);
            let line = trimmed(text.subrange(start, end));
            occurs_from(text, needle, start) <==> occurs_in(line, needle) || occurs_from(
                text,
                needle,
                end + 1,
            )
        }),
        forall|k: int|
            start <= k <= line_end(text, start) && #[trigger] occurs_at(text, needle, k)
                ==> occurs_in(trimmed(text.subrange(start, line_end(text, start))), needle),
{
    let end = line_end(text, start);
    lemma_line_bounds(text, start);
    let whole = text.subrange(start, end);
    let part = lemma_trimmed_part(whole);
    let line = trimmed(whole);
    let n = needle.len() as int;
    if occurs_in(line, needle) {
        let k = choose|k: int| occurs_at(line, needle, k);
        let at = start + part.0 + k;
        assert(text.subrange(at, at + n) =~= line.subrange(k, k + n));
        assert(occurs_at(text, needle, at));
    }
    if occurs_from(text, needle, end + 1) {
        let k = choose|k: int| end + 1 <= k && #[trigger] occurs_at(text, needle, k);
        assert(occurs_at(text, needle, k) && start <= k);
    }
    assert forall|k: int| start <= k <= end && #[trigger] occurs_at(
        text,
        needle,
        k,
    ) implies occurs_in(line, needle) by {
        let found = text.subrange(k, k + n);
        if k + n > end {
            assert(end < text.len());
            assert(found[end - k] == text[end]);
            assert(!ends_line(needle[end - k]));
        }
        assert(found[0] == text[k] && found[n - 1] == text[k + n - 1]);
        assert(whole[k - start] == text[k]);
        assert(whole[k + n - 1 - start] == text[k + n - 1]);
        assert(!is_white_space(whole[k - start]));
        assert(!is_white_space(whole[k + n - 1 - start]));
        let at = k - start - part.0;
        assert(line.subrange(at, at + n) =~= found);
        assert(occurs_at(line, needle, at));
    }
}

proof fn lemma_commands_stay_whole()
    ensures
        stays_whole("\"client\":\"move\""@),
        stays_whole("\"type\":\"move\""@),
        stays_whole("\"action\":\"move\""@),
{
    reveal_strlit("\"client\":\"move\"");
    reveal_strlit("\"type\":\"move\"");
    reveal_strlit("\"action\":\"move\"");
}

proof fn lemma_stand_in()
    ensures
        !holds_move("Movement data"@),
        is_tidy_line("Movement data"@),
{
    reveal_strlit("Movement data");
    reveal_strlit("\"client\":\"move\"");
    reveal_strlit("\"type\":\"move\"");
    reveal_strlit("\"action\":\"move\"");
    let text = "Movement data"@;
    assert forall|needle: Seq<char>, k: int| needle.len() > 0 && needle[0] == '"' implies
        !#[trigger] occurs_at(text, needle, k) by {
        if occurs_at(text, needle, k) {
            assert(text.subrange(k, k + needle.len())[0] == text[k]);
        }
    }
}

proof fn lemma_move_line_from(text: Seq<char>, start: int)
    requires
        0 <= start <= text.len(),
    ensures
        holds_move(move_line(text, start)) == holds_move_from(text, start),
        is_tidy_line(move_line(text, start)),
    decreases text.len() - start,
{
    let end = line_end(text, start);
    lemma_line_bounds(text, start);
    lemma_commands_stay_whole();
    lemma_stand_in();
    lemma_needle_in_line(text, "\"client\":\"move\""@, start);
    lemma_needle_in_line(text, "\"type\":\"move\""@, start);
    lemma_needle_in_line(text, "\"action\":\"move\""@, start);
    let whole = text.subrange(start, end);
    let line = trimmed(whole);
    let part = lemma_trimmed_part(whole);
    assert forall|i: int| 0 <= i < line.len() implies !ends_line(#[trigger] line[i]) by {
        assert(line[i] == text[start + part.0 + i]);
    }
    if end < text.len() {
        lemma_move_line_from(text, end + 1);
    } else {
        assert(!holds_move_from(text, end + 1));
    }
    if line.len() == 0 {
        assert(!holds_move(line));
    }
}

/// What is reported of a movement holds a command to move exactly where the text does, and
/// is one line without white space at its ends.
pub proof fn lemma_move_line_tells(text: Seq<char>)
    ensures
        holds_move(move_line(text, 0)) == holds_move(text),
        is_tidy_line(move_line(text, 0)),
{
    lemma_move_line_from(text, 0);
    lemma_holds_move_from_start(text);
}

proof fn lemma_first_move_line_from(text: Seq<char>, start: int) -> (part: (int, int))
    requires
        0 <= start <= text.len(),
        holds_move_from(text, start),
    ensures
        start <= part.0 <= part.1 <= text.len(),
        move_line(text, start) == text.subrange(part.0, part.1),
        part.0 == start || is_white_space(text[part.0 - 1]),
        part.1 == text.len() || is_white_space(text[part.1]),
        forall|k: int|
            start <= k && #[trigger] occurs_at(text, "\"client\":\"move\""@, k) ==> part.0 <= k,
        forall|k: int|
            start <= k && #[trigger] occurs_at(text, "\"type\":\"move\""@, k) ==> part.0 <= k,
        forall|k: int|
            start <= k && #[trigger] occurs_at(text, "\"action\":\"move\""@, k) ==> part.0 <= k,
    decreases text.len() - start,
{
    let end = line_end(text, start);
    lemma_line_bounds(text, start);
    lemma_commands_stay_whole();
    lemma_needle_in_line(text, "\"client\":\"move\""@, start);
    lemma_needle_in_line(text, "\"type\":\"move\""@, start);
    lemma_needle_in_line(text, "\"action\":\"move\""@, start);
    let whole = text.subrange(start, end);
    let line = trimmed(whole);
    let part = lemma_trimmed_part(whole);
    if holds_move(line) {
        let lo = start + part.0;
        let hi = start + part.1;
        if line.len() == 0 {
            assert(!holds_move(line));
        }
        assert(line =~= text.subrange(lo, hi));
        assert forall|needle: Seq<char>, k: int|
            start <= k && stays_whole(needle) && #[trigger] occurs_at(
                text,
                needle,
                k,
            ) implies lo <= k by {
            assert(text.subrange(k, k + needle.len())[0] == text[k]);
            if k < lo {
                assert(!is_white_space(whole[k - start]));
            }
        }
        if part.0 > 0 {
            assert(whole[part.0 - 1] == text[lo - 1]);
        }
        if part.1 < whole.len() {
            assert(whole[part.1] == text[hi]);
        }
        (lo, hi)
    } else {
        assert(end < text.len());
        lemma_first_move_line_from(text, end + 1)
    }
}

/// What is reported of a movement is the first line of the text that holds a command to
/// move: it stands in the text between white space, and no command stands before it.
pub proof fn lemma_move_line_is_the_first(text: Seq<char>) -> (part: (int, int))
    requires
        holds_move(text),
    ensures
        0 <= part.0 <= part.1 <= text.len(),
        move_line(text, 0) == text.subrange(part.0, part.1),
        part.0 == 0 || is_white_space(text[part.0 - 1]),
        part.1 == text.len() || is_white_space(text[part.1]),
        forall|i: int| part.0 <= i < part.1 ==> #[trigger] text[i] != '\n' && text[i] != '\r',
        forall|k: int| #[trigger]
            occurs_at(text, "\"client\":\"move\""@, k) ==> part.0 <= k,
        forall|k: int| #[trigger] occurs_at(text, "\"type\":\"move\""@, k) ==> part.0 <= k,
        forall|k: int| #[trigger]
            occurs_at(text, "\"action\":\"move\""@, k) ==> part.0 <= k,
{
    lemma_holds_move_from_start(text);
    lemma_move_line_tells(text);
    let part = lemma_first_move_line_from(text, 0);
    assert forall|i: int| part.0 <= i < part.1 implies #[trigger] text[i] != '\n' && text[i]
        != '\r' by {
        assert(move_line(text, 0)[i - part.0] == text[i]);
    }
    part
}

/// A text holds a command to move where one of the three ways to write it stands anywhere
/// in it.
pub proof fn lemma_any_command_counts(before: Seq<char>, after: Seq<char>)
    ensures
        holds_move(before + "\"client\":\"move\""@ + after),
        holds_move(before + "\"type\":\"move\""@ + after),
        holds_move(before + "\"action\":\"move\""@ + after),
{
    lemma_text_occurs_between(before, "\"client\":\"move\""@, after, before, 0);
    lemma_text_occurs_between(before, "\"type\":\"move\""@, after, before, 0);
    lemma_text_occurs_between(before, "\"action\":\"move\""@, after, before, 0);
}

/// What is logged does not depend on which way the data went.
pub proof fn lemma_both_directions_are_logged_alike(a: SkimData, b: SkimData)
    requires
        a.data@ == b.data@,
        a.client_id@ == b.client_id@,
        a.timestamp == b.timestamp,
    ensures
        skim_lines(a) == skim_lines(b),
{
}

/// Every marker in a text has its line in the log, whichever way the text went, with the
/// movement first, then the client's coming, its going and an error. There are no other
/// lines.
pub proof fn lemma_every_marker_has_its_line(data: SkimData)
    requires
        valid_utf8(data.data@),
    ensures
        ({
            let text = decode_utf8(data.data@);
            let client = data.client_id@;
            let lines = skim_lines(data);
            let moved: int = if occurs_in(text, "\"client\":\"move\""@) || occurs_in(
                text,
                "\"type\":\"move\""@,
            ) || occurs_in(text, "\"action\":\"move\""@) {
                1
            } else {
                0
            };
            let joined: int = if occurs_in(text, "\"type\":\"connect\""@) || occurs_in(
                text,
                "\"event\":\"join\""@,
            ) {
                1
            } else {
                0
            };
            let left: int = if occurs_in(text, "\"type\":\"disconnect\""@) || occurs_in(
                text,
                "\"event\":\"leave\""@,
            ) {
                1
            } else {
                0
            };
            let failed: int = if occurs_in(text, "\"error\""@) || occurs_in(
                text,
                "\"status\":\"error\""@,
            ) {
                1
            } else {
                0
            };
            &&& lines.len() == moved + joined + left + failed
            &&& moved == 1 ==> lines[0] == "["@ + decimal(epoch_seconds(data.timestamp))
                + "] Client "@ + client + " movement detected: "@ + move_line(text, 0)
            &&& joined == 1 ==> lines[moved] == "[GAME] Client "@ + client + " connected"@
            &&& left == 1 ==> lines[moved + joined] == "[GAME] Client "@ + client
                + " disconnected"@
            &&& failed == 1 ==> lines[moved + joined + left]
                == "[GAME] Error detected for client "@ + client + ": "@ + text
        }),
{
}

/// Data that is no text is not logged.
pub proof fn lemma_no_text_no_lines(data: SkimData)
    requires
        !valid_utf8(data.data@),
    ensures
        skim_lines(data).len() == 0,
{
}

/// Of data that waits, everything is logged in the order in which it came.
pub proof fn lemma_waiting_data_is_logged_in_order(first: Seq<SkimData>, second: Seq<SkimData>)
    ensures
        all_skim_lines(first + second) == all_skim_lines(first) + all_skim_lines(second),
    decreases second.len(),
{
    if second.len() == 0 {
        assert(first + second =~= first);
        assert(all_skim_lines(first) + all_skim_lines(second) =~= all_skim_lines(first));
    } else {
        assert((first + second).drop_last() =~= first + second.drop_last());
        lemma_waiting_data_is_logged_in_order(first, second.drop_last());
        assert(all_skim_lines(first + second) =~= all_skim_lines(first) + all_skim_lines(second));
    }
}

/// One piece of data that waits is logged as it would be by itself.
pub proof fn lemma_one_piece_is_logged_by_itself(data: SkimData)
    ensures
        all_skim_lines(seq![data]) == skim_lines(data),
{
    reveal_with_fuel(all_skim_lines, 2);
    assert(seq![data].drop_last() =~= Seq::<SkimData>::empty());
    assert(all_skim_lines(seq![data]) =~= skim_lines(data));
}

/// A point in time lies in the second that it is logged with; one before the epoch is
/// logged with the epoch.
pub proof fn lemma_logged_second_holds_the_time(timestamp: i64)
    ensures
        timestamp >= 0 ==> epoch_seconds(timestamp) * 1_000_000_000 <= timestamp < (epoch_seconds(
            timestamp,
        ) + 1) * 1_000_000_000,
        timestamp < 0 ==> epoch_seconds(timestamp) == 0,
{
}

/// Taking white space off the ends of a text twice is no more than once, and what is left
/// has none there.
pub proof fn lemma_trimmed_text_has_bare_ends(text: Seq<char>)
    ensures
        trimmed(trimmed(text)) == trimmed(text),
        trimmed(text).len() > 0 ==> !is_white_space(trimmed(text)[0]) && !is_white_space(
            trimmed(text).last(),
        ),
        trimmed(text).len() == 0 <==> forall|i: int|
            0 <= i < text.len() ==> is_white_space(#[trigger] text[i]),
        is_white_space(' ') && is_white_space('\t') && is_white_space('\n') && is_white_space('\r'),
        !is_white_space('"') && !is_white_space('{') && !is_white_space('}'),
        forall|c: char| 'a' <= c <= 'z' || '0' <= c <= '9' || 'A' <= c <= 'Z' ==> !is_white_space(c),
{
    let part = lemma_trimmed_part(text);
    let line = trimmed(text);
    if line.len() > 0 {
        assert(line[0] == text[part.0]);
        assert(line.last() == text[part.1 - 1]);
    }
}

} // verus!
