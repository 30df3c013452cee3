//! Filters over raw terminal output: dropping interactive queries from a
//! replay, finding the window title, and lifting notifications out of the
//! stream.

use vstd::prelude::*;
use vstd::slice::*;
use crate::text::{lossy_string, utf8_lossy};

verus! {

/// The escape byte that opens every control sequence.
pub const ESC: u8 = 0x1b;

/// The bell byte, one of the two ways to end an operating-system command.
pub const BEL: u8 = 0x07;

/// Parameter and intermediate bytes of a control sequence.
pub open spec fn is_csi_param(b: u8) -> bool {
    0x20 <= b && b <= 0x3f
}

/// The first position at or after `j` that holds no parameter byte; the
/// length of `s` if the parameters run to the end.
pub open spec fn params_end(s: Seq<u8>, j: int) -> int
    decreases s.len() - j,
{
    if 0 <= j < s.len() && is_csi_param(s[j]) {
        params_end(s, j + 1)
    } else {
        j
    }
}

/// Whether a control sequence with these parameters and this final byte asks
/// the terminal to answer: a cursor-position report (`6n`, `?6n`) or a
/// device-attributes report (`c`, `>c`, `=c`, `0c`).
pub open spec fn is_query(params: Seq<u8>, fin: u8) -> bool {
    ||| fin == 0x6e && (params == seq![0x36u8] || params == seq![0x3fu8, 0x36u8])
    ||| fin == 0x63 && (params.len() == 0 || params == seq![0x3eu8] || params == seq![0x3du8]
        || params == seq![0x30u8])
}

/// If a query sequence starts at `i`, the position just behind it.
pub open spec fn query_end(s: Seq<u8>, i: int) -> Option<int> {
    if 0 <= i && i + 1 < s.len() && s[i] == ESC && s[i + 1] == 0x5b {
        let j = params_end(s, i + 2);
        if j < s.len() && is_query(s.subrange(i + 2, j), s[j]) {
            Some(j + 1)
        } else {
            None
        }
    } else {
        None
    }
}

/// What is left of `s` from position `i` on once every query sequence is
/// dropped.
pub open spec fn strip_from(s: Seq<u8>, i: int) -> Seq<u8>
    decreases s.len() - i,
{
    if i < 0 || i >= s.len() {
        Seq::empty()
    } else {
        match query_end(s, i) {
            Some(e) => if e > i {
                strip_from(s, e)
            } else {
                Seq::empty()
            },
            None => seq![s[i]] + strip_from(s, i + 1),
        }
    }
}

/// `s` without its interactive query sequences.
pub open spec fn strip_queries(s: Seq<u8>) -> Seq<u8> {
    strip_from(s, 0)
}

/// The parameters of a control sequence run from its third byte up to the
/// first byte that is no parameter byte.
pub proof fn lemma_params_end_bounds(s: Seq<u8>, j: int)
    requires
        0 <= j <= s.len(),
    ensures
        j <= params_end(s, j) <= s.len(),
        forall|k: int| j <= k < params_end(s, j) ==> is_csi_param(#[trigger] s[k]),
        params_end(s, j) < s.len() ==> !is_csi_param(s[params_end(s, j)]),
    decreases s.len() - j,
{
    if j < s.len() && is_csi_param(s[j]) {
        lemma_params_end_bounds(s, j + 1);
    }
}

/// Tells whether a control sequence with these parameters and this final
/// byte is one of the queries.
fn asks_for_report(params: &[u8], fin: u8) -> (yes: bool)
    ensures
        yes == is_query(params@, fin),
{
    let n: usize = params.len();
    proof {
        if n == 1 {
            assert(params@ =~= seq![params@[0]]);
        }
        if n == 2 {
            assert(params@ =~= seq![params@[0], params@[1]]);
        }
        assert(seq![0x36u8][0] == 0x36u8 && seq![0x3eu8][0] == 0x3eu8 && seq![0x3du8][0] == 0x3du8
            && seq![0x30u8][0] == 0x30u8);
        assert(seq![0x3fu8, 0x36u8][0] == 0x3fu8 && seq![0x3fu8, 0x36u8][1] == 0x36u8);
    }
    if fin == 0x6e {
        (n == 1 && params[0] == 0x36) || (n == 2 && params[0] == 0x3f && params[1] == 0x36)
    } else if fin == 0x63 {
        n == 0 || (n == 1 && (params[0] == 0x3e || params[0] == 0x3d || params[0] == 0x30))
    } else {
        false
    }
}

/// Looks for a query sequence that starts at `i`, and gives the position
/// just behind it.
fn query_at(data: &[u8], i: usize) -> (end: Option<usize>)
    requires
        i < data@.len(),
    ensures
        match end {
            Some(e) => query_end(data@, i as int) == Some(e as int) && i < e <= data@.len(),
            None => query_end(data@, i as int).is_none(),
        },
{
    if data[i] == ESC && data.len() - i > 1 && data[i + 1] == 0x5b {
        let mut j: usize = i + 2;
        while j < data.len() && data[j] >= 0x20 && data[j] <= 0x3f
            invariant
                i + 2 <= j <= data.len(),
                params_end(data@, i + 2) == params_end(data@, j as int),
            decreases data.len() - j,
        {
            j += 1;
        }
        if j < data.len() && asks_for_report(slice_subrange(data, i + 2, j), data[j]) {
            return Some(j + 1);
        }
    }
    None
}

/// Removes from `data` every control sequence that would make a terminal
/// answer: cursor-position and device-attributes queries. Everything else,
/// unfinished sequences at the end included, passes through byte for byte.
pub fn strip_terminal_queries(data: &[u8]) -> (result: Vec<u8>)
    ensures
        result@ == strip_queries(data@),
{
    let mut result: Vec<u8> = Vec::new();
    let mut i: usize = 0;
    while i < data.len()
        invariant
            i <= data.len(),
            result@ + strip_from(data@, i as int) == strip_queries(data@),
        decreases data.len() - i,
    {
        match query_at(data, i) {
            Some(end) => {
                i = end;
            },
            None => {
                assert(result@.push(data@[i as int]) + strip_from(data@, i + 1) =~= result@
                    + (seq![data@[i as int]] + strip_from(data@, i + 1)));
                result.push(data[i]);
                i += 1;
            },
        }
    }
    assert(result@ + strip_from(data@, i as int) =~= result@);
    result
}

/// A stream in which no query sequence starts is left as it is.
pub proof fn lemma_strip_without_query(s: Seq<u8>)
    requires
        forall|k: int| 0 <= k < s.len() ==> query_end(s, k).is_none(),
    ensures
        strip_queries(s) == s,
{
    lemma_strip_suffix_without_query(s, 0);
    assert(s.subrange(0, s.len() as int) =~= s);
}

/// From a position on from which no query sequence starts, stripping keeps
/// every byte.
proof fn lemma_strip_suffix_without_query(s: Seq<u8>, i: int)
    requires
        0 <= i <= s.len(),
        forall|k: int| i <= k < s.len() ==> query_end(s, k).is_none(),
    ensures
        strip_from(s, i) == s.subrange(i, s.len() as int),
    decreases s.len() - i,
{
    if i < s.len() {
        lemma_strip_suffix_without_query(s, i + 1);
        assert(seq![s[i]] + s.subrange(i + 1, s.len() as int) =~= s.subrange(i, s.len() as int));
    } else {
        assert(s.subrange(i, s.len() as int) =~= Seq::<u8>::empty());
    }
}

/// A stream without an escape byte holds no query: stripping leaves it as it
/// is.
pub proof fn lemma_strip_without_escape(s: Seq<u8>)
    requires
        forall|k: int| 0 <= k < s.len() ==> s[k] != ESC,
    ensures
        strip_queries(s) == s,
{
    lemma_strip_without_query(s);
}

/// Stripping only ever removes bytes: the result is no longer than the input.
pub proof fn lemma_strip_len(s: Seq<u8>, i: int)
    requires
        0 <= i <= s.len(),
    ensures
        strip_from(s, i).len() <= s.len() - i,
    decreases s.len() - i,
{
    if i < s.len() {
        match query_end(s, i) {
            Some(e) => {
                lemma_params_end_bounds(s, i + 2);
                lemma_strip_len(s, e);
            },
            None => {
                lemma_strip_len(s, i + 1);
            },
        }
    }
}

/// Whether an operating-system command ends at `e`: with a bell, or with an
/// escape byte followed by a backslash.
pub open spec fn terminator_at(s: Seq<u8>, e: int) -> bool {
    0 <= e < s.len() && (s[e] == BEL || (s[e] == ESC && e + 1 < s.len() && s[e + 1] == 0x5c))
}

/// The number of bytes of the terminator that starts at `e`.
pub open spec fn terminator_len(s: Seq<u8>, e: int) -> int {
    if s[e] == BEL {
        1
    } else {
        2
    }
}

/// The first position at or after `from` where a terminator starts.
pub open spec fn find_terminator(s: Seq<u8>, from: int) -> Option<int>
    decreases s.len() - from,
{
    if from < 0 || from >= s.len() {
        None
    } else if terminator_at(s, from) {
        Some(from)
    } else {
        find_terminator(s, from + 1)
    }
}

/// Whether `ESC ] code ;` stands at `i`.
pub open spec fn osc_header_at(s: Seq<u8>, i: int, code: u8) -> bool {
    0 <= i && i + 3 < s.len() && s[i] == ESC && s[i + 1] == 0x5d && s[i + 2] == code && s[i + 3]
        == 0x3b
}

/// Whether a title command (code `0` or `2`) opens at `i`.
pub open spec fn title_header_at(s: Seq<u8>, i: int) -> bool {
    osc_header_at(s, i, 0x30) || osc_header_at(s, i, 0x32)
}

/// Where the first terminated title command at or after `i` keeps its text:
/// the positions of its first byte and of its terminator.
pub open spec fn title_span_from(s: Seq<u8>, i: int) -> Option<(int, int)>
    decreases s.len() - i,
{
    if i < 0 || i + 3 >= s.len() {
        None
    } else if title_header_at(s, i) && find_terminator(s, i + 4).is_some() {
        Some((i + 4, find_terminator(s, i + 4).unwrap()))
    } else {
        title_span_from(s, i + 1)
    }
}

/// The bytes of the first title that `s` sets, if it sets one.
pub open spec fn osc_title_bytes(s: Seq<u8>) -> Option<Seq<u8>> {
    match title_span_from(s, 0) {
        Some((a, b)) => Some(s.subrange(a, b)),
        None => None,
    }
}

/// A found terminator is the first one at or after the start of the search;
/// if none is found there is none.
pub proof fn lemma_find_terminator(s: Seq<u8>, from: int)
    requires
        0 <= from,
    ensures
        match find_terminator(s, from) {
            Some(e) => from <= e < s.len() && terminator_at(s, e) && forall|k: int|
                from <= k < e ==> !terminator_at(s, k),
            None => forall|k: int| from <= k ==> !terminator_at(s, k),
        },
    decreases s.len() - from,
{
    if from < s.len() && !terminator_at(s, from) {
        lemma_find_terminator(s, from + 1);
    }
}

/// What a found title span means: a title header stands just before it, its
/// terminator is the first one behind the header, and no terminated title
/// command starts earlier.
pub proof fn lemma_title_span(s: Seq<u8>, i: int)
    requires
        0 <= i,
    ensures
        match title_span_from(s, i) {
            Some((a, b)) => {
                &&& i + 4 <= a <= b < s.len()
                &&& title_header_at(s, a - 4)
                &&& find_terminator(s, a) == Some(b)
                &&& forall|k: int|
                    i <= k < a - 4 ==> !(title_header_at(s, k) && find_terminator(
                        s,
                        k + 4,
                    ).is_some())
            },
            None => forall|k: int|
                i <= k ==> !(title_header_at(s, k) && find_terminator(s, k + 4).is_some()),
        },
    decreases s.len() - i,
{
    if i + 3 < s.len() {
        lemma_find_terminator(s, i + 4);
        if !(title_header_at(s, i) && find_terminator(s, i + 4).is_some()) {
            lemma_title_span(s, i + 1);
        }
    }
}

/// A stream in which no title command opens sets no title.
pub proof fn lemma_no_title_header(s: Seq<u8>)
    requires
        forall|k: int| 0 <= k < s.len() ==> !title_header_at(s, k),
    ensures
        osc_title_bytes(s).is_none(),
{
    lemma_title_span(s, 0);
}

/// Scans `data` from `from` for the terminator of an operating-system
/// command.
fn scan_terminator(data: &[u8], from: usize) -> (found: Option<usize>)
    requires
        from <= data.len(),
    ensures
        match found {
            Some(e) => find_terminator(data@, from as int) == Some(e as int) && from <= e
                < data.len(),
            None => find_terminator(data@, from as int).is_none(),
        },
{
    let mut end: usize = from;
    while end < data.len()
        invariant
            from <= end <= data.len(),
            find_terminator(data@, from as int) == find_terminator(data@, end as int),
        decreases data.len() - end,
    {
        if data[end] == BEL {
            return Some(end);
        }
        if data[end] == ESC && data.len() - end > 1 && data[end + 1] == 0x5c {
            return Some(end);
        }
        end += 1;
    }
    None
}

/// Finds the first window title that `data` sets: the text of the first
/// `ESC ] 0 ;` or `ESC ] 2 ;` command that is ended by a bell or by
/// `ESC \`, decoded leniently. `None` when no such command is complete.
pub fn parse_osc_title(data: &[u8]) -> (title: Option<String>)
    ensures
        match osc_title_bytes(data@) {
            Some(bytes) => title.is_some() && title.unwrap()@ == utf8_lossy(bytes),
            None => title.is_none(),
        },
{
    let mut i: usize = 0;
    while data.len() > 3 && i < data.len() - 3
        invariant
            title_span_from(data@, 0) == title_span_from(data@, i as int),
        decreases data.len() - i,
    {
        if data[i] == ESC && data[i + 1] == 0x5d && (data[i + 2] == 0x30 || data[i + 2] == 0x32)
            && data[i + 3] == 0x3b {
            let start: usize = i + 4;
            match scan_terminator(data, start) {
                Some(end) => {
                    let text = lossy_string(slice_subrange(data, start, end));
                    return Some(text);
                },
                None => {},
            }
        }
        i += 1;
    }
    None
}

/// If a terminated notification command (code `9`) opens at `i`: where its
/// message ends and where the stream goes on behind its terminator.
pub open spec fn osc9_at(s: Seq<u8>, i: int) -> Option<(int, int)> {
    if osc_header_at(s, i, 0x39) {
        match find_terminator(s, i + 4) {
            Some(e) => Some((e, e + terminator_len(s, e))),
            None => None,
        }
    } else {
        None
    }
}

/// The stream from `i` on without its notification commands.
pub open spec fn osc9_cleaned_from(s: Seq<u8>, i: int) -> Seq<u8>
    decreases s.len() - i,
{
    if i < 0 || i >= s.len() {
        Seq::empty()
    } else {
        match osc9_at(s, i) {
            Some((e, next)) => if i < next <= s.len() {
                osc9_cleaned_from(s, next)
            } else {
                Seq::empty()
            },
            None => seq![s[i]] + osc9_cleaned_from(s, i + 1),
        }
    }
}

/// The messages of the notification commands from `i` on, in stream order.
pub open spec fn osc9_messages_from(s: Seq<u8>, i: int) -> Seq<Seq<u8>>
    decreases s.len() - i,
{
    if i < 0 || i >= s.len() {
        Seq::empty()
    } else {
        match osc9_at(s, i) {
            Some((e, next)) => if i < next <= s.len() {
                seq![s.subrange(i + 4, e)] + osc9_messages_from(s, next)
            } else {
                Seq::empty()
            },
            None => osc9_messages_from(s, i + 1),
        }
    }
}

/// `s` without its notification commands.
pub open spec fn osc9_cleaned(s: Seq<u8>) -> Seq<u8> {
    osc9_cleaned_from(s, 0)
}

/// The messages of the notification commands of `s`.
pub open spec fn osc9_messages(s: Seq<u8>) -> Seq<Seq<u8>> {
    osc9_messages_from(s, 0)
}

/// A stream in which no complete notification command opens keeps all its
/// bytes and yields no message.
pub proof fn lemma_no_osc9(s: Seq<u8>, i: int)
    requires
        0 <= i <= s.len(),
        forall|k: int| i <= k < s.len() ==> osc9_at(s, k).is_none(),
    ensures
        osc9_cleaned_from(s, i) == s.subrange(i, s.len() as int),
        osc9_messages_from(s, i) == Seq::<Seq<u8>>::empty(),
    decreases s.len() - i,
{
    if i < s.len() {
        lemma_no_osc9(s, i + 1);
        assert(seq![s[i]] + s.subrange(i + 1, s.len() as int) =~= s.subrange(i, s.len() as int));
    } else {
        assert(s.subrange(i, s.len() as int) =~= Seq::<u8>::empty());
    }
}

/// Lifting notifications out only ever removes bytes.
pub proof fn lemma_osc9_cleaned_len(s: Seq<u8>, i: int)
    requires
        0 <= i <= s.len(),
    ensures
        osc9_cleaned_from(s, i).len() <= s.len() - i,
    decreases s.len() - i,
{
    if i < s.len() {
        match osc9_at(s, i) {
            Some((e, next)) => {
                lemma_find_terminator(s, i + 4);
                if i < next <= s.len() {
                    lemma_osc9_cleaned_len(s, next);
                }
            },
            None => {
                lemma_osc9_cleaned_len(s, i + 1);
            },
        }
    }
}

/// The texts of a list of strings.
pub open spec fn texts(list: Seq<String>) -> Seq<Seq<char>> {
    Seq::new(list.len(), |k: int| list[k]@)
}

/// Each message decoded leniently.
pub open spec fn lossy_texts(messages: Seq<Seq<u8>>) -> Seq<Seq<char>> {
    Seq::new(messages.len(), |k: int| utf8_lossy(messages[k]))
}

/// Takes every complete notification command (`ESC ] 9 ; message`, ended by
/// a bell or by `ESC \`) out of `data`. Returns the remaining bytes and the
/// messages in stream order, decoded leniently. A command without its
/// terminator stays in the bytes.
pub fn extract_osc9_notifications(data: &[u8]) -> (result: (Vec<u8>, Vec<String>))
    ensures
        result.0@ == osc9_cleaned(data@),
        texts(result.1@) == lossy_texts(osc9_messages(data@)),
{
    let mut notifications: Vec<String> = Vec::new();
    let mut cleaned: Vec<u8> = Vec::new();
    let mut i: usize = 0;
    let ghost mut seen: Seq<Seq<u8>> = Seq::empty();
    while i < data.len()
        invariant
            i <= data.len(),
            cleaned@ + osc9_cleaned_from(data@, i as int) == osc9_cleaned(data@),
            seen + osc9_messages_from(data@, i as int) == osc9_messages(data@),
            texts(notifications@) == lossy_texts(seen),
        decreases data.len() - i,
    {
        let mut next: Option<usize> = None;
        if data[i] == ESC && data.len() - i > 3 && data[i + 1] == 0x5d && data[i + 2] == 0x39
            && data[i + 3] == 0x3b {
            let start: usize = i + 4;
            match scan_terminator(data, start) {
                Some(end) => {
                    let message = lossy_string(slice_subrange(data, start, end));
                    proof {
                        let m = data@.subrange(start as int, end as int);
                        lemma_find_terminator(data@, start as int);
                        assert(texts(notifications@).len() == notifications@.len());
                        assert(lossy_texts(seen).len() == seen.len());
                        assert forall|k: int| 0 <= k < seen.len() implies texts(
                            notifications@.push(message),
                        )[k] == lossy_texts(seen.push(m))[k] by {
                            assert(texts(notifications@)[k] == lossy_texts(seen)[k]);
                        }
                        assert(texts(notifications@.push(message)) =~= lossy_texts(seen.push(m)));
                        assert(seen.push(m) + osc9_messages_from(
                            data@,
                            end + terminator_len(data@, end as int),
                        ) =~= seen + (seq![m] + osc9_messages_from(
                            data@,
                            end + terminator_len(data@, end as int),
                        )));
                        seen = seen.push(m);
                    }
                    notifications.push(message);
                    if data[end] == BEL {
                        next = Some(end + 1);
                    } else {
                        next = Some(end + 2);
                    }
                },
                None => {},
            }
        }
        match next {
            Some(n) => {
                i = n;
            },
            None => {
                proof {
                    assert(osc9_at(data@, i as int).is_none());
                    assert(cleaned@.push(data@[i as int]) + osc9_cleaned_from(data@, i + 1)
                        =~= cleaned@ + (seq![data@[i as int]] + osc9_cleaned_from(data@, i + 1)));
                }
                cleaned.push(data[i]);
                i += 1;
            },
        }
    }
    proof {
        assert(osc9_cleaned_from(data@, i as int) =~= Seq::<u8>::empty());
        assert(osc9_messages_from(data@, i as int) =~= Seq::<Seq<u8>>::empty());
        assert(cleaned@ + Seq::<u8>::empty() =~= cleaned@);
        assert(seen + Seq::<Seq<u8>>::empty() =~= seen);
    }
    (cleaned, notifications)
}

} // verus!
