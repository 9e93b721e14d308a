//! The in-band tool-call protocol parser.
//!
//! The model's token stream carries tool calls between four fixed sentinel
//! strings.  The parser consumes the stream in arbitrary chunks, buffers a
//! bounded lookahead, and emits text and call events.  The reference
//! semantics is `parse_rest` over the whole byte stream; the streaming
//! machine is proved to compute exactly that, however the stream is cut.
use vstd::prelude::*;
use crate::textops::{
    find_first, match_at, strip_spec, lemma_find_from_props, lemma_find_from_is,
    lemma_find_extend_found,
};

verus! {

// ---------------------------------------------------------------------------
// Sentinels
// ---------------------------------------------------------------------------
/// `FN_NAME`: the marker opening a tool name.
pub open spec fn w_name() -> Seq<u8> {
    seq![
        0xe2u8, 0x9cu8, 0xbfu8, 0x46u8, 0x55u8, 0x4eu8, 0x43u8, 0x54u8, 0x49u8, 0x4fu8, 0x4eu8,
        0xe2u8, 0x9cu8, 0xbfu8,
    ]
}

/// `FN_ARGS`: the marker opening the argument body.
pub open spec fn w_args() -> Seq<u8> {
    seq![0xe2u8, 0x9cu8, 0xbfu8, 0x41u8, 0x52u8, 0x47u8, 0x53u8, 0xe2u8, 0x9cu8, 0xbfu8]
}

/// `FN_RESULT`: the marker opening a fed-back result.
pub open spec fn w_result() -> Seq<u8> {
    seq![
        0xe2u8, 0x9cu8, 0xbfu8, 0x52u8, 0x45u8, 0x53u8, 0x55u8, 0x4cu8, 0x54u8, 0xe2u8, 0x9cu8,
        0xbfu8,
    ]
}

/// `FN_EXIT`: the marker closing a call round.
pub open spec fn w_exit() -> Seq<u8> {
    seq![
        0xe2u8, 0x9cu8, 0xbfu8, 0x52u8, 0x45u8, 0x54u8, 0x55u8, 0x52u8, 0x4eu8, 0xe2u8, 0x9cu8,
        0xbfu8,
    ]
}

/// The stop word numbered `w`, in the protocol's search order.
pub open spec fn stop_word(w: int) -> Seq<u8>
    recommends
        0 <= w < 4,
{
    if w == 0 {
        w_name()
    } else if w == 1 {
        w_args()
    } else if w == 2 {
        w_result()
    } else {
        w_exit()
    }
}

/// The lookahead bound: twice the longest sentinel plus slack.
pub open spec fn max_lookahead() -> int {
    34
}

fn push_marker_bytes(v: &mut Vec<u8>, which: usize)
    requires
        which < 4,
    ensures
        final(v)@ == old(v)@ + stop_word(which as int),
{
    v.push(0xe2);
    v.push(0x9c);
    v.push(0xbf);
    if which == 0 {
        v.push(0x46);
        v.push(0x55);
        v.push(0x4e);
        v.push(0x43);
        v.push(0x54);
        v.push(0x49);
        v.push(0x4f);
        v.push(0x4e);
    } else if which == 1 {
        v.push(0x41);
        v.push(0x52);
        v.push(0x47);
        v.push(0x53);
    } else if which == 2 {
        v.push(0x52);
        v.push(0x45);
        v.push(0x53);
        v.push(0x55);
        v.push(0x4c);
        v.push(0x54);
    } else {
        v.push(0x52);
        v.push(0x45);
        v.push(0x54);
        v.push(0x55);
        v.push(0x52);
        v.push(0x4e);
    }
    v.push(0xe2);
    v.push(0x9c);
    v.push(0xbf);
    proof {
        assert(v@ =~= old(v)@ + stop_word(which as int));
    }
}

/// The byte string of a sentinel.
pub fn marker_bytes(which: usize) -> (r: Vec<u8>)
    requires
        which < 4,
    ensures
        r@ == stop_word(which as int),
{
    let mut v: Vec<u8> = Vec::new();
    push_marker_bytes(&mut v, which);
    v
}

// ---------------------------------------------------------------------------
// The reference semantics
// ---------------------------------------------------------------------------
/// The parser's three states.
#[derive(Clone, Copy, PartialEq, Eq, Structural, Debug)]
pub enum PState {
    /// Scanning plain text for the next `FN_NAME`.
    Awaiting,
    /// Between `FN_NAME` and `FN_ARGS`: reading a tool name.
    Name,
    /// After `FN_ARGS`: reading the argument body up to the next stop word.
    Args,
}

/// What a whole model turn parses to: user-facing text, reasoning text, and
/// the tool calls as (name, args) pairs after stripping.
pub ghost struct ParseOutcome {
    pub content: Seq<u8>,
    pub reasoning: Seq<u8>,
    pub calls: Seq<(Seq<u8>, Seq<u8>)>,
}

pub open spec fn empty_outcome() -> ParseOutcome {
    ParseOutcome { content: Seq::empty(), reasoning: Seq::empty(), calls: Seq::empty() }
}

/// Prepend text, classified: before the first call it is content, after it
/// is reasoning.
pub open spec fn out_text(seen: bool, t: Seq<u8>, o: ParseOutcome) -> ParseOutcome {
    if seen {
        ParseOutcome { content: o.content, reasoning: t + o.reasoning, calls: o.calls }
    } else {
        ParseOutcome { content: t + o.content, reasoning: o.reasoning, calls: o.calls }
    }
}

/// Prepend a completed call.
pub open spec fn out_call(c: (Seq<u8>, Seq<u8>), o: ParseOutcome) -> ParseOutcome {
    ParseOutcome { content: o.content, reasoning: o.reasoning, calls: seq![c] + o.calls }
}

/// Pick the better stop-word hit: lower index wins, earlier word on a tie.
pub open spec fn better_hit(cur: Option<(int, int)>, idx: Option<int>, which: int) -> Option<
    (int, int),
> {
    match idx {
        None => cur,
        Some(i) => match cur {
            None => Some((i, which)),
            Some(c) => if i < c.0 {
                Some((i, which))
            } else {
                cur
            },
        },
    }
}

/// The earliest stop-word occurrence in `input`: its index and which word.
pub open spec fn stop_hit(input: Seq<u8>) -> Option<(int, int)> {
    better_hit(
        better_hit(
            better_hit(
                better_hit(None, find_first(input, w_name()), 0),
                find_first(input, w_args()),
                1,
            ),
            find_first(input, w_result()),
            2,
        ),
        find_first(input, w_exit()),
        3,
    )
}

/// What a byte stream parses to from a given machine configuration.  This is
/// the reference: the streaming machine computes it for the whole consumed
/// stream, whatever the chunking.
pub open spec fn parse_rest(st: PState, seen: bool, name: Seq<u8>, input: Seq<u8>) -> ParseOutcome
    decreases input.len(),
    when true
    via parse_rest_dec
{
    match st {
        PState::Awaiting => match find_first(input, w_name()) {
            None => out_text(seen, input, empty_outcome()),
            Some(i) => out_text(
                seen,
                input.subrange(0, i),
                parse_rest(
                    PState::Name,
                    true,
                    Seq::empty(),
                    input.subrange(i + w_name().len(), input.len() as int),
                ),
            ),
        },
        PState::Name => match find_first(input, w_args()) {
            None => out_text(seen, input, empty_outcome()),
            Some(i) => parse_rest(
                PState::Args,
                true,
                strip_spec(input.subrange(0, i)),
                input.subrange(i + w_args().len(), input.len() as int),
            ),
        },
        PState::Args => match stop_hit(input) {
            None => ParseOutcome {
                content: Seq::empty(),
                reasoning: Seq::empty(),
                calls: seq![(name, strip_spec(input))],
            },
            Some(h) => out_call(
                (name, strip_spec(input.subrange(0, h.0))),
                parse_rest(
                    if h.1 == 0 {
                        PState::Name
                    } else {
                        PState::Awaiting
                    },
                    true,
                    if h.1 == 0 {
                        Seq::empty()
                    } else {
                        name
                    },
                    input.subrange(h.0 + stop_word(h.1).len(), input.len() as int),
                ),
            ),
        },
    }
}

#[via_fn]
proof fn parse_rest_dec(st: PState, seen: bool, name: Seq<u8>, input: Seq<u8>) {
    match st {
        PState::Awaiting => {
            lemma_find_from_props(input, w_name(), 0);
        },
        PState::Name => {
            lemma_find_from_props(input, w_args(), 0);
        },
        PState::Args => {
            lemma_stop_hit_props(input);
        },
    }
}

/// What `stop_hit` promises: a hit is a genuine first occurrence over all
/// four words; no hit means no word occurs at all.
pub proof fn lemma_stop_hit_props(input: Seq<u8>)
    ensures
        match stop_hit(input) {
            Some(h) => {
                &&& 0 <= h.1 < 4
                &&& match_at(input, stop_word(h.1), h.0)
                &&& 0 <= h.0 && h.0 + stop_word(h.1).len() <= input.len()
                &&& forall|j: int, w: int|
                    0 <= w < 4 && 0 <= j < h.0 ==> !match_at(input, stop_word(w), j)
                &&& forall|w: int| 0 <= w < h.1 ==> !match_at(input, stop_word(w), h.0)
            },
            None => forall|j: int, w: int| 0 <= w < 4 ==> !match_at(input, stop_word(w), j),
        },
{
    lemma_find_from_props(input, w_name(), 0);
    lemma_find_from_props(input, w_args(), 0);
    lemma_find_from_props(input, w_result(), 0);
    lemma_find_from_props(input, w_exit(), 0);
    match stop_hit(input) {
        Some(h) => {
            assert forall|j: int, w: int|
                0 <= w < 4 && 0 <= j < h.0 implies !match_at(input, stop_word(w), j) by {
                if match_at(input, stop_word(w), j) {
                    if w == 0 {
                        assert(find_first(input, w_name()) is Some);
                        let f = find_first(input, w_name()).unwrap();
                        assert(f <= j);
                    } else if w == 1 {
                        let f = find_first(input, w_args()).unwrap();
                        assert(f <= j);
                    } else if w == 2 {
                        let f = find_first(input, w_result()).unwrap();
                        assert(f <= j);
                    } else {
                        let f = find_first(input, w_exit()).unwrap();
                        assert(f <= j);
                    }
                }
            }
        },
        None => {
            assert forall|j: int, w: int|
                0 <= w < 4 implies !match_at(input, stop_word(w), j) by {
                if match_at(input, stop_word(w), j) {
                    assert(j >= 0);
                }
            }
        },
    }
}

/// A stop word cannot start strictly inside another occurrence that ends
/// later: every word begins with the three flower bytes, which can only
/// recur at a word's closing flower, and the closing-flower case is ruled
/// out by the length bound.
proof fn lemma_words_disjoint(s: Seq<u8>, x: int, wx: int, y: int, wy: int)
    requires
        0 <= wx < 4,
        0 <= wy < 4,
        match_at(s, stop_word(wy), y),
        y <= x,
        x < y + stop_word(wy).len(),
        x + stop_word(wx).len() < y + stop_word(wy).len(),
    ensures
        !match_at(s, stop_word(wx), x),
{
    if match_at(s, stop_word(wx), x) {
        let d = x - y;
        assert(s[x] == stop_word(wx)[0]);
        assert(s[x] == stop_word(wy)[d]);
        assert(stop_word(wx)[0] == 0xe2);
        // inside any word, 0xe2 appears only at the opening or closing flower
        assert(stop_word(wy)[d] == 0xe2 ==> d == 0 || d == stop_word(wy).len() - 3);
        if d == 0 {
            assert(stop_word(wx).len() < stop_word(wy).len());
        } else {
            assert(d == stop_word(wy).len() - 3);
            assert(x + stop_word(wx).len() < x + 3);
        }
    }
}

/// The first hit over all four words, characterised: a match with no match
/// of any word before it and no earlier-priority word at the same index is
/// what `stop_hit` returns.
pub proof fn lemma_stop_hit_is(input: Seq<u8>, i: int, wv: int)
    requires
        0 <= wv < 4,
        match_at(input, stop_word(wv), i),
        forall|j: int, w: int| 0 <= w < 4 && 0 <= j < i ==> !match_at(input, stop_word(w), j),
        forall|w: int| 0 <= w < wv ==> !match_at(input, stop_word(w), i),
    ensures
        stop_hit(input) == Some((i, wv)),
{
    lemma_find_from_props(input, w_name(), 0);
    lemma_find_from_props(input, w_args(), 0);
    lemma_find_from_props(input, w_result(), 0);
    lemma_find_from_props(input, w_exit(), 0);
    let f0 = find_first(input, w_name());
    let f1 = find_first(input, w_args());
    let f2 = find_first(input, w_result());
    let f3 = find_first(input, w_exit());
    assert(f0 matches Some(j) ==> j >= i && (j == i ==> 0 >= wv)) by {
        match f0 {
            Some(j) => {
                assert(match_at(input, stop_word(0), j));
            },
            None => {},
        }
    }
    assert(f1 matches Some(j) ==> j >= i && (j == i ==> 1 >= wv)) by {
        match f1 {
            Some(j) => {
                assert(match_at(input, stop_word(1), j));
            },
            None => {},
        }
    }
    assert(f2 matches Some(j) ==> j >= i && (j == i ==> 2 >= wv)) by {
        match f2 {
            Some(j) => {
                assert(match_at(input, stop_word(2), j));
            },
            None => {},
        }
    }
    assert(f3 matches Some(j) ==> j >= i && (j == i ==> 3 >= wv)) by {
        match f3 {
            Some(j) => {
                assert(match_at(input, stop_word(3), j));
            },
            None => {},
        }
    }
    if wv == 0 {
        lemma_find_from_is(input, w_name(), 0, i);
    } else if wv == 1 {
        lemma_find_from_is(input, w_args(), 0, i);
    } else if wv == 2 {
        lemma_find_from_is(input, w_result(), 0, i);
    } else {
        lemma_find_from_is(input, w_exit(), 0, i);
    }
}

/// A stop-word hit survives extension of the stream: nothing in the added
/// tail can create an earlier or equal hit.
pub proof fn lemma_stop_hit_extend(buf: Seq<u8>, rest: Seq<u8>)
    requires
        stop_hit(buf) is Some,
    ensures
        stop_hit(buf + rest) == stop_hit(buf),
{
    let h = stop_hit(buf).unwrap();
    lemma_stop_hit_props(buf);
    let w = buf + rest;
    assert(match_at(w, stop_word(h.1), h.0));
    assert forall|j: int, v: int|
        0 <= v < 4 && 0 <= j < h.0 implies !match_at(w, stop_word(v), j) by {
        if match_at(w, stop_word(v), j) {
            if j + stop_word(v).len() <= buf.len() {
                assert(match_at(buf, stop_word(v), j));
            } else {
                // a cross-boundary match would overlap the known hit
                assert(h.0 + stop_word(h.1).len() <= buf.len());
                lemma_words_disjoint(w, h.0, h.1, j, v);
            }
        }
    }
    assert forall|v: int| 0 <= v < h.1 implies !match_at(w, stop_word(v), h.0) by {
        if match_at(w, stop_word(v), h.0) {
            if h.0 + stop_word(v).len() <= buf.len() {
                assert(match_at(buf, stop_word(v), h.0));
            } else {
                lemma_words_disjoint(w, h.0, h.1, h.0, v);
            }
        }
    }
    lemma_stop_hit_is(w, h.0, h.1);
}

/// Combine a finished left outcome with the outcome of the remainder.
pub open spec fn combine(d: ParseOutcome, o: ParseOutcome) -> ParseOutcome {
    ParseOutcome {
        content: d.content + o.content,
        reasoning: d.reasoning + o.reasoning,
        calls: d.calls + o.calls,
    }
}

/// Text appended to a finished outcome, by class.
pub open spec fn done_text(d: ParseOutcome, seen: bool, t: Seq<u8>) -> ParseOutcome {
    if seen {
        ParseOutcome { content: d.content, reasoning: d.reasoning + t, calls: d.calls }
    } else {
        ParseOutcome { content: d.content + t, reasoning: d.reasoning, calls: d.calls }
    }
}

proof fn lemma_combine_text(d: ParseOutcome, seen: bool, t: Seq<u8>, o: ParseOutcome)
    ensures
        combine(d, out_text(seen, t, o)) == combine(done_text(d, seen, t), o),
{
    if seen {
        assert(d.reasoning + (t + o.reasoning) =~= (d.reasoning + t) + o.reasoning);
    } else {
        assert(d.content + (t + o.content) =~= (d.content + t) + o.content);
    }
}

proof fn lemma_combine_call(d: ParseOutcome, c: (Seq<u8>, Seq<u8>), o: ParseOutcome)
    ensures
        combine(d, out_call(c, o)) == combine(
            ParseOutcome { content: d.content, reasoning: d.reasoning, calls: d.calls.push(c) },
            o,
        ),
{
    assert(d.calls + (seq![c] + o.calls) =~= d.calls.push(c) + o.calls);
}

/// Dropping a match-free prefix shifts the first occurrence.
pub proof fn lemma_find_drop(w: Seq<u8>, n: Seq<u8>, k: int)
    requires
        0 <= k <= w.len(),
        forall|m: int| 0 <= m < k ==> !match_at(w, n, m),
    ensures
        find_first(w.subrange(k, w.len() as int), n) == (match find_first(w, n) {
            Some(j) => Some(j - k),
            None => None::<int>,
        }),
{
    let t = w.subrange(k, w.len() as int);
    lemma_find_from_props(w, n, 0);
    assert forall|m: int| 0 <= m implies match_at(t, n, m) == match_at(w, n, m + k) by {
        if match_at(t, n, m) {
            assert forall|q: int| 0 <= q < n.len() implies w[m + k + q] == n[q] by {
                assert(t[m + q] == n[q]);
            }
            assert(match_at(w, n, m + k));
        }
        if match_at(w, n, m + k) {
            assert forall|q: int| 0 <= q < n.len() implies t[m + q] == n[q] by {
                assert(w[m + k + q] == n[q]);
            }
            assert(match_at(t, n, m));
        }
    }
    match find_first(w, n) {
        Some(j) => {
            assert(j >= k);
            assert(match_at(t, n, j - k));
            assert forall|m: int| 0 <= m < j - k implies !match_at(t, n, m) by {
                if match_at(t, n, m) {
                    assert(match_at(w, n, m + k));
                }
            }
            lemma_find_from_is(t, n, 0, j - k);
        },
        None => {
            lemma_find_from_props(t, n, 0);
            if find_first(t, n) is Some {
                let m = find_first(t, n).unwrap();
                assert(match_at(t, n, m));
                assert(match_at(w, n, m + k));
            }
        },
    }
}


// ---------------------------------------------------------------------------
// Transition lemmas: one streaming step computes the reference semantics
// ---------------------------------------------------------------------------
/// Consuming a found `FN_NAME` is sound under any future input.
proof fn lemma_step_name_hit(buf: Seq<u8>, rest: Seq<u8>, i: int, seen: bool, name: Seq<u8>)
    requires
        find_first(buf, w_name()) == Some(i),
    ensures
        parse_rest(PState::Awaiting, seen, name, buf + rest) == out_text(
            seen,
            buf.subrange(0, i),
            parse_rest(
                PState::Name,
                true,
                Seq::empty(),
                buf.subrange(i + w_name().len(), buf.len() as int) + rest,
            ),
        ),
{
    lemma_find_from_props(buf, w_name(), 0);
    lemma_find_extend_found(buf, rest, w_name(), i);
    let w = buf + rest;
    assert(w.subrange(0, i) =~= buf.subrange(0, i));
    assert(w.subrange(i + w_name().len(), w.len() as int) =~= buf.subrange(
        i + w_name().len(),
        buf.len() as int,
    ) + rest);
}

/// Consuming a found `FN_ARGS` is sound under any future input.
proof fn lemma_step_args_hit(buf: Seq<u8>, rest: Seq<u8>, i: int, seen: bool, name: Seq<u8>)
    requires
        find_first(buf, w_args()) == Some(i),
    ensures
        parse_rest(PState::Name, seen, name, buf + rest) == parse_rest(
            PState::Args,
            true,
            strip_spec(buf.subrange(0, i)),
            buf.subrange(i + w_args().len(), buf.len() as int) + rest,
        ),
{
    lemma_find_from_props(buf, w_args(), 0);
    lemma_find_extend_found(buf, rest, w_args(), i);
    let w = buf + rest;
    assert(w.subrange(0, i) =~= buf.subrange(0, i));
    assert(w.subrange(i + w_args().len(), w.len() as int) =~= buf.subrange(
        i + w_args().len(),
        buf.len() as int,
    ) + rest);
}

/// Completing a call at a found stop word is sound under any future input.
proof fn lemma_step_stop_hit(buf: Seq<u8>, rest: Seq<u8>, h: (int, int), seen: bool, name: Seq<u8>)
    requires
        stop_hit(buf) == Some(h),
    ensures
        parse_rest(PState::Args, seen, name, buf + rest) == out_call(
            (name, strip_spec(buf.subrange(0, h.0))),
            parse_rest(
                if h.1 == 0 {
                    PState::Name
                } else {
                    PState::Awaiting
                },
                true,
                if h.1 == 0 {
                    Seq::empty()
                } else {
                    name
                },
                buf.subrange(h.0 + stop_word(h.1).len(), buf.len() as int) + rest,
            ),
        ),
{
    lemma_stop_hit_props(buf);
    lemma_stop_hit_extend(buf, rest);
    let w = buf + rest;
    assert(w.subrange(0, h.0) =~= buf.subrange(0, h.0));
    assert(w.subrange(h.0 + stop_word(h.1).len(), w.len() as int) =~= buf.subrange(
        h.0 + stop_word(h.1).len(),
        buf.len() as int,
    ) + rest);
}

/// Flushing a lookahead-safe prefix as text is sound under any future
/// input: no marker can begin in the flushed part.
proof fn lemma_step_flush(buf: Seq<u8>, rest: Seq<u8>, k: int, seen: bool, name: Seq<u8>)
    requires
        find_first(buf, w_name()) is None,
        0 <= k,
        k + 13 <= buf.len(),
    ensures
        parse_rest(PState::Awaiting, seen, name, buf + rest) == out_text(
            seen,
            buf.subrange(0, k),
            parse_rest(PState::Awaiting, seen, name, buf.subrange(k, buf.len() as int) + rest),
        ),
{
    let w = buf + rest;
    let t = buf.subrange(k, buf.len() as int) + rest;
    assert(t =~= w.subrange(k, w.len() as int));
    crate::textops::lemma_find_none_extend(buf, rest, w_name());
    assert forall|m: int| 0 <= m < k implies !match_at(w, w_name(), m) by {
        assert(m + w_name().len() <= buf.len());
    }
    lemma_find_drop(w, w_name(), k);
    lemma_find_from_props(w, w_name(), 0);
    match find_first(w, w_name()) {
        None => {
            assert(buf.subrange(0, k) + t =~= w);
            if seen {
                assert(buf.subrange(0, k) + (t + Seq::<u8>::empty()) =~= w + Seq::<u8>::empty());
            }
        },
        Some(j) => {
            assert(j >= k);
            assert(find_first(t, w_name()) == Some(j - k));
            assert(t.subrange(0, j - k) =~= w.subrange(k, j));
            assert(t.subrange(j - k + w_name().len(), t.len() as int) =~= w.subrange(
                j + w_name().len(),
                w.len() as int,
            ));
            assert(buf.subrange(0, k) + w.subrange(k, j) =~= w.subrange(0, j));
            let inner = parse_rest(
                PState::Name,
                true,
                Seq::empty(),
                w.subrange(j + w_name().len(), w.len() as int),
            );
            if seen {
                assert(buf.subrange(0, k) + (w.subrange(k, j) + inner.reasoning) =~= w.subrange(
                    0,
                    j,
                ) + inner.reasoning);
            } else {
                assert(buf.subrange(0, k) + (w.subrange(k, j) + inner.content) =~= w.subrange(
                    0,
                    j,
                ) + inner.content);
            }
        },
    }
}

// ---------------------------------------------------------------------------
// Events
// ---------------------------------------------------------------------------
/// What the parser reports while it runs.
pub enum ParseEvent {
    /// Reasoning text (after the first call marker).
    Reasoning(Vec<u8>),
    /// User-facing text (before any call marker).
    Content(Vec<u8>),
    /// Raw tool-call protocol bytes, for display only.
    ToolDelta(Vec<u8>),
    /// A completed call: stripped name and argument body.
    Call(Vec<u8>, Vec<u8>),
}

/// Concatenation of all content payloads.
pub open spec fn ev_content(evs: Seq<ParseEvent>) -> Seq<u8>
    decreases evs.len(),
{
    if evs.len() == 0 {
        Seq::empty()
    } else {
        ev_content(evs.subrange(0, evs.len() - 1)) + (match evs[evs.len() - 1] {
            ParseEvent::Content(v) => v@,
            _ => Seq::<u8>::empty(),
        })
    }
}

/// Concatenation of all reasoning payloads.
pub open spec fn ev_reasoning(evs: Seq<ParseEvent>) -> Seq<u8>
    decreases evs.len(),
{
    if evs.len() == 0 {
        Seq::empty()
    } else {
        ev_reasoning(evs.subrange(0, evs.len() - 1)) + (match evs[evs.len() - 1] {
            ParseEvent::Reasoning(v) => v@,
            _ => Seq::<u8>::empty(),
        })
    }
}

/// The calls reported, in order.
pub open spec fn ev_calls(evs: Seq<ParseEvent>) -> Seq<(Seq<u8>, Seq<u8>)>
    decreases evs.len(),
{
    if evs.len() == 0 {
        Seq::empty()
    } else {
        ev_calls(evs.subrange(0, evs.len() - 1)) + (match evs[evs.len() - 1] {
            ParseEvent::Call(n, a) => seq![(n@, a@)],
            _ => Seq::<(Seq<u8>, Seq<u8>)>::empty(),
        })
    }
}

proof fn lemma_ev_concat(x: Seq<ParseEvent>, y: Seq<ParseEvent>)
    ensures
        ev_content(x + y) == ev_content(x) + ev_content(y),
        ev_reasoning(x + y) == ev_reasoning(x) + ev_reasoning(y),
        ev_calls(x + y) == ev_calls(x) + ev_calls(y),
    decreases y.len(),
{
    if y.len() == 0 {
        assert(x + y =~= x);
        assert(ev_content(x) + ev_content(y) =~= ev_content(x));
        assert(ev_reasoning(x) + ev_reasoning(y) =~= ev_reasoning(x));
        assert(ev_calls(x) + ev_calls(y) =~= ev_calls(x));
    } else {
        let yp = y.subrange(0, y.len() - 1);
        lemma_ev_concat(x, yp);
        let w = x + y;
        assert(w.subrange(0, w.len() - 1) =~= x + yp);
        assert(w[w.len() - 1] == y[y.len() - 1]);
        assert(ev_content(x) + ev_content(y) =~= (ev_content(x) + ev_content(yp)) + (match y[y.len()
            - 1] {
            ParseEvent::Content(v) => v@,
            _ => Seq::<u8>::empty(),
        }));
        assert(ev_reasoning(x) + ev_reasoning(y) =~= (ev_reasoning(x) + ev_reasoning(yp)) + (match y[
            y.len() - 1] {
            ParseEvent::Reasoning(v) => v@,
            _ => Seq::<u8>::empty(),
        }));
        assert(ev_calls(x) + ev_calls(y) =~= (ev_calls(x) + ev_calls(yp)) + (match y[y.len() - 1] {
            ParseEvent::Call(n, a) => seq![(n@, a@)],
            _ => Seq::<(Seq<u8>, Seq<u8>)>::empty(),
        }));
    }
}

proof fn lemma_ev_one(e: ParseEvent)
    ensures
        ev_content(seq![e]) == (match e {
            ParseEvent::Content(v) => v@,
            _ => Seq::<u8>::empty(),
        }),
        ev_reasoning(seq![e]) == (match e {
            ParseEvent::Reasoning(v) => v@,
            _ => Seq::<u8>::empty(),
        }),
        ev_calls(seq![e]) == (match e {
            ParseEvent::Call(n, a) => seq![(n@, a@)],
            _ => Seq::<(Seq<u8>, Seq<u8>)>::empty(),
        }),
{
    let w = seq![e];
    assert(w.subrange(0, 0) =~= Seq::<ParseEvent>::empty());
    assert(ev_content(Seq::<ParseEvent>::empty()) =~= Seq::<u8>::empty());
    assert(ev_reasoning(Seq::<ParseEvent>::empty()) =~= Seq::<u8>::empty());
    assert(ev_calls(Seq::<ParseEvent>::empty()) =~= Seq::<(Seq<u8>, Seq<u8>)>::empty());
    assert(w[0] == e);
    assert(ev_content(w) =~= (match e {
        ParseEvent::Content(v) => v@,
        _ => Seq::<u8>::empty(),
    }));
    assert(ev_reasoning(w) =~= (match e {
        ParseEvent::Reasoning(v) => v@,
        _ => Seq::<u8>::empty(),
    }));
    assert(ev_calls(w) =~= (match e {
        ParseEvent::Call(n, a) => seq![(n@, a@)],
        _ => Seq::<(Seq<u8>, Seq<u8>)>::empty(),
    }));
}

/// The (name, args) views of collected calls.
pub open spec fn calls_view(cs: Seq<(Vec<u8>, Vec<u8>)>) -> Seq<(Seq<u8>, Seq<u8>)> {
    cs.map_values(|c: (Vec<u8>, Vec<u8>)| (c.0@, c.1@))
}

proof fn lemma_calls_view_push(s: Seq<(Vec<u8>, Vec<u8>)>, x: (Vec<u8>, Vec<u8>))
    ensures
        calls_view(s.push(x)) == calls_view(s).push((x.0@, x.1@)),
{
    assert(calls_view(s.push(x)) =~= calls_view(s).push((x.0@, x.1@)));
}

// ---------------------------------------------------------------------------
// The streaming machine
// ---------------------------------------------------------------------------
/// The machine invariant, over a configuration: for any future bytes,
/// parsing the whole consumed stream equals the finished outcome combined
/// with parsing the pending buffer from the current configuration.
pub open spec fn inv_at(
    consumed: Seq<u8>,
    done: ParseOutcome,
    st: PState,
    seen: bool,
    name: Seq<u8>,
    buf: Seq<u8>,
) -> bool {
    forall|rest: Seq<u8>|
        parse_rest(PState::Awaiting, false, Seq::empty(), #[trigger] (consumed + rest)) == combine(
            done,
            parse_rest(st, seen, name, buf + rest),
        )
}

proof fn lemma_update_text_step(
    consumed: Seq<u8>,
    gdone: ParseOutcome,
    gseen: bool,
    gname: Seq<u8>,
    gbuf: Seq<u8>,
    i: int,
)
    requires
        inv_at(consumed, gdone, PState::Awaiting, gseen, gname, gbuf),
        find_first(gbuf, w_name()) == Some(i),
    ensures
        inv_at(
            consumed,
            done_text(gdone, gseen, gbuf.subrange(0, i)),
            PState::Name,
            true,
            Seq::empty(),
            gbuf.subrange(i + w_name().len(), gbuf.len() as int),
        ),
{
    let nbuf = gbuf.subrange(i + w_name().len(), gbuf.len() as int);
    let ndone = done_text(gdone, gseen, gbuf.subrange(0, i));
    assert forall|rest: Seq<u8>|
        parse_rest(PState::Awaiting, false, Seq::empty(), #[trigger] (consumed + rest)) == combine(
            ndone,
            parse_rest(PState::Name, true, Seq::empty(), nbuf + rest),
        ) by {
        assert(parse_rest(PState::Awaiting, false, Seq::empty(), consumed + rest) == combine(
            gdone,
            parse_rest(PState::Awaiting, gseen, gname, gbuf + rest),
        ));
        lemma_step_name_hit(gbuf, rest, i, gseen, gname);
        lemma_combine_text(
            gdone,
            gseen,
            gbuf.subrange(0, i),
            parse_rest(PState::Name, true, Seq::empty(), nbuf + rest),
        );
    }
}

proof fn lemma_update_flush_step(
    consumed: Seq<u8>,
    gdone: ParseOutcome,
    gseen: bool,
    gname: Seq<u8>,
    gbuf: Seq<u8>,
    k: int,
)
    requires
        inv_at(consumed, gdone, PState::Awaiting, gseen, gname, gbuf),
        find_first(gbuf, w_name()) is None,
        0 <= k,
        k + 13 <= gbuf.len(),
    ensures
        inv_at(
            consumed,
            done_text(gdone, gseen, gbuf.subrange(0, k)),
            PState::Awaiting,
            gseen,
            gname,
            gbuf.subrange(k, gbuf.len() as int),
        ),
{
    let nbuf = gbuf.subrange(k, gbuf.len() as int);
    let ndone = done_text(gdone, gseen, gbuf.subrange(0, k));
    assert forall|rest: Seq<u8>|
        parse_rest(PState::Awaiting, false, Seq::empty(), #[trigger] (consumed + rest)) == combine(
            ndone,
            parse_rest(PState::Awaiting, gseen, gname, nbuf + rest),
        ) by {
        assert(parse_rest(PState::Awaiting, false, Seq::empty(), consumed + rest) == combine(
            gdone,
            parse_rest(PState::Awaiting, gseen, gname, gbuf + rest),
        ));
        lemma_step_flush(gbuf, rest, k, gseen, gname);
        lemma_combine_text(
            gdone,
            gseen,
            gbuf.subrange(0, k),
            parse_rest(PState::Awaiting, gseen, gname, nbuf + rest),
        );
    }
}

proof fn lemma_update_name_step(
    consumed: Seq<u8>,
    gdone: ParseOutcome,
    gseen: bool,
    gname: Seq<u8>,
    gbuf: Seq<u8>,
    i: int,
)
    requires
        inv_at(consumed, gdone, PState::Name, gseen, gname, gbuf),
        find_first(gbuf, w_args()) == Some(i),
    ensures
        inv_at(
            consumed,
            gdone,
            PState::Args,
            true,
            strip_spec(gbuf.subrange(0, i)),
            gbuf.subrange(i + w_args().len(), gbuf.len() as int),
        ),
{
    let nbuf = gbuf.subrange(i + w_args().len(), gbuf.len() as int);
    let nname = strip_spec(gbuf.subrange(0, i));
    assert forall|rest: Seq<u8>|
        parse_rest(PState::Awaiting, false, Seq::empty(), #[trigger] (consumed + rest)) == combine(
            gdone,
            parse_rest(PState::Args, true, nname, nbuf + rest),
        ) by {
        assert(parse_rest(PState::Awaiting, false, Seq::empty(), consumed + rest) == combine(
            gdone,
            parse_rest(PState::Name, gseen, gname, gbuf + rest),
        ));
        lemma_step_args_hit(gbuf, rest, i, gseen, gname);
    }
}

proof fn lemma_update_call_step(
    consumed: Seq<u8>,
    gdone: ParseOutcome,
    gseen: bool,
    gname: Seq<u8>,
    gbuf: Seq<u8>,
    h: (int, int),
)
    requires
        inv_at(consumed, gdone, PState::Args, gseen, gname, gbuf),
        stop_hit(gbuf) == Some(h),
    ensures
        inv_at(
            consumed,
            ParseOutcome {
                content: gdone.content,
                reasoning: gdone.reasoning,
                calls: gdone.calls.push((gname, strip_spec(gbuf.subrange(0, h.0)))),
            },
            if h.1 == 0 {
                PState::Name
            } else {
                PState::Awaiting
            },
            true,
            if h.1 == 0 {
                Seq::empty()
            } else {
                gname
            },
            gbuf.subrange(h.0 + stop_word(h.1).len(), gbuf.len() as int),
        ),
{
    let nbuf = gbuf.subrange(h.0 + stop_word(h.1).len(), gbuf.len() as int);
    let nst = if h.1 == 0 {
        PState::Name
    } else {
        PState::Awaiting
    };
    let nname = if h.1 == 0 {
        Seq::<u8>::empty()
    } else {
        gname
    };
    let c = (gname, strip_spec(gbuf.subrange(0, h.0)));
    let ndone = ParseOutcome {
        content: gdone.content,
        reasoning: gdone.reasoning,
        calls: gdone.calls.push(c),
    };
    assert forall|rest: Seq<u8>|
        parse_rest(PState::Awaiting, false, Seq::empty(), #[trigger] (consumed + rest)) == combine(
            ndone,
            parse_rest(nst, true, nname, nbuf + rest),
        ) by {
        assert(parse_rest(PState::Awaiting, false, Seq::empty(), consumed + rest) == combine(
            gdone,
            parse_rest(PState::Args, gseen, gname, gbuf + rest),
        ));
        lemma_step_stop_hit(gbuf, rest, h, gseen, gname);
        lemma_combine_call(gdone, c, parse_rest(nst, true, nname, nbuf + rest));
    }
}

/// The earliest stop word in the buffer, executable side.
fn stop_hit_exec(buf: &Vec<u8>) -> (r: Option<(usize, usize)>)
    ensures
        match r {
            Some(h) => h.1 < 4 && stop_hit(buf@) == Some((h.0 as int, h.1 as int)),
            None => stop_hit(buf@) is None,
        },
{
    let mut best: Option<(usize, usize)> = None;
    let mut w: usize = 0;
    while w < 4
        invariant
            w <= 4,
            match best {
                Some(b) => b.1 < 4,
                None => true,
            },
            spec_chain(buf@, w as int) == (match best {
                Some(b) => Some((b.0 as int, b.1 as int)),
                None => None::<(int, int)>,
            }),
        decreases 4 - w,
    {
        let word = marker_bytes(w);
        let f = crate::textops::find_sub(buf, &word);
        match f {
            Some(i) => {
                match best {
                    None => {
                        best = Some((i, w));
                    },
                    Some(b) => {
                        if i < b.0 {
                            best = Some((i, w));
                        }
                    },
                }
            },
            None => {},
        }
        w = w + 1;
    }
    proof {
        lemma_spec_chain_is_stop_hit(buf@);
    }
    best
}

/// The partial `stop_hit` fold after the first `w` words.
pub open spec fn spec_chain(input: Seq<u8>, w: int) -> Option<(int, int)>
    decreases w,
{
    if w <= 0 {
        None
    } else {
        better_hit(
            spec_chain(input, w - 1),
            find_first(input, stop_word(w - 1)),
            w - 1,
        )
    }
}

proof fn lemma_spec_chain_is_stop_hit(input: Seq<u8>)
    ensures
        spec_chain(input, 4) == stop_hit(input),
{
    reveal_with_fuel(spec_chain, 5);
}

/// The streaming tool-call parser.  Feed it chunks of the model's output;
/// read the classified text from `content` and `reasoning` and the calls
/// from `calls` after `finish`.
pub struct StreamParser {
    pub state: PState,
    pub seen: bool,
    pub buf: Vec<u8>,
    pub name: Vec<u8>,
    pub content: Vec<u8>,
    pub reasoning: Vec<u8>,
    pub calls: Vec<(Vec<u8>, Vec<u8>)>,
    pub consumed: Ghost<Seq<u8>>,
}

impl StreamParser {
    /// The finished part of the outcome.
    pub open spec fn done(&self) -> ParseOutcome {
        ParseOutcome {
            content: self.content@,
            reasoning: self.reasoning@,
            calls: calls_view(self.calls@),
        }
    }

    /// The machine invariant.
    pub open spec fn wf(&self) -> bool {
        inv_at(self.consumed@, self.done(), self.state, self.seen, self.name@, self.buf@)
    }

    /// A parser with nothing consumed.
    pub fn new() -> (r: StreamParser)
        ensures
            r.wf(),
            r.consumed@ == Seq::<u8>::empty(),
            r.content@ == Seq::<u8>::empty(),
            r.reasoning@ == Seq::<u8>::empty(),
            calls_view(r.calls@) == Seq::<(Seq<u8>, Seq<u8>)>::empty(),
    {
        let r = StreamParser {
            state: PState::Awaiting,
            seen: false,
            buf: Vec::new(),
            name: Vec::new(),
            content: Vec::new(),
            reasoning: Vec::new(),
            calls: Vec::new(),
            consumed: Ghost(Seq::empty()),
        };
        proof {
            assert(calls_view(r.calls@) =~= Seq::<(Seq<u8>, Seq<u8>)>::empty());
            assert forall|rest: Seq<u8>|
                parse_rest(
                    PState::Awaiting,
                    false,
                    Seq::empty(),
                    #[trigger] (r.consumed@ + rest),
                ) == combine(
                r.done(),
                parse_rest(r.state, r.seen, r.name@, r.buf@ + rest),
            ) by {
                assert(r.consumed@ + rest =~= rest);
                assert(r.buf@ + rest =~= rest);
                let o = parse_rest(PState::Awaiting, false, Seq::empty(), rest);
                assert(combine(r.done(), o).content =~= o.content);
                assert(combine(r.done(), o).reasoning =~= o.reasoning);
                assert(combine(r.done(), o).calls =~= o.calls);
            }
        }
        r
    }

    /// Drain the buffer: apply transitions until more input is needed.
    #[verifier::rlimit(100)]
    fn drain(&mut self, evs: &mut Vec<ParseEvent>)
        requires
            old(self).wf(),
        ensures
            final(self).wf(),
            final(self).consumed@ == old(self).consumed@,
            final(self).content@ == old(self).content@ + ev_content(final(evs)@.subrange(
                old(evs)@.len() as int,
                final(evs)@.len() as int,
            )),
            final(self).reasoning@ == old(self).reasoning@ + ev_reasoning(final(evs)@.subrange(
                old(evs)@.len() as int,
                final(evs)@.len() as int,
            )),
            calls_view(final(self).calls@) == calls_view(old(self).calls@) + ev_calls(
                final(evs)@.subrange(old(evs)@.len() as int, final(evs)@.len() as int),
            ),
            final(evs)@.subrange(0, old(evs)@.len() as int) == old(evs)@,
            old(evs)@.len() <= final(evs)@.len(),
            match final(self).state {
                PState::Awaiting => find_first(final(self).buf@, w_name()) is None,
                PState::Name => find_first(final(self).buf@, w_args()) is None,
                PState::Args => stop_hit(final(self).buf@) is None,
            },
    {
        let ghost evs0 = evs@;
        proof {
            assert(evs@.subrange(evs0.len() as int, evs@.len() as int) =~= Seq::<
                ParseEvent,
            >::empty());
            assert(evs@.subrange(0, evs0.len() as int) =~= evs0);
            assert(self.content@ =~= old(self).content@ + ev_content(
                Seq::<ParseEvent>::empty(),
            ));
            assert(self.reasoning@ =~= old(self).reasoning@ + ev_reasoning(
                Seq::<ParseEvent>::empty(),
            ));
            assert(calls_view(self.calls@) =~= calls_view(old(self).calls@) + ev_calls(
                Seq::<ParseEvent>::empty(),
            ));
        }
        loop
            invariant
                self.wf(),
                self.consumed@ == old(self).consumed@,
                evs0 == old(evs)@,
                evs@.len() >= evs0.len(),
                evs@.subrange(0, evs0.len() as int) == evs0,
                self.content@ == old(self).content@ + ev_content(evs@.subrange(
                    evs0.len() as int,
                    evs@.len() as int,
                )),
                self.reasoning@ == old(self).reasoning@ + ev_reasoning(evs@.subrange(
                    evs0.len() as int,
                    evs@.len() as int,
                )),
                calls_view(self.calls@) == calls_view(old(self).calls@) + ev_calls(evs@.subrange(
                    evs0.len() as int,
                    evs@.len() as int,
                )),
            decreases self.buf@.len(),
        {
            let ghost gbuf = self.buf@;
            let ghost gseen = self.seen;
            let ghost gname = self.name@;
            let ghost gdone = self.done();
            let ghost gdelta = evs@.subrange(evs0.len() as int, evs@.len() as int);
            let ghost gcontent = self.content@;
            let ghost greasoning = self.reasoning@;
            let ghost gcalls = calls_view(self.calls@);
            let ghost gcallsv = self.calls@;
            match self.state {
                PState::Awaiting => {
                    let wname = marker_bytes(0);
                    let blen = self.buf.len();
                    match crate::textops::find_sub(&self.buf, &wname) {
                        Some(i) => {
                            proof {
                                lemma_find_from_props(gbuf, w_name(), 0);
                                assert(i + wname@.len() <= blen);
                            }
                            let pre = crate::textops::sub_bytes(&self.buf, 0, i);
                            let tail = crate::textops::sub_bytes(
                                &self.buf,
                                i + wname.len(),
                                blen,
                            );
                            let e1 = if self.seen {
                                crate::textops::push_all(&mut self.reasoning, &pre);
                                ParseEvent::Reasoning(crate::textops::sub_bytes(&pre, 0, pre.len()))
                            } else {
                                crate::textops::push_all(&mut self.content, &pre);
                                ParseEvent::Content(crate::textops::sub_bytes(&pre, 0, pre.len()))
                            };
                            evs.push(e1);
                            evs.push(ParseEvent::ToolDelta(wname));
                            self.buf = tail;
                            self.state = PState::Name;
                            self.seen = true;
                            self.name = Vec::new();
                            proof {
                                lemma_update_text_step(
                                    old(self).consumed@,
                                    gdone,
                                    gseen,
                                    gname,
                                    gbuf,
                                    i as int,
                                );
                                assert(pre@ =~= gbuf.subrange(0, i as int));
                                assert(self.done() == done_text(
                                    gdone,
                                    gseen,
                                    gbuf.subrange(0, i as int),
                                ));
                                // event accounting
                                let nd = evs@.subrange(evs0.len() as int, evs@.len() as int);
                                let two = seq![evs@[evs@.len() - 2], evs@[evs@.len() - 1]];
                                assert(nd =~= gdelta + two);
                                lemma_ev_concat(gdelta, two);
                                assert(two =~= seq![evs@[evs@.len() - 2]] + seq![evs@[evs@.len()
                                    - 1]]);
                                lemma_ev_concat(
                                    seq![evs@[evs@.len() - 2]],
                                    seq![evs@[evs@.len() - 1]],
                                );
                                lemma_ev_one(evs@[evs@.len() - 2]);
                                lemma_ev_one(evs@[evs@.len() - 1]);
                                assert(self.content@ =~= old(self).content@ + ev_content(nd));
                                assert(self.reasoning@ =~= old(self).reasoning@ + ev_reasoning(nd));
                                assert(calls_view(self.calls@) =~= calls_view(old(self).calls@)
                                    + ev_calls(nd));
                            }
                        },
                        None => {
                            if self.buf.len() > 34 {
                                let yl = self.buf.len() - 17;
                                let k = crate::textops::boundary_at_or_before(&self.buf, yl);
                                if k > 0 {
                                    let pre = crate::textops::sub_bytes(&self.buf, 0, k);
                                    let tail = crate::textops::sub_bytes(
                                        &self.buf,
                                        k,
                                        self.buf.len(),
                                    );
                                    let e1 = if self.seen {
                                        crate::textops::push_all(&mut self.reasoning, &pre);
                                        ParseEvent::Reasoning(
                                            crate::textops::sub_bytes(&pre, 0, pre.len()),
                                        )
                                    } else {
                                        crate::textops::push_all(&mut self.content, &pre);
                                        ParseEvent::Content(
                                            crate::textops::sub_bytes(&pre, 0, pre.len()),
                                        )
                                    };
                                    evs.push(e1);
                                    self.buf = tail;
                                    proof {
                                        lemma_update_flush_step(
                                            old(self).consumed@,
                                            gdone,
                                            gseen,
                                            gname,
                                            gbuf,
                                            k as int,
                                        );
                                        assert(pre@ =~= gbuf.subrange(0, k as int));
                                        assert(self.done() == done_text(
                                            gdone,
                                            gseen,
                                            gbuf.subrange(0, k as int),
                                        ));
                                        let nd = evs@.subrange(
                                            evs0.len() as int,
                                            evs@.len() as int,
                                        );
                                        let one = seq![evs@[evs@.len() - 1]];
                                        assert(nd =~= gdelta + one);
                                        lemma_ev_concat(gdelta, one);
                                        lemma_ev_one(evs@[evs@.len() - 1]);
                                        assert(self.content@ =~= old(self).content@ + ev_content(
                                            nd,
                                        ));
                                        assert(self.reasoning@ =~= old(self).reasoning@
                                            + ev_reasoning(nd));
                                        assert(calls_view(self.calls@) =~= calls_view(
                                            old(self).calls@,
                                        ) + ev_calls(nd));
                                    }
                                } else {
                                    return ;
                                }
                            } else {
                                return ;
                            }
                        },
                    }
                },
                PState::Name => {
                    let wargs = marker_bytes(1);
                    let blen = self.buf.len();
                    match crate::textops::find_sub(&self.buf, &wargs) {
                        Some(i) => {
                            proof {
                                lemma_find_from_props(gbuf, w_args(), 0);
                                assert(i + wargs@.len() <= blen);
                            }
                            let raw = crate::textops::sub_bytes(&self.buf, 0, i);
                            let tail = crate::textops::sub_bytes(
                                &self.buf,
                                i + wargs.len(),
                                blen,
                            );
                            let mut delta = crate::textops::sub_bytes(&raw, 0, raw.len());
                            crate::textops::push_all(&mut delta, &wargs);
                            evs.push(ParseEvent::ToolDelta(delta));
                            self.name = crate::textops::strip_field(&raw);
                            self.buf = tail;
                            self.state = PState::Args;
                            self.seen = true;
                            proof {
                                lemma_update_name_step(
                                    old(self).consumed@,
                                    gdone,
                                    gseen,
                                    gname,
                                    gbuf,
                                    i as int,
                                );
                                assert(raw@ =~= gbuf.subrange(0, i as int));
                                assert(self.done() == gdone);
                                let nd = evs@.subrange(evs0.len() as int, evs@.len() as int);
                                let one = seq![evs@[evs@.len() - 1]];
                                assert(nd =~= gdelta + one);
                                lemma_ev_concat(gdelta, one);
                                lemma_ev_one(evs@[evs@.len() - 1]);
                                assert(self.content@ =~= old(self).content@ + ev_content(nd));
                                assert(self.reasoning@ =~= old(self).reasoning@ + ev_reasoning(nd));
                                assert(calls_view(self.calls@) =~= calls_view(old(self).calls@)
                                    + ev_calls(nd));
                            }
                        },
                        None => {
                            return ;
                        },
                    }
                },
                PState::Args => {
                    let blen = self.buf.len();
                    match stop_hit_exec(&self.buf) {
                        Some((i, w)) => {
                            proof {
                                lemma_stop_hit_props(gbuf);
                            }
                            let raw = crate::textops::sub_bytes(&self.buf, 0, i);
                            let word = marker_bytes(w);
                            proof {
                                assert(i + word@.len() <= blen);
                            }
                            let tail = crate::textops::sub_bytes(
                                &self.buf,
                                i + word.len(),
                                blen,
                            );
                            let args = crate::textops::strip_field(&raw);
                            let nm = crate::textops::sub_bytes(&self.name, 0, self.name.len());
                            evs.push(
                                ParseEvent::Call(
                                    crate::textops::sub_bytes(&nm, 0, nm.len()),
                                    crate::textops::sub_bytes(&args, 0, args.len()),
                                ),
                            );
                            if w != 3 {
                                evs.push(ParseEvent::ToolDelta(word));
                            }
                            self.calls.push((nm, args));
                            self.buf = tail;
                            if w == 0 {
                                self.state = PState::Name;
                                self.name = Vec::new();
                            } else {
                                self.state = PState::Awaiting;
                            }
                            self.seen = true;
                            proof {
                                lemma_update_call_step(
                                    old(self).consumed@,
                                    gdone,
                                    gseen,
                                    gname,
                                    gbuf,
                                    (i as int, w as int),
                                );
                                assert(raw@ =~= gbuf.subrange(0, i as int));
                                assert(nm@ =~= gname);
                                assert(args@ == strip_spec(gbuf.subrange(0, i as int)));
                                assert(self.calls@ =~= gcallsv.push((nm, args)));
                                lemma_calls_view_push(gcallsv, (nm, args));
                                assert(calls_view(self.calls@) =~= gcalls.push((
                                    gname,
                                    strip_spec(gbuf.subrange(0, i as int)),
                                )));
                                let nd = evs@.subrange(evs0.len() as int, evs@.len() as int);
                                if w != 3 {
                                    let two = seq![evs@[evs@.len() - 2], evs@[evs@.len() - 1]];
                                    assert(nd =~= gdelta + two);
                                    lemma_ev_concat(gdelta, two);
                                    assert(two =~= seq![evs@[evs@.len() - 2]] + seq![evs@[evs@.len()
                                        - 1]]);
                                    lemma_ev_concat(
                                        seq![evs@[evs@.len() - 2]],
                                        seq![evs@[evs@.len() - 1]],
                                    );
                                    lemma_ev_one(evs@[evs@.len() - 2]);
                                    lemma_ev_one(evs@[evs@.len() - 1]);
                                } else {
                                    let one = seq![evs@[evs@.len() - 1]];
                                    assert(nd =~= gdelta + one);
                                    lemma_ev_concat(gdelta, one);
                                    lemma_ev_one(evs@[evs@.len() - 1]);
                                }
                                assert(nm@.subrange(0, nm@.len() as int) =~= nm@);
                                assert(args@.subrange(0, args@.len() as int) =~= args@);
                                assert(ev_calls(nd) =~= ev_calls(gdelta).push((
                                    gname,
                                    strip_spec(gbuf.subrange(0, i as int)),
                                )));
                                assert(self.content@ =~= old(self).content@ + ev_content(nd));
                                assert(self.reasoning@ =~= old(self).reasoning@ + ev_reasoning(nd));
                                assert(calls_view(self.calls@) =~= calls_view(old(self).calls@)
                                    + ev_calls(nd));
                            }
                        },
                        None => {
                            return ;
                        },
                    }
                },
            }
        }
    }

    /// Feed one chunk of the model stream; events describe what became
    /// final because of it.
    pub fn push_chunk(&mut self, chunk: &Vec<u8>) -> (evs: Vec<ParseEvent>)
        requires
            old(self).wf(),
        ensures
            final(self).wf(),
            final(self).consumed@ == old(self).consumed@ + chunk@,
            final(self).content@ == old(self).content@ + ev_content(evs@),
            final(self).reasoning@ == old(self).reasoning@ + ev_reasoning(evs@),
            calls_view(final(self).calls@) == calls_view(old(self).calls@) + ev_calls(evs@),
    {
        crate::textops::push_all(&mut self.buf, chunk);
        proof {
            let c2 = self.consumed@ + chunk@;
            assert forall|rest: Seq<u8>|
                parse_rest(PState::Awaiting, false, Seq::empty(), #[trigger] (c2 + rest))
                    == combine(
                    self.done(),
                    parse_rest(self.state, self.seen, self.name@, self.buf@ + rest),
                ) by {
                assert(c2 + rest =~= self.consumed@ + (chunk@ + rest));
                assert(self.buf@ + rest =~= old(self).buf@ + (chunk@ + rest));
                assert(parse_rest(
                    PState::Awaiting,
                    false,
                    Seq::empty(),
                    self.consumed@ + (chunk@ + rest),
                ) == combine(
                    self.done(),
                    parse_rest(
                        self.state,
                        self.seen,
                        self.name@,
                        old(self).buf@ + (chunk@ + rest),
                    ),
                ));
            }
            self.consumed = Ghost(c2);
        }
        let mut evs: Vec<ParseEvent> = Vec::new();
        self.drain(&mut evs);
        proof {
            assert(evs@.subrange(0, evs@.len() as int) =~= evs@);
        }
        evs
    }

    /// End of stream: flush the residue.  Afterwards the accumulated
    /// content, reasoning and calls are exactly those of the reference
    /// parse of the whole consumed stream — whatever the chunking was.
    #[verifier::rlimit(100)]
    pub fn finish(&mut self) -> (evs: Vec<ParseEvent>)
        requires
            old(self).wf(),
        ensures
            final(self).content@ == parse_rest(
                PState::Awaiting,
                false,
                Seq::empty(),
                old(self).consumed@,
            ).content,
            final(self).reasoning@ == parse_rest(
                PState::Awaiting,
                false,
                Seq::empty(),
                old(self).consumed@,
            ).reasoning,
            calls_view(final(self).calls@) == parse_rest(
                PState::Awaiting,
                false,
                Seq::empty(),
                old(self).consumed@,
            ).calls,
            final(self).consumed@ == old(self).consumed@,
    {
        let mut evs: Vec<ParseEvent> = Vec::new();
        self.drain(&mut evs);
        let ghost total = parse_rest(
            PState::Awaiting,
            false,
            Seq::empty(),
            old(self).consumed@,
        );
        let ghost dbuf = self.buf@;
        let ghost dname = self.name@;
        let ghost ddone = self.done();
        let ghost dcalls = self.calls@;
        proof {
            assert(self.consumed@ + Seq::<u8>::empty() =~= self.consumed@);
            assert(self.buf@ + Seq::<u8>::empty() =~= self.buf@);
            assert(total == combine(
                ddone,
                parse_rest(self.state, self.seen, dname, dbuf),
            ));
        }
        match self.state {
            PState::Awaiting => {
                let pre = crate::textops::sub_bytes(&self.buf, 0, self.buf.len());
                if pre.len() > 0 {
                    if self.seen {
                        crate::textops::push_all(&mut self.reasoning, &pre);
                        evs.push(
                            ParseEvent::Reasoning(crate::textops::sub_bytes(&pre, 0, pre.len())),
                        );
                    } else {
                        crate::textops::push_all(&mut self.content, &pre);
                        evs.push(
                            ParseEvent::Content(crate::textops::sub_bytes(&pre, 0, pre.len())),
                        );
                    }
                }
                self.buf = Vec::new();
                proof {
                    assert(pre@ =~= dbuf);
                    assert(total.content =~= self.content@);
                    assert(total.reasoning =~= self.reasoning@);
                    assert(total.calls =~= calls_view(self.calls@));
                }
            },
            PState::Name => {
                let pre = crate::textops::sub_bytes(&self.buf, 0, self.buf.len());
                if pre.len() > 0 {
                    if self.seen {
                        crate::textops::push_all(&mut self.reasoning, &pre);
                        evs.push(
                            ParseEvent::Reasoning(crate::textops::sub_bytes(&pre, 0, pre.len())),
                        );
                    } else {
                        crate::textops::push_all(&mut self.content, &pre);
                        evs.push(
                            ParseEvent::Content(crate::textops::sub_bytes(&pre, 0, pre.len())),
                        );
                    }
                }
                self.buf = Vec::new();
                proof {
                    assert(pre@ =~= dbuf);
                    assert(total.content =~= self.content@);
                    assert(total.reasoning =~= self.reasoning@);
                    assert(total.calls =~= calls_view(self.calls@));
                }
            },
            PState::Args => {
                let raw = crate::textops::sub_bytes(&self.buf, 0, self.buf.len());
                let args = crate::textops::strip_field(&raw);
                let nm = crate::textops::sub_bytes(&self.name, 0, self.name.len());
                evs.push(
                    ParseEvent::Call(
                        crate::textops::sub_bytes(&nm, 0, nm.len()),
                        crate::textops::sub_bytes(&args, 0, args.len()),
                    ),
                );
                self.calls.push((nm, args));
                self.buf = Vec::new();
                proof {
                    assert(raw@ =~= dbuf);
                    assert(args@ == strip_spec(dbuf));
                    assert(nm@ =~= dname);
                    assert(self.calls@ =~= dcalls.push((nm, args)));
                    assert(calls_view(self.calls@) =~= calls_view(dcalls).push((dname, strip_spec(
                        dbuf,
                    ))));
                    assert(total.content =~= self.content@);
                    assert(total.reasoning =~= self.reasoning@);
                    assert(total.calls =~= calls_view(self.calls@));
                }
            },
        }
        evs
    }
}


// ---------------------------------------------------------------------------
// The protocol round trip
// ---------------------------------------------------------------------------
/// The three flower bytes that open every sentinel stand at `j`.
pub open spec fn flower_at(s: Seq<u8>, j: int) -> bool {
    s[j] == 0xe2 && s[j + 1] == 0x9c && s[j + 2] == 0xbf
}

/// A byte string without the flower head that every sentinel starts with.
pub open spec fn marker_free(s: Seq<u8>) -> bool {
    forall|j: int| 0 <= j && j + 3 <= s.len() ==> !#[trigger] flower_at(s, j)
}

/// The byte stream of a sequence of well-formed calls: each one is
/// `FN_NAME name FN_ARGS args FN_EXIT`.
pub open spec fn call_blocks(items: Seq<(Seq<u8>, Seq<u8>)>) -> Seq<u8>
    decreases items.len(),
{
    if items.len() == 0 {
        Seq::<u8>::empty()
    } else {
        w_name() + items[0].0 + w_args() + items[0].1 + w_exit() + call_blocks(
            items.subrange(1, items.len() as int),
        )
    }
}

/// Pre-text followed by the call blocks.
pub open spec fn synth_stream(pre: Seq<u8>, items: Seq<(Seq<u8>, Seq<u8>)>) -> Seq<u8> {
    pre + call_blocks(items)
}

/// A word occurs where it was concatenated.
proof fn lemma_match_at_concat(a: Seq<u8>, w: Seq<u8>, b: Seq<u8>)
    ensures
        match_at(a + (w + b), w, a.len() as int),
{
    let s = a + (w + b);
    assert forall|q: int| 0 <= q < w.len() implies s[a.len() + q] == w[q] by {}
}

/// No stop word starts inside a marker-free prefix when the byte right
/// after the prefix opens a sentinel.
proof fn lemma_no_word_in_free_prefix(s: Seq<u8>, a: Seq<u8>, v: int)
    requires
        0 <= v < 4,
        marker_free(a),
        a.len() <= s.len(),
        forall|k: int| 0 <= k < a.len() ==> s[k] == a[k],
        a.len() < s.len() ==> s[a.len() as int] == 0xe2,
    ensures
        forall|j: int| 0 <= j < a.len() ==> !match_at(s, stop_word(v), j),
{
    assert forall|j: int| 0 <= j < a.len() implies !match_at(s, stop_word(v), j) by {
        if match_at(s, stop_word(v), j) {
            assert(s[j] == stop_word(v)[0] && stop_word(v)[0] == 0xe2);
            assert(s[j + 1] == stop_word(v)[1] && stop_word(v)[1] == 0x9c);
            assert(s[j + 2] == stop_word(v)[2] && stop_word(v)[2] == 0xbf);
            if j + 3 <= a.len() {
                assert(flower_at(a, j));
            } else if j + 1 == a.len() {
                assert(s[j + 1] == 0xe2);
            } else {
                assert(j + 2 == a.len());
                assert(s[j + 2] == 0xe2);
            }
        }
    }
}

/// A marker-free string holds no stop word at all.
proof fn lemma_no_word_in_free(s: Seq<u8>, v: int)
    requires
        0 <= v < 4,
        marker_free(s),
    ensures
        find_first(s, stop_word(v)).is_none(),
{
    lemma_find_from_props(s, stop_word(v), 0);
    match find_first(s, stop_word(v)) {
        Some(j) => {
            assert(s[j] == stop_word(v)[0] && stop_word(v)[0] == 0xe2);
            assert(s[j + 1] == stop_word(v)[1] && stop_word(v)[1] == 0x9c);
            assert(s[j + 2] == stop_word(v)[2] && stop_word(v)[2] == 0xbf);
            assert(j + 3 <= s.len());
            assert(flower_at(s, j));
            assert(false);
        },
        None => {},
    }
}

/// The `FN_NAME` right after a marker-free pre-text is the first one.
#[verifier::rlimit(100)]
#[verifier::spinoff_prover]
proof fn lemma_first_name(pre: Seq<u8>, tail: Seq<u8>, seen: bool, nm: Seq<u8>)
    requires
        marker_free(pre),
    ensures
        parse_rest(PState::Awaiting, seen, nm, pre + (w_name() + tail)).calls == parse_rest(
            PState::Name,
            true,
            Seq::empty(),
            tail,
        ).calls,
{
    let s = pre + (w_name() + tail);
    let pl = pre.len() as int;
    assert(match_at(s, w_name(), pl)) by {
        lemma_match_at_concat(pre, w_name(), tail);
    }
    assert(pl < s.len() ==> s[pl] == 0xe2);
    lemma_no_word_in_free_prefix(s, pre, 0);
    assert forall|k: int| 0 <= k < pl implies !match_at(s, w_name(), k) by {
        assert(stop_word(0) == w_name());
        assert(!match_at(s, stop_word(0), k));
    }
    lemma_find_from_is(s, w_name(), 0, pl);
    assert(s.subrange(pl + w_name().len(), s.len() as int) =~= tail);
}

/// The `FN_ARGS` right after a marker-free name is the first one.
#[verifier::rlimit(100)]
#[verifier::spinoff_prover]
proof fn lemma_first_args(n: Seq<u8>, tail: Seq<u8>, seen: bool, nm: Seq<u8>)
    requires
        marker_free(n),
    ensures
        parse_rest(PState::Name, seen, nm, n + (w_args() + tail)) == parse_rest(
            PState::Args,
            true,
            strip_spec(n),
            tail,
        ),
{
    let s2 = n + (w_args() + tail);
    let nl = n.len() as int;
    assert(match_at(s2, w_args(), nl)) by {
        lemma_match_at_concat(n, w_args(), tail);
    }
    assert(nl < s2.len() ==> s2[nl] == 0xe2);
    lemma_no_word_in_free_prefix(s2, n, 1);
    assert forall|k: int| 0 <= k < nl implies !match_at(s2, w_args(), k) by {
        assert(stop_word(1) == w_args());
        assert(!match_at(s2, stop_word(1), k));
    }
    lemma_find_from_is(s2, w_args(), 0, nl);
    assert(s2.subrange(0, nl) =~= n);
    assert(s2.subrange(nl + w_args().len(), s2.len() as int) =~= tail);
}

/// The first two steps of a well-formed block.
#[verifier::rlimit(100)]
#[verifier::spinoff_prover]
proof fn lemma_block_head(pre: Seq<u8>, n: Seq<u8>, x: Seq<u8>, seen: bool, nm: Seq<u8>)
    requires
        marker_free(pre),
        marker_free(n),
    ensures
        parse_rest(
            PState::Awaiting,
            seen,
            nm,
            pre + (w_name() + (n + (w_args() + x))),
        ).calls == parse_rest(PState::Args, true, strip_spec(n), x).calls,
{
    lemma_first_name(pre, n + (w_args() + x), seen, nm);
    lemma_first_args(n, x, true, Seq::empty());
}

/// One well-formed call block parses to its call, and hands the tail on.
#[verifier::rlimit(100)]
#[verifier::spinoff_prover]
proof fn lemma_one_block(pre: Seq<u8>, n: Seq<u8>, a: Seq<u8>, bp: Seq<u8>, seen: bool, nm: Seq<u8>)
    requires
        marker_free(pre),
        marker_free(n),
        marker_free(a),
    ensures
        parse_rest(
            PState::Awaiting,
            seen,
            nm,
            pre + (w_name() + (n + (w_args() + (a + (w_exit() + bp))))),
        ).calls == seq![(strip_spec(n), strip_spec(a))] + parse_rest(
            PState::Awaiting,
            true,
            strip_spec(n),
            bp,
        ).calls,
{
    let x = a + (w_exit() + bp);
    let al = a.len() as int;
    lemma_block_head(pre, n, x, seen, nm);
    lemma_block_args(x, a, bp);
    assert(x.subrange(0, al) =~= a);
    assert(x.subrange(al + w_exit().len(), x.len() as int) =~= bp);
}

/// In `args ++ FN_EXIT ++ tail` with marker-free args, the earliest stop
/// word is the FN_EXIT.
#[verifier::rlimit(100)]
#[verifier::spinoff_prover]
proof fn lemma_block_args(s3: Seq<u8>, a: Seq<u8>, bp: Seq<u8>)
    requires
        marker_free(a),
        s3 == a + (w_exit() + bp),
    ensures
        stop_hit(s3) == Some((a.len() as int, 3int)),
{
    let al = a.len() as int;
    assert(match_at(s3, w_exit(), al)) by {
        lemma_match_at_concat(a, w_exit(), bp);
    }
    assert forall|j: int, w: int|
        0 <= w < 4 && 0 <= j < al implies !match_at(s3, stop_word(w), j) by {
        lemma_no_word_in_free_prefix(s3, a, w);
    }
    assert forall|w: int| 0 <= w < 3 implies !match_at(s3, stop_word(w), al) by {
        if match_at(s3, stop_word(w), al) {
            assert(s3[al + 3] == stop_word(w)[3]);
            assert(s3[al + 3] == w_exit()[3]);
            if w == 2 {
                assert(s3[al + 5] == stop_word(w)[5]);
                assert(s3[al + 5] == w_exit()[5]);
            }
        }
    }
    lemma_stop_hit_is(s3, al, 3);
}

/// Parser round trip: a stream synthesised from `k` well-formed calls
/// parses to exactly those `k` calls, names and argument bodies stripped of
/// whitespace and colon decoration, in order — whatever text stands before
/// or between them and whatever the starting classification was.
#[verifier::rlimit(100)]
#[verifier::spinoff_prover]
pub proof fn lemma_parser_round_trip(
    pre: Seq<u8>,
    items: Seq<(Seq<u8>, Seq<u8>)>,
    seen: bool,
    nm: Seq<u8>,
)
    requires
        marker_free(pre),
        forall|i: int|
            0 <= i < items.len() ==> marker_free(#[trigger] items[i].0) && marker_free(items[i].1),
    ensures
        parse_rest(PState::Awaiting, seen, nm, synth_stream(pre, items)).calls
            == items.map_values(|c: (Seq<u8>, Seq<u8>)| (strip_spec(c.0), strip_spec(c.1))),
    decreases items.len(),
{
    let s = synth_stream(pre, items);
    let mapped = items.map_values(|c: (Seq<u8>, Seq<u8>)| (strip_spec(c.0), strip_spec(c.1)));
    if items.len() == 0 {
        assert(s =~= pre);
        lemma_no_word_in_free(pre, 0);
        assert(parse_rest(PState::Awaiting, seen, nm, s).calls =~= mapped);
    } else {
        let n = items[0].0;
        let a = items[0].1;
        let rest = items.subrange(1, items.len() as int);
        let bp = call_blocks(rest);
        assert(s =~= pre + (w_name() + (n + (w_args() + (a + (w_exit() + bp))))));
        lemma_one_block(pre, n, a, bp, seen, nm);
        assert forall|i: int|
            0 <= i < rest.len() implies marker_free(#[trigger] rest[i].0) && marker_free(
            rest[i].1,
        ) by {
            assert(rest[i] == items[i + 1]);
        }
        lemma_parser_round_trip(Seq::<u8>::empty(), rest, true, strip_spec(n));
        assert(synth_stream(Seq::<u8>::empty(), rest) =~= bp);
        let inner = parse_rest(PState::Awaiting, true, strip_spec(n), bp);
        assert(inner.calls == rest.map_values(
            |c: (Seq<u8>, Seq<u8>)| (strip_spec(c.0), strip_spec(c.1)),
        ));
        assert(parse_rest(PState::Awaiting, seen, nm, s).calls =~= mapped) by {
            assert(parse_rest(PState::Awaiting, seen, nm, s).calls == seq![
                (strip_spec(n), strip_spec(a)),
            ] + inner.calls);
            assert(mapped[0] == (strip_spec(n), strip_spec(a)));
            assert forall|i: int| 0 <= i < mapped.len() implies mapped[i] == (seq![
                (strip_spec(n), strip_spec(a)),
            ] + inner.calls)[i] by {
                if i > 0 {
                    assert(mapped[i] == (strip_spec(items[i].0), strip_spec(items[i].1)));
                    assert(rest[i - 1] == items[i]);
                }
            }
        }
    }
}

} // verus!

