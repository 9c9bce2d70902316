use vstd::prelude::*;
use crate::text::{chars_of, slice_chars, string_from_chars};

verus! {

/// A character at which a chunk may end.
pub open spec fn is_break(c: char) -> bool {
    c == '\n' || c == ' '
}

/// The spans `[start, end)` of the chunks that a scan from `idx` cuts,
/// with the current chunk opened at `start` and the last break seen at
/// `lb`. Once a chunk holds `max` characters it is cut at the last break
/// after its start (or where the scan stands, if none), and the character
/// at the cut is dropped.
pub open spec fn chunk_spans(c: Seq<char>, max: int, idx: int, start: int, lb: int) -> Seq<(int, int)>
    decreases c.len() - idx,
{
    if idx >= c.len() || idx < 0 {
        if start < c.len() {
            seq![(start, c.len() as int)]
        } else {
            Seq::empty()
        }
    } else {
        let lb2 = if is_break(c[idx]) {
            idx
        } else {
            lb
        };
        if idx - start >= max {
            let split = if lb2 > start {
                lb2
            } else {
                idx
            };
            seq![(start, split)] + chunk_spans(c, max, idx + 1, split + 1, split + 1)
        } else {
            chunk_spans(c, max, idx + 1, start, lb2)
        }
    }
}

/// The texts of spans of `c`.
pub open spec fn span_texts(c: Seq<char>, spans: Seq<(int, int)>) -> Seq<Seq<char>> {
    spans.map_values(|s: (int, int)| c.subrange(s.0, s.1))
}

/// The chunks of a text for a token budget per chunk, at four characters
/// per token: none for an empty text, one empty chunk for a zero budget.
pub open spec fn chunks_of(text: Seq<char>, max_tokens: nat) -> Seq<Seq<char>> {
    let max_chars: int = if max_tokens * 4 > usize::MAX {
        usize::MAX as int
    } else {
        (max_tokens * 4) as int
    };
    if text.len() == 0 {
        Seq::empty()
    } else if max_chars == 0 {
        seq![Seq::empty()]
    } else {
        span_texts(text, chunk_spans(text, max_chars, 0, 0, 0))
    }
}

/// Splits a text into numbered chunks of about `max_tokens_per_chunk`
/// tokens each, preferring to cut at spaces and line breaks.
pub fn chunk_text_for_token_limit(text: &str, max_tokens_per_chunk: usize) -> (r: Vec<(usize, String)>)
    ensures
        r@.len() == chunks_of(text@, max_tokens_per_chunk as nat).len(),
        forall|i: int| 0 <= i < r@.len() ==> (#[trigger] r@[i]).0 == i && r@[i].1@ == chunks_of(
            text@,
            max_tokens_per_chunk as nat,
        )[i],
{
    let c = chars_of(text);
    let n = c.len();
    let mut out: Vec<(usize, String)> = Vec::new();
    if n == 0 {
        return out;
    }
    let max_chars: usize = if max_tokens_per_chunk > usize::MAX / 4 {
        usize::MAX
    } else {
        max_tokens_per_chunk * 4
    };
    if max_chars == 0 {
        out.push((0, String::new()));
        proof {
            assert(chunks_of(text@, max_tokens_per_chunk as nat) =~= seq![Seq::<char>::empty()]);
        }
        return out;
    }
    let ghost target = span_texts(c@, chunk_spans(c@, max_chars as int, 0, 0, 0));
    proof {
        assert(target == chunks_of(text@, max_tokens_per_chunk as nat));
    }
    let mut start: usize = 0;
    let mut idx: usize = 0;
    let mut last_break: usize = 0;
    while idx < n
        invariant
            n == c@.len(),
            max_chars > 0,
            start <= last_break <= idx <= n,
            target == span_texts(c@, chunk_spans(c@, max_chars as int, 0, 0, 0)),
            out@.len() <= idx,
            forall|i: int| 0 <= i < out@.len() ==> (#[trigger] out@[i]).0 == i,
            out@.map_values(|p: (usize, String)| p.1@) + span_texts(
                c@,
                chunk_spans(c@, max_chars as int, idx as int, start as int, last_break as int),
            ) == target,
        decreases n - idx,
    {
        let ghost before = out@.map_values(|p: (usize, String)| p.1@);
        let ghost rest0 = chunk_spans(c@, max_chars as int, idx as int, start as int, last_break as int);
        if c[idx] == '\n' || c[idx] == ' ' {
            last_break = idx;
        }
        if idx - start >= max_chars {
            let split = if last_break > start { last_break } else { idx };
            let piece = slice_chars(c.as_slice(), start, split);
            let s = string_from_chars(piece.as_slice());
            let k = out.len();
            out.push((k, s));
            proof {
                let rest1 = chunk_spans(c@, max_chars as int, idx + 1, split + 1, split + 1);
                assert(rest0 == seq![(start as int, split as int)] + rest1);
                assert(span_texts(c@, rest0) =~= seq![c@.subrange(start as int, split as int)] + span_texts(c@, rest1));
                assert(out@.map_values(|p: (usize, String)| p.1@) =~= before.push(c@.subrange(start as int, split as int)));
            }
            start = split + 1;
            last_break = start;
        }
        idx = idx + 1;
    }
    if start < n {
        let piece = slice_chars(c.as_slice(), start, n);
        let s = string_from_chars(piece.as_slice());
        let k = out.len();
        let ghost before = out@.map_values(|p: (usize, String)| p.1@);
        out.push((k, s));
        proof {
            assert(out@.map_values(|p: (usize, String)| p.1@) =~= before.push(c@.subrange(start as int, n as int)));
            assert(span_texts(c@, seq![(start as int, n as int)]) =~= seq![c@.subrange(start as int, n as int)]);
        }
    } else {
        proof {
            assert(span_texts(c@, Seq::<(int, int)>::empty()) =~= Seq::<Seq<char>>::empty());
        }
    }
    proof {
        assert(out@.map_values(|p: (usize, String)| p.1@) =~= target);
        assert forall|i: int| 0 <= i < out@.len() implies (#[trigger] out@[i]).1@ == target[i] by {
            assert(out@.map_values(|p: (usize, String)| p.1@)[i] == out@[i].1@);
        }
    }
    out
}

} // verus!
