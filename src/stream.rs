use vstd::prelude::*;
use crate::text::{chars_of, trim, trim_chars, find_chars, find_from, has_prefix, lemma_find_from_bounds, slice_chars, starts_with_chars, string_from_chars, strings_view};

verus! {

/// Marker that opens every data line.
pub open spec fn data_marker() -> Seq<char> {
    "data: "@
}

/// Payload that ends the stream.
pub open spec fn done_sentinel() -> Seq<char> {
    "[DONE]"@
}

/// The key whose string value is the text of a fragment.
pub open spec fn content_key() -> Seq<char> {
    "\"content\":"@
}

/// The payload of a data line, if `line` is one.
pub open spec fn payload(line: Seq<char>) -> Option<Seq<char>> {
    let t = trim(line);
    if has_prefix(t, data_marker()) {
        Some(t.skip(data_marker().len() as int))
    } else {
        None
    }
}

/// `line` is the end-of-stream line.
pub open spec fn is_done_line(line: Seq<char>) -> bool {
    payload(line) == Some(done_sentinel())
}

/// The text between the first two quotes of `s`, if it has two.
pub open spec fn first_quoted(s: Seq<char>) -> Option<Seq<char>> {
    match find_from(s, seq!['"'], 0) {
        Some(a) => match find_from(s.skip(a + 1), seq!['"'], 0) {
            Some(b) => Some(s.skip(a + 1).take(b)),
            None => None,
        },
        None => None,
    }
}

/// The fragment a line carries: the quoted text after the content key of
/// a data line's payload.
pub open spec fn line_fragment(line: Seq<char>) -> Option<Seq<char>> {
    match payload(line) {
        Some(p) => if p == done_sentinel() {
            None
        } else {
            match find_from(p, content_key(), 0) {
                Some(k) => first_quoted(p.skip(k + content_key().len())),
                None => None,
            }
        },
        None => None,
    }
}

/// The fragments that `lines` yield, given whether the stream had already
/// ended: nothing after the end-of-stream line.
pub open spec fn emitted(lines: Seq<Seq<char>>, finished: bool) -> Seq<Seq<char>>
    decreases lines.len(),
{
    if lines.len() == 0 || finished {
        Seq::empty()
    } else if is_done_line(lines[0]) {
        Seq::empty()
    } else {
        match line_fragment(lines[0]) {
            Some(f) => seq![f] + emitted(lines.drop_first(), false),
            None => emitted(lines.drop_first(), false),
        }
    }
}

/// Whether the stream has ended once `lines` are read.
pub open spec fn ended_after(lines: Seq<Seq<char>>, finished: bool) -> bool
    decreases lines.len(),
{
    if lines.len() == 0 || finished {
        finished
    } else {
        is_done_line(lines[0]) || ended_after(lines.drop_first(), false)
    }
}


/// What one line of the stream carries.
#[derive(Debug)]
pub enum LineEvent {
    Fragment(String),
    Done,
    Ignored,
}

/// Reads one line of the stream.
pub fn decode_line(line: &[char]) -> (r: LineEvent)
    ensures
        r is Done <==> is_done_line(line@),
        r matches LineEvent::Fragment(f) ==> line_fragment(line@) == Some(f@),
        r is Ignored ==> !is_done_line(line@) && line_fragment(line@) is None,
{
    let t = trim_chars(line);
    let ghost tt = trim(line@);
    let marker = chars_of("data: ");
    proof {
        reveal_strlit("data: ");
    }
    if !starts_with_chars(t.as_slice(), marker.as_slice()) {
        return LineEvent::Ignored;
    }
    let p = slice_chars(t.as_slice(), 6, t.len());
    proof {
        assert(p@ =~= tt.skip(6));
    }
    let done = chars_of("[DONE]");
    if p.len() == done.len() && starts_with_chars(p.as_slice(), done.as_slice()) {
        proof {
            assert(p@ =~= p@.take(done@.len() as int));
        }
        return LineEvent::Done;
    }
    proof {
        if p@ == done_sentinel() {
            assert(p@.take(done@.len() as int) =~= p@);
        }
    }
    let key = chars_of("\"content\":");
    match find_chars(p.as_slice(), key.as_slice(), 0) {
        None => LineEvent::Ignored,
        Some(k) => {
            proof {
                lemma_find_from_bounds(p@, key@, 0);
                reveal_strlit("\"content\":");
            }
            let after = slice_chars(p.as_slice(), k + 10, p.len());
            assert(after@ =~= p@.skip(k + content_key().len()));
            match quoted_text(after.as_slice()) {
                Some(f) => LineEvent::Fragment(f),
                None => LineEvent::Ignored,
            }
        },
    }
}

/// The text between the first two quotes of `s`.
fn quoted_text(s: &[char]) -> (r: Option<String>)
    ensures
        r matches Some(x) ==> first_quoted(s@) == Some(x@),
        r is None ==> first_quoted(s@) is None,
{
    let slen = s.len();
    let quote: [char; 1] = ['"'];
    let q = quote.as_slice();
    assert(q@ =~= seq!['"']);
    match find_chars(s, q, 0) {
        None => None,
        Some(a) => {
            proof {
                lemma_find_from_bounds(s@, seq!['"'], 0);
            }
            let after = slice_chars(s, a + 1, s.len());
            assert(after@ =~= s@.skip(a + 1));
            match find_chars(after.as_slice(), q, 0) {
                None => None,
                Some(b) => {
                    proof {
                        lemma_find_from_bounds(after@, seq!['"'], 0);
                    }
                    let piece = slice_chars(after.as_slice(), 0, b);
                    assert(piece@ =~= after@.take(b as int));
                    Some(string_from_chars(piece.as_slice()))
                },
            }
        },
    }
}


/// What `String::from_utf8_lossy` makes of a byte sequence.
pub uninterp spec fn lossy_text_of(b: Seq<u8>) -> Seq<char>;

/// Relies on `String::from_utf8_lossy`: the text of the bytes, with each
/// invalid sequence replaced; a function of the bytes alone.
#[verifier::external_body]
fn lossy_text(b: &[u8]) -> (r: String)
    ensures
        r@ == lossy_text_of(b@),
{
    String::from_utf8_lossy(b).into_owned()
}

/// Index of the first line feed of `b` at or after `i`, or its length.
pub open spec fn first_nl(b: Seq<u8>, i: int) -> int
    decreases b.len() - i,
{
    if i < 0 || i >= b.len() {
        b.len() as int
    } else if b[i] == 10u8 {
        i
    } else {
        first_nl(b, i + 1)
    }
}

/// The complete lines of a byte buffer (line feeds removed), and the bytes
/// after the last line feed.
pub open spec fn byte_lines(b: Seq<u8>) -> (Seq<Seq<u8>>, Seq<u8>)
    decreases b.len(),
{
    let k = first_nl(b, 0);
    if 0 <= k < b.len() {
        let rest = byte_lines(b.skip(k + 1));
        (seq![b.take(k)] + rest.0, rest.1)
    } else {
        (Seq::empty(), b)
    }
}

/// Byte lines read as text.
pub open spec fn texts_of(ls: Seq<Seq<u8>>) -> Seq<Seq<char>> {
    ls.map_values(|l: Seq<u8>| lossy_text_of(l))
}

proof fn lemma_first_nl_at(s: Seq<u8>, i: int, r: int)
    requires
        0 <= i <= r <= s.len(),
        forall|j: int| i <= j < r ==> s[j] != 10u8,
        r == s.len() || s[r] == 10u8,
    ensures
        first_nl(s, i) == r,
    decreases r - i,
{
    if i < r {
        lemma_first_nl_at(s, i + 1, r);
    }
}

proof fn lemma_first_nl_bounds(s: Seq<u8>, i: int)
    requires
        0 <= i <= s.len(),
    ensures
        i <= first_nl(s, i) <= s.len(),
        first_nl(s, i) < s.len() ==> s[first_nl(s, i)] == 10u8,
        forall|j: int| i <= j < first_nl(s, i) ==> s[j] != 10u8,
    decreases s.len() - i,
{
    if i < s.len() && s[i] != 10u8 {
        lemma_first_nl_bounds(s, i + 1);
    }
}

proof fn lemma_byte_lines_concat(x: Seq<u8>, y: Seq<u8>)
    ensures
        byte_lines(x + y) == (byte_lines(x).0 + byte_lines(byte_lines(x).1 + y).0, byte_lines(
            byte_lines(x).1 + y,
        ).1),
    decreases x.len(),
{
    let k = first_nl(x, 0);
    lemma_first_nl_bounds(x, 0);
    if k < x.len() {
        lemma_first_nl_bounds(x + y, 0);
        lemma_first_nl_at(x + y, 0, k);
        assert((x + y).take(k) =~= x.take(k));
        assert((x + y).skip(k + 1) =~= x.skip(k + 1) + y);
        lemma_byte_lines_concat(x.skip(k + 1), y);
        let l1 = byte_lines(x.skip(k + 1));
        assert(seq![x.take(k)] + (l1.0 + byte_lines(l1.1 + y).0) =~= (seq![x.take(k)] + l1.0)
            + byte_lines(l1.1 + y).0);
    } else {
        assert(byte_lines(x).0 + byte_lines(x + y).0 =~= byte_lines(x + y).0);
    }
}

proof fn lemma_emitted_concat(a: Seq<Seq<char>>, b: Seq<Seq<char>>, f: bool)
    ensures
        emitted(a + b, f) == emitted(a, f) + emitted(b, ended_after(a, f)),
        ended_after(a + b, f) == ended_after(b, ended_after(a, f)),
    decreases a.len(),
{
    if a.len() == 0 {
        assert(a + b =~= b);
        assert(emitted(a, f) + emitted(b, f) =~= emitted(b, f));
    } else if f {
        assert(emitted(a, f) + emitted(b, true) =~= Seq::<Seq<char>>::empty());
        assert(!((a + b).len() == 0));
        assert(ended_after(b, true));
    } else {
        assert((a + b).drop_first() =~= a.drop_first() + b);
        assert((a + b)[0] == a[0]);
        lemma_emitted_concat(a.drop_first(), b, false);
        if is_done_line(a[0]) {
            assert(emitted(a + b, f) == Seq::<Seq<char>>::empty());
            assert(emitted(b, true) == Seq::<Seq<char>>::empty());
            assert(emitted(a, f) + emitted(b, true) =~= Seq::<Seq<char>>::empty());
        } else {
            match line_fragment(a[0]) {
                Some(x) => {
                    assert(seq![x] + (emitted(a.drop_first(), false) + emitted(
                        b,
                        ended_after(a.drop_first(), false),
                    )) =~= (seq![x] + emitted(a.drop_first(), false)) + emitted(
                        b,
                        ended_after(a.drop_first(), false),
                    ));
                },
                None => {},
            }
        }
    }
}

/// Chunking does not change what the decoder yields: feeding the bytes `a`
/// and then `b` (after `pending` and with the stream ended or not as
/// `finished` says) yields the same fragments, leaves the same pending
/// bytes and the same ended state as feeding `a + b` at once.
pub proof fn chunking_invariance(pending: Seq<u8>, a: Seq<u8>, b: Seq<u8>, finished: bool)
    ensures
        ({
            let (l1, r1) = byte_lines(pending + a);
            let f1 = ended_after(texts_of(l1), finished);
            let (l2, r2) = byte_lines(r1 + b);
            let (l, r) = byte_lines(pending + a + b);
            &&& emitted(texts_of(l1), finished) + emitted(texts_of(l2), f1) == emitted(texts_of(l), finished)
            &&& r2 == r
            &&& ended_after(texts_of(l2), f1) == ended_after(texts_of(l), finished)
        }),
{
    lemma_byte_lines_concat(pending + a, b);
    let (l1, r1) = byte_lines(pending + a);
    let (l2, r2) = byte_lines(r1 + b);
    assert(texts_of(l1 + l2) =~= texts_of(l1) + texts_of(l2));
    lemma_emitted_concat(texts_of(l1), texts_of(l2), finished);
}

/// The bytes of `s` from `a` to `b`.
fn copy_bytes(s: &[u8], a: usize, b: usize) -> (r: Vec<u8>)
    requires
        a <= b <= s@.len(),
    ensures
        r@ == s@.subrange(a as int, b as int),
{
    let mut out: Vec<u8> = Vec::new();
    let mut i = a;
    while i < b
        invariant
            a <= i <= b <= s@.len(),
            out@ == s@.subrange(a as int, i as int),
        decreases b - i,
    {
        out.push(s[i]);
        proof {
            assert(out@ =~= s@.subrange(a as int, i + 1));
        }
        i = i + 1;
    }
    out
}

/// Incremental decoder of an event-stream body. Bytes arrive in chunks;
/// complete lines are decoded as they appear, and a partial line (with any
/// incomplete character) waits for the rest. After the end-of-stream line
/// nothing more is produced, though the input may still be fed until it
/// closes.
pub struct StreamDecoder {
    pending: Vec<u8>,
    finished: bool,
}

impl StreamDecoder {
    /// The bytes received after the last line feed.
    pub closed spec fn pending(&self) -> Seq<u8> {
        self.pending@
    }

    /// The end-of-stream line has been read.
    pub closed spec fn is_finished(&self) -> bool {
        self.finished
    }

    /// A decoder at the start of a stream.
    pub fn new() -> (r: StreamDecoder)
        ensures
            r.pending() == Seq::<u8>::empty(),
            !r.is_finished(),
    {
        StreamDecoder { pending: Vec::new(), finished: false }
    }

    /// Whether the end-of-stream line has been read.
    pub fn finished(&self) -> (r: bool)
        ensures
            r == self.is_finished(),
    {
        self.finished
    }

    /// Feeds a chunk of the body; returns the fragments of the lines it
    /// completes, in order.
    pub fn push_bytes(&mut self, chunk: &[u8]) -> (r: Vec<String>)
        ensures
            ({
                let (lines, rest) = byte_lines(old(self).pending() + chunk@);
                &&& strings_view(r@) == emitted(texts_of(lines), old(self).is_finished())
                &&& final(self).pending() == rest
                &&& final(self).is_finished() == ended_after(texts_of(lines), old(self).is_finished())
            }),
    {
        let mut buf: Vec<u8> = Vec::new();
        std::mem::swap(&mut buf, &mut self.pending);
        let mut i: usize = 0;
        let ghost p0 = buf@;
        while i < chunk.len()
            invariant
                i <= chunk@.len(),
                buf@ == p0 + chunk@.take(i as int),
            decreases chunk@.len() - i,
        {
            buf.push(chunk[i]);
            proof {
                assert(chunk@.take(i + 1) =~= chunk@.take(i as int).push(chunk@[i as int]));
            }
            i = i + 1;
        }
        proof {
            assert(chunk@.take(chunk@.len() as int) =~= chunk@);
        }
        let ghost b = buf@;
        let ghost f0 = self.finished;
        let n = buf.len();
        let mut out: Vec<String> = Vec::new();
        let mut start: usize = 0;
        let mut more = true;
        proof {
            assert(b.skip(0) =~= b);
        }
        while more
            invariant
                buf@ == b,
                n == b.len(),
                start <= n,
                strings_view(out@) + emitted(texts_of(byte_lines(b.skip(start as int)).0), self.finished)
                    == emitted(texts_of(byte_lines(b).0), f0),
                ended_after(texts_of(byte_lines(b.skip(start as int)).0), self.finished)
                    == ended_after(texts_of(byte_lines(b).0), f0),
                byte_lines(b.skip(start as int)).1 == byte_lines(b).1,
                !more ==> byte_lines(b.skip(start as int)).0.len() == 0,
            decreases n - start + if more { 1int } else { 0int },
        {
            let mut k = start;
            while k < n && buf[k] != 10u8
                invariant
                    buf@ == b,
                    n == b.len(),
                    start <= k <= n,
                    forall|j: int| start <= j < k ==> b[j] != 10u8,
                decreases n - k,
            {
                k = k + 1;
            }
            let ghost s = b.skip(start as int);
            proof {
                lemma_first_nl_at(s, 0, k - start);
            }
            if k == n {
                more = false;
            } else {
                let line = copy_bytes(buf.as_slice(), start, k);
                let ghost tail = byte_lines(b.skip(k + 1)).0;
                proof {
                    assert(s.take(k - start) =~= line@);
                    assert(s.skip(k - start + 1) =~= b.skip(k + 1));
                    assert(byte_lines(s).0 =~= seq![line@] + tail);
                    assert(texts_of(byte_lines(s).0) =~= seq![lossy_text_of(line@)] + texts_of(tail));
                    assert(texts_of(byte_lines(s).0).drop_first() =~= texts_of(tail));
                }
                if !self.finished {
                    let text = lossy_text(line.as_slice());
                    let cs = chars_of(text.as_str());
                    match decode_line(cs.as_slice()) {
                        LineEvent::Done => {
                            self.finished = true;
                            proof {
                                assert(emitted(texts_of(tail), true) =~= Seq::<Seq<char>>::empty());
                                assert(strings_view(out@) + emitted(texts_of(tail), true) =~= strings_view(out@));
                            }
                        },
                        LineEvent::Fragment(f) => {
                            let ghost old_out = strings_view(out@);
                            out.push(f);
                            proof {
                                assert(strings_view(out@) =~= old_out + seq![f@]);
                                assert(old_out + (seq![f@] + emitted(texts_of(tail), false)) =~= strings_view(out@)
                                    + emitted(texts_of(tail), false));
                            }
                        },
                        LineEvent::Ignored => {},
                    }
                }
                start = k + 1;
            }
        }
        let rest = copy_bytes(buf.as_slice(), start, n);
        proof {
            assert(rest@ =~= b.skip(start as int));
            assert(strings_view(out@) + Seq::<Seq<char>>::empty() =~= strings_view(out@));
        }
        self.pending = rest;
        out
    }

    /// Ends the input: the bytes after the last line feed, if any, are read
    /// as a final line.
    pub fn finish(&mut self) -> (r: Vec<String>)
        ensures
            ({
                let lines = if old(self).pending().len() == 0 {
                    Seq::<Seq<u8>>::empty()
                } else {
                    seq![old(self).pending()]
                };
                &&& strings_view(r@) == emitted(texts_of(lines), old(self).is_finished())
                &&& final(self).pending() == Seq::<u8>::empty()
                &&& final(self).is_finished() == ended_after(texts_of(lines), old(self).is_finished())
            }),
    {
        let mut line: Vec<u8> = Vec::new();
        std::mem::swap(&mut line, &mut self.pending);
        let ghost lines = if line@.len() == 0 { Seq::<Seq<u8>>::empty() } else { seq![line@] };
        let ghost f0 = self.finished;
        let mut out: Vec<String> = Vec::new();
        proof {
            if line@.len() > 0 {
                assert(texts_of(lines) =~= seq![lossy_text_of(line@)]);
                assert(texts_of(lines).drop_first() =~= Seq::<Seq<char>>::empty());
            } else {
                assert(texts_of(lines) =~= Seq::<Seq<char>>::empty());
            }
            assert(emitted(Seq::<Seq<char>>::empty(), false) == Seq::<Seq<char>>::empty());
            assert(!ended_after(Seq::<Seq<char>>::empty(), false));
        }
        if line.len() > 0 && !self.finished {
            let text = lossy_text(line.as_slice());
            let cs = chars_of(text.as_str());
            match decode_line(cs.as_slice()) {
                LineEvent::Done => {
                    self.finished = true;
                    assert(strings_view(out@) =~= emitted(texts_of(lines), f0));
                },
                LineEvent::Fragment(f) => {
                    out.push(f);
                    assert(strings_view(out@) =~= emitted(texts_of(lines), f0));
                },
                LineEvent::Ignored => {
                    assert(strings_view(out@) =~= emitted(texts_of(lines), f0));
                },
            }
        } else {
            assert(strings_view(out@) =~= emitted(texts_of(lines), f0));
        }
        out
    }
}

} // verus!
