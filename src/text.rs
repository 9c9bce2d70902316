use vstd::prelude::*;

verus! {

/// The characters of a string slice, in order.
pub fn chars_of(s: &str) -> (r: Vec<char>)
    ensures
        r@ == s@,
{
    let mut out: Vec<char> = Vec::new();
    for c in it: s.chars()
        invariant
            it.seq() == s@,
            out@ == it.seq().take(it.index() as int),
    {
        out.push(c);
    }
    out
}

/// Relies on `String::push`: the character is appended at the end.
#[verifier::external_body]
pub(crate) fn push_char(s: &mut String, c: char)
    ensures
        final(s)@ == old(s)@.push(c),
{
    s.push(c);
}

/// A string holding exactly the given characters.
pub fn string_from_chars(cs: &[char]) -> (r: String)
    ensures
        r@ == cs@,
{
    let mut out = String::new();
    let mut i: usize = 0;
    while i < cs.len()
        invariant
            i <= cs@.len(),
            out@ == cs@.take(i as int),
        decreases cs@.len() - i,
    {
        push_char(&mut out, cs[i]);
        proof {
            assert(cs@.take(i + 1) =~= cs@.take(i as int).push(cs@[i as int]));
        }
        i = i + 1;
    }
    proof {
        assert(cs@.take(cs@.len() as int) =~= cs@);
    }
    out
}

/// `pat` occurs in `s` starting at index `i`.
pub open spec fn occurs_at(s: Seq<char>, pat: Seq<char>, i: int) -> bool {
    0 <= i && i + pat.len() <= s.len() && s.subrange(i, i + pat.len()) == pat
}

/// The first index at or after `from` where `pat` occurs in `s`.
pub open spec fn find_from(s: Seq<char>, pat: Seq<char>, from: int) -> Option<int>
    decreases s.len() + 1 - from,
{
    if from < 0 || from + pat.len() > s.len() {
        None
    } else if occurs_at(s, pat, from) {
        Some(from)
    } else {
        find_from(s, pat, from + 1)
    }
}

/// `pat` occurs somewhere in `s`.
pub open spec fn has_infix(s: Seq<char>, pat: Seq<char>) -> bool {
    find_from(s, pat, 0) is Some
}

/// `s` begins with `pat`.
pub open spec fn has_prefix(s: Seq<char>, pat: Seq<char>) -> bool {
    pat.len() <= s.len() && s.take(pat.len() as int) == pat
}

/// Whether `pat` occurs in `s` at index `i`.
pub fn occurs_at_exec(s: &[char], pat: &[char], i: usize) -> (r: bool)
    ensures
        r == occurs_at(s@, pat@, i as int),
{
    let slen = s.len();
    if i > slen || pat.len() > slen - i {
        return false;
    }
    let mut j: usize = 0;
    while j < pat.len()
        invariant
            slen == s@.len(),
            i + pat@.len() <= s@.len(),
            j <= pat@.len(),
            forall|k: int| 0 <= k < j ==> s@[i + k] == pat@[k],
        decreases pat@.len() - j,
    {
        assert(i + j < s@.len());
        if s[i + j] != pat[j] {
            proof {
                assert(s@.subrange(i as int, i + pat@.len())[j as int] != pat@[j as int]);
            }
            return false;
        }
        j = j + 1;
    }
    proof {
        assert(s@.subrange(i as int, i + pat@.len()) =~= pat@);
    }
    true
}

/// The first index at or after `from` where `pat` occurs in `s`.
pub fn find_chars(s: &[char], pat: &[char], from: usize) -> (r: Option<usize>)
    ensures
        r matches Some(i) ==> find_from(s@, pat@, from as int) == Some(i as int),
        r is None ==> find_from(s@, pat@, from as int) is None,
{
    if from > s.len() {
        return None;
    }
    let mut i = from;
    while i < s.len() && pat.len() <= s.len() - i
        invariant
            from <= i <= s@.len(),
            find_from(s@, pat@, from as int) == find_from(s@, pat@, i as int),
        decreases s@.len() - i,
    {
        if occurs_at_exec(s, pat, i) {
            return Some(i);
        }
        i = i + 1;
    }
    if occurs_at_exec(s, pat, i) {
        Some(i)
    } else {
        proof {
            reveal_with_fuel(find_from, 2);
        }
        None
    }
}

/// Whether `pat` occurs in `s`.
pub fn contains_str(s: &str, pat: &str) -> (r: bool)
    ensures
        r == has_infix(s@, pat@),
{
    let sc = chars_of(s);
    let pc = chars_of(pat);
    find_chars(sc.as_slice(), pc.as_slice(), 0).is_some()
}

/// Whether `s` begins with `pat`.
pub fn starts_with_chars(s: &[char], pat: &[char]) -> (r: bool)
    ensures
        r == has_prefix(s@, pat@),
{
    let r = occurs_at_exec(s, pat, 0);
    proof {
        if pat@.len() <= s@.len() {
            assert(s@.take(pat@.len() as int) =~= s@.subrange(0, pat@.len() as int));
        }
    }
    r
}

/// What `str::to_lowercase` returns for a text.
pub uninterp spec fn lower_of(s: Seq<char>) -> Seq<char>;

/// Relies on `str::to_lowercase`: the result is a function of the
/// characters alone.
#[verifier::external_body]
pub(crate) fn lowercase(s: &str) -> (r: String)
    ensures
        r@ == lower_of(s@),
{
    s.to_lowercase()
}

/// What `str::to_uppercase` returns for a text.
pub uninterp spec fn upper_of(s: Seq<char>) -> Seq<char>;

/// Relies on `str::to_uppercase`: the result is a function of the
/// characters alone.
#[verifier::external_body]
pub(crate) fn uppercase(s: &str) -> (r: String)
    ensures
        r@ == upper_of(s@),
{
    s.to_uppercase()
}


/// Whether two texts hold the same characters.
pub fn same_text(a: &str, b: &str) -> (r: bool)
    ensures
        r == (a@ == b@),
{
    let x: String = a.to_owned();
    let y: String = b.to_owned();
    x == y
}

/// The complete lines of `buf` from index `start` on, and what follows
/// the last line break.
pub open spec fn split_from(buf: Seq<char>, start: int) -> (Seq<Seq<char>>, Seq<char>)
    decreases buf.len() - start,
{
    if 0 <= start <= buf.len() {
        match find_from(buf, seq!['\n'], start) {
            Some(i) => if start <= i < buf.len() {
                let rest = split_from(buf, i + 1);
                (seq![buf.subrange(start, i)] + rest.0, rest.1)
            } else {
                (Seq::empty(), buf.skip(start))
            },
            None => (Seq::empty(), buf.skip(start)),
        }
    } else {
        (Seq::empty(), Seq::empty())
    }
}

pub proof fn lemma_find_from_bounds(s: Seq<char>, pat: Seq<char>, from: int)
    ensures
        find_from(s, pat, from) matches Some(i) ==> from <= i && occurs_at(s, pat, i),
    decreases s.len() + 1 - from,
{
    if !(from < 0 || from + pat.len() > s.len()) && !occurs_at(s, pat, from) {
        lemma_find_from_bounds(s, pat, from + 1);
    }
}

/// The characters of `s` from `a` to `b`.
pub fn slice_chars(s: &[char], a: usize, b: usize) -> (r: Vec<char>)
    requires
        a <= b <= s@.len(),
    ensures
        r@ == s@.subrange(a as int, b as int),
{
    let mut out: Vec<char> = Vec::new();
    let mut i = a;
    while i < b
        invariant
            a <= i <= b <= s@.len(),
            out@ == s@.subrange(a as int, i as int),
        decreases b - i,
    {
        out.push(s[i]);
        proof {
            assert(out@ =~= s@.subrange(a as int, i + 1));
        }
        i = i + 1;
    }
    out
}

/// A complete line without the carriage return of a CRLF ending.
pub open spec fn strip_cr(l: Seq<char>) -> Seq<char> {
    if l.len() > 0 && l.last() == '\r' {
        l.drop_last()
    } else {
        l
    }
}

/// The lines of a text as `str::lines` gives them: split at line feeds,
/// a carriage return before a line feed dropped, no empty last line.
pub open spec fn lines_of(s: Seq<char>) -> Seq<Seq<char>> {
    let (ls, rest) = split_from(s, 0);
    let complete = ls.map_values(|l: Seq<char>| strip_cr(l));
    if rest.len() > 0 {
        complete.push(rest)
    } else {
        complete
    }
}

/// The views of a list of strings.
pub open spec fn strings_view(v: Seq<String>) -> Seq<Seq<char>> {
    v.map_values(|s: String| s@)
}

/// The lines of a text.
pub fn text_lines(s: &str) -> (r: Vec<String>)
    ensures
        strings_view(r@) == lines_of(s@),
{
    let buf = chars_of(s);
    let ghost b = buf@;
    let blen = buf.len();
    let nl: [char; 1] = ['\n'];
    let nls = nl.as_slice();
    assert(nls@ =~= seq!['\n']);
    let mut out: Vec<String> = Vec::new();
    let mut start: usize = 0;
    let mut more = true;
    while more
        invariant
            buf@ == b,
            blen == b.len(),
            nls@ == seq!['\n'],
            0 <= start <= b.len(),
            strings_view(out@) + split_from(b, start as int).0.map_values(|l: Seq<char>| strip_cr(l))
                == split_from(b, 0).0.map_values(|l: Seq<char>| strip_cr(l)),
            split_from(b, start as int).1 == split_from(b, 0).1,
            !more ==> split_from(b, start as int).0.len() == 0,
        decreases b.len() - start + if more { 1int } else { 0int },
    {
        match find_chars(buf.as_slice(), nls, start) {
            None => {
                more = false;
            },
            Some(i) => {
                proof {
                    lemma_find_from_bounds(b, seq!['\n'], start as int);
                }
                let end = if i > start && buf[i - 1] == '\r' { i - 1 } else { i };
                let piece = slice_chars(buf.as_slice(), start, end);
                let line = string_from_chars(piece.as_slice());
                let ghost lines = split_from(b, start as int).0;
                let ghost tail = split_from(b, i + 1).0;
                proof {
                    assert(lines =~= seq![b.subrange(start as int, i as int)] + tail);
                    if i > start && b[i - 1] == '\r' {
                        assert(b.subrange(start as int, i as int).drop_last() =~= b.subrange(start as int, i - 1));
                    }
                    assert(line@ == strip_cr(b.subrange(start as int, i as int)));
                    assert(lines.map_values(|l: Seq<char>| strip_cr(l)) =~= seq![line@] + tail.map_values(|l: Seq<char>| strip_cr(l)));
                }
                let ghost before = strings_view(out@);
                out.push(line);
                proof {
                    assert(strings_view(out@) =~= before + seq![line@]);
                }
                start = i + 1;
            },
        }
    }
    proof {
        assert(split_from(b, start as int).1 == b.skip(start as int));
        assert(strings_view(out@) =~= split_from(b, 0).0.map_values(|l: Seq<char>| strip_cr(l)));
    }
    if start < blen {
        let piece = slice_chars(buf.as_slice(), start, blen);
        let line = string_from_chars(piece.as_slice());
        let ghost before = strings_view(out@);
        out.push(line);
        proof {
            assert(piece@ =~= b.skip(start as int));
            assert(strings_view(out@) =~= before.push(line@));
        }
    }
    out
}


/// An occurrence at or after `from` means the search finds one.
pub proof fn lemma_find_from_reaches(s: Seq<char>, pat: Seq<char>, from: int, k: int)
    requires
        0 <= from <= k,
        occurs_at(s, pat, k),
    ensures
        find_from(s, pat, from) is Some,
    decreases k - from,
{
    if !occurs_at(s, pat, from) {
        lemma_find_from_reaches(s, pat, from + 1, k);
    }
}

/// What `char::is_whitespace` says of a character: whether it has
/// Unicode's White_Space property.
pub uninterp spec fn white_space(c: char) -> bool;

/// Relies on `char::is_whitespace`: whether the character has Unicode's
/// White_Space property, the whitespace that `str::trim` and
/// `str::split_whitespace` skip; a function of the character alone.
#[verifier::external_body]
pub(crate) fn is_whitespace(c: char) -> (r: bool)
    ensures
        r == white_space(c),
{
    c.is_whitespace()
}

/// Whitespace, as `str::trim` and `str::split_whitespace` take it.
pub open spec fn is_blank(c: char) -> bool {
    white_space(c)
}

/// `s` without leading whitespace.
pub open spec fn trim_start(s: Seq<char>) -> Seq<char>
    decreases s.len(),
{
    if s.len() > 0 && is_blank(s[0]) {
        trim_start(s.drop_first())
    } else {
        s
    }
}

/// `s` without trailing whitespace.
pub open spec fn trim_end(s: Seq<char>) -> Seq<char>
    decreases s.len(),
{
    if s.len() > 0 && is_blank(s.last()) {
        trim_end(s.drop_last())
    } else {
        s
    }
}

/// `s` without whitespace at either end.
pub open spec fn trim(s: Seq<char>) -> Seq<char> {
    trim_end(trim_start(s))
}

/// Index of the first character at or after `from` that is not blank.
pub fn skip_blank_forward(s: &[char], from: usize) -> (r: usize)
    requires
        from <= s@.len(),
    ensures
        from <= r <= s@.len(),
        trim_start(s@.skip(from as int)) == s@.skip(r as int),
    decreases s@.len() - from,
{
    if from < s.len() {
        let c = s[from];
        if is_whitespace(c) {
            proof {
                assert(s@.skip(from as int).drop_first() =~= s@.skip(from + 1));
            }
            return skip_blank_forward(s, from + 1);
        }
    }
    from
}

/// One past the last character before `to` that is not blank.
fn skip_blank_backward(s: &[char], lo: usize, to: usize) -> (r: usize)
    requires
        lo <= to <= s@.len(),
    ensures
        lo <= r <= to,
        trim_end(s@.subrange(lo as int, to as int)) == s@.subrange(lo as int, r as int),
    decreases to - lo,
{
    if to > lo {
        let c = s[to - 1];
        if is_whitespace(c) {
            proof {
                assert(s@.subrange(lo as int, to as int).drop_last() =~= s@.subrange(
                    lo as int,
                    to - 1,
                ));
            }
            return skip_blank_backward(s, lo, to - 1);
        }
    }
    to
}

/// `s` without whitespace at either end.
pub fn trim_chars(s: &[char]) -> (r: Vec<char>)
    ensures
        r@ == trim(s@),
{
    let a = skip_blank_forward(s, 0);
    let b = skip_blank_backward(s, a, s.len());
    proof {
        assert(s@.skip(0) =~= s@);
        assert(s@.skip(a as int) =~= s@.subrange(a as int, s@.len() as int));
    }
    slice_chars(s, a, b)
}


/// The decimal digit for `d < 10`.
pub open spec fn digit_char(d: nat) -> char {
    seq!['0', '1', '2', '3', '4', '5', '6', '7', '8', '9'][d as int]
}

/// The decimal numeral of `n`.
pub open spec fn decimal_of(n: nat) -> Seq<char>
    decreases n,
{
    if n < 10 {
        seq![digit_char(n)]
    } else {
        decimal_of(n / 10).push(digit_char(n % 10))
    }
}

/// Writes `n` in decimal.
pub fn decimal(n: u64) -> (r: String)
    ensures
        r@ == decimal_of(n as nat),
    decreases n,
{
    let digits: [char; 10] = ['0', '1', '2', '3', '4', '5', '6', '7', '8', '9'];
    assert(digits@ =~= seq!['0', '1', '2', '3', '4', '5', '6', '7', '8', '9']);
    if n < 10 {
        let mut s = String::new();
        push_char(&mut s, digits[n as usize]);
        s
    } else {
        let mut s = decimal(n / 10);
        push_char(&mut s, digits[(n % 10) as usize]);
        s
    }
}

/// `ls` joined with line feeds between them.
pub open spec fn join_lines(ls: Seq<Seq<char>>) -> Seq<char>
    decreases ls.len(),
{
    if ls.len() == 0 {
        Seq::empty()
    } else if ls.len() == 1 {
        ls[0]
    } else {
        join_lines(ls.drop_last()) + seq!['\n'] + ls.last()
    }
}

/// Joins lines with line feeds between them.
pub fn join_with_newlines(ls: &Vec<String>) -> (r: String)
    ensures
        r@ == join_lines(strings_view(ls@)),
{
    let mut out = String::new();
    let mut i: usize = 0;
    while i < ls.len()
        invariant
            i <= ls@.len(),
            out@ == join_lines(strings_view(ls@).take(i as int)),
        decreases ls@.len() - i,
    {
        proof {
            reveal_strlit("\n");
            let t = strings_view(ls@).take(i + 1);
            assert(t.drop_last() =~= strings_view(ls@).take(i as int));
        }
        if i > 0 {
            out.append("\n");
        }
        out.append(ls[i].as_str());
        proof {
            let t = strings_view(ls@).take(i + 1);
            if i == 0 {
                assert(out@ =~= join_lines(t));
            } else {
                assert(out@ =~= join_lines(t));
            }
        }
        i = i + 1;
    }
    proof {
        assert(strings_view(ls@).take(ls@.len() as int) =~= strings_view(ls@));
    }
    out
}


proof fn lemma_find_shift(a: Seq<char>, b: Seq<char>, p: Seq<char>, j: int)
    requires
        0 <= j,
    ensures
        find_from(a + b, p, a.len() + j) == match find_from(b, p, j) {
            Some(k) => Some(k + a.len()),
            None => None::<int>,
        },
    decreases b.len() + 1 - j,
{
    let s = a + b;
    let f = a.len() + j;
    if !(f + p.len() > s.len()) {
        assert(s.subrange(f, f + p.len()) =~= b.subrange(j, j + p.len()));
        if !occurs_at(b, p, j) {
            lemma_find_shift(a, b, p, j + 1);
        }
    }
}

proof fn lemma_find_prefix(a: Seq<char>, b: Seq<char>, p: Seq<char>, start: int)
    requires
        0 <= start,
        find_from(a, p, start) is Some,
    ensures
        find_from(a + b, p, start) == find_from(a, p, start),
    decreases a.len() + 1 - start,
{
    let s = a + b;
    if start + p.len() <= a.len() {
        assert(s.subrange(start, start + p.len()) =~= a.subrange(start, start + p.len()));
        if !occurs_at(a, p, start) {
            lemma_find_prefix(a, b, p, start + 1);
        }
    }
}

proof fn lemma_split_shift(a: Seq<char>, b: Seq<char>, j: int)
    requires
        0 <= j <= b.len(),
    ensures
        split_from(a + b, a.len() + j) == split_from(b, j),
    decreases b.len() - j,
{
    let s = a + b;
    lemma_find_shift(a, b, seq!['\n'], j);
    match find_from(b, seq!['\n'], j) {
        Some(i) => {
            if j <= i < b.len() {
                lemma_split_shift(a, b, i + 1);
                assert(s.subrange(a.len() + j, a.len() + i) =~= b.subrange(j, i));
            }
        },
        None => {},
    }
    assert(s.skip(a.len() + j) =~= b.skip(j));
}

proof fn lemma_split_concat(a: Seq<char>, b: Seq<char>, start: int)
    requires
        a.len() == 0 || a.last() == '\n',
        0 <= start <= a.len(),
    ensures
        split_from(a + b, start) == (split_from(a, start).0 + split_from(b, 0).0, split_from(b, 0).1),
    decreases a.len() - start,
{
    let s = a + b;
    if start == a.len() {
        lemma_split_shift(a, b, 0);
        assert(find_from(a, seq!['\n'], start) is None);
        assert(split_from(a, start).0 =~= Seq::<Seq<char>>::empty());
        assert(split_from(a, start).0 + split_from(b, 0).0 =~= split_from(b, 0).0);
    } else {
        assert(a.subrange(a.len() - 1, a.len() as int) =~= seq!['\n']);
        lemma_find_from_reaches(a, seq!['\n'], start, a.len() - 1);
        lemma_find_from_bounds(a, seq!['\n'], start);
        lemma_find_prefix(a, b, seq!['\n'], start);
        let i = find_from(a, seq!['\n'], start)->0;
        lemma_split_concat(a, b, i + 1);
        assert(s.subrange(start, i) =~= a.subrange(start, i));
        assert(split_from(a + b, start).0 =~= split_from(a, start).0 + split_from(b, 0).0);
    }
}

proof fn lemma_single_line(line: Seq<char>, j: int)
    requires
        !line.contains('\n'),
        0 <= j <= line.len(),
    ensures
        find_from(line + seq!['\n'], seq!['\n'], j) == Some(line.len() as int),
    decreases line.len() - j,
{
    let b = line + seq!['\n'];
    if j < line.len() {
        assert(b[j] == line[j]);
        if line[j] == '\n' {
            assert(line.contains('\n'));
        }
        if occurs_at(b, seq!['\n'], j) {
            assert(b.subrange(j, j + 1)[0] == b[j]);
        }
        lemma_single_line(line, j + 1);
    } else {
        assert(b.subrange(j, j + 1) =~= seq!['\n']);
    }
}

/// Splitting a text that ends with a line break, followed by one more
/// line and its break, gives the text's lines and then that line.
pub proof fn lemma_lines_append(log: Seq<char>, line: Seq<char>)
    requires
        log.len() == 0 || log.last() == '\n',
        !line.contains('\n'),
        line.len() == 0 || line.last() != '\r',
    ensures
        lines_of(log + (line + seq!['\n'])) == lines_of(log).push(line),
{
    let b = line + seq!['\n'];
    lemma_split_concat(log, b, 0);
    lemma_single_line(line, 0);
    assert(find_from(b, seq!['\n'], b.len() as int) is None);
    assert(b.subrange(0, line.len() as int) =~= line);
    assert(b.skip(b.len() as int) =~= Seq::<char>::empty());
    assert(split_from(b, b.len() as int).0 =~= Seq::<Seq<char>>::empty());
    assert(split_from(b, b.len() as int).1 =~= Seq::<char>::empty());
    assert(split_from(b, 0).0 =~= seq![line]);
    assert(split_from(b, 0).1 =~= Seq::<char>::empty());
    if log.len() > 0 {
        lemma_split_concat(log, Seq::<char>::empty(), 0);
        assert(log + Seq::<char>::empty() =~= log);
    } else {
        assert(find_from(log, seq!['\n'], 0) is None);
    }
    assert(split_from(log, 0).1 =~= Seq::<char>::empty());
    let f = |l: Seq<char>| strip_cr(l);
    assert((split_from(log, 0).0 + seq![line]).map_values(f) =~= split_from(log, 0).0.map_values(f).push(strip_cr(line)));
}


/// `s` from index `i` on, with each non-overlapping occurrence of a
/// non-empty `from`, found left to right, replaced by `to`.
pub open spec fn replaced_from(s: Seq<char>, from: Seq<char>, to: Seq<char>, i: int) -> Seq<char>
    decreases s.len() + 1 - i,
{
    if from.len() == 0 || i < 0 || i > s.len() {
        Seq::empty()
    } else {
        match find_from(s, from, i) {
            Some(k) => if i <= k && k + from.len() <= s.len() {
                s.subrange(i, k) + to + replaced_from(s, from, to, k + from.len())
            } else {
                s.skip(i)
            },
            None => s.skip(i),
        }
    }
}

/// `to` before every character of `s` and once more at its end: what an
/// empty pattern, which matches at every character boundary, gives.
pub open spec fn interleaved(s: Seq<char>, to: Seq<char>) -> Seq<char>
    decreases s.len(),
{
    if s.len() == 0 {
        to
    } else {
        to + seq![s[0]] + interleaved(s.drop_first(), to)
    }
}

/// `s` with every occurrence of `from` replaced by `to`, as `str::replace`
/// does.
pub open spec fn replaced(s: Seq<char>, from: Seq<char>, to: Seq<char>) -> Seq<char> {
    if from.len() == 0 {
        interleaved(s, to)
    } else {
        replaced_from(s, from, to, 0)
    }
}

fn interleave(s: &str, to: &str) -> (r: String)
    ensures
        r@ == interleaved(s@, to@),
{
    let c = chars_of(s);
    let mut out = String::new();
    let mut i: usize = 0;
    proof {
        assert(c@.skip(0) =~= c@);
    }
    while i < c.len()
        invariant
            i <= c@.len(),
            out@ + interleaved(c@.skip(i as int), to@) == interleaved(c@, to@),
        decreases c@.len() - i,
    {
        let ghost before = out@;
        out.append(to);
        push_char(&mut out, c[i]);
        proof {
            assert(c@.skip(i as int).drop_first() =~= c@.skip(i + 1));
            assert(c@.skip(i as int)[0] == c@[i as int]);
            assert(out@ + interleaved(c@.skip(i + 1), to@) =~= before + interleaved(c@.skip(i as int), to@));
        }
        i = i + 1;
    }
    out.append(to);
    proof {
        assert(c@.skip(i as int) =~= Seq::<char>::empty());
    }
    out
}

/// Replaces every occurrence of `from` by `to`.
pub fn replace_all(s: &str, from: &str, to: &str) -> (r: String)
    ensures
        r@ == replaced(s@, from@, to@),
{
    if from.unicode_len() == 0 {
        return interleave(s, to);
    }
    let c = chars_of(s);
    let f = chars_of(from);
    let n = c.len();
    let mut out = String::new();
    let mut i: usize = 0;
    let mut done = false;
    while !done
        invariant
            n == c@.len(),
            c@ == s@,
            f@ == from@,
            f@.len() > 0,
            i <= n,
            out@ + (if done { Seq::<char>::empty() } else { replaced_from(c@, f@, to@, i as int) })
                == replaced_from(c@, f@, to@, 0),
        decreases n + 1 - i + if done { 0int } else { 1int },
    {
        match find_chars(c.as_slice(), f.as_slice(), i) {
            Some(k) => {
                proof {
                    lemma_find_from_bounds(c@, f@, i as int);
                }
                let piece = slice_chars(c.as_slice(), i, k);
                let ps = string_from_chars(piece.as_slice());
                let ghost before = out@;
                out.append(ps.as_str());
                out.append(to);
                proof {
                    assert(out@ + replaced_from(c@, f@, to@, k + f@.len()) =~= before + replaced_from(c@, f@, to@, i as int));
                }
                i = k + f.len();
            },
            None => {
                let piece = slice_chars(c.as_slice(), i, n);
                let ps = string_from_chars(piece.as_slice());
                let ghost before = out@;
                out.append(ps.as_str());
                proof {
                    assert(piece@ =~= c@.skip(i as int));
                    assert(out@ + Seq::<char>::empty() =~= before + replaced_from(c@, f@, to@, i as int));
                }
                done = true;
            },
        }
    }
    proof {
        assert(out@ + Seq::<char>::empty() =~= out@);
    }
    out
}

} // verus!
