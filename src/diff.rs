use vstd::prelude::*;
use crate::text::{
    find_chars, find_from, is_blank, is_whitespace, occurs_at_exec, skip_blank_forward, trim_start, chars_of, decimal, decimal_of, has_prefix, join_lines, join_with_newlines, lines_of, same_text,
    slice_chars, starts_with_chars, string_from_chars, strings_view, text_lines, trim, trim_chars,
};

verus! {

/// Each line with a one-character marker in front and a line feed after.
pub open spec fn marked(ls: Seq<Seq<char>>, c: char) -> Seq<char>
    decreases ls.len(),
{
    if ls.len() == 0 {
        Seq::empty()
    } else {
        marked(ls.drop_last(), c) + seq![c] + ls.last() + seq!['\n']
    }
}

/// The whole-file unified diff that replaces `old` with `new`.
pub open spec fn unified_diff(old: Seq<char>, new: Seq<char>, name: Seq<char>) -> Seq<char> {
    let o = lines_of(old);
    let n = lines_of(new);
    let header = "--- a/"@ + name + "\n+++ b/"@ + name + "\n"@;
    if o.len() == 0 && n.len() > 0 {
        header + "@@ -0,0 +1,"@ + decimal_of(n.len()) + " @@\n"@ + marked(n, '+')
    } else if o.len() > 0 && n.len() == 0 {
        header + "@@ -1,"@ + decimal_of(o.len()) + " +0,0 @@\n"@ + marked(o, '-')
    } else if o.len() > 0 {
        header + "@@ -1,"@ + decimal_of(o.len()) + " +1,"@ + decimal_of(n.len()) + " @@\n"@
            + marked(o, '-') + marked(n, '+')
    } else {
        header
    }
}

fn append_marked(out: &mut String, ls: &Vec<String>, c: &str)
    requires
        c@.len() == 1,
    ensures
        final(out)@ == old(out)@ + marked(strings_view(ls@), c@[0]),
{
    let ghost start = out@;
    let mut i: usize = 0;
    while i < ls.len()
        invariant
            c@.len() == 1,
            i <= ls@.len(),
            out@ == start + marked(strings_view(ls@).take(i as int), c@[0]),
        decreases ls@.len() - i,
    {
        out.append(c);
        out.append(ls[i].as_str());
        out.append("\n");
        proof {
            reveal_strlit("\n");
            let t = strings_view(ls@).take(i + 1);
            assert(t.drop_last() =~= strings_view(ls@).take(i as int));
            assert(c@ =~= seq![c@[0]]);
            assert(out@ =~= start + marked(t, c@[0]));
        }
        i = i + 1;
    }
    proof {
        assert(strings_view(ls@).take(ls@.len() as int) =~= strings_view(ls@));
    }
}

/// A unified diff that removes every line of `original` and adds every line
/// of `new`, in one hunk.
pub fn generate_unified_diff(original: &str, new: &str, filename: &str) -> (r: String)
    ensures
        r@ == unified_diff(original@, new@, filename@),
{
    proof {
        reveal_strlit("+");
        reveal_strlit("-");
    }
    let o = text_lines(original);
    let n = text_lines(new);
    let mut d = "--- a/".to_owned();
    d.append(filename);
    d.append("\n+++ b/");
    d.append(filename);
    d.append("\n");
    let ghost header = d@;
    if o.len() == 0 && n.len() > 0 {
        d.append("@@ -0,0 +1,");
        let k = decimal(n.len() as u64);
        d.append(k.as_str());
        d.append(" @@\n");
        append_marked(&mut d, &n, "+");
    } else if o.len() > 0 && n.len() == 0 {
        d.append("@@ -1,");
        let k = decimal(o.len() as u64);
        d.append(k.as_str());
        d.append(" +0,0 @@\n");
        append_marked(&mut d, &o, "-");
    } else if o.len() > 0 {
        d.append("@@ -1,");
        let k = decimal(o.len() as u64);
        d.append(k.as_str());
        d.append(" +1,");
        let m = decimal(n.len() as u64);
        d.append(m.as_str());
        d.append(" @@\n");
        append_marked(&mut d, &o, "-");
        append_marked(&mut d, &n, "+");
    }
    proof {
        reveal_strlit("+");
        reveal_strlit("-");
        assert(d@ =~= unified_diff(original@, new@, filename@));
    }
    d
}

/// `ls` without its first entry equal to `x`, if it has one.
pub open spec fn remove_first(ls: Seq<Seq<char>>, x: Seq<char>) -> Seq<Seq<char>> {
    if exists|j: int| 0 <= j < ls.len() && ls[j] == x {
        let j = choose|j: int| 0 <= j < ls.len() && ls[j] == x && forall|k: int| 0 <= k < j ==> ls[k] != x;
        ls.remove(j)
    } else {
        ls
    }
}

/// The effect of one diff line on the lines of a file: a removal drops
/// the first equal line, an addition appends at the end, anything else
/// (headers, context, hunk markers) changes nothing.
pub open spec fn apply_line(ls: Seq<Seq<char>>, d: Seq<char>) -> Seq<Seq<char>> {
    if has_prefix(d, "@@"@) {
        ls
    } else if has_prefix(d, "-"@) && !has_prefix(d, "---"@) {
        remove_first(ls, d.skip(1))
    } else if has_prefix(d, "+"@) && !has_prefix(d, "+++"@) {
        ls.push(d.skip(1))
    } else {
        ls
    }
}

/// The lines of a file after the diff lines `ds`, in order.
pub open spec fn apply_lines(ls: Seq<Seq<char>>, ds: Seq<Seq<char>>) -> Seq<Seq<char>>
    decreases ds.len(),
{
    if ds.len() == 0 {
        ls
    } else {
        apply_line(apply_lines(ls, ds.drop_last()), ds.last())
    }
}

/// Applies a diff in the simple form this tool writes: removed lines are
/// dropped where first found, added lines are appended.
pub fn apply_diff_to_content(original_content: &str, diff_content: &str) -> (r: String)
    ensures
        r@ == join_lines(apply_lines(lines_of(original_content@), lines_of(diff_content@))),
{
    let mut lines = text_lines(original_content);
    let dls = text_lines(diff_content);
    let ghost l0 = strings_view(lines@);
    let at: Vec<char> = chars_of("@@");
    let minus: Vec<char> = chars_of("-");
    let minus3: Vec<char> = chars_of("---");
    let plus: Vec<char> = chars_of("+");
    let plus3: Vec<char> = chars_of("+++");
    let mut i: usize = 0;
    while i < dls.len()
        invariant
            i <= dls@.len(),
            at@ == "@@"@,
            minus@ == "-"@,
            minus3@ == "---"@,
            plus@ == "+"@,
            plus3@ == "+++"@,
            strings_view(lines@) == apply_lines(l0, strings_view(dls@).take(i as int)),
        decreases dls@.len() - i,
    {
        let d = chars_of(dls[i].as_str());
        proof {
            let t = strings_view(dls@).take(i + 1);
            assert(t.drop_last() =~= strings_view(dls@).take(i as int));
            assert(t.last() == d@);
        }
        if starts_with_chars(d.as_slice(), at.as_slice()) {
        } else if starts_with_chars(d.as_slice(), minus.as_slice()) && !starts_with_chars(
            d.as_slice(),
            minus3.as_slice(),
        ) {
            proof { reveal_strlit("-"); }
            let body = slice_chars(d.as_slice(), 1, d.len());
            let target = string_from_chars(body.as_slice());
            assert(target@ =~= d@.skip(1));
            remove_first_equal(&mut lines, target.as_str());
        } else if starts_with_chars(d.as_slice(), plus.as_slice()) && !starts_with_chars(
            d.as_slice(),
            plus3.as_slice(),
        ) {
            proof { reveal_strlit("+"); }
            let body = slice_chars(d.as_slice(), 1, d.len());
            let added = string_from_chars(body.as_slice());
            assert(added@ =~= d@.skip(1));
            let ghost before = strings_view(lines@);
            lines.push(added);
            proof {
                assert(strings_view(lines@) =~= before.push(d@.skip(1)));
            }
        }
        i = i + 1;
    }
    proof {
        assert(strings_view(dls@).take(dls@.len() as int) =~= strings_view(dls@));
    }
    join_with_newlines(&lines)
}

fn remove_first_equal(lines: &mut Vec<String>, x: &str)
    ensures
        strings_view(final(lines)@) == remove_first(strings_view(old(lines)@), x@),
{
    let ghost ls = strings_view(lines@);
    assert(ls == strings_view(old(lines)@));
    let mut j: usize = 0;
    while j < lines.len()
        invariant
            strings_view(lines@) == ls,
            ls == strings_view(old(lines)@),
            j <= lines@.len(),
            forall|k: int| 0 <= k < j ==> ls[k] != x@,
        decreases lines@.len() - j,
    {
        if same_text(lines[j].as_str(), x) {
            proof {
                assert(ls[j as int] == x@);
                let c = choose|c: int| 0 <= c < ls.len() && ls[c] == x@ && forall|k: int| 0 <= k < c ==> ls[k] != x@;
                if c < j {
                    assert(ls[c] != x@);
                }
                if j < c {
                    assert(ls[j as int] != x@);
                }
                assert(c == j);
                assert(remove_first(ls, x@) == ls.remove(j as int));
            }
            let ghost pre = lines@;
            lines.remove(j);
            proof {
                assert(lines@ == pre.remove(j as int));
                assert(strings_view(lines@) =~= ls.remove(j as int));
                assert(strings_view(lines@) == remove_first(ls, x@));
            }
            return;
        }
        j = j + 1;
    }
}

/// Generated code without the opening fence line (one whose trimmed text
/// starts with three backticks) and the closing fence line (one whose
/// trimmed text is exactly three backticks).
pub open spec fn cleaned_lines(ls: Seq<Seq<char>>) -> Seq<Seq<char>> {
    let a = if ls.len() > 0 && has_prefix(trim(ls[0]), "```"@) {
        ls.drop_first()
    } else {
        ls
    };
    if a.len() > 0 && trim(a.last()) == "```"@ {
        a.drop_last()
    } else {
        a
    }
}

/// Strips the code fences a model puts around generated code.
pub fn clean_generated_code(content: &str) -> (r: String)
    ensures
        r@ == join_lines(cleaned_lines(lines_of(content@))),
{
    let mut lines = text_lines(content);
    let fence = chars_of("```");
    if lines.len() > 0 {
        let first = chars_of(lines[0].as_str());
        let t = trim_chars(first.as_slice());
        if starts_with_chars(t.as_slice(), fence.as_slice()) {
            let ghost before = strings_view(lines@);
            lines.remove(0);
            proof {
                assert(strings_view(lines@) =~= before.drop_first());
            }
        }
    }
    if lines.len() > 0 {
        let last = chars_of(lines[lines.len() - 1].as_str());
        let t = trim_chars(last.as_slice());
        let ts = string_from_chars(t.as_slice());
        if same_text(ts.as_str(), "```") {
            let ghost before = strings_view(lines@);
            lines.pop();
            proof {
                assert(strings_view(lines@) =~= before.drop_last());
            }
        }
    }
    join_with_newlines(&lines)
}

/// The file a "+++" header line names, if it names one.
pub open spec fn target_of(line: Seq<char>) -> Option<Seq<char>> {
    if has_prefix(line, "+++"@) {
        let rest = trim(line.skip(3));
        let name = if has_prefix(rest, "b/"@) {
            rest.skip(2)
        } else {
            rest
        };
        if name.len() > 0 && name != "/dev/null"@ {
            Some(name)
        } else {
            None
        }
    } else {
        None
    }
}

/// The target files of the diff lines `ls`, in order.
pub open spec fn targets(ls: Seq<Seq<char>>) -> Seq<Seq<char>>
    decreases ls.len(),
{
    if ls.len() == 0 {
        Seq::empty()
    } else {
        match target_of(ls.last()) {
            Some(n) => targets(ls.drop_last()).push(n),
            None => targets(ls.drop_last()),
        }
    }
}

/// The files a diff changes, from its "+++" lines.
pub fn parse_diff_target_files(diff_content: &str) -> (r: Vec<String>)
    ensures
        strings_view(r@) == targets(lines_of(diff_content@)),
{
    let ls = text_lines(diff_content);
    let plus3 = chars_of("+++");
    let bslash = chars_of("b/");
    let mut out: Vec<String> = Vec::new();
    let mut i: usize = 0;
    proof {
        reveal_strlit("+++");
        reveal_strlit("b/");
    }
    while i < ls.len()
        invariant
            i <= ls@.len(),
            plus3@ == "+++"@,
            bslash@ == "b/"@,
            strings_view(out@) == targets(strings_view(ls@).take(i as int)),
        decreases ls@.len() - i,
    {
        let l = chars_of(ls[i].as_str());
        proof {
            reveal_strlit("+++");
            reveal_strlit("b/");
            let t = strings_view(ls@).take(i + 1);
            assert(t.drop_last() =~= strings_view(ls@).take(i as int));
            assert(t.last() == l@);
        }
        if starts_with_chars(l.as_slice(), plus3.as_slice()) {
            let after = slice_chars(l.as_slice(), 3, l.len());
            assert(after@ =~= l@.skip(3));
            let rest = trim_chars(after.as_slice());
            let name = if starts_with_chars(rest.as_slice(), bslash.as_slice()) {
                let n = slice_chars(rest.as_slice(), 2, rest.len());
                assert(n@ =~= rest@.skip(2));
                n
            } else {
                rest
            };
            let s = string_from_chars(name.as_slice());
            if name.len() > 0 && !same_text(s.as_str(), "/dev/null") {
                let ghost before = strings_view(out@);
                out.push(s);
                proof {
                    assert(strings_view(out@) =~= before.push(name@));
                }
            }
        }
        i = i + 1;
    }
    proof {
        assert(strings_view(ls@).take(ls@.len() as int) =~= strings_view(ls@));
    }
    out
}


/// The numbers of a hunk header "@@ -a,b +c,d @@".
#[derive(Debug, Clone, Copy, PartialEq, Eq, Structural)]
pub struct HunkHeader {
    pub old_start: usize,
    pub old_count: usize,
    pub new_start: usize,
    pub new_count: usize,
}

/// `c` is a decimal digit.
pub open spec fn is_digit(c: char) -> bool {
    '0' <= c && c <= '9'
}

/// The value of a string of decimal digits.
pub open spec fn digits_value(s: Seq<char>) -> nat
    decreases s.len(),
{
    if s.len() == 0 {
        0
    } else {
        (digits_value(s.drop_last()) * 10 + (s.last() as u32 as int - 48)) as nat
    }
}

/// The text of a number without its plus sign, if it has one.
pub open spec fn unsigned_digits(s: Seq<char>) -> Seq<char> {
    if s.len() > 0 && s[0] == '+' {
        s.drop_first()
    } else {
        s
    }
}

/// Every character is a decimal digit.
pub open spec fn all_digits(d: Seq<char>) -> bool {
    forall|i: int| 0 <= i < d.len() ==> is_digit(#[trigger] d[i])
}

/// An unsigned number as `usize::from_str` reads it: an optional plus
/// sign, then one or more digits, with a value that fits.
pub open spec fn parse_unsigned(s: Seq<char>) -> Option<nat> {
    let d = unsigned_digits(s);
    if d.len() > 0 && all_digits(d) && digits_value(d) <= usize::MAX {
        Some(digits_value(d))
    } else {
        None
    }
}

/// Reads an unsigned number.
pub fn parse_usize(s: &[char]) -> (r: Option<usize>)
    ensures
        match parse_unsigned(s@) {
            Some(v) => r == Some(v as usize),
            None => r is None,
        },
{
    let start: usize = if s.len() > 0 && s[0] == '+' { 1 } else { 0 };
    let ghost d = unsigned_digits(s@);
    proof {
        assert(d =~= s@.skip(start as int));
    }
    if start >= s.len() {
        return None;
    }
    let mut v: usize = 0;
    let mut i: usize = start;
    while i < s.len()
        invariant
            start <= i <= s@.len(),
            start < s@.len(),
            d =~= s@.skip(start as int),
            d == unsigned_digits(s@),
            forall|k: int| start <= k < i ==> is_digit(#[trigger] s@[k]),
            v as nat == digits_value(s@.subrange(start as int, i as int)),
        decreases s@.len() - i,
    {
        let c = s[i];
        if !('0' <= c && c <= '9') {
            proof {
                assert(d[i - start] == c);
                assert(!is_digit(d[i - start]));
                assert(!all_digits(d));
                assert(parse_unsigned(s@) is None);
            }
            return None;
        }
        let digit = (c as u32 - '0' as u32) as usize;
        proof {
            assert(s@.subrange(start as int, i + 1).drop_last() =~= s@.subrange(start as int, i as int));
        }
        if v > (usize::MAX - digit) / 10 {
            proof {
                assert(digits_value(s@.subrange(start as int, i + 1)) == v * 10 + digit);
                assert(v * 10 + digit > usize::MAX) by (nonlinear_arith)
                    requires
                        v > (usize::MAX - digit) / 10,
                        digit <= 9,
                ;
                if all_digits(d) {
                    lemma_digits_prefix_bound(d, (i + 1 - start) as int);
                    assert(s@.subrange(start as int, i + 1) =~= d.take((i + 1 - start) as int));
                    assert(digits_value(d) > usize::MAX);
                }
                assert(parse_unsigned(s@) is None);
            }
            return None;
        }
        v = v * 10 + digit;
        i = i + 1;
    }
    proof {
        assert(s@.subrange(start as int, s@.len() as int) =~= d);
    }
    Some(v)
}

/// A prefix of a digit string is worth no more than the whole.
proof fn lemma_digits_prefix_bound(d: Seq<char>, k: int)
    requires
        0 <= k <= d.len(),
        all_digits(d),
    ensures
        digits_value(d.take(k)) <= digits_value(d),
    decreases d.len() - k,
{
    if k < d.len() {
        lemma_digits_prefix_bound(d, k + 1);
        assert(d.take(k + 1).drop_last() =~= d.take(k));
        assert(is_digit(d[k]));
    } else {
        assert(d.take(k) =~= d);
    }
}


/// Index of the first blank at or after `i`, or the length.
pub open spec fn word_end(t: Seq<char>, i: int) -> int
    decreases t.len() - i,
{
    if i >= t.len() || i < 0 || is_blank(t[i]) {
        i
    } else {
        word_end(t, i + 1)
    }
}

/// The words of a text: its runs of characters that are not blank.
pub open spec fn words(s: Seq<char>) -> Seq<Seq<char>>
    decreases s.len(),
{
    let t = trim_start(s);
    let w = word_end(t, 0);
    if t.len() == 0 || t.len() > s.len() || w < 1 || w > t.len() {
        Seq::empty()
    } else {
        seq![t.take(w)] + words(t.skip(w))
    }
}

proof fn lemma_trim_start_shape(s: Seq<char>)
    ensures
        trim_start(s).len() <= s.len(),
        trim_start(s).len() > 0 ==> !is_blank(trim_start(s)[0]),
        trim_start(s) == s.skip(s.len() - trim_start(s).len()),
    decreases s.len(),
{
    if s.len() > 0 && is_blank(s[0]) {
        lemma_trim_start_shape(s.drop_first());
        assert(s.drop_first().skip(s.drop_first().len() - trim_start(s.drop_first()).len()) =~= s.skip(
            s.len() - trim_start(s.drop_first()).len(),
        ));
    } else {
        assert(s.skip(0) =~= s);
    }
}

proof fn lemma_word_end_bounds(t: Seq<char>, i: int)
    requires
        0 <= i <= t.len(),
    ensures
        i <= word_end(t, i) <= t.len(),
        forall|k: int| i <= k < word_end(t, i) ==> !is_blank(#[trigger] t[k]),
        word_end(t, i) < t.len() ==> is_blank(t[word_end(t, i)]),
    decreases t.len() - i,
{
    if i < t.len() && !is_blank(t[i]) {
        lemma_word_end_bounds(t, i + 1);
    }
}

/// The words of a text, in order.
pub fn split_words(s: &[char]) -> (r: Vec<Vec<char>>)
    ensures
        r@.map_values(|w: Vec<char>| w@) == words(s@),
{
    let mut out: Vec<Vec<char>> = Vec::new();
    let mut pos: usize = 0;
    let n = s.len();
    proof {
        assert(s@.skip(0) =~= s@);
    }
    while pos < n
        invariant
            n == s@.len(),
            pos <= n,
            out@.map_values(|w: Vec<char>| w@) + words(s@.skip(pos as int)) == words(s@),
        decreases n - pos,
    {
        let ghost before = out@.map_values(|w: Vec<char>| w@);
        let ghost rest = s@.skip(pos as int);
        let a = skip_blank_forward(s, pos);
        proof {
            lemma_trim_start_shape(rest);
            assert(trim_start(rest) == s@.skip(a as int));
        }
        if a == n {
            proof {
                assert(words(rest) == Seq::<Seq<char>>::empty());
                assert(s@.skip(a as int).len() == 0);
            }
            pos = n;
            proof {
                assert(s@.skip(pos as int) =~= Seq::<char>::empty());
                assert(words(s@.skip(pos as int)) == Seq::<Seq<char>>::empty());
            }
        } else {
            let mut b = a;
            while b < n && !is_whitespace(s[b])
                invariant
                    n == s@.len(),
                    a <= b <= n,
                    forall|k: int| a <= k < b ==> !is_blank(#[trigger] s@[k]),
                decreases n - b,
            {
                b = b + 1;
            }
            let ghost t = s@.skip(a as int);
            proof {
                lemma_word_end_bounds(t, 0);
                lemma_word_end_eq(t, 0, (b - a) as int);
                assert(t.take((b - a) as int) =~= s@.subrange(a as int, b as int));
                assert(t.skip((b - a) as int) =~= s@.skip(b as int));
                assert(!is_blank(t[0]));
            }
            let w = slice_chars(s, a, b);
            out.push(w);
            proof {
                assert(out@.map_values(|w: Vec<char>| w@) =~= before.push(s@.subrange(a as int, b as int)));
                assert(words(rest) == seq![s@.subrange(a as int, b as int)] + words(s@.skip(b as int)));
            }
            pos = b;
        }
    }
    proof {
        assert(s@.skip(n as int) =~= Seq::<char>::empty());
        assert(words(Seq::<char>::empty()) == Seq::<Seq<char>>::empty());
    }
    out
}

proof fn lemma_word_end_eq(t: Seq<char>, i: int, e: int)
    requires
        0 <= i <= e <= t.len(),
        forall|k: int| i <= k < e ==> !is_blank(#[trigger] t[k]),
        e == t.len() || is_blank(t[e]),
    ensures
        word_end(t, i) == e,
    decreases e - i,
{
    if i < e {
        lemma_word_end_eq(t, i + 1, e);
    }
}

/// A range "start,count", or "start" with a count of one.
pub open spec fn parse_range(s: Seq<char>) -> Option<(nat, nat)> {
    match find_from(s, seq![','], 0) {
        Some(i) => match (parse_unsigned(s.take(i)), parse_unsigned(s.skip(i + 1))) {
            (Some(a), Some(b)) => Some((a, b)),
            _ => None,
        },
        None => match parse_unsigned(s) {
            Some(a) => Some((a, 1)),
            None => None,
        },
    }
}

fn range_of(s: &[char]) -> (r: Option<(usize, usize)>)
    ensures
        match parse_range(s@) {
            Some(p) => r == Some((p.0 as usize, p.1 as usize)),
            None => r is None,
        },
{
    let slen = s.len();
    let comma: [char; 1] = [','];
    assert(comma@ =~= seq![',']);
    match find_chars(s, comma.as_slice(), 0) {
        Some(i) => {
            proof {
                crate::text::lemma_find_from_bounds(s@, seq![','], 0);
            }
            let a = slice_chars(s, 0, i);
            let b = slice_chars(s, i + 1, slen);
            assert(a@ =~= s@.take(i as int));
            assert(b@ =~= s@.skip(i + 1));
            match (parse_usize(a.as_slice()), parse_usize(b.as_slice())) {
                (Some(x), Some(y)) => Some((x, y)),
                _ => None,
            }
        },
        None => match parse_usize(s) {
            Some(x) => Some((x, 1)),
            None => None,
        },
    }
}

/// The numbers of a hunk header line.
pub open spec fn hunk_of(line: Seq<char>) -> Option<(nat, nat, nat, nat)> {
    let a = line.skip(2);
    if has_prefix(line, "@@"@) && a.len() >= 2 && a.skip(a.len() - 2) == "@@"@ {
        let ws = words(a.take(a.len() - 2));
        if ws.len() >= 2 && has_prefix(ws[0], "-"@) && has_prefix(ws[1], "+"@) {
            match (parse_range(ws[0].skip(1)), parse_range(ws[1].skip(1))) {
                (Some(o), Some(n)) => Some((o.0, o.1, n.0, n.1)),
                _ => None,
            }
        } else {
            None
        }
    } else {
        None
    }
}

/// Reads a hunk header "@@ -a,b +c,d @@"; a range without a count counts
/// one line.
pub fn parse_hunk_header(line: &str) -> (r: Option<HunkHeader>)
    ensures
        match hunk_of(line@) {
            Some(h) => r == Some(HunkHeader {
                old_start: h.0 as usize,
                old_count: h.1 as usize,
                new_start: h.2 as usize,
                new_count: h.3 as usize,
            }),
            None => r is None,
        },
{
    let c = chars_of(line);
    let at = chars_of("@@");
    proof {
        reveal_strlit("@@");
        reveal_strlit("-");
        reveal_strlit("+");
    }
    if !starts_with_chars(c.as_slice(), at.as_slice()) || c.len() < 4 {
        proof {
            if has_prefix(c@, "@@"@) {
                assert(c@.skip(2).len() < 2);
            }
        }
        return None;
    }
    let n = c.len();
    let tail = slice_chars(c.as_slice(), n - 2, n);
    let ghost a = c@.skip(2);
    proof {
        assert(a.skip(a.len() - 2) =~= tail@);
    }
    if !same_chars(tail.as_slice(), at.as_slice()) {
        return None;
    }
    let inner = slice_chars(c.as_slice(), 2, n - 2);
    assert(inner@ =~= a.take(a.len() - 2));
    let ws = split_words(inner.as_slice());
    if ws.len() < 2 {
        return None;
    }
    let minus = chars_of("-");
    let plus = chars_of("+");
    proof {
        assert(ws@[0]@ == words(inner@)[0]);
        assert(ws@[1]@ == words(inner@)[1]);
    }
    if !starts_with_chars(ws[0].as_slice(), minus.as_slice()) || !starts_with_chars(ws[1].as_slice(), plus.as_slice()) {
        return None;
    }
    let old_part = slice_chars(ws[0].as_slice(), 1, ws[0].len());
    let new_part = slice_chars(ws[1].as_slice(), 1, ws[1].len());
    assert(old_part@ =~= ws@[0]@.skip(1));
    assert(new_part@ =~= ws@[1]@.skip(1));
    match (range_of(old_part.as_slice()), range_of(new_part.as_slice())) {
        (Some(o), Some(nw)) => Some(HunkHeader { old_start: o.0, old_count: o.1, new_start: nw.0, new_count: nw.1 }),
        _ => None,
    }
}

/// Whether two character slices are equal.
fn same_chars(a: &[char], b: &[char]) -> (r: bool)
    ensures
        r == (a@ == b@),
{
    if a.len() != b.len() {
        return false;
    }
    let r = occurs_at_exec(a, b, 0);
    proof {
        assert(a@.subrange(0, b@.len() as int) =~= a@);
    }
    r
}

} // verus!
