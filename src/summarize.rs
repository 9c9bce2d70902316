use vstd::prelude::*;
use crate::text::{chars_of, decimal, decimal_of, lines_of, string_from_chars, strings_view, text_lines, trim, trim_chars};

verus! {

/// `ls` joined with `sep` between them.
pub open spec fn joined(ls: Seq<Seq<char>>, sep: Seq<char>) -> Seq<char>
    decreases ls.len(),
{
    if ls.len() == 0 {
        Seq::empty()
    } else if ls.len() == 1 {
        ls[0]
    } else {
        joined(ls.drop_last(), sep) + sep + ls.last()
    }
}

/// Joins texts with a separator between them.
pub fn join_with(ls: &Vec<String>, sep: &str) -> (r: String)
    ensures
        r@ == joined(strings_view(ls@), sep@),
{
    let mut out = String::new();
    let mut i: usize = 0;
    while i < ls.len()
        invariant
            i <= ls@.len(),
            out@ == joined(strings_view(ls@).take(i as int), sep@),
        decreases ls@.len() - i,
    {
        proof {
            let t = strings_view(ls@).take(i + 1);
            assert(t.drop_last() =~= strings_view(ls@).take(i as int));
        }
        if i > 0 {
            out.append(sep);
        }
        out.append(ls[i].as_str());
        proof {
            let t = strings_view(ls@).take(i + 1);
            assert(out@ =~= joined(t, sep@));
        }
        i = i + 1;
    }
    proof {
        assert(strings_view(ls@).take(ls@.len() as int) =~= strings_view(ls@));
    }
    out
}

/// The request to summarize one part of a text.
pub open spec fn chunk_prompt_of(index: nat, total: nat, chunk: Seq<char>) -> Seq<char> {
    "Summarize the following content (part "@ + decimal_of(index + 1) + "/"@ + decimal_of(total)
        + "). Focus on key points and be concise.\n\n"@ + chunk
}

/// Asks for a summary of part `index` (from zero) of `total`.
pub fn chunk_prompt(index: usize, total: usize, chunk: &str) -> (r: String)
    requires
        index < total,
    ensures
        r@ == chunk_prompt_of(index as nat, total as nat, chunk@),
{
    let mut p = "Summarize the following content (part ".to_owned();
    let a = decimal((index + 1) as u64);
    p.append(a.as_str());
    p.append("/");
    let b = decimal(total as u64);
    p.append(b.as_str());
    p.append("). Focus on key points and be concise.\n\n");
    p.append(chunk);
    p
}

/// The request to merge partial summaries into one.
pub open spec fn synthesis_prompt_of(parts: Seq<Seq<char>>) -> Seq<char> {
    "Synthesize a concise overall summary from these parts:\n- "@ + joined(parts, "\n- "@)
}

/// Asks for one summary of several partial summaries.
pub fn synthesis_prompt(parts: &Vec<String>) -> (r: String)
    ensures
        r@ == synthesis_prompt_of(strings_view(parts@)),
{
    let mut p = "Synthesize a concise overall summary from these parts:\n- ".to_owned();
    let j = join_with(parts, "\n- ");
    p.append(j.as_str());
    p
}

/// The offline stand-in for a chunk's summary: the first line of the
/// trimmed chunk.
pub open spec fn first_line_of(chunk: Seq<char>) -> Seq<char> {
    let ls = lines_of(trim(chunk));
    if ls.len() > 0 {
        ls[0]
    } else {
        Seq::empty()
    }
}

/// The offline summary of chunks: their first lines, joined by " | ".
pub open spec fn offline_summary_of(chunks: Seq<Seq<char>>) -> Seq<char> {
    joined(chunks.map_values(|c: Seq<char>| first_line_of(c)), " | "@)
}

/// Summarizes chunks without a model: the first line of each, joined.
pub fn offline_summary(chunks: &Vec<(usize, String)>) -> (r: String)
    ensures
        r@ == offline_summary_of(chunks@.map_values(|p: (usize, String)| p.1@)),
{
    let mut firsts: Vec<String> = Vec::new();
    let mut i: usize = 0;
    while i < chunks.len()
        invariant
            i <= chunks@.len(),
            firsts@.len() == i,
            forall|j: int| 0 <= j < i ==> #[trigger] firsts@[j]@ == first_line_of(chunks@[j].1@),
        decreases chunks@.len() - i,
    {
        let cs = chars_of(chunks[i].1.as_str());
        let t = trim_chars(cs.as_slice());
        let ts = string_from_chars(t.as_slice());
        let ls = text_lines(ts.as_str());
        let first = if ls.len() > 0 {
            proof {
                assert(strings_view(ls@)[0] == ls@[0]@);
            }
            ls[0].clone()
        } else {
            String::new()
        };
        firsts.push(first);
        i = i + 1;
    }
    proof {
        assert(strings_view(firsts@) =~= chunks@.map_values(|p: (usize, String)| p.1@).map_values(
            |c: Seq<char>| first_line_of(c),
        ));
    }
    join_with(&firsts, " | ")
}

} // verus!
