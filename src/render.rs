use vstd::prelude::*;
use crate::llm::{json_quoted, json_string};
use crate::files::last_index;
use crate::text::{chars_of, find_chars, find_from, lemma_find_from_bounds, slice_chars, string_from_chars, strings_view, trim, trim_chars};

verus! {

/// A failure as reported in machine-readable output.
#[derive(Debug)]
pub struct ErrorOut {
    pub code: String,
    pub message: String,
    pub hint: Option<String>,
}

/// The JSON object for a failure; the hint is left out when absent.
pub open spec fn error_json_of(code: Seq<char>, message: Seq<char>, hint: Option<Seq<char>>) -> Seq<char> {
    "{\"code\":"@ + json_quoted(code) + ",\"message\":"@ + json_quoted(message) + match hint {
        Some(h) => ",\"hint\":"@ + json_quoted(h),
        None => Seq::empty(),
    } + "}"@
}

impl ErrorOut {
    /// The failure as one line of JSON.
    pub fn to_json(&self) -> (r: String)
        ensures
            r@ == error_json_of(
                self.code@,
                self.message@,
                match self.hint {
                    Some(h) => Some(h@),
                    None => None,
                },
            ),
    {
        let mut out = "{\"code\":".to_owned();
        let c = json_string(self.code.as_str());
        out.append(c.as_str());
        out.append(",\"message\":");
        let m = json_string(self.message.as_str());
        out.append(m.as_str());
        if let Some(h) = &self.hint {
            out.append(",\"hint\":");
            let q = json_string(h.as_str());
            out.append(q.as_str());
        }
        out.append("}");
        out
    }
}

/// Review findings, by topic.
#[derive(Debug)]
pub struct Feedback {
    pub correctness: Vec<String>,
    pub style: Vec<String>,
    pub security: Vec<String>,
    pub tests: Vec<String>,
    pub suggestions: Vec<String>,
}

/// One bullet line for each item.
pub open spec fn bullets(items: Seq<Seq<char>>) -> Seq<char>
    decreases items.len(),
{
    if items.len() == 0 {
        Seq::empty()
    } else {
        bullets(items.drop_last()) + "- "@ + items.last() + "\n"@
    }
}

/// The plain-text rendering of review findings.
pub open spec fn review_text_of(f: Feedback) -> Seq<char> {
    "Correctness:\n"@ + bullets(strings_view(f.correctness@)) + "\nStyle:\n"@ + bullets(
        strings_view(f.style@),
    ) + "\nSecurity:\n"@ + bullets(strings_view(f.security@)) + "\nTests:\n"@ + bullets(
        strings_view(f.tests@),
    ) + "\nSuggestions:\n"@ + bullets(strings_view(f.suggestions@))
}

fn append_bullets(out: &mut String, items: &Vec<String>)
    ensures
        final(out)@ == old(out)@ + bullets(strings_view(items@)),
{
    let ghost start = out@;
    let mut i: usize = 0;
    while i < items.len()
        invariant
            i <= items@.len(),
            out@ == start + bullets(strings_view(items@).take(i as int)),
        decreases items@.len() - i,
    {
        out.append("- ");
        out.append(items[i].as_str());
        out.append("\n");
        proof {
            let t = strings_view(items@).take(i + 1);
            assert(t.drop_last() =~= strings_view(items@).take(i as int));
            assert(out@ =~= start + bullets(t));
        }
        i = i + 1;
    }
    proof {
        assert(strings_view(items@).take(items@.len() as int) =~= strings_view(items@));
    }
}

impl Feedback {
    /// Renders the findings under one heading per topic.
    pub fn review_text(&self) -> (r: String)
        ensures
            r@ == review_text_of(*self),
    {
        let mut out = "Correctness:\n".to_owned();
        append_bullets(&mut out, &self.correctness);
        out.append("\nStyle:\n");
        append_bullets(&mut out, &self.style);
        out.append("\nSecurity:\n");
        append_bullets(&mut out, &self.security);
        out.append("\nTests:\n");
        append_bullets(&mut out, &self.tests);
        out.append("\nSuggestions:\n");
        append_bullets(&mut out, &self.suggestions);
        proof {
            assert(out@ =~= review_text_of(*self));
        }
        out
    }
}

} // verus!

verus! {

/// The part of a model's answer that holds a JSON object: from the first
/// `{` (or the start) to the last `}` (or the end) of the trimmed answer;
/// empty when the last `}` comes before the first `{`.
pub open spec fn json_object_span(text: Seq<char>) -> Seq<char> {
    let s = trim(text);
    let start = match find_from(s, seq!['{'], 0) {
        Some(i) => i,
        None => 0,
    };
    let end = match last_index(s, '}') {
        Some(i) => i + 1,
        None => s.len() as int,
    };
    if start <= end {
        s.subrange(start, end)
    } else {
        Seq::empty()
    }
}

/// Cuts the JSON object out of a model's answer.
pub fn extract_json_object(text: &str) -> (r: String)
    ensures
        r@ == json_object_span(text@),
{
    let c = chars_of(text);
    let s = trim_chars(c.as_slice());
    let n = s.len();
    let brace: [char; 1] = ['{'];
    assert(brace@ =~= seq!['{']);
    let start = match find_chars(s.as_slice(), brace.as_slice(), 0) {
        Some(i) => {
            proof {
                lemma_find_from_bounds(s@, seq!['{'], 0);
            }
            i
        },
        None => 0,
    };
    let mut k = n;
    assert(s@.take(k as int) =~= s@);
    while k > 0 && s[k - 1] != '}'
        invariant
            k <= n,
            n == s@.len(),
            last_index(s@, '}') == last_index(s@.take(k as int), '}'),
        decreases k,
    {
        proof {
            assert(s@.take(k as int).drop_last() =~= s@.take(k - 1));
        }
        k = k - 1;
    }
    let end = if k > 0 {
        proof {
            assert(s@.take(k as int).last() == s@[k - 1]);
        }
        k
    } else {
        n
    };
    if start <= end {
        let piece = slice_chars(s.as_slice(), start, end);
        string_from_chars(piece.as_slice())
    } else {
        String::new()
    }
}

} // verus!
