use vstd::prelude::*;
use crate::llm::{ChatMessage, Usage, messages_view};
use crate::util::{estimate_tokens_for_text, estimated_tokens, millis_since_epoch};
use crate::text::{chars_of, contains_str, has_infix, lemma_lines_append, lines_of, lower_of, lowercase, strings_view, text_lines};
use crate::text::{is_blank, is_whitespace};

verus! {

/// One conversational turn of a stored conversation.
#[derive(Debug)]
pub struct SessionRecord {
    pub timestamp_ms: i64,
    pub role: String,
    pub content: String,
    pub model: Option<String>,
    pub usage: Option<Usage>,
}

/// The message a stored turn becomes when it is sent again.
pub open spec fn record_message(r: SessionRecord) -> (Seq<char>, Seq<char>) {
    (r.role@, r.content@)
}

/// `history` as messages, followed by the new user turn.
pub open spec fn conversation_with(history: Seq<SessionRecord>, new_text: Seq<char>) -> Seq<(Seq<char>, Seq<char>)> {
    history.map_values(|r: SessionRecord| record_message(r)).push((seq!['u', 's', 'e', 'r'], new_text))
}

/// Total estimated token cost of a list of messages.
pub open spec fn total_cost(msgs: Seq<(Seq<char>, Seq<char>)>) -> nat
    decreases msgs.len(),
{
    if msgs.len() == 0 {
        0
    } else {
        estimated_tokens(msgs[0].1) + total_cost(msgs.drop_first())
    }
}

/// Cost of the last `k` messages of `msgs`.
pub open spec fn suffix_cost(msgs: Seq<(Seq<char>, Seq<char>)>, k: int) -> nat {
    total_cost(msgs.subrange(msgs.len() - k, msgs.len() as int))
}

/// The last `k` messages of `msgs`, in their original order.
pub open spec fn last_n(msgs: Seq<(Seq<char>, Seq<char>)>, k: int) -> Seq<(Seq<char>, Seq<char>)> {
    msgs.subrange(msgs.len() - k, msgs.len() as int)
}

/// What a truncation of `msgs` to `budget` keeps: the longest suffix that
/// fits the budget, and never less than the last message.
pub open spec fn is_budget_suffix(msgs: Seq<(Seq<char>, Seq<char>)>, budget: nat, k: int) -> bool {
    &&& 1 <= k <= msgs.len()
    &&& k > 1 ==> suffix_cost(msgs, k) <= budget
    &&& k < msgs.len() ==> suffix_cost(msgs, k + 1) > budget
}

proof fn lemma_total_cost_prepend(msgs: Seq<(Seq<char>, Seq<char>)>, i: int)
    requires
        0 < i <= msgs.len(),
    ensures
        total_cost(msgs.subrange(i - 1, msgs.len() as int)) == estimated_tokens(msgs[i - 1].1)
            + total_cost(msgs.subrange(i, msgs.len() as int)),
{
    let s = msgs.subrange(i - 1, msgs.len() as int);
    assert(s.drop_first() =~= msgs.subrange(i, msgs.len() as int));
}

/// Builds the message list for a request: the stored history in order, then
/// the new user turn, cut from the oldest end so that the estimated token
/// cost stays within `max_tokens`. The new turn is always kept.
pub fn build_messages_with_truncation(
    history: &[SessionRecord],
    new_user_message: &str,
    max_tokens: usize,
) -> (r: Vec<ChatMessage>)
    ensures
        ({
            let all = conversation_with(history@, new_user_message@);
            let k = r@.len() as int;
            &&& is_budget_suffix(all, max_tokens as nat, k)
            &&& messages_view(r@) == last_n(all, k)
        }),
        // the newest turn is always kept, and it is the new user message
        r@.len() >= 1,
        r@[r@.len() - 1]@ == (seq!['u', 's', 'e', 'r'], new_user_message@),
{
    let ghost all = conversation_with(history@, new_user_message@);
    let mut messages: Vec<ChatMessage> = Vec::new();
    let mut i: usize = 0;
    while i < history.len()
        invariant
            i <= history@.len(),
            messages@.len() == i,
            forall|j: int| 0 <= j < i ==> #[trigger] messages@[j]@ == record_message(history@[j]),
        decreases history@.len() - i,
    {
        let m = ChatMessage { role: history[i].role.clone(), content: history[i].content.clone() };
        messages.push(m);
        i = i + 1;
    }
    messages.push(ChatMessage::new("user", new_user_message));
    proof {
        reveal_strlit("user");
        assert forall|j: int| 0 <= j < all.len() implies messages_view(messages@)[j] == all[j] by {
            if j < history@.len() {
                assert(messages@[j]@ == record_message(history@[j]));
            }
        }
        assert(messages_view(messages@) =~= all);
    }
    // Walk back from the newest message while the budget allows.
    let n = messages.len();
    let mut start: usize = n;
    let mut total: usize = 0;
    let mut full = false;
    while start > 0 && !full
        invariant
            n == messages@.len(),
            messages_view(messages@) == all,
            all.len() == n,
            n >= 1,
            start <= n,
            total == suffix_cost(all, n - start),
            n - start > 1 ==> total <= max_tokens,
            start < n - 1 ==> total <= max_tokens,
            start == n - 1 ==> total == estimated_tokens(all[n - 1].1),
            full ==> 0 < start < n && suffix_cost(all, n - start + 1) > max_tokens,
        decreases start + if full { 0int } else { 1int },
    {
        let t = estimate_tokens_for_text(messages[start - 1].content.as_str());
        proof {
            lemma_total_cost_prepend(all, start as int);
            assert(all[start - 1] == messages@[start - 1]@);
        }
        if start < n && (total > max_tokens || t > max_tokens - total) {
            full = true;
        } else {
            total = total + t;
            start = start - 1;
        }
    }
    proof {
        assert(all.subrange(n as int, n as int) =~= Seq::<(Seq<char>, Seq<char>)>::empty());
    }
    let mut kept: Vec<ChatMessage> = Vec::new();
    let mut j: usize = start;
    while j < n
        invariant
            start <= j <= n,
            n == messages@.len(),
            messages_view(messages@) == all,
            kept@.len() == j - start,
            forall|x: int| 0 <= x < j - start ==> #[trigger] kept@[x]@ == all[start + x],
        decreases n - j,
    {
        kept.push(messages[j].duplicate());
        j = j + 1;
    }
    proof {
        assert(messages_view(kept@) =~= last_n(all, kept@.len() as int));
        assert(messages_view(kept@)[kept@.len() - 1] == kept@[kept@.len() - 1]@);
    }
    kept
}


/// Name of the application's directory under the OS data directory.
pub const APP_DIR_NAME: &'static str = "sw-assistant";

/// Summary of one stored conversation.
#[derive(Debug)]
pub struct SessionMeta {
    pub name: String,
    pub path: String,
    pub last_used_ms: Option<i64>,
    pub num_lines: usize,
    pub file_size: u64,
}

/// What `Path::join` makes of a base and a name.
pub uninterp spec fn join_path(base: Seq<char>, name: Seq<char>) -> Seq<char>;

/// Relies on `std::path::Path::join`: the name appended to the base with a
/// separator where needed, or the name alone when it is absolute. A
/// function of the two texts alone; both are UTF-8, so the result is too.
#[verifier::external_body]
fn path_join(base: &str, name: &str) -> (r: String)
    ensures
        r@ == join_path(base@, name@),
{
    std::path::Path::new(base).join(name).to_string_lossy().into_owned()
}

/// The directory that holds the conversation logs, under the OS data
/// directory `data_dir`.
pub fn sessions_dir(data_dir: &str) -> (r: String)
    ensures
        r@ == join_path(join_path(data_dir@, "sw-assistant"@), "sessions"@),
{
    let app = path_join(data_dir, APP_DIR_NAME);
    path_join(app.as_str(), "sessions")
}

/// The file that names the active conversation.
pub fn active_session_path(data_dir: &str) -> (r: String)
    ensures
        r@ == join_path(join_path(data_dir@, "sw-assistant"@), "active_session"@),
{
    let app = path_join(data_dir, APP_DIR_NAME);
    path_join(app.as_str(), "active_session")
}

/// The log file of the conversation `name`.
pub fn session_file_path(data_dir: &str, name: &str) -> (r: String)
    ensures
        r@ == join_path(
            join_path(join_path(data_dir@, "sw-assistant"@), "sessions"@),
            name@ + ".jsonl"@,
        ),
{
    let dir = sessions_dir(data_dir);
    let mut file = name.to_owned();
    file.append(".jsonl");
    path_join(dir.as_str(), file.as_str())
}

/// A count of milliseconds as an `i64`, saturated at `i64::MAX`.
pub fn clamp_ms(ms: u128) -> (r: i64)
    ensures
        r as int == if ms > i64::MAX as u128 { i64::MAX as int } else { ms as int },
{
    if ms > i64::MAX as u128 {
        i64::MAX
    } else {
        ms as i64
    }
}

/// The current time in milliseconds since the Unix epoch, saturated at
/// `i64::MAX`.
pub fn now_ms() -> (r: i64)
    ensures
        r >= 0,
{
    clamp_ms(millis_since_epoch())
}

/// What is known of a record for searching and copying.
pub open spec fn record_view(r: SessionRecord) -> (i64, Seq<char>, Seq<char>, Option<Seq<char>>, Option<Usage>) {
    (
        r.timestamp_ms,
        r.role@,
        r.content@,
        match r.model {
            Some(m) => Some(m@),
            None => None,
        },
        r.usage,
    )
}

impl SessionRecord {
    /// A copy of this record.
    pub fn duplicate(&self) -> (r: SessionRecord)
        ensures
            record_view(r) == record_view(*self),
    {
        let model = match &self.model {
            Some(m) => Some(m.clone()),
            None => None,
        };
        SessionRecord {
            timestamp_ms: self.timestamp_ms,
            role: self.role.clone(),
            content: self.content.clone(),
            model,
            usage: self.usage,
        }
    }
}

/// The record matches a search: its text contains the needle, ignoring case.
pub open spec fn record_matches(r: SessionRecord, needle: Seq<char>) -> bool {
    has_infix(lower_of(r.content@), lower_of(needle))
}

/// The records of `history` whose text contains `needle`, ignoring case,
/// in their original order.
pub fn search_session(history: &[SessionRecord], needle: &str) -> (r: Vec<SessionRecord>)
    ensures
        r@.map_values(|x: SessionRecord| record_view(x)) == history@.filter(
            |x: SessionRecord| record_matches(x, needle@),
        ).map_values(|x: SessionRecord| record_view(x)),
{
    let needle_lower = lowercase(needle);
    let mut out: Vec<SessionRecord> = Vec::new();
    let mut i: usize = 0;
    while i < history.len()
        invariant
            i <= history@.len(),
            needle_lower@ == lower_of(needle@),
            out@.map_values(|x: SessionRecord| record_view(x)) == history@.take(i as int).filter(
                |x: SessionRecord| record_matches(x, needle@),
            ).map_values(|x: SessionRecord| record_view(x)),
        decreases history@.len() - i,
    {
        let content_lower = lowercase(history[i].content.as_str());
        let hit = contains_str(content_lower.as_str(), needle_lower.as_str());
        let ghost before = out@;
        proof {
            let t = history@.take(i + 1);
            assert(t.drop_last() =~= history@.take(i as int));
            assert(t.last() == history@[i as int]);
            reveal(Seq::filter);
        }
        if hit {
            out.push(history[i].duplicate());
            proof {
                assert(out@ =~= before.push(out@.last()));
                assert(out@.map_values(|x: SessionRecord| record_view(x)) =~= before.map_values(
                    |x: SessionRecord| record_view(x),
                ).push(record_view(history@[i as int])));
            }
        }
        i = i + 1;
    }
    proof {
        assert(history@.take(history@.len() as int) =~= history@);
    }
    out
}

/// The number of lines of a log and the timestamp of its last readable
/// record; `parsed` holds, for each line, the timestamp of the record it
/// holds, or `None` when it holds none.
pub fn summarize_log(parsed: &[Option<i64>]) -> (r: (usize, Option<i64>))
    ensures
        r.0 == parsed@.len(),
        r.1 == last_timestamp(parsed@),
{
    let mut last: Option<i64> = None;
    let mut i: usize = 0;
    while i < parsed.len()
        invariant
            i <= parsed@.len(),
            last == last_timestamp(parsed@.take(i as int)),
        decreases parsed@.len() - i,
    {
        proof {
            assert(parsed@.take(i + 1).drop_last() =~= parsed@.take(i as int));
        }
        if parsed[i].is_some() {
            last = parsed[i];
        }
        i = i + 1;
    }
    proof {
        assert(parsed@.take(parsed@.len() as int) =~= parsed@);
    }
    (parsed.len(), last)
}

/// The last timestamp present in `parsed`.
pub open spec fn last_timestamp(parsed: Seq<Option<i64>>) -> Option<i64>
    decreases parsed.len(),
{
    if parsed.len() == 0 {
        None
    } else if parsed.last() is Some {
        parsed.last()
    } else {
        last_timestamp(parsed.drop_last())
    }
}


/// A line that holds only whitespace.
pub open spec fn is_blank_line(l: Seq<char>) -> bool {
    forall|i: int| 0 <= i < l.len() ==> is_blank(#[trigger] l[i])
}

/// The record lines of a conversation log: its lines that are not blank.
pub open spec fn log_lines(content: Seq<char>) -> Seq<Seq<char>> {
    lines_of(content).filter(|l: Seq<char>| !is_blank_line(l))
}

/// Whether a line holds only whitespace.
fn blank_line(l: &str) -> (r: bool)
    ensures
        r == is_blank_line(l@),
{
    let cs = chars_of(l);
    let mut i: usize = 0;
    while i < cs.len()
        invariant
            cs@ == l@,
            i <= cs@.len(),
            forall|j: int| 0 <= j < i ==> is_blank(#[trigger] cs@[j]),
        decreases cs@.len() - i,
    {
        let c = cs[i];
        if !is_whitespace(c) {
            return false;
        }
        i = i + 1;
    }
    true
}

/// The record lines of a conversation log, in order; blank lines are
/// skipped. Each line is then read as one record, and a line that does not
/// read is skipped too.
pub fn session_lines(content: &str) -> (r: Vec<String>)
    ensures
        strings_view(r@) == log_lines(content@),
{
    let lines = text_lines(content);
    let mut out: Vec<String> = Vec::new();
    let mut i: usize = 0;
    while i < lines.len()
        invariant
            i <= lines@.len(),
            strings_view(lines@) == lines_of(content@),
            strings_view(out@) == strings_view(lines@).take(i as int).filter(
                |l: Seq<char>| !is_blank_line(l),
            ),
        decreases lines@.len() - i,
    {
        let blank = blank_line(lines[i].as_str());
        let ghost before = strings_view(out@);
        proof {
            let t = strings_view(lines@).take(i + 1);
            assert(t.drop_last() =~= strings_view(lines@).take(i as int));
            assert(t.last() == lines@[i as int]@);
            reveal(Seq::filter);
        }
        if !blank {
            out.push(lines[i].clone());
            proof {
                assert(strings_view(out@) =~= before.push(lines@[i as int]@));
            }
        }
        i = i + 1;
    }
    proof {
        assert(strings_view(lines@).take(lines@.len() as int) =~= strings_view(lines@));
    }
    out
}


/// A line that can stand as one record of a log: it holds no line break,
/// is not blank, and does not end with a carriage return (which reading
/// would drop).
pub open spec fn frameable(line: Seq<char>) -> bool {
    !line.contains('\n') && !is_blank_line(line) && line.last() != '\r'
}

/// One record line as it is written to a log: the line and a line break;
/// `None` for a line that could not be read back as the same one record.
pub fn frame_record(line: &str) -> (r: Option<String>)
    ensures
        r is Some <==> frameable(line@),
        r matches Some(f) ==> f@ == line@ + seq!['\n'],
{
    let cs = chars_of(line);
    let n = cs.len();
    let mut i: usize = 0;
    while i < n
        invariant
            n == cs@.len(),
            cs@ == line@,
            i <= n,
            forall|j: int| 0 <= j < i ==> cs@[j] != '\n',
        decreases n - i,
    {
        if cs[i] == '\n' {
            proof {
                assert(line@[i as int] == '\n');
            }
            return None;
        }
        i = i + 1;
    }
    proof {
        assert(!line@.contains('\n')) by {
            if line@.contains('\n') {
                let j = choose|j: int| 0 <= j < line@.len() && line@[j] == '\n';
                assert(cs@[j] != '\n');
            }
        }
    }
    if blank_line(line) {
        return None;
    }
    if cs[n - 1] == '\r' {
        return None;
    }
    let mut out = line.to_owned();
    out.append("\n");
    proof {
        reveal_strlit("\n");
        assert(out@ =~= line@ + seq!['\n']);
    }
    Some(out)
}

/// Round trip of the log framing: appending a framed record line to a log
/// that is empty or ends with a line break, then reading the log again,
/// yields the earlier record lines followed by exactly the new one; the
/// log again ends with a line break.
pub proof fn append_then_load(log: Seq<char>, line: Seq<char>)
    requires
        log.len() == 0 || log.last() == '\n',
        frameable(line),
    ensures
        log_lines(log + (line + seq!['\n'])) == log_lines(log).push(line),
        (log + (line + seq!['\n'])).last() == '\n',
{
    lemma_lines_append(log, line);
    let f = |l: Seq<char>| !is_blank_line(l);
    vstd::seq::Seq::filter_distributes_over_add(lines_of(log), seq![line], f);
    assert(lines_of(log).push(line) =~= lines_of(log) + seq![line]);
    reveal(Seq::filter);
    assert(seq![line].filter(f) =~= seq![line]) by {
        assert(seq![line].drop_last() =~= Seq::<Seq<char>>::empty());
    }
}

/// A log with each of `lines` appended in turn, framed.
pub open spec fn appended(log: Seq<char>, lines: Seq<Seq<char>>) -> Seq<char>
    decreases lines.len(),
{
    if lines.len() == 0 {
        log
    } else {
        appended(log, lines.drop_last()) + (lines.last() + seq!['\n'])
    }
}

/// Repeated appends: after appending `k` framed record lines, reading the
/// log yields the earlier record lines followed by exactly those `k`, in
/// order.
pub proof fn appends_then_load(log: Seq<char>, lines: Seq<Seq<char>>)
    requires
        log.len() == 0 || log.last() == '\n',
        forall|i: int| 0 <= i < lines.len() ==> frameable(#[trigger] lines[i]),
    ensures
        log_lines(appended(log, lines)) == log_lines(log) + lines,
        appended(log, lines).len() == 0 || appended(log, lines).last() == '\n',
    decreases lines.len(),
{
    if lines.len() == 0 {
        assert(log_lines(log) + lines =~= log_lines(log));
    } else {
        let init = lines.drop_last();
        assert forall|i: int| 0 <= i < init.len() implies frameable(#[trigger] init[i]) by {
            assert(init[i] == lines[i]);
        }
        appends_then_load(log, init);
        assert(frameable(lines[lines.len() - 1]));
        append_then_load(appended(log, init), lines.last());
        assert((log_lines(log) + init).push(lines.last()) =~= log_lines(log) + lines);
    }
}

/// Sort key of a conversation's last activity: an absent time sorts
/// below every present one.
pub open spec fn recency_rank(t: Option<i64>) -> int {
    match t {
        Some(v) => v as int,
        None => i64::MIN as int - 1,
    }
}

/// Entry `a` comes before entry `b` when listing newest first; entries
/// equally recent keep their original order.
pub open spec fn listed_before(times: Seq<Option<i64>>, a: int, b: int) -> bool {
    recency_rank(times[a]) > recency_rank(times[b]) || (recency_rank(times[a]) == recency_rank(
        times[b],
    ) && a < b)
}

/// The positions of conversations ordered newest first by last activity,
/// equally recent ones (and those never used) in their original order.
pub fn recency_order(times: &[Option<i64>]) -> (r: Vec<usize>)
    ensures
        r@.len() == times@.len(),
        r@.no_duplicates(),
        forall|k: int| 0 <= k < r@.len() ==> r@[k] < times@.len(),
        forall|a: int, b: int| 0 <= a < b < r@.len() ==> listed_before(times@, r@[a] as int, r@[b] as int),
{
    let mut out: Vec<usize> = Vec::new();
    let mut i: usize = 0;
    while i < times.len()
        invariant
            i <= times@.len(),
            out@.len() == i,
            out@.no_duplicates(),
            forall|k: int| 0 <= k < out@.len() ==> out@[k] < i,
            forall|a: int, b: int| 0 <= a < b < out@.len() ==> listed_before(times@, out@[a] as int, out@[b] as int),
        decreases times@.len() - i,
    {
        // insert i after every entry at least as recent
        let mut pos: usize = 0;
        while pos < out.len() && !later_than(times[i], times[out[pos]])
            invariant
                i < times@.len(),
                pos <= out@.len(),
                forall|k: int| 0 <= k < out@.len() ==> out@[k] < i,
                forall|k: int| 0 <= k < pos ==> recency_rank(times@[out@[k] as int]) >= recency_rank(times@[i as int]),
            decreases out@.len() - pos,
        {
            pos = pos + 1;
        }
        let ghost old_out = out@;
        out.insert(pos, i);
        proof {
            assert(out@ == old_out.insert(pos as int, i));
            assert forall|a: int, b: int| 0 <= a < b < out@.len() implies listed_before(
                times@,
                out@[a] as int,
                out@[b] as int,
            ) by {
                if a < pos && b < pos {
                    assert(out@[a] == old_out[a] && out@[b] == old_out[b]);
                } else if a < pos && b == pos {
                    assert(out@[a] == old_out[a]);
                    assert(old_out[a] < i);
                } else if a < pos && b > pos {
                    assert(out@[a] == old_out[a] && out@[b] == old_out[b - 1]);
                } else if a == pos {
                    assert(out@[b] == old_out[b - 1]);
                    if b - 1 > pos {
                        assert(listed_before(times@, old_out[pos as int] as int, old_out[b - 1] as int));
                    }
                } else {
                    assert(out@[a] == old_out[a - 1] && out@[b] == old_out[b - 1]);
                }
            }
            assert forall|x: int, y: int| 0 <= x < out@.len() && 0 <= y < out@.len() && x != y implies out@[x] != out@[y] by {
                if x != pos && y != pos {
                    let ox = if x < pos { x } else { x - 1 };
                    let oy = if y < pos { y } else { y - 1 };
                    assert(out@[x] == old_out[ox] && out@[y] == old_out[oy]);
                } else if x == pos {
                    let oy = if y < pos { y } else { y - 1 };
                    assert(out@[y] == old_out[oy]);
                } else {
                    let ox = if x < pos { x } else { x - 1 };
                    assert(out@[x] == old_out[ox]);
                }
            }
            assert forall|k: int| 0 <= k < out@.len() implies out@[k] < i + 1 by {
                if k < pos {
                    assert(out@[k] == old_out[k]);
                } else if k > pos {
                    assert(out@[k] == old_out[k - 1]);
                }
            }
        }
        i = i + 1;
    }
    out
}

/// Whether `a` is strictly more recent than `b`.
fn later_than(a: Option<i64>, b: Option<i64>) -> (r: bool)
    ensures
        r == (recency_rank(a) > recency_rank(b)),
{
    match (a, b) {
        (Some(x), Some(y)) => x > y,
        (Some(_), None) => true,
        (None, _) => false,
    }
}

} // verus!
