//! The bookkeeping of a chat turn around the model call: which user message
//! is stored, how a finished reply is replayed to the UI in small chunks,
//! what is recorded afterwards, and the ids the UI uses for requests.

use crate::llm_client::ChatUiMessage;
use crate::text::{chars_of, str_eq, string_from, trim, trim_chars};
use crate::usage_tracker::{lower_hex, to_lower_hex};
use vstd::prelude::*;

verus! {

/// Characters after which a replayed chunk ends early: sentence ends and
/// line feeds.
pub open spec fn ends_chunk(c: char) -> bool {
    c == '。' || c == '！' || c == '？' || c == '\n' || c == '.' || c == '!' || c == '?'
}

/// The chunks emitted so far while replaying `s`, and the chunk still being
/// filled: a chunk is emitted once it holds four characters or ends with a
/// sentence end or line feed.
pub open spec fn chunking(s: Seq<char>) -> (Seq<Seq<char>>, Seq<char>)
    decreases s.len(),
{
    if s.len() == 0 {
        (Seq::empty(), Seq::empty())
    } else {
        let prev = chunking(s.drop_last());
        let c = s.last();
        let cur = prev.1.push(c);
        if cur.len() >= 4 || ends_chunk(c) {
            (prev.0.push(cur), Seq::empty())
        } else {
            (prev.0, cur)
        }
    }
}

/// The chunks a finished reply `s` is replayed in: those emitted along the
/// way, then what is left.
pub open spec fn reply_chunks(s: Seq<char>) -> Seq<Seq<char>> {
    let st = chunking(s);
    if st.1.len() > 0 {
        st.0.push(st.1)
    } else {
        st.0
    }
}

/// The chunks of `ss` written one after another.
pub open spec fn concat_all(ss: Seq<Seq<char>>) -> Seq<char>
    decreases ss.len(),
{
    if ss.len() == 0 {
        Seq::empty()
    } else {
        concat_all(ss.drop_last()) + ss.last()
    }
}

/// The chunks a finished reply is replayed to the UI in (see [`reply_chunks`]).
pub fn text_chunks(text: &str) -> (r: Vec<String>)
    ensures
        r@.map_values(|c: String| c@) == reply_chunks(text@),
{
    let v = chars_of(text);
    let mut out: Vec<String> = Vec::new();
    let mut chunk: Vec<char> = Vec::new();
    let mut i: usize = 0;
    while i < v.len()
        invariant
            i <= v.len(),
            (out@.map_values(|c: String| c@), chunk@) == chunking(v@.subrange(0, i as int)),
        decreases v.len() - i,
    {
        let ch = v[i];
        proof {
            let s = v@.subrange(0, i + 1);
            assert(s.drop_last() =~= v@.subrange(0, i as int));
            assert(s.last() == ch);
        }
        chunk.push(ch);
        if chunk.len() >= 4 || ch == '。' || ch == '！' || ch == '？' || ch == '\n' || ch == '.'
            || ch == '!' || ch == '?' {
            let ghost before = out@.map_values(|c: String| c@);
            out.push(string_from(chunk.as_slice()));
            assert(out@.map_values(|c: String| c@) =~= before.push(chunk@));
            chunk = Vec::new();
        }
        i = i + 1;
    }
    assert(v@.subrange(0, v.len() as int) =~= v@);
    if chunk.len() > 0 {
        let ghost before = out@.map_values(|c: String| c@);
        out.push(string_from(chunk.as_slice()));
        assert(out@.map_values(|c: String| c@) =~= before.push(chunk@));
    }
    out
}

proof fn lemma_chunking(s: Seq<char>)
    ensures
        concat_all(chunking(s).0) + chunking(s).1 == s,
        chunking(s).1.len() < 4,
        forall|k: int|
            0 <= k < chunking(s).0.len() ==> 0 < #[trigger] chunking(s).0[k].len() <= 4,
    decreases s.len(),
{
    if s.len() > 0 {
        lemma_chunking(s.drop_last());
        let prev = chunking(s.drop_last());
        let cur = prev.1.push(s.last());
        assert(s =~= s.drop_last().push(s.last()));
        assert(concat_all(prev.0) + cur =~= (concat_all(prev.0) + prev.1).push(s.last()));
        if cur.len() >= 4 || ends_chunk(s.last()) {
            assert(prev.0.push(cur).drop_last() =~= prev.0);
            assert(concat_all(prev.0.push(cur)) =~= concat_all(prev.0) + cur);
            assert(concat_all(prev.0) + cur =~= s);
            assert forall|k: int| 0 <= k < prev.0.push(cur).len() implies 0 < #[trigger] prev.0.push(
                cur,
            )[k].len() <= 4 by {
                if k < prev.0.len() {
                    assert(prev.0.push(cur)[k] == prev.0[k]);
                }
            }
            assert(concat_all(prev.0.push(cur)) + Seq::<char>::empty() =~= s);
        } else {
            assert(concat_all(prev.0) + cur =~= s);
        }
    }
}

/// Replaying a reply in chunks shows exactly the reply: the chunks written
/// one after another are the text, and every chunk holds one to four
/// characters.
pub proof fn lemma_reply_chunks_cover(s: Seq<char>)
    ensures
        concat_all(reply_chunks(s)) == s,
        forall|k: int| 0 <= k < reply_chunks(s).len() ==> 0 < #[trigger] reply_chunks(s)[k].len() <= 4,
{
    lemma_chunking(s);
    let st = chunking(s);
    if st.1.len() > 0 {
        assert(st.0.push(st.1).drop_last() =~= st.0);
        assert forall|k: int| 0 <= k < st.0.push(st.1).len() implies 0 < #[trigger] st.0.push(
            st.1,
        )[k].len() <= 4 by {
            if k < st.0.len() {
                assert(st.0.push(st.1)[k] == st.0[k]);
            }
        }
    } else {
        assert(concat_all(st.0) + st.1 =~= concat_all(st.0));
    }
}

/// The last message of `ms` the user wrote.
pub open spec fn last_user(ms: Seq<ChatUiMessage>) -> Option<ChatUiMessage>
    decreases ms.len(),
{
    if ms.len() == 0 {
        None
    } else if ms.last().role@ == "user"@ {
        Some(ms.last())
    } else {
        last_user(ms.drop_last())
    }
}

/// The user message a turn stores: the trimmed text of the last message the
/// user wrote, if any.
pub fn last_user_message(messages: &Vec<ChatUiMessage>) -> (r: Option<String>)
    ensures
        match last_user(messages@) {
            None => r is None,
            Some(m) => r matches Some(t) && t@ == trim(m.content@),
        },
{
    let mut i = messages.len();
    assert(messages@.subrange(0, i as int) =~= messages@);
    while i > 0
        invariant
            i <= messages.len(),
            last_user(messages@) == last_user(messages@.subrange(0, i as int)),
        decreases i,
    {
        let m = &messages[i - 1];
        proof {
            let s = messages@.subrange(0, i as int);
            assert(s.drop_last() =~= messages@.subrange(0, i - 1));
            assert(s.last() == *m);
        }
        if str_eq(m.role.as_str(), "user") {
            return Some(crate::text::trimmed(m.content.as_str()));
        }
        i = i - 1;
    }
    assert(messages@.subrange(0, 0) =~= Seq::<ChatUiMessage>::empty());
    None
}

/// The assistant reply a turn stores: its trimmed text, unless that is empty.
pub fn reply_to_store(text: &str) -> (r: Option<String>)
    ensures
        trim(text@).len() == 0 ==> r is None,
        trim(text@).len() > 0 ==> (r matches Some(t) && t@ == trim(text@)),
{
    let t = trim_chars(&chars_of(text));
    if t.len() == 0 {
        None
    } else {
        Some(string_from(t.as_slice()))
    }
}

/// A request id from a nanosecond clock reading: the reading in lower-case hex.
pub fn uuid_like(nanos: u128) -> (r: String)
    ensures
        r@ == lower_hex(nanos as nat),
{
    string_from(to_lower_hex(nanos).as_slice())
}

/// `c` with a line feed turned into a space.
pub open spec fn flatten_char(c: char) -> char {
    if c == '\n' {
        ' '
    } else {
        c
    }
}

/// The line a remembered fact takes in the system prompt: `- [key] content`,
/// with the content's line feeds turned into spaces.
pub open spec fn memory_line_of(key: Seq<char>, content: Seq<char>) -> Seq<char> {
    "- ["@ + key + "] "@ + content.map_values(|c: char| flatten_char(c))
}

/// The system-prompt line for one remembered fact (see [`memory_line_of`]).
pub fn memory_line(key: &str, content: &str) -> (r: String)
    ensures
        r@ == memory_line_of(key@, content@),
{
    let v = chars_of(content);
    let mut flat: Vec<char> = Vec::new();
    let mut i: usize = 0;
    while i < v.len()
        invariant
            i <= v.len(),
            flat@ == v@.subrange(0, i as int).map_values(|c: char| flatten_char(c)),
        decreases v.len() - i,
    {
        let c = v[i];
        flat.push(if c == '\n' { ' ' } else { c });
        proof {
            assert(flat@ =~= v@.subrange(0, i + 1).map_values(|c: char| flatten_char(c)));
        }
        i = i + 1;
    }
    assert(v@.subrange(0, v.len() as int) =~= v@);
    let mut r = String::from_str("- [");
    r.append(key);
    r.append("] ");
    r.append(string_from(flat.as_slice()).as_str());
    r
}

} // verus!
