//! The lines of the debug log.

use vstd::prelude::*;

use crate::text::{decimal, push_decimal};

verus! {

/// A character as it stands in a quoted text.
pub open spec fn escape(c: char) -> Seq<char> {
    if c == '\\' {
        seq!['\\', '\\']
    } else if c == '"' {
        seq!['\\', '"']
    } else if c == '\n' {
        seq!['\\', 'n']
    } else if c == '\r' {
        seq!['\\', 'r']
    } else {
        seq![c]
    }
}

/// A text as it stands between quotes.
pub open spec fn escaped(s: Seq<char>) -> Seq<char>
    decreases s.len(),
{
    if s.len() == 0 {
        Seq::empty()
    } else {
        escaped(s.drop_last()) + escape(s.last())
    }
}

/// A quoted text read back.
pub open spec fn read_back(s: Seq<char>) -> Seq<char>
    decreases s.len(),
{
    if s.len() == 0 {
        Seq::empty()
    } else if s[0] == '\\' && s.len() > 1 {
        let c = if s[1] == 'n' {
            '\n'
        } else if s[1] == 'r' {
            '\r'
        } else {
            s[1]
        };
        seq![c] + read_back(s.skip(2))
    } else {
        seq![s[0]] + read_back(s.skip(1))
    }
}

proof fn lemma_escaped_first(s: Seq<char>)
    requires
        s.len() > 0,
    ensures
        escaped(s) == escape(s[0]) + escaped(s.drop_first()),
    decreases s.len(),
{
    if s.len() == 1 {
        assert(s.drop_last() =~= Seq::<char>::empty());
        assert(s.drop_first() =~= Seq::<char>::empty());
        assert(escaped(s) =~= escape(s[0]) + escaped(s.drop_first()));
    } else {
        lemma_escaped_first(s.drop_last());
        assert(s.drop_last().drop_first() =~= s.drop_first().drop_last());
        assert(escaped(s) =~= escape(s[0]) + escaped(s.drop_first()));
    }
}

/// What was quoted can be read back.
pub proof fn law_escape_reads_back(s: Seq<char>)
    ensures
        read_back(escaped(s)) == s,
    decreases s.len(),
{
    if s.len() > 0 {
        lemma_escaped_first(s);
        let rest = s.drop_first();
        law_escape_reads_back(rest);
        let all = escaped(s);
        let e = escape(s[0]);
        assert(all.skip(e.len() as int) =~= escaped(rest));
        assert(read_back(all) =~= seq![s[0]] + rest);
        assert(seq![s[0]] + rest =~= s);
    } else {
        assert(read_back(escaped(s)) =~= s);
    }
}

/// A quoted text holds no line break, so that it stays on its line.
pub proof fn law_escape_stays_on_line(s: Seq<char>)
    ensures
        !escaped(s).contains('\n'),
        !escaped(s).contains('\r'),
    decreases s.len(),
{
    if s.len() > 0 {
        law_escape_stays_on_line(s.drop_last());
        let init = escaped(s.drop_last());
        let all = escaped(s);
        assert forall|i: int| 0 <= i < all.len() implies #[trigger] all[i] != '\n' && all[i]
            != '\r' by {
            if i < init.len() {
                assert(init[i] == all[i]);
                assert(init.contains(init[i]));
            } else {
                assert(all[i] == escape(s.last())[i - init.len()]);
            }
        }
    }
}

fn push_escaped(out: &mut String, raw: &str)
    ensures
        final(out)@ == old(out)@ + escaped(raw@),
{
    let ghost start = out@;
    assert(start + escaped(raw@.take(0)) =~= start);
    for c in it: raw.chars()
        invariant
            it.seq() == raw@,
            out@ == start + escaped(raw@.take(it.index())),
    {
        proof {
            let more = raw@.take(it.index() + 1);
            assert(more.drop_last() =~= raw@.take(it.index()));
            assert(more.last() == c);
        }
        match c {
            '\\' => {
                out.push('\\');
                out.push('\\');
            },
            '"' => {
                out.push('\\');
                out.push('"');
            },
            '\n' => {
                out.push('\\');
                out.push('n');
            },
            '\r' => {
                out.push('\\');
                out.push('r');
            },
            other => {
                out.push(other);
            },
        }
        assert(out@ =~= start + (escaped(raw@.take(it.index())) + escape(c)));
    }
    assert(raw@.take(raw@.len() as int) =~= raw@);
}

/// The text as it stands between quotes.
pub fn escape_json(raw: &str) -> (r: String)
    ensures
        r@ == escaped(raw@),
{
    let mut out = String::new();
    push_escaped(&mut out, raw);
    assert(out@ =~= escaped(raw@));
    out
}

/// The name of an entry: when it was made, and its number.
pub open spec fn entry_id(timestamp: u64, number: u64) -> Seq<char> {
    "log_"@ + decimal(timestamp as nat) + seq!['_'] + decimal(number as nat)
}

/// A line of the log.
pub open spec fn entry(
    timestamp: u64,
    number: u64,
    hypothesis_id: Seq<char>,
    location: Seq<char>,
    message: Seq<char>,
    data: Seq<char>,
) -> Seq<char> {
    "{\"id\":\""@ + escaped(entry_id(timestamp, number)) + "\",\"timestamp\":"@ + decimal(
        timestamp as nat,
    ) + ",\"location\":\""@ + escaped(location) + "\",\"message\":\""@ + escaped(message)
        + "\",\"data\":{\"raw\":\""@ + escaped(data)
        + "\"},\"runId\":\"initial\",\"hypothesisId\":\""@ + escaped(hypothesis_id) + "\"}"@
}

/// Makes a line of the log.
pub fn log_line(
    timestamp: u64,
    number: u64,
    hypothesis_id: &str,
    location: &str,
    message: &str,
    data: &str,
) -> (r: String)
    ensures
        r@ == entry(timestamp, number, hypothesis_id@, location@, message@, data@),
{
    let mut id = String::new();
    id.append("log_");
    push_decimal(&mut id, timestamp);
    id.push('_');
    push_decimal(&mut id, number);
    assert(id@ =~= entry_id(timestamp, number));
    let mut out = String::new();
    out.append("{\"id\":\"");
    push_escaped(&mut out, id.as_str());
    out.append("\",\"timestamp\":");
    push_decimal(&mut out, timestamp);
    out.append(",\"location\":\"");
    push_escaped(&mut out, location);
    out.append("\",\"message\":\"");
    push_escaped(&mut out, message);
    out.append("\",\"data\":{\"raw\":\"");
    push_escaped(&mut out, data);
    out.append("\"},\"runId\":\"initial\",\"hypothesisId\":\"");
    push_escaped(&mut out, hypothesis_id);
    out.append("\"}");
    assert(out@ =~= entry(timestamp, number, hypothesis_id@, location@, message@, data@));
    out
}

/// Whether an entry is made that comes at most once in `interval`: not before that much
/// has passed since the last one.
pub fn should_emit_throttled(last: &mut u64, now: u64, interval: u64) -> (r: bool)
    ensures
        r == (now - *old(last) >= interval || interval == 0),
        *final(last) == if r {
            now
        } else {
            *old(last)
        },
{
    if now.saturating_sub(*last) < interval {
        return false;
    }
    *last = now;
    true
}

} // verus!
