//! Forwarding of a container's output to the app's log stream
//! (`logs:{container_id}`): output is cut into lines, and each line is
//! sent as `{timestamp}${level}${stream}: {line}`.

use vstd::prelude::*;
use crate::text::{chars_of, decimal, from_utf8_lossy, push_decimal, push_str, string_from_chars, trim_end_char, utf8_lossy};

verus! {

/// The kinds of output a container's process produces.
pub enum OutputKind {
    StdOut,
    StdErr,
    StdIn,
    Console,
}

/// Which line buffer a chunk of output goes to: standard output and the
/// console to the `stdout` buffer, standard error to the `stderr` one;
/// input echoes are dropped.
pub enum OutputRoute {
    Stdout,
    Stderr,
    Dropped,
}

/// Routes a chunk of output by its kind.
pub fn route_output(kind: &OutputKind) -> (r: OutputRoute)
    ensures
        r == match *kind {
            OutputKind::StdOut | OutputKind::Console => OutputRoute::Stdout,
            OutputKind::StdErr => OutputRoute::Stderr,
            OutputKind::StdIn => OutputRoute::Dropped,
        },
{
    match kind {
        OutputKind::StdOut | OutputKind::Console => OutputRoute::Stdout,
        OutputKind::StdErr => OutputRoute::Stderr,
        OutputKind::StdIn => OutputRoute::Dropped,
    }
}

/// The lines completed in `s` when `cur` is the unfinished line before
/// it, and the unfinished line left after it.  A line ends at `\n`; its
/// trailing `\r`s are dropped, and empty lines are not kept.
pub open spec fn lines_from(s: Seq<char>, cur: Seq<char>) -> (Seq<Seq<char>>, Seq<char>)
    decreases s.len(),
{
    if s.len() == 0 {
        (Seq::empty(), cur)
    } else if s[0] == '\n' {
        let rest = lines_from(s.drop_first(), Seq::empty());
        let line = trim_end_char(cur, '\r');
        (if line.len() > 0 {
            seq![line] + rest.0
        } else {
            rest.0
        }, rest.1)
    } else {
        lines_from(s.drop_first(), cur.push(s[0]))
    }
}

/// Output of one stream of a container, cut into lines.
pub struct LineBuffer {
    level: &'static str,
    stream: &'static str,
    pending: String,
}

impl LineBuffer {
    /// The text after the last completed line.
    pub closed spec fn pending(&self) -> Seq<char> {
        self.pending@
    }

    /// The level its lines are logged at.
    pub closed spec fn spec_level(&self) -> Seq<char> {
        self.level@
    }

    /// The stream name its lines are logged with.
    pub closed spec fn spec_stream(&self) -> Seq<char> {
        self.stream@
    }

    /// An empty buffer for a stream logged at `level`.
    pub fn new(level: &'static str, stream: &'static str) -> (b: LineBuffer)
        ensures
            b.pending() == Seq::<char>::empty(),
            b.spec_level() == level@,
            b.spec_stream() == stream@,
    {
        LineBuffer { level, stream, pending: String::new() }
    }

    /// Adds text and hands back the lines it completed, in order.
    pub fn push_text(&mut self, text: &str) -> (lines: Vec<String>)
        ensures
            lines@.map_values(|l: String| l@) == lines_from(old(self).pending() + text@, Seq::empty()).0,
            final(self).pending() == lines_from(old(self).pending() + text@, Seq::empty()).1,
            final(self).spec_level() == old(self).spec_level(),
            final(self).spec_stream() == old(self).spec_stream(),
    {
        let pending = chars_of(self.pending.as_str());
        let added = chars_of(text);
        let mut all = pending;
        let mut j: usize = 0;
        while j < added.len()
            invariant
                j <= added@.len(),
                all@ == old(self).pending@ + added@.subrange(0, j as int),
            decreases added@.len() - j,
        {
            all.push(added[j]);
            j = j + 1;
            proof {
                assert(added@.subrange(0, j as int) =~= added@.subrange(0, j - 1).push(added@[j - 1]));
            }
        }
        proof {
            assert(added@.subrange(0, added@.len() as int) =~= added@);
            assert(added@ == text@);
        }
        let ghost whole = all@;
        let mut lines: Vec<String> = Vec::new();
        let mut cur: Vec<char> = Vec::new();
        let mut i: usize = 0;
        proof {
            assert(whole.subrange(0, whole.len() as int) =~= whole);
            assert(lines@.map_values(|l: String| l@) =~= Seq::<Seq<char>>::empty());
            assert(Seq::<Seq<char>>::empty() + lines_from(whole, Seq::empty()).0 =~= lines_from(whole, Seq::empty()).0);
            assert(cur@ =~= Seq::<char>::empty());
        }
        while i < all.len()
            invariant
                i <= all@.len(),
                all@ == whole,
                lines_from(whole, Seq::empty()) == (
                    lines@.map_values(|l: String| l@) + lines_from(whole.subrange(i as int, whole.len() as int), cur@).0,
                    lines_from(whole.subrange(i as int, whole.len() as int), cur@).1,
                ),
            decreases all@.len() - i,
        {
            let ghost rest = whole.subrange(i as int, whole.len() as int);
            proof {
                assert(rest.drop_first() =~= whole.subrange(i + 1, whole.len() as int));
                assert(rest[0] == all@[i as int]);
            }
            let c = all[i];
            if c == '\n' {
                let mut line = cur;
                let ghost before = line@;
                while line.len() > 0 && line[line.len() - 1] == '\r'
                    invariant
                        trim_end_char(before, '\r') == trim_end_char(line@, '\r'),
                    decreases line@.len(),
                {
                    let ghost l0 = line@;
                    line.pop();
                    proof {
                        assert(line@ =~= l0.drop_last());
                    }
                }
                proof {
                    assert(trim_end_char(line@, '\r') == line@);
                }
                if line.len() > 0 {
                    let ghost old_lines = lines@.map_values(|l: String| l@);
                    lines.push(string_from_chars(&line));
                    proof {
                        let tail = lines_from(whole.subrange(i + 1, whole.len() as int), Seq::empty());
                        assert(lines@.map_values(|l: String| l@) =~= old_lines.push(line@));
                        assert(old_lines.push(line@) + tail.0 =~= old_lines + (seq![line@] + tail.0));
                    }
                }
                cur = Vec::new();
            } else {
                cur.push(c);
            }
            i = i + 1;
        }
        proof {
            assert(whole.subrange(i as int, whole.len() as int) =~= Seq::<char>::empty());
            assert(lines@.map_values(|l: String| l@) + Seq::<Seq<char>>::empty() =~= lines@.map_values(|l: String| l@));
        }
        self.pending = string_from_chars(&cur);
        lines
    }

    /// Adds a chunk of output bytes (decoded lossily as UTF-8) and hands
    /// back the lines it completed.
    pub fn push(&mut self, bytes: &[u8]) -> (lines: Vec<String>)
        ensures
            lines@.map_values(|l: String| l@) == lines_from(old(self).pending() + utf8_lossy(bytes@), Seq::empty()).0,
            final(self).pending() == lines_from(old(self).pending() + utf8_lossy(bytes@), Seq::empty()).1,
            final(self).spec_level() == old(self).spec_level(),
            final(self).spec_stream() == old(self).spec_stream(),
    {
        let text = from_utf8_lossy(bytes);
        self.push_text(text.as_str())
    }

    /// Hands back the unfinished line, if there is one, as it is, and
    /// empties the buffer.
    pub fn flush(&mut self) -> (line: Option<String>)
        ensures
            if old(self).pending().len() == 0 {
                line is None
            } else {
                line matches Some(l) && l@ == old(self).pending()
            },
            final(self).pending() == Seq::<char>::empty(),
            final(self).spec_level() == old(self).spec_level(),
            final(self).spec_stream() == old(self).spec_stream(),
    {
        if self.pending.as_str().unicode_len() == 0 {
            None
        } else {
            let mut line = String::new();
            std::mem::swap(&mut line, &mut self.pending);
            Some(line)
        }
    }

    /// The log entry of a line: `{timestamp}${level}${stream}: {line}`.
    pub fn payload(&self, timestamp_ms: u64, line: &str) -> (p: String)
        ensures
            p@ == decimal(timestamp_ms as nat) + "$"@ + self.spec_level() + "$"@ + self.spec_stream() + ": "@ + line@,
    {
        let p = push_decimal(String::new(), timestamp_ms);
        let p = push_str(push_str(p, "$"), self.level);
        let p = push_str(push_str(p, "$"), self.stream);
        push_str(push_str(p, ": "), line)
    }
}

/// The log stream of a container: `logs:{container_id}`.
pub fn log_stream_key(container_id: &str) -> (k: String)
    ensures
        k@ == "logs:"@ + container_id@,
{
    push_str(String::from_str("logs:"), container_id)
}

proof fn lemma_lines_from_concat(a: Seq<char>, b: Seq<char>, cur: Seq<char>)
    ensures
        lines_from(a + b, cur) == (
            lines_from(a, cur).0 + lines_from(b, lines_from(a, cur).1).0,
            lines_from(b, lines_from(a, cur).1).1,
        ),
    decreases a.len(),
{
    if a.len() == 0 {
        assert(a + b =~= b);
        assert(Seq::<Seq<char>>::empty() + lines_from(b, cur).0 =~= lines_from(b, cur).0);
    } else {
        assert((a + b).drop_first() =~= a.drop_first() + b);
        assert((a + b)[0] == a[0]);
        if a[0] == '\n' {
            lemma_lines_from_concat(a.drop_first(), b, Seq::empty());
            let line = trim_end_char(cur, '\r');
            let r = lines_from(a.drop_first(), Seq::empty());
            let t = lines_from(b, r.1);
            if line.len() > 0 {
                assert(seq![line] + (r.0 + t.0) =~= (seq![line] + r.0) + t.0);
            }
        } else {
            lemma_lines_from_concat(a.drop_first(), b, cur.push(a[0]));
        }
    }
}

/// Law: how output is cut into chunks does not change the lines: pushing
/// `a` and then `b` completes the lines that pushing `a + b` at once
/// completes, and leaves the same unfinished line.
pub proof fn chunking_does_not_change_lines(pending: Seq<char>, a: Seq<char>, b: Seq<char>)
    ensures
        ({
            let first = lines_from(pending + a, Seq::empty());
            let second = lines_from(first.1 + b, Seq::empty());
            let whole = lines_from(pending + a + b, Seq::empty());
            first.0 + second.0 == whole.0 && second.1 == whole.1
        }),
{
    let first = lines_from(pending + a, Seq::empty());
    lemma_lines_from_concat(pending + a, b, Seq::empty());
    lemma_lines_from_concat(first.1, b, Seq::empty());
    lemma_pending_has_no_newline(pending + a, Seq::empty());
    lemma_no_newline(first.1, Seq::empty());
    assert(Seq::<char>::empty() + first.1 =~= first.1);
    assert(Seq::<Seq<char>>::empty() + lines_from(b, first.1).0 =~= lines_from(b, first.1).0);
}

/// Text without a line end completes no line and joins the current one.
proof fn lemma_no_newline(s: Seq<char>, cur: Seq<char>)
    requires
        !s.contains('\n'),
    ensures
        lines_from(s, cur) == (Seq::<Seq<char>>::empty(), cur + s),
    decreases s.len(),
{
    if s.len() == 0 {
        assert(cur + s =~= cur);
    } else {
        assert(s[0] != '\n');
        assert(!s.drop_first().contains('\n')) by {
            if s.drop_first().contains('\n') {
                let k = choose|k: int| 0 <= k < s.drop_first().len() && s.drop_first()[k] == '\n';
                assert(s[k + 1] == '\n');
            }
        }
        lemma_no_newline(s.drop_first(), cur.push(s[0]));
        assert(cur.push(s[0]) + s.drop_first() =~= cur + s);
    }
}

/// The unfinished line left after any text holds no line end, when the
/// current line held none.
proof fn lemma_pending_has_no_newline(s: Seq<char>, cur: Seq<char>)
    requires
        !cur.contains('\n'),
    ensures
        !lines_from(s, cur).1.contains('\n'),
    decreases s.len(),
{
    if s.len() > 0 {
        if s[0] == '\n' {
            lemma_pending_has_no_newline(s.drop_first(), Seq::empty());
        } else {
            assert(!cur.push(s[0]).contains('\n')) by {
                if cur.push(s[0]).contains('\n') {
                    let k = choose|k: int| 0 <= k < cur.push(s[0]).len() && cur.push(s[0])[k] == '\n';
                    if k < cur.len() {
                        assert(cur[k] == '\n');
                    }
                }
            }
            lemma_pending_has_no_newline(s.drop_first(), cur.push(s[0]));
        }
    }
}

} // verus!
