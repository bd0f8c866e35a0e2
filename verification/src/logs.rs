//! Capture of program output: framing of the byte stream into lines, the
//! text written for each line, rotation of log files and the windows read
//! back from them.
//!
//! The framing is bounded: a line longer than the configured maximum is
//! cut and flagged, so that a program that never writes a newline cannot
//! make the supervisor hold unbounded memory.

use vstd::prelude::*;
use crate::text::{chars_of, concat2, concat3, fmt_u64, spec_dec, string_of};

verus! {

/// Stream a line was captured from.
#[derive(Clone, Copy, Debug, PartialEq, Eq, Structural)]
pub enum LogSource {
    Stdout,
    Stderr,
}

impl LogSource {
    /// File extension of the default log file of the stream.
    pub fn extension(&self) -> (r: &'static str)
        ensures
            r@ == (match self {
                LogSource::Stdout => "out"@,
                LogSource::Stderr => "err"@,
            }),
    {
        match self {
            LogSource::Stdout => "out",
            LogSource::Stderr => "err",
        }
    }

    /// Name of the stream.
    pub fn as_str(&self) -> (r: &'static str)
        ensures
            r@ == (match self {
                LogSource::Stdout => "stdout"@,
                LogSource::Stderr => "stderr"@,
            }),
    {
        match self {
            LogSource::Stdout => "stdout",
            LogSource::Stderr => "stderr",
        }
    }
}

/// Where captured lines go.
#[derive(Clone, Copy, Debug, PartialEq, Eq, Structural)]
pub enum LogDriver {
    /// Appended to a log file, with rotation.
    File,
    /// Written to the supervisor's own standard output.
    Stdout,
}

/// Timestamp put in front of captured lines.
#[derive(Clone, Copy, Debug, PartialEq, Eq, Structural)]
pub enum LogTimestamp {
    /// Local time, `%Y-%m-%d %H:%M:%S`.
    Local,
    /// UTC, `%Y-%m-%dT%H:%M:%SZ`.
    Utc,
    /// Raw lines.
    Off,
}

/// A framed line: its bytes, and whether it was cut at the length limit.
pub struct FramedLine {
    pub bytes: Vec<u8>,
    pub truncated: bool,
}

impl FramedLine {
    pub open spec fn view(&self) -> (Seq<u8>, bool) {
        (self.bytes@, self.truncated)
    }
}

/// Views of framed lines.
pub open spec fn lines_view(v: Seq<FramedLine>) -> Seq<(Seq<u8>, bool)> {
    v.map_values(|l: FramedLine| l@)
}

/// A line without its trailing carriage return (CRLF input).
pub open spec fn spec_strip_cr(b: Seq<u8>) -> Seq<u8> {
    if b.len() > 0 && b.last() == 13u8 {
        b.drop_last()
    } else {
        b
    }
}

/// One byte through the framer: a newline ends the pending line (without
/// its carriage return); any other byte is appended, and when the pending
/// line has already reached `max` bytes the line is emitted with that byte
/// and flagged as cut.
pub open spec fn spec_step(pending: Seq<u8>, b: u8, max: nat) -> (Seq<u8>, Seq<(Seq<u8>, bool)>) {
    if b == 10u8 {
        (Seq::empty(), seq![(spec_strip_cr(pending), false)])
    } else if pending.len() >= max {
        (Seq::empty(), seq![(pending.push(b), true)])
    } else {
        (pending.push(b), Seq::empty())
    }
}

/// A sequence of bytes through the framer: the pending line after them and
/// the lines emitted, in order.
pub open spec fn spec_feed(pending: Seq<u8>, bytes: Seq<u8>, max: nat) -> (
    Seq<u8>,
    Seq<(Seq<u8>, bool)>,
)
    decreases bytes.len(),
{
    if bytes.len() == 0 {
        (pending, Seq::empty())
    } else {
        let (p, ls) = spec_feed(pending, bytes.drop_last(), max);
        let (q, more) = spec_step(p, bytes.last(), max);
        (q, ls + more)
    }
}

/// Framing does not depend on how the stream is cut into reads: feeding
/// `a` then `b` leaves the same pending line and emits the same lines as
/// feeding `a + b` at once.
pub proof fn lemma_feed_split(pending: Seq<u8>, a: Seq<u8>, b: Seq<u8>, max: nat)
    ensures
        spec_feed(pending, a + b, max) == ({
            let (p1, l1) = spec_feed(pending, a, max);
            let (p2, l2) = spec_feed(p1, b, max);
            (p2, l1 + l2)
        }),
    decreases b.len(),
{
    if b.len() == 0 {
        assert(a + b == a);
    } else {
        lemma_feed_split(pending, a, b.drop_last(), max);
        assert((a + b).drop_last() == a + b.drop_last());
        assert((a + b).last() == b.last());
        let (p1, l1) = spec_feed(pending, a, max);
        let (p2, l2) = spec_feed(p1, b.drop_last(), max);
        let (q, more) = spec_step(p2, b.last(), max);
        assert(l1 + l2 + more == l1 + (l2 + more));
    }
}

/// A pending line never holds more than `max` bytes.
pub proof fn lemma_feed_bounded(pending: Seq<u8>, bytes: Seq<u8>, max: nat)
    requires
        pending.len() <= max,
    ensures
        spec_feed(pending, bytes, max).0.len() <= max,
    decreases bytes.len(),
{
    if bytes.len() > 0 {
        lemma_feed_bounded(pending, bytes.drop_last(), max);
    }
}

/// Splits a byte stream into lines, at most `max_line_bytes` pending.
pub struct LineFramer {
    buf: Vec<u8>,
    max_line_bytes: usize,
}

impl LineFramer {
    /// Bytes received since the last emitted line.
    pub closed spec fn pending(&self) -> Seq<u8> {
        self.buf@
    }

    /// Length limit of a line.
    pub closed spec fn max(&self) -> nat {
        self.max_line_bytes as nat
    }

    pub closed spec fn wf(&self) -> bool {
        self.buf@.len() <= self.max_line_bytes
    }

    pub fn new(max_line_bytes: usize) -> (r: Self)
        ensures
            r.wf(),
            r.pending() == Seq::<u8>::empty(),
            r.max() == max_line_bytes,
    {
        LineFramer { buf: Vec::new(), max_line_bytes }
    }

    /// Feed one read of the stream; returns the lines it completed.
    pub fn feed(&mut self, chunk: &[u8]) -> (r: Vec<FramedLine>)
        requires
            old(self).wf(),
        ensures
            final(self).wf(),
            final(self).max() == old(self).max(),
            (final(self).pending(), lines_view(r@)) == spec_feed(
                old(self).pending(),
                chunk@,
                old(self).max(),
            ),
    {
        let ghost start = self.buf@;
        let max = self.max_line_bytes;
        let mut out: Vec<FramedLine> = Vec::new();
        let mut i: usize = 0;
        while i < chunk.len()
            invariant
                i <= chunk.len(),
                self.max_line_bytes == max,
                self.buf@.len() <= max,
                (self.buf@, lines_view(out@)) == spec_feed(start, chunk@.take(i as int), max as nat),
            decreases chunk.len() - i,
        {
            let b = chunk[i];
            let ghost before = lines_view(out@);
            assert(chunk@.take(i + 1).drop_last() == chunk@.take(i as int));
            if b == 10u8 {
                let mut line: Vec<u8> = Vec::new();
                std::mem::swap(&mut line, &mut self.buf);
                if line.len() > 0 && line[line.len() - 1] == 13u8 {
                    line.pop();
                }
                out.push(FramedLine { bytes: line, truncated: false });
            } else if self.buf.len() >= max {
                let mut line: Vec<u8> = Vec::new();
                std::mem::swap(&mut line, &mut self.buf);
                line.push(b);
                out.push(FramedLine { bytes: line, truncated: true });
            } else {
                self.buf.push(b);
            }
            assert(lines_view(out@) =~= before + spec_step(
                spec_feed(start, chunk@.take(i as int), max as nat).0,
                b,
                max as nat,
            ).1);
            i = i + 1;
        }
        assert(chunk@.take(chunk.len() as int) == chunk@);
        out
    }

    /// End of stream: the pending bytes, if any, as a last (uncut) line.
    pub fn finish(&mut self) -> (r: Option<FramedLine>)
        requires
            old(self).wf(),
        ensures
            final(self).wf(),
            final(self).pending() == Seq::<u8>::empty(),
            final(self).max() == old(self).max(),
            match r {
                Some(l) => old(self).pending().len() > 0 && l@ == (old(self).pending(), false),
                None => old(self).pending().len() == 0,
            },
    {
        if self.buf.len() == 0 {
            None
        } else {
            let mut line: Vec<u8> = Vec::new();
            std::mem::swap(&mut line, &mut self.buf);
            Some(FramedLine { bytes: line, truncated: false })
        }
    }
}

/// Text of bytes decoded as UTF-8, invalid sequences replaced by U+FFFD
/// (`String::from_utf8_lossy`).
pub uninterp spec fn spec_utf8_lossy(bytes: Seq<u8>) -> Seq<char>;

/// `String::from_utf8_lossy`, owned.
#[verifier::external_body]
pub(crate) fn utf8_lossy(bytes: &[u8]) -> (r: String)
    ensures
        r@ == spec_utf8_lossy(bytes@),
{
    String::from_utf8_lossy(bytes).into_owned()
}

/// Marker appended to a line cut at the length limit.
pub open spec fn spec_truncated_marker() -> Seq<char> {
    "...[TRUNCATED]"@
}

/// Text of a framed line: decoded, with the marker when it was cut.
pub fn line_text(line: &FramedLine) -> (r: String)
    ensures
        r@ == spec_utf8_lossy(line.bytes@) + (if line.truncated {
            spec_truncated_marker()
        } else {
            Seq::empty()
        }),
{
    let text = utf8_lossy(line.bytes.as_slice());
    if line.truncated {
        concat2(text.as_str(), "...[TRUNCATED]")
    } else {
        assert(text@ + Seq::<char>::empty() == text@);
        text
    }
}

/// `[name:stream] `, the prefix of lines echoed to the console.
pub fn console_prefix(program_name: &str, source: LogSource) -> (r: String)
    ensures
        r@ == "["@ + program_name@ + ":"@ + (match source {
            LogSource::Stdout => "stdout"@,
            LogSource::Stderr => "stderr"@,
        }) + "] "@,
{
    let a = concat3("[", program_name, ":");
    concat3(a.as_str(), source.as_str(), "] ")
}

/// Optional `[ts] ` in front of a text.
pub open spec fn spec_stamped(ts: Option<Seq<char>>, rest: Seq<char>) -> Seq<char> {
    match ts {
        Some(t) => "["@ + t + "] "@ + rest,
        None => rest,
    }
}

fn stamped(ts: Option<&str>, rest: &str) -> (r: String)
    ensures
        r@ == spec_stamped(
            match ts {
                Some(t) => Some(t@),
                None => None,
            },
            rest@,
        ),
{
    match ts {
        Some(t) => {
            let a = concat3("[", t, "] ");
            concat2(a.as_str(), rest)
        },
        None => rest.to_owned(),
    }
}

/// What one captured line becomes: on the console driver
/// `[ts] prefix line\n`, in a log file `[ts] line\n` (no `[ts] ` when
/// timestamps are off).
pub fn render_record(driver: LogDriver, ts: Option<&str>, prefix: &str, line: &str) -> (r: String)
    ensures
        r@ == spec_stamped(
            match ts {
                Some(t) => Some(t@),
                None => None,
            },
            match driver {
                LogDriver::Stdout => prefix@ + line@,
                LogDriver::File => line@,
            },
        ) + "\n"@,
{
    let body = match driver {
        LogDriver::Stdout => concat2(prefix, line),
        LogDriver::File => line.to_owned(),
    };
    let s = stamped(ts, body.as_str());
    concat2(s.as_str(), "\n")
}

/// A supervisor diagnostic written to a program's stderr log:
/// `[ts] [superd] line`.
pub fn superd_line(ts: Option<&str>, line: &str) -> (r: String)
    ensures
        r@ == spec_stamped(
            match ts {
                Some(t) => Some(t@),
                None => None,
            },
            "[superd] "@ + line@,
        ),
{
    let body = concat2("[superd] ", line);
    stamped(ts, body.as_str())
}

/// Format of local timestamps.
pub open spec fn spec_local_format() -> Seq<char> {
    "%Y-%m-%d %H:%M:%S"@
}

/// Format of UTC timestamps.
pub open spec fn spec_utc_format() -> Seq<char> {
    "%Y-%m-%dT%H:%M:%SZ"@
}

/// `chrono::Local::now()` formatted with `fmt`; nothing is claimed of the
/// text. Only the library's own formats, which chrono renders without
/// error, are handed over.
#[verifier::external_body]
fn local_now_text(fmt: &str) -> (r: String)
    requires
        fmt@ == spec_local_format(),
{
    chrono::Local::now().format(fmt).to_string()
}

/// `chrono::Utc::now()` formatted with `fmt`; nothing is claimed of the
/// text. Only the library's own formats are handed over.
#[verifier::external_body]
fn utc_now_text(fmt: &str) -> (r: String)
    requires
        fmt@ == spec_utc_format(),
{
    chrono::Utc::now().format(fmt).to_string()
}

/// The timestamp of a line captured now, in the configured mode.
pub fn timestamp_now(mode: LogTimestamp) -> (r: Option<String>)
    ensures
        r is None == (mode == LogTimestamp::Off),
{
    match mode {
        LogTimestamp::Local => {
            proof {
                reveal_strlit("%Y-%m-%d %H:%M:%S");
            }
            Some(local_now_text("%Y-%m-%d %H:%M:%S"))
        },
        LogTimestamp::Utc => {
            proof {
                reveal_strlit("%Y-%m-%dT%H:%M:%SZ");
            }
            Some(utc_now_text("%Y-%m-%dT%H:%M:%SZ"))
        },
        LogTimestamp::Off => None,
    }
}

/// Whether appending `len` bytes to a file of `current` bytes goes over
/// `max_size`, so that the file is rotated first.
pub fn needs_rotation(current: u64, len: u64, max_size: u64) -> (r: bool)
    ensures
        r == (current + len > max_size),
{
    len > max_size || current > max_size - len
}

/// Name of generation `n` of a rotated log: the active file for `0`, else
/// `name.n`.
pub open spec fn spec_generation(name: Seq<char>, n: nat) -> Seq<char> {
    if n == 0 {
        name
    } else {
        name + "."@ + spec_dec(n)
    }
}

fn generation(name: &str, n: u64) -> (r: String)
    ensures
        r@ == spec_generation(name@, n as nat),
{
    if n == 0 {
        name.to_owned()
    } else {
        let d = fmt_u64(n);
        concat3(name, ".", d.as_str())
    }
}

/// Renames that rotate the logs of `name` keeping `backups` generations,
/// oldest first: generation `i` moves to `i + 1` for `i` from
/// `backups - 1` down to `0` (the active file). The caller skips a rename
/// whose source does not exist and removes an existing destination first.
pub fn rotation_plan(name: &str, backups: u32) -> (r: Vec<(String, String)>)
    ensures
        r@.len() == backups,
        forall|k: int|
            0 <= k < backups ==> {
                let i = (backups - 1 - k) as nat;
                &&& (#[trigger] r@[k]).0@ == spec_generation(name@, i)
                &&& r@[k].1@ == spec_generation(name@, i + 1)
            },
{
    let mut r: Vec<(String, String)> = Vec::new();
    let mut i: u32 = backups;
    while i > 0
        invariant
            i <= backups,
            r@.len() == backups - i,
            forall|k: int|
                0 <= k < r@.len() ==> {
                    let g = (backups - 1 - k) as nat;
                    &&& (#[trigger] r@[k]).0@ == spec_generation(name@, g)
                    &&& r@[k].1@ == spec_generation(name@, g + 1)
                },
        decreases i,
    {
        i = i - 1;
        let src = generation(name, i as u64);
        let dst = generation(name, i as u64 + 1);
        r.push((src, dst));
    }
    r
}

/// Byte window of the tail of a file of `len` bytes: the start offset and
/// the number of bytes to read, or nothing for an empty file.
pub fn tail_window(len: u64, max_bytes: u64) -> (r: Option<(u64, u64)>)
    ensures
        match r {
            Some((start, count)) => len > 0 && start == (if len > max_bytes {
                len - max_bytes
            } else {
                0
            }) && count == max_bytes,
            None => len == 0,
        },
{
    if len == 0 {
        None
    } else {
        Some((len.saturating_sub(max_bytes), max_bytes))
    }
}

/// The custom log file configured for a stream, unless it is blank.
pub fn custom_log_file<'a>(
    source: LogSource,
    stdout_logfile: Option<&'a str>,
    stderr_logfile: Option<&'a str>,
) -> (r: Option<&'a str>)
    ensures
        ({
            let c = match source {
                LogSource::Stdout => stdout_logfile,
                LogSource::Stderr => stderr_logfile,
            };
            match c {
                Some(p) => if crate::text::spec_trim(p@).len() > 0 {
                    r == Some(p)
                } else {
                    r is None
                },
                None => r is None,
            }
        }),
{
    let custom = match source {
        LogSource::Stdout => stdout_logfile,
        LogSource::Stderr => stderr_logfile,
    };
    match custom {
        Some(p) => {
            let t = crate::text::trim(p);
            if t.as_str().is_empty() {
                None
            } else {
                Some(p)
            }
        },
        None => None,
    }
}

/// A line without its final carriage return, if any.
pub open spec fn spec_strip_cr_chars(l: Seq<char>) -> Seq<char> {
    if l.len() > 0 && l.last() == '\r' {
        l.drop_last()
    } else {
        l
    }
}

/// `str::lines` of `cur` followed by `s`, where `cur` is the start of an
/// unfinished line.
pub open spec fn spec_lines_from(s: Seq<char>, cur: Seq<char>) -> Seq<Seq<char>>
    decreases s.len(),
{
    if s.len() == 0 {
        if cur.len() == 0 {
            Seq::empty()
        } else {
            seq![cur]
        }
    } else if s[0] == '\n' {
        seq![spec_strip_cr_chars(cur)] + spec_lines_from(s.drop_first(), Seq::empty())
    } else {
        spec_lines_from(s.drop_first(), cur.push(s[0]))
    }
}

/// `str::lines`: split at `\n`, a `\r` before it dropped, no empty line
/// after a final `\n`.
pub open spec fn spec_lines(s: Seq<char>) -> Seq<Seq<char>> {
    spec_lines_from(s, Seq::empty())
}

/// Lines joined with `\n` between them.
pub open spec fn spec_join_lines(ls: Seq<Seq<char>>) -> Seq<char>
    decreases ls.len(),
{
    if ls.len() == 0 {
        Seq::empty()
    } else if ls.len() == 1 {
        ls[0]
    } else {
        spec_join_lines(ls.drop_last()) + seq!['\n'] + ls.last()
    }
}

/// The last `max_lines` lines of a log's content joined with `\n`, or
/// nothing for empty content.
pub open spec fn spec_last_lines(content: Seq<char>, max_lines: nat) -> Option<Seq<char>> {
    if content.len() == 0 {
        None
    } else {
        let ls = spec_lines(content);
        let start: int = if ls.len() > max_lines {
            ls.len() - max_lines
        } else {
            0
        };
        Some(spec_join_lines(ls.subrange(start, ls.len() as int)))
    }
}

/// Texts of a list of strings.
pub open spec fn spec_string_views(v: Seq<String>) -> Seq<Seq<char>> {
    v.map_values(|s: String| s@)
}

/// `str::lines`.
pub fn lines_of(s: &str) -> (r: Vec<String>)
    ensures
        spec_string_views(r@) == spec_lines(s@),
{
    let cs = chars_of(s);
    let n = cs.len();
    let mut out: Vec<String> = Vec::new();
    let mut cur: Vec<char> = Vec::new();
    let mut i: usize = 0;
    assert(cs@.subrange(0, n as int) =~= cs@);
    while i < n
        invariant
            n == cs@.len(),
            cs@ == s@,
            i <= n,
            spec_string_views(out@) + spec_lines_from(cs@.subrange(i as int, n as int), cur@) == spec_lines(s@),
        decreases n - i,
    {
        let ghost rest = cs@.subrange(i as int, n as int);
        let ghost o0 = out@;
        assert(rest.drop_first() =~= cs@.subrange(i + 1, n as int));
        assert(rest[0] == cs@[i as int]);
        if cs[i] == '\n' {
            let mut line = cur;
            if line.len() > 0 && line[line.len() - 1] == '\r' {
                line.pop();
            }
            assert(line@ == spec_strip_cr_chars(cur@));
            out.push(string_of(line.as_slice()));
            cur = Vec::new();
            assert(spec_string_views(out@) =~= spec_string_views(o0).push(out@[out@.len() - 1]@));
        } else {
            cur.push(cs[i]);
        }
        i = i + 1;
    }
    assert(cs@.subrange(n as int, n as int) =~= Seq::<char>::empty());
    if cur.len() > 0 {
        let ghost o0 = out@;
        out.push(string_of(cur.as_slice()));
        assert(spec_string_views(out@) =~= spec_string_views(o0).push(cur@));
    }
    out
}

/// Lines `start..` of `ls` joined with `\n`.
fn join_from(ls: &Vec<String>, start: usize) -> (r: String)
    requires
        start <= ls@.len(),
    ensures
        r@ == spec_join_lines(spec_string_views(ls@).subrange(start as int, ls@.len() as int)),
{
    let ghost v = spec_string_views(ls@);
    let mut out = String::new();
    let mut i: usize = start;
    proof {
        reveal_strlit("");
    }
    while i < ls.len()
        invariant
            start <= i <= ls@.len(),
            v == spec_string_views(ls@),
            out@ == spec_join_lines(v.subrange(start as int, i as int)),
        decreases ls.len() - i,
    {
        let ghost prev = v.subrange(start as int, i as int);
        assert(v.subrange(start as int, i + 1).drop_last() =~= prev);
        if i == start {
            out = ls[i].clone();
            assert(v.subrange(start as int, i + 1) =~= seq![ls@[i as int]@]);
        } else {
            out = concat3(out.as_str(), "\n", ls[i].as_str());
            proof {
                reveal_strlit("\n");
            }
            assert("\n"@ == seq!['\n']);
        }
        i = i + 1;
    }
    out
}

/// The last `max_lines` lines of a log's content (see [`spec_last_lines`]).
pub fn last_lines(content: &str, max_lines: u32) -> (r: Option<String>)
    ensures
        match r {
            Some(t) => spec_last_lines(content@, max_lines as nat) == Some(t@),
            None => spec_last_lines(content@, max_lines as nat) is None,
        },
{
    if content.is_empty() {
        return None;
    }
    let ls = lines_of(content);
    let n = max_lines as usize;
    let start = if ls.len() > n {
        ls.len() - n
    } else {
        0
    };
    Some(join_from(&ls, start))
}

} // verus!
