//! What is logged where, and when a log file is changed.

use crate::config::{opt_text, BacktraceMode, LogConfig};
use crate::text::{copy_text, lossy_utf8, trim_end, utf8_text_lossy};
use crate::wire::copy_range;
use vstd::prelude::*;

verus! {

/// A log file that is put aside when it gets too large.
#[derive(Debug)]
pub struct SizeLimitedFileAppender {
    pub max_size: u64,
    pub current_size: u64,
}

impl SizeLimitedFileAppender {
    /// A log file that already holds `current_size` bytes.
    pub fn new(max_size: u64, current_size: u64) -> (a: SizeLimitedFileAppender)
        ensures
            a.max_size == max_size,
            a.current_size == current_size,
    {
        SizeLimitedFileAppender { max_size, current_size }
    }

    /// Whether the file has to be put aside before `len` bytes more are written. If so a new one is
    /// begun.
    pub fn before_write(&mut self, len: u64) -> (rotate: bool)
        requires
            old(self).current_size + len <= u64::MAX,
        ensures
            rotate == (old(self).current_size + len > old(self).max_size),
            final(self).max_size == old(self).max_size,
            final(self).current_size == if rotate {
                0
            } else {
                old(self).current_size
            },
    {
        if self.current_size + len > self.max_size {
            self.current_size = 0;
            true
        } else {
            false
        }
    }

    /// Counts bytes that were written.
    pub fn wrote(&mut self, n: u64)
        requires
            old(self).current_size + n <= u64::MAX,
        ensures
            final(self).max_size == old(self).max_size,
            final(self).current_size == old(self).current_size + n,
    {
        self.current_size = self.current_size + n;
    }
}

/// The size of a log file after a write of `len` bytes of which `n` were taken.
pub open spec fn size_after(current: u64, max: u64, len: u64, n: u64) -> int {
    if current + len > max {
        n as int
    } else {
        current + n
    }
}

/// A log file stays within its bound, as long as no single entry is larger than the bound.
pub proof fn law_log_stays_within_bound(current: u64, max: u64, len: u64, n: u64)
    requires
        current <= max,
        len <= max,
        n <= len,
    ensures
        size_after(current, max, len, n) <= max,
{
}

/// Where log entries go, and which.
#[derive(Debug)]
pub struct LogSettings {
    pub enable: bool,
    pub level: String,
    pub path: Option<String>,
    pub color: bool,
    pub stdout: bool,
    pub max_size: Option<u64>,
    pub backtrace: BacktraceMode,
}

/// The settings of a log configuration. A bare level logs to the standard output only, in colour.
pub fn log_settings(config: &LogConfig) -> (s: LogSettings)
    ensures
        match *config {
            LogConfig::Level(level) => {
                &&& s.enable && s.color && s.stdout
                &&& s.level@ == level@
                &&& s.path is None
                &&& s.max_size is None
                &&& s.backtrace == BacktraceMode::On
            },
            LogConfig::Detailed { enable, level, path, color, stdout, max_size, backtrace } => {
                &&& s.enable == enable
                &&& s.level@ == level@
                &&& opt_text(s.path) == opt_text(path)
                &&& s.color == color
                &&& s.stdout == stdout
                &&& s.max_size == max_size
                &&& s.backtrace == backtrace
            },
        },
{
    match config {
        LogConfig::Level(level) => LogSettings {
            enable: true,
            level: copy_text(level.as_str()),
            path: None,
            color: true,
            stdout: true,
            max_size: None,
            backtrace: BacktraceMode::On,
        },
        LogConfig::Detailed { enable, level, path, color, stdout, max_size, backtrace } => LogSettings {
            enable: *enable,
            level: copy_text(level.as_str()),
            path: crate::config::copy_opt(path),
            color: *color,
            stdout: *stdout,
            max_size: *max_size,
            backtrace: *backtrace,
        },
    }
}

/// How entries reach a log file.
#[derive(Debug, Clone, Copy, PartialEq, Eq, Structural)]
pub enum FileSink {
    NoFile,
    /// One file that grows without bound.
    Unbounded,
    /// A file that is put aside at that size.
    Bounded(u64),
}

/// What starting the logging comes to.
#[derive(Debug)]
pub enum LoggingPlan {
    /// Logging runs already.
    AlreadyRunning,
    /// Nothing is logged.
    Off,
    /// The value for the backtrace variable, the filter, and where entries go.
    On { backtrace: BacktraceMode, filter: String, file: FileSink, path: Option<String>, color: bool, stdout: bool },
}

/// The sink for the file of some settings.
pub open spec fn file_sink(path: Option<Seq<char>>, max_size: Option<u64>) -> FileSink {
    match path {
        None => FileSink::NoFile,
        Some(_) => match max_size {
            Some(n) => FileSink::Bounded(n),
            None => FileSink::Unbounded,
        },
    }
}

/// Decides how logging is started. A filter from the environment takes the place of the configured
/// level; logging starts once.
pub fn init_logging(running: bool, settings: LogSettings, env_filter: Option<String>) -> (plan:
    LoggingPlan)
    ensures
        match plan {
            LoggingPlan::AlreadyRunning => running,
            LoggingPlan::Off => !running && !settings.enable,
            LoggingPlan::On { backtrace, filter, file, path, color, stdout } => {
                &&& !running
                &&& settings.enable
                &&& backtrace == settings.backtrace
                &&& filter@ == match env_filter {
                    Some(f) => f@,
                    None => settings.level@,
                }
                &&& file == file_sink(opt_text(settings.path), settings.max_size)
                &&& opt_text(path) == opt_text(settings.path)
                &&& color == settings.color
                &&& stdout == settings.stdout
            },
        },
{
    if running {
        return LoggingPlan::AlreadyRunning;
    }
    if !settings.enable {
        return LoggingPlan::Off;
    }
    let file = match &settings.path {
        None => FileSink::NoFile,
        Some(_) => match settings.max_size {
            Some(n) => FileSink::Bounded(n),
            None => FileSink::Unbounded,
        },
    };
    LoggingPlan::On {
        backtrace: settings.backtrace,
        filter: match env_filter {
            Some(f) => f,
            None => settings.level,
        },
        file,
        path: settings.path,
        color: settings.color,
        stdout: settings.stdout,
    }
}

/// A line for the log of an Apple system: its level and its text.
#[derive(Debug)]
pub struct NsLogLine {
    pub level: &'static str,
    pub text: String,
}

/// Whether a text begins with another.
pub open spec fn begins_with(s: Seq<char>, prefix: Seq<char>) -> bool {
    prefix.len() <= s.len() && s.take(prefix.len() as int) == prefix
}

/// The level that a line of log names at its front.
pub open spec fn level_of(msg: Seq<char>) -> Seq<char> {
    if begins_with(msg, "ERROR"@) {
        "error"@
    } else if begins_with(msg, "WARN"@) || begins_with(msg, " WARN"@) {
        "warn"@
    } else if begins_with(msg, "INFO"@) || begins_with(msg, " INFO"@) {
        "info"@
    } else {
        "debug"@
    }
}

fn starts_with(s: &Vec<char>, n: usize, prefix: &str) -> (r: bool)
    requires
        n <= s@.len(),
    ensures
        r == begins_with(s@.take(n as int), prefix@),
{
    let p = crate::text::chars_of(prefix);
    if p.len() > n {
        return false;
    }
    let mut i: usize = 0;
    while i < p.len()
        invariant
            i <= p@.len() <= n <= s@.len(),
            p@ == prefix@,
            forall|k: int| 0 <= k < i ==> #[trigger] s@[k] == p@[k],
        decreases p@.len() - i,
    {
        if s[i] != p[i] {
            proof {
                let t = s@.take(n as int).take(p@.len() as int);
                assert(t[i as int] == s@[i as int]);
            }
            return false;
        }
        i += 1;
    }
    assert(s@.take(n as int).take(p@.len() as int) =~= p@);
    true
}

/// What is logged for a piece of output: nothing for blank ones, nor for those with a zero character,
/// which the system's log cannot take.
pub open spec fn ns_line(data: Seq<u8>) -> Option<(Seq<char>, Seq<char>)> {
    let msg = trim_end(lossy_utf8(data));
    if msg.len() == 0 || msg.contains('\0') {
        None
    } else {
        Some((level_of(msg), msg))
    }
}

/// The value of a line that is logged.
pub open spec fn ns_view(line: Option<NsLogLine>) -> Option<(Seq<char>, Seq<char>)> {
    match line {
        Some(l) => Some((l.level@, l.text@)),
        None => None,
    }
}

/// Turns a piece of output into a line for the log.
pub fn emit_nslog(data: &[u8]) -> (line: Option<NsLogLine>)
    ensures
        ns_view(line) == ns_line(data@),
{
    let text = utf8_text_lossy(data);
    let chars = crate::text::chars_of(text.as_str());
    let mut n: usize = chars.len();
    assert(chars@.take(n as int) =~= chars@);
    while n > 0 && crate::text::white_space(chars[n - 1])
        invariant
            n <= chars@.len(),
            trim_end(chars@.take(n as int)) == trim_end(chars@),
        decreases n,
    {
        proof {
            assert(chars@.take(n as int).last() == chars@[n - 1]);
            assert(chars@.take(n as int).drop_last() =~= chars@.take(n - 1));
        }
        n -= 1;
    }
    proof {
        if n > 0 {
            assert(chars@.take(n as int).last() == chars@[n - 1]);
        }
        assert(trim_end(chars@.take(n as int)) == chars@.take(n as int));
    }
    if n == 0 {
        return None;
    }
    let level: &'static str = if starts_with(&chars, n, "ERROR") {
        "error"
    } else if starts_with(&chars, n, "WARN") || starts_with(&chars, n, " WARN") {
        "warn"
    } else if starts_with(&chars, n, "INFO") || starts_with(&chars, n, " INFO") {
        "info"
    } else {
        "debug"
    };
    let mut out = copy_text("");
    let mut i: usize = 0;
    proof {
        reveal_strlit("");
        assert(out@ =~= chars@.take(0));
    }
    while i < n
        invariant
            i <= n <= chars@.len(),
            0 < n,
            chars@.take(n as int) == trim_end(lossy_utf8(data@)),
            out@ == chars@.take(i as int),
            forall|k: int| 0 <= k < i ==> #[trigger] chars@[k] != '\0',
        decreases n - i,
    {
        if chars[i] == '\0' {
            assert(chars@.take(n as int)[i as int] == '\0');
            return None;
        }
        out.push(chars[i]);
        assert(chars@.take(i + 1) =~= chars@.take(i as int).push(chars@[i as int]));
        i += 1;
    }
    assert(!chars@.take(n as int).contains('\0'));
    Some(NsLogLine { level, text: out })
}

/// Output that is cut into lines.
#[derive(Debug)]
pub struct LineBuffer {
    pub pending: Vec<u8>,
}

/// Where the first line ends; the length, if it does not.
pub open spec fn line_end(s: Seq<u8>) -> int
    decreases s.len(),
{
    if s.len() == 0 {
        0
    } else if s[0] == 10u8 {
        0
    } else {
        1 + line_end(s.skip(1))
    }
}

/// The whole lines at the front, without the bytes that end them.
pub open spec fn whole_lines(s: Seq<u8>) -> Seq<Seq<u8>>
    decreases s.len(),
{
    let n = line_end(s);
    if n < 0 || n >= s.len() {
        Seq::empty()
    } else {
        seq![s.take(n)] + whole_lines(s.skip(n + 1))
    }
}

/// What follows the last whole line.
pub open spec fn unfinished(s: Seq<u8>) -> Seq<u8>
    decreases s.len(),
{
    let n = line_end(s);
    if n < 0 || n >= s.len() {
        s
    } else {
        unfinished(s.skip(n + 1))
    }
}

/// Lists of bytes as a value.
pub open spec fn byte_rows(v: Seq<Vec<u8>>) -> Seq<Seq<u8>> {
    v.map_values(|b: Vec<u8>| b@)
}

proof fn lemma_line_end(s: Seq<u8>)
    ensures
        0 <= line_end(s) <= s.len(),
        line_end(s) < s.len() ==> s[line_end(s)] == 10u8,
        forall|k: int| 0 <= k < line_end(s) ==> #[trigger] s[k] != 10u8,
    decreases s.len(),
{
    if s.len() > 0 && s[0] != 10u8 {
        let rest = s.skip(1);
        lemma_line_end(rest);
        if line_end(s) < s.len() {
            assert(s[line_end(s)] == rest[line_end(rest)]);
        }
        assert forall|k: int| 0 <= k < line_end(s) implies #[trigger] s[k] != 10u8 by {
            if k > 0 {
                assert(s[k] == rest[k - 1]);
            }
        }
    }
}

proof fn lemma_line_end_is(s: Seq<u8>, n: int)
    requires
        0 <= n <= s.len(),
        n < s.len() ==> s[n] == 10u8,
        forall|k: int| 0 <= k < n ==> #[trigger] s[k] != 10u8,
    ensures
        line_end(s) == n,
{
    lemma_line_end(s);
    let m = line_end(s);
    if m < n {
        assert(s[m] != 10u8);
    } else if n < m {
        assert(s[n] != 10u8);
    }
}

impl LineBuffer {
    /// A buffer without output.
    pub fn new() -> (b: LineBuffer)
        ensures
            b.pending@ == Seq::<u8>::empty(),
    {
        LineBuffer { pending: Vec::new() }
    }

    /// Takes in output and gives out the lines that it completes.
    pub fn write(&mut self, buf: &[u8]) -> (lines: Vec<Vec<u8>>)
        ensures
            byte_rows(lines@) == whole_lines(old(self).pending@ + buf@),
            final(self).pending@ == unfinished(old(self).pending@ + buf@),
    {
        crate::wire::put_slice(&mut self.pending, buf);
        let ghost all = self.pending@;
        let mut lines: Vec<Vec<u8>> = Vec::new();
        let mut from: usize = 0;
        let mut i: usize = 0;
        proof {
            assert(all =~= old(self).pending@ + buf@);
            assert(all.skip(0) =~= all);
            assert(byte_rows(lines@) + whole_lines(all) =~= whole_lines(all));
        }
        while i < self.pending.len()
            invariant
                from <= i <= self.pending@.len(),
                self.pending@ == all,
                byte_rows(lines@) + whole_lines(all.skip(from as int)) == whole_lines(all),
                unfinished(all.skip(from as int)) == unfinished(all),
                forall|k: int| from <= k < i ==> #[trigger] all[k] != 10u8,
            decreases self.pending@.len() - i,
        {
            if self.pending[i] == 10 {
                let line = copy_range(self.pending.as_slice(), from, i);
                let ghost rest = all.skip(from as int);
                let ghost before = byte_rows(lines@);
                proof {
                    assert(rest[i - from] == 10u8);
                    assert forall|k: int| 0 <= k < i - from implies #[trigger] rest[k] != 10u8 by {
                        assert(rest[k] == all[from + k]);
                    }
                    lemma_line_end_is(rest, i - from);
                    assert(line@ =~= rest.take(i - from));
                    assert(rest.skip(i - from + 1) =~= all.skip(i + 1));
                }
                lines.push(line);
                proof {
                    assert(byte_rows(lines@) =~= before.push(line@));
                    assert(byte_rows(lines@) + whole_lines(all.skip(i + 1)) =~= before
                        + whole_lines(rest));
                }
                from = i + 1;
            }
            i += 1;
        }
        proof {
            let rest = all.skip(from as int);
            assert forall|k: int| 0 <= k < rest.len() implies #[trigger] rest[k] != 10u8 by {
                assert(rest[k] == all[from + k]);
            }
            lemma_line_end_is(rest, rest.len() as int);
            assert(byte_rows(lines@) + whole_lines(rest) =~= byte_rows(lines@));
        }
        let len: usize = self.pending.len();
        let rest = copy_range(self.pending.as_slice(), from, len);
        assert(rest@ =~= all.skip(from as int));
        self.pending = rest;
        lines
    }

    /// Gives out what is left of the output, though its line is not complete.
    pub fn flush(&mut self) -> (rest: Option<Vec<u8>>)
        ensures
            match rest {
                Some(bytes) => bytes@ == old(self).pending@ && bytes@.len() > 0,
                None => old(self).pending@.len() == 0,
            },
            final(self).pending@ == Seq::<u8>::empty(),
    {
        let len: usize = self.pending.len();
        if len == 0 {
            assert(self.pending@ =~= Seq::<u8>::empty());
            return None;
        }
        let bytes = copy_range(self.pending.as_slice(), 0, len);
        assert(bytes@ =~= self.pending@);
        self.pending = Vec::new();
        Some(bytes)
    }
}

/// Lines joined again, each with the byte that ends it.
pub open spec fn rejoined(lines: Seq<Seq<u8>>) -> Seq<u8>
    decreases lines.len(),
{
    if lines.len() == 0 {
        Seq::empty()
    } else {
        lines[0] + seq![10u8] + rejoined(lines.skip(1))
    }
}

/// Cutting output into lines loses nothing: the lines and what is left are the output.
pub proof fn law_lines_lose_nothing(s: Seq<u8>)
    ensures
        rejoined(whole_lines(s)) + unfinished(s) == s,
    decreases s.len(),
{
    let n = line_end(s);
    lemma_line_end(s);
    if n < s.len() {
        let rest = s.skip(n + 1);
        law_lines_lose_nothing(rest);
        let lines = whole_lines(s);
        assert(lines.skip(1) =~= whole_lines(rest));
        assert(s =~= s.take(n) + seq![10u8] + rest);
        assert(rejoined(lines) + unfinished(s) =~= s.take(n) + seq![10u8] + (rejoined(
            whole_lines(rest),
        ) + unfinished(rest)));
    } else {
        assert(rejoined(whole_lines(s)) + unfinished(s) =~= s);
    }
}

/// A line that would take the log over its bound starts the log anew, and every other line is
/// added to it.
pub proof fn law_when_the_log_starts_anew(current: u64, max: u64, len: u64, n: u64)
    ensures
        current + len > max ==> size_after(current, max, len, n) == n,
        current + len <= max ==> size_after(current, max, len, n) == current + n,
        file_sink(None, Some(max)) == FileSink::NoFile,
        file_sink(Some("log"@), Some(max)) == FileSink::Bounded(max),
        file_sink(Some("log"@), None) == FileSink::Unbounded,
{
}

/// A message has the level that its first word names, whatever follows. A message that names
/// none is for debugging.
pub proof fn law_levels_of_messages(rest: Seq<char>)
    ensures
        level_of("ERROR"@ + rest) == "error"@,
        level_of("WARN"@ + rest) == "warn"@,
        level_of(" WARN"@ + rest) == "warn"@,
        level_of("INFO"@ + rest) == "info"@,
        level_of(" INFO"@ + rest) == "info"@,
        rest.len() > 0 && rest[0] != 'E' && rest[0] != 'W' && rest[0] != 'I' && rest[0] != ' '
            ==> level_of(rest) == "debug"@,
        level_of("DEBUG"@ + rest) == "debug"@,
{
    reveal_strlit("ERROR");
    reveal_strlit("WARN");
    reveal_strlit(" WARN");
    reveal_strlit("INFO");
    reveal_strlit(" INFO");
    reveal_strlit("DEBUG");
    let error = "ERROR"@ + rest;
    assert(error.take(5) =~= "ERROR"@);
    let warn = "WARN"@ + rest;
    assert(warn.take(4) =~= "WARN"@);
    let spaced_warn = " WARN"@ + rest;
    assert(spaced_warn.take(5) =~= " WARN"@);
    let info = "INFO"@ + rest;
    assert(info.take(4) =~= "INFO"@);
    let spaced_info = " INFO"@ + rest;
    assert(spaced_info.take(5) =~= " INFO"@);
    lemma_other_first(warn, "ERROR"@);
    lemma_other_first(spaced_warn, "ERROR"@);
    lemma_other_first(spaced_warn, "WARN"@);
    lemma_other_first(info, "ERROR"@);
    lemma_other_first(info, "WARN"@);
    lemma_other_first(info, " WARN"@);
    lemma_other_first(spaced_info, "ERROR"@);
    lemma_other_first(spaced_info, "WARN"@);
    lemma_other_first(spaced_info, "INFO"@);
    assert(spaced_info.take(5)[1] == 'I');
    assert(" WARN"@[1] == 'W');
    let debug = "DEBUG"@ + rest;
    lemma_other_first(debug, "ERROR"@);
    lemma_other_first(debug, "WARN"@);
    lemma_other_first(debug, " WARN"@);
    lemma_other_first(debug, "INFO"@);
    lemma_other_first(debug, " INFO"@);
    if rest.len() > 0 {
        lemma_other_first(rest, "ERROR"@);
        lemma_other_first(rest, "WARN"@);
        lemma_other_first(rest, " WARN"@);
        lemma_other_first(rest, "INFO"@);
        lemma_other_first(rest, " INFO"@);
    }
}

proof fn lemma_other_first(s: Seq<char>, prefix: Seq<char>)
    requires
        s.len() > 0,
        prefix.len() > 0,
    ensures
        s[0] != prefix[0] ==> !begins_with(s, prefix),
{
    if prefix.len() <= s.len() {
        assert(s.take(prefix.len() as int)[0] == s[0]);
    }
}

/// Lines end at a line feed: what stands before the first is the first line, and what follows it
/// is cut in the same way. Bytes without a line feed are no line yet.
pub proof fn law_lines_end_at_line_feeds(line: Seq<u8>, rest: Seq<u8>)
    requires
        !line.contains(10u8),
    ensures
        whole_lines(line + seq![10u8] + rest) == seq![line] + whole_lines(rest),
        unfinished(line + seq![10u8] + rest) == unfinished(rest),
        whole_lines(line).len() == 0,
        unfinished(line) == line,
{
    lemma_first_line_end(line, rest);
    let s = line + seq![10u8] + rest;
    assert(s.take(line.len() as int) =~= line);
    assert(s.skip(1int + line.len()) =~= rest);
}

proof fn lemma_first_line_end(line: Seq<u8>, rest: Seq<u8>)
    requires
        !line.contains(10u8),
    ensures
        line_end(line + seq![10u8] + rest) == line.len(),
        line_end(line) == line.len(),
    decreases line.len(),
{
    let s = line + seq![10u8] + rest;
    if line.len() > 0 {
        let tail = line.skip(1);
        assert(line.contains(line[0]));
        assert(!tail.contains(10u8)) by {
            if tail.contains(10u8) {
                let i = choose|i: int| 0 <= i < tail.len() && tail[i] == 10u8;
                assert(line[i + 1] == 10u8);
            }
        }
        lemma_first_line_end(tail, rest);
        assert(s.skip(1) =~= tail + seq![10u8] + rest);
    }
}

/// A message without text, and one that holds a zero character, is not shown. Every other is
/// shown with its level and without white space at its end.
pub proof fn law_which_messages_are_shown(data: Seq<u8>)
    ensures
        ({
            let msg = trim_end(lossy_utf8(data));
            &&& ns_line(data) is Some <==> msg.len() > 0 && !msg.contains('\0')
            &&& ns_line(data) matches Some((level, text)) ==> text == msg && level == level_of(msg)
        }),
{
}

} // verus!
