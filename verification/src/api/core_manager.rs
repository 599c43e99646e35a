//! Starting and stopping the proxy as a process of its own, and keeping its log.

use crate::config::opt_text;
use crate::text::{copy_text, dec_text, lossy_utf8, push_decimal, push_text, utf8_text_lossy};
use crate::time::{secs, Duration};
use vstd::prelude::*;

verus! {

/// How many lines of log are kept.
pub const MAX_LOG_LINES: usize = 500;

/// The port of the proxy's own interface unless its configuration names one.
pub const DEFAULT_API_PORT: u16 = 1235;

/// A line that the process printed, with the time in milliseconds.
#[derive(Debug, Clone)]
pub struct CoreLogEntry {
    pub timestamp: String,
    pub message: String,
}

/// A piece of the log file, and the position after it.
#[derive(Debug, Clone)]
pub struct CoreLogContent {
    pub content: String,
    pub position: u64,
}

/// How the process stands.
#[derive(Debug, Clone)]
pub struct CoreStatus {
    pub running: bool,
    pub pid: Option<u32>,
    pub core_path: String,
    pub work_dir: String,
    pub config_api_port: u16,
}

/// A request to start the process.
#[derive(Debug, Clone, Copy, PartialEq, Eq, Structural)]
pub struct StartCoreRequest {
    /// With the rights of an administrator.
    pub is_need_elevate: bool,
}

impl Default for StartCoreRequest {
    fn default() -> (r: StartCoreRequest)
        ensures
            !r.is_need_elevate,
    {
        StartCoreRequest { is_need_elevate: false }
    }
}

/// A request to set the configuration.
#[derive(Debug)]
pub struct SetConfigRequest {
    /// The configuration as JSON.
    pub config: String,
}

/// A request to set the path of the program.
#[derive(Debug)]
pub struct SetCorePathRequest {
    pub core_path: String,
}

/// What the manager reads in a configuration.
#[derive(Debug)]
pub struct ConfigFacts {
    pub api_port: Option<u64>,
    pub api_password: Option<String>,
}

/// The number that `serde_json` finds in a text under a key of a section, if it is one there; or its
/// complaint about the text.
pub uninterp spec fn json_number(text: Seq<char>, section: Seq<char>, key: Seq<char>) -> Result<
    Option<u64>,
    Seq<char>,
>;

/// Calls `serde_json::from_str` for a `Value` and `Value::as_u64` on one entry of it: whether it is a
/// number, or the complaint about the text, depends on the text, the section and the key.
#[verifier::external_body]
fn number_in(text: &str, section: &str, key: &str) -> (r: Result<Option<u64>, String>)
    ensures
        match r {
            Ok(n) => json_number(text@, section@, key@) == Ok::<Option<u64>, Seq<char>>(n),
            Err(e) => json_number(text@, section@, key@) == Err::<Option<u64>, Seq<char>>(e@),
        },
{
    match serde_json::from_str::<serde_json::Value>(text) {
        Ok(value) => Ok(value[section][key].as_u64()),
        Err(e) => Err(e.to_string()),
    }
}

/// The text that `serde_json` finds in a text under a key of a section, if it is one there; or its
/// complaint about the text.
pub uninterp spec fn json_text(text: Seq<char>, section: Seq<char>, key: Seq<char>) -> Result<
    Option<Seq<char>>,
    Seq<char>,
>;

/// Calls `serde_json::from_str` for a `Value` and `Value::as_str` on one entry of it: whether it is a
/// text, or the complaint about the whole, depends on the text, the section and the key.
#[verifier::external_body]
fn text_in(text: &str, section: &str, key: &str) -> (r: Result<Option<String>, String>)
    ensures
        found_text(r) == json_text(text@, section@, key@),
{
    match serde_json::from_str::<serde_json::Value>(text) {
        Ok(value) => Ok(value[section][key].as_str().map(str::to_owned)),
        Err(e) => Err(e.to_string()),
    }
}

/// The value of a text that was looked for.
pub open spec fn found_text(r: Result<Option<String>, String>) -> Result<
    Option<Seq<char>>,
    Seq<char>,
> {
    match r {
        Ok(text) => Ok(opt_text(text)),
        Err(e) => Err(e@),
    }
}

/// What the manager reads in a configuration: the port and the password of the proxy's own interface.
pub open spec fn facts_of(text: Seq<char>) -> Result<(Option<u64>, Option<Seq<char>>), Seq<char>> {
    match json_number(text, "api"@, "port"@) {
        Err(e) => Err(e),
        Ok(port) => match json_text(text, "api"@, "password"@) {
            Err(e) => Err(e),
            Ok(password) => Ok((port, password)),
        },
    }
}

fn read_facts(text: &str) -> (r: Result<ConfigFacts, String>)
    ensures
        match r {
            Ok(f) => facts_of(text@) == Ok::<(Option<u64>, Option<Seq<char>>), Seq<char>>(
                (f.api_port, opt_text(f.api_password)),
            ),
            Err(e) => facts_of(text@) == Err::<(Option<u64>, Option<Seq<char>>), Seq<char>>(e@),
        },
{
    match number_in(text, "api", "port") {
        Err(e) => Err(e),
        Ok(api_port) => match text_in(text, "api", "password") {
            Err(e) => Err(e),
            Ok(api_password) => Ok(ConfigFacts { api_port, api_password }),
        },
    }
}

/// The process that was started, with its number while it is known.
#[derive(Debug, Clone, Copy, PartialEq, Eq, Structural)]
pub struct CoreProcess {
    pub pid: Option<u32>,
}

/// What the manager knows.
#[derive(Debug)]
pub struct CoreManager {
    pub process: Option<CoreProcess>,
    pub core_path: String,
    pub work_dir: String,
    pub config_json: Option<String>,
    pub config_api_port: u16,
    pub config_api_password: String,
    pub logs: Vec<CoreLogEntry>,
}

/// The value of the manager.
#[verifier::ext_equal]
pub struct ManagerView {
    pub process: Option<CoreProcess>,
    pub core_path: Seq<char>,
    pub work_dir: Seq<char>,
    pub config_json: Option<Seq<char>>,
    pub config_api_port: u16,
    pub config_api_password: Seq<char>,
    pub logs: Seq<(Seq<char>, Seq<char>)>,
}

/// The value of a log.
pub open spec fn log_views(logs: Seq<CoreLogEntry>) -> Seq<(Seq<char>, Seq<char>)> {
    logs.map_values(|e: CoreLogEntry| (e.timestamp@, e.message@))
}

impl View for CoreManager {
    type V = ManagerView;

    open spec fn view(&self) -> ManagerView {
        ManagerView {
            process: self.process,
            core_path: self.core_path@,
            work_dir: self.work_dir@,
            config_json: opt_text(self.config_json),
            config_api_port: self.config_api_port,
            config_api_password: self.config_api_password@,
            logs: log_views(self.logs@),
        }
    }
}

/// The manager after a configuration was set, by what was read in it.
pub open spec fn configured(
    m: ManagerView,
    json: Seq<char>,
    port: Option<u64>,
    password: Option<Seq<char>>,
) -> ManagerView {
    ManagerView {
        config_json: Some(json),
        config_api_port: match port {
            Some(p) => (p % 65536) as u16,
            None => m.config_api_port,
        },
        config_api_password: match password {
            Some(p) => p,
            None => m.config_api_password,
        },
        ..m
    }
}

/// The latest entries of a log.
pub open spec fn latest<A>(list: Seq<A>, n: int) -> Seq<A> {
    if list.len() > n {
        list.skip(list.len() - n)
    } else {
        list
    }
}

fn copy_entry(e: &CoreLogEntry) -> (out: CoreLogEntry)
    ensures
        out.timestamp@ == e.timestamp@,
        out.message@ == e.message@,
{
    CoreLogEntry {
        timestamp: copy_text(e.timestamp.as_str()),
        message: copy_text(e.message.as_str()),
    }
}

/// Where a log file is.
#[derive(Debug)]
pub enum LogPlace {
    /// At this path.
    At(String),
    /// In this directory, at this path.
    Under(String, String),
}

/// What has to be done to start the process.
#[derive(Debug)]
pub enum StartStep {
    /// The one that runs has to be stopped first.
    StopFirst,
    /// There is nothing to start it with.
    Refuse(String),
    /// This configuration has to be written to its file, then the program is run with these arguments.
    Run { config: String, core_path: String, args: Vec<String> },
}

/// The arguments that the program is run with: the file of its configuration, then whether it runs as
/// an administrator's process.
pub open spec fn core_args(config_path: Seq<char>, elevate: bool) -> Seq<Seq<char>> {
    seq!["-c"@, config_path] + elevation_args(elevate)
}

/// The arguments for an administrator's process.
pub open spec fn elevation_args(elevate: bool) -> Seq<Seq<char>> {
    if elevate {
        seq!["--elevate"@, "--elevate-no-show-window"@]
    } else {
        Seq::empty()
    }
}

impl CoreManager {
    /// A manager that has started nothing yet.
    pub fn new(core_path: String, work_dir: String) -> (m: CoreManager)
        ensures
            m@ == (ManagerView {
                process: None,
                core_path: core_path@,
                work_dir: work_dir@,
                config_json: None,
                config_api_port: DEFAULT_API_PORT,
                config_api_password: Seq::empty(),
                logs: Seq::empty(),
            }),
    {
        let m = CoreManager {
            process: None,
            core_path,
            work_dir,
            config_json: None,
            config_api_port: DEFAULT_API_PORT,
            config_api_password: String::new(),
            logs: Vec::new(),
        };
        assert(m@.config_api_password =~= Seq::<char>::empty());
        assert(m@.logs =~= Seq::<(Seq<char>, Seq<char>)>::empty());
        m
    }

    /// Sets the path of the program.
    pub fn set_core_path(&mut self, path: String)
        ensures
            final(self)@ == (ManagerView { core_path: path@, ..old(self)@ }),
    {
        self.core_path = path;
    }

    /// Sets the configuration. It has to be JSON; the port and the password of the proxy's own interface
    /// are read off it where it has them.
    pub fn set_config(&mut self, json: String) -> (r: Result<(), String>)
        ensures
            match r {
                Ok(()) => facts_of(json@) matches Ok(facts) && final(self)@ == configured(
                    old(self)@,
                    json@,
                    facts.0,
                    facts.1,
                ),
                Err(e) => facts_of(json@) matches Err(cause) && e@ == "Invalid config JSON: "@
                    + cause && final(self)@ == old(self)@,
            },
    {
        let facts = read_facts(json.as_str());
        self.apply_config(json, facts)
    }

    /// Sets the configuration, given what was read in it.
    pub fn apply_config(&mut self, json: String, facts: Result<ConfigFacts, String>) -> (r: Result<
        (),
        String,
    >)
        ensures
            match r {
                Ok(()) => facts matches Ok(f) && final(self)@ == configured(
                    old(self)@,
                    json@,
                    f.api_port,
                    opt_text(f.api_password),
                ),
                Err(e) => facts matches Err(cause) && e@ == "Invalid config JSON: "@ + cause@
                    && final(self)@ == old(self)@,
            },
    {
        let facts = match facts {
            Err(cause) => {
                let mut e = copy_text("Invalid config JSON: ");
                push_text(&mut e, cause.as_str());
                return Err(e);
            },
            Ok(f) => f,
        };
        if let Some(port) = facts.api_port {
            let low: u64 = port % 65536;
            self.config_api_port = low as u16;
        }
        if let Some(password) = facts.api_password {
            self.config_api_password = password;
        }
        self.config_json = Some(json);
        Ok(())
    }

    /// Whether there is a process that was started and not yet stopped.
    pub fn is_running(&self) -> (r: bool)
        ensures
            r == (self@.process is Some),
    {
        self.process.is_some()
    }

    /// How the process stands.
    pub fn status(&self) -> (s: CoreStatus)
        ensures
            s.pid == match self@.process {
                Some(p) => p.pid,
                None => None,
            },
            s.running == (s.pid is Some),
            s.core_path@ == self@.core_path,
            s.work_dir@ == self@.work_dir,
            s.config_api_port == self@.config_api_port,
    {
        let pid: Option<u32> = match self.process {
            Some(p) => p.pid,
            None => None,
        };
        CoreStatus {
            running: pid.is_some(),
            pid,
            core_path: copy_text(self.core_path.as_str()),
            work_dir: copy_text(self.work_dir.as_str()),
            config_api_port: self.config_api_port,
        }
    }

    /// What has to be done to start the process. `config_path` is where its configuration is written:
    /// the path that [`CoreManager::config_file_path`] gives in two parts.
    pub fn start(&self, request: StartCoreRequest, config_path: &str) -> (step: StartStep)
        ensures
            match step {
                StartStep::StopFirst => self@.process is Some,
                StartStep::Refuse(e) => self@.process is None && self@.config_json is None && e@
                    == "No config set. Use PUT /api/core/config first."@,
                StartStep::Run { config, core_path, args } => {
                    &&& self@.process is None
                    &&& self@.config_json == Some(config@)
                    &&& core_path@ == self@.core_path
                    &&& crate::config::texts(args@) == core_args(
                        config_path@,
                        request.is_need_elevate,
                    )
                },
            },
    {
        if self.is_running() {
            return StartStep::StopFirst;
        }
        match &self.config_json {
            None => StartStep::Refuse(copy_text("No config set. Use PUT /api/core/config first.")),
            Some(config) => {
                let mut args: Vec<String> = vec![copy_text("-c"), copy_text(config_path)];
                if request.is_need_elevate {
                    args.push(copy_text("--elevate"));
                    args.push(copy_text("--elevate-no-show-window"));
                }
                assert(crate::config::texts(args@) =~= core_args(
                    config_path@,
                    request.is_need_elevate,
                ));
                StartStep::Run {
                    config: copy_text(config.as_str()),
                    core_path: copy_text(self.core_path.as_str()),
                    args,
                }
            },
        }
    }

    /// Notes that the process was started.
    pub fn started(&mut self, pid: Option<u32>)
        ensures
            final(self)@ == (ManagerView { process: Some(CoreProcess { pid }), ..old(self)@ }),
    {
        self.process = Some(CoreProcess { pid });
    }

    /// Takes the process out, to be stopped: how to go about it. `None` if there is nothing to stop.
    pub fn stop(&mut self) -> (s: Option<Stopping>)
        ensures
            final(self)@ == (ManagerView { process: None, ..old(self)@ }),
            match s {
                Some(stopping) => {
                    &&& old(self)@.process is Some
                    &&& stopping.phase == StopPhase::FirstCheck
                    &&& stopping.port == old(self)@.config_api_port
                    &&& stopping.password@ == old(self)@.config_api_password
                },
                None => old(self)@.process is None,
            },
    {
        match self.process.take() {
            None => None,
            Some(_) => Some(
                Stopping {
                    phase: StopPhase::FirstCheck,
                    port: self.config_api_port,
                    password: copy_text(self.config_api_password.as_str()),
                },
            ),
        }
    }

    /// The latest lines of the log.
    pub fn get_logs(&self, tail: Option<usize>) -> (list: Vec<CoreLogEntry>)
        ensures
            log_views(list@) == latest(
                self@.logs,
                match tail {
                    Some(n) => n as int,
                    None => 200,
                },
            ),
    {
        let limit: usize = match tail {
            Some(n) => n,
            None => 200,
        };
        let mut i: usize = if self.logs.len() > limit {
            self.logs.len() - limit
        } else {
            0
        };
        let ghost from = i as int;
        let ghost all = log_views(self.logs@);
        let mut list: Vec<CoreLogEntry> = Vec::new();
        assert(log_views(list@) =~= all.subrange(from, from));
        while i < self.logs.len()
            invariant
                0 <= from <= i <= self.logs@.len(),
                all == log_views(self.logs@),
                log_views(list@) == all.subrange(from, i as int),
            decreases self.logs@.len() - i,
        {
            let e = copy_entry(&self.logs[i]);
            let ghost before = log_views(list@);
            list.push(e);
            proof {
                assert(log_views(list@) =~= before.push((e.timestamp@, e.message@)));
                assert(all.subrange(from, i + 1) =~= all.subrange(from, i as int).push(all[i as int]));
            }
            i += 1;
        }
        assert(all.subrange(from, i as int) =~= latest(all, limit as int));
        list
    }

    /// Adds a line to the log, and forgets the oldest beyond the bound.
    pub fn push_log(&mut self, millis: u64, message: String)
        ensures
            final(self)@ == (ManagerView {
                logs: latest(
                    old(self)@.logs.push((dec_text(millis as nat), message@)),
                    MAX_LOG_LINES as int,
                ),
                ..old(self)@
            }),
    {
        let mut timestamp = copy_text("");
        proof {
            reveal_strlit("");
        }
        push_decimal(&mut timestamp, millis);
        assert(timestamp@ =~= dec_text(millis as nat));
        let ghost entry = (dec_text(millis as nat), message@);
        self.logs.push(CoreLogEntry { timestamp, message });
        let ghost all = log_views(self.logs@);
        assert(all =~= old(self)@.logs.push(entry));
        let ghost n = self.logs@.len();
        assert(all.skip(0) =~= all);
        while self.logs.len() > MAX_LOG_LINES
            invariant
                self@ == (ManagerView { logs: log_views(self.logs@), ..old(self)@ }),
                self.logs@.len() <= all.len(),
                self.logs@.len() >= MAX_LOG_LINES || self.logs@.len() == all.len(),
                log_views(self.logs@) == all.skip(all.len() - self.logs@.len()),
            decreases self.logs@.len(),
        {
            let ghost before = log_views(self.logs@);
            self.logs.remove(0);
            proof {
                assert(log_views(self.logs@) =~= before.skip(1));
                assert(log_views(self.logs@) =~= all.skip(all.len() - self.logs@.len()));
            }
        }
        assert(log_views(self.logs@) =~= latest(all, MAX_LOG_LINES as int));
    }

    /// Forgets the log.
    pub fn clear_logs(&mut self)
        ensures
            final(self)@ == (ManagerView { logs: Seq::empty(), ..old(self)@ }),
    {
        self.logs.clear();
        assert(self@.logs =~= Seq::<(Seq<char>, Seq<char>)>::empty());
    }

    /// Where the configuration of the process is written: a directory, and the name of a file in it.
    pub fn config_file_path(&self) -> (place: (&str, &'static str))
        ensures
            place.0@ == self@.work_dir,
            place.1@ == "config.json"@,
    {
        (self.work_dir.as_str(), "config.json")
    }

    /// What a restart has to do first: stop the process that runs, then start anew.
    pub fn restart(&mut self, request: StartCoreRequest, config_path: &str) -> (r: (
        Option<Stopping>,
        StartStep,
    ))
        ensures
            final(self)@ == (ManagerView { process: None, ..old(self)@ }),
            match r.0 {
                Some(stopping) => {
                    &&& old(self)@.process is Some
                    &&& stopping.phase == StopPhase::FirstCheck
                    &&& stopping.port == old(self)@.config_api_port
                    &&& stopping.password@ == old(self)@.config_api_password
                },
                None => old(self)@.process is None,
            },
            match r.1 {
                StartStep::StopFirst => false,
                StartStep::Refuse(e) => old(self)@.config_json is None && e@
                    == "No config set. Use PUT /api/core/config first."@,
                StartStep::Run { config, core_path, args } => {
                    &&& old(self)@.config_json == Some(config@)
                    &&& core_path@ == old(self)@.core_path
                    &&& crate::config::texts(args@) == core_args(
                        config_path@,
                        request.is_need_elevate,
                    )
                },
            },
    {
        let stopping = self.stop();
        let step = self.start(request, config_path);
        (stopping, step)
    }

    /// Where the log file is: at the configured path, which counts from the working directory unless it
    /// is absolute, or else at a place of its own there.
    pub fn read_log(&self, configured: Option<&str>, is_absolute: bool) -> (place: LogPlace)
        ensures
            match (configured, place) {
                (Some(path), LogPlace::At(p)) => is_absolute && p@ == path@,
                (Some(path), LogPlace::Under(dir, name)) => !is_absolute && dir@ == self@.work_dir
                    && name@ == path@,
                (None, LogPlace::Under(dir, name)) => dir@ == self@.work_dir && name@
                    == "quicproxy.log"@,
                (None, LogPlace::At(_)) => false,
            },
    {
        match configured {
            Some(path) => {
                if is_absolute {
                    LogPlace::At(copy_text(path))
                } else {
                    LogPlace::Under(copy_text(self.work_dir.as_str()), copy_text(path))
                }
            },
            None => LogPlace::Under(copy_text(self.work_dir.as_str()), copy_text("quicproxy.log")),
        }
    }

    /// The path of the log file that the configuration names, if it names one.
    pub fn log_file_path(&self) -> (path: Option<String>)
        ensures
            opt_text(path) == match self@.config_json {
                None => None,
                Some(json) => match json_text(json, "log"@, "path"@) {
                    Ok(path) => path,
                    Err(_) => None,
                },
            },
    {
        match &self.config_json {
            None => None,
            Some(json) => configured_log_path(text_in(json.as_str(), "log", "path")),
        }
    }
}

/// The path of the log file, by what was read in the configuration.
pub fn configured_log_path(found: Result<Option<String>, String>) -> (path: Option<String>)
    ensures
        opt_text(path) == match found_text(found) {
            Ok(path) => path,
            Err(_) => None,
        },
{
    match found {
        Ok(path) => path,
        Err(_) => None,
    }
}

/// The log holds no more lines than its bound, and the newest is always there.
pub proof fn law_log_is_bounded(logs: Seq<(Seq<char>, Seq<char>)>, entry: (Seq<char>, Seq<char>))
    ensures
        latest(logs.push(entry), MAX_LOG_LINES as int).len() <= MAX_LOG_LINES,
        latest(logs.push(entry), MAX_LOG_LINES as int).last() == entry,
{
}

/// Where reading a log file begins: at the position asked for, or at the front of a file that has
/// become shorter.
pub fn log_start(position: u64, file_length: u64) -> (start: u64)
    ensures
        start == if position > file_length {
            0
        } else {
            position
        },
{
    if position > file_length {
        0
    } else {
        position
    }
}

/// What was read of a log file from `start` on.
pub fn read_log_from(bytes: &[u8], start: u64) -> (c: CoreLogContent)
    requires
        start + bytes@.len() <= u64::MAX,
    ensures
        c.content@ == lossy_utf8(bytes@),
        c.position == start + bytes@.len(),
{
    CoreLogContent { content: utf8_text_lossy(bytes), position: start + bytes.len() as u64 }
}

/// Reading on from where the last reading ended gives exactly what was added in between.
pub proof fn law_reading_goes_on(file: Seq<u8>, added: Seq<u8>, position: int)
    requires
        0 <= position <= file.len(),
    ensures
        (file + added).skip(position + file.skip(position).len()) == added,
{
    assert((file + added).skip(file.len() as int) =~= added);
}

/// Where the stopping of a process stands.
#[derive(Debug, Clone, Copy, PartialEq, Eq, Structural)]
pub enum StopPhase {
    FirstCheck,
    Quitting,
    Sleeping,
    SecondCheck,
    Killing,
    ForcedKilling,
    Waiting,
    Done,
}

/// The stopping of a process: it is asked to quit, and killed if it does not.
#[derive(Debug)]
pub struct Stopping {
    pub phase: StopPhase,
    pub port: u16,
    pub password: String,
}

/// What the last action came to.
#[derive(Debug, Clone, Copy, PartialEq, Eq, Structural)]
pub enum StopEvent {
    /// The process is over.
    Exited,
    /// The process runs on.
    Running,
    /// It could not be found out.
    Unknown,
    /// The request to quit was answered with success.
    QuitAccepted,
    /// The request to quit was refused or did not get through.
    QuitFailed,
    /// The time is over.
    Elapsed,
    Killed,
    KillFailed,
}

/// What has to be done next.
#[derive(Debug)]
pub enum StopAction {
    /// See whether the process has exited.
    CheckExit,
    /// Request this URL, with this header where there is one.
    RequestQuit { url: String, authorization: Option<String> },
    Sleep(Duration),
    Kill,
    /// Kill without waiting.
    ForceKill,
    /// Wait for the process to exit, that long at most.
    WaitExit(Duration),
    Done,
}

/// The phase after an event.
pub open spec fn stop_phase(phase: StopPhase, event: StopEvent) -> StopPhase {
    match phase {
        StopPhase::FirstCheck => if event == StopEvent::Exited {
            StopPhase::Done
        } else {
            StopPhase::Quitting
        },
        StopPhase::Quitting => if event == StopEvent::QuitAccepted {
            StopPhase::Sleeping
        } else {
            StopPhase::SecondCheck
        },
        StopPhase::Sleeping => StopPhase::SecondCheck,
        StopPhase::SecondCheck => if event == StopEvent::Running {
            StopPhase::Killing
        } else {
            StopPhase::Done
        },
        StopPhase::Killing => if event == StopEvent::KillFailed {
            StopPhase::ForcedKilling
        } else {
            StopPhase::Waiting
        },
        StopPhase::ForcedKilling => StopPhase::Waiting,
        StopPhase::Waiting => StopPhase::Done,
        StopPhase::Done => StopPhase::Done,
    }
}

/// The URL that asks the process to quit.
pub open spec fn quit_url(port: u16) -> Seq<char> {
    "http://127.0.0.1:"@ + dec_text(port as nat) + "/quit"@
}

/// Whether an action is the one that a phase asks for.
pub open spec fn action_of(phase: StopPhase, port: u16, password: Seq<char>, action: StopAction) -> bool {
    match phase {
        StopPhase::FirstCheck => action is CheckExit,
        StopPhase::SecondCheck => action is CheckExit,
        StopPhase::Quitting => (action matches StopAction::RequestQuit { url, authorization } && url@
            == quit_url(port) && opt_text(authorization) == if password.len() > 0 {
            Some(password)
        } else {
            None
        }),
        StopPhase::Sleeping => action == StopAction::Sleep(secs(3)),
        StopPhase::Killing => action is Kill,
        StopPhase::ForcedKilling => action is ForceKill,
        StopPhase::Waiting => action == StopAction::WaitExit(secs(5)),
        StopPhase::Done => action is Done,
    }
}

impl Stopping {
    /// What has to be done now.
    pub fn action(&self) -> (a: StopAction)
        ensures
            action_of(self.phase, self.port, self.password@, a),
    {
        match self.phase {
            StopPhase::FirstCheck => StopAction::CheckExit,
            StopPhase::SecondCheck => StopAction::CheckExit,
            StopPhase::Quitting => {
                let mut url = copy_text("http://127.0.0.1:");
                push_decimal(&mut url, self.port as u64);
                push_text(&mut url, "/quit");
                let authorization = if self.password.as_str().is_empty() {
                    None
                } else {
                    Some(copy_text(self.password.as_str()))
                };
                StopAction::RequestQuit { url, authorization }
            },
            StopPhase::Sleeping => StopAction::Sleep(Duration::from_secs(3)),
            StopPhase::Killing => StopAction::Kill,
            StopPhase::ForcedKilling => StopAction::ForceKill,
            StopPhase::Waiting => StopAction::WaitExit(Duration::from_secs(5)),
            StopPhase::Done => StopAction::Done,
        }
    }

    /// Takes in what the last action came to, and says what has to be done next.
    pub fn step(&mut self, event: StopEvent) -> (a: StopAction)
        ensures
            final(self).phase == stop_phase(old(self).phase, event),
            final(self).port == old(self).port,
            final(self).password == old(self).password,
            action_of(final(self).phase, old(self).port, old(self).password@, a),
    {
        self.phase = match self.phase {
            StopPhase::FirstCheck => if event == StopEvent::Exited {
                StopPhase::Done
            } else {
                StopPhase::Quitting
            },
            StopPhase::Quitting => if event == StopEvent::QuitAccepted {
                StopPhase::Sleeping
            } else {
                StopPhase::SecondCheck
            },
            StopPhase::Sleeping => StopPhase::SecondCheck,
            StopPhase::SecondCheck => if event == StopEvent::Running {
                StopPhase::Killing
            } else {
                StopPhase::Done
            },
            StopPhase::Killing => if event == StopEvent::KillFailed {
                StopPhase::ForcedKilling
            } else {
                StopPhase::Waiting
            },
            StopPhase::ForcedKilling => StopPhase::Waiting,
            StopPhase::Waiting => StopPhase::Done,
            StopPhase::Done => StopPhase::Done,
        };
        self.action()
    }
}

/// How many steps a phase is from the end at most.
pub open spec fn steps_left(phase: StopPhase) -> int {
    match phase {
        StopPhase::FirstCheck => 7,
        StopPhase::Quitting => 6,
        StopPhase::Sleeping => 5,
        StopPhase::SecondCheck => 4,
        StopPhase::Killing => 3,
        StopPhase::ForcedKilling => 2,
        StopPhase::Waiting => 1,
        StopPhase::Done => 0,
    }
}

/// Stopping comes to an end, whatever happens.
pub proof fn law_stopping_ends(phase: StopPhase, event: StopEvent)
    ensures
        phase != StopPhase::Done ==> steps_left(stop_phase(phase, event)) < steps_left(phase),
        steps_left(phase) >= 0,
{
}

/// A process is killed only after it was asked to quit and still ran, and one that still runs then is
/// killed.
pub proof fn law_killed_only_when_still_running(phase: StopPhase, event: StopEvent)
    ensures
        stop_phase(phase, event) == StopPhase::Killing <==> phase == StopPhase::SecondCheck && event
            == StopEvent::Running,
{
}

/// What a configuration says of its port and password is taken over, and what it leaves out
/// stays as it was. Nothing else of the manager changes.
pub proof fn law_configuration_is_taken_over(m: ManagerView, json: Seq<char>, port: u64, password: Seq<char>)
    ensures
        ({
            let after = configured(m, json, Some(port), Some(password));
            &&& after.config_json == Some(json)
            &&& port < 65536 ==> after.config_api_port == port
            &&& after.config_api_password == password
            &&& after.process == m.process && after.logs == m.logs
            &&& after.core_path == m.core_path && after.work_dir == m.work_dir
        }),
        ({
            let after = configured(m, json, None, None);
            &&& after.config_json == Some(json)
            &&& after.config_api_port == m.config_api_port
            &&& after.config_api_password == m.config_api_password
            &&& after.process == m.process && after.logs == m.logs
            &&& after.core_path == m.core_path && after.work_dir == m.work_dir
        }),
{
}

/// The log keeps the last five hundred lines, in their order.
pub proof fn law_last_lines_are_kept(
    logs: Seq<(Seq<char>, Seq<char>)>,
    entry: (Seq<char>, Seq<char>),
)
    ensures
        ({
            let after = latest(logs.push(entry), MAX_LOG_LINES as int);
            &&& logs.len() < 500 ==> after == logs.push(entry)
            &&& logs.len() >= 500 ==> after.len() == 500 && after == logs.skip(
                logs.len() - 499,
            ).push(entry)
        }),
{
    if logs.len() >= 500 {
        assert(latest(logs.push(entry), MAX_LOG_LINES as int) =~= logs.skip(logs.len() - 499).push(
            entry,
        ));
    }
}

/// The core is started with its configuration, and with the two words that ask for more rights
/// where those are wanted.
pub proof fn law_words_of_the_core(config_path: Seq<char>)
    ensures
        core_args(config_path, false) == seq!["-c"@, config_path],
        core_args(config_path, true) == seq![
            "-c"@,
            config_path,
            "--elevate"@,
            "--elevate-no-show-window"@,
        ],
{
    assert(core_args(config_path, false) =~= seq!["-c"@, config_path]);
    assert(core_args(config_path, true) =~= seq![
        "-c"@,
        config_path,
        "--elevate"@,
        "--elevate-no-show-window"@,
    ]);
}

/// A core that has ended is not asked to quit. One that runs is asked, is given three seconds
/// where it agreed, is killed only where it still runs after that, by force where killing fails,
/// and is then waited for.
pub proof fn law_course_of_stopping(port: u16, password: Seq<char>, action: StopAction)
    ensures
        stop_phase(StopPhase::FirstCheck, StopEvent::Exited) == StopPhase::Done,
        stop_phase(StopPhase::FirstCheck, StopEvent::Running) == StopPhase::Quitting,
        stop_phase(StopPhase::Quitting, StopEvent::QuitAccepted) == StopPhase::Sleeping,
        forall|event: StopEvent|
            event != StopEvent::QuitAccepted ==> #[trigger] stop_phase(StopPhase::Quitting, event)
                == StopPhase::SecondCheck,
        forall|event: StopEvent| #[trigger]
            stop_phase(StopPhase::Sleeping, event) == StopPhase::SecondCheck,
        stop_phase(StopPhase::SecondCheck, StopEvent::Exited) == StopPhase::Done,
        stop_phase(StopPhase::SecondCheck, StopEvent::Running) == StopPhase::Killing,
        stop_phase(StopPhase::Killing, StopEvent::KillFailed) == StopPhase::ForcedKilling,
        forall|event: StopEvent|
            event != StopEvent::KillFailed ==> #[trigger] stop_phase(StopPhase::Killing, event)
                == StopPhase::Waiting,
        forall|event: StopEvent| #[trigger]
            stop_phase(StopPhase::ForcedKilling, event) == StopPhase::Waiting,
        forall|event: StopEvent| #[trigger]
            stop_phase(StopPhase::Waiting, event) == StopPhase::Done,
        action_of(StopPhase::Quitting, port, password, action) ==> (action matches
            StopAction::RequestQuit { url, authorization } && url@ == "http://127.0.0.1:"@ + dec_text(
            port as nat,
        ) + "/quit"@ && (password.len() > 0 ==> opt_text(authorization) == Some(password)) && (
        password.len() == 0 ==> opt_text(authorization) is None)),
        action_of(StopPhase::Sleeping, port, password, action) ==> (action matches StopAction::Sleep(
            d,
        ) && d.nanos == 3_000_000_000),
        action_of(StopPhase::Waiting, port, password, action) ==> (action matches
            StopAction::WaitExit(d) && d.nanos == 5_000_000_000),
        action_of(StopPhase::Killing, port, password, action) ==> action is Kill,
        action_of(StopPhase::ForcedKilling, port, password, action) ==> action is ForceKill,
        action_of(StopPhase::FirstCheck, port, password, action) ==> action is CheckExit,
        action_of(StopPhase::SecondCheck, port, password, action) ==> action is CheckExit,
        action_of(StopPhase::Done, port, password, action) ==> action is Done,
{
}

/// The port and the password of a configuration are those of its section for the interface. It
/// cannot be read where either of them cannot.
pub proof fn law_facts_of_a_configuration(text: Seq<char>)
    ensures
        facts_of(text) matches Ok((port, password)) ==> json_number(text, "api"@, "port"@) == Ok::<
            Option<u64>,
            Seq<char>,
        >(port) && json_text(text, "api"@, "password"@) == Ok::<Option<Seq<char>>, Seq<char>>(
            password,
        ),
        facts_of(text) is Err <==> json_number(text, "api"@, "port"@) is Err || json_text(
            text,
            "api"@,
            "password"@,
        ) is Err,
{
}

} // verus!
