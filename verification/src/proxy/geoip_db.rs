//! Databases that tell the country of an address, and when they are fetched anew.

use crate::config::{copy_opt, opt_text, GeoipDBConfig};
use crate::ip::{ip_text, push_ip};
use crate::proxy::addr::IpAddr;
use crate::text::{copy_text, push_text};
use crate::time::Duration;
use crate::utils::table::Table;
use vstd::prelude::*;

verus! {

/// The country code that `maxminddb` finds for an address in a database, `Some(None)` where it has
/// none, or `None` for a broken database or address, on a machine that can hold the database and the
/// time at which it was built.
pub uninterp spec fn country_code(db: Seq<u8>, ip: Seq<char>) -> Option<Option<Seq<char>>>;

/// The value of a country code that was looked for.
pub open spec fn code_view(code: Option<Option<String>>) -> Option<Option<Seq<char>>> {
    match code {
        Some(found) => Some(opt_text(found)),
        None => None,
    }
}

/// Calls `maxminddb::Reader::from_source`, `lookup` and `decode`: the country code of an address, a
/// function of the database and the address. Of a failure nothing is said: a database that is too large
/// for the machine, or whose build time the machine's clock cannot hold, is not opened.
#[verifier::external_body]
fn code_in(db: &[u8], ip: &str) -> (code: Option<Option<String>>)
    ensures
        code is Some ==> code_view(code) == country_code(db@, ip@) && is_database(db@),
{
    let reader = maxminddb::Reader::from_source(db).ok()?;
    let found = reader.lookup(ip.parse().ok()?).ok()?;
    let country = found.decode::<maxminddb::geoip2::Country>().ok()?;
    Some(country.and_then(|c| c.country.iso_code.map(|code| code.to_string())))
}

/// Whether `maxminddb` takes these bytes for a database on a machine that can hold it and the time at
/// which it was built.
pub uninterp spec fn is_database(db: Seq<u8>) -> bool;

/// Calls `maxminddb::Reader::from_source`, which looks for the metadata of a database, reads them and
/// holds the layout of the bytes against them: what it opens is a database. Of what it does not open
/// nothing is said, since the machine may be what it is too large for, or what cannot hold its build
/// time.
#[verifier::external_body]
fn opens(db: &[u8]) -> (r: bool)
    ensures
        r ==> is_database(db@),
{
    maxminddb::Reader::from_source(db).is_ok()
}

/// What was found at the place of a database file.
#[derive(Debug)]
pub enum FileRead {
    /// No file.
    Missing,
    /// A file that cannot be read.
    Unreadable,
    /// A file with these bytes.
    Contents(Vec<u8>),
}

/// The value of a [`FileRead`].
#[verifier::ext_equal]
pub enum FileReadView {
    Missing,
    Unreadable,
    Contents(Seq<u8>),
}

impl View for FileRead {
    type V = FileReadView;

    open spec fn view(&self) -> FileReadView {
        match self {
            FileRead::Missing => FileReadView::Missing,
            FileRead::Unreadable => FileReadView::Unreadable,
            FileRead::Contents(bytes) => FileReadView::Contents(bytes@),
        }
    }
}

/// What can come of taking the file of a database in: its bytes, if they are a database, or a complaint.
pub open spec fn loads(
    path: Seq<char>,
    read: FileReadView,
    loaded: Result<Seq<u8>, Seq<char>>,
) -> bool {
    match (read, loaded) {
        (FileReadView::Contents(bytes), Ok(data)) => data == bytes && is_database(bytes),
        (_, Ok(_)) => false,
        (FileReadView::Missing, Err(e)) => e == "path does not exists."@,
        (_, Err(e)) => e == "failed to load db:"@ + path,
    }
}

/// The value of what was loaded.
pub open spec fn loaded_view(loaded: Result<Vec<u8>, String>) -> Result<Seq<u8>, Seq<char>> {
    match loaded {
        Ok(data) => Ok(data@),
        Err(e) => Err(e@),
    }
}

/// Judges a file by whether it is a database.
pub fn judge_db_file(path: &str, bytes: Vec<u8>, opens: bool) -> (r: Result<Vec<u8>, String>)
    ensures
        match r {
            Ok(data) => opens && data == bytes,
            Err(e) => !opens && e@ == "failed to load db:"@ + path@,
        },
{
    if opens {
        Ok(bytes)
    } else {
        let mut e = copy_text("failed to load db:");
        push_text(&mut e, path);
        Err(e)
    }
}

/// Takes the file of a database in, and makes sure that it is one.
pub fn load_db_file(path: &str, read: FileRead) -> (r: Result<Vec<u8>, String>)
    ensures
        loads(path@, read@, loaded_view(r)),
{
    match read {
        FileRead::Missing => Err(copy_text("path does not exists.")),
        FileRead::Unreadable => judge_db_file(path, Vec::new(), false),
        FileRead::Contents(bytes) => {
            let is_one = opens(bytes.as_slice());
            judge_db_file(path, bytes, is_one)
        },
    }
}

/// Why there is no country.
#[derive(Clone, Copy, Debug, PartialEq, Eq, Structural)]
pub enum GeoipError {
    /// The database has not been read.
    NotLoaded,
    /// The database cannot answer.
    Failed,
}

/// What a lookup comes to: the code, or a word for an address without one.
pub open spec fn country_name(code: Option<Option<Seq<char>>>) -> Result<Seq<char>, GeoipError> {
    match code {
        None => Err(GeoipError::Failed),
        Some(None) => Ok("unknown"@),
        Some(Some(c)) => Ok(c),
    }
}

/// Turns the outcome of a lookup into a country.
pub fn country_of(code: Option<Option<String>>) -> (r: Result<String, GeoipError>)
    ensures
        match r {
            Ok(name) => country_name(code_view(code)) == Ok::<Seq<char>, GeoipError>(name@),
            Err(e) => country_name(code_view(code)) == Err::<Seq<char>, GeoipError>(e),
        },
{
    match code {
        None => Err(GeoipError::Failed),
        Some(None) => Ok(copy_text("unknown")),
        Some(Some(c)) => Ok(c),
    }
}

/// A database of the router.
#[derive(Debug)]
pub struct GeoipDB {
    pub tag: String,
    pub path: String,
    pub url: Option<String>,
    pub cache: Option<String>,
    pub download_outbound: Option<String>,
    pub update_interval: Duration,
    pub data: Option<Vec<u8>>,
}

/// The complaint about a missing path.
pub open spec fn path_missing(tag: Seq<char>) -> Seq<char> {
    "geoip_db '"@ + tag + "' requires a path"@
}

/// The text that the standard library prints an optional text as, with quotes and escapes.
pub uninterp spec fn debug_text(s: Option<Seq<char>>) -> Seq<char>;

/// Calls the `Debug` impl of `Option<String>`: a function of the text.
#[verifier::external_body]
fn debug_opt(s: &Option<String>) -> (text: String)
    ensures
        text@ == debug_text(opt_text(*s)),
{
    format!("{:?}", s)
}

/// What is stored for a database, under the given text of its address.
pub open spec fn db_key(tag: Seq<char>, url: Seq<char>, path: Seq<char>) -> Seq<char> {
    "tag:"@ + tag + ",url:"@ + url + ",path:"@ + path
}

/// Writes what is stored for a database, under the given text of its address.
pub fn db_key_text(tag: &str, url: &str, path: &str) -> (key: String)
    ensures
        key@ == db_key(tag@, url@, path@),
{
    let mut key = copy_text("tag:");
    push_text(&mut key, tag);
    push_text(&mut key, ",url:");
    push_text(&mut key, url);
    push_text(&mut key, ",path:");
    push_text(&mut key, path);
    key
}

/// What is known of the last update.
#[derive(Clone, Copy, Debug, PartialEq, Eq, Structural)]
pub enum LastUpdate {
    /// There is no store, or it cannot be read.
    Unknown,
    /// None is stored.
    Never,
    /// The time in seconds.
    At(u64),
}

/// When the next update is due, and whether the present time has to be stored.
pub open spec fn update_delay(interval: Duration, last: LastUpdate, now: u64) -> (Duration, bool) {
    match last {
        LastUpdate::Unknown => (interval, false),
        LastUpdate::Never => (interval, true),
        LastUpdate::At(then) => {
            let elapsed = if now > then {
                (now - then) * 1_000_000_000
            } else {
                0
            };
            (
                Duration {
                    nanos: if interval.nanos >= elapsed {
                        (interval.nanos - elapsed) as u128
                    } else {
                        0
                    },
                },
                false,
            )
        },
    }
}

/// The bytes that were read.
pub open spec fn opt_bytes(data: Option<Vec<u8>>) -> Option<Seq<u8>> {
    match data {
        Some(bytes) => Some(bytes@),
        None => None,
    }
}

impl GeoipDB {
    /// What is in use is a database.
    pub open spec fn wf(self) -> bool {
        self.data matches Some(data) ==> is_database(data@)
    }

    /// Whether two databases are configured alike, whatever data is in use.
    pub open spec fn same_settings(self, other: GeoipDB) -> bool {
        &&& self.tag == other.tag
        &&& self.path == other.path
        &&& self.url == other.url
        &&& self.cache == other.cache
        &&& self.download_outbound == other.download_outbound
        &&& self.update_interval == other.update_interval
    }

    /// A database as configured, not read yet.
    pub fn new(tag: String, cfg: &GeoipDBConfig, update_interval: Duration) -> (r: Result<
        GeoipDB,
        String,
    >)
        ensures
            match r {
                Ok(db) => {
                    &&& cfg.path@.len() > 0
                    &&& db.tag@ == tag@
                    &&& db.path@ == cfg.path@
                    &&& opt_text(db.url) == opt_text(cfg.url)
                    &&& opt_text(db.cache) == opt_text(cfg.cache)
                    &&& opt_text(db.download_outbound) == opt_text(cfg.download_outbound)
                    &&& db.update_interval == update_interval
                    &&& db.data is None
                    &&& db.wf()
                },
                Err(e) => cfg.path@.len() == 0 && e@ == path_missing(tag@),
            },
    {
        if cfg.path.as_str().is_empty() {
            let mut e = copy_text("geoip_db '");
            push_text(&mut e, tag.as_str());
            push_text(&mut e, "' requires a path");
            return Err(e);
        }
        Ok(
            GeoipDB {
                tag,
                path: copy_text(cfg.path.as_str()),
                url: copy_opt(&cfg.url),
                cache: copy_opt(&cfg.cache),
                download_outbound: copy_opt(&cfg.download_outbound),
                update_interval,
                data: None,
            },
        )
    }

    /// How often the database is fetched anew, as configured; every two days if nothing is said.
    pub fn interval_text(cfg: &GeoipDBConfig) -> (text: String)
        ensures
            text@ == match opt_text(cfg.update_interval) {
                Some(t) => t,
                None => "48h"@,
            },
    {
        match &cfg.update_interval {
            Some(t) => copy_text(t.as_str()),
            None => copy_text("48h"),
        }
    }

    /// The country of an address. What becomes of what the database answers is stated by
    /// [`country_of`].
    pub fn lookup(&self, ip: IpAddr) -> (r: Result<String, GeoipError>)
        ensures
            match self.data {
                None => r matches Err(e) && e == GeoipError::NotLoaded,
                Some(db) => match r {
                    Ok(name) => country_name(country_code(db@, ip_text(ip))) == Ok::<
                        Seq<char>,
                        GeoipError,
                    >(name@) && is_database(db@),
                    Err(e) => e == GeoipError::Failed,
                },
            },
    {
        match &self.data {
            None => Err(GeoipError::NotLoaded),
            Some(db) => {
                let mut text = String::new();
                push_ip(&mut text, ip);
                assert(text@ =~= ip_text(ip));
                country_of(code_in(db.as_slice(), text.as_str()))
            },
        }
    }

    /// Lets the data go.
    pub fn close_reader(&mut self)
        ensures
            final(self).data is None,
            final(self).same_settings(*old(self)),
            final(self).wf(),
    {
        self.data = None;
    }

    /// What the time of an update is stored under, where there is a store and an address to fetch from.
    pub fn record_update_success(&self) -> (key: Option<String>)
        ensures
            opt_text(key) == if self.cache is Some && self.url is Some {
                Some(db_key(self.tag@, self.url->0@, self.path@))
            } else {
                None
            },
    {
        match (&self.cache, &self.url) {
            (Some(_), Some(url)) => Some(
                db_key_text(self.tag.as_str(), url.as_str(), self.path.as_str()),
            ),
            _ => None,
        }
    }

    /// What the time of the last update is looked up under.
    pub fn get_key(&self) -> (key: String)
        ensures
            key@ == db_key(self.tag@, debug_text(opt_text(self.url)), self.path@),
    {
        let url = debug_opt(&self.url);
        db_key_text(self.tag.as_str(), url.as_str(), self.path.as_str())
    }

    /// When the next update is due, and whether the present time has to be stored.
    pub fn next_update_delay(&self, last: LastUpdate, now: u64) -> (r: (Duration, bool))
        ensures
            r == update_delay(self.update_interval, last, now),
    {
        match last {
            LastUpdate::Unknown => (self.update_interval, false),
            LastUpdate::Never => (self.update_interval, true),
            LastUpdate::At(then) => {
                let elapsed = Duration::from_secs(now.saturating_sub(then));
                (self.update_interval.saturating_sub(elapsed), false)
            },
        }
    }

    /// Whether the database is fetched anew from time to time: it needs an address and an interval.
    pub fn spawn_updater(&self) -> (r: bool)
        ensures
            r == (self.url is Some && self.update_interval.nanos > 0),
    {
        self.url.is_some() && !self.update_interval.is_zero()
    }
}

/// What is left to do once the file of a database has been looked for.
#[derive(Debug, Clone, Copy, PartialEq, Eq, Structural)]
pub enum EnsureStep {
    /// Nothing.
    Done,
    /// Fetch the database.
    Update,
}

/// How far an update has come.
#[derive(Debug, Clone, Copy, PartialEq, Eq, Structural)]
pub enum UpdatePhase {
    Downloading,
    Verifying,
    Replacing,
    Loading,
    Over,
}

/// How a step of an update ended.
#[derive(Debug)]
pub enum UpdateEvent {
    /// The file was fetched or put in its place, or there was a complaint.
    Finished(Result<(), String>),
    /// This was found at the place of the file to look at.
    Read(FileRead),
}

/// The value of an [`UpdateEvent`].
#[verifier::ext_equal]
pub enum UpdateEventView {
    Finished(Result<(), Seq<char>>),
    Read(FileReadView),
}

impl View for UpdateEvent {
    type V = UpdateEventView;

    open spec fn view(&self) -> UpdateEventView {
        match self {
            UpdateEvent::Finished(Ok(())) => UpdateEventView::Finished(Ok(())),
            UpdateEvent::Finished(Err(e)) => UpdateEventView::Finished(Err(e@)),
            UpdateEvent::Read(read) => UpdateEventView::Read(read@),
        }
    }
}

/// Whether a step is one at whose end a file has been read.
pub open spec fn reads_file(phase: UpdatePhase) -> bool {
    phase == UpdatePhase::Verifying || phase == UpdatePhase::Loading
}

/// Whether an event is one that a step can end with.
pub open spec fn ends_with(phase: UpdatePhase, event: UpdateEventView) -> bool {
    phase != UpdatePhase::Over ==> (event is Read <==> reads_file(phase))
}

/// What an update does next.
#[derive(Debug)]
pub enum UpdateAction {
    /// Fetch the database to this file.
    Download(String),
    /// Look whether this file is a database.
    Verify(String),
    /// Put the first file in the place of the second.
    Replace(String, String),
    /// Read the database from this file.
    Load(String),
    /// Remove this file, where there is one, and fail.
    Fail(Option<String>, String),
    /// The database is up to date.
    Done,
}

/// The value of an [`UpdateAction`].
pub enum UpdateActionView {
    Download(Seq<char>),
    Verify(Seq<char>),
    Replace(Seq<char>, Seq<char>),
    Load(Seq<char>),
    Fail(Option<Seq<char>>, Seq<char>),
    Done,
}

impl View for UpdateAction {
    type V = UpdateActionView;

    open spec fn view(&self) -> UpdateActionView {
        match self {
            UpdateAction::Download(path) => UpdateActionView::Download(path@),
            UpdateAction::Verify(path) => UpdateActionView::Verify(path@),
            UpdateAction::Replace(from, to) => UpdateActionView::Replace(from@, to@),
            UpdateAction::Load(path) => UpdateActionView::Load(path@),
            UpdateAction::Fail(path, e) => UpdateActionView::Fail(opt_text(*path), e@),
            UpdateAction::Done => UpdateActionView::Done,
        }
    }
}

/// The file that a database is fetched to.
pub open spec fn tmp_path_of(path: Seq<char>) -> Seq<char> {
    path + ".tmp"@
}

/// How an update goes on after a step of it ended, and what it does next.
pub open spec fn update_step(
    tag: Seq<char>,
    path: Seq<char>,
    phase: UpdatePhase,
    complaint: Option<Seq<char>>,
) -> (UpdatePhase, UpdateActionView) {
    let tmp = tmp_path_of(path);
    match (phase, complaint) {
        (UpdatePhase::Downloading, None) => (UpdatePhase::Verifying, UpdateActionView::Verify(tmp)),
        (UpdatePhase::Downloading, Some(e)) => (
            UpdatePhase::Over,
            UpdateActionView::Fail(Some(tmp), e),
        ),
        (UpdatePhase::Verifying, None) => (
            UpdatePhase::Replacing,
            UpdateActionView::Replace(tmp, path),
        ),
        (UpdatePhase::Verifying, Some(e)) => (
            UpdatePhase::Over,
            UpdateActionView::Fail(
                Some(tmp),
                "Downloaded GeoIP db '"@ + tag + "' is invalid: "@ + e,
            ),
        ),
        (UpdatePhase::Replacing, None) => (UpdatePhase::Loading, UpdateActionView::Load(path)),
        (UpdatePhase::Replacing, Some(e)) => (
            UpdatePhase::Over,
            UpdateActionView::Fail(
                Some(tmp),
                "failed to replace GeoIP db '"@ + tag + "' at "@ + path + ": "@ + e,
            ),
        ),
        (UpdatePhase::Loading, None) => (UpdatePhase::Over, UpdateActionView::Done),
        (UpdatePhase::Loading, Some(e)) => (UpdatePhase::Over, UpdateActionView::Fail(None, e)),
        (UpdatePhase::Over, _) => (UpdatePhase::Over, UpdateActionView::Done),
    }
}

/// What can come of a step that ended: a database that was read, where one was to be, or a complaint.
pub open spec fn comes_to(
    path: Seq<char>,
    phase: UpdatePhase,
    event: UpdateEventView,
    outcome: Result<Option<Seq<u8>>, Seq<char>>,
) -> bool {
    match (event, outcome) {
        (UpdateEventView::Finished(Ok(())), _) => outcome == Ok::<Option<Seq<u8>>, Seq<char>>(None),
        (UpdateEventView::Finished(Err(e)), _) => outcome == Err::<Option<Seq<u8>>, Seq<char>>(e),
        (UpdateEventView::Read(read), Ok(Some(data))) => loads(
            file_of(path, phase),
            read,
            Ok(data),
        ),
        (UpdateEventView::Read(read), Ok(None)) => false,
        (UpdateEventView::Read(read), Err(e)) => loads(file_of(path, phase), read, Err(e)),
    }
}

/// The file that is read in a step: the fetched one, as long as it has not taken its place.
pub open spec fn file_of(path: Seq<char>, phase: UpdatePhase) -> Seq<char> {
    if phase == UpdatePhase::Verifying {
        tmp_path_of(path)
    } else {
        path
    }
}

/// The value of what came of a step.
pub open spec fn outcome_view(outcome: Result<Option<Vec<u8>>, String>) -> Result<
    Option<Seq<u8>>,
    Seq<char>,
> {
    match outcome {
        Ok(data) => Ok(opt_bytes(data)),
        Err(e) => Err(e@),
    }
}

/// The complaint that a step of an update ended with.
pub open spec fn complaint_of(outcome: Result<Option<Seq<u8>>, Seq<char>>) -> Option<Seq<char>> {
    match outcome {
        Ok(_) => None,
        Err(e) => Some(e),
    }
}

/// What is done once the file of a database has been taken in: without a database one is fetched, if
/// it can be.
pub open spec fn ensured(has_url: bool, loaded: Result<Seq<u8>, Seq<char>>) -> EnsureStep {
    if loaded is Err && has_url {
        EnsureStep::Update
    } else {
        EnsureStep::Done
    }
}

impl GeoipDB {
    /// This was found at the place of the database. Where it is no database, one is fetched, if it can
    /// be; else there is none. What becomes of what was loaded is stated by [`GeoipDB::use_db`].
    pub fn ensure_db(&mut self, read: FileRead) -> (step: EnsureStep)
        ensures
            exists|loaded: Result<Seq<u8>, Seq<char>>| #[trigger]
                loads(old(self).path@, read@, loaded) && step == ensured(
                    old(self).url is Some,
                    loaded,
                ) && match loaded {
                    Ok(data) => opt_bytes(final(self).data) == Some(data),
                    Err(_) => final(self).data == old(self).data,
                },
            !(read@ is Contents) ==> step == ensured(old(self).url is Some, Err(Seq::empty()))
                && final(self).data == old(self).data,
            final(self).same_settings(*old(self)),
            old(self).wf() ==> final(self).wf(),
    {
        let loaded = load_db_file(self.path.as_str(), read);
        assert(loads(self.path@, read@, loaded_view(loaded)));
        self.use_db(loaded)
    }

    /// Takes a database that was loaded into use; without one, it is fetched, if it can be.
    pub fn use_db(&mut self, loaded: Result<Vec<u8>, String>) -> (step: EnsureStep)
        ensures
            step == ensured(old(self).url is Some, loaded_view(loaded)),
            match loaded {
                Ok(data) => final(self).data == Some(data),
                Err(_) => final(self).data == old(self).data,
            },
            final(self).same_settings(*old(self)),
    {
        match loaded {
            Ok(data) => {
                self.data = Some(data);
                EnsureStep::Done
            },
            Err(_) => {
                if self.url.is_some() {
                    EnsureStep::Update
                } else {
                    EnsureStep::Done
                }
            },
        }
    }

    fn tmp_path(&self) -> (path: String)
        ensures
            path@ == tmp_path_of(self.path@),
    {
        let mut path = copy_text(self.path.as_str());
        push_text(&mut path, ".tmp");
        path
    }

    /// Begins an update: the database is fetched next to its place. Without an address to fetch from
    /// there is none.
    pub fn update_db(&self) -> (r: Result<(UpdatePhase, UpdateAction), String>)
        ensures
            match r {
                Ok((phase, action)) => self.url is Some && phase == UpdatePhase::Downloading
                    && action@ == UpdateActionView::Download(tmp_path_of(self.path@)),
                Err(e) => self.url is None && e@ == "missing url for remote db"@,
            },
    {
        if self.url.is_none() {
            return Err(copy_text("missing url for remote db"));
        }
        Ok((UpdatePhase::Downloading, UpdateAction::Download(self.tmp_path())))
    }

    /// Judges what the server sent for the database: it has to be a success, and not empty.
    pub fn download_db(&self, success: bool, status: &str, body: &[u8]) -> (r: Result<(), String>)
        ensures
            match r {
                Ok(()) => success && body@.len() > 0,
                Err(e) => e@ == if !success {
                    "HTTP Error downloading GeoIP db '"@ + self.tag@ + "': "@ + status@
                } else {
                    "Downloaded GeoIP db '"@ + self.tag@ + "' is empty"@
                },
            },
            r is Err ==> !success || body@.len() == 0,
    {
        if !success {
            let mut e = copy_text("HTTP Error downloading GeoIP db '");
            push_text(&mut e, self.tag.as_str());
            push_text(&mut e, "': ");
            push_text(&mut e, status);
            return Err(e);
        }
        if body.len() == 0 {
            let mut e = copy_text("Downloaded GeoIP db '");
            push_text(&mut e, self.tag.as_str());
            push_text(&mut e, "' is empty");
            return Err(e);
        }
        Ok(())
    }

    /// A step of an update ended. What was fetched has to be a database before it takes the place of
    /// the old one, and only what was read from there and is a database comes into use. What becomes of
    /// what came of the step is stated by [`GeoipDB::go_on`].
    pub fn step_update(&mut self, phase: &mut UpdatePhase, event: UpdateEvent) -> (action: UpdateAction)
        requires
            ends_with(*old(phase), event@),
        ensures
            exists|outcome: Result<Option<Seq<u8>>, Seq<char>>| #[trigger]
                comes_to(old(self).path@, *old(phase), event@, outcome) && (
                    *final(phase),
                    action@,
                ) == update_step(
                    old(self).tag@,
                    old(self).path@,
                    *old(phase),
                    complaint_of(outcome),
                ) && match (*old(phase), outcome) {
                    (UpdatePhase::Loading, Ok(data)) => opt_bytes(final(self).data) == data,
                    _ => final(self).data == old(self).data,
                },
            final(self).same_settings(*old(self)),
            old(self).wf() ==> final(self).wf(),
    {
        let ghost ended = *phase;
        let ghost what = event@;
        let outcome: Result<Option<Vec<u8>>, String> = match event {
            UpdateEvent::Finished(Ok(())) => Ok(None),
            UpdateEvent::Finished(Err(e)) => Err(e),
            UpdateEvent::Read(read) => {
                let loaded = if *phase == UpdatePhase::Verifying {
                    load_db_file(self.tmp_path().as_str(), read)
                } else {
                    load_db_file(self.path.as_str(), read)
                };
                match loaded {
                    Ok(data) => Ok(Some(data)),
                    Err(e) => Err(e),
                }
            },
        };
        assert(comes_to(self.path@, ended, what, outcome_view(outcome)));
        self.go_on(phase, outcome)
    }

    /// Goes on with an update by what came of the step that ended.
    pub fn go_on(
        &mut self,
        phase: &mut UpdatePhase,
        outcome: Result<Option<Vec<u8>>, String>,
    ) -> (action: UpdateAction)
        ensures
            (*final(phase), action@) == update_step(
                old(self).tag@,
                old(self).path@,
                *old(phase),
                complaint_of(outcome_view(outcome)),
            ),
            final(self).data == match (*old(phase), outcome) {
                (UpdatePhase::Loading, Ok(data)) => data,
                _ => old(self).data,
            },
            final(self).same_settings(*old(self)),
    {
        let before = *phase;
        match (before, outcome) {
            (UpdatePhase::Over, _) => UpdateAction::Done,
            (UpdatePhase::Downloading, Ok(_)) => {
                *phase = UpdatePhase::Verifying;
                UpdateAction::Verify(self.tmp_path())
            },
            (UpdatePhase::Verifying, Ok(_)) => {
                *phase = UpdatePhase::Replacing;
                UpdateAction::Replace(self.tmp_path(), copy_text(self.path.as_str()))
            },
            (UpdatePhase::Replacing, Ok(_)) => {
                *phase = UpdatePhase::Loading;
                UpdateAction::Load(copy_text(self.path.as_str()))
            },
            (UpdatePhase::Loading, Ok(data)) => {
                *phase = UpdatePhase::Over;
                self.data = data;
                UpdateAction::Done
            },
            (UpdatePhase::Downloading, Err(e)) => {
                *phase = UpdatePhase::Over;
                UpdateAction::Fail(Some(self.tmp_path()), e)
            },
            (UpdatePhase::Verifying, Err(e)) => {
                *phase = UpdatePhase::Over;
                let mut text = copy_text("Downloaded GeoIP db '");
                push_text(&mut text, self.tag.as_str());
                push_text(&mut text, "' is invalid: ");
                push_text(&mut text, e.as_str());
                UpdateAction::Fail(Some(self.tmp_path()), text)
            },
            (UpdatePhase::Replacing, Err(e)) => {
                *phase = UpdatePhase::Over;
                let mut text = copy_text("failed to replace GeoIP db '");
                push_text(&mut text, self.tag.as_str());
                push_text(&mut text, "' at ");
                push_text(&mut text, self.path.as_str());
                push_text(&mut text, ": ");
                push_text(&mut text, e.as_str());
                UpdateAction::Fail(Some(self.tmp_path()), text)
            },
            (UpdatePhase::Loading, Err(e)) => {
                *phase = UpdatePhase::Over;
                UpdateAction::Fail(None, e)
            },
        }
    }
}

/// How many steps an update has left at most.
pub open spec fn steps_left(phase: UpdatePhase) -> int {
    match phase {
        UpdatePhase::Downloading => 4,
        UpdatePhase::Verifying => 3,
        UpdatePhase::Replacing => 2,
        UpdatePhase::Loading => 1,
        UpdatePhase::Over => 0,
    }
}

/// The database's file is replaced only once the fetched file was read and is a database, and
/// whatever fails before that is cleared away. Only a database that was read comes into use. Every
/// update comes to an end.
pub proof fn law_only_verified_data_replaces(
    tag: Seq<char>,
    path: Seq<char>,
    phase: UpdatePhase,
    event: UpdateEventView,
    outcome: Result<Option<Seq<u8>>, Seq<char>>,
)
    requires
        ends_with(phase, event),
        comes_to(path, phase, event, outcome),
    ensures
        ({
            let (next, action) = update_step(tag, path, phase, complaint_of(outcome));
            &&& action is Replace ==> phase == UpdatePhase::Verifying && (event matches
                UpdateEventView::Read(FileReadView::Contents(bytes)) && is_database(bytes))
            &&& phase == UpdatePhase::Loading && outcome is Ok ==> (event matches
                UpdateEventView::Read(FileReadView::Contents(bytes)) && is_database(bytes) && outcome
                == Ok::<Option<Seq<u8>>, Seq<char>>(Some(bytes)))
            &&& (phase == UpdatePhase::Downloading || phase == UpdatePhase::Verifying || phase
                == UpdatePhase::Replacing) && outcome is Err ==> (action matches UpdateActionView::Fail(
                Some(file),
                _,
            ) && file == tmp_path_of(path))
            &&& phase != UpdatePhase::Over ==> steps_left(next) < steps_left(phase)
        }),
{
}

/// An update is never put off for longer than the interval.
pub proof fn law_update_within_interval(interval: Duration, last: LastUpdate, now: u64)
    ensures
        update_delay(interval, last, now).0.nanos <= interval.nanos,
{
}

/// Forgets all databases.
pub fn shutdown_geoip_db(databases: &mut Table<GeoipDB>)
    ensures
        final(databases).wf(),
        final(databases)@ == Map::<Seq<char>, GeoipDB>::empty(),
{
    *databases = Table::new();
}

/// Finds a database.
pub fn get_geoip_db_by_tag<'a>(databases: &'a Table<GeoipDB>, tag: &str) -> (r: Result<
    &'a GeoipDB,
    String,
>)
    requires
        databases.wf(),
    ensures
        match r {
            Ok(db) => databases@.contains_key(tag@) && databases@[tag@] == *db,
            Err(e) => !databases@.contains_key(tag@) && e@ == "can not find db: "@ + tag@,
        },
{
    match databases.get(tag) {
        Some(db) => Ok(db),
        None => {
            let mut e = copy_text("can not find db: ");
            push_text(&mut e, tag);
            Err(e)
        },
    }
}

/// What a path holds is loaded when it is a database, and nothing else is: a missing file and
/// one that is no database are told apart.
pub proof fn law_what_is_loaded(path: Seq<char>, bytes: Seq<u8>, loaded: Result<Seq<u8>, Seq<char>>)
    ensures
        loads(path, FileReadView::Contents(bytes), loaded) && loaded is Ok ==> loaded->Ok_0 == bytes
            && is_database(bytes),
        loads(path, FileReadView::Missing, loaded) ==> loaded == Err::<Seq<u8>, Seq<char>>(
            "path does not exists."@,
        ),
        loads(path, FileReadView::Unreadable, loaded) ==> loaded == Err::<Seq<u8>, Seq<char>>(
            "failed to load db:"@ + path,
        ),
        loads(path, FileReadView::Contents(bytes), loaded) && loaded is Err ==> loaded->Err_0
            == "failed to load db:"@ + path,
{
}

/// An update whose every step succeeds downloads to a file beside the database, checks that
/// file, puts it in the database's place and loads it.
pub proof fn law_course_of_an_update(tag: Seq<char>, path: Seq<char>)
    ensures
        update_step(tag, path, UpdatePhase::Downloading, None) == (
            UpdatePhase::Verifying,
            UpdateActionView::Verify(path + ".tmp"@),
        ),
        update_step(tag, path, UpdatePhase::Verifying, None) == (
            UpdatePhase::Replacing,
            UpdateActionView::Replace(path + ".tmp"@, path),
        ),
        update_step(tag, path, UpdatePhase::Replacing, None) == (
            UpdatePhase::Loading,
            UpdateActionView::Load(path),
        ),
        update_step(tag, path, UpdatePhase::Loading, None) == (
            UpdatePhase::Over,
            UpdateActionView::Done,
        ),
{
}

/// An update ends with its first failure, and says what failed. What was downloaded is given
/// up, and the database's own file is never among what is given up.
pub proof fn law_first_failure_ends_an_update(
    tag: Seq<char>,
    path: Seq<char>,
    phase: UpdatePhase,
    e: Seq<char>,
)
    requires
        phase != UpdatePhase::Over,
    ensures
        ({
            let (next, action) = update_step(tag, path, phase, Some(e));
            &&& next == UpdatePhase::Over
            &&& action matches UpdateActionView::Fail(file, text)
            &&& file == if phase == UpdatePhase::Loading {
                None
            } else {
                Some(path + ".tmp"@)
            }
            &&& file != Some(path)
            &&& text.len() >= e.len() && text.skip(text.len() - e.len()) == e
            &&& phase == UpdatePhase::Downloading || phase == UpdatePhase::Loading ==> text == e
        }),
{
    reveal_strlit(".tmp");
    let (next, action) = update_step(tag, path, phase, Some(e));
    assert((path + ".tmp"@).len() == path.len() + 4);
    if let UpdateActionView::Fail(file, text) = action {
        assert(text.skip(text.len() - e.len()) =~= e);
    }
}

/// The next update is due one interval after the last. Where the last was longer ago than the
/// interval, it is due at once. Where there was none, it is made and then waited for the whole
/// interval.
pub proof fn law_when_an_update_is_due(interval: Duration, then: u64, now: u64)
    ensures
        ({
            let (wait, first) = update_delay(interval, LastUpdate::At(then), now);
            &&& !first
            &&& now >= then ==> (if then * 1_000_000_000 + interval.nanos >= now * 1_000_000_000 {
                now * 1_000_000_000 + wait.nanos == then * 1_000_000_000 + interval.nanos
            } else {
                wait.nanos == 0
            })
            &&& now < then ==> wait == interval
        }),
        update_delay(interval, LastUpdate::Never, now) == (interval, true),
        update_delay(interval, LastUpdate::Unknown, now) == (interval, false),
{
}

/// A database that could not be loaded is fetched where it has a source, and only then. A
/// country without a code is named unknown.
pub proof fn law_database_is_fetched_when_needed(
    has_url: bool,
    loaded: Result<Seq<u8>, Seq<char>>,
    code: Seq<char>,
)
    ensures
        ensured(has_url, loaded) == EnsureStep::Update <==> has_url && loaded is Err,
        country_name(Some(Some(code))) == Ok::<Seq<char>, GeoipError>(code),
        country_name(Some(None)) == Ok::<Seq<char>, GeoipError>("unknown"@),
        country_name(None) == Err::<Seq<char>, GeoipError>(GeoipError::Failed),
{
}

/// What a database is stored under differs with its tag, with its source and with its path
/// where the other two are the same.
pub proof fn law_databases_are_stored_apart(
    tag: Seq<char>,
    url: Seq<char>,
    path: Seq<char>,
    other: Seq<char>,
)
    ensures
        db_key(tag, url, path) == db_key(tag, url, other) ==> path == other,
        db_key(tag, url, path) == db_key(tag, other, path) ==> url == other,
        db_key(tag, url, path) == db_key(other, url, path) ==> tag == other,
{
    reveal_strlit("tag:");
    reveal_strlit(",url:");
    reveal_strlit(",path:");
    let key = db_key(tag, url, path);
    let lead = 4 + tag.len() + 5 + url.len() + 6;
    assert(key.skip(lead as int) =~= path);
    assert(key.subrange(9int + tag.len(), 9int + tag.len() + url.len()) =~= url);
    assert(key.subrange(4, 4int + tag.len()) =~= tag);
    if key == db_key(tag, url, other) {
        assert(db_key(tag, url, other).skip(lead as int) =~= other);
    }
    if key == db_key(tag, other, path) {
        assert(other.len() == url.len());
        assert(db_key(tag, other, path).subrange(9int + tag.len(), 9int + tag.len() + other.len())
            =~= other);
    }
    if key == db_key(other, url, path) {
        assert(other.len() == tag.len());
        assert(db_key(other, url, path).subrange(4, 4int + other.len()) =~= other);
    }
}

} // verus!
