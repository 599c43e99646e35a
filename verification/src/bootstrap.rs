//! In which order the parts of the program start and stop.

use crate::config::{opt_str, opt_text, texts};
use crate::ip::{ip_of, parse_ip};
use crate::proxy::addr::SocketAddr;
use crate::text::copy_text;
use vstd::prelude::*;

verus! {

/// The parts that are started.
#[derive(Debug, Clone, Copy, PartialEq, Eq, Structural)]
pub enum Stage {
    Cache,
    Observer,
    Outbounds,
    Dns,
    GeoipDb,
    Geoip,
    Router,
    Inbounds,
    Api,
}

/// The order in which the parts are started.
pub open spec fn start_order() -> Seq<Stage> {
    seq![
        Stage::Cache,
        Stage::Observer,
        Stage::Outbounds,
        Stage::Dns,
        Stage::GeoipDb,
        Stage::Geoip,
        Stage::Router,
        Stage::Inbounds,
        Stage::Api,
    ]
}

/// The part to start after that one, or the first; `None` once all are started.
pub open spec fn stage_after(stage: Option<Stage>) -> Option<Stage> {
    match stage {
        None => Some(Stage::Cache),
        Some(Stage::Cache) => Some(Stage::Observer),
        Some(Stage::Observer) => Some(Stage::Outbounds),
        Some(Stage::Outbounds) => Some(Stage::Dns),
        Some(Stage::Dns) => Some(Stage::GeoipDb),
        Some(Stage::GeoipDb) => Some(Stage::Geoip),
        Some(Stage::Geoip) => Some(Stage::Router),
        Some(Stage::Router) => Some(Stage::Inbounds),
        Some(Stage::Inbounds) => Some(Stage::Api),
        Some(Stage::Api) => None,
    }
}

/// Says which part to start next.
pub fn init_app(started: Option<Stage>) -> (next: Option<Stage>)
    ensures
        next == stage_after(started),
{
    match started {
        None => Some(Stage::Cache),
        Some(Stage::Cache) => Some(Stage::Observer),
        Some(Stage::Observer) => Some(Stage::Outbounds),
        Some(Stage::Outbounds) => Some(Stage::Dns),
        Some(Stage::Dns) => Some(Stage::GeoipDb),
        Some(Stage::GeoipDb) => Some(Stage::Geoip),
        Some(Stage::Geoip) => Some(Stage::Router),
        Some(Stage::Router) => Some(Stage::Inbounds),
        Some(Stage::Inbounds) => Some(Stage::Api),
        Some(Stage::Api) => None,
    }
}

/// What is said of a part that did not start.
pub fn init_failure(stage: Stage) -> (text: &'static str)
    ensures
        text@ == match stage {
            Stage::Cache => "Failed to init cache"@,
            Stage::Observer => "Failed to init observer"@,
            Stage::Outbounds => "Failed to init outbounds"@,
            Stage::Dns => "Failed to init dns"@,
            Stage::GeoipDb => "Failed to init geoip db"@,
            Stage::Geoip => "Failed to init geoip"@,
            Stage::Router => "Failed to init router"@,
            Stage::Inbounds => "Failed to init inbounds"@,
            Stage::Api => "Failed to init API"@,
        },
{
    match stage {
        Stage::Cache => "Failed to init cache",
        Stage::Observer => "Failed to init observer",
        Stage::Outbounds => "Failed to init outbounds",
        Stage::Dns => "Failed to init dns",
        Stage::GeoipDb => "Failed to init geoip db",
        Stage::Geoip => "Failed to init geoip",
        Stage::Router => "Failed to init router",
        Stage::Inbounds => "Failed to init inbounds",
        Stage::Api => "Failed to init API",
    }
}

/// The parts that are stopped.
#[derive(Debug, Clone, Copy, PartialEq, Eq, Structural)]
pub enum Teardown {
    Interfaces,
    /// All tasks in the background, those of the servers and of the interface among them.
    Tasks,
    Router,
    Dns,
    Geoip,
    GeoipDb,
    Outbounds,
    Observer,
    Cache,
}

/// The order in which the parts are stopped.
pub open spec fn stop_order() -> Seq<Teardown> {
    seq![
        Teardown::Interfaces,
        Teardown::Tasks,
        Teardown::Router,
        Teardown::Dns,
        Teardown::Geoip,
        Teardown::GeoipDb,
        Teardown::Outbounds,
        Teardown::Observer,
        Teardown::Cache,
    ]
}

/// Lists what has to be stopped, in order.
pub fn shutdown_app() -> (list: Vec<Teardown>)
    ensures
        list@ == stop_order(),
{
    let list = vec![
        Teardown::Interfaces,
        Teardown::Tasks,
        Teardown::Router,
        Teardown::Dns,
        Teardown::Geoip,
        Teardown::GeoipDb,
        Teardown::Outbounds,
        Teardown::Observer,
        Teardown::Cache,
    ];
    assert(list@ =~= stop_order());
    list
}

/// Why the program stops.
#[derive(Debug, Clone, Copy, PartialEq, Eq, Structural)]
pub enum StopCause {
    /// A part did not start.
    InitFailed,
    /// The wait for a signal failed.
    SignalFailed,
    Signal,
    /// Somebody asked for it through the interface.
    ApiShutdown,
}

/// Whether the program ends well. All parts are stopped first, whatever the cause.
pub fn run_with_signal(cause: StopCause) -> (r: (Vec<Teardown>, bool))
    ensures
        r.0@ == stop_order(),
        r.1 == (cause == StopCause::Signal || cause == StopCause::ApiShutdown),
{
    let ok = match cause {
        StopCause::InitFailed => false,
        StopCause::SignalFailed => false,
        StopCause::Signal => true,
        StopCause::ApiShutdown => true,
    };
    (shutdown_app(), ok)
}

/// What stops a part.
pub open spec fn stopped_by(stage: Stage) -> Teardown {
    match stage {
        Stage::Cache => Teardown::Cache,
        Stage::Observer => Teardown::Observer,
        Stage::Outbounds => Teardown::Outbounds,
        Stage::Dns => Teardown::Dns,
        Stage::GeoipDb => Teardown::GeoipDb,
        Stage::Geoip => Teardown::Geoip,
        Stage::Router => Teardown::Router,
        Stage::Inbounds => Teardown::Tasks,
        Stage::Api => Teardown::Tasks,
    }
}

/// Going from part to part starts each of them once, in order.
pub proof fn law_every_part_starts_once(i: int)
    requires
        0 <= i < start_order().len(),
    ensures
        stage_after(None) == Some(start_order()[0]),
        i + 1 < start_order().len() ==> stage_after(Some(start_order()[i])) == Some(
            start_order()[i + 1],
        ),
        i + 1 == start_order().len() ==> stage_after(Some(start_order()[i])) is None,
        start_order().no_duplicates(),
        forall|stage: Stage| #[trigger] start_order().contains(stage),
{
    let order = start_order();
    assert forall|stage: Stage| #[trigger] order.contains(stage) by {
        match stage {
            Stage::Cache => assert(order[0] == stage),
            Stage::Observer => assert(order[1] == stage),
            Stage::Outbounds => assert(order[2] == stage),
            Stage::Dns => assert(order[3] == stage),
            Stage::GeoipDb => assert(order[4] == stage),
            Stage::Geoip => assert(order[5] == stage),
            Stage::Router => assert(order[6] == stage),
            Stage::Inbounds => assert(order[7] == stage),
            Stage::Api => assert(order[8] == stage),
        }
    }
}

/// Every part that starts is stopped, so that the program can start again in the same process; the
/// first to start is the last to stop.
pub proof fn law_every_part_is_stopped(stage: Stage)
    ensures
        stop_order().contains(stopped_by(stage)),
        stop_order().no_duplicates(),
        stop_order().last() == stopped_by(start_order()[0]),
{
    let order = stop_order();
    match stage {
        Stage::Cache => assert(order[8] == stopped_by(stage)),
        Stage::Observer => assert(order[7] == stopped_by(stage)),
        Stage::Outbounds => assert(order[6] == stopped_by(stage)),
        Stage::Dns => assert(order[3] == stopped_by(stage)),
        Stage::GeoipDb => assert(order[5] == stopped_by(stage)),
        Stage::Geoip => assert(order[4] == stopped_by(stage)),
        Stage::Router => assert(order[2] == stopped_by(stage)),
        Stage::Inbounds => assert(order[1] == stopped_by(stage)),
        Stage::Api => assert(order[1] == stopped_by(stage)),
    }
}

/// How the program runs.
#[derive(Debug, Clone, Copy, PartialEq, Eq, Structural)]
pub enum RunMode {
    /// As a manager of another process.
    Manage,
    /// As a request for the rights of an administrator.
    Elevate,
    /// As a proxy.
    Core,
}

/// Decides how the program runs, by what its command line asks for and by the rights that it has.
pub fn run_mode(manage: bool, elevate: bool, is_elevated: bool) -> (mode: RunMode)
    ensures
        mode == if manage {
            RunMode::Manage
        } else if elevate && !is_elevated {
            RunMode::Elevate
        } else {
            RunMode::Core
        },
{
    if manage {
        RunMode::Manage
    } else if elevate && !is_elevated {
        RunMode::Elevate
    } else {
        RunMode::Core
    }
}

/// How the rights of an administrator are asked for.
#[derive(Debug)]
pub struct ElevateConfig {
    pub prompt_title: String,
    pub prompt_message: String,
    pub show_window: bool,
    pub preserve_env_vars: Vec<String>,
}

/// The variables of the environment that a process with more rights keeps.
pub open spec fn kept_variables() -> Seq<Seq<char>> {
    seq!["PATH"@, "HOME"@, "USER"@, "RUST_LOG"@, "RUST_BACKTRACE"@]
}

/// Says how the rights of an administrator are asked for.
pub fn elevation(no_show_window: bool) -> (c: ElevateConfig)
    ensures
        c.prompt_title@ == "QuicProxy"@,
        c.prompt_message@
            == "QuicProxy requires administrator privileges to configure network interfaces."@,
        c.show_window == !no_show_window,
        texts(c.preserve_env_vars@) == kept_variables(),
{
    let vars: Vec<String> = vec![
        copy_text("PATH"),
        copy_text("HOME"),
        copy_text("USER"),
        copy_text("RUST_LOG"),
        copy_text("RUST_BACKTRACE"),
    ];
    assert(texts(vars@) =~= kept_variables());
    ElevateConfig {
        prompt_title: copy_text("QuicProxy"),
        prompt_message: copy_text(
            "QuicProxy requires administrator privileges to configure network interfaces.",
        ),
        show_window: !no_show_window,
        preserve_env_vars: vars,
    }
}

/// What the command line says to a manager.
#[derive(Debug)]
pub struct ManageArgs {
    pub host: String,
    pub port: u16,
    pub core_path: Option<String>,
    pub work_dir: Option<String>,
}

/// Where a manager listens, which program it runs, and where.
#[derive(Debug)]
pub struct ManagePlan {
    pub address: SocketAddr,
    pub core_path: String,
    pub work_dir: String,
}

/// The configured text, or the one that is known, or the last resort.
pub open spec fn chosen(configured: Option<Seq<char>>, known: Option<Seq<char>>, last: Seq<char>) -> Seq<
    char,
> {
    match configured {
        Some(text) => text,
        None => match known {
            Some(text) => text,
            None => last,
        },
    }
}

fn choose_text(configured: Option<String>, known: Option<&str>, last: &str) -> (text: String)
    ensures
        text@ == chosen(opt_text(configured), opt_str(known), last@),
{
    match configured {
        Some(text) => text,
        None => match known {
            Some(text) => copy_text(text),
            None => copy_text(last),
        },
    }
}

/// Decides what a manager does: without other orders it runs the program that it is itself, in the
/// directory of that program. The host has to be an IP address.
pub fn run_manage(args: ManageArgs, executable: Option<&str>, directory: Option<&str>) -> (r: Result<
    ManagePlan,
    String,
>)
    ensures
        match (ip_of(args.host@), r) {
            (Some(ip), Ok(plan)) => {
                &&& plan.address == (SocketAddr { ip, port: args.port, scope_id: 0 })
                &&& plan.core_path@ == chosen(
                    opt_text(args.core_path),
                    opt_str(executable),
                    "./quicproxy"@,
                )
                &&& plan.work_dir@ == chosen(opt_text(args.work_dir), opt_str(directory), "."@)
            },
            (None, Err(host)) => host@ == args.host@,
            _ => false,
        },
{
    match parse_ip(args.host.as_str()) {
        None => Err(args.host),
        Some(ip) => Ok(
            ManagePlan {
                address: SocketAddr { ip, port: args.port, scope_id: 0 },
                core_path: choose_text(args.core_path, executable, "./quicproxy"),
                work_dir: choose_text(args.work_dir, directory, "."),
            },
        ),
    }
}

/// Every part starts after those it needs: what keeps and counts comes first, then the ways
/// out and the names, then the routes, and what lets traffic in comes when all of them stand.
pub proof fn law_parts_start_after_what_they_need()
    ensures
        comes_before(start_order(), Stage::Cache, Stage::Observer),
        comes_before(start_order(), Stage::Observer, Stage::Outbounds),
        comes_before(start_order(), Stage::Outbounds, Stage::Dns),
        comes_before(start_order(), Stage::Dns, Stage::GeoipDb),
        comes_before(start_order(), Stage::GeoipDb, Stage::Geoip),
        comes_before(start_order(), Stage::Geoip, Stage::Router),
        comes_before(start_order(), Stage::Router, Stage::Inbounds),
        comes_before(start_order(), Stage::Inbounds, Stage::Api),
{
    let order = start_order();
    assert(order[0] == Stage::Cache && order[1] == Stage::Observer);
    assert(order[2] == Stage::Outbounds && order[3] == Stage::Dns);
    assert(order[4] == Stage::GeoipDb && order[5] == Stage::Geoip);
    assert(order[6] == Stage::Router && order[7] == Stage::Inbounds);
    assert(order[8] == Stage::Api);
}

/// Whether `a` stands before `b` in the list.
pub open spec fn comes_before<A>(list: Seq<A>, a: A, b: A) -> bool {
    exists|i: int, j: int| 0 <= i < j < list.len() && #[trigger] list[i] == a && #[trigger] list[j] == b
}

/// What was started last is stopped first: no part is stopped while one that started after it
/// still stands. The resolver alone is stopped before the two GeoIP parts that follow it.
pub proof fn law_parts_stop_in_reverse(i: int, j: int)
    requires
        0 <= i < j < start_order().len(),
        start_order()[i] == Stage::Dns ==> start_order()[j] != Stage::GeoipDb && start_order()[j]
            != Stage::Geoip,
    ensures
        stopped_by(start_order()[i]) == stopped_by(start_order()[j]) || comes_before(
            stop_order(),
            stopped_by(start_order()[j]),
            stopped_by(start_order()[i]),
        ),
        stop_order()[0] == Teardown::Interfaces,
{
    let order = stop_order();
    let a = stopped_by(start_order()[i]);
    let b = stopped_by(start_order()[j]);
    assert(order[0] == Teardown::Interfaces && order[1] == Teardown::Tasks);
    assert(order[2] == Teardown::Router && order[3] == Teardown::Dns);
    assert(order[4] == Teardown::Geoip && order[5] == Teardown::GeoipDb);
    assert(order[6] == Teardown::Outbounds && order[7] == Teardown::Observer);
    assert(order[8] == Teardown::Cache);
}

/// What is configured counts, then what is known, then the last resort.
pub proof fn law_configured_comes_first(a: Seq<char>, known: Option<Seq<char>>, b: Seq<char>, last: Seq<char>)
    ensures
        chosen(Some(a), known, last) == a,
        chosen(None, Some(b), last) == b,
        chosen(None, None, last) == last,
{
}

} // verus!
