//! The proxy setting of the operating system: which commands set it, and who has set it.

use crate::config::texts;
use crate::text::{copy_text, push_decimal, push_text, str_eq};
use crate::utils::os::Platform;
use vstd::prelude::*;

verus! {

/// A program to run, with its arguments.
#[derive(Debug)]
pub struct SystemCommand {
    pub program: String,
    pub args: Vec<String>,
}

/// The value of a command: the program, then its arguments.
pub open spec fn command_words(c: SystemCommand) -> Seq<Seq<char>> {
    seq![c.program@] + texts(c.args@)
}

/// The values of several commands.
pub open spec fn commands_words(list: Seq<SystemCommand>) -> Seq<Seq<Seq<char>>> {
    list.map_values(|c: SystemCommand| command_words(c))
}

/// The commands that switch a proxy on or off, on each platform.
pub open spec fn proxy_commands(
    platform: Platform,
    service: Seq<char>,
    enable: bool,
    host: Seq<char>,
    port: u16,
) -> Seq<Seq<Seq<char>>> {
    match platform {
        Platform::Macos => if enable {
            seq![
                mac_on("webproxy"@, service, host, port),
                mac_on("securewebproxy"@, service, host, port),
                mac_on("socksfirewallproxy"@, service, host, port),
            ]
        } else {
            seq![
                mac_off("webproxy"@, service),
                mac_off("securewebproxy"@, service),
                mac_off("socksfirewallproxy"@, service),
            ]
        },
        Platform::Windows => if enable {
            seq![
                registry("ProxyEnable"@, "REG_DWORD"@, "1"@),
                registry("ProxyServer"@, "REG_SZ"@, crate::proxy::addr::host_port_text(host, port)),
                registry("ProxyOverride"@, "REG_SZ"@, "<local>"@),
            ]
        } else {
            seq![registry("ProxyEnable"@, "REG_DWORD"@, "0"@)]
        },
        _ => Seq::empty(),
    }
}

/// Setting one kind of proxy on a Mac.
pub open spec fn mac_on(kind: Seq<char>, service: Seq<char>, host: Seq<char>, port: u16) -> Seq<
    Seq<char>,
> {
    seq![
        "networksetup"@,
        "-set"@ + kind,
        service,
        host,
        crate::text::dec_text(port as nat),
    ]
}

/// Switching one kind of proxy off on a Mac.
pub open spec fn mac_off(kind: Seq<char>, service: Seq<char>) -> Seq<Seq<char>> {
    seq!["networksetup"@, "-set"@ + kind + "state"@, service, "off"@]
}

/// Setting a value in the registry of Windows.
pub open spec fn registry(value: Seq<char>, kind: Seq<char>, data: Seq<char>) -> Seq<Seq<char>> {
    seq![
        "reg"@,
        "add"@,
        "HKCU\\Software\\Microsoft\\Windows\\CurrentVersion\\Internet Settings"@,
        "/v"@,
        value,
        "/t"@,
        kind,
        "/d"@,
        data,
        "/f"@,
    ]
}

fn mac_on_command(kind: &str, service: &str, host: &str, port: u16) -> (c: SystemCommand)
    ensures
        command_words(c) == mac_on(kind@, service@, host@, port),
{
    let mut flag = copy_text("-set");
    push_text(&mut flag, kind);
    let mut number = copy_text("");
    proof {
        reveal_strlit("");
        assert(number@ =~= Seq::<char>::empty());
    }
    push_decimal(&mut number, port as u64);
    let c = SystemCommand {
        program: copy_text("networksetup"),
        args: vec![flag, copy_text(service), copy_text(host), number],
    };
    proof {
        assert(number@ =~= crate::text::dec_text(port as nat));
        assert(command_words(c) =~= mac_on(kind@, service@, host@, port));
    }
    c
}

fn mac_off_command(kind: &str, service: &str) -> (c: SystemCommand)
    ensures
        command_words(c) == mac_off(kind@, service@),
{
    let mut flag = copy_text("-set");
    push_text(&mut flag, kind);
    push_text(&mut flag, "state");
    let c = SystemCommand {
        program: copy_text("networksetup"),
        args: vec![flag, copy_text(service), copy_text("off")],
    };
    assert(command_words(c) =~= mac_off(kind@, service@));
    c
}

fn registry_command(value: &str, kind: &str, data: &str) -> (c: SystemCommand)
    ensures
        command_words(c) == registry(value@, kind@, data@),
{
    let c = SystemCommand {
        program: copy_text("reg"),
        args: vec![
            copy_text("add"),
            copy_text("HKCU\\Software\\Microsoft\\Windows\\CurrentVersion\\Internet Settings"),
            copy_text("/v"),
            copy_text(value),
            copy_text("/t"),
            copy_text(kind),
            copy_text("/d"),
            copy_text(data),
            copy_text("/f"),
        ],
    };
    assert(command_words(c) =~= registry(value@, kind@, data@));
    c
}

/// Lists the commands that switch the proxy of the operating system on or off. Where that is not
/// supported there are none.
pub fn set_system_proxy(platform: Platform, service: &str, enable: bool, host: &str, port: u16) -> (
    commands: Vec<SystemCommand>)
    ensures
        commands_words(commands@) == proxy_commands(platform, service@, enable, host@, port),
{
    let commands: Vec<SystemCommand> = match platform {
        Platform::Macos => {
            if enable {
                vec![
                    mac_on_command("webproxy", service, host, port),
                    mac_on_command("securewebproxy", service, host, port),
                    mac_on_command("socksfirewallproxy", service, host, port),
                ]
            } else {
                vec![
                    mac_off_command("webproxy", service),
                    mac_off_command("securewebproxy", service),
                    mac_off_command("socksfirewallproxy", service),
                ]
            }
        },
        Platform::Windows => {
            if enable {
                let mut server = copy_text(host);
                server.push(':');
                push_decimal(&mut server, port as u64);
                assert(server@ =~= crate::proxy::addr::host_port_text(host@, port));
                vec![
                    registry_command("ProxyEnable", "REG_DWORD", "1"),
                    registry_command("ProxyServer", "REG_SZ", server.as_str()),
                    registry_command("ProxyOverride", "REG_SZ", "<local>"),
                ]
            } else {
                vec![registry_command("ProxyEnable", "REG_DWORD", "0")]
            }
        },
        _ => Vec::new(),
    };
    assert(commands_words(commands@) =~= proxy_commands(platform, service@, enable, host@, port));
    commands
}

/// A proxy that was set in the operating system.
#[derive(Debug)]
pub struct SystemProxyGuard {
    pub service: String,
    pub host: String,
    pub port: u16,
}

/// The value of a proxy that was set.
#[verifier::ext_equal]
pub struct ProxyView {
    pub service: Seq<char>,
    pub host: Seq<char>,
    pub port: u16,
}

impl View for SystemProxyGuard {
    type V = ProxyView;

    open spec fn view(&self) -> ProxyView {
        ProxyView { service: self.service@, host: self.host@, port: self.port }
    }
}

/// The proxy that is set at present, if any.
pub type ActiveSystemProxy = Option<SystemProxyGuard>;

/// The value of the proxy that is set at present.
pub open spec fn active_view(active: ActiveSystemProxy) -> Option<ProxyView> {
    match active {
        Some(p) => Some(p@),
        None => None,
    }
}

impl SystemProxyGuard {
    /// Notes that a proxy was set. Whoever holds the guard switches it off in the end.
    pub fn new(active: &mut ActiveSystemProxy, service: String, host: String, port: u16) -> (g:
        SystemProxyGuard)
        ensures
            g@ == (ProxyView { service: service@, host: host@, port }),
            active_view(*final(active)) == Some(g@),
    {
        remember_system_proxy(active, copy_text(service.as_str()), copy_text(host.as_str()), port);
        SystemProxyGuard { service, host, port }
    }
}

fn remember_system_proxy(active: &mut ActiveSystemProxy, service: String, host: String, port: u16)
    ensures
        active_view(*final(active)) == Some(ProxyView { service: service@, host: host@, port }),
{
    *active = Some(SystemProxyGuard { service, host, port });
}

/// Takes the proxy that is set, for somebody to switch it off.
pub fn clear_system_proxy(active: &mut ActiveSystemProxy) -> (proxy: Option<SystemProxyGuard>)
    ensures
        active_view(proxy) == active_view(*old(active)),
        *final(active) is None,
{
    active.take()
}

/// The proxy that is set after an attempt to switch one off.
pub open spec fn after_disabling(
    active: Option<ProxyView>,
    proxy: ProxyView,
    failed: bool,
    restore_on_failure: bool,
) -> Option<ProxyView> {
    if failed {
        if restore_on_failure {
            Some(proxy)
        } else {
            active
        }
    } else if active == Some(proxy) {
        None
    } else {
        active
    }
}

/// Takes in what an attempt to switch a proxy off came to.
pub fn disable_system_proxy(
    active: &mut ActiveSystemProxy,
    proxy: SystemProxyGuard,
    failed: bool,
    restore_on_failure: bool,
)
    ensures
        active_view(*final(active)) == after_disabling(
            active_view(*old(active)),
            proxy@,
            failed,
            restore_on_failure,
        ),
{
    if failed {
        if restore_on_failure {
            remember_system_proxy(active, proxy.service, proxy.host, proxy.port);
        }
    } else {
        clear_matching_system_proxy(active, proxy.service.as_str(), proxy.host.as_str(), proxy.port);
    }
}

fn clear_matching_system_proxy(active: &mut ActiveSystemProxy, service: &str, host: &str, port: u16)
    ensures
        active_view(*final(active)) == after_disabling(
            active_view(*old(active)),
            ProxyView { service: service@, host: host@, port },
            false,
            false,
        ),
{
    let matching = match &*active {
        Some(p) => str_eq(p.service.as_str(), service) && str_eq(p.host.as_str(), host) && p.port
            == port,
        None => false,
    };
    if matching {
        *active = None;
    }
}

/// The address to announce for a server that listens on all of them.
pub open spec fn announced_host(address: Seq<char>) -> Seq<char> {
    if address == "0.0.0.0"@ || address == "::"@ {
        "127.0.0.1"@
    } else {
        address
    }
}

/// What has to be done to announce a server as the proxy of the operating system.
#[derive(Debug)]
pub struct ProxySetup {
    pub service: String,
    pub host: String,
    pub port: u16,
    pub commands: Vec<SystemCommand>,
}

/// Prepares the announcement of a server as the proxy of the operating system, if that is wanted.
/// `service` is the network service in use, where it is known.
pub fn setup_system_proxy(
    platform: Platform,
    set_proxy: bool,
    address: &str,
    port: u16,
    service: Option<&str>,
) -> (setup: Option<ProxySetup>)
    ensures
        match setup {
            None => !set_proxy,
            Some(s) => {
                &&& set_proxy
                &&& s.host@ == announced_host(address@)
                &&& s.port == port
                &&& s.service@ == match service {
                    Some(name) => name@,
                    None => ""@,
                }
                &&& commands_words(s.commands@) == proxy_commands(
                    platform,
                    s.service@,
                    true,
                    s.host@,
                    port,
                )
            },
        },
{
    if !set_proxy {
        return None;
    }
    let host = if str_eq(address, "0.0.0.0") || str_eq(address, "::") {
        copy_text("127.0.0.1")
    } else {
        copy_text(address)
    };
    let service = match service {
        Some(name) => copy_text(name),
        None => copy_text(""),
    };
    let commands = set_system_proxy(platform, service.as_str(), true, host.as_str(), port);
    Some(ProxySetup { service, host, port, commands })
}

/// A proxy that was set and then switched off is no longer set, and switching off one proxy does not
/// forget another.
pub proof fn law_disabling_forgets_only_its_own(active: Option<ProxyView>, proxy: ProxyView)
    ensures
        after_disabling(Some(proxy), proxy, false, true) is None,
        active != Some(proxy) ==> after_disabling(active, proxy, false, true) == active,
        after_disabling(None, proxy, true, true) == Some(proxy),
{
}

/// On macOS the proxy is set for plain, for secure and for SOCKS traffic of the service, and
/// switched off for the same three.
pub proof fn law_commands_on_macos(service: Seq<char>, host: Seq<char>, port: u16)
    ensures
        ({
            let on = proxy_commands(Platform::Macos, service, true, host, port);
            let off = proxy_commands(Platform::Macos, service, false, host, port);
            let port_text = crate::text::dec_text(port as nat);
            &&& on == seq![
                seq!["networksetup"@, "-setwebproxy"@, service, host, port_text],
                seq!["networksetup"@, "-setsecurewebproxy"@, service, host, port_text],
                seq!["networksetup"@, "-setsocksfirewallproxy"@, service, host, port_text],
            ]
            &&& off == seq![
                seq!["networksetup"@, "-setwebproxystate"@, service, "off"@],
                seq!["networksetup"@, "-setsecurewebproxystate"@, service, "off"@],
                seq!["networksetup"@, "-setsocksfirewallproxystate"@, service, "off"@],
            ]
        }),
{
    reveal_strlit("-set");
    reveal_strlit("state");
    reveal_strlit("webproxy");
    reveal_strlit("securewebproxy");
    reveal_strlit("socksfirewallproxy");
    reveal_strlit("-setwebproxy");
    reveal_strlit("-setsecurewebproxy");
    reveal_strlit("-setsocksfirewallproxy");
    reveal_strlit("-setwebproxystate");
    reveal_strlit("-setsecurewebproxystate");
    reveal_strlit("-setsocksfirewallproxystate");
    assert("-set"@ + "webproxy"@ =~= "-setwebproxy"@);
    assert("-set"@ + "securewebproxy"@ =~= "-setsecurewebproxy"@);
    assert("-set"@ + "socksfirewallproxy"@ =~= "-setsocksfirewallproxy"@);
    assert("-set"@ + "webproxy"@ + "state"@ =~= "-setwebproxystate"@);
    assert("-set"@ + "securewebproxy"@ + "state"@ =~= "-setsecurewebproxystate"@);
    assert("-set"@ + "socksfirewallproxy"@ + "state"@ =~= "-setsocksfirewallproxystate"@);
}

/// On Windows the proxy is a matter of three values of the registry, and of the first alone
/// where it is switched off. Elsewhere nothing is run.
pub proof fn law_commands_elsewhere(platform: Platform, service: Seq<char>, host: Seq<char>, port: u16)
    ensures
        ({
            let on = proxy_commands(Platform::Windows, service, true, host, port);
            let off = proxy_commands(Platform::Windows, service, false, host, port);
            &&& on.len() == 3 && off.len() == 1
            &&& forall|i: int|
                0 <= i < 3 ==> (#[trigger] on[i]).len() == 10 && on[i][0] == "reg"@ && on[i][1]
                    == "add"@ && on[i][3] == "/v"@ && on[i][5] == "/t"@ && on[i][7] == "/d"@
                    && on[i][9] == "/f"@
            &&& on[0][4] == "ProxyEnable"@ && on[0][6] == "REG_DWORD"@ && on[0][8] == "1"@
            &&& on[1][4] == "ProxyServer"@ && on[1][6] == "REG_SZ"@ && on[1][8]
                == crate::proxy::addr::host_port_text(host, port)
            &&& on[2][4] == "ProxyOverride"@ && on[2][6] == "REG_SZ"@ && on[2][8] == "<local>"@
            &&& off[0] == on[0].update(8, "0"@)
        }),
        platform != Platform::Macos && platform != Platform::Windows ==> proxy_commands(
            platform,
            service,
            true,
            host,
            port,
        ).len() == 0 && proxy_commands(platform, service, false, host, port).len() == 0,
{
    let on = proxy_commands(Platform::Windows, service, true, host, port);
    let off = proxy_commands(Platform::Windows, service, false, host, port);
    assert(off[0] =~= on[0].update(8, "0"@));
}

/// A proxy that listens everywhere is announced at the loopback address, and every other at the
/// address it listens on. A proxy that could not be switched off is remembered where that is
/// asked for, and otherwise nothing changes.
pub proof fn law_announced_and_remembered(address: Seq<char>, active: Option<ProxyView>, proxy: ProxyView)
    ensures
        announced_host("0.0.0.0"@) == "127.0.0.1"@,
        announced_host("::"@) == "127.0.0.1"@,
        address != "0.0.0.0"@ && address != "::"@ ==> announced_host(address) == address,
        after_disabling(active, proxy, true, true) == Some(proxy),
        after_disabling(active, proxy, true, false) == active,
        after_disabling(Some(proxy), proxy, false, false) is None,
{
}

} // verus!
