//! Setting the name servers of a network interface.

use crate::config::texts;
use crate::ip::{ip_text, push_ip};
use crate::proxy::addr::IpAddr;
use crate::text::{copy_text, push_text};
use crate::utils::system_proxy::{command_words, SystemCommand};
use vstd::prelude::*;

verus! {

/// A tool that sets name servers.
#[derive(Debug, Clone, Copy, PartialEq, Eq, Structural)]
pub enum DnsTool {
    Resolvectl,
    Nmcli,
}

/// Chooses a tool among those that are installed.
pub fn dns_tool(has_resolvectl: bool, has_nmcli: bool) -> (r: Result<DnsTool, String>)
    ensures
        match r {
            Ok(tool) => tool == if has_resolvectl {
                DnsTool::Resolvectl
            } else {
                DnsTool::Nmcli
            } && (has_resolvectl || has_nmcli),
            Err(e) => !has_resolvectl && !has_nmcli && e@
                == "No supported DNS management tool found (resolvectl, nmcli)"@,
        },
{
    if has_resolvectl {
        Ok(DnsTool::Resolvectl)
    } else if has_nmcli {
        Ok(DnsTool::Nmcli)
    } else {
        Err(copy_text("No supported DNS management tool found (resolvectl, nmcli)"))
    }
}

/// Addresses as text.
pub open spec fn ip_texts(list: Seq<IpAddr>) -> Seq<Seq<char>> {
    list.map_values(|ip: IpAddr| ip_text(ip))
}

/// Texts with spaces between them.
pub open spec fn spaced(list: Seq<Seq<char>>) -> Seq<char>
    decreases list.len(),
{
    if list.len() == 0 {
        Seq::empty()
    } else if list.len() == 1 {
        list[0]
    } else {
        spaced(list.drop_last()) + " "@ + list.last()
    }
}

/// The command that sets the name servers of an interface.
pub open spec fn dns_words(tool: DnsTool, interface: Seq<char>, dns: Seq<IpAddr>) -> Seq<Seq<char>> {
    match tool {
        DnsTool::Resolvectl => seq!["resolvectl"@, "dns"@, interface] + ip_texts(dns),
        DnsTool::Nmcli => seq![
            "nmcli"@,
            "dev"@,
            "modify"@,
            interface,
            "ipv4.dns"@,
            spaced(ip_texts(dns)),
        ],
    }
}

/// Builds the command that sets the name servers of an interface.
pub fn set_dns(tool: DnsTool, interface: &str, dns: &Vec<IpAddr>) -> (c: SystemCommand)
    ensures
        command_words(c) == dns_words(tool, interface@, dns@),
{
    match tool {
        DnsTool::Resolvectl => {
            let mut args: Vec<String> = vec![copy_text("dns"), copy_text(interface)];
            let mut i: usize = 0;
            proof {
                assert(ip_texts(dns@.take(0)) =~= Seq::<Seq<char>>::empty());
                assert(texts(args@) =~= seq!["dns"@, interface@] + ip_texts(dns@.take(0)));
            }
            while i < dns.len()
                invariant
                    i <= dns@.len(),
                    texts(args@) == seq!["dns"@, interface@] + ip_texts(dns@.take(i as int)),
                decreases dns@.len() - i,
            {
                let ghost before = texts(args@);
                let text = text_of_ip(dns[i]);
                args.push(text);
                proof {
                    assert(texts(args@) =~= before.push(text@));
                    assert(ip_texts(dns@.take(i + 1)) =~= ip_texts(dns@.take(i as int)).push(
                        ip_text(dns@[i as int]),
                    ));
                    assert(texts(args@) =~= seq!["dns"@, interface@] + ip_texts(dns@.take(i + 1)));
                }
                i += 1;
            }
            assert(dns@.take(i as int) =~= dns@);
            let c = SystemCommand { program: copy_text("resolvectl"), args };
            assert(command_words(c) =~= dns_words(tool, interface@, dns@));
            c
        },
        DnsTool::Nmcli => {
            let joined = join_ips(dns);
            let c = SystemCommand {
                program: copy_text("nmcli"),
                args: vec![
                    copy_text("dev"),
                    copy_text("modify"),
                    copy_text(interface),
                    copy_text("ipv4.dns"),
                    joined,
                ],
            };
            assert(command_words(c) =~= dns_words(tool, interface@, dns@));
            c
        },
    }
}

fn text_of_ip(ip: IpAddr) -> (text: String)
    ensures
        text@ == ip_text(ip),
{
    let mut text = copy_text("");
    proof {
        reveal_strlit("");
    }
    push_ip(&mut text, ip);
    assert(text@ =~= ip_text(ip));
    text
}

fn join_ips(list: &Vec<IpAddr>) -> (text: String)
    ensures
        text@ == spaced(ip_texts(list@)),
{
    let mut text = copy_text("");
    let ghost all = ip_texts(list@);
    let mut i: usize = 0;
    proof {
        reveal_strlit("");
        assert(all.take(0) =~= Seq::<Seq<char>>::empty());
        assert(text@ =~= spaced(all.take(0)));
    }
    while i < list.len()
        invariant
            i <= list@.len(),
            all == ip_texts(list@),
            text@ == spaced(all.take(i as int)),
        decreases list@.len() - i,
    {
        let ghost before = text@;
        if i > 0 {
            push_text(&mut text, " ");
        }
        push_text(&mut text, text_of_ip(list[i]).as_str());
        proof {
            let more = all.take(i + 1);
            assert(more.drop_last() =~= all.take(i as int));
            assert(more.last() == ip_text(list@[i as int]));
            if i == 0 {
                assert(before =~= Seq::<char>::empty());
                assert(text@ =~= spaced(more));
            } else {
                assert(text@ =~= spaced(more));
            }
        }
        i += 1;
    }
    assert(all.take(i as int) =~= all);
    text
}

/// The command that gives an interface its own name servers back.
pub open spec fn restore_words(tool: DnsTool, interface: Seq<char>) -> Seq<Seq<char>> {
    match tool {
        DnsTool::Resolvectl => seq!["resolvectl"@, "revert"@, interface],
        DnsTool::Nmcli => seq!["nmcli"@, "dev"@, "modify"@, interface, "ipv4.dns"@, ""@],
    }
}

/// Builds the command that gives an interface its own name servers back.
pub fn restore_dns(tool: DnsTool, interface: &str) -> (c: SystemCommand)
    ensures
        command_words(c) == restore_words(tool, interface@),
{
    let c = match tool {
        DnsTool::Resolvectl => SystemCommand {
            program: copy_text("resolvectl"),
            args: vec![copy_text("revert"), copy_text(interface)],
        },
        DnsTool::Nmcli => SystemCommand {
            program: copy_text("nmcli"),
            args: vec![
                copy_text("dev"),
                copy_text("modify"),
                copy_text(interface),
                copy_text("ipv4.dns"),
                copy_text(""),
            ],
        },
    };
    assert(command_words(c) =~= restore_words(tool, interface@));
    c
}

/// Taking name servers away again is the same as setting none, with the tool that has no other way.
pub proof fn law_nmcli_restores_by_setting_none(interface: Seq<char>)
    ensures
        dns_words(DnsTool::Nmcli, interface, Seq::empty()) == restore_words(
            DnsTool::Nmcli,
            interface,
        ),
{
    reveal_strlit("");
    assert(spaced(ip_texts(Seq::empty())) =~= ""@);
}

/// Both tools are given the servers by their addresses: the one as words of their own, the other
/// as one word with spaces between them.
pub proof fn law_words_of_the_tools(interface: Seq<char>, dns: Seq<IpAddr>, last: IpAddr)
    ensures
        ({
            let words = dns_words(DnsTool::Resolvectl, interface, dns);
            &&& words.len() == 3 + dns.len()
            &&& words[0] == "resolvectl"@ && words[1] == "dns"@ && words[2] == interface
            &&& forall|i: int| 0 <= i < dns.len() ==> #[trigger] words[3 + i] == ip_text(dns[i])
        }),
        ({
            let words = dns_words(DnsTool::Nmcli, interface, dns);
            let more = dns_words(DnsTool::Nmcli, interface, dns.push(last));
            &&& words.take(5) == seq!["nmcli"@, "dev"@, "modify"@, interface, "ipv4.dns"@]
            &&& words.len() == 6 && more.len() == 6
            &&& dns.len() == 0 ==> words[5].len() == 0 && more[5] == ip_text(last)
            &&& dns.len() > 0 ==> more[5] == words[5] + seq![' '] + ip_text(last)
        }),
        restore_words(DnsTool::Resolvectl, interface) == seq!["resolvectl"@, "revert"@, interface],
{
    reveal_strlit(" ");
    assert(" "@ =~= seq![' ']);
    let words = dns_words(DnsTool::Nmcli, interface, dns);
    assert(words.take(5) =~= seq!["nmcli"@, "dev"@, "modify"@, interface, "ipv4.dns"@]);
    assert(ip_texts(dns.push(last)).drop_last() =~= ip_texts(dns));
    assert(ip_texts(dns.push(last)).last() == ip_text(last));
    let all = dns_words(DnsTool::Resolvectl, interface, dns);
    assert forall|i: int| 0 <= i < dns.len() implies #[trigger] all[3 + i] == ip_text(dns[i]) by {
        assert(all[3 + i] == ip_texts(dns)[i]);
    }
}

} // verus!
