//! The live connections of a server, so that those of a removed user can be closed.

use crate::config::{opt_str, opt_text, texts};
use crate::proxy::connections::{exactly, lemma_pick, lemma_picked, picked_so_far};
use crate::text::{copy_text, str_eq};
use crate::utils::table::{lemma_names, Table};
use vstd::prelude::*;

verus! {

/// The live connections by the address of their peer, each with the user that it authenticated as.
pub struct LiveConnections {
    table: Table<Option<String>>,
}

impl View for LiveConnections {
    type V = Map<Seq<char>, Option<Seq<char>>>;

    closed spec fn view(&self) -> Map<Seq<char>, Option<Seq<char>>> {
        self.table@.map_values(|user: Option<String>| opt_text(user))
    }
}

/// Whether a peer is connected as that user.
pub open spec fn connected_as(
    live: Map<Seq<char>, Option<Seq<char>>>,
    peer: Seq<char>,
    user: Seq<char>,
) -> bool {
    live.contains_key(peer) && live[peer] == Some(user)
}

/// The connections that are not a user's.
pub open spec fn without_peers_of(live: Map<Seq<char>, Option<Seq<char>>>, user: Seq<char>) -> Map<
    Seq<char>,
    Option<Seq<char>>,
> {
    live.remove_keys(live.dom().filter(|peer: Seq<char>| live[peer] == Some(user)))
}

/// The connections once it is known who a peer is; a connection that is gone stays gone.
pub open spec fn identified_as(
    live: Map<Seq<char>, Option<Seq<char>>>,
    peer: Seq<char>,
    user: Option<Seq<char>>,
) -> Map<Seq<char>, Option<Seq<char>>> {
    if live.contains_key(peer) {
        live.insert(peer, user)
    } else {
        live
    }
}

fn copy_name(user: Option<&str>) -> (out: Option<String>)
    ensures
        opt_text(out) == opt_str(user),
{
    match user {
        Some(u) => Some(copy_text(u)),
        None => None,
    }
}

impl LiveConnections {
    /// The table is in order.
    pub closed spec fn wf(self) -> bool {
        self.table.wf()
    }

    /// No connection is open.
    pub fn new() -> (live: LiveConnections)
        ensures
            live.wf(),
            live@ == Map::<Seq<char>, Option<Seq<char>>>::empty(),
    {
        let live = LiveConnections { table: Table::new() };
        assert(live@ =~= Map::<Seq<char>, Option<Seq<char>>>::empty());
        live
    }

    /// Whether a peer is connected.
    pub fn contains(&self, peer: &str) -> (r: bool)
        requires
            self.wf(),
        ensures
            r == self@.contains_key(peer@),
    {
        self.table.contains(peer)
    }

    /// A peer connected. Who it is shows later.
    pub fn opened(&mut self, peer: &str)
        requires
            old(self).wf(),
        ensures
            final(self).wf(),
            final(self)@ == old(self)@.insert(peer@, None),
    {
        self.table.insert(peer, None);
        assert(self@ =~= old(self)@.insert(peer@, None));
    }

    /// A peer authenticated, as a known user or as somebody.
    pub fn identified(&mut self, peer: &str, user: Option<&str>)
        requires
            old(self).wf(),
        ensures
            final(self).wf(),
            final(self)@ == identified_as(old(self)@, peer@, opt_str(user)),
    {
        if self.table.contains(peer) {
            self.table.insert(peer, copy_name(user));
        }
        assert(self@ =~= identified_as(old(self)@, peer@, opt_str(user)));
    }

    /// A connection ended.
    pub fn ended(&mut self, peer: &str)
        requires
            old(self).wf(),
        ensures
            final(self).wf(),
            final(self)@ == old(self)@.remove(peer@),
    {
        let _ = self.table.remove(peer);
        assert(self@ =~= old(self)@.remove(peer@));
    }

    /// The peers that are connected as that user.
    pub fn peers_of(&self, user: &str) -> (peers: Vec<String>)
        requires
            self.wf(),
        ensures
            exactly(texts(peers@), |peer: Seq<char>| connected_as(self@, peer, user@)),
    {
        let ghost all = self.table.names();
        let ghost p = |peer: Seq<char>| connected_as(self@, peer, user@);
        let mut peers: Vec<String> = Vec::new();
        let mut i: usize = 0;
        proof {
            lemma_names(self.table);
        }
        while i < self.table.len()
            invariant
                self.wf(),
                all == self.table.names(),
                all.no_duplicates(),
                i <= all.len(),
                p == (|peer: Seq<char>| connected_as(self@, peer, user@)),
                picked_so_far(texts(peers@), all, i as int, p),
            decreases all.len() - i,
        {
            let (peer, who) = self.table.row(i);
            let ghost before = texts(peers@);
            let hit = match who {
                Some(name) => str_eq(name.as_str(), user),
                None => false,
            };
            if hit {
                peers.push(copy_text(peer));
                assert(texts(peers@) =~= before.push(peer@));
            }
            proof {
                assert(self@.contains_key(peer@));
                assert(self@[peer@] == opt_text(*who));
                lemma_pick(before, all, i as int, p);
            }
            i += 1;
        }
        proof {
            assert forall|peer: Seq<char>| #[trigger] p(peer) implies self.table@.contains_key(
                peer,
            ) by {}
            lemma_picked(texts(peers@), self.table, p);
        }
        peers
    }

    /// Forgets the connections of a user, and says whose they are.
    pub fn disconnect(&mut self, user: &str) -> (peers: Vec<String>)
        requires
            old(self).wf(),
        ensures
            final(self).wf(),
            final(self)@ == without_peers_of(old(self)@, user@),
            exactly(texts(peers@), |peer: Seq<char>| connected_as(old(self)@, peer, user@)),
    {
        let peers = self.peers_of(user);
        let ghost list = texts(peers@);
        let mut i: usize = 0;
        assert(old(self)@.remove_keys(list.take(0).to_set()) =~= old(self)@);
        while i < peers.len()
            invariant
                self.wf(),
                list == texts(peers@),
                i <= list.len(),
                self@ == old(self)@.remove_keys(list.take(i as int).to_set()),
            decreases list.len() - i,
        {
            let ghost before = self@;
            self.ended(peers[i].as_str());
            proof {
                let peer = peers@[i as int]@;
                assert(list[i as int] == peer);
                assert(list.take(i + 1) =~= list.take(i as int).push(peer));
                assert forall|x: Seq<char>|
                    list.take(i + 1).to_set().contains(x) <==> list.take(i as int).to_set().contains(
                        x,
                    ) || x == peer by {
                    broadcast use vstd::seq_lib::group_seq_properties;

                }
                assert(before.remove(peer) =~= old(self)@.remove_keys(list.take(i + 1).to_set()));
            }
            i += 1;
        }
        proof {
            assert(list.take(i as int) =~= list);
            assert forall|x: Seq<char>| list.to_set().contains(x) <==> connected_as(
                old(self)@,
                x,
                user@,
            ) by {
                assert(list.contains(x) <==> list.to_set().contains(x));
            }
            assert(self@ =~= without_peers_of(old(self)@, user@));
        }
        peers
    }
}

/// Disconnecting a user leaves nobody connected as that user, and everybody else as they were.
pub proof fn law_disconnected_user_is_gone(
    live: Map<Seq<char>, Option<Seq<char>>>,
    user: Seq<char>,
    peer: Seq<char>,
)
    ensures
        !connected_as(without_peers_of(live, user), peer, user),
        live.contains_key(peer) && live[peer] != Some(user) ==> without_peers_of(
            live,
            user,
        ).contains_key(peer) && without_peers_of(live, user)[peer] == live[peer],
{
}

/// A peer is listed under the user that it authenticated as, if it is still connected; the others stay as
/// they are.
pub proof fn law_identified_peer(
    live: Map<Seq<char>, Option<Seq<char>>>,
    peer: Seq<char>,
    user: Seq<char>,
    other: Seq<char>,
)
    ensures
        live.contains_key(peer) ==> connected_as(identified_as(live, peer, Some(user)), peer, user),
        !live.contains_key(peer) ==> identified_as(live, peer, Some(user)) == live,
        other != peer ==> identified_as(live, peer, Some(user)).contains_key(other) == live.contains_key(
            other,
        ) && identified_as(live, peer, Some(user))[other] == live[other],
        live.contains_key(peer) ==> !connected_as(identified_as(live, peer, None), peer, user),
{
}

} // verus!
