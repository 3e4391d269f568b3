//! Round-robin choice of an upstream server.

use crate::text;
use vstd::prelude::*;
use vstd::string::*;

verus! {

/// The state of a balancer: its servers, each as `host:port`, and the position of
/// the one whose turn it is.
#[verifier::ext_equal]
pub struct BalancerState {
    pub servers: Seq<Seq<char>>,
    pub turn: int,
}

/// The name under which an upstream server is reached: `host:port`.
pub open spec fn server_name(upstream: (String, u16)) -> Seq<char> {
    upstream.0@ + seq![':'] + text::decimal(upstream.1 as nat)
}

impl BalancerState {
    /// The state of a balancer that was just made from a list of upstreams.
    pub open spec fn initial(upstreams: Seq<(String, u16)>) -> BalancerState {
        BalancerState { servers: upstreams.map_values(|u: (String, u16)| server_name(u)), turn: 0 }
    }

    /// It is the turn of one of the servers, where there are any.
    pub open spec fn valid(self) -> bool {
        if self.servers.len() == 0 {
            self.turn == 0
        } else {
            0 <= self.turn < self.servers.len()
        }
    }

    /// The server whose turn it is.
    pub open spec fn current(self) -> Option<Seq<char>> {
        if self.servers.len() == 0 {
            None
        } else {
            Some(self.servers[self.turn])
        }
    }

    /// The state in which the turn has passed on to the next server, and from the
    /// last server to the first.
    pub open spec fn advanced(self) -> BalancerState {
        if self.servers.len() == 0 {
            self
        } else {
            BalancerState {
                turn: if self.turn + 1 == self.servers.len() {
                    0
                } else {
                    self.turn + 1
                },
                ..self
            }
        }
    }

    /// The state after a number of picks.
    pub open spec fn after(self, picks: nat) -> BalancerState
        decreases picks,
    {
        if picks == 0 {
            self
        } else {
            self.after((picks - 1) as nat).advanced()
        }
    }
}

/// A simple round-robin load balancer for upstream servers.
#[derive(Debug)]
pub struct UpstreamBalancer {
    servers: Vec<String>,
    index: usize,
}

impl View for UpstreamBalancer {
    type V = BalancerState;

    closed spec fn view(&self) -> BalancerState {
        BalancerState {
            servers: self.servers@.map_values(|s: String| s@),
            turn: self.index as int,
        }
    }
}

impl UpstreamBalancer {
    #[verifier::type_invariant]
    spec fn has_turn(self) -> bool {
        self@.valid()
    }

    /// Creates a balancer from a list of (host, port) pairs.
    pub fn new(upstreams: &[(String, u16)]) -> (balancer: UpstreamBalancer)
        ensures
            balancer@ == BalancerState::initial(upstreams@),
            balancer@.valid(),
    {
        let mut servers: Vec<String> = Vec::new();
        let mut i: usize = 0;
        while i < upstreams.len()
            invariant
                i <= upstreams@.len(),
                servers@.len() == i,
                forall|j: int| 0 <= j < i ==> (#[trigger] servers@[j])@ == server_name(upstreams@[j]),
            decreases upstreams.len() - i,
        {
            let mut server = upstreams[i].0.clone();
            server.append(":");
            text::push_decimal(&mut server, upstreams[i].1);
            proof {
                reveal_strlit(":");
                assert(":"@ == seq![':']);
            }
            servers.push(server);
            i += 1;
        }
        let balancer = UpstreamBalancer { servers, index: 0 };
        assert(balancer@ =~= BalancerState::initial(upstreams@));
        balancer
    }

    /// Picks the next upstream server in round-robin order.
    pub fn pick(&mut self) -> (server: Option<&str>)
        ensures
            old(self)@.valid(),
            final(self)@.valid(),
            text::optional_text(server) == old(self)@.current(),
            final(self)@ == old(self)@.advanced(),
    {
        proof {
            use_type_invariant(&*self);
        }
        let count = self.servers.len();
        if count == 0 {
            return None;
        }
        let index = self.index;
        self.index = (index + 1) % count;
        proof {
            assert((index + 1) % count as int == if index + 1 == count {
                0
            } else {
                index + 1
            }) by {
                if index + 1 < count {
                    vstd::arithmetic::div_mod::lemma_small_mod((index + 1) as nat, count as nat);
                } else {
                    vstd::arithmetic::div_mod::lemma_mod_self_0(count as int);
                }
            }
            assert(self@ =~= old(self)@.advanced());
        }
        Some(self.servers[index].as_str())
    }
}

/// After any number of picks the servers are the same, and the turn has gone round
/// them that many steps.
pub proof fn turn_after(start: BalancerState, picks: nat)
    requires
        start.valid(),
    ensures
        start.after(picks).valid(),
        start.after(picks).servers == start.servers,
        start.servers.len() > 0 ==> start.after(picks).turn == (start.turn + picks) % (
        start.servers.len() as int),
    decreases picks,
{
    let count = start.servers.len() as int;
    if picks == 0 {
        if count > 0 {
            vstd::arithmetic::div_mod::lemma_small_mod(start.turn as nat, count as nat);
        }
    } else {
        turn_after(start, (picks - 1) as nat);
        if count > 0 {
            let before = start.turn + picks - 1;
            let turn = before % count;
            vstd::arithmetic::div_mod::lemma_add_mod_noop_right(1, before, count);
            if turn + 1 < count {
                vstd::arithmetic::div_mod::lemma_small_mod((turn + 1) as nat, count as nat);
            } else {
                vstd::arithmetic::div_mod::lemma_mod_self_0(count);
            }
        }
    }
}

/// Once round: as many picks as there are servers bring the turn back.
pub proof fn full_round_returns(start: BalancerState)
    requires
        start.valid(),
    ensures
        start.after(start.servers.len()) == start,
{
    let count = start.servers.len();
    turn_after(start, count);
    if count > 0 {
        vstd::arithmetic::div_mod::lemma_mod_add_multiples_vanish(start.turn, count as int);
        vstd::arithmetic::div_mod::lemma_small_mod(start.turn as nat, count);
    }
    assert(start.after(count) =~= start);
}

/// The pick in a round of picks at which a server has its turn.
pub open spec fn pick_of(start: BalancerState, position: int) -> nat {
    if position >= start.turn {
        (position - start.turn) as nat
    } else {
        (position + start.servers.len() - start.turn) as nat
    }
}

/// Fairness: among any as many consecutive picks as there are servers, every
/// server is picked exactly once.
pub proof fn each_server_once_a_round(start: BalancerState, position: int, picks: nat)
    requires
        start.valid(),
        0 <= position < start.servers.len(),
        picks < start.servers.len(),
    ensures
        pick_of(start, position) < start.servers.len(),
        start.after(picks).current() == Some(start.servers[start.after(picks).turn]),
        start.after(picks).turn == position <==> picks == pick_of(start, position),
{
    let count = start.servers.len() as int;
    turn_after(start, picks);
    let sum = start.turn + picks;
    if sum < count {
        vstd::arithmetic::div_mod::lemma_small_mod(sum as nat, count as nat);
    } else {
        vstd::arithmetic::div_mod::lemma_mod_add_multiples_vanish(sum - count, count);
        vstd::arithmetic::div_mod::lemma_small_mod((sum - count) as nat, count as nat);
    }
}

/// Without servers nothing is ever picked; with servers, something always is.
pub proof fn picks_while_servers(start: BalancerState, picks: nat)
    requires
        start.valid(),
    ensures
        start.after(picks).current() is None <==> start.servers.len() == 0,
{
    turn_after(start, picks);
}

/// Before the first pick nothing has changed, and each further pick passes the turn on
/// once: to the server that follows, round the list, with the servers as they were.
pub proof fn each_pick_passes_the_turn_on(start: BalancerState, picks: nat)
    requires
        0 <= start.turn < start.servers.len(),
    ensures
        start.after(0) == start,
        start.after(picks + 1) == start.after(picks).advanced(),
        start.current() == Some(start.servers[start.turn]),
        start.advanced().servers == start.servers,
        start.advanced().turn == (start.turn + 1) % start.servers.len() as int,
{
    turn_after(start, 1);
    assert(start.after(1) == start.after(0).advanced());
}

/// Without servers there is no turn to pass on.
pub proof fn empty_balancer_stays_empty(start: BalancerState)
    requires
        start.servers.len() == 0,
    ensures
        start.current() is None,
        start.advanced() == start,
{
}

/// A new balancer has one server for each of the upstreams, in their order, under its
/// host, a colon and its port. The first has the turn.
pub proof fn new_balancer_lists_all_upstreams(upstreams: Seq<(String, u16)>)
    ensures
        BalancerState::initial(upstreams).turn == 0,
        BalancerState::initial(upstreams).servers.len() == upstreams.len(),
        forall|i: int|
            0 <= i < upstreams.len() ==> #[trigger] BalancerState::initial(upstreams).servers[i]
                == upstreams[i].0@ + seq![':'] + text::decimal(upstreams[i].1 as nat),
{
}

} // verus!
