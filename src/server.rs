//! The server's state, and the authorization and dispatch of requests.
use vstd::prelude::*;
use crate::address::Ipv4;
use crate::directory::{
    CapacityBelowSize, CapacityExceeded, ClientDirectory, ClientRecord, below_votes, holds_ip,
    index_range, lemma_directory_invariants, macs_distinct, username_matches, window, without_ip,
    without_mac,
};
use crate::quorum::{
    DropOutcome, EvictionQuorum, ballots_for, below_threshold, cast_vote, lemma_clear_target, vote_post,
    without_target,
};
use crate::request::{
    AdminRequest, ClientRequest, Request, decodes_to, is_valid_key, json_object_of, valid_key,
};

verus! {

/// The address a connection came from.
#[derive(Clone, Copy, Debug, PartialEq, Eq, Structural)]
pub enum PeerAddr {
    V4(Ipv4),
    V6,
}

/// The settings a server starts with.
#[derive(Debug)]
pub struct StartConfig {
    pub address: Ipv4,
    pub port: u16,
    pub key: String,
    pub password: String,
    pub drop_votes: u8,
    pub capacity: u16,
    pub list_size: u16,
    pub drop_verification: bool,
}

/// What to send back on a connection.
#[derive(Debug)]
pub enum Reply {
    /// Nothing: the secret did not match.
    Silent,
    /// The request could not be decoded.
    NotUnderstood,
    /// The peer is not IPv4, or is not this host where an administrator must be.
    Ipv4Only,
    Record(Option<ClientRecord>),
    Records(Vec<ClientRecord>),
    SignUp(Result<(), CapacityExceeded>),
    Drop(DropOutcome),
    Capacity(Result<(), CapacityBelowSize>),
    /// A new administrator key that is not ASCII or is 33 characters or
    /// longer; nothing changed.
    KeyRejected,
    Updated,
}

/// The state of a server, as the contracts see it.
pub struct ServerState {
    pub directory: Seq<ClientRecord>,
    pub ballots: Seq<(u32, u32)>,
    pub capacity: u16,
    pub address: u32,
    pub port: u16,
    pub key: Seq<char>,
    pub password: Seq<char>,
    pub drop_votes: u8,
    pub list_size: u16,
    pub drop_verification: bool,
}

/// The directory server.
pub struct Server {
    clients: ClientDirectory,
    votes: EvictionQuorum,
    address: Ipv4,
    port: u16,
    key: String,
    password: String,
    drop_votes: u8,
    list_size: u16,
    drop_verification: bool,
}

impl View for Server {
    type V = ServerState;

    closed spec fn view(&self) -> ServerState {
        ServerState {
            directory: self.clients@,
            ballots: self.votes@,
            capacity: self.clients.spec_capacity(),
            address: self.address.bits,
            port: self.port,
            key: self.key@,
            password: self.password@,
            drop_votes: self.drop_votes,
            list_size: self.list_size,
            drop_verification: self.drop_verification,
        }
    }
}

/// A client request whose password is wrong gets no reply and changes
/// nothing.
pub proof fn lemma_wrong_password_is_silent(
    s: ServerState,
    q: Request,
    p: Ipv4,
    r: Reply,
    t: ServerState,
)
    requires
        q is Client,
        secret_of(q) != s.password,
        dispatch_post(s, q, PeerAddr::V4(p), r, t),
    ensures
        r is Silent,
        t == s,
{
}

/// An administrator's request from an IPv4 address other than the server's
/// own gets the IPv4-only reply and changes nothing, whatever key it holds.
pub proof fn lemma_remote_admin_is_refused(
    s: ServerState,
    q: Request,
    p: Ipv4,
    r: Reply,
    t: ServerState,
)
    requires
        q is Admin,
        p.bits != s.address,
        dispatch_post(s, q, PeerAddr::V4(p), r, t),
    ensures
        r is Ipv4Only,
        t == s,
{
}

/// `r` answers a lookup by MAC address `mac` in `d`.
pub open spec fn mac_lookup_post(d: Seq<ClientRecord>, mac: Seq<u8>, r: Reply) -> bool {
    match r {
        Reply::Record(Some(rec)) => rec.mac@ == mac && d.contains(rec),
        Reply::Record(None) => forall|i: int| 0 <= i < d.len() ==> d[i].mac@ != mac,
        _ => false,
    }
}

/// What an authorized administrator's request `q` does, from state `s` to
/// reply `r` and state `t`.
pub open spec fn admin_post(s: ServerState, q: AdminRequest, r: Reply, t: ServerState) -> bool {
    match q {
        AdminRequest::GetByMac { mac, .. } => t == s && mac_lookup_post(s.directory, mac@, r),
        AdminRequest::GetByUsername { username, start_index, .. } => t == s && match r {
            Reply::Records(v) => v@ == window(
                username_matches(s.directory, username@),
                start_index as int,
                s.list_size as int,
            ),
            _ => false,
        },
        AdminRequest::GetByIndex { start_index, end_index, .. } => t == s && match r {
            Reply::Records(v) => v@ == index_range(s.directory, start_index as int, end_index as int),
            _ => false,
        },
        AdminRequest::Drop { ip, .. } => r == Reply::Drop(
            if holds_ip(s.directory, ip.bits) {
                DropOutcome::Removed
            } else {
                DropOutcome::Absent
            },
        ) && t == ServerState {
            directory: without_ip(s.directory, ip.bits),
            ballots: without_target(s.ballots, ip.bits),
            ..s
        },
        AdminRequest::SetCapacity { capacity, .. } => if (capacity as int) < s.directory.len() {
            r matches Reply::Capacity(Err(_)) && t == s
        } else {
            r matches Reply::Capacity(Ok(_)) && t == ServerState { capacity, ..s }
        },
        AdminRequest::SetListSize { list_size, .. } => r == Reply::Updated && t == ServerState {
            list_size,
            ..s
        },
        AdminRequest::SetDropVotes { drop_votes, .. } => {
            &&& r == Reply::Updated
            &&& t == ServerState {
                directory: below_votes(s.directory, s.ballots, drop_votes as int),
                ballots: t.ballots,
                drop_votes,
                ..s
            }
            &&& forall|u: u32|
                #[trigger] ballots_for(t.ballots, u) == if ballots_for(s.ballots, u).len()
                    >= drop_votes {
                    Seq::<(u32, u32)>::empty()
                } else {
                    ballots_for(s.ballots, u)
                }
        },
        AdminRequest::SetDropVerification { drop_verification, .. } => r == Reply::Updated && t
            == ServerState { drop_verification, ..s },
        AdminRequest::SetKey { key, .. } => if valid_key(key@) {
            r == Reply::Updated && t == ServerState { key: key@, ..s }
        } else {
            r == Reply::KeyRejected && t == s
        },
        AdminRequest::SetPassword { new_password, .. } => r == Reply::Updated && t == ServerState {
            password: new_password@,
            ..s
        },
    }
}

/// What an authorized client's request `q`, from IPv4 address `peer`, does.
pub open spec fn client_post(
    s: ServerState,
    q: ClientRequest,
    peer: Ipv4,
    r: Reply,
    t: ServerState,
) -> bool {
    match q {
        ClientRequest::GetByMac { mac, .. } => t == s && mac_lookup_post(s.directory, mac@, r),
        ClientRequest::GetByUsername { username, start_index, .. } => t == s && match r {
            Reply::Records(v) => v@ == window(
                username_matches(s.directory, username@),
                start_index as int,
                s.list_size as int,
            ),
            _ => false,
        },
        ClientRequest::Drop { ip, .. } => match r {
            Reply::Drop(o) => t == ServerState { directory: t.directory, ballots: t.ballots, ..s }
                && vote_post(
                s.directory,
                s.ballots,
                ip.bits,
                peer.bits,
                s.drop_votes,
                s.drop_verification,
                o,
                t.directory,
                t.ballots,
            ),
            _ => false,
        },
        ClientRequest::SignUp { username, mac, port, get_only_by_mac, .. } => {
            let rec = ClientRecord { mac, username, ip: peer, port, get_only_by_mac };
            if s.directory.len() >= s.capacity {
                r matches Reply::SignUp(Err(_)) && t == s
            } else {
                r matches Reply::SignUp(Ok(_)) && t == ServerState {
                    directory: without_mac(s.directory, mac@).push(rec),
                    ..s
                }
            }
        },
    }
}

/// The secret that request `q` carries.
pub open spec fn secret_of(q: Request) -> Seq<char> {
    match q {
        Request::Admin(a) => match a {
            AdminRequest::GetByMac { password, .. } => password@,
            AdminRequest::GetByUsername { password, .. } => password@,
            AdminRequest::GetByIndex { password, .. } => password@,
            AdminRequest::Drop { password, .. } => password@,
            AdminRequest::SetCapacity { password, .. } => password@,
            AdminRequest::SetListSize { password, .. } => password@,
            AdminRequest::SetDropVotes { password, .. } => password@,
            AdminRequest::SetDropVerification { password, .. } => password@,
            AdminRequest::SetKey { password, .. } => password@,
            AdminRequest::SetPassword { password, .. } => password@,
        },
        Request::Client(c) => match c {
            ClientRequest::GetByMac { password, .. } => password@,
            ClientRequest::GetByUsername { password, .. } => password@,
            ClientRequest::Drop { password, .. } => password@,
            ClientRequest::SignUp { password, .. } => password@,
        },
    }
}

/// What request `q` from `peer` does: an administrator must come over IPv4
/// from the server's own address, a client over IPv4, or the reply says
/// so; then a secret that does not match gets no reply at all; otherwise
/// the operation runs.
pub open spec fn dispatch_post(s: ServerState, q: Request, peer: PeerAddr, r: Reply, t: ServerState) -> bool {
    match q {
        Request::Admin(a) => match peer {
            PeerAddr::V4(p) => if p.bits != s.address {
                r == Reply::Ipv4Only && t == s
            } else if secret_of(q) != s.key {
                r == Reply::Silent && t == s
            } else {
                admin_post(s, a, r, t)
            },
            PeerAddr::V6 => r == Reply::Ipv4Only && t == s,
        },
        Request::Client(c) => match peer {
            PeerAddr::V4(p) => if secret_of(q) != s.password {
                r == Reply::Silent && t == s
            } else {
                client_post(s, c, p, r, t)
            },
            PeerAddr::V6 => r == Reply::Ipv4Only && t == s,
        },
    }
}

/// The request carries nothing the server cannot act on: a vote threshold
/// is at least one.
pub open spec fn request_ok(q: Request) -> bool {
    match q {
        Request::Admin(AdminRequest::SetDropVotes { drop_votes, .. }) => drop_votes >= 1,
        _ => true,
    }
}

fn admin_secret(a: &AdminRequest) -> (r: &String)
    ensures
        r@ == secret_of(Request::Admin(*a)),
{
    match a {
        AdminRequest::GetByMac { password, .. } => password,
        AdminRequest::GetByUsername { password, .. } => password,
        AdminRequest::GetByIndex { password, .. } => password,
        AdminRequest::Drop { password, .. } => password,
        AdminRequest::SetCapacity { password, .. } => password,
        AdminRequest::SetListSize { password, .. } => password,
        AdminRequest::SetDropVotes { password, .. } => password,
        AdminRequest::SetDropVerification { password, .. } => password,
        AdminRequest::SetKey { password, .. } => password,
        AdminRequest::SetPassword { password, .. } => password,
    }
}

fn client_secret(c: &ClientRequest) -> (r: &String)
    ensures
        r@ == secret_of(Request::Client(*c)),
{
    match c {
        ClientRequest::GetByMac { password, .. } => password,
        ClientRequest::GetByUsername { password, .. } => password,
        ClientRequest::Drop { password, .. } => password,
        ClientRequest::SignUp { password, .. } => password,
    }
}

fn found_record(found: Option<&ClientRecord>) -> (r: Option<ClientRecord>)
    ensures
        match found {
            Some(rec) => r == Some(*rec),
            None => r is None,
        },
{
    match found {
        Some(rec) => Some(rec.duplicate()),
        None => None,
    }
}

impl Server {
    /// The directory is well formed, the vote threshold is at least one, and
    /// no target has reached it.
    pub closed spec fn wf(&self) -> bool {
        &&& self.clients.wf()
        &&& self.drop_votes >= 1
        &&& below_threshold(self.votes@, self.drop_votes as int)
    }

    /// A server with an empty directory and no votes.
    pub fn from_start_config(config: &StartConfig) -> (r: Server)
        requires
            config.drop_votes >= 1,
        ensures
            r.wf(),
            r@ == (ServerState {
                directory: Seq::empty(),
                ballots: Seq::empty(),
                capacity: config.capacity,
                address: config.address.bits,
                port: config.port,
                key: config.key@,
                password: config.password@,
                drop_votes: config.drop_votes,
                list_size: config.list_size,
                drop_verification: config.drop_verification,
            }),
    {
        let r = Server {
            clients: ClientDirectory::new(config.capacity),
            votes: EvictionQuorum::new(),
            address: config.address,
            port: config.port,
            key: config.key.clone(),
            password: config.password.clone(),
            drop_votes: config.drop_votes,
            list_size: config.list_size,
            drop_verification: config.drop_verification,
        };
        proof {
            assert forall|t: u32| #[trigger] ballots_for(r.votes@, t).len() < r.drop_votes by {
                r.votes@.lemma_filter_len(|b: (u32, u32)| b.0 == t);
            }
        }
        r
    }

    /// The IPv4 address the server is bound to.
    pub fn address(&self) -> (r: Ipv4)
        ensures
            r.bits == self@.address,
    {
        self.address
    }

    /// The port the server listens on.
    pub fn port(&self) -> (r: u16)
        ensures
            r == self@.port,
    {
        self.port
    }

    /// The number of registered clients.
    pub fn len(&self) -> (r: usize)
        ensures
            r == self@.directory.len(),
    {
        self.clients.len()
    }

    pub fn capacity(&self) -> (r: u16)
        ensures
            r == self@.capacity,
    {
        self.clients.capacity()
    }

    pub fn list_size(&self) -> (r: u16)
        ensures
            r == self@.list_size,
    {
        self.list_size
    }

    pub fn drop_votes(&self) -> (r: u8)
        ensures
            r == self@.drop_votes,
    {
        self.drop_votes
    }

    pub fn drop_verification(&self) -> (r: bool)
        ensures
            r == self@.drop_verification,
    {
        self.drop_verification
    }

    /// How many votes stand against `target`.
    pub fn votes_against(&self, target: Ipv4) -> (r: usize)
        ensures
            r == ballots_for(self@.ballots, target.bits).len(),
    {
        self.votes.count(target)
    }

    fn run_admin(&mut self, a: AdminRequest) -> (r: Reply)
        requires
            old(self).wf(),
            request_ok(Request::Admin(a)),
        ensures
            final(self).wf(),
            admin_post(old(self)@, a, r, final(self)@),
    {
        match a {
            AdminRequest::GetByMac { mac, .. } => Reply::Record(
                found_record(self.clients.lookup_by_mac(&mac)),
            ),
            AdminRequest::GetByUsername { username, start_index, .. } => Reply::Records(
                self.clients.lookup_by_username(username.as_str(), start_index, self.list_size as usize),
            ),
            AdminRequest::GetByIndex { start_index, end_index, .. } => Reply::Records(
                self.clients.lookup_by_index(start_index, end_index),
            ),
            AdminRequest::Drop { ip, .. } => {
                let ghost q0 = self.votes@;
                let found = self.clients.remove(ip);
                self.votes.clear(ip);
                proof {
                    assert forall|t: u32| #[trigger] ballots_for(self.votes@, t).len() < self.drop_votes by {
                        lemma_clear_target(q0, ip.bits, t);
                        assert(ballots_for(q0, t).len() < self.drop_votes);
                    }
                }
                Reply::Drop(
                    if found {
                        DropOutcome::Removed
                    } else {
                        DropOutcome::Absent
                    },
                )
            },
            AdminRequest::SetCapacity { capacity, .. } => Reply::Capacity(
                self.clients.set_capacity(capacity),
            ),
            AdminRequest::SetListSize { list_size, .. } => {
                self.list_size = list_size;
                Reply::Updated
            },
            AdminRequest::SetDropVotes { drop_votes, .. } => {
                self.votes.evict_at_threshold(&mut self.clients, drop_votes);
                self.drop_votes = drop_votes;
                Reply::Updated
            },
            AdminRequest::SetDropVerification { drop_verification, .. } => {
                self.drop_verification = drop_verification;
                Reply::Updated
            },
            AdminRequest::SetKey { key, .. } => {
                if !is_valid_key(key.as_str()) {
                    return Reply::KeyRejected;
                }
                self.key = key;
                Reply::Updated
            },
            AdminRequest::SetPassword { new_password, .. } => {
                self.password = new_password;
                Reply::Updated
            },
        }
    }

    fn run_client(&mut self, c: ClientRequest, peer: Ipv4) -> (r: Reply)
        requires
            old(self).wf(),
        ensures
            final(self).wf(),
            client_post(old(self)@, c, peer, r, final(self)@),
    {
        match c {
            ClientRequest::GetByMac { mac, .. } => Reply::Record(
                found_record(self.clients.lookup_by_mac(&mac)),
            ),
            ClientRequest::GetByUsername { username, start_index, .. } => Reply::Records(
                self.clients.lookup_by_username(username.as_str(), start_index, self.list_size as usize),
            ),
            ClientRequest::Drop { ip, .. } => Reply::Drop(
                cast_vote(
                    &mut self.clients,
                    &mut self.votes,
                    ip,
                    peer,
                    self.drop_votes,
                    self.drop_verification,
                ),
            ),
            ClientRequest::SignUp { username, mac, port, get_only_by_mac, .. } => {
                let record = ClientRecord { mac, username, ip: peer, port, get_only_by_mac };
                Reply::SignUp(self.clients.insert(record))
            },
        }
    }

    /// Authorizes request `request` from `peer` and carries it out.
    pub fn dispatch(&mut self, request: Request, peer: PeerAddr) -> (r: Reply)
        requires
            old(self).wf(),
            request_ok(request),
        ensures
            final(self).wf(),
            dispatch_post(old(self)@, request, peer, r, final(self)@),
    {
        match request {
            Request::Admin(a) => {
                let p = match peer {
                    PeerAddr::V4(p) => p,
                    PeerAddr::V6 => return Reply::Ipv4Only,
                };
                if p.bits != self.address.bits {
                    return Reply::Ipv4Only;
                }
                if *admin_secret(&a) != self.key {
                    return Reply::Silent;
                }
                self.run_admin(a)
            },
            Request::Client(c) => {
                let p = match peer {
                    PeerAddr::V4(p) => p,
                    PeerAddr::V6 => return Reply::Ipv4Only,
                };
                if *client_secret(&c) != self.password {
                    return Reply::Silent;
                }
                self.run_client(c, p)
            },
        }
    }

    /// Decodes a request from its JSON text and carries it out: a text that
    /// describes no request gets the "not understood" reply and changes
    /// nothing.
    pub fn handle(&mut self, text: &str, peer: PeerAddr) -> (r: Reply)
        requires
            old(self).wf(),
        ensures
            final(self).wf(),
            match json_object_of(text@) {
                None => r == Reply::NotUnderstood && final(self)@ == old(self)@,
                Some(fs) => (decodes_to(fs, None) && r == Reply::NotUnderstood && final(self)@
                    == old(self)@) || exists|q: Request|
                    #[trigger] decodes_to(fs, Some(q)) && dispatch_post(
                        old(self)@,
                        q,
                        peer,
                        r,
                        final(self)@,
                    ),
            },
    {
        match Request::from(text) {
            Some(request) => {
                let ghost q = request;
                proof {
                    let fs = json_object_of(text@)->0;
                    assert(decodes_to(fs, Some(q)));
                }
                self.dispatch(request, peer)
            },
            None => Reply::NotUnderstood,
        }
    }
}

/// However it was reached, a server's directory holds no more records than
/// its capacity, no two with one MAC address, and no target has as many
/// votes as the threshold.
pub proof fn lemma_server_invariants(s: &Server)
    requires
        s.wf(),
    ensures
        s@.directory.len() <= s@.capacity,
        macs_distinct(s@.directory),
        below_threshold(s@.ballots, s@.drop_votes as int),
        s@.drop_votes >= 1,
{
    lemma_directory_invariants(&s.clients);
}


} // verus!
