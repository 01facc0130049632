use crate::clock::now_seconds;
use crate::history::{
    log_wf, observations, record_all, shown, OccupancyLog, Observation, StationEntry,
    StationHistory, StationView,
};
use vstd::prelude::*;

verus! {

/// What a server is to the contracts: its code, its name, and whether it is open.
pub type ServerView = (Seq<char>, Seq<char>, bool);

/// A server of the simulation, as listed by the API.
pub struct ServerInfo {
    pub code: String,
    pub name: String,
    pub active: bool,
}

impl View for ServerInfo {
    type V = ServerView;

    open spec fn view(&self) -> ServerView {
        (self.code@, self.name@, self.active)
    }
}

impl ServerInfo {
    pub fn copy(&self) -> (r: ServerInfo)
        ensures
            r@ == self@,
    {
        ServerInfo { code: self.code.clone(), name: self.name.clone(), active: self.active }
    }
}

pub open spec fn servers_view(servers: Seq<ServerInfo>) -> Seq<ServerView> {
    servers.map_values(|s: ServerInfo| s@)
}

/// The code of the first open server of the list, if any is open.
pub open spec fn first_active(servers: Seq<ServerView>) -> Option<Seq<char>>
    decreases servers.len(),
{
    if servers.len() == 0 {
        None
    } else if servers[0].2 {
        Some(servers[0].0)
    } else {
        first_active(servers.drop_first())
    }
}

/// The open servers of the list, in their order.
pub open spec fn active_only(servers: Seq<ServerView>) -> Seq<ServerView>
    decreases servers.len(),
{
    if servers.len() == 0 {
        servers
    } else if servers.last().2 {
        active_only(servers.drop_last()).push(servers.last())
    } else {
        active_only(servers.drop_last())
    }
}

/// What the caller is asked to do next.
pub enum Action {
    /// Nothing.
    Idle,
    /// Fetch the station list of this server, and hand the result back to
    /// `Dashboard::ingest` tagged with this code.
    FetchStations(String),
}

/// The server whose stations an action asks for.
pub open spec fn fetch_target(a: Action) -> Option<Seq<char>> {
    match a {
        Action::Idle => None,
        Action::FetchStations(code) => Some(code@),
    }
}

/// The part of the dashboard that polling changes: the selected server (empty
/// while none is) and the occupancy log.
pub type PollView = (Seq<char>, Seq<StationView>);

/// The state right after server `code` was selected in state `s`: whatever
/// `s` held, the new server starts with its own, empty log.
pub open spec fn select_spec(s: PollView, code: Seq<char>) -> PollView {
    (code, Seq::<StationView>::empty())
}

/// What a poll tick asks for in state `s`: the stations of the selected
/// server, or nothing while none is selected.
pub open spec fn tick_spec(s: PollView) -> Option<Seq<char>> {
    if s.0.len() == 0 {
        None
    } else {
        Some(s.0)
    }
}

/// The state after a snapshot fetched for server `tag` arrived at instant `t`
/// in state `s`: recorded if `tag` is still the selected server, dropped if
/// the selection has moved on.
pub open spec fn ingest_spec(s: PollView, tag: Seq<char>, obs: Seq<Observation>, t: u64) -> PollView {
    if tag == s.0 {
        (s.0, record_all(s.1, obs, t))
    } else {
        s
    }
}

/// The whole state of the dashboard: the server list, the selected server,
/// the occupancy log, the theme and the station filter.
pub struct Dashboard {
    servers: Vec<ServerInfo>,
    selected: String,
    log: OccupancyLog,
    dark: bool,
    filter: String,
}

impl Dashboard {
    pub closed spec fn poll_state(&self) -> PollView {
        (self.selected@, self.log@)
    }

    pub closed spec fn servers_spec(&self) -> Seq<ServerView> {
        servers_view(self.servers@)
    }

    pub closed spec fn dark_spec(&self) -> bool {
        self.dark
    }

    pub closed spec fn filter_spec(&self) -> Seq<char> {
        self.filter@
    }

    pub closed spec fn wf(&self) -> bool {
        self.log.wf()
    }

    /// A dashboard with no servers, no selection, an empty log, the dark
    /// theme and no filter.
    pub fn new() -> (r: Dashboard)
        ensures
            r.wf(),
            r.poll_state() == (Seq::<char>::empty(), Seq::<StationView>::empty()),
            r.servers_spec() == Seq::<ServerView>::empty(),
            r.dark_spec(),
            r.filter_spec() == Seq::<char>::empty(),
    {
        let r = Dashboard {
            servers: Vec::new(),
            selected: String::new(),
            log: OccupancyLog::new(),
            dark: true,
            filter: String::new(),
        };
        assert(servers_view(r.servers@) =~= Seq::<ServerView>::empty());
        r
    }

    /// What a poll tick asks for: see `tick_spec`.
    pub fn tick(&self) -> (r: Action)
        ensures
            fetch_target(r) == tick_spec(self.poll_state()),
    {
        if self.selected.as_str().is_empty() {
            Action::Idle
        } else {
            Action::FetchStations(self.selected.clone())
        }
    }

    /// Selects server `code`: forgets every station of the previous server
    /// and asks at once for the stations of the new one.
    pub fn select_server(&mut self, code: String) -> (r: Action)
        requires
            old(self).wf(),
        ensures
            final(self).wf(),
            final(self).poll_state() == select_spec(old(self).poll_state(), code@),
            fetch_target(r) == tick_spec(select_spec(old(self).poll_state(), code@)),
            final(self).servers_spec() == old(self).servers_spec(),
            final(self).dark_spec() == old(self).dark_spec(),
            final(self).filter_spec() == old(self).filter_spec(),
    {
        self.log.clear();
        self.selected = code;
        self.tick()
    }

    /// Takes in a freshly loaded server list and selects its first open
    /// server; with none open the dashboard stays as it was and idle.
    pub fn servers_loaded(&mut self, servers: Vec<ServerInfo>) -> (r: Action)
        requires
            old(self).wf(),
        ensures
            final(self).wf(),
            final(self).servers_spec() == servers_view(servers@),
            match first_active(servers_view(servers@)) {
                Some(code) => final(self).poll_state() == select_spec(old(self).poll_state(), code) && fetch_target(r)
                    == tick_spec(select_spec(old(self).poll_state(), code)),
                None => final(self).poll_state() == old(self).poll_state() && fetch_target(r)
                    == None::<Seq<char>>,
            },
            final(self).dark_spec() == old(self).dark_spec(),
            final(self).filter_spec() == old(self).filter_spec(),
    {
        let ghost sv = servers_view(servers@);
        let n = servers.len();
        let mut i: usize = 0;
        assert(sv.subrange(0, n as int) =~= sv);
        while i < n
            invariant
                n == servers@.len(),
                sv == servers_view(servers@),
                i <= n,
                forall|k: int| 0 <= k < i ==> !(#[trigger] servers@[k]).active,
                first_active(sv) == first_active(sv.subrange(i as int, n as int)),
            ensures
                i <= n,
                i < n ==> servers@[i as int].active,
                first_active(sv) == first_active(sv.subrange(i as int, n as int)),
            decreases n - i,
        {
            if servers[i].active {
                break;
            }
            assert(sv.subrange(i as int, n as int).drop_first() =~= sv.subrange(i + 1, n as int));
            i = i + 1;
        }
        if i < n {
            assert(sv.subrange(i as int, n as int)[0] == sv[i as int]);
            assert(sv[i as int] == servers@[i as int]@);
            let code = servers[i].code.clone();
            self.servers = servers;
            self.select_server(code)
        } else {
            assert(sv.subrange(i as int, n as int).len() == 0);
            self.servers = servers;
            Action::Idle
        }
    }

    /// Takes in a station snapshot fetched for server `server`, recording
    /// its events at instant `at`: see `ingest_spec`. A snapshot for a
    /// server that is no longer selected changes nothing.
    pub fn ingest(&mut self, server: &String, snapshot: &Vec<StationEntry>, at: u64)
        requires
            old(self).wf(),
        ensures
            final(self).wf(),
            final(self).poll_state() == ingest_spec(
                old(self).poll_state(),
                server@,
                observations(snapshot@),
                at,
            ),
            final(self).servers_spec() == old(self).servers_spec(),
            final(self).dark_spec() == old(self).dark_spec(),
            final(self).filter_spec() == old(self).filter_spec(),
    {
        if *server == self.selected {
            self.log.ingest(snapshot, at);
        }
    }

    /// `ingest` at the current instant of the system clock.
    pub fn ingest_now(&mut self, server: &String, snapshot: &Vec<StationEntry>)
        requires
            old(self).wf(),
        ensures
            final(self).wf(),
            exists|t: u64|
                final(self).poll_state() == ingest_spec(
                    old(self).poll_state(),
                    server@,
                    observations(snapshot@),
                    t,
                ),
            final(self).servers_spec() == old(self).servers_spec(),
            final(self).dark_spec() == old(self).dark_spec(),
            final(self).filter_spec() == old(self).filter_spec(),
    {
        let at = now_seconds();
        self.ingest(server, snapshot, at);
    }

    /// Switches between the dark and the light theme.
    pub fn toggle_dark(&mut self)
        ensures
            final(self).dark_spec() == !old(self).dark_spec(),
            final(self).poll_state() == old(self).poll_state(),
            final(self).wf() == old(self).wf(),
            final(self).servers_spec() == old(self).servers_spec(),
            final(self).filter_spec() == old(self).filter_spec(),
    {
        self.dark = !self.dark;
    }

    /// Sets the station filter: a prefix, or empty for all stations.
    pub fn set_filter(&mut self, filter: String)
        ensures
            final(self).filter_spec() == filter@,
            final(self).poll_state() == old(self).poll_state(),
            final(self).wf() == old(self).wf(),
            final(self).servers_spec() == old(self).servers_spec(),
            final(self).dark_spec() == old(self).dark_spec(),
    {
        self.filter = filter;
    }

    pub fn is_dark(&self) -> (r: bool)
        ensures
            r == self.dark_spec(),
    {
        self.dark
    }

    pub fn filter(&self) -> (r: String)
        ensures
            r@ == self.filter_spec(),
    {
        self.filter.clone()
    }

    /// The selected server's code; empty while none is selected.
    pub fn selected_server(&self) -> (r: String)
        ensures
            r@ == self.poll_state().0,
    {
        self.selected.clone()
    }

    /// The open servers, in the order the API listed them, for the server
    /// selector.
    pub fn active_servers(&self) -> (r: Vec<ServerInfo>)
        ensures
            servers_view(r@) == active_only(self.servers_spec()),
    {
        let ghost sv = servers_view(self.servers@);
        let mut r: Vec<ServerInfo> = Vec::new();
        let n = self.servers.len();
        let mut i: usize = 0;
        while i < n
            invariant
                n == self.servers@.len(),
                sv == servers_view(self.servers@),
                sv == self.servers_spec(),
                i <= n,
                servers_view(r@) == active_only(sv.take(i as int)),
            decreases n - i,
        {
            let ghost before = r@;
            assert(sv.take(i + 1).drop_last() =~= sv.take(i as int));
            if self.servers[i].active {
                r.push(self.servers[i].copy());
                assert(servers_view(r@) =~= servers_view(before).push(sv[i as int]));
            }
            i = i + 1;
        }
        assert(sv.take(n as int) =~= sv);
        r
    }

    /// The prefixes of all stations seen on the selected server, in the
    /// order they were first seen, for the station selector.
    pub fn station_prefixes(&self) -> (r: Vec<String>)
        ensures
            r@.map_values(|s: String| s@) == self.poll_state().1.map_values(|h: StationView| h.0),
    {
        self.log.prefixes()
    }

    /// The histories to show under the current filter: see `shown`.
    pub fn shown_stations(&self) -> (r: Vec<StationHistory>)
        ensures
            r@.map_values(|h: StationHistory| h@) == shown(self.poll_state().1, self.filter_spec()),
    {
        self.log.matching(&self.filter)
    }
}

/// After a switch from server `x` to server `y`, nothing seen under `x`
/// remains: the log is empty, and a response for `x` that arrives late adds
/// nothing to it.
pub proof fn lemma_switch_isolates_servers(
    s: PollView,
    x: Seq<char>,
    y: Seq<char>,
    seen: Seq<Observation>,
    t1: u64,
    late: Seq<Observation>,
    t2: u64,
)
    requires
        x != y,
    ensures
        ({
            let under_x = ingest_spec(select_spec(s, x), x, seen, t1);
            let under_y = select_spec(under_x, y);
            &&& under_y.1.len() == 0
            &&& ingest_spec(under_y, x, late, t2) == under_y
        }),
{
}

/// A response tagged for a server other than the selected one changes nothing.
pub proof fn lemma_stale_response_ignored(
    s: PollView,
    tag: Seq<char>,
    obs: Seq<Observation>,
    t: u64,
)
    requires
        tag != s.0,
    ensures
        ingest_spec(s, tag, obs, t) == s,
{
}

/// Every transition keeps the log well formed.
pub proof fn lemma_transitions_keep_log_wf(
    s: PollView,
    tag: Seq<char>,
    obs: Seq<Observation>,
    t: u64,
    code: Seq<char>,
)
    requires
        log_wf(s.1),
    ensures
        log_wf(ingest_spec(s, tag, obs, t).1),
        log_wf(select_spec(s, code).1),
{
    crate::history::lemma_ingest_keeps_log_wf(s.1, obs, t);
}

} // verus!
