use vstd::prelude::*;

verus! {

/// What an event is to the contracts: the instant in seconds and the occupant.
pub type EventView = (u64, Seq<char>);

/// What a station history is to the contracts: its prefix and its events,
/// oldest first.
pub type StationView = (Seq<char>, Seq<EventView>);

/// One station of a snapshot as the aggregator reads it: its prefix and the
/// occupant it resolves to.
pub type Observation = (Seq<char>, Seq<char>);

/// The occupant recorded for a station that no player dispatches.
pub open spec fn bot() -> Seq<char> {
    seq!['B', 'O', 'T']
}

/// A change of a station's occupant, seen at instant `at`.
pub struct Event {
    pub at: u64,
    pub occupant: String,
}

impl View for Event {
    type V = EventView;

    open spec fn view(&self) -> EventView {
        (self.at, self.occupant@)
    }
}

impl Event {
    pub fn copy(&self) -> (r: Event)
        ensures
            r@ == self@,
    {
        Event { at: self.at, occupant: self.occupant.clone() }
    }
}

/// One station of a polled snapshot: its prefix and the identifiers of the
/// players listed as dispatching it, in the order the server lists them.
pub struct StationEntry {
    pub prefix: String,
    pub dispatchers: Vec<String>,
}

impl StationEntry {
    /// The prefix and the occupant: the first dispatcher if there is one,
    /// else the automated controller.
    pub open spec fn observed(&self) -> Observation {
        (
            self.prefix@,
            if self.dispatchers@.len() > 0 {
                self.dispatchers@[0]@
            } else {
                bot()
            },
        )
    }

    /// The occupant this entry resolves to: see `observed`.
    pub fn occupant(&self) -> (r: String)
        ensures
            r@ == self.observed().1,
    {
        if self.dispatchers.len() > 0 {
            self.dispatchers[0].clone()
        } else {
            bot_name()
        }
    }
}

/// The occupant name of the automated controller.
pub fn bot_name() -> (r: String)
    ensures
        r@ == bot(),
{
    let r = "BOT".to_owned();
    proof {
        reveal_strlit("BOT");
    }
    assert(r@ =~= bot());
    r
}

pub open spec fn observations(snapshot: Seq<StationEntry>) -> Seq<Observation> {
    snapshot.map_values(|e: StationEntry| e.observed())
}

/// The log of one station: every change of occupant since it was first seen.
pub struct StationHistory {
    pub prefix: String,
    pub events: Vec<Event>,
}

pub open spec fn events_view(events: Seq<Event>) -> Seq<EventView> {
    events.map_values(|e: Event| e@)
}

impl View for StationHistory {
    type V = StationView;

    open spec fn view(&self) -> StationView {
        (self.prefix@, events_view(self.events@))
    }
}

impl StationHistory {
    pub fn copy(&self) -> (r: StationHistory)
        ensures
            r@ == self@,
    {
        let mut events: Vec<Event> = Vec::new();
        let n = self.events.len();
        let mut i: usize = 0;
        while i < n
            invariant
                n == self.events@.len(),
                i <= n,
                events_view(events@) =~= events_view(self.events@).take(i as int),
            decreases n - i,
        {
            let e = self.events[i].copy();
            assert(e@ == events_view(self.events@)[i as int]);
            let ghost before = events@;
            events.push(e);
            assert(events@ == before.push(e));
            assert(events_view(events@) =~= events_view(before).push(e@));
            i = i + 1;
            assert(events_view(events@) =~= events_view(self.events@).take(i as int));
        }
        assert(events_view(self.events@).take(n as int) =~= events_view(self.events@));
        StationHistory { prefix: self.prefix.clone(), events }
    }
}

/// No two consecutive events name the same occupant.
pub open spec fn no_repeat(events: Seq<EventView>) -> bool {
    forall|j: int| 0 < j < events.len() ==> #[trigger] events[j].1 != events[j - 1].1
}

pub open spec fn unique_prefixes(log: Seq<StationView>) -> bool {
    forall|i: int, k: int|
        #![trigger log[i], log[k]]
        0 <= i < log.len() && 0 <= k < log.len() && i != k ==> log[i].0 != log[k].0
}

/// A well-formed log: one history per prefix, none empty, none with a
/// repeated occupant.
pub open spec fn log_wf(log: Seq<StationView>) -> bool {
    &&& unique_prefixes(log)
    &&& forall|i: int| 0 <= i < log.len() ==> #[trigger] log[i].1.len() > 0 && no_repeat(log[i].1)
}

pub open spec fn has_station(log: Seq<StationView>, p: Seq<char>) -> bool {
    exists|i: int| 0 <= i < log.len() && log[i].0 == p
}

pub open spec fn station_index(log: Seq<StationView>, p: Seq<char>) -> int {
    choose|i: int| 0 <= i < log.len() && log[i].0 == p
}

/// The log after station `p` was seen with occupant `occ` at instant `t`:
/// a new history for an unseen station, one more event where the occupant
/// changed, and nothing new where it did not.
pub open spec fn record(log: Seq<StationView>, p: Seq<char>, occ: Seq<char>, t: u64) -> Seq<
    StationView,
> {
    if has_station(log, p) {
        let i = station_index(log, p);
        let events = log[i].1;
        if events.len() > 0 && events.last().1 == occ {
            log
        } else {
            log.update(i, (p, events.push((t, occ))))
        }
    } else {
        log.push((p, seq![(t, occ)]))
    }
}

/// The log after each observation of `obs` was recorded in turn at instant `t`.
pub open spec fn record_all(log: Seq<StationView>, obs: Seq<Observation>, t: u64) -> Seq<
    StationView,
>
    decreases obs.len(),
{
    if obs.len() == 0 {
        log
    } else {
        record(record_all(log, obs.drop_last(), t), obs.last().0, obs.last().1, t)
    }
}

/// `new` keeps every station of `old`, at its place, with its events as a
/// prefix of its new events.
pub open spec fn extends(old: Seq<StationView>, new: Seq<StationView>) -> bool {
    &&& old.len() <= new.len()
    &&& forall|i: int|
        0 <= i < old.len() ==> {
            &&& (#[trigger] new[i]).0 == old[i].0
            &&& old[i].1.len() <= new[i].1.len()
            &&& new[i].1.subrange(0, old[i].1.len() as int) == old[i].1
        }
}

proof fn lemma_record(log: Seq<StationView>, p: Seq<char>, occ: Seq<char>, t: u64)
    requires
        log_wf(log),
    ensures
        log_wf(record(log, p, occ, t)),
        extends(log, record(log, p, occ, t)),
        has_station(record(log, p, occ, t), p),
{
    let r = record(log, p, occ, t);
    if has_station(log, p) {
        let i = station_index(log, p);
        let events = log[i].1;
        if events.len() > 0 && events.last().1 == occ {
            lemma_extends_refl(log);
        } else {
            let ne = events.push((t, occ));
            assert(ne.subrange(0, events.len() as int) =~= events);
            assert(no_repeat(ne)) by {
                assert forall|j: int| 0 < j < ne.len() implies #[trigger] ne[j].1 != ne[j - 1].1 by {
                    if j < events.len() {
                        assert(ne[j] == events[j] && ne[j - 1] == events[j - 1]);
                    }
                }
            }
            assert forall|k: int| 0 <= k < log.len() implies (#[trigger] r[k]).0 == log[k].0
                && log[k].1.len() <= r[k].1.len() && r[k].1.subrange(0, log[k].1.len() as int)
                == log[k].1 by {
                if k != i {
                    assert(r[k].1.subrange(0, log[k].1.len() as int) =~= log[k].1);
                }
            }
            assert(r[i].0 == p);
        }
    } else {
        assert(no_repeat(seq![(t, occ)]));
        assert forall|k: int| 0 <= k < log.len() implies (#[trigger] r[k]).0 == log[k].0
            && log[k].1.len() <= r[k].1.len() && r[k].1.subrange(0, log[k].1.len() as int)
            == log[k].1 by {
            assert(r[k].1.subrange(0, log[k].1.len() as int) =~= log[k].1);
        }
        assert(r[log.len() as int].0 == p);
    }
}

proof fn lemma_extends_trans(a: Seq<StationView>, b: Seq<StationView>, c: Seq<StationView>)
    requires
        extends(a, b),
        extends(b, c),
    ensures
        extends(a, c),
{
    assert forall|i: int| 0 <= i < a.len() implies (#[trigger] c[i]).0 == a[i].0 && a[i].1.len()
        <= c[i].1.len() && c[i].1.subrange(0, a[i].1.len() as int) == a[i].1 by {
        assert(b[i].1.subrange(0, a[i].1.len() as int) =~= c[i].1.subrange(0, b[i].1.len() as int).subrange(0, a[i].1.len() as int));
        assert(c[i].1.subrange(0, a[i].1.len() as int) =~= c[i].1.subrange(0, b[i].1.len() as int).subrange(0, a[i].1.len() as int));
    }
}

proof fn lemma_extends_refl(a: Seq<StationView>)
    ensures
        extends(a, a),
{
    assert forall|i: int| 0 <= i < a.len() implies (#[trigger] a[i]).0 == a[i].0 && a[i].1.len()
        <= a[i].1.len() && a[i].1.subrange(0, a[i].1.len() as int) == a[i].1 by {
        assert(a[i].1.subrange(0, a[i].1.len() as int) =~= a[i].1);
    }
}

/// Whatever is ingested into a well-formed log, the log stays well formed:
/// in particular no station history ever holds two consecutive events with
/// the same occupant.
pub proof fn lemma_ingest_keeps_log_wf(log: Seq<StationView>, obs: Seq<Observation>, t: u64)
    requires
        log_wf(log),
    ensures
        log_wf(record_all(log, obs, t)),
    decreases obs.len(),
{
    if obs.len() > 0 {
        lemma_ingest_keeps_log_wf(log, obs.drop_last(), t);
        lemma_record(record_all(log, obs.drop_last(), t), obs.last().0, obs.last().1, t);
    }
}

/// Ingesting only appends: every station stays at its place, and its earlier
/// events stay as they were, in front of any new ones.
pub proof fn lemma_ingest_only_appends(log: Seq<StationView>, obs: Seq<Observation>, t: u64)
    requires
        log_wf(log),
    ensures
        extends(log, record_all(log, obs, t)),
    decreases obs.len(),
{
    if obs.len() == 0 {
        lemma_extends_refl(log);
    } else {
        lemma_ingest_only_appends(log, obs.drop_last(), t);
        lemma_ingest_keeps_log_wf(log, obs.drop_last(), t);
        let mid = record_all(log, obs.drop_last(), t);
        lemma_record(mid, obs.last().0, obs.last().1, t);
        lemma_extends_trans(log, mid, record_all(log, obs, t));
    }
}

/// An empty snapshot leaves the log as it was.
pub proof fn lemma_ingest_nothing(log: Seq<StationView>, t: u64)
    ensures
        record_all(log, Seq::<Observation>::empty(), t) == log,
{
}

/// The log after each snapshot of `polls`, with its instant, was ingested in
/// turn.
pub open spec fn ingest_all(log: Seq<StationView>, polls: Seq<(Seq<Observation>, u64)>) -> Seq<
    StationView,
>
    decreases polls.len(),
{
    if polls.len() == 0 {
        log
    } else {
        let last = polls.last();
        record_all(ingest_all(log, polls.drop_last()), last.0, last.1)
    }
}

/// Over any sequence of ingested snapshots, starting from a well-formed log
/// (as a new one is): no station history ever holds two consecutive events
/// with the same occupant, and every earlier event stays where it was.
pub proof fn lemma_polls_keep_histories(log: Seq<StationView>, polls: Seq<(Seq<Observation>, u64)>)
    requires
        log_wf(log),
    ensures
        log_wf(ingest_all(log, polls)),
        extends(log, ingest_all(log, polls)),
    decreases polls.len(),
{
    if polls.len() == 0 {
        lemma_extends_refl(log);
    } else {
        let mid = ingest_all(log, polls.drop_last());
        lemma_polls_keep_histories(log, polls.drop_last());
        lemma_ingest_keeps_log_wf(mid, polls.last().0, polls.last().1);
        lemma_ingest_only_appends(mid, polls.last().0, polls.last().1);
        lemma_extends_trans(log, mid, ingest_all(log, polls));
    }
}

proof fn lemma_station_index(log: Seq<StationView>, p: Seq<char>, i: int)
    requires
        unique_prefixes(log),
        0 <= i < log.len(),
        log[i].0 == p,
    ensures
        has_station(log, p),
        station_index(log, p) == i,
{
    assert(has_station(log, p));
    let j = station_index(log, p);
    if j != i {
        assert(log[j].0 != log[i].0);
    }
}

proof fn lemma_record_one(log: Seq<StationView>, p: Seq<char>, occ: Seq<char>, t: u64)
    ensures
        record_all(log, seq![(p, occ)], t) == record(log, p, occ, t),
{
    let obs = seq![(p, occ)];
    assert(obs.drop_last() =~= Seq::<Observation>::empty());
    assert(record_all(log, obs.drop_last(), t) == log);
    assert(obs.last() == (p, occ));
}

/// A station first seen with occupant `a`, then `b`, then `a` again, in
/// three snapshots, ends with three events: a return to an earlier occupant
/// is recorded, not merged.
pub proof fn lemma_return_is_recorded(
    log: Seq<StationView>,
    p: Seq<char>,
    a: Seq<char>,
    b: Seq<char>,
    t1: u64,
    t2: u64,
    t3: u64,
)
    requires
        log_wf(log),
        !has_station(log, p),
        a != b,
    ensures
        ({
            let r1 = record_all(log, seq![(p, a)], t1);
            let r2 = record_all(r1, seq![(p, b)], t2);
            let r3 = record_all(r2, seq![(p, a)], t3);
            &&& r3.len() == log.len() + 1
            &&& r3[log.len() as int] == (p, seq![(t1, a), (t2, b), (t3, a)])
        }),
{
    let k = log.len() as int;
    lemma_record_one(log, p, a, t1);
    let r1 = record(log, p, a, t1);
    lemma_record(log, p, a, t1);
    assert(r1 == log.push((p, seq![(t1, a)])));
    lemma_station_index(r1, p, k);
    lemma_record_one(r1, p, b, t2);
    let r2 = record(r1, p, b, t2);
    lemma_record(r1, p, b, t2);
    assert(r2 == r1.update(k, (p, seq![(t1, a)].push((t2, b)))));
    assert(seq![(t1, a)].push((t2, b)) =~= seq![(t1, a), (t2, b)]);
    lemma_station_index(r2, p, k);
    lemma_record_one(r2, p, a, t3);
    let r3 = record(r2, p, a, t3);
    assert(r2[k].1.last().1 == b);
    assert(r3 == r2.update(k, (p, seq![(t1, a), (t2, b)].push((t3, a)))));
    assert(seq![(t1, a), (t2, b)].push((t3, a)) =~= seq![(t1, a), (t2, b), (t3, a)]);
}

/// The aggregator: for every station seen since the last reset, the history
/// of its occupants, in the order the stations were first seen.
pub struct OccupancyLog {
    stations: Vec<StationHistory>,
}

impl View for OccupancyLog {
    type V = Seq<StationView>;

    closed spec fn view(&self) -> Seq<StationView> {
        self.stations@.map_values(|h: StationHistory| h@)
    }
}

impl OccupancyLog {
    pub open spec fn wf(&self) -> bool {
        log_wf(self@)
    }

    /// An empty log.
    pub fn new() -> (r: OccupancyLog)
        ensures
            r@ == Seq::<StationView>::empty(),
            r.wf(),
    {
        let r = OccupancyLog { stations: Vec::new() };
        assert(r@ =~= Seq::<StationView>::empty());
        r
    }

    /// Forgets every station.
    pub fn clear(&mut self)
        ensures
            final(self)@ == Seq::<StationView>::empty(),
            final(self).wf(),
    {
        self.stations.clear();
        assert(self@ =~= Seq::<StationView>::empty());
    }

    /// The number of stations seen.
    pub fn len(&self) -> (r: usize)
        ensures
            r == self@.len(),
    {
        self.stations.len()
    }

    /// Where the history of `prefix` stands, if the station was seen.
    pub fn position(&self, prefix: &String) -> (r: Option<usize>)
        requires
            self.wf(),
        ensures
            match r {
                Some(i) => has_station(self@, prefix@) && i == station_index(self@, prefix@),
                None => !has_station(self@, prefix@),
            },
    {
        let n = self.stations.len();
        let mut i: usize = 0;
        while i < n
            invariant
                n == self@.len(),
                i <= n,
                self.wf(),
                forall|k: int| 0 <= k < i ==> (#[trigger] self@[k]).0 != prefix@,
            decreases n - i,
        {
            if self.stations[i].prefix == *prefix {
                assert(self@[i as int].0 == prefix@);
                assert(has_station(self@, prefix@));
                let ghost j = station_index(self@, prefix@);
                assert(self@[j].0 == prefix@);
                assert(unique_prefixes(self@));
                assert(0 <= j < self@.len());
                proof {
                    if j != i as int {
                        assert(self@[j].0 != self@[i as int].0);
                    }
                }
                return Some(i);
            }
            i = i + 1;
        }
        None
    }

    /// Records that station `prefix` was seen with `occupant` at instant `at`:
    /// see `record`.
    pub fn record(&mut self, prefix: &String, occupant: String, at: u64)
        requires
            old(self).wf(),
        ensures
            final(self)@ == record(old(self)@, prefix@, occupant@, at),
            final(self).wf(),
    {
        proof {
            lemma_record(self@, prefix@, occupant@, at);
        }
        let ghost occ = occupant@;
        match self.position(prefix) {
            Some(i) => {
                let n = self.stations[i].events.len();
                let changed = if n == 0 {
                    true
                } else {
                    self.stations[i].events[n - 1].occupant != occupant
                };
                if changed {
                    let ghost before = self.stations@;
                    let ghost evs = self.stations@[i as int].events@;
                    self.stations[i].events.push(Event { at, occupant });
                    assert(forall|k: int| 0 <= k < before.len() && k != i ==> self.stations@[k] == before[k]);
                    assert(self.stations@[i as int].prefix == before[i as int].prefix);
                    assert(events_view(self.stations@[i as int].events@) =~= events_view(evs).push((at, occ)));
                    assert(self@ =~= record(old(self)@, prefix@, occ, at));
                } else {
                    assert(events_view(self.stations@[i as int].events@).last().1 == occ);
                }
            },
            None => {
                let mut events: Vec<Event> = Vec::new();
                events.push(Event { at, occupant });
                let h = StationHistory { prefix: prefix.clone(), events };
                assert(h@.1 =~= seq![(at, occ)]);
                self.stations.push(h);
                assert(self@ =~= record(old(self)@, prefix@, occ, at));
            },
        }
    }

    /// Takes in one polled snapshot whose events happen at instant `at`: each
    /// station in turn gets a history if it has none, and a new event where
    /// its occupant differs from the last one recorded.
    pub fn ingest(&mut self, snapshot: &Vec<StationEntry>, at: u64)
        requires
            old(self).wf(),
        ensures
            final(self)@ == record_all(old(self)@, observations(snapshot@), at),
            final(self).wf(),
    {
        let ghost obs = observations(snapshot@);
        let n = snapshot.len();
        let mut i: usize = 0;
        while i < n
            invariant
                n == snapshot@.len(),
                obs == observations(snapshot@),
                i <= n,
                self.wf(),
                self@ == record_all(old(self)@, obs.take(i as int), at),
            decreases n - i,
        {
            let entry = &snapshot[i];
            let occupant = entry.occupant();
            self.record(&entry.prefix, occupant, at);
            assert(obs.take(i + 1).drop_last() =~= obs.take(i as int));
            i = i + 1;
        }
        assert(obs.take(n as int) =~= obs);
    }

    /// Copies of the histories whose prefix is `filter`, or of all of them
    /// when `filter` is empty, in the order the stations were first seen.
    pub fn matching(&self, filter: &String) -> (r: Vec<StationHistory>)
        ensures
            r@.map_values(|h: StationHistory| h@) == shown(self@, filter@),
    {
        let mut r: Vec<StationHistory> = Vec::new();
        let n = self.stations.len();
        let mut i: usize = 0;
        while i < n
            invariant
                n == self@.len(),
                i <= n,
                r@.map_values(|h: StationHistory| h@) == shown(self@.take(i as int), filter@),
            decreases n - i,
        {
            let ghost before = r@;
            let h = &self.stations[i];
            assert(self@.take(i + 1).drop_last() =~= self@.take(i as int));
            if filter.as_str().is_empty() || h.prefix == *filter {
                r.push(h.copy());
                assert(r@.map_values(|h: StationHistory| h@) =~= before.map_values(|h: StationHistory| h@).push(h@));
            }
            i = i + 1;
        }
        assert(self@.take(n as int) =~= self@);
        r
    }

    /// The prefixes of all stations seen, in the order they were first seen.
    pub fn prefixes(&self) -> (r: Vec<String>)
        ensures
            r@.map_values(|s: String| s@) == self@.map_values(|h: StationView| h.0),
    {
        let mut r: Vec<String> = Vec::new();
        let n = self.stations.len();
        let mut i: usize = 0;
        while i < n
            invariant
                n == self@.len(),
                i <= n,
                r@.map_values(|s: String| s@) =~= self@.take(i as int).map_values(|h: StationView| h.0),
            decreases n - i,
        {
            let ghost before = r@;
            r.push(self.stations[i].prefix.clone());
            assert(r@.map_values(|s: String| s@) =~= before.map_values(|s: String| s@).push(self@[i as int].0));
            i = i + 1;
            assert(r@.map_values(|s: String| s@) =~= self@.take(i as int).map_values(|h: StationView| h.0));
        }
        assert(self@.take(n as int) =~= self@);
        r
    }
}

/// The stations shown for filter text `filter`: those whose prefix equals it,
/// or all of them when it is empty, in their order.
pub open spec fn shown(log: Seq<StationView>, filter: Seq<char>) -> Seq<StationView>
    decreases log.len(),
{
    if log.len() == 0 {
        log
    } else if filter.len() == 0 || log.last().0 == filter {
        shown(log.drop_last(), filter).push(log.last())
    } else {
        shown(log.drop_last(), filter)
    }
}

} // verus!
