//! A metric: a named family of observers, one for each distinct set of
//! attributes that observations have been recorded under.
use vstd::prelude::*;
use crate::assoc::{ascending_by, is_place_of, lemma_ascending_unique, lemma_ascending_absent, lemma_ascending_insert, map_of, unique_keys, lemma_map_of_dom, lemma_map_of_unique, lemma_insert_new_key};
use crate::order::{Order, labels_lt, labels_order, lemma_labels_strict_total};
use crate::attributes::Attributes;

verus! {

/// The kind of value that a metric reports.
#[derive(Debug, Clone, Copy, PartialEq, Eq, Structural)]
pub enum MetricKind {
    U64Counter,
    U64Gauge,
}

/// The value that an observer reports.
#[derive(Debug, Clone, Copy, PartialEq, Eq, Structural)]
pub enum Observation {
    U64Counter(u64),
    U64Gauge(u64),
}

/// How an observer is made when a set of attributes is first used.
pub trait MakeMetricObserver: Sized {
    /// What every observer of a metric is made from.
    type Options;

    /// Makes a new observer.
    fn create(options: &Self::Options) -> Self;
}

/// Observers that have a default value are made as that value, from no
/// options.
impl<T: Default> MakeMetricObserver for T {
    type Options = ();

    fn create(_options: &()) -> (r: Self)
        ensures
            call_ensures(T::default, (), r),
    {
        T::default()
    }
}

/// An observer of one set of attributes of a metric.
pub trait MetricObserver: MakeMetricObserver {
    /// What changes the value that this observer reports.
    type Recorder;

    /// The kind of value that observers of this type report.
    fn kind() -> MetricKind;

    /// A handle that changes the value this observer reports.
    fn recorder(&self) -> Self::Recorder;

    /// The value this observer reports now.
    fn observe(&self) -> Observation;
}

/// One step of reporting metrics.
pub enum ReportEvent {
    /// A metric begins, with its name, description and kind.
    Start { name: Seq<char>, description: Seq<char>, kind: MetricKind },
    /// An observation under a set of attributes.
    Observed { attributes: Seq<(Seq<char>, Seq<char>)>, observation: Observation },
    /// The metric ends.
    Finish,
}

/// What metrics are reported to.
pub trait Reporter {
    /// The steps reported so far.
    spec fn events(&self) -> Seq<ReportEvent>;

    /// Begins the report of a metric.
    fn start_metric(&mut self, name: &'static str, description: &'static str, kind: MetricKind)
        ensures
            final(self).events() == old(self).events().push(
                ReportEvent::Start { name: name@, description: description@, kind },
            ),
    ;

    /// Reports one observation of the current metric.
    fn report_observation(&mut self, attributes: &Attributes, observation: Observation)
        ensures
            final(self).events() == old(self).events().push(
                ReportEvent::Observed { attributes: attributes@, observation },
            ),
    ;

    /// Ends the report of the current metric.
    fn finish_metric(&mut self)
        ensures
            final(self).events() == old(self).events().push(ReportEvent::Finish),
    ;
}

/// The observation steps for a sequence of observers under their attributes,
/// given what each observer reported.
pub open spec fn observed_events<T>(
    entries: Seq<(Seq<(Seq<char>, Seq<char>)>, T)>,
    observations: Seq<Observation>,
) -> Seq<ReportEvent> {
    Seq::new(
        entries.len(),
        |i: int| ReportEvent::Observed { attributes: entries[i].0, observation: observations[i] },
    )
}

/// The attributes and observers stored in a metric.
pub open spec fn entry_views<T>(s: Seq<(Attributes, T)>) -> Seq<(Seq<(Seq<char>, Seq<char>)>, T)> {
    s.map_values(|e: (Attributes, T)| (e.0@, e.1))
}

/// The sets of attributes are in strictly ascending order.
pub open spec fn entries_ascending<T>(s: Seq<(Seq<(Seq<char>, Seq<char>)>, T)>) -> bool {
    ascending_by(s, labels_order())
}

/// Sets of attributes in strictly ascending order are unique.
pub proof fn lemma_ascending_entries_unique<T>(s: Seq<(Seq<(Seq<char>, Seq<char>)>, T)>)
    requires
        entries_ascending(s),
    ensures
        unique_keys(s),
{
    lemma_labels_strict_total();
    lemma_ascending_unique(s, labels_order());
}

/// The steps of a report of a metric with the given name, description and
/// kind, whose observers, in ascending order of their attributes, reported
/// `observations`.
pub open spec fn report_events<T>(
    name: Seq<char>,
    description: Seq<char>,
    kind: MetricKind,
    entries: Seq<(Seq<(Seq<char>, Seq<char>)>, T)>,
    observations: Seq<Observation>,
) -> Seq<ReportEvent> {
    seq![ReportEvent::Start { name, description, kind }] + observed_events(entries, observations).push(
        ReportEvent::Finish,
    )
}

/// A report begins with the metric's name, description and kind, exactly as
/// given, then has one observation for each observer, in order, under the
/// observer's attributes and with what it reported, and ends with the end of
/// the metric; nothing else.
pub proof fn lemma_report_events_shape<T>(
    name: Seq<char>,
    description: Seq<char>,
    kind: MetricKind,
    entries: Seq<(Seq<(Seq<char>, Seq<char>)>, T)>,
    observations: Seq<Observation>,
)
    requires
        observations.len() == entries.len(),
    ensures
        report_events(name, description, kind, entries, observations).len() == entries.len() + 2,
        report_events(name, description, kind, entries, observations)[0] == (ReportEvent::Start {
            name,
            description,
            kind,
        }),
        forall|i: int|
            0 <= i < entries.len() ==> #[trigger] report_events(
                name,
                description,
                kind,
                entries,
                observations,
            )[1 + i] == (ReportEvent::Observed {
                attributes: entries[i].0,
                observation: observations[i],
            }),
        report_events(name, description, kind, entries, observations).last() == ReportEvent::Finish,
{
    let e = report_events(name, description, kind, entries, observations);
    let obs = observed_events(entries, observations);
    assert forall|i: int| 0 <= i < entries.len() implies #[trigger] e[1 + i] == ReportEvent::Observed {
        attributes: entries[i].0,
        observation: observations[i],
    } by {
        assert(e[1 + i] == obs.push(ReportEvent::Finish)[i]);
        assert(obs[i] == ReportEvent::Observed { attributes: entries[i].0, observation: observations[i] });
    }
}

/// Whether `observations` are what the observers of `entries` report, one
/// each, in order.
pub open spec fn observed_by<T: MetricObserver>(
    entries: Seq<(Seq<(Seq<char>, Seq<char>)>, T)>,
    observations: Seq<Observation>,
) -> bool {
    &&& observations.len() == entries.len()
    &&& forall|i: int|
        0 <= i < observations.len() ==> call_ensures(
            T::observe,
            (&entries[i].1,),
            #[trigger] observations[i],
        )
}

/// A metric: an observer for each set of attributes that has been used, kept
/// in ascending order of the attributes.
pub struct Metric<T: MetricObserver> {
    name: &'static str,
    description: &'static str,
    options: T::Options,
    values: Vec<(Attributes, T)>,
}

impl<T: MetricObserver> View for Metric<T> {
    type V = Map<Seq<(Seq<char>, Seq<char>)>, T>;

    /// The observer of each set of attributes that has been used.
    open spec fn view(&self) -> Map<Seq<(Seq<char>, Seq<char>)>, T> {
        map_of(self.entries())
    }
}

impl<T: MetricObserver> Metric<T> {
    /// The sets of attributes are kept in strictly ascending order.
    #[verifier::type_invariant]
    closed spec fn attributes_ascending(self) -> bool {
        entries_ascending(entry_views(self.values@))
    }

    /// The sets of attributes and their observers, in ascending order of the
    /// attributes.
    pub closed spec fn entries(&self) -> Seq<(Seq<(Seq<char>, Seq<char>)>, T)> {
        entry_views(self.values@)
    }

    /// The name of the metric.
    pub closed spec fn name_view(&self) -> Seq<char> {
        self.name@
    }

    /// The description of the metric.
    pub closed spec fn description_view(&self) -> Seq<char> {
        self.description@
    }

    /// The options that observers are made from.
    pub closed spec fn options(&self) -> T::Options {
        self.options
    }

    /// A metric with no observer yet.
    pub fn new(name: &'static str, description: &'static str, options: T::Options) -> (r: Self)
        ensures
            r@ == Map::<Seq<(Seq<char>, Seq<char>)>, T>::empty(),
            r.entries().len() == 0,
            r.name_view() == name@,
            r.description_view() == description@,
            r.options() == options,
    {
        let r = Metric { name, description, options, values: Vec::new() };
        assert(r.entries() =~= Seq::empty());
        r
    }

    /// Where `attributes` are, or would be, in the ascending order of the
    /// stored sets of attributes, and whether they are there.
    fn position(&self, attributes: &Attributes) -> (r: (usize, bool))
        ensures
            is_place_of(self.entries(), attributes@, r.0 as int, labels_order()),
            r.1 ==> r.0 < self.entries().len() && self.entries()[r.0 as int].0 == attributes@,
            !r.1 ==> r.0 == self.entries().len() || labels_lt(
                attributes@,
                self.entries()[r.0 as int].0,
            ),
    {
        let n = self.values.len();
        for i in 0..n
            invariant
                n == self.entries().len(),
                is_place_of(self.entries(), attributes@, i as int, labels_order()),
        {
            let c = self.values[i].0.compare(attributes);
            assert(self.entries()[i as int].0 == self.values@[i as int].0@);
            match c {
                Order::Less => {},
                Order::Equal => {
                    return (i, true);
                },
                Order::Greater => {
                    return (i, false);
                },
            }
        }
        (n, false)
    }

    /// A handle that changes the value reported under `attributes`. The
    /// first time a set of attributes is used, its observer is made from the
    /// metric's options and stored where the ascending order of the
    /// attributes puts it; afterwards the same observer is used.
    pub fn recorder(&mut self, attributes: Attributes) -> (r: T::Recorder)
        ensures
            entries_ascending(final(self).entries()),
            final(self)@.dom() == old(self)@.dom().insert(attributes@),
            old(self)@.dom().contains(attributes@) ==> final(self).entries() == old(self).entries(),
            !old(self)@.dom().contains(attributes@) ==> final(self)@ == old(self)@.insert(
                attributes@,
                final(self)@[attributes@],
            ) && call_ensures(T::create, (&old(self).options(),), final(self)@[attributes@])
                && exists|p: int|
                0 <= p <= old(self).entries().len() && final(self).entries() == old(
                    self,
                ).entries().insert(p, (attributes@, final(self)@[attributes@])),
            call_ensures(T::recorder, (&final(self)@[attributes@],), r),
            final(self).name_view() == old(self).name_view(),
            final(self).description_view() == old(self).description_view(),
            final(self).options() == old(self).options(),
    {
        proof {
            use_type_invariant(&*self);
            lemma_ascending_entries_unique(self.entries());
            lemma_map_of_dom(self.entries());
            lemma_map_of_unique(self.entries());
            lemma_labels_strict_total();
        }
        let (p, found) = self.position(&attributes);
        if found {
            proof {
                assert(self@.dom().contains(attributes@));
                assert(self@[self.entries()[p as int].0] == self.entries()[p as int].1);
            }
            self.values[p].1.recorder()
        } else {
            proof {
                lemma_ascending_absent(self.entries(), attributes@, p as int, labels_order());
                assert(!self@.dom().contains(attributes@));
            }
            let observer = T::create(&self.options);
            let mut values: Vec<(Attributes, T)> = Vec::new();
            std::mem::swap(&mut values, &mut self.values);
            let ghost s = entry_views(values@);
            let ghost key = attributes@;
            values.insert(p, (attributes, observer));
            proof {
                lemma_insert_new_key(s, p as int, key, observer);
                lemma_ascending_insert(s, p as int, key, observer, labels_order());
                assert(entry_views(values@) =~= s.insert(p as int, (key, observer)));
            }
            self.values = values;
            proof {
                assert(self.entries()[p as int] == (key, observer));
                assert(self@ == map_of(s).insert(key, observer));
                assert(self@[key] == observer);
            }
            self.values[p].1.recorder()
        }
    }

    /// The observer of `attributes`, if that set of attributes has been used.
    pub fn get_observer(&self, attributes: &Attributes) -> (r: Option<&T>)
        ensures
            r is Some <==> self@.dom().contains(attributes@),
            r matches Some(o) ==> *o == self@[attributes@],
    {
        proof {
            use_type_invariant(self);
            lemma_ascending_entries_unique(self.entries());
            lemma_map_of_dom(self.entries());
            lemma_map_of_unique(self.entries());
        }
        let (p, found) = self.position(attributes);
        if found {
            assert(self@[self.entries()[p as int].0] == self.entries()[p as int].1);
            Some(&self.values[p].1)
        } else {
            proof {
                lemma_labels_strict_total();
                lemma_ascending_absent(self.entries(), attributes@, p as int, labels_order());
            }
            None
        }
    }

    /// Reports the metric: its name, description and kind, then what each of
    /// its observers reports now, under the observer's attributes, in
    /// ascending order of the attributes, each set of attributes once.
    pub fn report<R: Reporter>(&self, reporter: &mut R)
        ensures
            entries_ascending(self.entries()),
            exists|kind: MetricKind, observations: Seq<Observation>|
                {
                    &&& call_ensures(T::kind, (), kind)
                    &&& observed_by(self.entries(), observations)
                    &&& final(reporter).events() == old(reporter).events() + report_events(
                        self.name_view(),
                        self.description_view(),
                        kind,
                        self.entries(),
                        observations,
                    )
                    &&& final(reporter).events().len() == old(reporter).events().len()
                        + self.entries().len() + 2
                    &&& final(reporter).events()[old(reporter).events().len() as int]
                        == (ReportEvent::Start {
                        name: self.name_view(),
                        description: self.description_view(),
                        kind,
                    })
                    &&& forall|i: int|
                        0 <= i < self.entries().len() ==> #[trigger] final(reporter).events()[old(
                            reporter,
                        ).events().len() + 1 + i] == (ReportEvent::Observed {
                            attributes: self.entries()[i].0,
                            observation: observations[i],
                        })
                    &&& final(reporter).events().last() == ReportEvent::Finish
                },
    {
        proof {
            use_type_invariant(self);
        }
        let kind = T::kind();
        reporter.start_metric(self.name, self.description, kind);
        let ghost start = reporter.events();
        let ghost mut observations: Seq<Observation> = Seq::empty();
        let n = self.values.len();
        for i in 0..n
            invariant
                n == self.values.len(),
                observations.len() == i,
                forall|j: int|
                    0 <= j < i ==> call_ensures(
                        T::observe,
                        (&self.entries()[j].1,),
                        #[trigger] observations[j],
                    ),
                reporter.events() == start + observed_events(
                    self.entries().take(i as int),
                    observations,
                ),
        {
            let observation = self.values[i].1.observe();
            reporter.report_observation(&self.values[i].0, observation);
            proof {
                observations = observations.push(observation);
                assert(observed_events(self.entries().take(i + 1), observations) =~= observed_events(
                    self.entries().take(i as int),
                    observations.drop_last(),
                ).push(ReportEvent::Observed { attributes: self.entries()[i as int].0, observation }));
                assert(observations.drop_last() =~= observations.take(i as int));
            }
        }
        reporter.finish_metric();
        assert(self.entries().take(n as int) =~= self.entries());
        assert(reporter.events() =~= old(reporter).events() + report_events(
            self.name_view(),
            self.description_view(),
            kind,
            self.entries(),
            observations,
        ));
        proof {
            lemma_report_events_shape(
                self.name_view(),
                self.description_view(),
                kind,
                self.entries(),
                observations,
            );
            let o = old(reporter).events();
            let e = report_events(
                self.name_view(),
                self.description_view(),
                kind,
                self.entries(),
                observations,
            );
            assert forall|i: int| 0 <= i < self.entries().len() implies #[trigger] reporter.events()[o.len()
                + 1 + i] == ReportEvent::Observed {
                attributes: self.entries()[i].0,
                observation: observations[i],
            } by {
                assert(reporter.events()[o.len() + 1 + i] == e[1 + i]);
            }
            assert(reporter.events()[o.len() as int] == e[0]);
            assert(reporter.events().last() == e.last());
        }
    }
}

/// What `recorder` does to the observers of a metric when called with a set
/// of attributes: the set gains an observer if it had none, and nothing else
/// changes.
pub open spec fn recorder_step<K, T>(before: Map<K, T>, after: Map<K, T>, used: K) -> bool {
    &&& after.dom() == before.dom().insert(used)
    &&& before.dom().contains(used) ==> after == before
    &&& !before.dom().contains(used) ==> after == before.insert(used, after[used])
}

/// Along a history of `recorder` calls on a new metric, the metric after the
/// first `n` calls has an observer for exactly the sets of attributes used
/// by them, each the observer that it was given by the call that first used
/// it.
proof fn lemma_history_prefix<K, T>(states: Seq<Map<K, T>>, used: Seq<K>, n: int)
    requires
        states.len() == used.len() + 1,
        states[0] == Map::<K, T>::empty(),
        forall|i: int|
            0 < i <= used.len() ==> recorder_step(states[i - 1], #[trigger] states[i], used[i - 1]),
        0 <= n <= used.len(),
    ensures
        forall|k: K| #[trigger] states[n].dom().contains(k) <==> used.take(n).contains(k),
        forall|i: int| 0 <= i < n ==> #[trigger] states[n][used[i]] == states[i + 1][used[i]],
    decreases n,
{
    if n > 0 {
        lemma_history_prefix(states, used, n - 1);
        assert(recorder_step(states[n - 1], states[n], used[n - 1]));
        assert(used.take(n) =~= used.take(n - 1).push(used[n - 1]));
        assert forall|k: K| #[trigger] states[n].dom().contains(k) <==> used.take(n).contains(k) by {
            assert(states[n - 1].dom().contains(k) <==> used.take(n - 1).contains(k));
            assert(used.take(n)[n - 1] == used[n - 1]);
            if used.take(n - 1).contains(k) {
                let j = choose|j: int| 0 <= j < n - 1 && #[trigger] used.take(n - 1)[j] == k;
                assert(used.take(n)[j] == k);
            }
            if used.take(n).contains(k) {
                let j = choose|j: int| 0 <= j < n && #[trigger] used.take(n)[j] == k;
                if j < n - 1 {
                    assert(used.take(n - 1)[j] == k);
                }
            }
        }
        assert forall|i: int| 0 <= i < n implies #[trigger] states[n][used[i]] == states[i + 1][used[i]] by {
            if i < n - 1 {
                assert(used.take(n - 1)[i] == used[i]);
                assert(states[n - 1][used[i]] == states[i + 1][used[i]]);
                assert(states[n - 1].dom().contains(used[i]));
            } else {
                assert(states[i + 1] == states[n]);
            }
        }
    } else {
        assert(used.take(0) =~= Seq::<K>::empty());
    }
}

/// Along any history of `recorder` calls on a new metric, the metric has an
/// observer for a set of attributes exactly when some call used that set,
/// and the observer of each set is the one whose recorder the first call with
/// that set returned.
pub proof fn lemma_observers_follow_recorder_calls<K, T>(states: Seq<Map<K, T>>, used: Seq<K>)
    requires
        states.len() == used.len() + 1,
        states[0] == Map::<K, T>::empty(),
        forall|i: int|
            0 < i <= used.len() ==> recorder_step(states[i - 1], #[trigger] states[i], used[i - 1]),
    ensures
        forall|k: K| #[trigger] states.last().dom().contains(k) <==> used.contains(k),
        forall|i: int|
            0 <= i < used.len() ==> #[trigger] states.last()[used[i]] == states[i + 1][used[i]],
{
    lemma_history_prefix(states, used, used.len() as int);
    assert(used.take(used.len() as int) =~= used);
}

/// Two reports of a metric, with no recording in between, send the same
/// steps, as long as the kind and the observations of its observers are
/// determined: `report` changes no observer.
pub proof fn lemma_reports_agree<T: MetricObserver>(
    m: Metric<T>,
    kind1: MetricKind,
    observations1: Seq<Observation>,
    kind2: MetricKind,
    observations2: Seq<Observation>,
)
    requires
        forall|a: MetricKind, b: MetricKind|
            #[trigger] call_ensures(T::kind, (), a) && #[trigger] call_ensures(T::kind, (), b) ==> a
                == b,
        forall|x: T, a: Observation, b: Observation|
            #[trigger] call_ensures(T::observe, (&x,), a) && #[trigger] call_ensures(
                T::observe,
                (&x,),
                b,
            ) ==> a == b,
        call_ensures(T::kind, (), kind1),
        call_ensures(T::kind, (), kind2),
        observed_by(m.entries(), observations1),
        observed_by(m.entries(), observations2),
    ensures
        report_events(m.name_view(), m.description_view(), kind1, m.entries(), observations1)
            == report_events(m.name_view(), m.description_view(), kind2, m.entries(), observations2),
{
    assert forall|i: int| 0 <= i < observations1.len() implies observations1[i] == observations2[i] by {
        assert(call_ensures(T::observe, (&m.entries()[i].1,), observations1[i]));
        assert(call_ensures(T::observe, (&m.entries()[i].1,), observations2[i]));
    }
    assert(observations1 =~= observations2);
}

/// A step of a report, as a reporter keeps it.
pub enum RecordedEvent {
    Start { name: &'static str, description: &'static str, kind: MetricKind },
    Observed { attributes: Attributes, observation: Observation },
    Finish,
}

/// The step of a report that a kept step stands for.
pub open spec fn recorded_view(e: RecordedEvent) -> ReportEvent {
    match e {
        RecordedEvent::Start { name, description, kind } => ReportEvent::Start {
            name: name@,
            description: description@,
            kind,
        },
        RecordedEvent::Observed { attributes, observation } => ReportEvent::Observed {
            attributes: attributes@,
            observation,
        },
        RecordedEvent::Finish => ReportEvent::Finish,
    }
}

/// A reporter that keeps every step reported to it, in order.
pub struct RawReporter {
    recorded: Vec<RecordedEvent>,
}

impl RawReporter {
    /// A reporter to which nothing has been reported.
    pub fn new() -> (r: Self)
        ensures
            r.events() == Seq::<ReportEvent>::empty(),
    {
        let r = RawReporter { recorded: Vec::new() };
        assert(r.recorded@.map_values(|e: RecordedEvent| recorded_view(e)) =~= Seq::empty());
        r
    }

    /// The steps reported so far, in order.
    pub fn recorded(&self) -> (r: &Vec<RecordedEvent>)
        ensures
            r@.map_values(|e: RecordedEvent| recorded_view(e)) == self.events(),
    {
        &self.recorded
    }

    /// Keeps one more step.
    fn keep(&mut self, e: RecordedEvent)
        ensures
            final(self).events() == old(self).events().push(recorded_view(e)),
    {
        self.recorded.push(e);
        assert(self.recorded@.map_values(|e: RecordedEvent| recorded_view(e)) =~= old(
            self,
        ).recorded@.map_values(|e: RecordedEvent| recorded_view(e)).push(recorded_view(e)));
    }
}

impl Reporter for RawReporter {
    closed spec fn events(&self) -> Seq<ReportEvent> {
        self.recorded@.map_values(|e: RecordedEvent| recorded_view(e))
    }

    fn start_metric(&mut self, name: &'static str, description: &'static str, kind: MetricKind) {
        self.keep(RecordedEvent::Start { name, description, kind });
    }

    fn report_observation(&mut self, attributes: &Attributes, observation: Observation) {
        self.keep(RecordedEvent::Observed { attributes: attributes.duplicate(), observation });
    }

    fn finish_metric(&mut self) {
        self.keep(RecordedEvent::Finish);
    }
}

} // verus!
