//! Synthesis of the output profile: value-change events become samples,
//! strings become table ids, and the envelope fields are assembled once per
//! run.
//!
//! The builder owns the run's string table and the growing sample sequence.
//! Every sample carries three labels — the signal's display name, its scope
//! path joined into one display string, and the raw value text — all as
//! string-table ids. Finalizing consumes the builder, so no interning can
//! happen after the table projection is attached to the envelope.

use crate::hierarchy::SignalMetadata;
use crate::string_table::{id_model, intern_model, lemma_intern_preserves_ids, lemma_intern_resolves, StringTable};
use vstd::prelude::*;
use vstd::string::StringExecFns;

verus! {

/// String-table id of the label key naming the signal.
pub const KEY_SIGNAL: i64 = 3;

/// String-table id of the label key naming the joined scope path.
pub const KEY_MODULE: i64 = 4;

/// String-table id of the label key carrying the raw value text.
pub const KEY_VALUE: i64 = 5;

/// A sample's or period's declared type: two string-table ids.
#[derive(Debug, Clone, Copy, PartialEq, Eq, Structural)]
pub struct ValueType {
    pub kind: i64,
    pub unit: i64,
}

/// One key/value annotation on a sample; all string-valued fields are
/// string-table ids.
#[derive(Debug, Clone, Copy, PartialEq, Eq, Structural)]
pub struct Label {
    pub key: i64,
    pub str_id: i64,
    pub num: i64,
    pub num_unit: i64,
}

/// One emitted sample: a numeric value and its labels.
#[derive(Debug, Clone, PartialEq, Eq)]
pub struct Sample {
    pub value: i64,
    pub label: Vec<Label>,
}

/// A signal's value at one point of simulated time, as the decoder hands it
/// over: either a textual encoding (e.g. multi-valued logic), or a real
/// value reduced to its display text and an integral magnitude.
#[derive(Debug, Clone, PartialEq, Eq)]
pub enum SignalValue {
    Text(String),
    Real { text: String, magnitude: i64 },
}

/// One value-change event of the filtered replay.
#[derive(Debug, Clone, PartialEq, Eq)]
pub struct ValueChangeEvent {
    pub time: u64,
    pub handle: u64,
    pub value: SignalValue,
}

/// The assembled output profile: envelope fields, samples, and the string
/// table, with index 0 holding the empty string.
#[derive(Debug, Clone, PartialEq, Eq)]
pub struct Profile {
    pub time_nanos: i64,
    pub duration_nanos: i64,
    pub period: i64,
    pub period_type: Option<ValueType>,
    pub sample_type: Vec<ValueType>,
    pub sample: Vec<Sample>,
    pub string_table: Vec<String>,
}

/// The numeric magnitude a sample records for a value: textual encodings
/// count as one observation, real values contribute their magnitude.
pub open spec fn sample_value_model(v: SignalValue) -> int {
    match v {
        SignalValue::Text(_) => 1,
        SignalValue::Real { magnitude, .. } => magnitude as int,
    }
}

/// The raw value text attached to a sample as a label.
pub open spec fn value_text_model(v: SignalValue) -> Seq<char> {
    match v {
        SignalValue::Text(t) => t@,
        SignalValue::Real { text, .. } => text@,
    }
}

/// A scope path joined into one display string with `.` between the parts.
pub open spec fn join_model(parts: Seq<Seq<char>>) -> Seq<char>
    decreases parts.len(),
{
    if parts.len() == 0 {
        Seq::empty()
    } else if parts.len() == 1 {
        parts[0]
    } else {
        join_model(parts.drop_last()) + seq!['.'] + parts.last()
    }
}

/// The string table a fresh builder starts from: the reserved empty string,
/// the period/sample type strings, and the three label keys.
pub open spec fn base_table() -> Seq<Seq<char>> {
    seq![Seq::<char>::empty(), "cycle"@, "number"@, "signal"@, "module"@, "value"@]
}

proof fn lemma_seq_ne_len(a: Seq<char>, b: Seq<char>)
    requires
        a.len() != b.len(),
    ensures
        a != b,
{
}

proof fn lemma_seq_ne_at(a: Seq<char>, b: Seq<char>, i: int)
    requires
        0 <= i < a.len(),
        0 <= i < b.len(),
        a[i] != b[i],
    ensures
        a != b,
{
}

/// The numeric value a sample records for `v`.
fn sample_value(v: &SignalValue) -> (r: i64)
    ensures
        r as int == sample_value_model(*v),
{
    match v {
        SignalValue::Text(_) => 1,
        SignalValue::Real { magnitude, .. } => *magnitude,
    }
}

/// The raw value text of `v`.
fn value_text(v: &SignalValue) -> (r: String)
    ensures
        r@ == value_text_model(*v),
{
    match v {
        SignalValue::Text(t) => t.clone(),
        SignalValue::Real { text, .. } => text.clone(),
    }
}

/// Join a scope path into one display string, `.`-separated.
pub fn join_path(parts: &Vec<String>) -> (r: String)
    ensures
        r@ == join_model(parts.deep_view()),
{
    proof {
        reveal_strlit(".");
    }
    let mut r = String::new();
    let n = parts.len();
    for i in 0..n
        invariant
            n == parts@.len(),
            r@ == join_model(parts.deep_view().subrange(0, i as int)),
    {
        if i > 0 {
            r.append(".");
        }
        r.append(parts[i].as_str());
        proof {
            reveal_strlit(".");
            let pre = parts.deep_view().subrange(0, i as int);
            let cur = parts.deep_view().subrange(0, i as int + 1);
            assert(cur.drop_last() =~= pre);
            assert(cur.last() == parts.deep_view()[i as int]);
            if i == 0 {
                assert(r@ =~= cur[0]);
            } else {
                assert("."@ =~= seq!['.']);
                assert(r@ =~= join_model(pre) + seq!['.'] + cur.last());
            }
        }
    }
    proof {
        assert(parts.deep_view().subrange(0, n as int) =~= parts.deep_view());
    }
    r
}

/// Index of `h` among `handles`, if present.
fn find_handle(handles: &Vec<u64>, h: u64) -> (r: Option<usize>)
    ensures
        match r {
            Some(i) => i < handles@.len() && handles@[i as int] == h,
            None => !handles@.contains(h),
        },
{
    let n = handles.len();
    for i in 0..n
        invariant
            n == handles@.len(),
            forall|j: int| 0 <= j < i ==> handles@[j] != h,
    {
        if handles[i] == h {
            return Some(i);
        }
    }
    None
}

/// Accumulates the profile for one extraction run: the envelope fields, the
/// owned string table, and the samples in replay order.
#[derive(Debug)]
pub struct ProfileBuilder {
    pub strings: StringTable,
    pub samples: Vec<Sample>,
    pub time_nanos: i64,
    pub duration_nanos: i64,
    pub period: i64,
    pub period_type: ValueType,
    pub sample_type: ValueType,
}

impl ProfileBuilder {
    /// Well-formedness: the owned string table is well-formed.
    pub open spec fn wf(&self) -> bool {
        self.strings.wf()
    }

    /// A fresh builder for a trace spanning `start_time..end_time`: total
    /// duration is the difference of the two header times, the sampling
    /// period is one unit, and period and sample type are declared as
    /// "cycle"/"number" via string-table ids.
    pub fn new(start_time: u64, end_time: u64) -> (r: Self)
        requires
            start_time <= end_time,
            end_time - start_time <= i64::MAX,
        ensures
            r.wf(),
            r.strings@ =~= base_table(),
            r.samples@ =~= Seq::<Sample>::empty(),
            r.time_nanos == 10000,
            r.duration_nanos == end_time - start_time,
            r.period == 1,
            r.period_type == (ValueType { kind: 1, unit: 2 }),
            r.sample_type == (ValueType { kind: 1, unit: 2 }),
    {
        let mut strings = StringTable::new();
        proof {
            reveal_strlit("cycle");
            lemma_seq_ne_len(strings@[0], "cycle"@);
            assert(!strings@.contains("cycle"@));
        }
        let cycle_id = strings.id("cycle");
        proof {
            assert(strings@ =~= seq![Seq::<char>::empty(), "cycle"@]);
            assert(cycle_id == 1);
            reveal_strlit("cycle");
            reveal_strlit("number");
            lemma_seq_ne_len(strings@[0], "number"@);
            lemma_seq_ne_len(strings@[1], "number"@);
            assert(!strings@.contains("number"@));
        }
        let number_id = strings.id("number");
        proof {
            assert(strings@ =~= seq![Seq::<char>::empty(), "cycle"@, "number"@]);
            assert(number_id == 2);
            reveal_strlit("cycle");
            reveal_strlit("number");
            reveal_strlit("signal");
            lemma_seq_ne_len(strings@[0], "signal"@);
            lemma_seq_ne_len(strings@[1], "signal"@);
            lemma_seq_ne_at(strings@[2], "signal"@, 0);
            assert(!strings@.contains("signal"@));
        }
        let signal_id = strings.id("signal");
        proof {
            assert(strings@ =~= seq![Seq::<char>::empty(), "cycle"@, "number"@, "signal"@]);
            assert(signal_id == KEY_SIGNAL);
            reveal_strlit("cycle");
            reveal_strlit("number");
            reveal_strlit("signal");
            reveal_strlit("module");
            lemma_seq_ne_len(strings@[0], "module"@);
            lemma_seq_ne_len(strings@[1], "module"@);
            lemma_seq_ne_at(strings@[2], "module"@, 0);
            lemma_seq_ne_at(strings@[3], "module"@, 0);
            assert(!strings@.contains("module"@));
        }
        let module_id = strings.id("module");
        proof {
            assert(strings@ =~= seq![
                Seq::<char>::empty(),
                "cycle"@,
                "number"@,
                "signal"@,
                "module"@,
            ]);
            assert(module_id == KEY_MODULE);
            reveal_strlit("cycle");
            reveal_strlit("number");
            reveal_strlit("signal");
            reveal_strlit("module");
            reveal_strlit("value");
            lemma_seq_ne_len(strings@[0], "value"@);
            lemma_seq_ne_at(strings@[1], "value"@, 0);
            lemma_seq_ne_len(strings@[2], "value"@);
            lemma_seq_ne_len(strings@[3], "value"@);
            lemma_seq_ne_len(strings@[4], "value"@);
            assert(!strings@.contains("value"@));
        }
        let value_id = strings.id("value");
        proof {
            assert(strings@ =~= base_table());
            assert(value_id == KEY_VALUE);
        }
        let duration = (end_time - start_time) as i64;
        ProfileBuilder {
            strings,
            samples: Vec::new(),
            time_nanos: 10000,
            duration_nanos: duration,
            period: 1,
            period_type: ValueType { kind: cycle_id, unit: number_id },
            sample_type: ValueType { kind: cycle_id, unit: number_id },
        }
    }

    /// Attach the string-table projection and hand out the finished profile.
    /// The builder is consumed, so the table is frozen from here on.
    pub fn finalize(self) -> (p: Profile)
        ensures
            p.time_nanos == self.time_nanos,
            p.duration_nanos == self.duration_nanos,
            p.period == self.period,
            p.period_type == Some(self.period_type),
            p.sample_type@ =~= seq![self.sample_type],
            p.sample@ == self.samples@,
            p.string_table.deep_view() == self.strings@,
    {
        let ProfileBuilder { strings, samples, time_nanos, duration_nanos, period, period_type, sample_type } =
            self;
        let string_table = strings.to_string_table();
        let mut sample_types: Vec<ValueType> = Vec::new();
        sample_types.push(sample_type);
        proof {
            assert(sample_types@ =~= seq![sample_type]);
        }
        Profile {
            time_nanos,
            duration_nanos,
            period,
            period_type: Some(period_type),
            sample_type: sample_types,
            sample: samples,
            string_table,
        }
    }
}


/// The events of `events` whose handle is among `handles`, in replay order:
/// exactly the events a sample is emitted for.
pub open spec fn matching_events(handles: Seq<u64>, events: Seq<ValueChangeEvent>) -> Seq<
    ValueChangeEvent,
>
    decreases events.len(),
{
    if events.len() == 0 {
        Seq::empty()
    } else {
        let rest = matching_events(handles, events.drop_last());
        if handles.contains(events.last().handle) {
            rest.push(events.last())
        } else {
            rest
        }
    }
}

/// What an emitted sample must say, judged against a string table `t`: its
/// value is the event's magnitude, and its three labels resolve through `t`
/// to the signal's display name, its joined scope path, and the raw value
/// text.
pub open spec fn sample_resolves(
    t: Seq<Seq<char>>,
    s: Sample,
    md: SignalMetadata,
    ev: ValueChangeEvent,
) -> bool {
    let i = md.handles().index_of(ev.handle);
    &&& s.value as int == sample_value_model(ev.value)
    &&& s.label@.len() == 3
    &&& forall|k: int|
        0 <= k < 3 ==> 0 <= #[trigger] s.label@[k].str_id < t.len() && s.label@[k].num == 0
            && s.label@[k].num_unit == 0
    &&& s.label@[0].key == KEY_SIGNAL
    &&& s.label@[1].key == KEY_MODULE
    &&& s.label@[2].key == KEY_VALUE
    &&& t[s.label@[0].str_id as int] == md.names_model()[i]
    &&& t[s.label@[1].str_id as int] == join_model(md.paths_model()[i])
    &&& t[s.label@[2].str_id as int] == value_text_model(ev.value)
}

proof fn lemma_prefix_transitive(a: Seq<Seq<char>>, b: Seq<Seq<char>>, c: Seq<Seq<char>>)
    requires
        a.is_prefix_of(b),
        b.is_prefix_of(c),
    ensures
        a.is_prefix_of(c),
{
    assert(a =~= c.subrange(0, a.len() as int));
}

impl ProfileBuilder {
    /// Record one value-change event: when its handle was resolved, intern
    /// the signal's display name, its joined scope path and the raw value
    /// text, and append one sample carrying the event's magnitude and those
    /// three labels; an event whose handle was not resolved leaves the
    /// builder untouched.
    pub fn add_event(&mut self, md: &SignalMetadata, ev: &ValueChangeEvent)
        requires
            old(self).wf(),
            md.wf(),
            old(self).strings@.len() + 3 <= i64::MAX,
        ensures
            final(self).wf(),
            final(self).time_nanos == old(self).time_nanos,
            final(self).duration_nanos == old(self).duration_nanos,
            final(self).period == old(self).period,
            final(self).period_type == old(self).period_type,
            final(self).sample_type == old(self).sample_type,
            old(self).strings@.is_prefix_of(final(self).strings@),
            final(self).strings@.len() <= old(self).strings@.len() + 3,
            !md.handles().contains(ev.handle) ==> *final(self) == *old(self),
            md.handles().contains(ev.handle) ==> ({
                let i = md.handles().index_of(ev.handle);
                let name = md.names_model()[i];
                let joined = join_model(md.paths_model()[i]);
                let text = value_text_model(ev.value);
                let t0 = old(self).strings@;
                let t1 = intern_model(t0, name);
                let t2 = intern_model(t1, joined);
                let t3 = intern_model(t2, text);
                &&& final(self).strings@ == t3
                &&& final(self).samples@.len() == old(self).samples@.len() + 1
                &&& final(self).samples@.drop_last() =~= old(self).samples@
                &&& final(self).samples@.last().label@ =~= seq![
                    (Label {
                        key: KEY_SIGNAL,
                        str_id: id_model(t0, name) as i64,
                        num: 0,
                        num_unit: 0,
                    }),
                    (Label {
                        key: KEY_MODULE,
                        str_id: id_model(t1, joined) as i64,
                        num: 0,
                        num_unit: 0,
                    }),
                    (Label {
                        key: KEY_VALUE,
                        str_id: id_model(t2, text) as i64,
                        num: 0,
                        num_unit: 0,
                    }),
                ]
                &&& sample_resolves(final(self).strings@, final(self).samples@.last(), *md, *ev)
            }),
    {
        let found = find_handle(&md.handle, ev.handle);
        match found {
            None => {
                proof {
                    assert(self.strings@ =~= self.strings@.subrange(
                        0,
                        self.strings@.len() as int,
                    ));
                }
            },
            Some(i) => {
                proof {
                    assert(md.handles()[i as int] == ev.handle);
                    assert(md.handles().contains(ev.handle));
                    let k = md.handles().index_of(ev.handle);
                    assert(0 <= k < md.handles().len() && md.handles()[k] == ev.handle);
                    assert(k == i as int);
                    assert(md.names@[i as int]@ == md.names_model()[i as int]);
                    assert(md.module_paths@[i as int].deep_view() == md.paths_model()[i as int]);
                }
                let ghost t0 = self.strings@;
                let name_id = self.strings.id(md.names[i].as_str());
                let ghost t1 = self.strings@;
                let joined = join_path(&md.module_paths[i]);
                let module_id = self.strings.id(joined.as_str());
                let ghost t2 = self.strings@;
                let text = value_text(&ev.value);
                let text_id = self.strings.id(text.as_str());
                let ghost t3 = self.strings@;
                let v = sample_value(&ev.value);
                let mut label: Vec<Label> = Vec::new();
                label.push(Label { key: KEY_SIGNAL, str_id: name_id, num: 0, num_unit: 0 });
                label.push(Label { key: KEY_MODULE, str_id: module_id, num: 0, num_unit: 0 });
                label.push(Label { key: KEY_VALUE, str_id: text_id, num: 0, num_unit: 0 });
                let ghost lbl = label@;
                let ghost sb = self.samples@;
                self.samples.push(Sample { value: v, label });
                proof {
                    let name = md.names_model()[i as int];
                    let joined_m = join_model(md.paths_model()[i as int]);
                    let text_m = value_text_model(ev.value);
                    lemma_intern_preserves_ids(t0, name);
                    lemma_intern_preserves_ids(t1, joined_m);
                    lemma_intern_preserves_ids(t2, text_m);
                    lemma_prefix_transitive(t0, t1, t2);
                    lemma_prefix_transitive(t0, t2, t3);
                    lemma_intern_resolves(t0, name);
                    lemma_intern_resolves(t1, joined_m);
                    lemma_intern_resolves(t2, text_m);
                    assert(self.samples@.drop_last() =~= sb);
                    assert(self.samples@.last().label@ =~= seq![
                        (Label {
                            key: KEY_SIGNAL,
                            str_id: id_model(t0, name) as i64,
                            num: 0,
                            num_unit: 0,
                        }),
                        (Label {
                            key: KEY_MODULE,
                            str_id: id_model(t1, joined_m) as i64,
                            num: 0,
                            num_unit: 0,
                        }),
                        (Label {
                            key: KEY_VALUE,
                            str_id: id_model(t2, text_m) as i64,
                            num: 0,
                            num_unit: 0,
                        }),
                    ]);
                    assert(t3[id_model(t0, name) as int] == name);
                    assert(t3[id_model(t1, joined_m) as int] == joined_m);
                    assert(t3[id_model(t2, text_m) as int] == text_m);
                    assert(sample_resolves(t3, self.samples@.last(), *md, *ev));
                }
            },
        }
    }

    /// Replay a filtered, time-ordered event stream into samples: one
    /// sample per event whose handle was resolved, appended in replay
    /// order; events with unresolved handles contribute nothing. Every
    /// emitted sample's labels resolve through the final string table to
    /// the matching event's signal name, joined scope path and value text.
    pub fn collect_samples(&mut self, md: &SignalMetadata, events: &Vec<ValueChangeEvent>)
        requires
            old(self).wf(),
            md.wf(),
            old(self).strings@.len() + 3 * events@.len() <= i64::MAX,
        ensures
            final(self).wf(),
            final(self).time_nanos == old(self).time_nanos,
            final(self).duration_nanos == old(self).duration_nanos,
            final(self).period == old(self).period,
            final(self).period_type == old(self).period_type,
            final(self).sample_type == old(self).sample_type,
            old(self).strings@.is_prefix_of(final(self).strings@),
            final(self).samples@.len() == old(self).samples@.len() + matching_events(
                md.handles(),
                events@,
            ).len(),
            forall|k: int|
                0 <= k < old(self).samples@.len() ==> final(self).samples@[k] == old(
                    self,
                ).samples@[k],
            forall|k: int|
                old(self).samples@.len() <= k < final(self).samples@.len() ==> sample_resolves(
                    final(self).strings@,
                    #[trigger] final(self).samples@[k],
                    *md,
                    matching_events(md.handles(), events@)[k - old(self).samples@.len()],
                ),
    {
        let n = events.len();
        for j in 0..n
            invariant
                n == events@.len(),
                md.wf(),
                self.wf(),
                self.time_nanos == old(self).time_nanos,
                self.duration_nanos == old(self).duration_nanos,
                self.period == old(self).period,
                self.period_type == old(self).period_type,
                self.sample_type == old(self).sample_type,
                self.strings@.len() + 3 * (n - j) <= i64::MAX,
                old(self).strings@.is_prefix_of(self.strings@),
                self.samples@.len() == old(self).samples@.len() + matching_events(
                    md.handles(),
                    events@.subrange(0, j as int),
                ).len(),
                forall|k: int|
                    0 <= k < old(self).samples@.len() ==> self.samples@[k] == old(
                        self,
                    ).samples@[k],
                forall|k: int|
                    old(self).samples@.len() <= k < self.samples@.len() ==> sample_resolves(
                        self.strings@,
                        #[trigger] self.samples@[k],
                        *md,
                        matching_events(md.handles(), events@.subrange(0, j as int))[k - old(
                            self,
                        ).samples@.len()],
                    ),
        {
            let ghost h = md.handles();
            let ghost pre = matching_events(h, events@.subrange(0, j as int));
            let ghost tb = self.strings@;
            let ghost sb = self.samples@;
            self.add_event(md, &events[j]);
            proof {
                let cur = events@.subrange(0, j as int + 1);
                assert(cur.drop_last() =~= events@.subrange(0, j as int));
                assert(cur.last() == events@[j as int]);
                lemma_prefix_transitive(old(self).strings@, tb, self.strings@);
                assert(forall|x: int| 0 <= x < tb.len() ==> self.strings@[x] == tb[x]);
                if h.contains(events@[j as int].handle) {
                    assert(matching_events(h, cur) =~= pre.push(events@[j as int]));
                    assert(self.samples@.drop_last() =~= sb);
                    assert(forall|k: int| 0 <= k < sb.len() ==> self.samples@[k] == sb[k]);
                } else {
                    assert(matching_events(h, cur) =~= pre);
                }
                assert forall|k: int|
                    old(self).samples@.len() <= k < self.samples@.len() implies sample_resolves(
                        self.strings@,
                        #[trigger] self.samples@[k],
                        *md,
                        matching_events(h, cur)[k - old(self).samples@.len()],
                    ) by {
                    if k < sb.len() {
                        assert(self.samples@[k] == sb[k]);
                        assert(sample_resolves(tb, sb[k], *md, pre[k - old(self).samples@.len()]));
                    } else {
                        assert(k == self.samples@.len() - 1);
                        assert(self.samples@[k] == self.samples@.last());
                    }
                };
            }
        }
        proof {
            assert(events@.subrange(0, n as int) =~= events@);
        }
    }
}

/// Positions, in ascending replay order, of the events that match.
pub open spec fn matching_indices(handles: Seq<u64>, events: Seq<ValueChangeEvent>) -> Seq<int>
    decreases events.len(),
{
    if events.len() == 0 {
        Seq::empty()
    } else {
        let rest = matching_indices(handles, events.drop_last());
        if handles.contains(events.last().handle) {
            rest.push(events.len() - 1)
        } else {
            rest
        }
    }
}

/// The emitted samples follow the replay: the k-th matching event sits at
/// the k-th of a strictly increasing sequence of replay positions, so the
/// filtering that selects them preserves the stream's relative order.
pub proof fn lemma_matching_is_subsequence(handles: Seq<u64>, events: Seq<ValueChangeEvent>)
    ensures
        matching_indices(handles, events).len() == matching_events(handles, events).len(),
        forall|k: int|
            0 <= k < matching_indices(handles, events).len() ==> 0 <= #[trigger] matching_indices(
                handles,
                events,
            )[k] < events.len(),
        forall|k: int|
            0 <= k < matching_indices(handles, events).len() ==> #[trigger] matching_events(
                handles,
                events,
            )[k] == events[matching_indices(handles, events)[k]],
        forall|a: int, b: int|
            #![trigger matching_indices(handles, events)[a], matching_indices(handles, events)[b]]
            0 <= a < b < matching_indices(handles, events).len() ==> matching_indices(
                handles,
                events,
            )[a] < matching_indices(handles, events)[b],
    decreases events.len(),
{
    if events.len() > 0 {
        lemma_matching_is_subsequence(handles, events.drop_last());
        let rest = events.drop_last();
        assert(forall|x: int| 0 <= x < rest.len() ==> rest[x] == events[x]);
    }
}

/// Sample ordering: when the replay's timestamps are non-decreasing, the
/// matching events — followed one-for-one, in order, by the emitted
/// samples — carry non-decreasing timestamps as well.
pub proof fn lemma_sample_order(handles: Seq<u64>, events: Seq<ValueChangeEvent>)
    requires
        forall|a: int, b: int|
            #![trigger events[a], events[b]]
            0 <= a <= b < events.len() ==> events[a].time <= events[b].time,
    ensures
        forall|a: int, b: int|
            #![trigger matching_events(handles, events)[a], matching_events(handles, events)[b]]
            0 <= a <= b < matching_events(handles, events).len() ==> matching_events(
                handles,
                events,
            )[a].time <= matching_events(handles, events)[b].time,
{
    lemma_matching_is_subsequence(handles, events);
    let mi = matching_indices(handles, events);
    let me = matching_events(handles, events);
    assert forall|a: int, b: int|
        #![trigger me[a], me[b]]
        0 <= a <= b < me.len() implies me[a].time <= me[b].time by {
        if a < b {
            assert(mi[a] < mi[b]);
        }
        assert(me[a] == events[mi[a]]);
        assert(me[b] == events[mi[b]]);
        assert(events[mi[a]].time <= events[mi[b]].time);
    };
}

} // verus!

