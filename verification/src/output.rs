//! Carbon metric naming and line formatting.

use vstd::prelude::*;
use vstd::string::StrSliceExecFns;
use vstd::string::StringExecFns;
use vstd::arithmetic::mul::lemma_mul_upper_bound;
use vstd::multiset::Multiset;

use crate::text::push_char;
use crate::text::spec_digits;
use crate::text::spec_decimal;
use crate::text::push_decimal_u64;
use crate::config::NameMap;
use crate::mib::split_symbolic;
use crate::mib::spec_symbol_wf;
use crate::mib::spec_symbol_of;
use crate::snmp::VarBind;
use crate::snmp::VarBindView;
use crate::snmp::oid_eq;
use crate::snmp::spec_value_string;
use crate::snmp::spec_numeric;
use crate::snmp::var_numeric_value_to_string;
use crate::snmp::numeric_to_decimal;
use crate::stat_result::SnmpStatResult;

verus! {

/// How one character is rewritten for a Carbon metric path: `'-'`
/// becomes `'_'`, `'.'` becomes `"__"`, `'/'` becomes `'_'`, and every
/// other character stays.
pub open spec fn sanitize_char(c: char) -> Seq<char> {
    if c == '-' {
        seq!['_']
    } else if c == '.' {
        seq!['_', '_']
    } else if c == '/' {
        seq!['_']
    } else {
        seq![c]
    }
}

/// The sanitizer over a whole string.
pub open spec fn spec_sanitize(s: Seq<char>) -> Seq<char>
    decreases s.len(),
{
    if s.len() == 0 {
        Seq::empty()
    } else {
        spec_sanitize(s.drop_last()) + sanitize_char(s.last())
    }
}

/// Replaces `'-'` with `'_'`, then `'.'` with `"__"`, then `'/'` with
/// `'_'`. The three passes touch disjoint characters and only ever
/// introduce `'_'`, so they equal this single pass.
pub fn sanitize_carbon(s: &str) -> (r: String)
    ensures
        r@ == spec_sanitize(s@),
{
    let n = s.unicode_len();
    let mut out = String::new();
    let mut i: usize = 0;
    while i < n
        invariant
            i <= n,
            n == s@.len(),
            out@ == spec_sanitize(s@.subrange(0, i as int)),
        decreases n - i,
    {
        let c = s.get_char(i);
        if c == '-' {
            push_char(&mut out, '_');
        } else if c == '.' {
            push_char(&mut out, '_');
            push_char(&mut out, '_');
        } else if c == '/' {
            push_char(&mut out, '_');
        } else {
            push_char(&mut out, c);
        }
        proof {
            let pre = s@.subrange(0, i as int);
            let cur = s@.subrange(0, i + 1 as int);
            assert(cur.drop_last() =~= pre);
            assert(cur.last() == s@[i as int]);
            assert(out@ =~= spec_sanitize(pre) + sanitize_char(s@[i as int]));
        }
        i += 1;
    }
    proof {
        assert(s@.subrange(0, n as int) =~= s@);
    }
    out
}

/// No character of `s` is rewritten by the sanitizer.
pub open spec fn sanitize_clean(s: Seq<char>) -> bool {
    forall|i: int| 0 <= i < s.len() ==> s[i] != '-' && s[i] != '.' && s[i] != '/'
}

/// The sanitizer leaves a string without `'-'`, `'.'` or `'/'` as it is.
pub proof fn lemma_sanitize_clean_identity(s: Seq<char>)
    requires
        sanitize_clean(s),
    ensures
        spec_sanitize(s) == s,
    decreases s.len(),
{
    if s.len() == 0 {
        assert(spec_sanitize(s) =~= s);
    } else {
        assert(sanitize_clean(s.drop_last()));
        lemma_sanitize_clean_identity(s.drop_last());
        assert(spec_sanitize(s) =~= s.drop_last() + seq![s.last()]);
        assert(s.drop_last() + seq![s.last()] =~= s);
    }
}

/// The sanitizer's output holds no `'-'`, `'.'` or `'/'`.
pub proof fn lemma_sanitize_output_clean(s: Seq<char>)
    ensures
        sanitize_clean(spec_sanitize(s)),
    decreases s.len(),
{
    if s.len() == 0 {
    } else {
        lemma_sanitize_output_clean(s.drop_last());
    }
}

/// Sanitizing twice is the same as sanitizing once.
pub proof fn lemma_sanitize_idempotent(s: Seq<char>)
    ensures
        spec_sanitize(spec_sanitize(s)) == spec_sanitize(s),
{
    lemma_sanitize_output_clean(s);
    lemma_sanitize_clean_identity(spec_sanitize(s));
}

/// The Carbon key for one reading: sanitized device name, sanitized
/// per-row instance string, and the value column's symbol (already a
/// legal identifier, left untouched).
pub open spec fn spec_format_key(
    device: Seq<char>,
    variable_part: Seq<char>,
    metric_name: Seq<char>,
) -> Seq<char> {
    spec_sanitize(device) + seq!['.'] + spec_sanitize(variable_part) + seq!['.'] + metric_name
}

/// Builds the Carbon key `device.instance.column`, sanitizing the
/// first two parts.
pub fn format_key(device_name: &str, variable_part: &str, metric_name: &str) -> (r: String)
    ensures
        r@ == spec_format_key(device_name@, variable_part@, metric_name@),
{
    let mut s = sanitize_carbon(device_name);
    push_char(&mut s, '.');
    let middle = sanitize_carbon(variable_part);
    s.append(middle.as_str());
    push_char(&mut s, '.');
    s.append(metric_name);
    proof {
        assert(s@ =~= spec_format_key(device_name@, variable_part@, metric_name@));
    }
    s
}

/// One Carbon line, without its trailing newline: prefixed metric
/// path, value, and the timestamp in whole seconds since the epoch.
pub open spec fn spec_format_carbon(
    prefix: Seq<char>,
    metric: Seq<char>,
    value: Seq<char>,
    timestamp: u64,
) -> Seq<char> {
    prefix + seq!['.'] + metric + seq![' '] + value + seq![' '] + spec_digits(timestamp as nat)
}

/// Renders one Carbon line (the caller appends the newline on write).
pub fn format_carbon(prefix: &str, metric: &str, value: &str, timestamp: u64) -> (r: String)
    ensures
        r@ == spec_format_carbon(prefix@, metric@, value@, timestamp),
{
    let mut s = prefix.to_owned();
    push_char(&mut s, '.');
    s.append(metric);
    push_char(&mut s, ' ');
    s.append(value);
    push_char(&mut s, ' ');
    push_decimal_u64(&mut s, timestamp);
    proof {
        assert(s@ =~= spec_format_carbon(prefix@, metric@, value@, timestamp));
    }
    s
}

/// One metric on its way to Carbon.
#[derive(Clone, Debug)]
pub struct CarbonMetricValue {
    pub timestamp: u64,
    pub metric: String,
    pub value: String,
}

/// Mathematical image of a `CarbonMetricValue`.
pub struct CarbonMetricValueView {
    pub timestamp: u64,
    pub metric: Seq<char>,
    pub value: Seq<char>,
}

impl View for CarbonMetricValue {
    type V = CarbonMetricValueView;

    open spec fn view(&self) -> CarbonMetricValueView {
        CarbonMetricValueView {
            timestamp: self.timestamp,
            metric: self.metric@,
            value: self.value@,
        }
    }
}

/// The views of queued metrics.
pub open spec fn metrics_view(s: Seq<CarbonMetricValue>) -> Seq<CarbonMetricValueView> {
    s.map_values(|m: CarbonMetricValue| m@)
}

/// The sender's delivery state: the FIFO backlog of metrics, plus the
/// history needed to state that nothing is ever dropped. At most one
/// metric is in flight between being dequeued and being written.
pub struct SenderQueue {
    queue: Vec<CarbonMetricValue>,
    accepted: Ghost<Seq<CarbonMetricValueView>>,
    written: Ghost<Seq<CarbonMetricValueView>>,
    in_flight: Ghost<Option<CarbonMetricValueView>>,
}

impl SenderQueue {
    /// Everything accepted so far, in arrival order.
    pub closed spec fn accepted(self) -> Seq<CarbonMetricValueView> {
        self.accepted@
    }

    /// Everything written to the sink so far, in write order.
    pub closed spec fn written(self) -> Seq<CarbonMetricValueView> {
        self.written@
    }

    /// The metric dequeued but not yet written or requeued, if any.
    pub closed spec fn in_flight(self) -> Option<CarbonMetricValueView> {
        self.in_flight@
    }

    /// The backlog, in delivery order.
    pub closed spec fn backlog(self) -> Seq<CarbonMetricValueView> {
        metrics_view(self.queue@)
    }

    /// The in-flight metric as a multiset of at most one element.
    pub open spec fn in_flight_ms(self) -> Multiset<CarbonMetricValueView> {
        match self.in_flight() {
            Some(m) => Multiset::empty().insert(m),
            None => Multiset::empty(),
        }
    }

    /// No silent drops: every metric ever accepted is accounted for —
    /// written, still queued, or in flight.
    pub open spec fn balanced(self) -> bool {
        self.accepted().to_multiset() == self.written().to_multiset().add(
            self.backlog().to_multiset(),
        ).add(self.in_flight_ms())
    }

    /// An empty sender state.
    pub fn new() -> (r: SenderQueue)
        ensures
            r.accepted() == Seq::<CarbonMetricValueView>::empty(),
            r.written() == Seq::<CarbonMetricValueView>::empty(),
            r.backlog() == Seq::<CarbonMetricValueView>::empty(),
            r.in_flight() is None,
            r.balanced(),
    {
        let r = SenderQueue {
            queue: Vec::new(),
            accepted: Ghost(Seq::empty()),
            written: Ghost(Seq::empty()),
            in_flight: Ghost(None),
        };
        proof {
            broadcast use vstd::seq_lib::group_to_multiset_ensures;

            assert(metrics_view(r.queue@) =~= Seq::<CarbonMetricValueView>::empty());
            assert(r.accepted().to_multiset() =~= r.written().to_multiset().add(
                r.backlog().to_multiset(),
            ).add(r.in_flight_ms()));
        }
        r
    }

    /// The backlog's length, for the supervisor's telemetry.
    pub fn queue_len(&self) -> (r: usize)
        ensures
            r == self.backlog().len(),
    {
        self.queue.len()
    }

    /// Accepts one metric from upstream, at the back of the backlog.
    pub fn accept(&mut self, m: CarbonMetricValue)
        ensures
            final(self).backlog() == old(self).backlog().push(m@),
            final(self).accepted() == old(self).accepted().push(m@),
            final(self).written() == old(self).written(),
            final(self).in_flight() == old(self).in_flight(),
            old(self).balanced() ==> final(self).balanced(),
    {
        proof {
            broadcast use vstd::seq_lib::group_to_multiset_ensures;

        }
        let ghost mv = m@;
        self.queue.push(m);
        proof {
            self.accepted@ = self.accepted@.push(mv);
            assert(metrics_view(self.queue@) =~= metrics_view(old(self).queue@).push(mv));
            if old(self).balanced() {
                assert(self.accepted().to_multiset() =~= old(self).accepted().to_multiset().insert(
                    mv,
                ));
                assert(self.backlog().to_multiset() =~= old(self).backlog().to_multiset().insert(
                    mv,
                ));
                assert(self.accepted().to_multiset() =~= self.written().to_multiset().add(
                    self.backlog().to_multiset(),
                ).add(self.in_flight_ms()));
            }
        }
    }

    /// Dequeues the next metric to send; it becomes the in-flight one.
    /// `None` exactly when the backlog is empty.
    pub fn take(&mut self) -> (r: Option<CarbonMetricValue>)
        requires
            old(self).in_flight() is None,
        ensures
            match r {
                Some(m) => old(self).backlog().len() > 0 && m@ == old(self).backlog().first()
                    && final(self).backlog() == old(self).backlog().drop_first()
                    && final(self).in_flight() == Some(m@),
                None => old(self).backlog().len() == 0
                    && final(self).backlog() == old(self).backlog()
                    && final(self).in_flight() is None,
            },
            final(self).accepted() == old(self).accepted(),
            final(self).written() == old(self).written(),
            old(self).balanced() ==> final(self).balanced(),
    {
        proof {
            broadcast use vstd::seq_lib::group_to_multiset_ensures;

        }
        if self.queue.len() == 0 {
            proof {
                assert(metrics_view(self.queue@).len() == 0);
            }
            return None;
        }
        let m = self.queue.remove(0);
        proof {
            let ghost qv = metrics_view(old(self).queue@);
            self.in_flight@ = Some(m@);
            assert(metrics_view(self.queue@) =~= qv.drop_first());
            assert(qv.remove(0) =~= qv.drop_first());
            assert(qv.remove(0).to_multiset() =~= qv.to_multiset().remove(qv[0]));
            if old(self).balanced() {
                assert(qv.drop_first().to_multiset().insert(qv[0]) =~= qv.to_multiset());
                assert(self.accepted().to_multiset() =~= self.written().to_multiset().add(
                    self.backlog().to_multiset(),
                ).add(self.in_flight_ms()));
            }
        }
        Some(m)
    }

    /// Records that the in-flight metric reached the sink.
    pub fn wrote(&mut self, m: &CarbonMetricValue)
        requires
            old(self).in_flight() == Some(m@),
        ensures
            final(self).written() == old(self).written().push(m@),
            final(self).backlog() == old(self).backlog(),
            final(self).accepted() == old(self).accepted(),
            final(self).in_flight() is None,
            old(self).balanced() ==> final(self).balanced(),
    {
        proof {
            broadcast use vstd::seq_lib::group_to_multiset_ensures;

            self.written@ = self.written@.push(m@);
            self.in_flight@ = None;
            if old(self).balanced() {
                assert(self.written().to_multiset() =~= old(self).written().to_multiset().insert(
                    m@,
                ));
                assert(self.balanced()) by {
                    assert(old(self).written().to_multiset().add(
                        old(self).backlog().to_multiset(),
                    ).add(old(self).in_flight_ms()) =~= self.written().to_multiset().add(
                        self.backlog().to_multiset(),
                    ).add(self.in_flight_ms()));
                }
            }
        }
    }

    /// Puts the in-flight metric back on the backlog after a failed
    /// write, so it is retried on a later connection.
    pub fn requeue(&mut self, m: CarbonMetricValue)
        requires
            old(self).in_flight() == Some(m@),
        ensures
            final(self).backlog() == old(self).backlog().push(m@),
            final(self).written() == old(self).written(),
            final(self).accepted() == old(self).accepted(),
            final(self).in_flight() is None,
            old(self).balanced() ==> final(self).balanced(),
    {
        proof {
            broadcast use vstd::seq_lib::group_to_multiset_ensures;

        }
        let ghost mv = m@;
        self.queue.push(m);
        proof {
            self.in_flight@ = None;
            assert(metrics_view(self.queue@) =~= metrics_view(old(self).queue@).push(mv));
            if old(self).balanced() {
                assert(self.backlog().to_multiset() =~= old(self).backlog().to_multiset().insert(
                    mv,
                ));
                assert(self.balanced()) by {
                    assert(old(self).written().to_multiset().add(
                        old(self).backlog().to_multiset(),
                    ).add(old(self).in_flight_ms()) =~= self.written().to_multiset().add(
                        self.backlog().to_multiset(),
                    ).add(self.in_flight_ms()));
                }
            }
        }
    }
}

/// Why one reading was dropped by the formatter.
#[derive(Clone, Copy, Debug, PartialEq, Eq, Structural)]
pub enum FormatError {
    /// No symbolic OID in the map resolves to the value binding's
    /// column (its OID without the row index).
    UnknownValueColumn,
    /// The row key's value has no string form.
    KeyNotPrintable,
    /// The value binding is not integer-typed.
    ValueNotNumeric,
}

/// The first symbolic name, in map order, whose numeric OID equals
/// `tail`.
pub open spec fn spec_reverse_lookup(
    entries: Seq<(Seq<char>, VarBindView)>,
    tail: Seq<u64>,
) -> Option<Seq<char>>
    decreases entries.len(),
{
    if entries.len() == 0 {
        None
    } else if entries.first().1.name == tail {
        Some(entries.first().0)
    } else {
        spec_reverse_lookup(entries.drop_first(), tail)
    }
}

fn reverse_lookup<'a>(oid_map: &'a NameMap<VarBind>, tail: &Vec<u64>) -> (r: Option<&'a String>)
    ensures
        match r {
            Some(name) => spec_reverse_lookup(oid_map@, tail@) == Some(name@),
            None => spec_reverse_lookup(oid_map@, tail@) is None,
        },
{
    let ghost entries = oid_map@;
    let n = oid_map.len();
    let mut i: usize = 0;
    proof {
        assert(entries.skip(0) =~= entries);
    }
    while i < n
        invariant
            i <= n,
            n == entries.len(),
            entries == oid_map@,
            spec_reverse_lookup(entries, tail@) == spec_reverse_lookup(
                entries.skip(i as int),
                tail@,
            ),
        decreases n - i,
    {
        proof {
            assert(entries.skip(i as int).first() == entries[i as int]);
        }
        if oid_eq(&oid_map.value_at(i).name, tail) {
            return Some(oid_map.key_at(i));
        }
        proof {
            assert(entries.skip(i as int).drop_first() =~= entries.skip(i + 1));
        }
        i += 1;
    }
    proof {
        assert(entries.skip(entries.len() as int) =~= Seq::<(Seq<char>, VarBindView)>::empty());
    }
    None
}

/// Turns one reading into a Carbon metric: the value column's symbol is
/// found by reverse lookup of the value OID without its row index, the
/// metric path is built from the sanitized device and row key, and the
/// value is rendered in decimal. Readings whose column is unknown,
/// whose row key has no string form, or whose value is not numeric are
/// refused, in that order of precedence.
pub fn format_reading(oid_map: &NameMap<VarBind>, result: &SnmpStatResult) -> (r: Result<
    CarbonMetricValue,
    FormatError,
>)
    requires
        result@.value.name.len() > 0,
        forall|i: int| 0 <= i < oid_map@.len() ==> spec_symbol_wf((#[trigger] oid_map@[i]).0),
    ensures
        ({
            let tail = result@.value.name.drop_last();
            match r {
                Ok(m) => {
                    &&& spec_reverse_lookup(oid_map@, tail) is Some
                    &&& spec_value_string(result@.key.value) is Some
                    &&& spec_numeric(result@.value.value) is Some
                    &&& m@.timestamp == result@.timestamp
                    &&& m@.metric == spec_format_key(
                        result@.device,
                        spec_value_string(result@.key.value)->0,
                        spec_symbol_of(spec_reverse_lookup(oid_map@, tail)->0),
                    )
                    &&& m@.value == spec_decimal(spec_numeric(result@.value.value)->0 as int)
                },
                Err(e) => match e {
                    FormatError::UnknownValueColumn => spec_reverse_lookup(oid_map@, tail) is None,
                    FormatError::KeyNotPrintable => spec_reverse_lookup(oid_map@, tail) is Some
                        && spec_value_string(result@.key.value) is None,
                    FormatError::ValueNotNumeric => spec_reverse_lookup(oid_map@, tail) is Some
                        && spec_value_string(result@.key.value) is Some && spec_numeric(
                        result@.value.value,
                    ) is None,
                },
            }
        }),
{
    let mut tail = result.value.name.clone();
    tail.pop();
    let full_name = match reverse_lookup(oid_map, &tail) {
        Some(name) => name,
        None => {
            return Err(FormatError::UnknownValueColumn);
        },
    };
    proof {
        lemma_reverse_lookup_key_in_map(oid_map@, tail@);
    }
    let val_name = match split_symbolic(full_name.as_str()) {
        Some(p) => p.1,
        None => {
            proof {
                assert(false);
            }
            vstd::pervasive::unreached()
        },
    };
    let key_string = match var_numeric_value_to_string(&result.key.value) {
        Some(s) => s,
        None => {
            return Err(FormatError::KeyNotPrintable);
        },
    };
    let value_string = match numeric_to_decimal(&result.value.value) {
        Some(s) => s,
        None => {
            return Err(FormatError::ValueNotNumeric);
        },
    };
    let metric = format_key(result.device.as_str(), key_string.as_str(), val_name.as_str());
    Ok(CarbonMetricValue { timestamp: result.timestamp, metric: metric, value: value_string })
}

/// A name found by reverse lookup is one of the map's keys.
proof fn lemma_reverse_lookup_key_in_map(entries: Seq<(Seq<char>, VarBindView)>, tail: Seq<u64>)
    requires
        spec_reverse_lookup(entries, tail) is Some,
    ensures
        exists|i: int|
            0 <= i < entries.len() && (#[trigger] entries[i]).0 == spec_reverse_lookup(
                entries,
                tail,
            )->0,
    decreases entries.len(),
{
    if entries.len() == 0 {
    } else if entries.first().1.name == tail {
        assert(entries[0] == entries.first());
    } else {
        lemma_reverse_lookup_key_in_map(entries.drop_first(), tail);
        let j = choose|i: int|
            0 <= i < entries.drop_first().len() && (#[trigger] entries.drop_first()[i]).0
                == spec_reverse_lookup(entries.drop_first(), tail)->0;
        assert(entries[j + 1] == entries.drop_first()[j]);
    }
}

/// The operator-facing estimate of the memory a backlog holds: queue
/// length times per-metric size, saturating.
pub fn memory_estimate(queue_len: u64, item_size: u64) -> (r: u64)
    ensures
        r == if queue_len * item_size > u64::MAX {
            u64::MAX as int
        } else {
            queue_len * item_size
        },
{
    proof {
        lemma_mul_upper_bound(
            queue_len as int,
            u64::MAX as int,
            item_size as int,
            u64::MAX as int,
        );
    }
    let wide = (queue_len as u128) * (item_size as u128);
    if wide > u64::MAX as u128 {
        u64::MAX
    } else {
        wide as u64
    }
}

} // verus!
