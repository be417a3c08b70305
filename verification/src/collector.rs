//! The per-device collection logic: joining an instance-column walk
//! with a value-column walk, the vendor fallback for rows missing from
//! bulk walks, and cycle pacing.

use vstd::prelude::*;
use rand::Rng;

use crate::config::DataEntry;
use crate::config::DataEntryView;
use crate::config::DeviceEntry;
use crate::config::NameMap;
use crate::config::SnmpAuthProtocol;
use crate::config::SnmpPrivProtocol;
use crate::config::spec_assoc_get;
use crate::config::spec_assoc_has;
use crate::text::find_char;
use crate::text::push_char;
use crate::text::spec_find_char;
use crate::snmp::TimedBind;
use crate::snmp::TimedBindView;
use crate::snmp::VarBind;
use crate::snmp::VarBindView;
use crate::snmp::VarValue;
use crate::snmp::VarValueView;
use crate::snmp::binds_view;
use crate::stat_result::SnmpStatResult;
use crate::stat_result::SnmpStatResultView;

verus! {

/// The views of a sequence of timed bindings.
pub open spec fn timed_view(s: Seq<TimedBind>) -> Seq<TimedBindView> {
    s.map_values(|t: TimedBind| t@)
}

/// The views of a sequence of readings.
pub open spec fn results_view(s: Seq<SnmpStatResult>) -> Seq<SnmpStatResultView> {
    s.map_values(|r: SnmpStatResult| r@)
}

/// The first binding of the value walk whose OID ends in `idx`, if any.
pub open spec fn spec_find_value(values: Seq<TimedBindView>, idx: u64) -> Option<TimedBindView>
    decreases values.len(),
{
    if values.len() == 0 {
        None
    } else if values.first().bind.name.len() > 0 && values.first().bind.name.last() == idx {
        Some(values.first())
    } else {
        spec_find_value(values.drop_first(), idx)
    }
}

/// The reading emitted when row key `key` matches value binding `tv`.
pub open spec fn reading_of(
    device: Seq<char>,
    key: VarBindView,
    tv: TimedBindView,
) -> SnmpStatResultView {
    SnmpStatResultView { device: device, timestamp: tv.timestamp, key: key, value: tv.bind }
}

/// The join of an instance walk with one value walk: row keys are
/// processed in walk order; a key whose value is not a byte string ends
/// the join; every other key either matches the first value binding with
/// the same trailing sub-identifier (a reading) or is noted as missing.
pub open spec fn spec_join(
    device: Seq<char>,
    names: Seq<TimedBindView>,
    values: Seq<TimedBindView>,
) -> (Seq<SnmpStatResultView>, Seq<VarBindView>)
    decreases names.len(),
{
    if names.len() == 0 {
        (Seq::empty(), Seq::empty())
    } else {
        let nb = names.first().bind;
        if !(nb.value is Str) {
            (Seq::empty(), Seq::empty())
        } else {
            let rest = spec_join(device, names.drop_first(), values);
            match spec_find_value(values, nb.name.last()) {
                Some(tv) => (seq![reading_of(device, nb, tv)] + rest.0, rest.1),
                None => (rest.0, seq![nb] + rest.1),
            }
        }
    }
}

/// Index of the first value binding whose OID ends in `idx`, if any.
fn find_value_index(values: &Vec<TimedBind>, idx: u64) -> (r: Option<usize>)
    requires
        forall|k: int| 0 <= k < values@.len() ==> values@[k].bind.name@.len() > 0,
    ensures
        match r {
            Some(j) => j < values@.len() && spec_find_value(timed_view(values@), idx) == Some(
                timed_view(values@)[j as int],
            ),
            None => spec_find_value(timed_view(values@), idx) is None,
        },
{
    let ghost tv = timed_view(values@);
    let mut j: usize = 0;
    proof {
        assert(tv.skip(0) =~= tv);
    }
    while j < values.len()
        invariant
            j <= values.len(),
            tv == timed_view(values@),
            tv.len() == values@.len(),
            forall|k: int| 0 <= k < values@.len() ==> values@[k].bind.name@.len() > 0,
            spec_find_value(tv, idx) == spec_find_value(tv.skip(j as int), idx),
        decreases values.len() - j,
    {
        proof {
            assert(tv.skip(j as int).first() == values@[j as int]@);
        }
        let vlen = values[j].bind.name.len();
        if values[j].bind.name[vlen - 1] == idx {
            return Some(j);
        }
        proof {
            assert(tv.skip(j as int).drop_first() =~= tv.skip(j + 1));
        }
        j += 1;
    }
    proof {
        assert(tv.skip(values@.len() as int) =~= Seq::<TimedBindView>::empty());
    }
    None
}

/// Joins the instance-column walk `names` with the value-column walk
/// `values` for one device: returns the readings to emit and the row
/// keys whose value rows were missing from the walk.
pub fn join_value_table(device: &str, names: &Vec<TimedBind>, values: &Vec<TimedBind>) -> (r: (
    Vec<SnmpStatResult>,
    Vec<VarBind>,
))
    requires
        forall|i: int| 0 <= i < names@.len() ==> names@[i].bind.name@.len() > 0,
        forall|i: int| 0 <= i < values@.len() ==> values@[i].bind.name@.len() > 0,
    ensures
        results_view(r.0@) == spec_join(device@, timed_view(names@), timed_view(values@)).0,
        binds_view(r.1@) == spec_join(device@, timed_view(names@), timed_view(values@)).1,
{
    let ghost tn = timed_view(names@);
    let ghost tv = timed_view(values@);
    let mut readings: Vec<SnmpStatResult> = Vec::new();
    let mut missing: Vec<VarBind> = Vec::new();
    let mut i: usize = 0;
    proof {
        assert(tn.skip(0) =~= tn);
        assert(results_view(readings@) =~= Seq::<SnmpStatResultView>::empty());
        assert(binds_view(missing@) =~= Seq::<VarBindView>::empty());
    }
    while i < names.len()
        invariant
            i <= names.len(),
            tn == timed_view(names@),
            tv == timed_view(values@),
            tn.len() == names@.len(),
            forall|k: int| 0 <= k < names@.len() ==> names@[k].bind.name@.len() > 0,
            forall|k: int| 0 <= k < values@.len() ==> values@[k].bind.name@.len() > 0,
            spec_join(device@, tn, tv).0 == results_view(readings@) + spec_join(
                device@,
                tn.skip(i as int),
                tv,
            ).0,
            spec_join(device@, tn, tv).1 == binds_view(missing@) + spec_join(
                device@,
                tn.skip(i as int),
                tv,
            ).1,
        decreases names.len() - i,
    {
        proof {
            assert(tn.skip(i as int).first() == names@[i as int]@);
        }
        let is_string = matches!(names[i].bind.value, VarValue::Str(_));
        if !is_string {
            proof {
                assert(spec_join(device@, tn.skip(i as int), tv).0
                    =~= Seq::<SnmpStatResultView>::empty());
                assert(spec_join(device@, tn.skip(i as int), tv).1
                    =~= Seq::<VarBindView>::empty());
                assert(results_view(readings@) + Seq::<SnmpStatResultView>::empty()
                    =~= results_view(readings@));
                assert(binds_view(missing@) + Seq::<VarBindView>::empty()
                    =~= binds_view(missing@));
            }
            return (readings, missing);
        }
        let name_len = names[i].bind.name.len();
        let idx: u64 = names[i].bind.name[name_len - 1];
        proof {
            assert(names@[i as int].bind.name@.last() == idx);
        }

        let found = find_value_index(values, idx);

        if let Some(j) = found {
            let reading = SnmpStatResult {
                device: device.to_owned(),
                timestamp: values[j].timestamp,
                key: names[i].bind.duplicate(),
                value: values[j].bind.duplicate(),
            };
            readings.push(reading);
            proof {
                let nb = tn.skip(i as int).first().bind;
                assert(results_view(readings@) =~= results_view(readings@.drop_last()) + seq![
                    reading_of(device@, nb, tv[j as int]),
                ]);
                assert(tn.skip(i as int).drop_first() =~= tn.skip(i + 1));
                assert(results_view(readings@) + spec_join(device@, tn.skip(i + 1), tv).0
                    =~= results_view(readings@.drop_last()) + spec_join(
                    device@,
                    tn.skip(i as int),
                    tv,
                ).0);
            }
        } else {
            missing.push(names[i].bind.duplicate());
            proof {
                let nb = tn.skip(i as int).first().bind;
                assert(binds_view(missing@) =~= binds_view(missing@.drop_last()) + seq![nb]);
                assert(tn.skip(i as int).drop_first() =~= tn.skip(i + 1));
                assert(binds_view(missing@) + spec_join(device@, tn.skip(i + 1), tv).1
                    =~= binds_view(missing@.drop_last()) + spec_join(
                    device@,
                    tn.skip(i as int),
                    tv,
                ).1);
            }
        }
        i += 1;
    }
    proof {
        assert(tn.skip(names@.len() as int) =~= Seq::<TimedBindView>::empty());
        assert(results_view(readings@) + Seq::<SnmpStatResultView>::empty()
            =~= results_view(readings@));
        assert(binds_view(missing@) + Seq::<VarBindView>::empty() =~= binds_view(missing@));
    }
    (readings, missing)
}

/// A found value binding carries the row index it was searched for, and
/// sits in the walk.
proof fn lemma_find_value_member(values: Seq<TimedBindView>, idx: u64)
    requires
        spec_find_value(values, idx) is Some,
    ensures
        ({
            let tv = spec_find_value(values, idx)->0;
            &&& exists|j: int| 0 <= j < values.len() && values[j] == tv
            &&& tv.bind.name.len() > 0
            &&& tv.bind.name.last() == idx
        }),
    decreases values.len(),
{
    if values.len() == 0 {
    } else if values.first().bind.name.len() > 0 && values.first().bind.name.last() == idx {
        assert(values[0] == values.first());
    } else {
        lemma_find_value_member(values.drop_first(), idx);
        let tv = spec_find_value(values, idx)->0;
        let j0 = choose|j: int| 0 <= j < values.drop_first().len() && values.drop_first()[j] == tv;
        assert(values[j0 + 1] == tv);
    }
}

/// Join correctness: every reading of the join carries the device it
/// was made for, a row key taken from the instance walk whose value is
/// a byte string, and a value binding taken verbatim from the value
/// walk (with its receipt time) whose OID ends in the same
/// sub-identifier as the row key's.
pub open spec fn join_reading_ok(
    device: Seq<char>,
    names: Seq<TimedBindView>,
    values: Seq<TimedBindView>,
    r: SnmpStatResultView,
) -> bool {
    &&& r.device == device
    &&& r.key.value is Str
    &&& r.key.name.len() > 0
    &&& r.value.name.len() > 0
    &&& r.key.name.last() == r.value.name.last()
    &&& exists|j: int| 0 <= j < names.len() && (#[trigger] names[j]).bind == r.key
    &&& exists|j: int|
        0 <= j < values.len() && (#[trigger] values[j]).bind == r.value && values[j].timestamp
            == r.timestamp
}

pub proof fn lemma_join_correct(
    device: Seq<char>,
    names: Seq<TimedBindView>,
    values: Seq<TimedBindView>,
)
    requires
        forall|i: int| 0 <= i < names.len() ==> #[trigger] names[i].bind.name.len() > 0,
    ensures
        forall|k: int|
            0 <= k < spec_join(device, names, values).0.len() ==> join_reading_ok(
                device,
                names,
                values,
                #[trigger] spec_join(device, names, values).0[k],
            ),
    decreases names.len(),
{
    if names.len() == 0 {
    } else {
        let nb = names.first().bind;
        if !(nb.value is Str) {
        } else {
            lemma_join_correct(device, names.drop_first(), values);
            let rest = spec_join(device, names.drop_first(), values);
            assert forall|k: int| 0 <= k < rest.0.len() implies join_reading_ok(
                device,
                names,
                values,
                #[trigger] rest.0[k],
            ) by {
                let r = rest.0[k];
                assert(join_reading_ok(device, names.drop_first(), values, r));
                let m0 = choose|m: int|
                    0 <= m < names.drop_first().len() && (#[trigger] names.drop_first()[m]).bind
                        == r.key;
                assert(names[m0 + 1] == names.drop_first()[m0]);
                assert(0 <= m0 + 1 < names.len() && names[m0 + 1].bind == r.key);
            }
            let full = spec_join(device, names, values).0;
            match spec_find_value(values, nb.name.last()) {
                Some(tv) => {
                    lemma_find_value_member(values, nb.name.last());
                    let r0 = reading_of(device, nb, tv);
                    assert(names[0] == names.first());
                    assert(join_reading_ok(device, names, values, r0));
                    assert(full == seq![r0] + rest.0);
                    assert forall|k: int| 0 <= k < full.len() implies join_reading_ok(
                        device,
                        names,
                        values,
                        #[trigger] full[k],
                    ) by {
                        if k == 0 {
                            assert(full[k] == r0);
                        } else {
                            assert(full[k] == rest.0[k - 1]);
                        }
                    }
                },
                None => {
                    assert(full == rest.0);
                },
            }
        }
    }
}

/// The complement of join correctness: every row key the join notes as
/// missing is a byte-string row key taken from the instance walk for
/// which the value walk has no binding with the same trailing
/// sub-identifier — so the vendor fallback asks exactly for the rows
/// the walk omitted.
pub proof fn lemma_join_missing(
    device: Seq<char>,
    names: Seq<TimedBindView>,
    values: Seq<TimedBindView>,
)
    requires
        forall|i: int| 0 <= i < names.len() ==> #[trigger] names[i].bind.name.len() > 0,
    ensures
        forall|k: int|
            0 <= k < spec_join(device, names, values).1.len() ==> {
                let m = #[trigger] spec_join(device, names, values).1[k];
                &&& m.value is Str
                &&& m.name.len() > 0
                &&& spec_find_value(values, m.name.last()) is None
                &&& exists|j: int| 0 <= j < names.len() && (#[trigger] names[j]).bind == m
            },
    decreases names.len(),
{
    if names.len() == 0 {
    } else {
        let nb = names.first().bind;
        if !(nb.value is Str) {
        } else {
            lemma_join_missing(device, names.drop_first(), values);
            let rest = spec_join(device, names.drop_first(), values);
            assert forall|k: int| 0 <= k < rest.1.len() implies (exists|j: int|
                0 <= j < names.len() && (#[trigger] names[j]).bind == (#[trigger] rest.1[k])) by {
                let m = rest.1[k];
                let j0 = choose|j: int|
                    0 <= j < names.drop_first().len() && (#[trigger] names.drop_first()[j]).bind
                        == m;
                assert(names[j0 + 1] == names.drop_first()[j0]);
            }
            let full = spec_join(device, names, values).1;
            match spec_find_value(values, nb.name.last()) {
                Some(_) => {
                    assert(full == rest.1);
                },
                None => {
                    assert(names[0] == names.first());
                    assert(full == seq![nb] + rest.1);
                    assert forall|k: int| 0 <= k < full.len() implies {
                        let m = #[trigger] full[k];
                        &&& m.value is Str
                        &&& m.name.len() > 0
                        &&& spec_find_value(values, m.name.last()) is None
                        &&& exists|j: int| 0 <= j < names.len() && (#[trigger] names[j]).bind == m
                    } by {
                        if k == 0 {
                            assert(full[k] == nb);
                        } else {
                            assert(full[k] == rest.1[k - 1]);
                        }
                    }
                },
            }
        }
    }
}

/// The vendor fallback's zero rewrite: a targeted Get that answers
/// `NoSuchInstance` for a row stands for a zero-valued 64-bit counter;
/// any other answer is kept as it came.
pub open spec fn rewrite_no_such(b: VarBindView) -> VarBindView {
    if b.value is NoSuchInstance {
        VarBindView { name: b.name, value: VarValueView::BigCounter(0) }
    } else {
        b
    }
}

/// Builds the OIDs for the fallback Get: for each missing row key, the
/// OID of the first walked value row with its last sub-identifier
/// overwritten by the missing row's.
pub fn workaround_request_oids(missing: &Vec<VarBind>, base: &VarBind) -> (r: Vec<VarBind>)
    requires
        base@.name.len() > 0,
        forall|i: int| 0 <= i < missing@.len() ==> missing@[i]@.name.len() > 0,
    ensures
        r@.len() == missing@.len(),
        forall|i: int|
            0 <= i < r@.len() ==> #[trigger] r@[i]@.name == base@.name.update(
                base@.name.len() - 1,
                missing@[i]@.name.last(),
            ) && r@[i]@.value is Other,
{
    let mut out: Vec<VarBind> = Vec::new();
    let mut i: usize = 0;
    while i < missing.len()
        invariant
            i <= missing.len(),
            base@.name.len() > 0,
            forall|k: int| 0 <= k < missing@.len() ==> missing@[k]@.name.len() > 0,
            out@.len() == i,
            forall|k: int|
                0 <= k < i ==> #[trigger] out@[k]@.name == base@.name.update(
                    base@.name.len() - 1,
                    missing@[k]@.name.last(),
                ) && out@[k]@.value is Other,
        decreases missing.len() - i,
    {
        let mut oid = base.name.clone();
        let base_last = oid.len() - 1;
        let mlen = missing[i].name.len();
        oid.set(base_last, missing[i].name[mlen - 1]);
        out.push(crate::snmp::vec_to_var_binds(oid));
        i += 1;
    }
    out
}

/// Pairs the fallback responses with the missing row keys, position by
/// position, rewriting `NoSuchInstance` answers to a zero counter.
pub fn zip_workaround_responses(
    device: &str,
    missing: &Vec<VarBind>,
    responses: &Vec<TimedBind>,
) -> (r: Vec<SnmpStatResult>)
    ensures
        r@.len() == if missing@.len() <= responses@.len() {
            missing@.len()
        } else {
            responses@.len()
        },
        forall|i: int|
            0 <= i < r@.len() ==> {
                let rd = #[trigger] r@[i]@;
                &&& rd.device == device@
                &&& rd.timestamp == responses@[i]@.timestamp
                &&& rd.key == missing@[i]@
                &&& rd.value == rewrite_no_such(responses@[i]@.bind)
            },
{
    let n = if missing.len() <= responses.len() {
        missing.len()
    } else {
        responses.len()
    };
    let mut out: Vec<SnmpStatResult> = Vec::new();
    let mut i: usize = 0;
    while i < n
        invariant
            i <= n,
            n == if missing@.len() <= responses@.len() {
                missing@.len()
            } else {
                responses@.len()
            },
            out@.len() == i,
            forall|k: int|
                0 <= k < i ==> {
                    let rd = #[trigger] out@[k]@;
                    &&& rd.device == device@
                    &&& rd.timestamp == responses@[k]@.timestamp
                    &&& rd.key == missing@[k]@
                    &&& rd.value == rewrite_no_such(responses@[k]@.bind)
                },
        decreases n - i,
    {
        let is_no_such = matches!(responses[i].bind.value, VarValue::NoSuchInstance);
        let value_bind = if is_no_such {
            VarBind { name: responses[i].bind.name.clone(), value: VarValue::BigCounter(0) }
        } else {
            responses[i].bind.duplicate()
        };
        let reading = SnmpStatResult {
            device: device.to_owned(),
            timestamp: responses[i].timestamp,
            key: missing[i].duplicate(),
            value: value_bind,
        };
        out.push(reading);
        i += 1;
    }
    out
}

/// How long to sleep after a cycle: the remainder of the interval, or
/// nothing when the cycle overran it.
pub open spec fn spec_cycle_wait(interval_ms: u64, elapsed_ms: u64) -> u64 {
    if elapsed_ms < interval_ms {
        (interval_ms - elapsed_ms) as u64
    } else {
        0u64
    }
}

/// The sleep before the next cycle; zero exactly when the cycle overran
/// the interval (which the caller reports as a warning).
pub fn cycle_wait(interval_ms: u64, elapsed_ms: u64) -> (r: u64)
    ensures
        r == spec_cycle_wait(interval_ms, elapsed_ms),
{
    if elapsed_ms < interval_ms {
        interval_ms - elapsed_ms
    } else {
        0
    }
}

/// Interval pacing: a cycle that took `elapsed` is followed by a wait of
/// `spec_cycle_wait`, so consecutive cycle starts are exactly
/// `max(interval, elapsed)` apart — never less than
/// `min(interval, elapsed)`.
pub proof fn lemma_interval_pacing(interval_ms: u64, elapsed_ms: u64)
    ensures
        elapsed_ms + spec_cycle_wait(interval_ms, elapsed_ms) == if elapsed_ms < interval_ms {
            interval_ms as int
        } else {
            elapsed_ms as int
        },
        elapsed_ms + spec_cycle_wait(interval_ms, elapsed_ms) >= if elapsed_ms < interval_ms {
            elapsed_ms as int
        } else {
            interval_ms as int
        },
{
}

/// Relies on rand's `thread_rng` and `Rng::gen_range`: a draw from
/// `0..n`, hence strictly below `n`.
#[verifier::external_body]
fn random_below(n: u64) -> (r: u64)
    requires
        n > 0,
    ensures
        r < n,
{
    rand::thread_rng().gen_range(0..n)
}

/// The startup jitter of a device supervisor: a random sleep strictly
/// inside the polling interval, spreading the fleet's first cycles.
pub fn startup_jitter(interval_secs: u64) -> (r: u64)
    requires
        interval_secs > 0,
    ensures
        r < interval_secs,
{
    random_below(interval_secs)
}

/// The supervisor's backoff after a collector error: a third of the
/// polling interval.
pub fn collector_backoff(interval_ms: u64) -> (r: u64)
    ensures
        r == interval_ms / 3,
{
    interval_ms / 3
}

/// One of the four digest-and-cipher pairs a session can use.
#[derive(Clone, Copy, Debug, PartialEq, Eq, Structural)]
pub enum CryptoSuite {
    Sha1Aes128,
    Sha1Des,
    Md5Aes128,
    Md5Des,
}

/// The suite a device's settings select.
pub open spec fn spec_crypto_suite(
    auth: SnmpAuthProtocol,
    privacy: SnmpPrivProtocol,
) -> CryptoSuite {
    match (auth, privacy) {
        (SnmpAuthProtocol::Sha, SnmpPrivProtocol::Aes) => CryptoSuite::Sha1Aes128,
        (SnmpAuthProtocol::Sha, SnmpPrivProtocol::Des) => CryptoSuite::Sha1Des,
        (SnmpAuthProtocol::Md5, SnmpPrivProtocol::Aes) => CryptoSuite::Md5Aes128,
        (SnmpAuthProtocol::Md5, SnmpPrivProtocol::Des) => CryptoSuite::Md5Des,
    }
}

/// Picks the digest and privacy cipher for a session from the device's
/// configured protocols.
pub fn crypto_suite(auth: SnmpAuthProtocol, privacy: SnmpPrivProtocol) -> (r: CryptoSuite)
    ensures
        r == spec_crypto_suite(auth, privacy),
{
    match (auth, privacy) {
        (SnmpAuthProtocol::Sha, SnmpPrivProtocol::Aes) => CryptoSuite::Sha1Aes128,
        (SnmpAuthProtocol::Sha, SnmpPrivProtocol::Des) => CryptoSuite::Sha1Des,
        (SnmpAuthProtocol::Md5, SnmpPrivProtocol::Aes) => CryptoSuite::Md5Aes128,
        (SnmpAuthProtocol::Md5, SnmpPrivProtocol::Des) => CryptoSuite::Md5Des,
    }
}

/// Appends the default SNMP port to a host that names none.
pub fn host_with_default_port(host: &String) -> (r: String)
    ensures
        spec_find_char(host@, ':', 0) is Some ==> r@ == host@,
        spec_find_char(host@, ':', 0) is None ==> r@ == host@ + seq![':', '1', '6', '1'],
{
    match find_char(host.as_str(), ':') {
        Some(_) => host.clone(),
        None => {
            let mut s = host.clone();
            push_char(&mut s, ':');
            push_char(&mut s, '1');
            push_char(&mut s, '6');
            push_char(&mut s, '1');
            proof {
                assert(s@ =~= host@ + seq![':', '1', '6', '1']);
            }
            s
        },
    }
}

/// The views of the grouped collection plan: each instance column with
/// the value columns joined against it.
pub open spec fn groups_view(s: Seq<(VarBind, Vec<VarBind>)>) -> Seq<(VarBindView, Seq<VarBindView>)> {
    s.map_values(|p: (VarBind, Vec<VarBind>)| (p.0@, binds_view(p.1@)))
}

/// The position of `key` among the grouped instance columns.
pub open spec fn spec_group_index(
    groups: Seq<(VarBindView, Seq<VarBindView>)>,
    key: VarBindView,
) -> Option<int>
    decreases groups.len(),
{
    if groups.len() == 0 {
        None
    } else if groups.first().0 == key {
        Some(0int)
    } else {
        match spec_group_index(groups.drop_first(), key) {
            Some(i) => Some(i + 1),
            None => None,
        }
    }
}

/// Adds `key`'s group, empty, if it is not grouped yet.
pub open spec fn spec_ensure_key(
    groups: Seq<(VarBindView, Seq<VarBindView>)>,
    key: VarBindView,
) -> Seq<(VarBindView, Seq<VarBindView>)> {
    match spec_group_index(groups, key) {
        Some(_) => groups,
        None => groups.push((key, Seq::empty())),
    }
}

/// Adds value column `v` to `key`'s group, ignoring duplicates, as a
/// set of value columns would.
pub open spec fn spec_upsert(
    groups: Seq<(VarBindView, Seq<VarBindView>)>,
    key: VarBindView,
    v: VarBindView,
) -> Seq<(VarBindView, Seq<VarBindView>)> {
    match spec_group_index(groups, key) {
        Some(i) => if groups[i].1.contains(v) {
            groups
        } else {
            groups.update(i, (key, groups[i].1.push(v)))
        },
        None => groups.push((key, seq![v])),
    }
}

/// Folds one data entry's value columns into `key`'s group.
pub open spec fn spec_fold_values(
    groups: Seq<(VarBindView, Seq<VarBindView>)>,
    key: VarBindView,
    values: Seq<VarBindView>,
) -> Seq<(VarBindView, Seq<VarBindView>)>
    decreases values.len(),
{
    if values.len() == 0 {
        groups
    } else {
        spec_fold_values(spec_upsert(groups, key, values.first()), key, values.drop_first())
    }
}

/// The value columns of one data entry, resolved through the OID map.
pub open spec fn spec_entry_values(
    oid_map: Seq<(Seq<char>, VarBindView)>,
    de: DataEntryView,
) -> Seq<VarBindView> {
    de.values.map_values(|s: Seq<char>| spec_assoc_get(oid_map, s)->0)
}

/// The collection plan of a device: its collect list folded left to
/// right, each entry keyed by its instance column, entries sharing an
/// instance column collapsed into one group.
pub open spec fn spec_collect_map(
    data: Seq<(Seq<char>, DataEntryView)>,
    oid_map: Seq<(Seq<char>, VarBindView)>,
    collect: Seq<Seq<char>>,
    groups: Seq<(VarBindView, Seq<VarBindView>)>,
) -> Seq<(VarBindView, Seq<VarBindView>)>
    decreases collect.len(),
{
    if collect.len() == 0 {
        groups
    } else {
        let de = spec_assoc_get(data, collect.first())->0;
        let key = spec_assoc_get(oid_map, de.instance)->0;
        let g1 = spec_fold_values(
            spec_ensure_key(groups, key),
            key,
            spec_entry_values(oid_map, de),
        );
        spec_collect_map(data, oid_map, collect.drop_first(), g1)
    }
}

/// The group `spec_group_index` points at is keyed by the key sought.
proof fn lemma_group_index_hit(groups: Seq<(VarBindView, Seq<VarBindView>)>, key: VarBindView)
    requires
        spec_group_index(groups, key) is Some,
    ensures
        0 <= spec_group_index(groups, key)->0 < groups.len(),
        groups[spec_group_index(groups, key)->0].0 == key,
    decreases groups.len(),
{
    if groups.len() == 0 {
    } else if groups.first().0 == key {
    } else {
        lemma_group_index_hit(groups.drop_first(), key);
        let j = spec_group_index(groups.drop_first(), key)->0;
        assert(groups[j + 1] == groups.drop_first()[j]);
    }
}

#[verifier::loop_isolation(false)]
fn group_find(groups: &Vec<(VarBind, Vec<VarBind>)>, key: &VarBind) -> (r: Option<usize>)
    ensures
        match r {
            Some(i) => i < groups@.len() && spec_group_index(groups_view(groups@), key@) == Some(
                i as int,
            ),
            None => spec_group_index(groups_view(groups@), key@) is None,
        },
{
    let ghost gv = groups_view(groups@);
    let mut i: usize = 0;
    proof {
        assert(gv.skip(0) =~= gv);
    }
    while i < groups.len()
        invariant
            i <= groups@.len(),
            match spec_group_index(gv.skip(i as int), key@) {
                Some(j) => spec_group_index(gv, key@) == Some(i + j),
                None => spec_group_index(gv, key@) is None,
            },
        decreases groups@.len() - i,
    {
        proof {
            assert(gv.skip(i as int).first() == gv[i as int]);
        }
        if groups[i].0.view_equal(key) {
            return Some(i);
        }
        proof {
            assert(gv.skip(i as int).drop_first() =~= gv.skip(i + 1));
        }
        i += 1;
    }
    proof {
        assert(gv.skip(groups@.len() as int) =~= Seq::<(VarBindView, Seq<VarBindView>)>::empty());
    }
    None
}

#[verifier::loop_isolation(false)]
fn binds_contain(v: &Vec<VarBind>, x: &VarBind) -> (r: bool)
    ensures
        r == binds_view(v@).contains(x@),
{
    let mut i: usize = 0;
    while i < v.len()
        invariant
            i <= v@.len(),
            forall|j: int| 0 <= j < i ==> binds_view(v@)[j] != x@,
        decreases v@.len() - i,
    {
        if v[i].view_equal(x) {
            proof {
                assert(binds_view(v@)[i as int] == x@);
            }
            return true;
        }
        i += 1;
    }
    proof {
        assert forall|j: int| 0 <= j < binds_view(v@).len() implies binds_view(v@)[j] != x@ by {}
    }
    false
}

fn ensure_key(groups: &mut Vec<(VarBind, Vec<VarBind>)>, key: &VarBind)
    ensures
        groups_view(final(groups)@) == spec_ensure_key(groups_view(old(groups)@), key@),
{
    let found = group_find(groups, key);
    match found {
        Some(_) => {},
        None => {
            groups.push((key.duplicate(), Vec::new()));
            proof {
                assert(groups_view(groups@) =~~= spec_ensure_key(
                    groups_view(old(groups)@),
                    key@,
                ));
            }
        },
    }
}

fn upsert(groups: &mut Vec<(VarBind, Vec<VarBind>)>, key: &VarBind, v: VarBind)
    ensures
        groups_view(final(groups)@) == spec_upsert(groups_view(old(groups)@), key@, v@),
{
    let found = group_find(groups, key);
    match found {
        Some(i) => {
            if !binds_contain(&groups[i].1, &v) {
                proof {
                    lemma_group_index_hit(groups_view(groups@), key@);
                }
                let pair = groups.remove(i);
                let (k, mut vs) = pair;
                vs.push(v);
                groups.insert(i, (k, vs));
                proof {
                    let gv = groups_view(old(groups)@);
                    assert(binds_view(vs@) =~= gv[i as int].1.push(v@));
                    assert(groups_view(groups@) =~~= gv.update(
                        i as int,
                        (key@, gv[i as int].1.push(v@)),
                    ));
                }
            }
        },
        None => {
            let mut vs: Vec<VarBind> = Vec::new();
            vs.push(v);
            groups.push((key.duplicate(), vs));
            proof {
                assert(binds_view(vs@) =~= seq![v@]);
                assert(groups_view(groups@) =~~= groups_view(old(groups)@).push((key@, seq![v@])));
            }
        },
    }
}

/// Builds a device's collection plan: walks its collect list, groups
/// value columns under their instance column (walked once per cycle
/// even when entries share it), and keeps each group free of duplicate
/// value columns.
#[verifier::loop_isolation(false)]
pub fn build_collect_map(
    device: &DeviceEntry,
    data: &NameMap<DataEntry>,
    oid_map: &NameMap<VarBind>,
) -> (r: Vec<(VarBind, Vec<VarBind>)>)
    requires
        forall|i: int|
            0 <= i < device@.collect.len() ==> spec_assoc_has(data@, #[trigger] device@.collect[i]),
        forall|i: int|
            0 <= i < device@.collect.len() ==> spec_assoc_has(
                oid_map@,
                spec_assoc_get(data@, #[trigger] device@.collect[i])->0.instance,
            ),
        forall|i: int, j: int|
            0 <= i < device@.collect.len() && 0 <= j < spec_assoc_get(
                data@,
                #[trigger] device@.collect[i],
            )->0.values.len() ==> spec_assoc_has(
                oid_map@,
                #[trigger] spec_assoc_get(data@, device@.collect[i])->0.values[j],
            ),
    ensures
        groups_view(r@) == spec_collect_map(
            data@,
            oid_map@,
            device@.collect,
            Seq::empty(),
        ),
{
    let ghost collect = device@.collect;
    let mut groups: Vec<(VarBind, Vec<VarBind>)> = Vec::new();
    let mut i: usize = 0;
    proof {
        assert(collect.skip(0) =~= collect);
        assert(groups_view(groups@) =~= Seq::<(VarBindView, Seq<VarBindView>)>::empty());
    }
    while i < device.collect.len()
        invariant
            i <= collect.len(),
            collect.len() == device.collect@.len(),
            spec_collect_map(data@, oid_map@, collect, Seq::empty()) == spec_collect_map(
                data@,
                oid_map@,
                collect.skip(i as int),
                groups_view(groups@),
            ),
        decreases collect.len() - i,
    {
        proof {
            assert(collect.skip(i as int).first() == collect[i as int]);
            assert(collect[i as int] == device.collect@[i as int]@);
        }
        let entry_name = &device.collect[i];
        let de = match data.get(entry_name.as_str()) {
            Some(de) => de,
            None => {
                proof {
                    assert(false);
                }
                vstd::pervasive::unreached()
            },
        };
        let key = match oid_map.get(de.instance.as_str()) {
            Some(k) => k,
            None => {
                proof {
                    assert(false);
                }
                vstd::pervasive::unreached()
            },
        };
        let ghost g_enter = groups_view(groups@);
        let ghost vals = spec_entry_values(oid_map@, de@);
        ensure_key(&mut groups, key);
        let mut j: usize = 0;
        proof {
            assert(vals.skip(0) =~= vals);
        }
        while j < de.values.len()
            invariant
                j <= vals.len(),
                vals.len() == de.values@.len(),
                vals == spec_entry_values(oid_map@, de@),
                spec_assoc_get(data@, collect[i as int]) == Some(de@),
                spec_assoc_get(oid_map@, de@.instance) == Some(key@),
                i < collect.len(),
                spec_fold_values(spec_ensure_key(g_enter, key@), key@, vals) == spec_fold_values(
                    groups_view(groups@),
                    key@,
                    vals.skip(j as int),
                ),
            decreases vals.len() - j,
        {
            proof {
                assert(vals.skip(j as int).first() == vals[j as int]);
                assert(de@.values[j as int] == de.values@[j as int]@);
            }
            let vb = match oid_map.get(de.values[j].as_str()) {
                Some(v) => v,
                None => {
                    proof {
                        assert(false);
                    }
                    vstd::pervasive::unreached()
                },
            };
            proof {
                assert(vals[j as int] == vb@);
            }
            upsert(&mut groups, key, vb.duplicate());
            proof {
                assert(vals.skip(j as int).drop_first() =~= vals.skip(j + 1));
            }
            j += 1;
        }
        proof {
            assert(vals.skip(vals.len() as int) =~= Seq::<VarBindView>::empty());
            assert(collect.skip(i as int).drop_first() =~= collect.skip(i + 1));
        }
        i += 1;
    }
    proof {
        assert(collect.skip(collect.len() as int) =~= Seq::<Seq<char>>::empty());
    }
    groups
}

} // verus!
