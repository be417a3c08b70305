//! The agent's configuration: output sink, data entries and devices,
//! with the merge of several partial configuration files and the
//! startup validation.

use vstd::prelude::*;

use crate::text::string_eq;
use crate::text::str_eq;

verus! {

/// Where metrics go: a Carbon/Graphite line-protocol sink.
#[derive(Clone, Debug)]
pub enum Output {
    CarbonOutput { prefix: String, graphite_server: String, graphite_port: u16 },
}

/// Mathematical image of an `Output`.
pub struct OutputView {
    pub prefix: Seq<char>,
    pub graphite_server: Seq<char>,
    pub graphite_port: u16,
}

impl View for Output {
    type V = OutputView;

    open spec fn view(&self) -> OutputView {
        match self {
            Output::CarbonOutput { prefix, graphite_server, graphite_port } => OutputView {
                prefix: prefix@,
                graphite_server: graphite_server@,
                graphite_port: *graphite_port,
            },
        }
    }
}

/// One collection recipe: an instance column and the value columns
/// joined against it, all as `MODULE::symbol` names.
#[derive(Clone, Debug)]
pub struct DataEntry {
    pub table: bool,
    pub instance: String,
    pub values: Vec<String>,
}

/// Mathematical image of a `DataEntry`.
pub struct DataEntryView {
    pub table: bool,
    pub instance: Seq<char>,
    pub values: Seq<Seq<char>>,
}

impl View for DataEntry {
    type V = DataEntryView;

    open spec fn view(&self) -> DataEntryView {
        DataEntryView {
            table: self.table,
            instance: self.instance@,
            values: self.values@.map_values(|s: String| s@),
        }
    }
}

/// The digest used for USM authentication.
#[derive(Clone, Copy, Debug, PartialEq, Eq, Structural)]
pub enum SnmpAuthProtocol {
    Sha,
    Md5,
}

/// The cipher used for USM privacy.
#[derive(Clone, Copy, Debug, PartialEq, Eq, Structural)]
pub enum SnmpPrivProtocol {
    Aes,
    Des,
}

/// The SNMP protocol version; only version 3 is supported.
#[derive(Clone, Copy, Debug, PartialEq, Eq, Structural)]
pub enum SnmpVersion {
    Three,
}

/// Per-request timeout in seconds.
#[derive(Clone, Copy, Debug, PartialEq, Eq, Structural)]
pub struct Timeout(pub u64);

impl Default for Timeout {
    /// Ten seconds when the configuration names none.
    fn default() -> (r: Self)
        ensures
            r == Timeout(10u64),
    {
        Timeout(10)
    }
}

/// How to reach and authenticate against one device.
#[derive(Clone, Debug)]
pub struct DeviceSnmpSettings {
    pub host: String,
    pub version: SnmpVersion,
    pub secname: String,
    pub authprotocol: SnmpAuthProtocol,
    pub authpassword: String,
    pub privprotocol: SnmpPrivProtocol,
    pub privpassword: String,
    pub timeout: Timeout,
}

/// Mathematical image of `DeviceSnmpSettings`.
pub struct DeviceSnmpSettingsView {
    pub host: Seq<char>,
    pub version: SnmpVersion,
    pub secname: Seq<char>,
    pub authprotocol: SnmpAuthProtocol,
    pub authpassword: Seq<char>,
    pub privprotocol: SnmpPrivProtocol,
    pub privpassword: Seq<char>,
    pub timeout: u64,
}

impl View for DeviceSnmpSettings {
    type V = DeviceSnmpSettingsView;

    open spec fn view(&self) -> DeviceSnmpSettingsView {
        DeviceSnmpSettingsView {
            host: self.host@,
            version: self.version,
            secname: self.secname@,
            authprotocol: self.authprotocol,
            authpassword: self.authpassword@,
            privprotocol: self.privprotocol,
            privpassword: self.privpassword@,
            timeout: self.timeout.0,
        }
    }
}

/// One device: how to reach it, what to collect, and how often.
#[derive(Clone, Debug)]
pub struct DeviceEntry {
    pub snmp: DeviceSnmpSettings,
    pub collect: Vec<String>,
    pub interval: u16,
}

/// Mathematical image of a `DeviceEntry`.
pub struct DeviceEntryView {
    pub snmp: DeviceSnmpSettingsView,
    pub collect: Seq<Seq<char>>,
    pub interval: u16,
}

impl View for DeviceEntry {
    type V = DeviceEntryView;

    open spec fn view(&self) -> DeviceEntryView {
        DeviceEntryView {
            snmp: self.snmp@,
            collect: self.collect@.map_values(|s: String| s@),
            interval: self.interval,
        }
    }
}

/// Equality that is visible in contracts: it decides exactly whether
/// the two views coincide.
pub trait ViewEq: View + Sized {
    fn view_eq(&self, other: &Self) -> (r: bool)
        ensures
            r == (self@ == other@),
    ;
}

/// Decides whether two string sequences hold the same strings.
pub fn string_vec_eq(a: &Vec<String>, b: &Vec<String>) -> (r: bool)
    ensures
        r == (a@.map_values(|s: String| s@) == b@.map_values(|s: String| s@)),
{
    let ghost av = a@.map_values(|s: String| s@);
    let ghost bv = b@.map_values(|s: String| s@);
    if a.len() != b.len() {
        proof {
            assert(av.len() != bv.len());
        }
        return false;
    }
    let mut i: usize = 0;
    while i < a.len()
        invariant
            i <= a.len(),
            a@.len() == b@.len(),
            av == a@.map_values(|s: String| s@),
            bv == b@.map_values(|s: String| s@),
            forall|j: int| 0 <= j < i ==> av[j] == bv[j],
        decreases a.len() - i,
    {
        if !string_eq(&a[i], &b[i]) {
            proof {
                assert(av[i as int] != bv[i as int]);
            }
            return false;
        }
        i += 1;
    }
    proof {
        assert(av =~= bv);
    }
    true
}

impl ViewEq for Output {
    fn view_eq(&self, other: &Self) -> (r: bool)
        ensures
            r == (self@ == other@),
    {
        match (self, other) {
            (
                Output::CarbonOutput { prefix: p1, graphite_server: s1, graphite_port: g1 },
                Output::CarbonOutput { prefix: p2, graphite_server: s2, graphite_port: g2 },
            ) => {
                let r = string_eq(p1, p2) && string_eq(s1, s2) && *g1 == *g2;
                proof {
                    if r {
                        assert(self@ =~= other@);
                    }
                }
                r
            },
        }
    }
}

impl ViewEq for DataEntry {
    fn view_eq(&self, other: &Self) -> (r: bool)
        ensures
            r == (self@ == other@),
    {
        let r = self.table == other.table && string_eq(&self.instance, &other.instance)
            && string_vec_eq(&self.values, &other.values);
        proof {
            if r {
                assert(self@ =~= other@);
            }
        }
        r
    }
}

impl ViewEq for DeviceEntry {
    fn view_eq(&self, other: &Self) -> (r: bool)
        ensures
            r == (self@ == other@),
    {
        let s1 = &self.snmp;
        let s2 = &other.snmp;
        let snmp_eq = string_eq(&s1.host, &s2.host) && s1.version == s2.version && string_eq(
            &s1.secname,
            &s2.secname,
        ) && s1.authprotocol == s2.authprotocol && string_eq(&s1.authpassword, &s2.authpassword)
            && s1.privprotocol == s2.privprotocol && string_eq(&s1.privpassword, &s2.privpassword)
            && s1.timeout.0 == s2.timeout.0;
        let r = snmp_eq && string_vec_eq(&self.collect, &other.collect) && self.interval
            == other.interval;
        proof {
            if snmp_eq {
                assert(self@.snmp =~= other@.snmp);
            }
            if r {
                assert(self@ =~= other@);
            }
        }
        r
    }
}

/// A list of named entries whose keys are meant to be unique, keeping
/// insertion order. It stands in for a hash map keyed by strings.
#[derive(Clone, Debug)]
pub struct NameMap<V> {
    pub entries: Vec<(String, V)>,
}

impl<V: View> View for NameMap<V> {
    type V = Seq<(Seq<char>, V::V)>;

    open spec fn view(&self) -> Seq<(Seq<char>, V::V)> {
        self.entries@.map_values(|p: (String, V)| (p.0@, p.1@))
    }
}

/// The first value bound to `key` in an entry sequence, if any.
pub open spec fn spec_assoc_get<T>(entries: Seq<(Seq<char>, T)>, key: Seq<char>) -> Option<T>
    decreases entries.len(),
{
    if entries.len() == 0 {
        None
    } else if entries.first().0 == key {
        Some(entries.first().1)
    } else {
        spec_assoc_get(entries.drop_first(), key)
    }
}

/// Whether `key` is bound in an entry sequence.
pub open spec fn spec_assoc_has<T>(entries: Seq<(Seq<char>, T)>, key: Seq<char>) -> bool {
    spec_assoc_get(entries, key) is Some
}

/// Whether all keys of an entry sequence are distinct.
pub open spec fn spec_keys_unique<T>(entries: Seq<(Seq<char>, T)>) -> bool {
    forall|i: int, j: int|
        0 <= i < j < entries.len() ==> (#[trigger] entries[i]).0 != (#[trigger] entries[j]).0
}

impl<V: View> NameMap<V> {
    /// An empty map.
    pub fn new() -> (r: NameMap<V>)
        ensures
            r@ =~= Seq::<(Seq<char>, V::V)>::empty(),
    {
        NameMap { entries: Vec::new() }
    }

    /// The number of entries.
    pub fn len(&self) -> (r: usize)
        ensures
            r == self@.len(),
    {
        self.entries.len()
    }

    /// The key of the entry at `i`.
    pub fn key_at(&self, i: usize) -> (r: &String)
        requires
            i < self@.len(),
        ensures
            r@ == self@[i as int].0,
    {
        &self.entries[i].0
    }

    /// The value of the entry at `i`.
    pub fn value_at(&self, i: usize) -> (r: &V)
        requires
            i < self@.len(),
        ensures
            r@ == self@[i as int].1,
    {
        &self.entries[i].1
    }

    /// Looks `key` up, returning the first binding.
    pub fn get(&self, key: &str) -> (r: Option<&V>)
        ensures
            match r {
                Some(v) => spec_assoc_get(self@, key@) == Some(v@),
                None => spec_assoc_get(self@, key@) is None,
            },
    {
        let ghost entries = self@;
        let mut i: usize = 0;
        proof {
            assert(entries.skip(0) =~= entries);
        }
        while i < self.entries.len()
            invariant
                i <= self.entries.len(),
                entries == self@,
                entries.len() == self.entries@.len(),
                spec_assoc_get(entries, key@) == spec_assoc_get(entries.skip(i as int), key@),
            decreases self.entries.len() - i,
        {
            proof {
                assert(entries.skip(i as int).first() == entries[i as int]);
            }
            if str_eq(self.entries[i].0.as_str(), key) {
                return Some(&self.entries[i].1);
            }
            proof {
                assert(entries.skip(i as int).drop_first() =~= entries.skip(i + 1));
            }
            i += 1;
        }
        proof {
            assert(entries.skip(entries.len() as int) =~= Seq::<(Seq<char>, V::V)>::empty());
        }
        None
    }

    /// Whether `key` is bound.
    pub fn contains_key(&self, key: &str) -> (r: bool)
        ensures
            r == spec_assoc_has(self@, key@),
    {
        self.get(key).is_some()
    }

    /// Binds `key`, which must be new, to `value` at the end.
    pub fn insert_new(&mut self, key: String, value: V)
        requires
            !spec_assoc_has(old(self)@, key@),
        ensures
            final(self)@ == old(self)@.push((key@, value@)),
            spec_keys_unique(old(self)@) ==> spec_keys_unique(final(self)@),
    {
        proof {
            lemma_assoc_get_absent_means_no_key(self@, key@);
        }
        self.entries.push((key, value));
        proof {
            assert(self@ =~= old(self)@.push((key@, value@)));
            if spec_keys_unique(old(self)@) {
                assert forall|i: int, j: int|
                    0 <= i < j < self@.len() implies (#[trigger] self@[i]).0 != (
                    #[trigger] self@[j]).0 by {
                    if j < self@.len() - 1 {
                    } else {
                        assert(self@[j].0 == key@);
                    }
                }
            }
        }
    }
}

/// Merging one file's section into the accumulated section: a new key
/// is appended, an identical binding is kept once, and a key bound to a
/// different value is a conflict, named by the first such key.
pub open spec fn spec_merge_entries<T>(
    acc: Seq<(Seq<char>, T)>,
    part: Seq<(Seq<char>, T)>,
) -> Result<Seq<(Seq<char>, T)>, Seq<char>>
    decreases part.len(),
{
    if part.len() == 0 {
        Ok(acc)
    } else {
        let kv = part.first();
        match spec_assoc_get(acc, kv.0) {
            Some(v0) => if v0 == kv.1 {
                spec_merge_entries(acc, part.drop_first())
            } else {
                Err(kv.0)
            },
            None => spec_merge_entries(acc.push(kv), part.drop_first()),
        }
    }
}

/// Merging keeps keys unique.
pub proof fn lemma_merge_entries_unique<T>(acc: Seq<(Seq<char>, T)>, part: Seq<(Seq<char>, T)>)
    requires
        spec_keys_unique(acc),
        spec_merge_entries(acc, part) is Ok,
    ensures
        spec_keys_unique(spec_merge_entries(acc, part)->Ok_0),
    decreases part.len(),
{
    if part.len() == 0 {
    } else {
        let kv = part.first();
        match spec_assoc_get(acc, kv.0) {
            Some(v0) => {
                lemma_merge_entries_unique(acc, part.drop_first());
            },
            None => {
                lemma_assoc_get_absent_means_no_key(acc, kv.0);
                let pushed = acc.push(kv);
                assert forall|i: int, j: int|
                    0 <= i < j < pushed.len() implies (#[trigger] pushed[i]).0 != (
                #[trigger] pushed[j]).0 by {
                    if j == pushed.len() - 1 {
                        assert(pushed[i] == acc[i]);
                    }
                }
                lemma_merge_entries_unique(pushed, part.drop_first());
            },
        }
    }
}

/// Merges `part` into `acc`, key by key in `part`'s order.
#[verifier::loop_isolation(false)]
pub fn merge_name_map<V: ViewEq>(acc: &mut NameMap<V>, part: NameMap<V>) -> (r: Result<(), String>)
    ensures
        match r {
            Ok(_) => spec_merge_entries(old(acc)@, part@) == Ok::<_, Seq<char>>(final(acc)@),
            Err(k) => spec_merge_entries(old(acc)@, part@) == Err::<Seq<(Seq<char>, V::V)>, _>(k@),
        },
        r is Ok && spec_keys_unique(old(acc)@) ==> spec_keys_unique(final(acc)@),
{
    let ghost pv = part@;
    let mut rest = part.entries;
    proof {
        assert(rest@.map_values(|p: (String, V)| (p.0@, p.1@)) == pv);
    }
    while rest.len() > 0
        invariant
            spec_merge_entries(old(acc)@, pv) == spec_merge_entries(
                acc@,
                rest@.map_values(|p: (String, V)| (p.0@, p.1@)),
            ),
        decreases rest.len(),
    {
        let ghost before = rest@.map_values(|p: (String, V)| (p.0@, p.1@));
        let kv = rest.remove(0);
        proof {
            assert(before.first() == (kv.0@, kv.1@));
            assert(rest@.map_values(|p: (String, V)| (p.0@, p.1@)) =~= before.drop_first());
        }
        let (key, value) = kv;
        let existing = acc.get(key.as_str());
        match existing {
            Some(v0) => {
                if !value.view_eq(v0) {
                    proof {
                        assert(before.first().0 == key@);
                        assert(spec_assoc_get(acc@, before.first().0) == Some(v0@));
                        assert(spec_merge_entries(acc@, before) == Err::<
                            Seq<(Seq<char>, V::V)>,
                            Seq<char>,
                        >(key@));
                    }
                    return Err(key);
                }
            },
            None => {
                acc.insert_new(key, value);
            },
        }
    }
    proof {
        assert(rest@.map_values(|p: (String, V)| (p.0@, p.1@)) =~= Seq::<(
            Seq<char>,
            V::V,
        )>::empty());
        if spec_keys_unique(old(acc)@) {
            lemma_merge_entries_unique(old(acc)@, pv);
        }
    }
    Ok(())
}

/// A key that `spec_assoc_get` misses appears in no entry.
pub proof fn lemma_assoc_get_absent_means_no_key<T>(entries: Seq<(Seq<char>, T)>, key: Seq<char>)
    requires
        spec_assoc_get(entries, key) is None,
    ensures
        forall|i: int| 0 <= i < entries.len() ==> (#[trigger] entries[i]).0 != key,
    decreases entries.len(),
{
    if entries.len() == 0 {
    } else {
        lemma_assoc_get_absent_means_no_key(entries.drop_first(), key);
        assert forall|i: int| 0 <= i < entries.len() implies (#[trigger] entries[i]).0 != key by {
            if i > 0 {
                assert(entries.drop_first()[i - 1] == entries[i]);
            }
        }
    }
}

/// A binding `spec_assoc_get` finds sits in the entries.
pub proof fn lemma_assoc_get_some_is_entry<T>(entries: Seq<(Seq<char>, T)>, key: Seq<char>)
    requires
        spec_assoc_get(entries, key) is Some,
    ensures
        exists|m: int|
            0 <= m < entries.len() && (#[trigger] entries[m]).0 == key && entries[m].1
                == spec_assoc_get(entries, key)->0,
    decreases entries.len(),
{
    if entries.len() == 0 {
    } else if entries.first().0 == key {
        assert(entries[0] == entries.first());
    } else {
        lemma_assoc_get_some_is_entry(entries.drop_first(), key);
        let m = choose|m: int|
            0 <= m < entries.drop_first().len() && (#[trigger] entries.drop_first()[m]).0 == key
                && entries.drop_first()[m].1 == spec_assoc_get(entries.drop_first(), key)->0;
        assert(entries[m + 1] == entries.drop_first()[m]);
    }
}

/// A key no entry carries is missed by `spec_assoc_get`.
pub proof fn lemma_assoc_no_key_means_absent<T>(entries: Seq<(Seq<char>, T)>, key: Seq<char>)
    requires
        forall|i: int| 0 <= i < entries.len() ==> (#[trigger] entries[i]).0 != key,
    ensures
        spec_assoc_get(entries, key) is None,
    decreases entries.len(),
{
    if entries.len() == 0 {
    } else {
        assert(entries[0] == entries.first());
        assert forall|i: int| 0 <= i < entries.drop_first().len() implies (
        #[trigger] entries.drop_first()[i]).0 != key by {
            assert(entries.drop_first()[i] == entries[i + 1]);
        }
        lemma_assoc_no_key_means_absent(entries.drop_first(), key);
    }
}

/// When validation finds nothing undefined, every collect name of this
/// one device is bound in `data`.
pub proof fn lemma_collect_all_defined<T>(data: Seq<(Seq<char>, T)>, collect: Seq<Seq<char>>)
    requires
        spec_undef_in_collect(data, collect) is None,
    ensures
        forall|j: int| 0 <= j < collect.len() ==> spec_assoc_has(data, #[trigger] collect[j]),
    decreases collect.len(),
{
    if collect.len() == 0 {
    } else {
        lemma_collect_all_defined(data, collect.drop_first());
        assert forall|j: int| 0 <= j < collect.len() implies spec_assoc_has(
            data,
            #[trigger] collect[j],
        ) by {
            if j == 0 {
                assert(collect[0] == collect.first());
            } else {
                assert(collect.drop_first()[j - 1] == collect[j]);
            }
        }
    }
}

/// When validation finds nothing undefined, every device's collect
/// list names only defined data entries.
pub proof fn lemma_config_all_defined(
    data: Seq<(Seq<char>, DataEntryView)>,
    devices: Seq<(Seq<char>, DeviceEntryView)>,
)
    requires
        spec_first_undefined(data, devices) is None,
    ensures
        forall|i: int, j: int|
            0 <= i < devices.len() && 0 <= j < (#[trigger] devices[i]).1.collect.len()
                ==> spec_assoc_has(data, #[trigger] devices[i].1.collect[j]),
    decreases devices.len(),
{
    if devices.len() == 0 {
    } else {
        lemma_config_all_defined(data, devices.drop_first());
        lemma_collect_all_defined(data, devices.first().1.collect);
        assert forall|i: int, j: int|
            0 <= i < devices.len() && 0 <= j < (#[trigger] devices[i]).1.collect.len() implies
        spec_assoc_has(data, #[trigger] devices[i].1.collect[j]) by {
            if i == 0 {
                assert(devices[0] == devices.first());
            } else {
                assert(devices.drop_first()[i - 1] == devices[i]);
            }
        }
    }
}

/// One configuration file's content: any of the three sections may be
/// absent.
#[derive(Clone, Debug)]
pub struct OptionalConfig {
    pub output: Option<Output>,
    pub data: Option<NameMap<DataEntry>>,
    pub devices: Option<NameMap<DeviceEntry>>,
}

/// Mathematical image of an `OptionalConfig`.
pub struct OptionalConfigView {
    pub output: Option<OutputView>,
    pub data: Option<Seq<(Seq<char>, DataEntryView)>>,
    pub devices: Option<Seq<(Seq<char>, DeviceEntryView)>>,
}

impl View for OptionalConfig {
    type V = OptionalConfigView;

    open spec fn view(&self) -> OptionalConfigView {
        OptionalConfigView {
            output: match &self.output {
                Some(o) => Some(o@),
                None => None,
            },
            data: match &self.data {
                Some(d) => Some(d@),
                None => None,
            },
            devices: match &self.devices {
                Some(d) => Some(d@),
                None => None,
            },
        }
    }
}

impl OptionalConfig {
    /// A configuration with no section yet.
    pub fn empty() -> (r: OptionalConfig)
        ensures
            r@.output is None,
            r@.data is None,
            r@.devices is None,
    {
        OptionalConfig { output: None, data: None, devices: None }
    }
}

/// The complete configuration, all three sections present.
#[derive(Clone, Debug)]
pub struct Config {
    pub output: Output,
    pub data: NameMap<DataEntry>,
    pub devices: NameMap<DeviceEntry>,
}

/// Mathematical image of a `Config`.
pub struct ConfigView {
    pub output: OutputView,
    pub data: Seq<(Seq<char>, DataEntryView)>,
    pub devices: Seq<(Seq<char>, DeviceEntryView)>,
}

impl View for Config {
    type V = ConfigView;

    open spec fn view(&self) -> ConfigView {
        ConfigView { output: self.output@, data: self.data@, devices: self.devices@ }
    }
}

/// A fatal configuration fault, found while merging files or while
/// validating the merged result.
#[derive(Clone, Debug)]
pub enum ConfigError {
    /// Two files define `output` differently.
    OutputConflict,
    /// Two files bind this data entry name differently.
    DataConflict(String),
    /// Two files bind this device name differently.
    DeviceConflict(String),
    /// No file defines `output`.
    MissingOutput,
    /// No file defines `data`.
    MissingData,
    /// No file defines `devices`.
    MissingDevices,
    /// This device's collect list names a data entry that is not defined.
    UndefinedCollector { device: String, collector: String },
}

/// Merging the optional `output` sections of two files: at most one may
/// define it, or both must define it identically.
pub open spec fn spec_merge_output(a: Option<OutputView>, b: Option<OutputView>) -> Result<
    Option<OutputView>,
    (),
> {
    match b {
        None => Ok(a),
        Some(bv) => match a {
            None => Ok(Some(bv)),
            Some(av) => if av == bv {
                Ok(Some(av))
            } else {
                Err(())
            },
        },
    }
}

/// Merging one optional keyed section of two files.
pub open spec fn spec_merge_section<T>(
    a: Option<Seq<(Seq<char>, T)>>,
    b: Option<Seq<(Seq<char>, T)>>,
) -> Result<Option<Seq<(Seq<char>, T)>>, Seq<char>> {
    match b {
        None => Ok(a),
        Some(bv) => match a {
            None => Ok(Some(bv)),
            Some(av) => match spec_merge_entries(av, bv) {
                Ok(m) => Ok(Some(m)),
                Err(k) => Err(k),
            },
        },
    }
}

/// Folds one file's sections into the accumulated configuration:
/// `output` must agree across files, `data` and `devices` merge by key
/// with differing duplicates fatal. Sections are examined in the order
/// output, data, devices, and the first conflict is reported.
pub fn merge_optional_config(acc: &mut OptionalConfig, part: OptionalConfig) -> (r: Result<
    (),
    ConfigError,
>)
    ensures
        match r {
            Ok(_) => {
                &&& spec_merge_output(old(acc)@.output, part@.output) == Ok::<_, ()>(
                    final(acc)@.output,
                )
                &&& spec_merge_section(old(acc)@.data, part@.data) == Ok::<_, Seq<char>>(
                    final(acc)@.data,
                )
                &&& spec_merge_section(old(acc)@.devices, part@.devices) == Ok::<_, Seq<char>>(
                    final(acc)@.devices,
                )
            },
            Err(e) => match e {
                ConfigError::OutputConflict => spec_merge_output(old(acc)@.output, part@.output)
                    is Err,
                ConfigError::DataConflict(k) => spec_merge_output(old(acc)@.output, part@.output)
                    is Ok && spec_merge_section(old(acc)@.data, part@.data) == Err::<
                    Option<Seq<(Seq<char>, DataEntryView)>>,
                    _,
                >(k@),
                ConfigError::DeviceConflict(k) => spec_merge_output(
                    old(acc)@.output,
                    part@.output,
                ) is Ok && spec_merge_section(old(acc)@.data, part@.data) is Ok
                    && spec_merge_section(old(acc)@.devices, part@.devices) == Err::<
                    Option<Seq<(Seq<char>, DeviceEntryView)>>,
                    _,
                >(k@),
                _ => false,
            },
        },
{
    // output: must be identical wherever defined
    if let Some(part_output) = part.output {
        match &acc.output {
            Some(existing) => {
                if !existing.view_eq(&part_output) {
                    return Err(ConfigError::OutputConflict);
                }
            },
            None => {
                acc.output = Some(part_output);
            },
        }
    }

    // data: merge by key, differing duplicates are fatal
    if let Some(part_data) = part.data {
        let acc_data_present = acc.data.is_some();
        if acc_data_present {
            let acc_data = acc.data.as_mut().unwrap();
            if let Err(k) = merge_name_map(acc_data, part_data) {
                return Err(ConfigError::DataConflict(k));
            }
        } else {
            acc.data = Some(part_data);
        }
    }

    // devices: as for data
    if let Some(part_devices) = part.devices {
        let acc_devices_present = acc.devices.is_some();
        if acc_devices_present {
            let acc_devices = acc.devices.as_mut().unwrap();
            if let Err(k) = merge_name_map(acc_devices, part_devices) {
                return Err(ConfigError::DeviceConflict(k));
            }
        } else {
            acc.devices = Some(part_devices);
        }
    }

    Ok(())
}

/// Requires every section to be present, in the order output, data,
/// devices, and yields the complete configuration.
pub fn finalize_config(c: OptionalConfig) -> (r: Result<Config, ConfigError>)
    ensures
        match r {
            Ok(cfg) => c@.output == Some(cfg@.output) && c@.data == Some(cfg@.data) && c@.devices
                == Some(cfg@.devices),
            Err(e) => match e {
                ConfigError::MissingOutput => c@.output is None,
                ConfigError::MissingData => c@.output is Some && c@.data is None,
                ConfigError::MissingDevices => c@.output is Some && c@.data is Some && c@.devices
                    is None,
                _ => false,
            },
        },
{
    let OptionalConfig { output, data, devices } = c;
    let output = match output {
        Some(o) => o,
        None => {
            return Err(ConfigError::MissingOutput);
        },
    };
    let data = match data {
        Some(d) => d,
        None => {
            return Err(ConfigError::MissingData);
        },
    };
    let devices = match devices {
        Some(d) => d,
        None => {
            return Err(ConfigError::MissingDevices);
        },
    };
    Ok(Config { output, data, devices })
}

/// The first collect name of this device that no data entry defines.
pub open spec fn spec_undef_in_collect<T>(
    data: Seq<(Seq<char>, T)>,
    collect: Seq<Seq<char>>,
) -> Option<Seq<char>>
    decreases collect.len(),
{
    if collect.len() == 0 {
        None
    } else if !spec_assoc_has(data, collect.first()) {
        Some(collect.first())
    } else {
        spec_undef_in_collect(data, collect.drop_first())
    }
}

/// The first (device, collect name) pair, in configuration order, whose
/// collect name no data entry defines.
pub open spec fn spec_first_undefined(
    data: Seq<(Seq<char>, DataEntryView)>,
    devices: Seq<(Seq<char>, DeviceEntryView)>,
) -> Option<(Seq<char>, Seq<char>)>
    decreases devices.len(),
{
    if devices.len() == 0 {
        None
    } else {
        match spec_undef_in_collect(data, devices.first().1.collect) {
            Some(name) => Some((devices.first().0, name)),
            None => spec_first_undefined(data, devices.drop_first()),
        }
    }
}

/// Checks that every device's collect list names only defined data
/// entries; the first offender, in configuration order, is the error.
#[verifier::loop_isolation(false)]
pub fn validate_config(c: &Config) -> (r: Result<(), ConfigError>)
    ensures
        match r {
            Ok(_) => spec_first_undefined(c@.data, c@.devices) is None,
            Err(e) => match e {
                ConfigError::UndefinedCollector { device, collector } => spec_first_undefined(
                    c@.data,
                    c@.devices,
                ) == Some((device@, collector@)),
                _ => false,
            },
        },
{
    let ghost devs = c@.devices;
    let mut i: usize = 0;
    proof {
        assert(devs.skip(0) =~= devs);
    }
    while i < c.devices.len()
        invariant
            i <= c.devices@.len(),
            spec_first_undefined(c@.data, devs) == spec_first_undefined(
                c@.data,
                devs.skip(i as int),
            ),
        decreases c.devices@.len() - i,
    {
        proof {
            assert(devs.skip(i as int).first() == devs[i as int]);
        }
        let device = c.devices.value_at(i);
        let ghost collect = devs[i as int].1.collect;
        let mut j: usize = 0;
        proof {
            assert(collect.skip(0) =~= collect);
        }
        while j < device.collect.len()
            invariant
                j <= device.collect.len(),
                collect == devs[i as int].1.collect,
                collect.len() == device.collect@.len(),
                i < c.devices@.len(),
                forall|m: int| 0 <= m < collect.len() ==> collect[m] == device.collect@[m]@,
                spec_undef_in_collect(c@.data, collect.skip(j as int)) is Some
                    ==> spec_undef_in_collect(c@.data, collect) == spec_undef_in_collect(
                    c@.data,
                    collect.skip(j as int),
                ),
                spec_undef_in_collect(c@.data, collect.skip(j as int)) is None
                    ==> spec_undef_in_collect(c@.data, collect) is None,
            decreases device.collect.len() - j,
        {
            proof {
                assert(collect.skip(j as int).first() == collect[j as int]);
            }
            if !c.data.contains_key(device.collect[j].as_str()) {
                let collector = device.collect[j].clone();
                let device_name = c.devices.key_at(i).clone();
                proof {
                    assert(spec_undef_in_collect(c@.data, collect.skip(j as int)) == Some(
                        collect[j as int],
                    ));
                }
                return Err(
                    ConfigError::UndefinedCollector { device: device_name, collector: collector },
                );
            }
            proof {
                assert(collect.skip(j as int).drop_first() =~= collect.skip(j + 1));
            }
            j += 1;
        }
        proof {
            assert(collect.skip(device.collect@.len() as int) =~= Seq::<Seq<char>>::empty());
            assert(devs.skip(i as int).drop_first() =~= devs.skip(i + 1));
        }
        i += 1;
    }
    proof {
        assert(devs.skip(c.devices@.len() as int) =~= Seq::<(Seq<char>, DeviceEntryView)>::empty());
    }
    Ok(())
}

} // verus!
