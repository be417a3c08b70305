//! The startup phase between a validated configuration and running
//! collectors: which MIB modules and symbolic OIDs the configuration
//! needs, which required modules are missing, the symbolic-to-numeric
//! OID map, and the Carbon key templates.

use vstd::prelude::*;

use crate::config::Config;
use crate::config::DataEntryView;
use crate::config::DeviceEntryView;
use crate::config::NameMap;
use crate::config::lemma_assoc_no_key_means_absent;
use crate::config::lemma_config_all_defined;
use crate::config::spec_assoc_get;
use crate::config::spec_first_undefined;
use crate::mib::MibError;
use crate::mib::MibInfo;
use crate::mib::build_snmp_mib_tree;
use crate::mib::find_module;
use crate::mib::mibs_view;
use crate::mib::spec_find_module;
use crate::mib::spec_module_of;
use crate::mib::spec_resolve;
use crate::mib::spec_start_fuel;
use crate::mib::spec_symbol_of;
use crate::mib::spec_symbol_wf;
use crate::mib::split_symbolic;
use crate::output::format_key;
use crate::output::spec_format_key;
use crate::snmp::VarBind;
use crate::snmp::VarBindView;
use crate::snmp::VarValueView;
use crate::snmp::vec_to_var_binds;
use crate::text::push_char;
use crate::text::str_eq;
use vstd::string::StringExecFns;

verus! {

/// The views of a list of strings.
pub open spec fn strings_view(s: Seq<String>) -> Seq<Seq<char>> {
    s.map_values(|t: String| t@)
}

/// Every symbolic OID a data entry names, instance column first.
pub open spec fn entry_symbols(de: DataEntryView) -> Seq<Seq<char>> {
    seq![de.instance] + de.values
}

/// Whether every symbolic OID the data entries name is well formed.
pub open spec fn spec_data_symbols_wf(data: Seq<(Seq<char>, DataEntryView)>) -> bool {
    forall|i: int, j: int|
        0 <= i < data.len() && 0 <= j < entry_symbols((#[trigger] data[i]).1).len()
            ==> spec_symbol_wf(#[trigger] entry_symbols(data[i].1)[j])
}

/// Appends `s` unless it is already present.
pub open spec fn spec_add_symbol(acc: Seq<Seq<char>>, s: Seq<char>) -> Seq<Seq<char>> {
    if acc.contains(s) {
        acc
    } else {
        acc.push(s)
    }
}

/// Folds a list of symbols into the accumulator, skipping duplicates.
pub open spec fn spec_add_list(acc: Seq<Seq<char>>, syms: Seq<Seq<char>>) -> Seq<Seq<char>>
    decreases syms.len(),
{
    if syms.len() == 0 {
        acc
    } else {
        spec_add_list(spec_add_symbol(acc, syms.first()), syms.drop_first())
    }
}

/// Folds the module parts of a list of symbols into the accumulator.
pub open spec fn spec_add_modules(acc: Seq<Seq<char>>, syms: Seq<Seq<char>>) -> Seq<Seq<char>>
    decreases syms.len(),
{
    if syms.len() == 0 {
        acc
    } else {
        spec_add_modules(spec_add_symbol(acc, spec_module_of(syms.first())), syms.drop_first())
    }
}

/// All symbolic OIDs the configuration needs, in entry order, without
/// duplicates.
pub open spec fn spec_required_oids(
    acc: Seq<Seq<char>>,
    data: Seq<(Seq<char>, DataEntryView)>,
) -> Seq<Seq<char>>
    decreases data.len(),
{
    if data.len() == 0 {
        acc
    } else {
        spec_required_oids(spec_add_list(acc, entry_symbols(data.first().1)), data.drop_first())
    }
}

/// All MIB modules the configuration needs, in entry order, without
/// duplicates, on top of the extra modules the accumulator starts with.
pub open spec fn spec_required_mibs(
    acc: Seq<Seq<char>>,
    data: Seq<(Seq<char>, DataEntryView)>,
) -> Seq<Seq<char>>
    decreases data.len(),
{
    if data.len() == 0 {
        acc
    } else {
        spec_required_mibs(spec_add_modules(acc, entry_symbols(data.first().1)), data.drop_first())
    }
}

fn contains_string(v: &Vec<String>, s: &str) -> (r: bool)
    ensures
        r == strings_view(v@).contains(s@),
{
    let mut i: usize = 0;
    while i < v.len()
        invariant
            i <= v@.len(),
            forall|j: int| 0 <= j < i ==> strings_view(v@)[j] != s@,
        decreases v@.len() - i,
    {
        if str_eq(v[i].as_str(), s) {
            proof {
                assert(strings_view(v@)[i as int] == s@);
            }
            return true;
        }
        i += 1;
    }
    proof {
        assert forall|j: int| 0 <= j < strings_view(v@).len() implies strings_view(v@)[j] != s@
            by {}
    }
    false
}

fn add_symbol(v: &mut Vec<String>, s: &str)
    ensures
        strings_view(final(v)@) == spec_add_symbol(strings_view(old(v)@), s@),
{
    if !contains_string(v, s) {
        v.push(s.to_owned());
        proof {
            assert(strings_view(v@) =~= strings_view(old(v)@).push(s@));
        }
    }
}

fn module_part(s: &str) -> (r: String)
    requires
        spec_symbol_wf(s@),
    ensures
        r@ == spec_module_of(s@),
{
    match split_symbolic(s) {
        Some(p) => p.0,
        None => {
            proof {
                assert(false);
            }
            vstd::pervasive::unreached()
        },
    }
}

fn symbol_part(s: &str) -> (r: String)
    requires
        spec_symbol_wf(s@),
    ensures
        r@ == spec_symbol_of(s@),
{
    match split_symbolic(s) {
        Some(p) => p.1,
        None => {
            proof {
                assert(false);
            }
            vstd::pervasive::unreached()
        },
    }
}

/// Walks the configuration's data entries and collects, without
/// duplicates, the MIB modules to load — starting from the extra
/// modules the environment asks for — and the symbolic OIDs to
/// resolve.
#[verifier::loop_isolation(false)]
pub fn required_symbols(config: &Config, extra_mibs: &Vec<String>) -> (r: (Vec<String>, Vec<
    String,
>))
    requires
        spec_data_symbols_wf(config@.data),
    ensures
        strings_view(r.0@) == spec_required_mibs(
            spec_add_list(Seq::empty(), strings_view(extra_mibs@)),
            config@.data,
        ),
        strings_view(r.1@) == spec_required_oids(Seq::empty(), config@.data),
{
    let ghost data = config@.data;
    let mut mibs: Vec<String> = Vec::new();
    let mut oids: Vec<String> = Vec::new();
    proof {
        assert(strings_view(mibs@) =~= Seq::<Seq<char>>::empty());
        assert(strings_view(oids@) =~= Seq::<Seq<char>>::empty());
    }

    // the extra modules first, as the agent's environment lists them
    let ghost extras = strings_view(extra_mibs@);
    let mut e: usize = 0;
    proof {
        assert(extras.skip(0) =~= extras);
    }
    while e < extra_mibs.len()
        invariant
            e <= extras.len(),
            spec_add_list(Seq::empty(), extras) == spec_add_list(
                strings_view(mibs@),
                extras.skip(e as int),
            ),
            strings_view(oids@) == Seq::<Seq<char>>::empty(),
        decreases extras.len() - e,
    {
        proof {
            assert(extras.skip(e as int).first() == extras[e as int]);
            assert(extras.skip(e as int).drop_first() =~= extras.skip(e + 1));
        }
        add_symbol(&mut mibs, extra_mibs[e].as_str());
        e += 1;
    }
    proof {
        assert(extras.skip(extras.len() as int) =~= Seq::<Seq<char>>::empty());
    }
    let ghost mibs0 = strings_view(mibs@);

    let mut i: usize = 0;
    proof {
        assert(data.skip(0) =~= data);
    }
    while i < config.data.len()
        invariant
            i <= data.len(),
            data.len() == config.data@.len(),
            spec_required_mibs(mibs0, data) == spec_required_mibs(
                strings_view(mibs@),
                data.skip(i as int),
            ),
            spec_required_oids(Seq::empty(), data) == spec_required_oids(
                strings_view(oids@),
                data.skip(i as int),
            ),
        decreases data.len() - i,
    {
        proof {
            assert(data.skip(i as int).first() == data[i as int]);
        }
        let de = config.data.value_at(i);
        let ghost syms = entry_symbols(data[i as int].1);
        let ghost mibs_enter = strings_view(mibs@);
        let ghost oids_enter = strings_view(oids@);
        proof {
            assert(syms.skip(0) =~= syms);
            assert(syms.len() == 1 + de.values@.len());
            assert(syms[0] == de@.instance);
            assert(spec_symbol_wf(de@.instance));
            assert(syms.skip(0).drop_first() =~= syms.skip(1));
        }
        add_symbol(&mut oids, de.instance.as_str());
        let instance_module = module_part(de.instance.as_str());
        add_symbol(&mut mibs, instance_module.as_str());
        let mut j: usize = 0;
        let values_len = de.values.len();
        while j < values_len
            invariant
                j <= values_len,
                values_len == de.values@.len(),
                i < data.len(),
                syms == entry_symbols(data[i as int].1),
                data[i as int].1 == de@,
                spec_add_modules(mibs_enter, syms) == spec_add_modules(
                    strings_view(mibs@),
                    syms.skip(j as int + 1),
                ),
                spec_add_list(oids_enter, syms) == spec_add_list(
                    strings_view(oids@),
                    syms.skip(j as int + 1),
                ),
            decreases values_len - j,
        {
            proof {
                assert(syms.skip(j as int + 1).first() == syms[j as int + 1]);
                assert(syms[j as int + 1] == de@.values[j as int]);
                assert(de@.values[j as int] == de.values@[j as int]@);
                assert(spec_symbol_wf(de@.values[j as int]));
                assert(syms.skip(j as int + 1).drop_first() =~= syms.skip(j as int + 2));
            }
            let sym = &de.values[j];
            add_symbol(&mut oids, sym.as_str());
            let module = module_part(sym.as_str());
            add_symbol(&mut mibs, module.as_str());
            j += 1;
        }
        proof {
            assert(syms.skip(syms.len() as int) =~= Seq::<Seq<char>>::empty());
            assert(data.skip(i as int).drop_first() =~= data.skip(i + 1));
        }
        i += 1;
    }
    proof {
        assert(data.skip(data.len() as int) =~= Seq::<(Seq<char>, DataEntryView)>::empty());
    }
    (mibs, oids)
}

/// The required modules, in order, that the loaded corpus does not
/// define.
pub open spec fn spec_missing_modules(
    mibs: Seq<crate::mib::MibInfoView>,
    required: Seq<Seq<char>>,
) -> Seq<Seq<char>>
    decreases required.len(),
{
    if required.len() == 0 {
        Seq::empty()
    } else {
        let rest = spec_missing_modules(mibs, required.drop_first());
        if spec_find_module(mibs, required.first()) is None {
            seq![required.first()] + rest
        } else {
            rest
        }
    }
}

/// Lists every required module the loaded MIB corpus does not define;
/// startup is fatal unless this is empty.
#[verifier::loop_isolation(false)]
pub fn missing_modules(required: &Vec<String>, mibs: &Vec<MibInfo>) -> (r: Vec<String>)
    ensures
        strings_view(r@) == spec_missing_modules(mibs_view(mibs@), strings_view(required@)),
{
    let ghost req = strings_view(required@);
    let mut out: Vec<String> = Vec::new();
    let mut i: usize = 0;
    proof {
        assert(req.skip(0) =~= req);
        assert(strings_view(out@) =~= Seq::<Seq<char>>::empty());
    }
    while i < required.len()
        invariant
            i <= req.len(),
            req.len() == required@.len(),
            spec_missing_modules(mibs_view(mibs@), req) == strings_view(out@)
                + spec_missing_modules(mibs_view(mibs@), req.skip(i as int)),
        decreases req.len() - i,
    {
        proof {
            assert(req.skip(i as int).first() == req[i as int]);
            assert(req.skip(i as int).drop_first() =~= req.skip(i + 1));
        }
        let found = find_module(required[i].as_str(), mibs);
        if found.is_none() {
            out.push(required[i].clone());
            proof {
                assert(strings_view(out@) =~= strings_view(out@.drop_last()).push(req[i as int]));
                assert(strings_view(out@) + spec_missing_modules(
                    mibs_view(mibs@),
                    req.skip(i + 1),
                ) =~= strings_view(out@.drop_last()) + (seq![req[i as int]]
                    + spec_missing_modules(mibs_view(mibs@), req.skip(i + 1))));
            }
        }
        i += 1;
    }
    proof {
        assert(req.skip(req.len() as int) =~= Seq::<Seq<char>>::empty());
        assert(strings_view(out@) + Seq::<Seq<char>>::empty() =~= strings_view(out@));
    }
    out
}

/// Resolves every required symbolic OID against the corpus, building
/// the map the collectors and the formatter share. The first symbol
/// that does not resolve is the error.
#[verifier::loop_isolation(false)]
pub fn build_oid_map(required_oids: &Vec<String>, mibs: &Vec<MibInfo>) -> (r: Result<
    NameMap<VarBind>,
    MibError,
>)
    requires
        forall|i: int|
            0 <= i < required_oids@.len() ==> spec_symbol_wf(
                #[trigger] strings_view(required_oids@)[i],
            ),
        forall|i: int, j: int|
            0 <= i < j < required_oids@.len() ==> strings_view(required_oids@)[i] != strings_view(
                required_oids@,
            )[j],
    ensures
        ({
            let sv = strings_view(required_oids@);
            let mv = mibs_view(mibs@);
            match r {
                Ok(m) => {
                    &&& m@.len() == sv.len()
                    &&& forall|i: int|
                        0 <= i < sv.len() ==> spec_resolve(
                            mv,
                            spec_module_of(#[trigger] sv[i]),
                            spec_symbol_of(sv[i]),
                            Seq::empty(),
                            spec_start_fuel(mv),
                        ) is Ok
                    &&& forall|i: int|
                        0 <= i < sv.len() ==> #[trigger] m@[i] == (
                            sv[i],
                            VarBindView {
                                name: spec_resolve(
                                    mv,
                                    spec_module_of(sv[i]),
                                    spec_symbol_of(sv[i]),
                                    Seq::empty(),
                                    spec_start_fuel(mv),
                                )->Ok_0,
                                value: VarValueView::Other,
                            },
                        )
                },
                Err(e) => exists|i: int|
                    0 <= i < sv.len() && spec_resolve(
                        mv,
                        spec_module_of(#[trigger] sv[i]),
                        spec_symbol_of(sv[i]),
                        Seq::empty(),
                        spec_start_fuel(mv),
                    ) == Err::<Seq<u64>, _>(e@),
            }
        }),
{
    let ghost sv = strings_view(required_oids@);
    let ghost mv = mibs_view(mibs@);
    let mut map: NameMap<VarBind> = NameMap::new();
    let mut i: usize = 0;
    while i < required_oids.len()
        invariant
            i <= sv.len(),
            sv.len() == required_oids@.len(),
            map@.len() == i,
            forall|k: int|
                0 <= k < i ==> spec_resolve(
                    mv,
                    spec_module_of(#[trigger] sv[k]),
                    spec_symbol_of(sv[k]),
                    Seq::empty(),
                    spec_start_fuel(mv),
                ) is Ok,
            forall|k: int|
                0 <= k < i ==> #[trigger] map@[k] == (
                    sv[k],
                    VarBindView {
                        name: spec_resolve(
                            mv,
                            spec_module_of(sv[k]),
                            spec_symbol_of(sv[k]),
                            Seq::empty(),
                            spec_start_fuel(mv),
                        )->Ok_0,
                        value: VarValueView::Other,
                    },
                ),
        decreases sv.len() - i,
    {
        let symbol = &required_oids[i];
        proof {
            assert(symbol@ == sv[i as int]);
        }
        match build_snmp_mib_tree(symbol, mibs) {
            Ok(oid) => {
                proof {
                    let key = sv[i as int];
                    assert forall|k: int| 0 <= k < map@.len() implies (#[trigger] map@[k]).0
                        != key by {
                        assert(map@[k].0 == sv[k]);
                    }
                    lemma_assoc_no_key_means_absent(map@, key);
                }
                map.insert_new(symbol.clone(), vec_to_var_binds(oid));
            },
            Err(e) => {
                proof {
                    assert(0 <= i < sv.len() && spec_resolve(
                        mv,
                        spec_module_of(sv[i as int]),
                        spec_symbol_of(sv[i as int]),
                        Seq::empty(),
                        spec_start_fuel(mv),
                    ) == Err::<Seq<u64>, _>(e@));
                }
                return Err(e);
            },
        }
        i += 1;
    }
    Ok(map)
}

/// The Carbon key templates of one data entry: one per value column,
/// with the instance symbol in angle brackets standing for the per-row
/// instance string.
pub open spec fn spec_entry_keys(device_name: Seq<char>, de: DataEntryView) -> Seq<Seq<char>> {
    de.values.map_values(
        |v: Seq<char>|
            spec_format_key(
                device_name,
                seq!['<'] + de.instance + seq!['>'],
                spec_symbol_of(v),
            ),
    )
}

/// The key templates of one device, entries in collect order.
pub open spec fn spec_device_keys(
    data: Seq<(Seq<char>, DataEntryView)>,
    device_name: Seq<char>,
    collect: Seq<Seq<char>>,
) -> Seq<Seq<char>>
    decreases collect.len(),
{
    if collect.len() == 0 {
        Seq::empty()
    } else {
        spec_entry_keys(device_name, spec_assoc_get(data, collect.first())->0)
            + spec_device_keys(data, device_name, collect.drop_first())
    }
}

/// The key templates of the whole configuration, devices in order.
pub open spec fn spec_keys_over(
    data: Seq<(Seq<char>, DataEntryView)>,
    devices: Seq<(Seq<char>, DeviceEntryView)>,
) -> Seq<Seq<char>>
    decreases devices.len(),
{
    if devices.len() == 0 {
        Seq::empty()
    } else {
        spec_device_keys(data, devices.first().0, devices.first().1.collect) + spec_keys_over(
            data,
            devices.drop_first(),
        )
    }
}

/// One Carbon key template per (device, data entry, value column)
/// triple, in configuration order, with `<MODULE::instance>` standing
/// for the per-row instance string.
#[verifier::loop_isolation(false)]
pub fn output_keys(config: &Config) -> (r: Vec<String>)
    requires
        spec_first_undefined(config@.data, config@.devices) is None,
        spec_data_symbols_wf(config@.data),
    ensures
        strings_view(r@) == spec_keys_over(config@.data, config@.devices),
{
    let ghost data = config@.data;
    let ghost devs = config@.devices;
    proof {
        lemma_config_all_defined(data, devs);
    }
    let mut out: Vec<String> = Vec::new();
    let mut i: usize = 0;
    proof {
        assert(devs.skip(0) =~= devs);
        assert(strings_view(out@) =~= Seq::<Seq<char>>::empty());
    }
    while i < config.devices.len()
        invariant
            i <= devs.len(),
            devs.len() == config.devices@.len(),
            spec_keys_over(data, devs) == strings_view(out@) + spec_keys_over(
                data,
                devs.skip(i as int),
            ),
        decreases devs.len() - i,
    {
        proof {
            assert(devs.skip(i as int).first() == devs[i as int]);
        }
        let device_name = config.devices.key_at(i);
        let device = config.devices.value_at(i);
        let ghost collect = devs[i as int].1.collect;
        let ghost keys_enter = strings_view(out@);
        let mut j: usize = 0;
        proof {
            assert(collect.skip(0) =~= collect);
            assert(keys_enter + spec_device_keys(data, devs[i as int].0, collect)
                + spec_keys_over(data, devs.skip(i + 1)) =~= keys_enter + (spec_device_keys(
                data,
                devs[i as int].0,
                collect,
            ) + spec_keys_over(data, devs.skip(i + 1))));
            assert(devs.skip(i as int).drop_first() =~= devs.skip(i + 1));
        }
        while j < device.collect.len()
            invariant
                j <= collect.len(),
                collect.len() == device.collect@.len(),
                collect == devs[i as int].1.collect,
                i < devs.len(),
                devs[i as int].1 == device@,
                keys_enter + spec_device_keys(data, devs[i as int].0, collect) == strings_view(
                    out@,
                ) + spec_device_keys(data, devs[i as int].0, collect.skip(j as int)),
            decreases collect.len() - j,
        {
            proof {
                assert(collect.skip(j as int).first() == collect[j as int]);
                assert(collect[j as int] == device.collect@[j as int]@);
            }
            let de = match config.data.get(device.collect[j].as_str()) {
                Some(de) => de,
                None => {
                    proof {
                        assert(false);
                    }
                    vstd::pervasive::unreached()
                },
            };
            let ghost ekeys = spec_entry_keys(devs[i as int].0, de@);
            proof {
                crate::config::lemma_assoc_get_some_is_entry(data, collect[j as int]);
                let m = choose|m: int|
                    0 <= m < data.len() && (#[trigger] data[m]).0 == collect[j as int]
                        && data[m].1 == spec_assoc_get(data, collect[j as int])->0;
                assert(data[m].1 == de@);
                assert(entry_symbols(data[m].1)[0] == de@.instance);
                assert(spec_symbol_wf(de@.instance));
                assert forall|k: int| 0 <= k < de@.values.len() implies spec_symbol_wf(
                    #[trigger] de@.values[k],
                ) by {
                    assert(entry_symbols(data[m].1)[k + 1] == de@.values[k]);
                }
            }
            let ghost out_enter = strings_view(out@);

            // the placeholder for the per-row instance string
            let mut placeholder = String::new();
            push_char(&mut placeholder, '<');
            placeholder.append(de.instance.as_str());
            push_char(&mut placeholder, '>');
            proof {
                assert(placeholder@ =~= seq!['<'] + de@.instance + seq!['>']);
            }

            let mut k: usize = 0;
            while k < de.values.len()
                invariant
                    k <= ekeys.len(),
                    ekeys.len() == de.values@.len(),
                    ekeys == spec_entry_keys(devs[i as int].0, de@),
                    spec_assoc_get(data, collect[j as int]) == Some(de@),
                    i < devs.len(),
                    j < collect.len(),
                    devs[i as int].1 == device@,
                    collect == devs[i as int].1.collect,
                    collect.len() == device.collect@.len(),
                    placeholder@ == seq!['<'] + de@.instance + seq!['>'],
                    strings_view(out@) == out_enter + ekeys.subrange(0, k as int),
                decreases de.values@.len() - k,
            {
                proof {
                    assert(de@.values[k as int] == de.values@[k as int]@);
                }
                let value_symbol = symbol_part(de.values[k].as_str());
                let key = format_key(
                    device_name.as_str(),
                    placeholder.as_str(),
                    value_symbol.as_str(),
                );
                let ghost prev = strings_view(out@);
                out.push(key);
                proof {
                    assert(ekeys[k as int] == spec_format_key(
                        devs[i as int].0,
                        seq!['<'] + de@.instance + seq!['>'],
                        spec_symbol_of(de@.values[k as int]),
                    ));
                    assert(strings_view(out@) =~= prev.push(ekeys[k as int]));
                    assert(ekeys.subrange(0, k as int + 1) =~= ekeys.subrange(0, k as int).push(
                        ekeys[k as int],
                    ));
                    assert(prev.push(ekeys[k as int]) =~= out_enter + ekeys.subrange(
                        0,
                        k as int + 1,
                    ));
                }
                k += 1;
            }
            proof {
                assert(ekeys.subrange(0, ekeys.len() as int) =~= ekeys);
                assert(collect.skip(j as int).drop_first() =~= collect.skip(j + 1));
                assert(strings_view(out@) + spec_device_keys(
                    data,
                    devs[i as int].0,
                    collect.skip(j + 1),
                ) =~= (out_enter + ekeys) + spec_device_keys(
                    data,
                    devs[i as int].0,
                    collect.skip(j + 1),
                ));
                assert((out_enter + ekeys) + spec_device_keys(
                    data,
                    devs[i as int].0,
                    collect.skip(j + 1),
                ) =~= out_enter + (ekeys + spec_device_keys(
                    data,
                    devs[i as int].0,
                    collect.skip(j + 1),
                )));
            }
            j += 1;
        }
        proof {
            assert(collect.skip(collect.len() as int) =~= Seq::<Seq<char>>::empty());
            assert(spec_device_keys(data, devs[i as int].0, collect.skip(collect.len() as int))
                =~= Seq::<Seq<char>>::empty());
            assert(strings_view(out@) + Seq::<Seq<char>>::empty() =~= strings_view(out@));
        }
        i += 1;
    }
    proof {
        assert(devs.skip(devs.len() as int) =~= Seq::<(Seq<char>, DeviceEntryView)>::empty());
        assert(strings_view(out@) + Seq::<Seq<char>>::empty() =~= strings_view(out@));
    }
    out
}

} // verus!
