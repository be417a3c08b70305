use snmp_harvest::cli::Command;
use snmp_harvest::collector::CryptoSuite;
use snmp_harvest::collector::build_collect_map;
use snmp_harvest::collector::crypto_suite;
use snmp_harvest::collector::host_with_default_port;
use snmp_harvest::config::Config;
use snmp_harvest::config::ConfigError;
use snmp_harvest::config::DataEntry;
use snmp_harvest::config::DeviceEntry;
use snmp_harvest::config::DeviceSnmpSettings;
use snmp_harvest::config::NameMap;
use snmp_harvest::config::OptionalConfig;
use snmp_harvest::config::Output;
use snmp_harvest::config::SnmpAuthProtocol;
use snmp_harvest::config::SnmpPrivProtocol;
use snmp_harvest::config::SnmpVersion;
use snmp_harvest::config::Timeout;
use snmp_harvest::config::finalize_config;
use snmp_harvest::config::merge_optional_config;
use snmp_harvest::config::validate_config;
use snmp_harvest::mib::Assignment;
use snmp_harvest::mib::MibInfo;
use snmp_harvest::mib::Module;
use snmp_harvest::snmp::VarBind;
use snmp_harvest::snmp::VarValue;
use snmp_harvest::startup::build_oid_map;
use snmp_harvest::startup::missing_modules;
use snmp_harvest::startup::output_keys;
use snmp_harvest::startup::required_symbols;

fn carbon_output() -> Output {
    Output::CarbonOutput {
        prefix: "net".to_string(),
        graphite_server: "carbon.example".to_string(),
        graphite_port: 2003,
    }
}

fn data_entry(instance: &str, values: &[&str]) -> DataEntry {
    DataEntry {
        table: true,
        instance: instance.to_string(),
        values: values.iter().map(|v| v.to_string()).collect(),
    }
}

fn device(collect: &[&str]) -> DeviceEntry {
    DeviceEntry {
        snmp: DeviceSnmpSettings {
            host: "sw1.example".to_string(),
            version: SnmpVersion::Three,
            secname: "monitor".to_string(),
            authprotocol: SnmpAuthProtocol::Sha,
            authpassword: "auth-password".to_string(),
            privprotocol: SnmpPrivProtocol::Aes,
            privpassword: "priv-password".to_string(),
            timeout: Timeout(10),
        },
        collect: collect.iter().map(|v| v.to_string()).collect(),
        interval: 60,
    }
}

fn data_map(entries: Vec<(&str, DataEntry)>) -> NameMap<DataEntry> {
    NameMap { entries: entries.into_iter().map(|(k, v)| (k.to_string(), v)).collect() }
}

fn device_map(entries: Vec<(&str, DeviceEntry)>) -> NameMap<DeviceEntry> {
    NameMap { entries: entries.into_iter().map(|(k, v)| (k.to_string(), v)).collect() }
}

fn sample_config() -> Config {
    Config {
        output: carbon_output(),
        data: data_map(vec![(
            "ifstats",
            data_entry("IF-MIB::ifName", &["IF-MIB::ifInOctets", "IF-MIB::ifOutOctets"]),
        )]),
        devices: device_map(vec![("sw1", device(&["ifstats"]))]),
    }
}

#[test]
fn merging_fills_missing_sections() {
    let mut acc = OptionalConfig::empty();
    let part = OptionalConfig {
        output: Some(carbon_output()),
        data: Some(data_map(vec![("ifstats", data_entry("IF-MIB::ifName", &[]))])),
        devices: None,
    };
    merge_optional_config(&mut acc, part).unwrap();
    assert!(acc.output.is_some());
    assert!(acc.data.is_some());
    assert!(acc.devices.is_none());
}

#[test]
fn merging_accepts_identical_duplicates() {
    let mut acc = OptionalConfig {
        output: Some(carbon_output()),
        data: Some(data_map(vec![("ifstats", data_entry("IF-MIB::ifName", &[]))])),
        devices: None,
    };
    let part = OptionalConfig {
        output: Some(carbon_output()),
        data: Some(data_map(vec![
            ("ifstats", data_entry("IF-MIB::ifName", &[])),
            ("more", data_entry("IF-MIB::ifDescr", &[])),
        ])),
        devices: None,
    };
    merge_optional_config(&mut acc, part).unwrap();
    assert_eq!(acc.data.as_ref().unwrap().entries.len(), 2);
}

#[test]
fn conflicting_outputs_are_fatal() {
    let mut acc = OptionalConfig { output: Some(carbon_output()), data: None, devices: None };
    let part = OptionalConfig {
        output: Some(Output::CarbonOutput {
            prefix: "other".to_string(),
            graphite_server: "carbon.example".to_string(),
            graphite_port: 2003,
        }),
        data: None,
        devices: None,
    };
    let err = merge_optional_config(&mut acc, part).unwrap_err();
    assert!(matches!(err, ConfigError::OutputConflict));
}

#[test]
fn conflicting_data_entries_are_fatal() {
    let mut acc = OptionalConfig {
        output: None,
        data: Some(data_map(vec![("ifstats", data_entry("IF-MIB::ifName", &[]))])),
        devices: None,
    };
    let part = OptionalConfig {
        output: None,
        data: Some(data_map(vec![("ifstats", data_entry("IF-MIB::ifDescr", &[]))])),
        devices: None,
    };
    match merge_optional_config(&mut acc, part).unwrap_err() {
        ConfigError::DataConflict(k) => assert_eq!(k, "ifstats"),
        other => panic!("unexpected error {:?}", other),
    }
}

#[test]
fn conflicting_devices_are_fatal() {
    let mut acc = OptionalConfig {
        output: None,
        data: None,
        devices: Some(device_map(vec![("sw1", device(&["ifstats"]))])),
    };
    let part = OptionalConfig {
        output: None,
        data: None,
        devices: Some(device_map(vec![("sw1", device(&["other"]))])),
    };
    match merge_optional_config(&mut acc, part).unwrap_err() {
        ConfigError::DeviceConflict(k) => assert_eq!(k, "sw1"),
        other => panic!("unexpected error {:?}", other),
    }
}

#[test]
fn finalize_names_the_first_missing_section() {
    let none = OptionalConfig::empty();
    assert!(matches!(finalize_config(none).unwrap_err(), ConfigError::MissingOutput));
    let only_output = OptionalConfig { output: Some(carbon_output()), data: None, devices: None };
    assert!(matches!(finalize_config(only_output).unwrap_err(), ConfigError::MissingData));
    let no_devices = OptionalConfig {
        output: Some(carbon_output()),
        data: Some(data_map(vec![])),
        devices: None,
    };
    assert!(matches!(finalize_config(no_devices).unwrap_err(), ConfigError::MissingDevices));
}

#[test]
fn validation_accepts_defined_collectors() {
    assert!(validate_config(&sample_config()).is_ok());
}

#[test]
fn validation_names_the_undefined_collector() {
    let config = Config {
        output: carbon_output(),
        data: data_map(vec![("ifstats", data_entry("IF-MIB::ifName", &[]))]),
        devices: device_map(vec![("sw1", device(&["ifstats", "cpu"]))]),
    };
    match validate_config(&config).unwrap_err() {
        ConfigError::UndefinedCollector { device, collector } => {
            assert_eq!(device, "sw1");
            assert_eq!(collector, "cpu");
        },
        other => panic!("unexpected error {:?}", other),
    }
}

#[test]
fn timeout_defaults_to_ten_seconds() {
    assert_eq!(Timeout::default(), Timeout(10));
}

#[test]
fn required_symbols_deduplicate() {
    let config = sample_config();
    let extras = vec!["SNMPv2-MIB".to_string(), "SNMPv2-SMI".to_string()];
    let (mibs, oids) = required_symbols(&config, &extras);
    assert_eq!(mibs, vec!["SNMPv2-MIB", "SNMPv2-SMI", "IF-MIB"]);
    assert_eq!(
        oids,
        vec!["IF-MIB::ifName", "IF-MIB::ifInOctets", "IF-MIB::ifOutOctets"]
    );
}

fn small_corpus() -> Vec<MibInfo> {
    let smi = Module {
        name: "SNMPv2-SMI".to_string(),
        assignments: vec![Assignment {
            name: "org".to_string(),
            value: Some("OBJECT-IDENTIFIER iso 3".to_string()),
        }],
        imports: vec![],
    };
    vec![MibInfo { modules: vec![smi] }]
}

#[test]
fn missing_modules_lists_what_was_not_loaded() {
    let required = vec!["SNMPv2-SMI".to_string(), "IF-MIB".to_string()];
    let missing = missing_modules(&required, &small_corpus());
    assert_eq!(missing, vec!["IF-MIB"]);
}

#[test]
fn oid_map_resolves_every_required_symbol() {
    let required = vec!["SNMPv2-SMI::org".to_string()];
    let map = build_oid_map(&required, &small_corpus()).unwrap();
    assert_eq!(map.entries.len(), 1);
    assert_eq!(map.entries[0].0, "SNMPv2-SMI::org");
    assert_eq!(map.entries[0].1.name, vec![1, 3]);
}

#[test]
fn oid_map_reports_the_failing_symbol() {
    let required = vec!["SNMPv2-SMI::nothing".to_string()];
    assert!(build_oid_map(&required, &small_corpus()).is_err());
}

#[test]
fn output_keys_use_the_instance_placeholder() {
    let keys = output_keys(&sample_config());
    assert_eq!(
        keys,
        vec![
            "sw1.<IF_MIB::ifName>.ifInOctets".to_string(),
            "sw1.<IF_MIB::ifName>.ifOutOctets".to_string(),
        ]
    );
}

#[test]
fn crypto_suite_covers_the_two_by_two_matrix() {
    assert_eq!(
        crypto_suite(SnmpAuthProtocol::Sha, SnmpPrivProtocol::Aes),
        CryptoSuite::Sha1Aes128
    );
    assert_eq!(crypto_suite(SnmpAuthProtocol::Sha, SnmpPrivProtocol::Des), CryptoSuite::Sha1Des);
    assert_eq!(
        crypto_suite(SnmpAuthProtocol::Md5, SnmpPrivProtocol::Aes),
        CryptoSuite::Md5Aes128
    );
    assert_eq!(crypto_suite(SnmpAuthProtocol::Md5, SnmpPrivProtocol::Des), CryptoSuite::Md5Des);
}

#[test]
fn default_snmp_port_is_appended_only_when_absent() {
    assert_eq!(host_with_default_port(&"sw1.example".to_string()), "sw1.example:161");
    assert_eq!(host_with_default_port(&"sw1.example:1161".to_string()), "sw1.example:1161");
}

#[test]
fn collect_map_collapses_shared_instance_columns() {
    let data = data_map(vec![
        ("in", data_entry("IF-MIB::ifName", &["IF-MIB::ifInOctets"])),
        ("out", data_entry("IF-MIB::ifName", &["IF-MIB::ifOutOctets", "IF-MIB::ifInOctets"])),
    ]);
    let dev = device(&["in", "out"]);
    let mut oid_map: NameMap<VarBind> = NameMap::new();
    oid_map.insert_new(
        "IF-MIB::ifName".to_string(),
        VarBind { name: vec![1, 3, 1], value: VarValue::Other },
    );
    oid_map.insert_new(
        "IF-MIB::ifInOctets".to_string(),
        VarBind { name: vec![1, 3, 2], value: VarValue::Other },
    );
    oid_map.insert_new(
        "IF-MIB::ifOutOctets".to_string(),
        VarBind { name: vec![1, 3, 3], value: VarValue::Other },
    );
    let plan = build_collect_map(&dev, &data, &oid_map);
    assert_eq!(plan.len(), 1);
    assert_eq!(plan[0].0.name, vec![1, 3, 1]);
    let value_oids: Vec<Vec<u64>> = plan[0].1.iter().map(|vb| vb.name.clone()).collect();
    assert_eq!(value_oids, vec![vec![1, 3, 2], vec![1, 3, 3]]);
}

#[test]
fn commands_know_their_phase() {
    assert!(!Command::ConfigTest.loads_mibs());
    assert!(Command::MibTest.loads_mibs());
    assert!(Command::PreflightCheck.is_check_only());
    assert!(!Command::ShowOutputKeys.is_check_only());
    assert!(Command::Run.runs_collection());
}
