use snmp_harvest::config::NameMap;
use snmp_harvest::output::FormatError;
use snmp_harvest::output::format_carbon;
use snmp_harvest::output::format_key;
use snmp_harvest::output::format_reading;
use snmp_harvest::output::memory_estimate;
use snmp_harvest::output::sanitize_carbon;
use snmp_harvest::snmp::VarBind;
use snmp_harvest::snmp::VarValue;
use snmp_harvest::snmp::var_bind_to_i128;
use snmp_harvest::snmp::var_numeric_value_to_string;
use snmp_harvest::stat_result::SnmpStatResult;
use snmp_harvest::text::u64_to_decimal;

#[test]
fn sanitize_rewrites_the_three_separators() {
    assert_eq!(sanitize_carbon("a-b.c/d"), "a_b__c_d");
}

#[test]
fn sanitize_keeps_clean_strings() {
    assert_eq!(sanitize_carbon("router_A7"), "router_A7");
    assert_eq!(sanitize_carbon(""), "");
}

#[test]
fn sanitize_is_idempotent() {
    for s in ["a-b.c/d", "x.y", "plain", "-/."] {
        let once = sanitize_carbon(s);
        let twice = sanitize_carbon(once.as_str());
        assert_eq!(once, twice);
    }
}

#[test]
fn format_key_sanitizes_device_and_instance_only() {
    let key = format_key("router-A", "Ethernet1/1", "ifInOctets");
    assert_eq!(key, "router_A.Ethernet1_1.ifInOctets");
}

#[test]
fn format_carbon_builds_the_line() {
    let line = format_carbon("net", "router_A.Ethernet1_1.ifInOctets", "42", 1700000000);
    assert_eq!(line, "net.router_A.Ethernet1_1.ifInOctets 42 1700000000");
}

#[test]
fn decimal_rendering_of_u64() {
    assert_eq!(u64_to_decimal(0), "0");
    assert_eq!(u64_to_decimal(42), "42");
    assert_eq!(u64_to_decimal(u64::MAX), "18446744073709551615");
}

#[test]
fn value_strings_follow_the_numeric_rules() {
    assert_eq!(var_numeric_value_to_string(&VarValue::Int(-5)).unwrap(), "-5");
    assert_eq!(var_numeric_value_to_string(&VarValue::Counter(7)).unwrap(), "7");
    assert_eq!(var_numeric_value_to_string(&VarValue::UnsignedInt(8)).unwrap(), "8");
    assert_eq!(var_numeric_value_to_string(&VarValue::BigCounter(9)).unwrap(), "9");
    assert_eq!(
        var_numeric_value_to_string(&VarValue::Str(b"Eth0".to_vec())).unwrap(),
        "Eth0"
    );
    assert_eq!(
        var_numeric_value_to_string(&VarValue::ObjectId(vec![1, 3, 6, 1])).unwrap(),
        "1.3.6.1"
    );
    assert!(var_numeric_value_to_string(&VarValue::NoSuchInstance).is_none());
    assert!(var_numeric_value_to_string(&VarValue::Other).is_none());
}

#[test]
fn invalid_utf8_is_replaced_not_dropped() {
    let s = var_numeric_value_to_string(&VarValue::Str(vec![0x45, 0xff])).unwrap();
    assert_eq!(s, "E\u{fffd}");
}

#[test]
fn numeric_readings_cover_the_four_integer_variants() {
    assert_eq!(var_bind_to_i128(VarBind { name: vec![1], value: VarValue::Int(-3) }), Some(-3));
    assert_eq!(
        var_bind_to_i128(VarBind { name: vec![1], value: VarValue::Counter(4) }),
        Some(4)
    );
    assert_eq!(
        var_bind_to_i128(VarBind { name: vec![1], value: VarValue::UnsignedInt(5) }),
        Some(5)
    );
    assert_eq!(
        var_bind_to_i128(VarBind { name: vec![1], value: VarValue::BigCounter(u64::MAX) }),
        Some(u64::MAX as i128)
    );
    assert_eq!(
        var_bind_to_i128(VarBind { name: vec![1], value: VarValue::Str(b"x".to_vec()) }),
        None
    );
}

fn sample_oid_map() -> NameMap<VarBind> {
    let mut map = NameMap::new();
    map.insert_new(
        "IF-MIB::ifInOctets".to_string(),
        VarBind { name: vec![1, 3, 6, 1, 2, 2], value: VarValue::Other },
    );
    map
}

fn sample_reading(key_value: VarValue, value_value: VarValue) -> SnmpStatResult {
    SnmpStatResult {
        device: "router-A".to_string(),
        timestamp: 1700000000,
        key: VarBind { name: vec![1, 3, 9, 7], value: key_value },
        value: VarBind { name: vec![1, 3, 6, 1, 2, 2, 7], value: value_value },
    }
}

#[test]
fn format_reading_builds_the_metric() {
    let map = sample_oid_map();
    let reading = sample_reading(
        VarValue::Str(b"Ethernet1/1".to_vec()),
        VarValue::BigCounter(42),
    );
    let metric = format_reading(&map, &reading).unwrap();
    assert_eq!(metric.metric, "router_A.Ethernet1_1.ifInOctets");
    assert_eq!(metric.value, "42");
    assert_eq!(metric.timestamp, 1700000000);
    let line = format_carbon("net", metric.metric.as_str(), metric.value.as_str(), metric.timestamp);
    assert_eq!(line, "net.router_A.Ethernet1_1.ifInOctets 42 1700000000");
}

#[test]
fn format_reading_refuses_an_unknown_value_column() {
    let map = sample_oid_map();
    let mut reading = sample_reading(
        VarValue::Str(b"Ethernet1/1".to_vec()),
        VarValue::BigCounter(42),
    );
    reading.value.name = vec![9, 9, 9, 1];
    assert_eq!(
        format_reading(&map, &reading).unwrap_err(),
        FormatError::UnknownValueColumn
    );
}

#[test]
fn format_reading_refuses_an_unprintable_row_key() {
    let map = sample_oid_map();
    let reading = sample_reading(VarValue::NoSuchInstance, VarValue::BigCounter(42));
    assert_eq!(
        format_reading(&map, &reading).unwrap_err(),
        FormatError::KeyNotPrintable
    );
}

#[test]
fn format_reading_refuses_a_non_numeric_value() {
    let map = sample_oid_map();
    let reading = sample_reading(
        VarValue::Str(b"Ethernet1/1".to_vec()),
        VarValue::Str(b"not-a-number".to_vec()),
    );
    assert_eq!(
        format_reading(&map, &reading).unwrap_err(),
        FormatError::ValueNotNumeric
    );
}

#[test]
fn memory_estimate_multiplies_and_saturates() {
    assert_eq!(memory_estimate(10, 96), 960);
    assert_eq!(memory_estimate(u64::MAX, 2), u64::MAX);
}
