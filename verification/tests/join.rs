use snmp_harvest::collector::join_value_table;
use snmp_harvest::collector::workaround_request_oids;
use snmp_harvest::collector::zip_workaround_responses;
use snmp_harvest::snmp::TimedBind;
use snmp_harvest::snmp::VarBind;
use snmp_harvest::snmp::VarValue;
use snmp_harvest::snmp::next_sibling;
use snmp_harvest::snmp::oid_less;
use snmp_harvest::snmp::process_bulk_batch;
use snmp_harvest::snmp::vec_to_var_binds;

fn tb(ts: u64, oid: Vec<u64>, value: VarValue) -> TimedBind {
    TimedBind { timestamp: ts, bind: VarBind { name: oid, value } }
}

fn name_row(idx: u64, label: &str) -> TimedBind {
    tb(10, vec![1, 3, 6, 1, 2, 1, 31, 1, 1, 1, 1, idx], VarValue::Str(label.as_bytes().to_vec()))
}

fn value_row(idx: u64, count: u64) -> TimedBind {
    tb(20, vec![1, 3, 6, 1, 2, 1, 2, 2, 1, 10, idx], VarValue::BigCounter(count))
}

#[test]
fn join_pairs_rows_by_trailing_sub_identifier() {
    let names = vec![name_row(1, "Eth0"), name_row(2, "Eth1")];
    let values = vec![value_row(1, 100), value_row(2, 200)];
    let (readings, missing) = join_value_table("sw1", &names, &values);
    assert!(missing.is_empty());
    assert_eq!(readings.len(), 2);
    assert_eq!(readings[0].device, "sw1");
    assert_eq!(readings[0].key.value, VarValue::Str(b"Eth0".to_vec()));
    assert_eq!(readings[0].value.value, VarValue::BigCounter(100));
    assert_eq!(readings[1].key.value, VarValue::Str(b"Eth1".to_vec()));
    assert_eq!(readings[1].value.value, VarValue::BigCounter(200));
    assert_eq!(
        readings[0].key.name.last().unwrap(),
        readings[0].value.name.last().unwrap()
    );
}

#[test]
fn join_notes_rows_missing_from_the_value_walk() {
    let names = vec![name_row(1, "Eth0"), name_row(2, "Eth1")];
    let values = vec![value_row(1, 100)];
    let (readings, missing) = join_value_table("sw1", &names, &values);
    assert_eq!(readings.len(), 1);
    assert_eq!(readings[0].value.value, VarValue::BigCounter(100));
    assert_eq!(missing.len(), 1);
    assert_eq!(missing[0].name, names[1].bind.name);
}

#[test]
fn join_with_an_empty_value_walk_marks_every_row_missing() {
    let names = vec![name_row(1, "Eth0"), name_row(2, "Eth1")];
    let values: Vec<TimedBind> = vec![];
    let (readings, missing) = join_value_table("sw1", &names, &values);
    assert!(readings.is_empty());
    assert_eq!(missing.len(), 2);
}

#[test]
fn join_stops_at_a_non_string_row_key() {
    let names = vec![
        name_row(1, "Eth0"),
        tb(10, vec![1, 3, 6, 1, 2], VarValue::Counter(9)),
        name_row(3, "Eth2"),
    ];
    let values = vec![value_row(1, 100), value_row(3, 300)];
    let (readings, missing) = join_value_table("sw1", &names, &values);
    assert_eq!(readings.len(), 1);
    assert!(missing.is_empty());
}

#[test]
fn join_keeps_the_value_walk_timestamp() {
    let names = vec![name_row(1, "Eth0")];
    let values = vec![value_row(1, 100)];
    let (readings, _) = join_value_table("sw1", &names, &values);
    assert_eq!(readings[0].timestamp, 20);
}

#[test]
fn workaround_rebuilds_missing_oids_from_the_first_value_row() {
    let missing = vec![
        VarBind { name: vec![9, 9, 2], value: VarValue::Str(b"Eth1".to_vec()) },
        VarBind { name: vec![9, 9, 7], value: VarValue::Str(b"Eth6".to_vec()) },
    ];
    let base = VarBind { name: vec![1, 3, 6, 1, 2, 1, 2, 2, 1, 10, 1], value: VarValue::BigCounter(5) };
    let requests = workaround_request_oids(&missing, &base);
    assert_eq!(requests.len(), 2);
    assert_eq!(requests[0].name, vec![1, 3, 6, 1, 2, 1, 2, 2, 1, 10, 2]);
    assert_eq!(requests[1].name, vec![1, 3, 6, 1, 2, 1, 2, 2, 1, 10, 7]);
}

#[test]
fn workaround_rewrites_no_such_instance_to_zero() {
    let missing = vec![VarBind { name: vec![9, 9, 2], value: VarValue::Str(b"Eth1".to_vec()) }];
    let responses = vec![tb(33, vec![1, 3, 6, 1, 2, 1, 2, 2, 1, 10, 2], VarValue::NoSuchInstance)];
    let readings = zip_workaround_responses("sw1", &missing, &responses);
    assert_eq!(readings.len(), 1);
    assert_eq!(readings[0].value.value, VarValue::BigCounter(0));
    assert_eq!(readings[0].key.name, vec![9, 9, 2]);
    assert_eq!(readings[0].timestamp, 33);
}

#[test]
fn workaround_keeps_real_answers_as_they_came() {
    let missing = vec![VarBind { name: vec![9, 9, 2], value: VarValue::Str(b"Eth1".to_vec()) }];
    let responses = vec![tb(33, vec![1, 2, 3, 2], VarValue::BigCounter(777))];
    let readings = zip_workaround_responses("sw1", &missing, &responses);
    assert_eq!(readings[0].value.value, VarValue::BigCounter(777));
}

#[test]
fn next_sibling_increments_the_last_sub_identifier() {
    assert_eq!(next_sibling(&vec![1, 3, 6, 1, 2]), vec![1, 3, 6, 1, 3]);
    assert_eq!(next_sibling(&vec![7, u64::MAX]), vec![7, 0]);
}

#[test]
fn oid_order_is_lexicographic() {
    assert!(oid_less(&vec![1, 3, 6], &vec![1, 3, 7]));
    assert!(oid_less(&vec![1, 3], &vec![1, 3, 1]));
    assert!(!oid_less(&vec![1, 3, 7], &vec![1, 3, 6, 9]));
    assert!(!oid_less(&vec![1, 3], &vec![1, 3]));
}

#[test]
fn bulk_batch_stops_at_the_subtree_end() {
    let end = next_sibling(&vec![1, 3, 6, 1, 2]);
    let binds = vec![
        VarBind { name: vec![1, 3, 6, 1, 2, 1], value: VarValue::Counter(1) },
        VarBind { name: vec![1, 3, 6, 1, 2, 9], value: VarValue::Counter(2) },
        VarBind { name: vec![1, 3, 6, 1, 3], value: VarValue::Counter(3) },
    ];
    let (kept, next) = process_bulk_batch(&end, &binds);
    assert_eq!(kept.len(), 2);
    assert!(next.is_none());
}

#[test]
fn bulk_batch_stops_at_end_of_mib_view() {
    let end = vec![9, 9, 9];
    let binds = vec![
        VarBind { name: vec![1, 1], value: VarValue::Counter(1) },
        VarBind { name: vec![1, 2], value: VarValue::EndOfMibView },
    ];
    let (kept, next) = process_bulk_batch(&end, &binds);
    assert_eq!(kept.len(), 1);
    assert!(next.is_none());
}

#[test]
fn bulk_batch_continues_from_the_last_binding() {
    let end = vec![9, 9, 9];
    let binds = vec![
        VarBind { name: vec![1, 1], value: VarValue::Counter(1) },
        VarBind { name: vec![1, 2], value: VarValue::Counter(2) },
    ];
    let (kept, next) = process_bulk_batch(&end, &binds);
    assert_eq!(kept.len(), 2);
    assert_eq!(next.unwrap(), vec![1, 2]);
}

#[test]
fn bulk_batch_ends_on_an_empty_response() {
    let (kept, next) = process_bulk_batch(&vec![9], &vec![]);
    assert!(kept.is_empty());
    assert!(next.is_none());
}

#[test]
fn vec_to_var_binds_carries_the_oid() {
    let vb = vec_to_var_binds(vec![1, 3, 6]);
    assert_eq!(vb.name, vec![1, 3, 6]);
    assert!(matches!(vb.value, VarValue::Other));
}
