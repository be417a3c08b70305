use snmp_harvest::mib::Assignment;
use snmp_harvest::mib::Import;
use snmp_harvest::mib::MibError;
use snmp_harvest::mib::MibInfo;
use snmp_harvest::mib::Module;
use snmp_harvest::mib::build_snmp_mib_tree;
use snmp_harvest::mib::find_module;
use snmp_harvest::mib::parse_assignment_value;
use snmp_harvest::mib::split_symbolic;

fn asg(name: &str, value: &str) -> Assignment {
    Assignment { name: name.to_string(), value: Some(value.to_string()) }
}

fn smi_module() -> Module {
    Module {
        name: "SNMPv2-SMI".to_string(),
        assignments: vec![
            asg("org", "OBJECT-IDENTIFIER iso 3"),
            asg("dod", "OBJECT-IDENTIFIER org 6"),
            asg("internet", "OBJECT-IDENTIFIER dod 1"),
            asg("mgmt", "OBJECT-IDENTIFIER internet 2"),
            asg("mib-2", "OBJECT-IDENTIFIER mgmt 1"),
        ],
        imports: vec![],
    }
}

fn if_mib_module() -> Module {
    Module {
        name: "IF-MIB".to_string(),
        assignments: vec![
            asg("interfaces", "OBJECT-IDENTIFIER mib-2 2"),
            asg("ifTable", "OBJECT-IDENTIFIER interfaces 2"),
            asg("ifName", "OBJECT-TYPE ifTable 1"),
        ],
        imports: vec![Import { name: "mib-2".to_string(), from: "SNMPv2-SMI".to_string() }],
    }
}

fn corpus() -> Vec<MibInfo> {
    vec![
        MibInfo { modules: vec![smi_module()] },
        MibInfo { modules: vec![if_mib_module()] },
    ]
}

#[test]
fn resolves_if_table_through_import() {
    let mibs = corpus();
    let oid = build_snmp_mib_tree(&"IF-MIB::ifTable".to_string(), &mibs).unwrap();
    assert_eq!(oid, vec![1, 3, 6, 1, 2, 1, 2, 2]);
}

#[test]
fn resolved_oids_are_rooted_at_iso() {
    let mibs = corpus();
    for symbol in ["IF-MIB::ifTable", "IF-MIB::ifName", "SNMPv2-SMI::mib-2"] {
        let oid = build_snmp_mib_tree(&symbol.to_string(), &mibs).unwrap();
        assert_eq!(oid[0], 1);
    }
}

#[test]
fn resolution_is_deterministic() {
    let mibs = corpus();
    let a = build_snmp_mib_tree(&"IF-MIB::ifName".to_string(), &mibs).unwrap();
    let b = build_snmp_mib_tree(&"IF-MIB::ifName".to_string(), &mibs).unwrap();
    assert_eq!(a, b);
    assert_eq!(a, vec![1, 3, 6, 1, 2, 1, 2, 2, 1]);
}

#[test]
fn iso_is_the_hard_coded_anchor() {
    let mibs = corpus();
    let oid = build_snmp_mib_tree(&"SNMPv2-SMI::iso".to_string(), &mibs).unwrap();
    assert_eq!(oid, vec![1]);
}

#[test]
fn unknown_module_is_reported() {
    let mibs = corpus();
    let err = build_snmp_mib_tree(&"NO-SUCH-MIB::thing".to_string(), &mibs).unwrap_err();
    assert!(matches!(err, MibError::ModuleNotFound { .. }));
}

#[test]
fn unknown_symbol_is_reported() {
    let mibs = corpus();
    let err = build_snmp_mib_tree(&"IF-MIB::ifNonsense".to_string(), &mibs).unwrap_err();
    assert!(matches!(err, MibError::CannotResolve { .. }));
}

#[test]
fn assignment_cycle_is_detected() {
    let looped = Module {
        name: "LOOP-MIB".to_string(),
        assignments: vec![asg("a", "OBJECT-IDENTIFIER b 1"), asg("b", "OBJECT-IDENTIFIER a 2")],
        imports: vec![],
    };
    let mibs = vec![MibInfo { modules: vec![looped] }];
    let err = build_snmp_mib_tree(&"LOOP-MIB::a".to_string(), &mibs).unwrap_err();
    assert!(matches!(err, MibError::ResolutionCycle { .. }));
}

#[test]
fn valueless_assignment_is_malformed() {
    let broken = Module {
        name: "BAD-MIB".to_string(),
        assignments: vec![Assignment { name: "x".to_string(), value: None }],
        imports: vec![],
    };
    let mibs = vec![MibInfo { modules: vec![broken] }];
    let err = build_snmp_mib_tree(&"BAD-MIB::x".to_string(), &mibs).unwrap_err();
    assert!(matches!(err, MibError::MalformedAssignment { .. }));
}

#[test]
fn short_assignment_value_is_malformed() {
    let broken = Module {
        name: "BAD-MIB".to_string(),
        assignments: vec![asg("x", "onlytwo tokens")],
        imports: vec![],
    };
    let mibs = vec![MibInfo { modules: vec![broken] }];
    let err = build_snmp_mib_tree(&"BAD-MIB::x".to_string(), &mibs).unwrap_err();
    assert!(matches!(err, MibError::MalformedAssignment { .. }));
}

#[test]
fn non_numeric_sub_identifier_is_malformed() {
    let broken = Module {
        name: "BAD-MIB".to_string(),
        assignments: vec![asg("x", "OBJECT-IDENTIFIER iso many")],
        imports: vec![],
    };
    let mibs = vec![MibInfo { modules: vec![broken] }];
    let err = build_snmp_mib_tree(&"BAD-MIB::x".to_string(), &mibs).unwrap_err();
    assert!(matches!(err, MibError::MalformedAssignment { .. }));
}

#[test]
fn parse_assignment_value_reads_parent_and_number() {
    let parsed = parse_assignment_value("OBJECT-IDENTIFIER mgmt 1").unwrap();
    assert_eq!(parsed.0, "mgmt");
    assert_eq!(parsed.1, 1);
}

#[test]
fn parse_assignment_value_rejects_overflow() {
    assert!(parse_assignment_value("K parent 99999999999999999999999").is_none());
}

#[test]
fn split_symbolic_requires_exactly_one_separator() {
    let (module, symbol) = split_symbolic("IF-MIB::ifTable").unwrap();
    assert_eq!(module, "IF-MIB");
    assert_eq!(symbol, "ifTable");
    assert!(split_symbolic("no-separator").is_none());
    assert!(split_symbolic("a::b::c").is_none());
}

#[test]
fn find_module_scans_files_in_order() {
    let mibs = corpus();
    let found = find_module("IF-MIB", &mibs).unwrap();
    assert_eq!(found.name, "IF-MIB");
    assert!(find_module("OTHER", &mibs).is_none());
}
