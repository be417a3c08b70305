//! One reading produced by a device collector: a row key binding and a
//! value binding, stamped with the wall-clock second of receipt.

use vstd::prelude::*;

use crate::snmp::VarBind;
use crate::snmp::VarBindView;

verus! {

/// A reading handed from a collector to the formatter.
#[derive(Clone, Debug)]
pub struct SnmpStatResult {
    pub device: String,
    pub timestamp: u64,
    pub key: VarBind,
    pub value: VarBind,
}

/// Mathematical image of a `SnmpStatResult`.
pub struct SnmpStatResultView {
    pub device: Seq<char>,
    pub timestamp: u64,
    pub key: VarBindView,
    pub value: VarBindView,
}

impl View for SnmpStatResult {
    type V = SnmpStatResultView;

    open spec fn view(&self) -> SnmpStatResultView {
        SnmpStatResultView {
            device: self.device@,
            timestamp: self.timestamp,
            key: self.key@,
            value: self.value@,
        }
    }
}

} // verus!
