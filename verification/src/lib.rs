//! Core of an SNMPv3 polling agent: symbolic MIB resolution, the
//! bulk-walk table join with its vendor fallback, configuration merging,
//! Carbon metric formatting, and the pacing and delivery disciplines.
//!
//! Network, file and crypto plumbing lives outside this crate; everything
//! here is pure logic over plain values and is verified.

pub mod text;

pub mod config;

pub mod mib;

pub mod startup;

pub mod cli;

pub mod snmp;

pub mod stat_result;

pub mod collector;

pub mod output;
