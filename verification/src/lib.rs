//! Core of a home-automation runtime: a value store keyed by device and
//! feature, a typed publish/subscribe bus, an actor supervision table, and a
//! dataflow automation engine that compiles a node-and-wire graph into a
//! topologically ordered program and evaluates it over a snapshot of values.

use vstd::prelude::*;

pub mod actors;
pub mod amap;
pub mod automation;
pub mod crc;
pub mod device;
pub mod graph;
pub mod json;
pub mod mqtt;
pub mod mvec;
pub mod pipe;
pub mod program;
pub mod reach;
pub mod store;
pub mod worker;
pub mod zigbee;
pub mod toposort;

verus! {

/// Names one feature's live value slot: a `(device, feature)` pair.
#[derive(Debug, Clone, PartialEq, Eq, Hash)]
pub struct ValueId {
    pub device: String,
    pub feature: String,
}

impl View for ValueId {
    type V = (Seq<char>, Seq<char>);

    open spec fn view(&self) -> (Seq<char>, Seq<char>) {
        (self.device@, self.feature@)
    }
}

impl ValueId {
    pub fn new(device_id: &str, feature_id: &str) -> (r: ValueId)
        ensures
            r@ == (device_id@, feature_id@),
    {
        ValueId { device: device_id.to_owned(), feature: feature_id.to_owned() }
    }

    /// A copy naming the same value slot.
    pub fn dup(&self) -> (r: ValueId)
        ensures
            r@ == self@,
    {
        ValueId { device: self.device.clone(), feature: self.feature.clone() }
    }
}

impl crate::amap::AssocKey for ValueId {
    fn key_eq(&self, other: &Self) -> (r: bool) {
        self.device == other.device && self.feature == other.feature
    }
}

} // verus!
