//! Configuration maps: ordered string-keyed maps of dynamic values, carried
//! across the boundary in the object form of a dynamic value.

use vstd::prelude::*;
use crate::value::{
    entries_v, from_host, from_host_v, insert_entry, json_wf, keys_unique, lemma_round_trip,
    to_host, to_host_v, BridgeError, HostV, HostValue, Json, JsonV,
};

verus! {

/// A configuration map; its entries keep their insertion order.
#[derive(Debug, PartialEq)]
pub struct PipelineSyncData {
    pub entries: Vec<(String, Json)>,
}

/// The entries of a configuration read from a host value: the host value
/// must convert to an object.
pub open spec fn config_from_host_v(h: HostV) -> Result<Seq<(Seq<char>, JsonV)>, BridgeError> {
    match from_host_v(h) {
        Ok(JsonV::Object(es)) => Ok(es),
        Ok(_) => Err(BridgeError::UnsupportedType),
        Err(e) => Err(e),
    }
}

impl PipelineSyncData {
    /// The entries as keys and mathematical values.
    pub open spec fn view_entries(self) -> Seq<(Seq<char>, JsonV)> {
        entries_v(self.entries@)
    }

    /// No key repeats.
    pub open spec fn wf(self) -> bool {
        keys_unique(self.view_entries())
    }

    /// An empty configuration.
    pub fn new() -> (r: Self)
        ensures
            r.view_entries() == Seq::<(Seq<char>, JsonV)>::empty(),
            r.wf(),
    {
        let r = PipelineSyncData { entries: Vec::new() };
        assert(r.view_entries() =~= Seq::<(Seq<char>, JsonV)>::empty());
        r
    }

    /// Sets `key` to `value`: a present key keeps its place, a new one goes last.
    pub fn insert(&mut self, key: String, value: Json)
        requires
            old(self).wf(),
        ensures
            final(self).view_entries() == crate::value::obj_insert(
                old(self).view_entries(),
                key@,
                value.dv(),
            ),
            final(self).wf(),
    {
        insert_entry(&mut self.entries, key, value);
    }

    /// The object form of the configuration.
    pub fn into_json(self) -> (r: Json)
        ensures
            r.dv() == JsonV::Object(self.view_entries()),
    {
        let r = Json::Object(self.entries);
        assert(r.dv()->Object_0 =~= self.view_entries());
        r
    }

    /// Reads a configuration from a dynamic value, which must be an object.
    pub fn from_json(v: Json) -> (r: Result<Self, BridgeError>)
        ensures
            v.dv() is Object <==> r is Ok,
            r is Ok ==> JsonV::Object(r->Ok_0.view_entries()) == v.dv(),
            r is Err ==> r->Err_0 == BridgeError::UnsupportedType,
    {
        match v {
            Json::Object(entries) => {
                let r = PipelineSyncData { entries };
                assert(r.view_entries() =~= v.dv()->Object_0);
                Ok(r)
            },
            _ => Err(BridgeError::UnsupportedType),
        }
    }

    /// The host form of the configuration: a host mapping.
    pub fn into_py(self) -> (r: HostValue)
        ensures
            r.hv() == to_host_v(JsonV::Object(self.view_entries())),
    {
        let j = self.into_json();
        to_host(&j)
    }

    /// Reads a configuration from a host value.
    pub fn extract(h: &HostValue) -> (r: Result<Self, BridgeError>)
        ensures
            match r {
                Ok(c) => config_from_host_v(h.hv()) == Ok::<
                    Seq<(Seq<char>, JsonV)>,
                    BridgeError,
                >(c.view_entries()),
                Err(e) => config_from_host_v(h.hv()) == Err::<
                    Seq<(Seq<char>, JsonV)>,
                    BridgeError,
                >(e),
            },
    {
        match from_host(h) {
            Ok(j) => PipelineSyncData::from_json(j),
            Err(e) => Err(e),
        }
    }
}

/// Round trip: a configuration whose values are well formed reads back from
/// its host form with the same entries in the same order.
pub proof fn lemma_config_round_trip(c: PipelineSyncData)
    requires
        c.wf(),
        forall|i: int|
            0 <= i < c.view_entries().len() ==> json_wf(#[trigger] c.view_entries()[i].1),
    ensures
        config_from_host_v(to_host_v(JsonV::Object(c.view_entries()))) == Ok::<
            Seq<(Seq<char>, JsonV)>,
            BridgeError,
        >(c.view_entries()),
{
    lemma_round_trip(JsonV::Object(c.view_entries()));
}

} // verus!
