//! Endpoint instances.

use crate::keyed_table::{KeyedTable, TableKey};
use vstd::prelude::*;

verus! {

/// Identity of one endpoint instance.
#[derive(Debug)]
pub struct EndpointInstanceId {
    pub namespace: String,
    pub component: String,
    pub endpoint: String,
    pub instance_id: u64,
}

/// An endpoint instance as a mathematical value.
pub struct InstanceKey {
    pub namespace: Seq<char>,
    pub component: Seq<char>,
    pub endpoint: Seq<char>,
    pub instance_id: u64,
}

impl View for EndpointInstanceId {
    type V = InstanceKey;

    open spec fn view(&self) -> InstanceKey {
        InstanceKey {
            namespace: self.namespace@,
            component: self.component@,
            endpoint: self.endpoint@,
            instance_id: self.instance_id,
        }
    }
}

impl Clone for EndpointInstanceId {
    fn clone(&self) -> (r: Self)
        ensures
            r@ == self@,
    {
        EndpointInstanceId {
            namespace: self.namespace.clone(),
            component: self.component.clone(),
            endpoint: self.endpoint.clone(),
            instance_id: self.instance_id,
        }
    }
}

impl TableKey for EndpointInstanceId {
    type Key = InstanceKey;

    open spec fn key(&self) -> InstanceKey {
        self@
    }

    /// Whether both name the same instance.
    fn same(&self, other: &EndpointInstanceId) -> (r: bool) {
        self.instance_id == other.instance_id && self.endpoint == other.endpoint && self.component
            == other.component && self.namespace == other.namespace
    }

    fn duplicate(&self) -> (r: Self) {
        self.clone()
    }
}

/// A table with at most one value for each endpoint instance.
pub type InstanceTable<V> = KeyedTable<EndpointInstanceId, V>;

/// Two instances are the same just if they agree in namespace, component,
/// endpoint and number.
pub proof fn instances_are_told_apart(a: EndpointInstanceId, b: EndpointInstanceId)
    ensures
        a@ == b@ <==> a.namespace@ == b.namespace@ && a.component@ == b.component@ && a.endpoint@
            == b.endpoint@ && a.instance_id == b.instance_id,
        a.key() == b.key() <==> a@ == b@,
{
}

} // verus!
