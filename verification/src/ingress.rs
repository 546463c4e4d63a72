//! What the ingress register knows of the sessions that routes came in by.

use crate::addr::IpAddr;
use vstd::prelude::*;

verus! {

/// Identifies an ingress: a session, or one path of an ADD-PATH session.
pub type IngressId = u32;

/// What kind of source an ingress is.
#[derive(Clone, Copy, Debug, PartialEq, Eq, Structural)]
pub enum IngressType {
    Bgp,
    /// One path of an ADD-PATH session; it has the session for a parent.
    BgpPath,
    Bmp,
    BgpViaBmp,
    Mrt,
    Rtr,
}

/// What is known of one ingress.
#[derive(Clone, Copy, Debug)]
pub struct IngressInfo {
    pub ingress_type: Option<IngressType>,
    pub parent_ingress: Option<IngressId>,
    pub path_id: Option<u32>,
    pub local_asn: Option<u32>,
    pub remote_asn: Option<u32>,
    pub remote_addr: Option<IpAddr>,
    pub bgp_id: Option<[u8; 4]>,
}

impl IngressInfo {
    /// An ingress of which nothing is known.
    pub fn new() -> (r: IngressInfo)
        ensures
            r.ingress_type is None,
            r.parent_ingress is None,
            r.path_id is None,
            r.local_asn is None,
            r.remote_asn is None,
            r.remote_addr is None,
            r.bgp_id is None,
    {
        IngressInfo {
            ingress_type: None,
            parent_ingress: None,
            path_id: None,
            local_asn: None,
            remote_asn: None,
            remote_addr: None,
            bgp_id: None,
        }
    }
}

/// The session that a route came in by, and which of its paths the route is.
#[derive(Clone, Copy, Debug, PartialEq, Eq, Structural)]
pub struct RouteSource {
    pub ingress_id: IngressId,
    pub path_id: Option<u32>,
}

/// A path of an ADD-PATH session comes from its parent, anything else from
/// itself.
pub open spec fn source_of(id: IngressId, info: Option<IngressInfo>) -> RouteSource {
    match info {
        Some(info) => match (info.ingress_type, info.parent_ingress) {
            (Some(IngressType::BgpPath), Some(parent)) => RouteSource {
                ingress_id: parent,
                path_id: info.path_id,
            },
            _ => RouteSource { ingress_id: id, path_id: None },
        },
        None => RouteSource { ingress_id: id, path_id: None },
    }
}

impl RouteSource {
    /// Finds the session behind an ingress.
    pub fn resolve(id: IngressId, info: Option<&IngressInfo>) -> (r: RouteSource)
        ensures
            r == source_of(
                id,
                match info {
                    Some(info) => Some(*info),
                    None => None,
                },
            ),
    {
        match info {
            Some(info) => match (info.ingress_type, info.parent_ingress) {
                (Some(IngressType::BgpPath), Some(parent)) => RouteSource {
                    ingress_id: parent,
                    path_id: info.path_id,
                },
                _ => RouteSource { ingress_id: id, path_id: None },
            },
            None => RouteSource { ingress_id: id, path_id: None },
        }
    }
}

/// A path of a session comes from the session behind it and keeps its number;
/// any other ingress is its own source and has no number of a path.
pub proof fn paths_come_from_their_session(id: IngressId, info: IngressInfo)
    ensures
        info.ingress_type == Some(IngressType::BgpPath) && info.parent_ingress is Some ==> source_of(
            id,
            Some(info),
        ).ingress_id == info.parent_ingress->0 && source_of(id, Some(info)).path_id == info.path_id,
        info.ingress_type != Some(IngressType::BgpPath) || info.parent_ingress is None
            ==> source_of(id, Some(info)).ingress_id == id && source_of(id, Some(info)).path_id
            is None,
        source_of(id, None).ingress_id == id && source_of(id, None).path_id is None,
{
}

} // verus!
