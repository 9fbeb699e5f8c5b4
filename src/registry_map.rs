//! The concurrent map that holds the sessions, from the `dashmap` crate.
//! Every mutation goes through `&mut`, so the contents after a call are
//! exactly what the call made of them.
use vstd::prelude::*;
use dashmap::DashMap;
use crate::session::{ClientConn, InitializeStatus, SessionId};

verus! {

#[verifier::external_type_specification]
#[verifier::external_body]
#[verifier::reject_recursive_types(K)]
#[verifier::reject_recursive_types(V)]
#[verifier::reject_recursive_types(S)]
pub struct ExDashMap<K, V, S>(DashMap<K, V, S>);

/// The map of sessions by identifier.
pub type SessionMap = DashMap<SessionId, ClientConn>;

/// The sessions that the map holds, by identifier.
pub uninterp spec fn dash_entries(m: SessionMap) -> Map<SessionId, ClientConn>;

/// The registry with no sessions.
pub open spec fn no_sessions() -> Map<SessionId, ClientConn> {
    Map::empty()
}

/// Relies on `DashMap::new`: a map with no entries.
#[verifier::external_body]
pub(crate) fn dash_new() -> (r: SessionMap)
    ensures
        dash_entries(r) == no_sessions(),
{
    DashMap::new()
}

/// Relies on `DashMap::insert`: afterwards `k` maps to `v`, every other
/// entry as before.
#[verifier::external_body]
pub(crate) fn dash_insert(m: &mut SessionMap, k: SessionId, v: ClientConn)
    ensures
        dash_entries(*final(m)) == dash_entries(*old(m)).insert(k, v),
{
    m.insert(k, v);
}

/// Relies on `DashMap::remove`: takes out the entry of `k` and hands back its
/// value, if there was one.
#[verifier::external_body]
pub(crate) fn dash_remove(m: &mut SessionMap, k: SessionId) -> (r: Option<ClientConn>)
    ensures
        dash_entries(*final(m)) == dash_entries(*old(m)).remove(k),
        dash_entries(*old(m)).contains_key(k) ==> r == Some(dash_entries(*old(m))[k]),
        !dash_entries(*old(m)).contains_key(k) ==> r is None,
{
    m.remove(&k).map(|(_, v)| v)
}

/// Relies on `DashMap::contains_key`.
#[verifier::external_body]
pub(crate) fn dash_contains(m: &SessionMap, k: SessionId) -> (r: bool)
    ensures
        r == dash_entries(*m).contains_key(k),
{
    m.contains_key(&k)
}

/// Relies on `DashMap::len`: the number of entries.
#[verifier::external_body]
pub(crate) fn dash_len(m: &SessionMap) -> (r: usize)
    ensures
        r == dash_entries(*m).len(),
{
    m.len()
}

/// Relies on `DashMap::get`: the handshake status held under `k`, if any.
#[verifier::external_body]
pub(crate) fn dash_status(m: &SessionMap, k: SessionId) -> (r: Option<InitializeStatus>)
    ensures
        dash_entries(*m).contains_key(k) ==> r == Some(dash_entries(*m)[k].initialize_status),
        !dash_entries(*m).contains_key(k) ==> r is None,
{
    m.get(&k).map(|c| c.initialize_status)
}

} // verus!
