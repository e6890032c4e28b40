//! The concurrent tables of the server, from the `dashmap` crate, and what
//! this crate relies on of the few methods it calls.
use vstd::prelude::*;
use dashmap::{DashMap, DashSet};

use crate::group::Group;
use crate::server::User;

verus! {

#[verifier::external_type_specification]
#[verifier::external_body]
#[verifier::reject_recursive_types(K)]
#[verifier::reject_recursive_types(V)]
#[verifier::reject_recursive_types(S)]
pub struct ExDashMap<K, V, S>(DashMap<K, V, S>);

#[verifier::external_type_specification]
#[verifier::external_body]
#[verifier::reject_recursive_types(K)]
#[verifier::reject_recursive_types(S)]
pub struct ExDashSet<K, S>(DashSet<K, S>);

/// The table of users by id.
pub type UserTable = DashMap<u64, User>;

/// The table of groups by id.
pub type GroupTable = DashMap<u32, Group>;

/// The entries of a user table.
pub uninterp spec fn user_table(m: DashMap<u64, User>) -> Map<u64, User>;

/// The entries of a group table.
pub uninterp spec fn group_table(m: DashMap<u32, Group>) -> Map<u32, Group>;

/// The members of a set of user ids.
pub uninterp spec fn user_id_set(s: DashSet<u64>) -> Set<u64>;

/// The members of a set of group ids.
pub uninterp spec fn group_id_set(s: DashSet<u32>) -> Set<u32>;

/// Calls `DashMap::new`: a table with no entries.
#[verifier::external_body]
pub(crate) fn new_user_table() -> (table: UserTable)
    ensures
        user_table(table).dom().is_empty(),
{
    DashMap::new()
}

/// Calls `DashMap::insert`: the entry for `k` becomes `v`; the previous
/// value for `k`, if any, is returned.
#[verifier::external_body]
pub(crate) fn user_table_insert(m: &mut DashMap<u64, User>, k: u64, v: User) -> (r: Option<User>)
    ensures
        user_table(*final(m)) == user_table(*old(m)).insert(k, v),
        r == (if user_table(*old(m)).contains_key(k) {
            Some(user_table(*old(m))[k])
        } else {
            None
        }),
{
    m.insert(k, v)
}

/// Calls `DashMap::remove`: the entry for `k`, if any, leaves the table and
/// is returned with its key.
#[verifier::external_body]
pub(crate) fn user_table_remove(m: &mut DashMap<u64, User>, k: u64) -> (r: Option<(u64, User)>)
    ensures
        user_table(*final(m)) == user_table(*old(m)).remove(k),
        r == (if user_table(*old(m)).contains_key(k) {
            Some((k, user_table(*old(m))[k]))
        } else {
            None
        }),
{
    m.remove(&k)
}

/// Calls `DashMap::get` and clones the value found: the value for `k`, if
/// any.
#[verifier::external_body]
pub(crate) fn user_table_get(m: &DashMap<u64, User>, k: u64) -> (r: Option<User>)
    ensures
        r == (if user_table(*m).contains_key(k) {
            Some(user_table(*m)[k])
        } else {
            None
        }),
{
    m.get(&k).map(|e| e.value().clone())
}

/// Calls `DashMap::new`: a table with no entries.
#[verifier::external_body]
pub(crate) fn new_group_table() -> (table: GroupTable)
    ensures
        group_table(table).dom().is_empty(),
{
    DashMap::new()
}

/// Calls `DashMap::insert`: the entry for `k` becomes `v`; the previous
/// value for `k`, if any, is returned.
#[verifier::external_body]
pub(crate) fn group_table_insert(m: &mut DashMap<u32, Group>, k: u32, v: Group) -> (r: Option<
    Group,
>)
    ensures
        group_table(*final(m)) == group_table(*old(m)).insert(k, v),
        r == (if group_table(*old(m)).contains_key(k) {
            Some(group_table(*old(m))[k])
        } else {
            None
        }),
{
    m.insert(k, v)
}

/// Calls `DashMap::remove`: the entry for `k`, if any, leaves the table and
/// is returned with its key.
#[verifier::external_body]
pub(crate) fn group_table_remove(m: &mut DashMap<u32, Group>, k: u32) -> (r: Option<(u32, Group)>)
    ensures
        group_table(*final(m)) == group_table(*old(m)).remove(k),
        r == (if group_table(*old(m)).contains_key(k) {
            Some((k, group_table(*old(m))[k]))
        } else {
            None
        }),
{
    m.remove(&k)
}

/// Calls `DashMap::get` and clones the value found: the value for `k`, if
/// any.
#[verifier::external_body]
pub(crate) fn group_table_get(m: &DashMap<u32, Group>, k: u32) -> (r: Option<Group>)
    ensures
        r == (if group_table(*m).contains_key(k) {
            Some(group_table(*m)[k])
        } else {
            None
        }),
{
    m.get(&k).map(|e| e.value().clone())
}

/// Calls `DashSet::new`: a set with no members.
#[verifier::external_body]
pub(crate) fn new_user_id_set() -> (s: DashSet<u64>)
    ensures
        user_id_set(s) == Set::<u64>::empty(),
{
    DashSet::new()
}

/// Calls `DashSet::insert`: `k` becomes a member; the result tells whether
/// it was not one before.
#[verifier::external_body]
pub(crate) fn user_id_set_insert(s: &mut DashSet<u64>, k: u64) -> (r: bool)
    ensures
        user_id_set(*final(s)) == user_id_set(*old(s)).insert(k),
        r == !user_id_set(*old(s)).contains(k),
{
    s.insert(k)
}

/// Calls `DashSet::remove`: `k` stops being a member; it is returned when
/// it was one.
#[verifier::external_body]
pub(crate) fn user_id_set_remove(s: &mut DashSet<u64>, k: u64) -> (r: Option<u64>)
    ensures
        user_id_set(*final(s)) == user_id_set(*old(s)).remove(k),
        r == (if user_id_set(*old(s)).contains(k) {
            Some(k)
        } else {
            None
        }),
{
    s.remove(&k)
}

/// Calls `DashSet::iter` and collects the members, each once, in the order
/// in which the set yields them, which the set leaves open.
#[verifier::external_body]
pub(crate) fn user_id_set_members(s: &DashSet<u64>) -> (v: Vec<u64>)
    ensures
        v@.no_duplicates(),
        v@.to_set() == user_id_set(*s),
{
    s.iter().map(|e| *e.key()).collect()
}

/// Calls `DashSet::new`: a set with no members.
#[verifier::external_body]
pub(crate) fn new_group_id_set() -> (s: DashSet<u32>)
    ensures
        group_id_set(s) == Set::<u32>::empty(),
{
    DashSet::new()
}

/// Calls `DashSet::insert`: `k` becomes a member; the result tells whether
/// it was not one before.
#[verifier::external_body]
pub(crate) fn group_id_set_insert(s: &mut DashSet<u32>, k: u32) -> (r: bool)
    ensures
        group_id_set(*final(s)) == group_id_set(*old(s)).insert(k),
        r == !group_id_set(*old(s)).contains(k),
{
    s.insert(k)
}

/// Calls `DashSet::remove`: `k` stops being a member; it is returned when
/// it was one.
#[verifier::external_body]
pub(crate) fn group_id_set_remove(s: &mut DashSet<u32>, k: u32) -> (r: Option<u32>)
    ensures
        group_id_set(*final(s)) == group_id_set(*old(s)).remove(k),
        r == (if group_id_set(*old(s)).contains(k) {
            Some(k)
        } else {
            None
        }),
{
    s.remove(&k)
}

} // verus!
