//! The group operations the network side of the server uses: registering a
//! group and dropping it from the tables.
use vstd::prelude::*;

use crate::group::Group;
use crate::registry::{group_id_set_remove, group_table_remove};
use crate::server::Server;

verus! {

/// Register a group under `id`, as [`crate::group::add_group`] does.
pub fn add_group(server: &mut Server, id: u32, group: Group) -> (r: u32)
    ensures
        r == id,
        final(server).group_map() == old(server).group_map().insert(id, group),
        final(server).visible_set() == (if group.visible {
            old(server).visible_set().insert(id)
        } else {
            old(server).visible_set()
        }),
        final(server).open_group_set() == (if group.open {
            old(server).open_group_set().insert(id)
        } else {
            old(server).open_group_set()
        }),
        final(server).user_map() == old(server).user_map(),
        final(server).online_set() == old(server).online_set(),
        final(server).open_user_set() == old(server).open_user_set(),
        final(server).next_user_id == old(server).next_user_id,
        final(server).next_group_id == old(server).next_group_id,
        old(server).wf() && !old(server).group_map().contains_key(id) && group.id == id
            ==> final(server).wf(),
{
    crate::group::add_group(server, id, group)
}

/// Drop the group `id` from the group table and from the visible and open
/// lists; the members' own records are left as they are.
pub fn remove_group(server: &mut Server, id: &u32)
    ensures
        final(server).group_map() == old(server).group_map().remove(*id),
        final(server).visible_set() == old(server).visible_set().remove(*id),
        final(server).open_group_set() == old(server).open_group_set().remove(*id),
        final(server).user_map() == old(server).user_map(),
        final(server).online_set() == old(server).online_set(),
        final(server).open_user_set() == old(server).open_user_set(),
        final(server).next_user_id == old(server).next_user_id,
        final(server).next_group_id == old(server).next_group_id,
        old(server).wf() && (forall|u: u64|
            #![trigger old(server).user_map()[u]]
            old(server).user_map().contains_key(u) ==> !(old(server).user_map()[u]@.group_info matches Some(
                (g, _),
            ) && g == *id)) ==> final(server).wf(),
{
    group_table_remove(&mut server.groups, *id);
    group_id_set_remove(&mut server.visible_groups, *id);
    group_id_set_remove(&mut server.open_groups, *id);
}

} // verus!
