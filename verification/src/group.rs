//! Groups of users on the server, and the group operations that keep the
//! members' own records in step.
use vstd::prelude::*;
use std::collections::BTreeMap;

use crate::network_command::GroupInfo;
use crate::registry::{
    group_id_set_insert, group_id_set_remove, group_table_get, group_table_insert,
    group_table_remove, user_table_get, user_table_insert,
};
use crate::server::Server;
use vstd::std_specs::btree::{axiom_spec_keys_iter, spec_keys_iter};
use vstd::std_specs::iter::IteratorSpec;

verus! {

/// A group: its name and id, whether it is listed and open to join, its
/// members by id with their usernames, and its host.
#[derive(Debug, Clone)]
pub struct Group {
    pub group_name: String,
    pub id: u32,
    pub visible: bool,
    pub open: bool,
    pub users: BTreeMap<u64, String>,
    pub host: u64,
}

impl Group {
    /// The description of the group that is sent to clients.
    pub fn get_info(&self) -> (info: GroupInfo)
        ensures
            info.id == self.id,
            info.name@ == self.group_name@,
            info.visible == self.visible,
            info.open == self.open,
            info.users@ == self.users@,
            info.host == self.host,
    {
        GroupInfo {
            id: self.id,
            name: self.group_name.clone(),
            visible: self.visible,
            open: self.open,
            users: self.users.clone(),
            host: self.host,
        }
    }
}

/// Register a group under `id`: it replaces any group of that id, and its
/// id is listed as visible or open when the group is.
pub fn add_group(server: &mut Server, id: u32, group: Group) -> (r: u32)
    ensures
        r == id,
        final(server).group_map() == old(server).group_map().insert(id, group),
        final(server).visible_set() == (if group.visible {
            old(server).visible_set().insert(id)
        } else {
            old(server).visible_set()
        }),
        final(server).open_group_set() == (if group.open {
            old(server).open_group_set().insert(id)
        } else {
            old(server).open_group_set()
        }),
        final(server).user_map() == old(server).user_map(),
        final(server).online_set() == old(server).online_set(),
        final(server).open_user_set() == old(server).open_user_set(),
        final(server).next_user_id == old(server).next_user_id,
        final(server).next_group_id == old(server).next_group_id,
        old(server).wf() && !old(server).group_map().contains_key(id) && group.id == id
            ==> final(server).wf(),
{
    let visible = group.visible;
    let open = group.open;
    group_table_insert(&mut server.groups, id, group);
    if visible {
        group_id_set_insert(&mut server.visible_groups, id);
    }
    if open {
        group_id_set_insert(&mut server.open_groups, id);
    }
    id
}

/// Remove the group `id`: every member first loses its group record, then
/// the group leaves the table and the visible and open lists.
pub fn remove_group(server: &mut Server, id: &u32)
    requires
        old(server).group_map().contains_key(*id) ==> forall|u: u64|
            old(server).group_map()[*id].users@.contains_key(u) ==> old(server).user_map().contains_key(u),
    ensures
        final(server).user_map().dom() == old(server).user_map().dom(),
        forall|u: u64|
            #![trigger final(server).user_map()[u]]
            old(server).user_map().contains_key(u) ==> final(server).user_map()[u]@ == (if old(server).group_map().contains_key(*id) && old(server).group_map()[*id].users@.contains_key(u) {
                old(server).user_map()[u]@.without_group()
            } else {
                old(server).user_map()[u]@
            }),
        final(server).group_map() == old(server).group_map().remove(*id),
        final(server).visible_set() == old(server).visible_set().remove(*id),
        final(server).open_group_set() == old(server).open_group_set().remove(*id),
        final(server).online_set() == old(server).online_set(),
        final(server).open_user_set() == old(server).open_user_set(),
        final(server).next_user_id == old(server).next_user_id,
        final(server).next_group_id == old(server).next_group_id,
        old(server).wf() ==> final(server).wf(),
{
    let ghost start = *server;
    if let Some(group) = group_table_get(&server.groups, *id) {
        let ghost members = group.users@;
        let keys = member_ids(&group);
        let mut i: usize = 0;
        while i < keys.len()
            invariant
                keys@.no_duplicates(),
                keys@.to_set() == members.dom(),
                members == start.group_map()[*id].users@,
                start.group_map().contains_key(*id),
                forall|u: u64| members.contains_key(u) ==> start.user_map().contains_key(u),
                i <= keys.len(),
                server.user_map().dom() == start.user_map().dom(),
                forall|u: u64|
                    #![trigger server.user_map()[u]]
                    start.user_map().contains_key(u) ==> server.user_map()[u]@ == (if keys@.take(
                        i as int,
                    ).contains(u) {
                        start.user_map()[u]@.without_group()
                    } else {
                        start.user_map()[u]@
                    }),
                server.group_map() == start.group_map(),
                server.visible_set() == start.visible_set(),
                server.open_group_set() == start.open_group_set(),
                server.online_set() == start.online_set(),
                server.open_user_set() == start.open_user_set(),
                server.next_user_id == start.next_user_id,
                server.next_group_id == start.next_group_id,
            decreases keys.len() - i,
        {
            let uid = keys[i];
            proof {
                assert(keys@.to_set().contains(uid));
                assert(!keys@.take(i as int).contains(uid)) by {
                    if keys@.take(i as int).contains(uid) {
                        let w = choose|w: int| 0 <= w < i && keys@.take(i as int)[w] == uid;
                        assert(keys@[w] == keys@[i as int]);
                    }
                }
            }
            let mut user = match user_table_get(&server.users, uid) {
                Some(u) => u,
                None => {
                    proof {
                        assert(false);
                    }
                    return;
                },
            };
            let ghost before = server.user_map();
            user.remove_group();
            user_table_insert(&mut server.users, uid, user);
            proof {
                assert(keys@.take(i + 1) =~= keys@.take(i as int).push(uid));
                assert(server.user_map().dom() =~= start.user_map().dom());
                assert forall|u: u64|
                    #![trigger server.user_map()[u]]
                    start.user_map().contains_key(u) implies server.user_map()[u]@ == (if keys@.take(
                        i + 1,
                    ).contains(u) {
                        start.user_map()[u]@.without_group()
                    } else {
                        start.user_map()[u]@
                    }) by {
                    if u == uid {
                        assert(keys@.take(i + 1)[i as int] == uid);
                    } else {
                        assert(server.user_map()[u] == before[u]);
                        let t0 = keys@.take(i as int);
                        let t1 = keys@.take(i + 1);
                        assert(t1 == t0.push(uid));
                        assert(t1.contains(u) == t0.contains(u)) by {
                            if t1.contains(u) {
                                let w = choose|w: int| 0 <= w < t1.len() && #[trigger] t1[w] == u;
                                assert(w < i);
                                assert(t0[w] == u);
                            }
                            if t0.contains(u) {
                                let w = choose|w: int| 0 <= w < t0.len() && #[trigger] t0[w] == u;
                                assert(t1[w] == u);
                            }
                        }
                    }
                }
            }
            i = i + 1;
        }
        proof {
            assert(keys@.take(keys.len() as int) =~= keys@);
            assert forall|u: u64| keys@.contains(u) <==> members.contains_key(u) by {
                assert(keys@.to_set().contains(u) <==> keys@.contains(u));
            }
        }
    }
    let ghost cleared = *server;
    assert(forall|u: u64|
        #![trigger cleared.user_map()[u]]
        start.user_map().contains_key(u) ==> cleared.user_map()[u]@ == (if start.group_map().contains_key(*id)
            && start.group_map()[*id].users@.contains_key(u) {
            start.user_map()[u]@.without_group()
        } else {
            start.user_map()[u]@
        })) by {
        if !start.group_map().contains_key(*id) {
            assert(cleared.user_map() == start.user_map());
        }
    }
    group_table_remove(&mut server.groups, *id);
    group_id_set_remove(&mut server.visible_groups, *id);
    group_id_set_remove(&mut server.open_groups, *id);
    proof {
        if start.wf() {
            assert forall|u: u64| #![trigger server.user_map()[u]] server.user_map().contains_key(u) implies match server.user_map()[u]@.group_info {
                Some((g, _)) => server.group_map().contains_key(g) && server.group_map()[g].users@.contains_key(u),
                None => true,
            } by {
                assert(cleared.user_map()[u] == server.user_map()[u]);
                assert(start.user_map().contains_key(u));
                if start.group_map().contains_key(*id) && start.group_map()[*id].users@.contains_key(u) {
                } else {
                    assert(server.user_map()[u]@ == start.user_map()[u]@);
                    match start.user_map()[u]@.group_info {
                        Some((g, _)) => {
                            assert(start.group_map().contains_key(g));
                            assert(g != *id);
                        },
                        None => {},
                    }
                }
            }
            assert forall|u: u64| #![trigger server.online_set().contains(u)] server.online_set().contains(u) <==> server.user_map().contains_key(u) && server.user_map()[u]@.show_online by {
                assert(server.online_set() == start.online_set());
                assert(start.online_set().contains(u) <==> start.user_map().contains_key(u) && start.user_map()[u]@.show_online);
                if server.user_map().contains_key(u) {
                    assert(cleared.user_map()[u] == server.user_map()[u]);
                    assert(start.user_map().contains_key(u));
                    assert(server.user_map()[u]@.show_online == start.user_map()[u]@.show_online);
                }
            }
            assert forall|u: u64| #![trigger server.open_user_set().contains(u)] server.open_user_set().contains(u) <==> server.user_map().contains_key(u) && server.user_map()[u]@.open_to_echo by {
                assert(server.open_user_set() == start.open_user_set());
                assert(start.open_user_set().contains(u) <==> start.user_map().contains_key(u) && start.user_map()[u]@.open_to_echo);
                if server.user_map().contains_key(u) {
                    assert(cleared.user_map()[u] == server.user_map()[u]);
                    assert(start.user_map().contains_key(u));
                    assert(server.user_map()[u]@.open_to_echo == start.user_map()[u]@.open_to_echo);
                }
            }
        }
    }
}

/// The ids of the members of a group, each once.
fn member_ids(group: &Group) -> (v: Vec<u64>)
    ensures
        v@.no_duplicates(),
        v@.to_set() == group.users@.dom(),
{
    let ghost keys_seq = spec_keys_iter(&group.users).remaining();
    proof {
        axiom_spec_keys_iter(&group.users);
    }
    let mut v: Vec<u64> = Vec::new();
    for k in it: group.users.keys()
        invariant
            it.seq() == keys_seq,
            v@ == it.seq().take(it.index() as int).unref(),
    {
        v.push(*k);
        assert(v@ =~= it.seq().take(it.index() + 1).unref());
    }
    assert(v@ =~= keys_seq.unref());
    v
}

} // verus!
