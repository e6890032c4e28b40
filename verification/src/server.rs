//! The server's registry of users and groups, and its answers to the
//! commands that clients send.
use vstd::prelude::*;
use dashmap::{DashMap, DashSet};

use crate::group::Group;
use crate::network::Packet;
use crate::network_command::{group_info_view, UserInfo};
use crate::network_group::remove_group;
use crate::registry::{
    group_id_set, group_table, group_table_get, group_table_insert, new_group_id_set,
    new_group_table, new_user_id_set, new_user_table, user_id_set, user_id_set_insert,
    user_id_set_remove, user_table, user_table_get, user_table_insert, user_table_remove,
};

verus! {

/// A registered user: id, name, whether it shows as online and shows its
/// group, whether it is open to echo, and the group it last joined.
#[derive(Debug, Clone)]
pub struct User {
    id: u64,
    username: String,
    show_online: bool,
    show_group: bool,
    open_to_echo: bool,
    group_info: Option<(u32, String)>,
}

/// The abstract value of a user.
pub struct UserView {
    pub id: u64,
    pub username: Seq<char>,
    pub show_online: bool,
    pub show_group: bool,
    pub open_to_echo: bool,
    pub group_info: Option<(u32, Seq<char>)>,
}

impl UserView {
    /// The same user with no group.
    pub open spec fn without_group(self) -> UserView {
        UserView { group_info: None, ..self }
    }

    /// The same user with the group `id` named `name`.
    pub open spec fn with_group(self, id: u32, name: Seq<char>) -> UserView {
        UserView { group_info: Some((id, name)), ..self }
    }

    /// The same user with the echo flag set to `b`.
    pub open spec fn with_echo(self, b: bool) -> UserView {
        UserView { open_to_echo: b, ..self }
    }

    /// The same user with the online flag set to `b`.
    pub open spec fn with_online(self, b: bool) -> UserView {
        UserView { show_online: b, ..self }
    }

    /// The group others see: the user's group if it shows it.
    pub open spec fn visible_group(self) -> Option<(u32, Seq<char>)> {
        if self.show_group {
            self.group_info
        } else {
            None
        }
    }
}

impl View for User {
    type V = UserView;

    closed spec fn view(&self) -> UserView {
        UserView {
            id: self.id,
            username: self.username@,
            show_online: self.show_online,
            show_group: self.show_group,
            open_to_echo: self.open_to_echo,
            group_info: group_info_view(self.group_info),
        }
    }
}

impl User {
    pub fn new(
        id: u64,
        username: String,
        show_online: bool,
        show_group: bool,
        open_to_echo: bool,
    ) -> (u: User)
        ensures
            u@ == (UserView {
                id,
                username: username@,
                show_online,
                show_group,
                open_to_echo,
                group_info: None,
            }),
    {
        User { id, username, show_online, show_group, open_to_echo, group_info: None }
    }

    pub fn username(&self) -> (n: &String)
        ensures
            n@ == self@.username,
    {
        &self.username
    }

    /// The user's group, when the user shows it.
    pub fn group(&self) -> (g: Option<(u32, String)>)
        ensures
            group_info_view(g) == self@.visible_group(),
    {
        if self.show_group {
            match &self.group_info {
                Some(gi) => Some((gi.0, gi.1.clone())),
                None => None,
            }
        } else {
            None
        }
    }

    pub fn open_to_echo(&self) -> (b: &bool)
        ensures
            *b == self@.open_to_echo,
    {
        &self.open_to_echo
    }

    /// What others are told of the user.
    pub fn user_info(&self) -> (i: UserInfo)
        ensures
            i.user_id == self@.id,
            i.open_to_echo == self@.open_to_echo,
            group_info_view(i.group_info) == self@.visible_group(),
    {
        UserInfo { user_id: self.id, open_to_echo: self.open_to_echo, group_info: self.group() }
    }

    pub fn online_status(&self) -> (b: &bool)
        ensures
            *b == self@.show_online,
    {
        &self.show_online
    }

    pub fn set_echo_status(&mut self, open_to_echo: bool)
        ensures
            final(self)@ == old(self)@.with_echo(open_to_echo),
    {
        self.open_to_echo = open_to_echo;
    }

    pub fn set_online_status(&mut self, online_status: bool)
        ensures
            final(self)@ == old(self)@.with_online(online_status),
    {
        self.show_online = online_status;
    }

    pub fn update_group_info(&mut self, group_id: u32, group_name: String)
        ensures
            final(self)@ == old(self)@.with_group(group_id, group_name@),
    {
        self.group_info = Some((group_id, group_name));
    }

    pub fn remove_group(&mut self)
        ensures
            final(self)@ == old(self)@.without_group(),
    {
        self.group_info = None;
    }
}

/// The registry of the server: users by id, the ids of users that show as
/// online and that are open to echo, groups by id, the ids of groups that
/// are visible and that are open, and the next ids to hand out.
pub struct Server {
    pub users: DashMap<u64, User>,
    pub online_users: DashSet<u64>,
    pub open_users: DashSet<u64>,
    pub next_user_id: u64,
    pub groups: DashMap<u32, Group>,
    pub visible_groups: DashSet<u32>,
    pub open_groups: DashSet<u32>,
    pub next_group_id: u32,
}

impl Server {
    pub open spec fn user_map(&self) -> Map<u64, User> {
        user_table(self.users)
    }

    pub open spec fn online_set(&self) -> Set<u64> {
        user_id_set(self.online_users)
    }

    pub open spec fn open_user_set(&self) -> Set<u64> {
        user_id_set(self.open_users)
    }

    pub open spec fn group_map(&self) -> Map<u32, Group> {
        group_table(self.groups)
    }

    pub open spec fn visible_set(&self) -> Set<u32> {
        group_id_set(self.visible_groups)
    }

    pub open spec fn open_group_set(&self) -> Set<u32> {
        group_id_set(self.open_groups)
    }

    /// The registry is consistent: a user's group exists and lists the
    /// user, a group is stored under its own id, and each id list holds exactly the entries with its flag set.
    pub open spec fn wf(&self) -> bool {
        &&& forall|u: u64|
            #![trigger self.user_map()[u]]
            self.user_map().contains_key(u) ==> match self.user_map()[u]@.group_info {
                Some((g, _)) => self.group_map().contains_key(g)
                    && self.group_map()[g].users@.contains_key(u),
                None => true,
            }
        &&& forall|u: u64|
            #![trigger self.online_set().contains(u)]
            self.online_set().contains(u) <==> self.user_map().contains_key(u)
                && self.user_map()[u]@.show_online
        &&& forall|u: u64|
            #![trigger self.open_user_set().contains(u)]
            self.open_user_set().contains(u) <==> self.user_map().contains_key(u)
                && self.user_map()[u]@.open_to_echo
        &&& forall|g: u32|
            #![trigger self.group_map()[g]]
            self.group_map().contains_key(g) ==> self.group_map()[g].id == g
        &&& forall|g: u32|
            #![trigger self.visible_set().contains(g)]
            self.visible_set().contains(g) <==> self.group_map().contains_key(g)
                && self.group_map()[g].visible
        &&& forall|g: u32|
            #![trigger self.open_group_set().contains(g)]
            self.open_group_set().contains(g) <==> self.group_map().contains_key(g)
                && self.group_map()[g].open
    }

    /// An empty registry; ids are handed out from 1.
    pub fn new() -> (s: Server)
        ensures
            s.wf(),
            s.user_map() == Map::<u64, User>::empty(),
            s.group_map() == Map::<u32, Group>::empty(),
            s.online_set() == Set::<u64>::empty(),
            s.open_user_set() == Set::<u64>::empty(),
            s.visible_set() == Set::<u32>::empty(),
            s.open_group_set() == Set::<u32>::empty(),
            s.next_user_id == 1,
            s.next_group_id == 1,
    {
        let s = Server {
            users: new_user_table(),
            online_users: new_user_id_set(),
            open_users: new_user_id_set(),
            next_user_id: 1,
            groups: new_group_table(),
            visible_groups: new_group_id_set(),
            open_groups: new_group_id_set(),
            next_group_id: 1,
        };
        assert(s.user_map() =~= Map::<u64, User>::empty());
        assert(s.group_map() =~= Map::<u32, Group>::empty());
        s
    }
}

/// Register `user` under `id`, replacing any user of that id, and list the
/// id as online or open to echo when the user is.
pub fn add_user(server: &mut Server, id: u64, user: User) -> (r: u64)
    ensures
        r == id,
        final(server).user_map() == old(server).user_map().insert(id, user),
        final(server).online_set() == (if user@.show_online {
            old(server).online_set().insert(id)
        } else {
            old(server).online_set()
        }),
        final(server).open_user_set() == (if user@.open_to_echo {
            old(server).open_user_set().insert(id)
        } else {
            old(server).open_user_set()
        }),
        final(server).group_map() == old(server).group_map(),
        final(server).visible_set() == old(server).visible_set(),
        final(server).open_group_set() == old(server).open_group_set(),
        final(server).next_user_id == old(server).next_user_id,
        final(server).next_group_id == old(server).next_group_id,
        old(server).wf() && !old(server).user_map().contains_key(id) && user@.group_info is None
            ==> final(server).wf(),
{
    let online = *user.online_status();
    let open = *user.open_to_echo();
    user_table_insert(&mut server.users, id, user);
    if online {
        user_id_set_insert(&mut server.online_users, id);
    }
    if open {
        user_id_set_insert(&mut server.open_users, id);
    }
    id
}

/// What registering a sender named `name` gives: it is stored under the
/// next user id `r`, shown as online, showing its group and open to echo,
/// with no group; the counter moves on, wrapping.
pub open spec fn registered(before: Server, after: Server, r: u64, name: Seq<char>) -> bool {
    &&& r == before.next_user_id
    &&& after.next_user_id == (if before.next_user_id == u64::MAX {
        0
    } else {
        (before.next_user_id + 1) as u64
    })
    &&& after.user_map().dom() == before.user_map().dom().insert(r)
    &&& after.user_map()[r]@ == (UserView {
        id: r,
        username: name,
        show_online: true,
        show_group: true,
        open_to_echo: true,
        group_info: None,
    })
    &&& forall|u: u64|
        u != r && #[trigger] after.user_map().contains_key(u) ==> after.user_map()[u]
            == before.user_map()[u]
    &&& after.online_set() == before.online_set().insert(r)
    &&& after.open_user_set() == before.open_user_set().insert(r)
    &&& after.group_map() == before.group_map()
    &&& after.visible_set() == before.visible_set()
    &&& after.open_group_set() == before.open_group_set()
    &&& after.next_group_id == before.next_group_id
}

/// Register the sender of a first packet under the next user id, shown as
/// online, showing its group and open to echo; the id counter wraps.
pub fn register_new_user(server: &mut Server, packet: Packet) -> (r: u64)
    ensures
        registered(*old(server), *final(server), r, packet.username@),
        old(server).wf() && !old(server).user_map().contains_key(old(server).next_user_id)
            ==> final(server).wf(),
{
    let user_id = server.next_user_id;
    let username = packet.username;
    let user = User::new(user_id, username, true, true, true);
    let r = add_user(server, user_id, user);
    server.next_user_id = user_id.wrapping_add(1);
    r
}


/// Two registries hold the same entries and counters.
pub open spec fn same_registry(a: Server, b: Server) -> bool {
    &&& b.user_map() == a.user_map()
    &&& b.online_set() == a.online_set()
    &&& b.open_user_set() == a.open_user_set()
    &&& b.group_map() == a.group_map()
    &&& b.visible_set() == a.visible_set()
    &&& b.open_group_set() == a.open_group_set()
    &&& b.next_user_id == a.next_user_id
    &&& b.next_group_id == a.next_group_id
}

/// `b`'s user table is `a`'s with the user `uid` now viewed as `v`.
pub open spec fn user_updated(a: Server, b: Server, uid: u64, v: UserView) -> bool {
    &&& b.user_map().dom() == a.user_map().dom()
    &&& b.user_map()[uid]@ == v
    &&& forall|u: u64|
        #![trigger b.user_map()[u]]
        u != uid && b.user_map().contains_key(u) ==> b.user_map()[u] == a.user_map()[u]
}

/// The group recorded for a user view, if any (0 when there is none).
pub open spec fn group_of(v: UserView) -> u32 {
    match v.group_info {
        Some((g, _)) => g,
        None => 0,
    }
}

/// Whether the user `u` (if registered) has a group that is not registered.
pub open spec fn group_missing(server: Server, u: u64) -> bool {
    server.user_map().contains_key(u) && match server.user_map()[u]@.group_info {
        Some((g, _)) => !server.group_map().contains_key(g),
        None => false,
    }
}

/// Whether the user `uid` is registered with a group that is not; removing
/// such a user is not possible.
pub fn group_is_missing(server: &Server, uid: u64) -> (b: bool)
    ensures
        b == group_missing(*server, uid),
{
    match user_table_get(&server.users, uid) {
        Some(user) => match &user.group_info {
            Some((g, _)) => group_table_get(&server.groups, *g).is_none(),
            None => false,
        },
        None => false,
    }
}

/// What unregistering the user `uid` gives: it leaves the table and the
/// online and echo lists; its group loses it as member, and is dropped when
/// left without members.
pub open spec fn user_removed(before: Server, after: Server, uid: u64) -> bool {
    &&& after.user_map() == before.user_map().remove(uid)
    &&& after.online_set() == before.online_set().remove(uid)
    &&& after.open_user_set() == before.open_user_set().remove(uid)
    &&& after.next_user_id == before.next_user_id
    &&& after.next_group_id == before.next_group_id
    &&& if before.user_map().contains_key(uid) && before.user_map()[uid]@.group_info is Some {
        let g = group_of(before.user_map()[uid]@);
        let left = before.group_map()[g].users@.remove(uid);
        if left.is_empty() {
            &&& after.group_map() == before.group_map().remove(g)
            &&& after.visible_set() == before.visible_set().remove(g)
            &&& after.open_group_set() == before.open_group_set().remove(g)
        } else {
            &&& after.group_map().dom() == before.group_map().dom()
            &&& forall|h: u32| #![trigger after.group_map()[h]]
                h != g && after.group_map().contains_key(h) ==> after.group_map()[h] == before.group_map()[h]
            &&& after.group_map()[g].users@ == left
            &&& after.group_map()[g].group_name == before.group_map()[g].group_name
            &&& after.group_map()[g].id == before.group_map()[g].id
            &&& after.group_map()[g].visible == before.group_map()[g].visible
            &&& after.group_map()[g].open == before.group_map()[g].open
            &&& after.group_map()[g].host == before.group_map()[g].host
            &&& after.visible_set() == before.visible_set()
            &&& after.open_group_set() == before.open_group_set()
        }
    } else {
        &&& after.group_map() == before.group_map()
        &&& after.visible_set() == before.visible_set()
        &&& after.open_group_set() == before.open_group_set()
    }
}

/// Unregister a user: it leaves the online and echo lists and the user
/// table, and its group loses it as member; a group left without members is
/// dropped.
pub fn remove_user(server: &mut Server, user_id: &u64)
    requires
        !group_missing(*old(server), *user_id),
    ensures
        user_removed(*old(server), *final(server), *user_id),
        old(server).wf() ==> final(server).wf(),
{
    let ghost start = *server;
    user_id_set_remove(&mut server.online_users, *user_id);
    user_id_set_remove(&mut server.open_users, *user_id);
    let removed = user_table_remove(&mut server.users, *user_id);
    proof {
        if start.wf() {
            lemma_wf_after_user_removed(start, *server, *user_id);
        }
    }
    if let Some((_, user)) = removed {
        assert(user@ == start.user_map()[*user_id]@);
        if let Some((group_id, _)) = user.group_info {
            assert(group_id == group_of(user@));
            let mut group = match group_table_get(&server.groups, group_id) {
                Some(grp) => grp,
                None => {
                    proof {
                        assert(false);
                    }
                    return;
                },
            };
            let ghost old_group = group;
            group.users.remove(user_id);
            assert(group.users@ == old_group.users@.remove(*user_id));
            let ghost mid = *server;
            if group.users.is_empty() {
                proof {
                    if start.wf() {
                        assert forall|u: u64|
                            #![trigger mid.user_map()[u]]
                            mid.user_map().contains_key(u) implies !(mid.user_map()[u]@.group_info matches Some(
                                (h, _),
                            ) && h == group_id) by {
                            assert(start.user_map().contains_key(u));
                            assert(mid.user_map()[u] == start.user_map()[u]);
                            if mid.user_map()[u]@.group_info matches Some((h, _)) && h == group_id {
                                assert(start.group_map()[group_id].users@.contains_key(u));
                                assert(group.users@.contains_key(u));
                            }
                        }
                    }
                }
                remove_group(server, &group_id);
            } else {
                group_table_insert(&mut server.groups, group_id, group);
                proof {
                    if start.wf() {
                        lemma_wf_after_member_left(mid, *server, group_id, *user_id);
                    }
                    assert(server.group_map().dom() =~= start.group_map().dom());
                }
            }
        }
    }
}

/// Dropping a user from the lists and the table of a consistent registry
/// leaves a consistent registry.
proof fn lemma_wf_after_user_removed(before: Server, after: Server, u0: u64)
    requires
        before.wf(),
        after.user_map() == before.user_map().remove(u0),
        after.online_set() == before.online_set().remove(u0),
        after.open_user_set() == before.open_user_set().remove(u0),
        after.group_map() == before.group_map(),
        after.visible_set() == before.visible_set(),
        after.open_group_set() == before.open_group_set(),
    ensures
        after.wf(),
{
    assert forall|u: u64| #![trigger after.online_set().contains(u)] after.online_set().contains(u) <==> after.user_map().contains_key(u) && after.user_map()[u]@.show_online by {
        assert(before.online_set().contains(u) <==> before.user_map().contains_key(u) && before.user_map()[u]@.show_online);
    }
    assert forall|u: u64| #![trigger after.open_user_set().contains(u)] after.open_user_set().contains(u) <==> after.user_map().contains_key(u) && after.user_map()[u]@.open_to_echo by {
        assert(before.open_user_set().contains(u) <==> before.user_map().contains_key(u) && before.user_map()[u]@.open_to_echo);
    }
    assert forall|u: u64| #![trigger after.user_map()[u]] after.user_map().contains_key(u) implies match after.user_map()[u]@.group_info {
        Some((g, _)) => after.group_map().contains_key(g) && after.group_map()[g].users@.contains_key(u),
        None => true,
    } by {
        assert(before.user_map()[u] == after.user_map()[u]);
    }
}

/// Replacing a group by the same group without one member, in a
/// consistent registry where that member is not registered, leaves a
/// consistent registry.
proof fn lemma_wf_after_member_left(before: Server, after: Server, g0: u32, u0: u64)
    requires
        before.wf(),
        !before.user_map().contains_key(u0),
        before.group_map().contains_key(g0),
        after.group_map().contains_key(g0),
        after.group_map() == before.group_map().insert(g0, after.group_map()[g0]),
        after.group_map()[g0].users@ == before.group_map()[g0].users@.remove(u0),
        after.group_map()[g0].id == before.group_map()[g0].id,
        after.group_map()[g0].visible == before.group_map()[g0].visible,
        after.group_map()[g0].open == before.group_map()[g0].open,
        after.user_map() == before.user_map(),
        after.online_set() == before.online_set(),
        after.open_user_set() == before.open_user_set(),
        after.visible_set() == before.visible_set(),
        after.open_group_set() == before.open_group_set(),
    ensures
        after.wf(),
{
    assert forall|u: u64| #![trigger after.user_map()[u]] after.user_map().contains_key(u) implies match after.user_map()[u]@.group_info {
        Some((g, _)) => after.group_map().contains_key(g) && after.group_map()[g].users@.contains_key(u),
        None => true,
    } by {
        assert(before.user_map()[u] == after.user_map()[u]);
        if u == u0 {
        }
    }
    assert forall|g: u32| #![trigger after.visible_set().contains(g)] after.visible_set().contains(g) <==> after.group_map().contains_key(g) && after.group_map()[g].visible by {
        assert(before.visible_set().contains(g) <==> before.group_map().contains_key(g) && before.group_map()[g].visible);
    }
    assert forall|g: u32| #![trigger after.open_group_set().contains(g)] after.open_group_set().contains(g) <==> after.group_map().contains_key(g) && after.group_map()[g].open by {
        assert(before.open_group_set().contains(g) <==> before.group_map().contains_key(g) && before.group_map()[g].open);
    }
    assert forall|g: u32| #![trigger after.group_map()[g]] after.group_map().contains_key(g) implies after.group_map()[g].id == g by {
        assert(before.group_map()[g].id == g);
    }
}

/// Registering a user in a consistent registry and then unregistering it
/// leaves every table and list as it was; only the id counter has moved on.
pub proof fn lemma_register_then_remove(s0: Server, s1: Server, s2: Server, r: u64, name: Seq<char>)
    requires
        s0.wf(),
        !s0.user_map().contains_key(s0.next_user_id),
        registered(s0, s1, r, name),
        user_removed(s1, s2, r),
    ensures
        s2.user_map() == s0.user_map(),
        s2.online_set() == s0.online_set(),
        s2.open_user_set() == s0.open_user_set(),
        s2.group_map() == s0.group_map(),
        s2.visible_set() == s0.visible_set(),
        s2.open_group_set() == s0.open_group_set(),
        s2.next_group_id == s0.next_group_id,
        s2.next_user_id == s1.next_user_id,
{
    assert(s2.user_map() =~= s0.user_map()) by {
        assert forall|u: u64| s2.user_map().contains_key(u) implies s2.user_map()[u] == s0.user_map()[u] by {
            assert(s1.user_map().contains_key(u));
        }
    }
    assert(!s0.online_set().contains(r));
    assert(!s0.open_user_set().contains(r));
    assert(s2.online_set() =~= s0.online_set());
    assert(s2.open_user_set() =~= s0.open_user_set());
}

/// A registered user is stored under the id the counter held, with the name
/// it sent, shown as online, open to echo and without a group, and it is
/// on the online and echo lists; every user that was there stays as it was.
pub proof fn lemma_registered_user(before: Server, after: Server, r: u64, name: Seq<char>)
    requires
        registered(before, after, r, name),
    ensures
        r == before.next_user_id,
        after.user_map().contains_key(r),
        after.user_map()[r]@.id == r,
        after.user_map()[r]@.username == name,
        after.user_map()[r]@.show_online,
        after.user_map()[r]@.open_to_echo,
        after.user_map()[r]@.group_info is None,
        after.online_set().contains(r),
        after.open_user_set().contains(r),
        forall|u: u64|
            u != r && before.user_map().contains_key(u) ==> after.user_map().contains_key(u)
                && after.user_map()[u] == before.user_map()[u],
{
    assert forall|u: u64|
        u != r && before.user_map().contains_key(u) implies after.user_map().contains_key(u)
            && after.user_map()[u] == before.user_map()[u] by {
        assert(after.user_map().dom().contains(u));
    }
}

/// A removed user is gone from the table and from the online and echo
/// lists, every other user stays as it was and stays listed as before, and
/// the user is no longer a member of the group it was in.
pub proof fn lemma_removed_user_gone(before: Server, after: Server, uid: u64)
    requires
        user_removed(before, after, uid),
    ensures
        !after.user_map().contains_key(uid),
        !after.online_set().contains(uid),
        !after.open_user_set().contains(uid),
        forall|u: u64|
            u != uid && before.user_map().contains_key(u) ==> after.user_map().contains_key(u)
                && after.user_map()[u] == before.user_map()[u],
        forall|u: u64|
            u != uid ==> after.online_set().contains(u) == before.online_set().contains(u)
                && after.open_user_set().contains(u) == before.open_user_set().contains(u),
        before.user_map().contains_key(uid) && before.user_map()[uid]@.group_info is Some
            && after.group_map().contains_key(group_of(before.user_map()[uid]@)) ==> !after.group_map()[group_of(
            before.user_map()[uid]@,
        )].users@.contains_key(uid),
{
}

} // verus!
