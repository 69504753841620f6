//! Grouping of keyed meshes into groups of bounded size. Each group is a
//! queue: where new meshes do not fit, the oldest make room and move on to
//! the next group.

use crate::mesh::can_sum;
use crate::mesh::INDEX_LIMIT;
use crate::mesh::lemma_join;
use crate::mesh::Mesh;
use crate::mesh::mesh_sum;
use crate::mesh::MeshView;
use std::collections::HashMap;
use std::collections::VecDeque;
use vstd::prelude::*;

verus! {

/// The vertices of the meshes, counted together.
pub open spec fn weight(members: Seq<(u64, Mesh)>) -> nat
    decreases members.len(),
{
    if members.len() == 0 {
        0
    } else {
        weight(members.drop_last()) + members.last().1@.vertices.len()
    }
}

/// What the meshes hold, in order.
pub open spec fn member_meshes(members: Seq<(u64, Mesh)>) -> Seq<MeshView> {
    Seq::new(members.len(), |i: int| members[i].1@)
}

/// Every mesh is index-safe.
pub open spec fn members_safe(members: Seq<(u64, Mesh)>) -> bool {
    forall|i: int| 0 <= i < members.len() ==> (#[trigger] members[i]).1@.index_safe()
}

/// Whether a member has the key.
pub open spec fn has_key(members: Seq<(u64, Mesh)>, key: u64) -> bool {
    exists|i: int| 0 <= i < members.len() && (#[trigger] members[i]).0 == key
}

/// The place of the first member with the key; the number of members where
/// there is none.
pub open spec fn first_with_key(members: Seq<(u64, Mesh)>, key: u64) -> int
    decreases members.len(),
{
    if members.len() == 0 {
        0
    } else if members[0].0 == key {
        0
    } else {
        1 + first_with_key(members.drop_first(), key)
    }
}

/// How many of the oldest members have to leave so that the rest and
/// `incoming` more vertices stay within `max_vertices`.
pub open spec fn evicted(members: Seq<(u64, Mesh)>, incoming: nat, max_vertices: nat) -> nat
    decreases members.len(),
{
    if members.len() == 0 || weight(members) + incoming <= max_vertices {
        0
    } else {
        1 + evicted(members.drop_first(), incoming, max_vertices)
    }
}

/// The weight of members put together is the sum of their weights.
pub proof fn lemma_weight_concat(a: Seq<(u64, Mesh)>, b: Seq<(u64, Mesh)>)
    ensures
        weight(a + b) == weight(a) + weight(b),
    decreases b.len(),
{
    if b.len() == 0 {
        assert(a + b =~= a);
    } else {
        lemma_weight_concat(a, b.drop_last());
        assert((a + b).drop_last() =~= a + b.drop_last());
        assert((a + b).last() == b.last());
    }
}

/// The weight of members is that of the first and that of the rest.
pub proof fn lemma_weight_first(members: Seq<(u64, Mesh)>)
    requires
        members.len() > 0,
    ensures
        weight(members) == members[0].1@.vertices.len() + weight(members.drop_first()),
{
    let first = members.subrange(0, 1);
    assert(first.drop_last() =~= Seq::<(u64, Mesh)>::empty());
    assert(weight(first.drop_last()) == 0);
    assert(weight(first) == members[0].1@.vertices.len());
    assert(first + members.drop_first() =~= members);
    lemma_weight_concat(first, members.drop_first());
}

/// Taking a member out lowers the weight by its vertices.
pub proof fn lemma_weight_remove(members: Seq<(u64, Mesh)>, i: int)
    requires
        0 <= i < members.len(),
    ensures
        weight(members) == weight(members.remove(i)) + members[i].1@.vertices.len(),
{
    let before = members.subrange(0, i);
    let from = members.subrange(i, members.len() as int);
    assert(before + from =~= members);
    lemma_weight_concat(before, from);
    lemma_weight_first(from);
    assert(before + from.drop_first() =~= members.remove(i));
    lemma_weight_concat(before, from.drop_first());
}

/// Index-safe meshes of no more than `INDEX_LIMIT` vertices together can be
/// joined one after the other, and their sum has all their vertices.
pub proof fn lemma_members_sum(members: Seq<(u64, Mesh)>)
    requires
        members_safe(members),
        weight(members) <= INDEX_LIMIT,
    ensures
        can_sum(member_meshes(members)),
        mesh_sum(member_meshes(members)).index_safe(),
        mesh_sum(member_meshes(members)).vertices.len() == weight(members),
    decreases members.len(),
{
    let meshes = member_meshes(members);
    if members.len() > 0 {
        lemma_members_sum(members.drop_last());
        assert(meshes.drop_last() =~= member_meshes(members.drop_last()));
        assert(meshes.last() == members.last().1@);
        lemma_join(mesh_sum(meshes.drop_last()), meshes.last());
    }
}

/// A queue of keyed meshes whose vertices together stay within a limit.
pub struct MeshQueue {
    meshes: VecDeque<(u64, Mesh)>,
    total_vertices: usize,
    max_vertices: usize,
    dirty: bool,
}

impl MeshQueue {
    /// The members, oldest first.
    pub closed spec fn members(&self) -> Seq<(u64, Mesh)> {
        self.meshes@
    }

    /// The most vertices that the members may have together.
    pub closed spec fn max_vertices(&self) -> nat {
        self.max_vertices as nat
    }

    /// Whether the members changed since their mesh was last asked for.
    pub closed spec fn dirty(&self) -> bool {
        self.dirty
    }

    /// The queue keeps count of its vertices, which stay within its limit
    /// and within the index limit, and every mesh in it is index-safe.
    pub closed spec fn wf(&self) -> bool {
        &&& self.total_vertices == weight(self.meshes@)
        &&& self.total_vertices <= self.max_vertices
        &&& self.max_vertices <= INDEX_LIMIT
        &&& members_safe(self.meshes@)
    }

    /// What `wf` says of the members.
    pub proof fn lemma_wf(&self)
        requires
            self.wf(),
        ensures
            weight(self.members()) <= self.max_vertices() <= INDEX_LIMIT,
            members_safe(self.members()),
    {
    }

    /// An empty queue for `max_vertices` vertices at most.
    pub fn new(max_vertices: usize) -> (queue: MeshQueue)
        requires
            max_vertices <= INDEX_LIMIT,
        ensures
            queue.wf(),
            queue.members() == Seq::<(u64, Mesh)>::empty(),
            queue.max_vertices() == max_vertices,
            !queue.dirty(),
    {
        MeshQueue { meshes: VecDeque::new(), total_vertices: 0, max_vertices, dirty: false }
    }

    /// Adds the new members at the back. Before that the oldest members
    /// leave, as many as it takes for the new ones to fit and no more; they
    /// are returned, oldest first, with the number of their vertices.
    pub fn push(&mut self, new_members: Vec<(u64, Mesh)>, total_new_vertices: usize) -> (r: (
        Vec<(u64, Mesh)>,
        usize,
    ))
        requires
            old(self).wf(),
            total_new_vertices <= old(self).max_vertices(),
            total_new_vertices == weight(new_members@),
            members_safe(new_members@),
        ensures
            final(self).wf(),
            final(self).max_vertices() == old(self).max_vertices(),
            final(self).dirty(),
            r.0@.len() == evicted(
                old(self).members(),
                total_new_vertices as nat,
                old(self).max_vertices(),
            ),
            r.0@.len() <= old(self).members().len(),
            r.0@ == old(self).members().subrange(0, r.0@.len() as int),
            final(self).members() == old(self).members().subrange(
                r.0@.len() as int,
                old(self).members().len() as int,
            ) + new_members@,
            r.1 == weight(r.0@),
            r.1 <= old(self).max_vertices(),
            members_safe(r.0@),
    {
        let mut dropped: Vec<(u64, Mesh)> = Vec::new();
        let mut total_dropped_vertices: usize = 0;
        let ghost before = self.meshes@;
        proof {
            assert(before.subrange(0, 0) =~= Seq::<(u64, Mesh)>::empty());
            assert(before.subrange(0, before.len() as int) =~= before);
        }
        while self.total_vertices > self.max_vertices - total_new_vertices
            invariant
                self.max_vertices == old(self).max_vertices,
                self.dirty == old(self).dirty,
                total_new_vertices <= self.max_vertices,
                self.max_vertices <= INDEX_LIMIT,
                before == old(self).meshes@,
                members_safe(before),
                dropped@.len() <= before.len(),
                dropped@ == before.subrange(0, dropped@.len() as int),
                self.meshes@ == before.subrange(dropped@.len() as int, before.len() as int),
                self.total_vertices == weight(self.meshes@),
                total_dropped_vertices == weight(dropped@),
                total_dropped_vertices + self.total_vertices == weight(before),
                weight(before) <= self.max_vertices,
                evicted(before, total_new_vertices as nat, self.max_vertices as nat)
                    == dropped@.len() + evicted(
                    self.meshes@,
                    total_new_vertices as nat,
                    self.max_vertices as nat,
                ),
            decreases self.meshes@.len(),
        {
            let ghost queue = self.meshes@;
            let ghost gone = dropped@;
            proof {
                if queue.len() > 0 {
                    lemma_weight_first(queue);
                }
            }
            match self.meshes.pop_front() {
                Some(next_member_to_drop) => {
                    let count: usize = next_member_to_drop.1.vertices.len();
                    self.total_vertices = self.total_vertices - count;
                    total_dropped_vertices = total_dropped_vertices + count;
                    dropped.push(next_member_to_drop);
                    proof {
                        assert(queue.drop_first() =~= self.meshes@);
                        assert(dropped@ =~= before.subrange(0, dropped@.len() as int));
                        assert(self.meshes@ =~= before.subrange(
                            dropped@.len() as int,
                            before.len() as int,
                        ));
                        assert(dropped@.drop_last() =~= gone);
                    }
                },
                None => {
                    proof {
                        assert(weight(queue) == 0);
                    }
                },
            }
        }
        let ghost kept = self.meshes@;
        let mut new_members = new_members;
        let ghost added = new_members@;
        while new_members.len() > 0
            invariant
                self.max_vertices == old(self).max_vertices,
                self.total_vertices == weight(kept),
                self.meshes@ + new_members@ == kept + added,
            decreases new_members.len(),
        {
            let ghost queue = self.meshes@;
            let ghost rest = new_members@;
            let member = new_members.remove(0);
            self.meshes.push_back(member);
            proof {
                assert(self.meshes@ + new_members@ =~= queue + rest);
            }
        }
        proof {
            assert(self.meshes@ =~= kept + added);
            lemma_weight_concat(kept, added);
        }
        self.total_vertices = self.total_vertices + total_new_vertices;
        self.dirty = true;
        (dropped, total_dropped_vertices)
    }

    /// Takes out the first member with the given key.
    pub fn remove(&mut self, key: &u64)
        requires
            old(self).wf(),
            has_key(old(self).members(), *key),
        ensures
            final(self).wf(),
            final(self).max_vertices() == old(self).max_vertices(),
            final(self).dirty(),
            final(self).members() == old(self).members().remove(
                first_with_key(old(self).members(), *key),
            ),
    {
        let mut index: usize = 0;
        let ghost before = self.meshes@;
        proof {
            assert(before.subrange(0, before.len() as int) =~= before);
        }
        while index < self.meshes.len() && self.meshes[index].0 != *key
            invariant
                self.meshes@ == before,
                index <= before.len(),
                forall|j: int| 0 <= j < index ==> (#[trigger] before[j]).0 != *key,
                first_with_key(before, *key) == index + first_with_key(
                    before.subrange(index as int, before.len() as int),
                    *key,
                ),
            decreases before.len() - index,
        {
            proof {
                assert(before.subrange(index as int, before.len() as int).drop_first()
                    =~= before.subrange(index + 1, before.len() as int));
            }
            index = index + 1;
        }
        let removed = self.meshes.remove(index);
        match removed {
            Some(old_member) => {
                proof {
                    lemma_weight_remove(before, index as int);
                }
                self.total_vertices = self.total_vertices - old_member.1.vertices.len();
            },
            None => {},
        }
        self.dirty = true;
    }

    /// The meshes of the members joined in order, if the members changed
    /// since this was last asked.
    pub fn get_mesh_if_changed(&mut self) -> (r: Option<Mesh>)
        requires
            old(self).wf(),
        ensures
            final(self).wf(),
            final(self).members() == old(self).members(),
            final(self).max_vertices() == old(self).max_vertices(),
            !final(self).dirty(),
            match r {
                Some(mesh) => old(self).dirty() && mesh@ == mesh_sum(
                    member_meshes(old(self).members()),
                ),
                None => !old(self).dirty(),
            },
    {
        if self.dirty {
            self.dirty = false;
            let mut total = Mesh::empty();
            let mut i: usize = 0;
            let ghost members = self.meshes@;
            proof {
                assert(member_meshes(members.subrange(0, 0)) =~= Seq::<MeshView>::empty());
            }
            while i < self.meshes.len()
                invariant
                    i <= members.len(),
                    self.meshes@ == members,
                    members_safe(members),
                    weight(members) <= INDEX_LIMIT,
                    total@ == mesh_sum(member_meshes(members.subrange(0, i as int))),
                decreases members.len() - i,
            {
                proof {
                    let upto = members.subrange(0, i + 1);
                    assert(upto.drop_last() =~= members.subrange(0, i as int));
                    assert(member_meshes(upto).drop_last() =~= member_meshes(
                        members.subrange(0, i as int),
                    ));
                    assert(member_meshes(upto).last() == members[i as int].1@);
                    assert(members_safe(upto)) by {
                        assert forall|j: int| 0 <= j < upto.len() implies (#[trigger] upto[j]).1@.index_safe() by {
                            assert(upto[j] == members[j]);
                        }
                    }
                    assert(upto + members.subrange(i + 1, members.len() as int) =~= members);
                    lemma_weight_concat(upto, members.subrange(i + 1, members.len() as int));
                    lemma_members_sum(upto);
                }
                total.add_assign(&self.meshes[i].1);
                i = i + 1;
            }
            proof {
                assert(members.subrange(0, members.len() as int) =~= members);
            }
            Some(total)
        } else {
            None
        }
    }
}

/// A group as the grouper follows it: its members, and whether they
/// changed.
pub struct GroupView {
    pub members: Seq<(u64, Mesh)>,
    pub dirty: bool,
}

/// The grouper as an update follows it: its groups, and for each key the
/// place of the group to which it was last tracked.
pub struct GrouperView {
    pub groups: Seq<GroupView>,
    pub membership: Map<u64, int>,
}

/// A change of one group: the mesh of all its members after an update.
pub struct GroupChange {
    pub group_id: usize,
    pub new_group_mesh: Mesh,
}

/// The groups with none of them changed.
pub open spec fn clean_groups(groups: Seq<Seq<(u64, Mesh)>>) -> Seq<GroupView> {
    Seq::new(groups.len(), |g: int| GroupView { members: groups[g], dirty: false })
}

/// The members of each group.
pub open spec fn group_members(groups: Seq<GroupView>) -> Seq<Seq<(u64, Mesh)>> {
    Seq::new(groups.len(), |g: int| groups[g].members)
}

/// Whether some group has a member with the key.
pub open spec fn key_grouped(groups: Seq<GroupView>, key: u64) -> bool {
    exists|g: int| 0 <= g < groups.len() && has_key((#[trigger] groups[g]).members, key)
}

/// The map after the keys of the members have been tracked to `place`, one
/// after the other.
pub open spec fn tracking(membership: Map<u64, int>, members: Seq<(u64, Mesh)>, place: int) -> Map<
    u64,
    int,
>
    decreases members.len(),
{
    if members.len() == 0 {
        membership
    } else {
        tracking(membership, members.drop_last(), place).insert(members.last().0, place)
    }
}

/// Whether the member with the key can leave: the key is tracked to a
/// group, and that group has a member with the key.
pub open spec fn can_remove(state: GrouperView, key: u64) -> bool {
    &&& state.membership.contains_key(key)
    &&& 0 <= state.membership[key] < state.groups.len()
    &&& has_key(state.groups[state.membership[key]].members, key)
}

/// The grouper after the member with the key has left: the first member
/// with the key in the group to which the key is tracked.
pub open spec fn remove_key(state: GrouperView, key: u64) -> GrouperView {
    let place = state.membership[key];
    let members = state.groups[place].members;
    GrouperView {
        groups: state.groups.update(
            place,
            GroupView { members: members.remove(first_with_key(members, key)), dirty: true },
        ),
        membership: state.membership,
    }
}

/// The grouper after the members with the keys have left, one after the
/// other.
pub open spec fn remove_all(state: GrouperView, keys: Seq<u64>) -> GrouperView
    decreases keys.len(),
{
    if keys.len() == 0 {
        state
    } else {
        remove_all(remove_key(state, keys[0]), keys.drop_first())
    }
}

/// Whether each key has a member to leave when its turn comes.
pub open spec fn removable(state: GrouperView, keys: Seq<u64>) -> bool
    decreases keys.len(),
{
    keys.len() > 0 ==> can_remove(state, keys[0]) && removable(
        remove_key(state, keys[0]),
        keys.drop_first(),
    )
}

/// The grouper after `incoming` has been pushed into group `from`, what
/// leaves that group into the next, and so on; what leaves the last group
/// makes a new one. Whatever is pushed into a group is first tracked to it.
pub open spec fn cascade(
    state: GrouperView,
    from: int,
    incoming: Seq<(u64, Mesh)>,
    max_vertices: nat,
) -> GrouperView
    decreases state.groups.len() - from,
{
    if incoming.len() == 0 || from < 0 {
        state
    } else {
        let membership = tracking(state.membership, incoming, from);
        if from < state.groups.len() {
            let members = state.groups[from].members;
            let leaving = evicted(members, weight(incoming), max_vertices) as int;
            let stays = members.subrange(leaving, members.len() as int) + incoming;
            cascade(
                GrouperView {
                    groups: state.groups.update(from, GroupView { members: stays, dirty: true }),
                    membership,
                },
                from + 1,
                members.subrange(0, leaving),
                max_vertices,
            )
        } else {
            GrouperView {
                groups: state.groups.push(GroupView { members: incoming, dirty: true }),
                membership,
            }
        }
    }
}

/// The grouper after the new members have been added, one after the other,
/// each into the first group.
pub open spec fn add_all(state: GrouperView, to_add: Seq<(u64, Mesh)>, max_vertices: nat) -> GrouperView
    decreases to_add.len(),
{
    if to_add.len() == 0 {
        state
    } else {
        add_all(cascade(state, 0, seq![to_add[0]], max_vertices), to_add.drop_first(), max_vertices)
    }
}

/// The places of the groups that changed, in order.
pub open spec fn dirty_groups(groups: Seq<GroupView>) -> Seq<int>
    decreases groups.len(),
{
    if groups.len() == 0 {
        Seq::empty()
    } else if groups.last().dirty {
        dirty_groups(groups.drop_last()).push(groups.len() - 1)
    } else {
        dirty_groups(groups.drop_last())
    }
}

/// The grouper before an update: its groups, none of them changed, and its
/// tracking.
pub open spec fn settled_state(groups: Seq<Seq<(u64, Mesh)>>, membership: Map<u64, int>) -> GrouperView {
    GrouperView { groups: clean_groups(groups), membership }
}

/// The grouper after an update: first the members with the keys `to_remove`
/// leave, then the members `to_add` are added.
pub open spec fn updated_state(
    groups: Seq<Seq<(u64, Mesh)>>,
    membership: Map<u64, int>,
    to_remove: Seq<u64>,
    to_add: Seq<(u64, Mesh)>,
    max_vertices: nat,
) -> GrouperView {
    add_all(remove_all(settled_state(groups, membership), to_remove), to_add, max_vertices)
}

/// No key is the key of two members.
pub open spec fn distinct_keys(members: Seq<(u64, Mesh)>) -> bool {
    forall|i: int, j: int|
        0 <= i < members.len() && 0 <= j < members.len() && i != j ==> (#[trigger] members[i]).0 != (
        #[trigger] members[j]).0
}

/// What an update may add: index-safe meshes that each fit into a group.
pub open spec fn addable(to_add: Seq<(u64, Mesh)>, max_vertices: nat) -> bool {
    &&& members_safe(to_add)
    &&& forall|i: int| 0 <= i < to_add.len() ==> (#[trigger] to_add[i]).1@.vertices.len() <= max_vertices
}

/// The tracking as an update follows it: each place as a number.
pub open spec fn places(membership: Map<u64, usize>) -> Map<u64, int> {
    Map::new(|key: u64| membership.contains_key(key), |key: u64| membership[key] as int)
}

/// The queues as the grouper follows them.
pub open spec fn current_groups(queues: Seq<MeshQueue>) -> Seq<GroupView> {
    Seq::new(
        queues.len(),
        |g: int| GroupView { members: queues[g].members(), dirty: queues[g].dirty() },
    )
}

/// Every queue is well-formed and has the given limit.
pub open spec fn queues_wf(queues: Seq<MeshQueue>, max_vertices: nat) -> bool {
    forall|g: int|
        0 <= g < queues.len() ==> (#[trigger] queues[g]).wf() && queues[g].max_vertices()
            == max_vertices
}

/// The map sends the key of each member to the place of its group.
pub open spec fn tracked_by(groups: Seq<GroupView>, membership: Map<u64, int>) -> bool {
    forall|g: int, j: int|
        0 <= g < groups.len() && 0 <= j < groups[g].members.len() ==> membership.contains_key(
            (#[trigger] groups[g].members[j]).0,
        ) && membership[groups[g].members[j].0] == g
}

/// No group has two members with one key.
pub open spec fn groups_distinct(groups: Seq<GroupView>) -> bool {
    forall|g: int| 0 <= g < groups.len() ==> distinct_keys((#[trigger] groups[g]).members)
}

/// None of the keys of `members` is the key of a member of a group.
pub open spec fn ungrouped(groups: Seq<GroupView>, members: Seq<(u64, Mesh)>) -> bool {
    forall|j: int| 0 <= j < members.len() ==> !key_grouped(groups, (#[trigger] members[j]).0)
}

/// Whether one of the keys is `key`.
pub open spec fn is_among(keys: Seq<u64>, key: u64) -> bool {
    exists|i: int| 0 <= i < keys.len() && #[trigger] keys[i] == key
}

/// A member with the key is at the place that `first_with_key` gives.
pub proof fn lemma_first_with_key(members: Seq<(u64, Mesh)>, key: u64)
    requires
        has_key(members, key),
    ensures
        0 <= first_with_key(members, key) < members.len(),
        members[first_with_key(members, key)].0 == key,
    decreases members.len(),
{
    let i = choose|i: int| 0 <= i < members.len() && (#[trigger] members[i]).0 == key;
    if members[0].0 != key {
        assert(members.drop_first()[i - 1] == members[i]);
        lemma_first_with_key(members.drop_first(), key);
    }
}

/// Groups of which each key is tracked to its own group hold a key in one
/// group only.
pub proof fn lemma_one_group(groups: Seq<GroupView>, membership: Map<u64, int>, key: u64, g: int)
    requires
        tracked_by(groups, membership),
        0 <= g < groups.len(),
        has_key(groups[g].members, key),
    ensures
        membership.contains_key(key),
        membership[key] == g,
        forall|h: int| 0 <= h < groups.len() && h != g ==> !has_key((#[trigger] groups[h]).members, key),
{
    let j = choose|j: int| 0 <= j < groups[g].members.len() && (#[trigger] groups[g].members[j]).0 == key;
    assert(groups[g].members[j].0 == key);
    assert forall|h: int| 0 <= h < groups.len() && h != g implies !has_key(
        (#[trigger] groups[h]).members,
        key,
    ) by {
        if has_key(groups[h].members, key) {
            let i = choose|i: int| 0 <= i < groups[h].members.len() && (#[trigger] groups[h].members[i]).0 == key;
            assert(groups[h].members[i].0 == key);
        }
    }
}

/// After the keys of members have been tracked to a place, each of them is
/// tracked to it, and every other key is tracked as before.
pub proof fn lemma_tracking(membership: Map<u64, int>, members: Seq<(u64, Mesh)>, place: int)
    ensures
        forall|j: int|
            0 <= j < members.len() ==> tracking(membership, members, place).contains_key(
                (#[trigger] members[j]).0,
            ) && tracking(membership, members, place)[members[j].0] == place,
        forall|key: u64|
            !has_key(members, key) ==> (tracking(membership, members, place).contains_key(key)
                <==> membership.contains_key(key)) && (membership.contains_key(key) ==> tracking(
                membership,
                members,
                place,
            )[key] == membership[key]),
    decreases members.len(),
{
    if members.len() > 0 {
        let before = members.drop_last();
        lemma_tracking(membership, before, place);
        let now = tracking(membership, members, place);
        assert forall|j: int| 0 <= j < members.len() implies now.contains_key(
            (#[trigger] members[j]).0,
        ) && now[members[j].0] == place by {
            if j < before.len() {
                assert(before[j] == members[j]);
            }
        }
        assert forall|key: u64| !has_key(members, key) implies (now.contains_key(key)
            <==> membership.contains_key(key)) && (membership.contains_key(key) ==> now[key]
            == membership[key]) by {
            assert(members[members.len() - 1].0 != key);
            if has_key(before, key) {
                let j = choose|j: int| 0 <= j < before.len() && (#[trigger] before[j]).0 == key;
                assert(members[j].0 == key);
            }
        }
    }
}

/// Meshes grouped by key into queues of bounded size.
pub struct MeshGrouper {
    groups: Vec<MeshQueue>,
    group_membership: HashMap<u64, usize>,
    max_vertices_per_group: usize,
}

impl MeshGrouper {
    /// The members of each group, oldest first.
    pub closed spec fn groups(&self) -> Seq<Seq<(u64, Mesh)>> {
        group_members(current_groups(self.groups@))
    }

    /// The most vertices that the members of one group may have together.
    pub closed spec fn max_vertices_per_group(&self) -> nat {
        self.max_vertices_per_group as nat
    }

    /// The place of the group to which each key was last tracked. A key
    /// stays in it after its member has left.
    pub closed spec fn membership(&self) -> Map<u64, int> {
        places(self.group_membership@)
    }

    /// The grouper as an update follows it.
    pub closed spec fn state(&self) -> GrouperView {
        GrouperView {
            groups: current_groups(self.groups@),
            membership: places(self.group_membership@),
        }
    }

    /// The queues are well-formed and have the limit of the grouper, which
    /// stays within the index limit.
    pub closed spec fn inv(&self) -> bool {
        &&& self.max_vertices_per_group <= INDEX_LIMIT
        &&& queues_wf(self.groups@, self.max_vertices_per_group as nat)
    }

    /// The grouper is in order and no change of a group is left to report.
    pub closed spec fn wf(&self) -> bool {
        &&& self.inv()
        &&& forall|g: int| 0 <= g < self.groups.len() ==> !(#[trigger] self.groups[g]).dirty()
    }

    /// No key is the key of two members, in one group or in two, and the
    /// key of each member is tracked to the place of its group.
    pub open spec fn well_keyed(&self) -> bool {
        keyed(settled_state(self.groups(), self.membership()))
    }

    /// What `wf` says of the groups: the members of each group are
    /// index-safe meshes whose vertices together stay within the limit of a
    /// group, which in turn stays within the index limit.
    pub proof fn lemma_wf(&self)
        requires
            self.wf(),
        ensures
            self.max_vertices_per_group() <= INDEX_LIMIT,
            self.state() == settled_state(self.groups(), self.membership()),
            forall|g: int|
                0 <= g < self.groups().len() ==> {
                    &&& weight(#[trigger] self.groups()[g]) <= self.max_vertices_per_group()
                    &&& members_safe(self.groups()[g])
                },
    {
        assert(self.state().groups =~= clean_groups(self.groups()));
        assert forall|g: int| 0 <= g < self.groups().len() implies {
            &&& weight(#[trigger] self.groups()[g]) <= self.max_vertices_per_group()
            &&& members_safe(self.groups()[g])
        } by {
            self.groups@[g].lemma_wf();
        }
    }

    /// What `well_keyed` says of the groups: no two members of a group have
    /// one key, no key is in two groups, and the key of each member is
    /// tracked to the place of its group.
    pub proof fn lemma_well_keyed(&self, g: int, h: int, key: u64)
        requires
            self.well_keyed(),
            0 <= g < self.groups().len(),
            0 <= h < self.groups().len(),
            has_key(self.groups()[g], key),
        ensures
            distinct_keys(self.groups()[g]),
            self.membership().contains_key(key),
            self.membership()[key] == g,
            h != g ==> !has_key(self.groups()[h], key),
    {
        let state = settled_state(self.groups(), self.membership());
        assert(state.groups[g].members == self.groups()[g]);
        assert(state.groups[h].members == self.groups()[h]);
        assert(distinct_keys(state.groups[g].members));
        lemma_one_group(state.groups, state.membership, key, g);
    }

    /// A grouper without groups, for groups of `max_vertices_per_group`
    /// vertices at most.
    pub fn new(max_vertices_per_group: usize) -> (grouper: MeshGrouper)
        requires
            max_vertices_per_group <= INDEX_LIMIT,
        ensures
            grouper.wf(),
            grouper.groups() == Seq::<Seq<(u64, Mesh)>>::empty(),
            grouper.membership() == Map::<u64, int>::empty(),
            grouper.max_vertices_per_group() == max_vertices_per_group,
            grouper.well_keyed(),
    {
        let grouper = MeshGrouper {
            groups: Vec::new(),
            group_membership: HashMap::new(),
            max_vertices_per_group,
        };
        proof {
            assert(grouper.groups() =~= Seq::<Seq<(u64, Mesh)>>::empty());
            assert(grouper.membership() =~= Map::<u64, int>::empty());
        }
        grouper
    }

    /// Takes the member with the key out of the group to which the key is
    /// tracked.
    fn remove_member(&mut self, key: u64)
        requires
            old(self).inv(),
            can_remove(old(self).state(), key),
        ensures
            final(self).inv(),
            final(self).max_vertices_per_group == old(self).max_vertices_per_group,
            final(self).state() == remove_key(old(self).state(), key),
    {
        broadcast use vstd::std_specs::hash::group_hash_axioms;

        let ghost before = self.state();
        let group_idx: usize = match self.group_membership.get(&key) {
            Some(g) => *g,
            None => {
                return;
            },
        };
        self.groups[group_idx].remove(&key);
        proof {
            assert(self.state().groups =~= remove_key(before, key).groups);
        }
    }

    /// Tracks the keys of `members` to the group at `place`.
    fn track(&mut self, members: &Vec<(u64, Mesh)>, place: usize)
        ensures
            final(self).groups == old(self).groups,
            final(self).max_vertices_per_group == old(self).max_vertices_per_group,
            places(final(self).group_membership@) == tracking(
                places(old(self).group_membership@),
                members@,
                place as int,
            ),
    {
        broadcast use vstd::std_specs::hash::group_hash_axioms;

        let mut n: usize = 0;
        while n < members.len()
            invariant
                n <= members.len(),
                self.groups == old(self).groups,
                self.max_vertices_per_group == old(self).max_vertices_per_group,
                places(self.group_membership@) == tracking(
                    places(old(self).group_membership@),
                    members@.subrange(0, n as int),
                    place as int,
                ),
            decreases members.len() - n,
        {
            proof {
                assert(members@.subrange(0, n + 1).drop_last() =~= members@.subrange(0, n as int));
            }
            let key: u64 = members[n].0;
            let ghost before = self.group_membership@;
            self.group_membership.insert(key, place);
            proof {
                assert(places(self.group_membership@) =~= places(before).insert(key, place as int));
            }
            n = n + 1;
        }
        proof {
            assert(members@.subrange(0, members.len() as int) =~= members@);
        }
    }

    /// Adds a member to the first group; what has to leave a group for it
    /// moves on to the next.
    fn add_member(&mut self, member: (u64, Mesh))
        requires
            old(self).inv(),
            member.1@.index_safe(),
            member.1@.vertices.len() <= old(self).max_vertices_per_group,
        ensures
            final(self).inv(),
            final(self).max_vertices_per_group == old(self).max_vertices_per_group,
            final(self).state() == cascade(
                old(self).state(),
                0,
                seq![member],
                old(self).max_vertices_per_group as nat,
            ),
    {
        let ghost start = self.state();
        let ghost max_vertices = self.max_vertices_per_group as nat;
        let ghost first = member;
        let mut current_group_idx: usize = 0;
        let new_member_n_vertices: usize = member.1.vertices.len();
        let mut members: Vec<(u64, Mesh)> = Vec::new();
        members.push(member);
        let mut to_push: (Vec<(u64, Mesh)>, usize) = (members, new_member_n_vertices);
        proof {
            assert(to_push.0@ =~= seq![first]);
            assert(seq![first].drop_last() =~= Seq::<(u64, Mesh)>::empty());
            assert(weight(seq![first].drop_last()) == 0);
        }
        while to_push.0.len() > 0
            invariant
                self.inv(),
                self.max_vertices_per_group == old(self).max_vertices_per_group,
                max_vertices == self.max_vertices_per_group,
                current_group_idx <= self.groups.len(),
                to_push.1 == weight(to_push.0@),
                to_push.1 <= self.max_vertices_per_group,
                members_safe(to_push.0@),
                cascade(start, 0, seq![first], max_vertices) == cascade(
                    self.state(),
                    current_group_idx as int,
                    to_push.0@,
                    max_vertices,
                ),
            decreases
                    if to_push.0.len() == 0 {
                        0
                    } else {
                        self.groups.len() - current_group_idx + 1
                    },
        {
            let ghost before = self.state();
            let ghost incoming = to_push.0@;
            self.track(&to_push.0, current_group_idx);
            let ghost now_tracked = places(self.group_membership@);
            if current_group_idx < self.groups.len() {
                let ghost old_members = before.groups[current_group_idx as int].members;
                to_push = self.groups[current_group_idx].push(to_push.0, to_push.1);
                proof {
                    let leaving = to_push.0@.len() as int;
                    let place = current_group_idx as int;
                    let stays = old_members.subrange(leaving, old_members.len() as int) + incoming;
                    assert(self.state().groups =~= before.groups.update(
                        place,
                        GroupView { members: stays, dirty: true },
                    ));
                    assert(to_push.0@ == old_members.subrange(0, leaving));
                    assert(self.state() == GrouperView {
                        groups: before.groups.update(place, GroupView { members: stays, dirty: true }),
                        membership: now_tracked,
                    });
                }
                current_group_idx = current_group_idx + 1;
            } else {
                let mut new_group = MeshQueue::new(self.max_vertices_per_group);
                to_push = new_group.push(to_push.0, to_push.1);
                self.groups.push(new_group);
                proof {
                    assert(to_push.0@.len() == 0);
                    assert(new_group.members() =~= incoming);
                    assert(self.state().groups =~= before.groups.push(
                        GroupView { members: incoming, dirty: true },
                    ));
                    assert(self.state() == GrouperView {
                        groups: before.groups.push(GroupView { members: incoming, dirty: true }),
                        membership: now_tracked,
                    });
                }
            }
        }
    }

    /// The meshes of the groups that changed, each with the place of its
    /// group, in order; after this no change is left to report.
    fn take_changes(&mut self) -> (changes: Vec<GroupChange>)
        requires
            old(self).inv(),
        ensures
            final(self).wf(),
            final(self).max_vertices_per_group == old(self).max_vertices_per_group,
            final(self).group_membership == old(self).group_membership,
            final(self).groups() == group_members(current_groups(old(self).groups@)),
            reports(changes@, current_groups(old(self).groups@)),
    {
        let ghost start = current_groups(self.groups@);
        let mut changes: Vec<GroupChange> = Vec::new();
        let mut i: usize = 0;
        proof {
            assert(start.subrange(0, 0) =~= Seq::<GroupView>::empty());
        }
        while i < self.groups.len()
            invariant
                i <= self.groups.len(),
                self.groups.len() == start.len(),
                self.max_vertices_per_group == old(self).max_vertices_per_group,
                self.group_membership == old(self).group_membership,
                queues_wf(self.groups@, self.max_vertices_per_group as nat),
                self.max_vertices_per_group <= INDEX_LIMIT,
                forall|g: int|
                    0 <= g < start.len() ==> (#[trigger] self.groups[g]).members()
                        == start[g].members,
                forall|g: int| 0 <= g < i ==> !(#[trigger] self.groups[g]).dirty(),
                forall|g: int| i <= g < start.len() ==> (#[trigger] self.groups[g]).dirty() == start[g].dirty,
                reports(changes@, start.subrange(0, i as int)),
            decreases self.groups.len() - i,
        {
            let ghost upto = start.subrange(0, i + 1);
            let ghost reported = changes@;
            proof {
                assert(upto.drop_last() =~= start.subrange(0, i as int));
                assert(upto.last() == start[i as int]);
            }
            match self.groups[i].get_mesh_if_changed() {
                Some(mesh) => {
                    changes.push(GroupChange { group_id: i, new_group_mesh: mesh });
                    proof {
                        assert(changes@.drop_last() =~= reported);
                        assert forall|j: int| 0 <= j < changes@.len() implies reported_at(
                            changes@,
                            upto,
                            j,
                        ) by {
                            if j < reported.len() {
                                assert(reported_at(reported, start.subrange(0, i as int), j));
                                assert(dirty_groups(upto)[j] == dirty_groups(upto.drop_last())[j]);
                                let g = dirty_groups(upto)[j];
                                lemma_dirty_groups(upto.drop_last(), j);
                                assert(upto[g] == start.subrange(0, i as int)[g]);
                            } else {
                                assert(dirty_groups(upto)[j] == i);
                            }
                        }
                    }
                },
                None => {
                    proof {
                        assert forall|j: int| 0 <= j < changes@.len() implies reported_at(
                            changes@,
                            upto,
                            j,
                        ) by {
                            assert(reported_at(reported, start.subrange(0, i as int), j));
                            let g = dirty_groups(upto)[j];
                            lemma_dirty_groups(upto.drop_last(), j);
                            assert(upto[g] == start.subrange(0, i as int)[g]);
                        }
                    }
                },
            }
            i = i + 1;
        }
        proof {
            assert(start.subrange(0, start.len() as int) =~= start);
            assert(self.groups() =~= group_members(start));
        }
        changes
    }

    /// Takes out the members with the keys `to_remove`, adds the members
    /// `to_add`, and returns, for each group that changed, the mesh of all
    /// its members. The member that leaves for a key is the first with that
    /// key in the group to which the key is tracked. A new member goes to
    /// the back of the first group; where a group cannot take what comes in,
    /// its oldest members move on to the next group, and from the last group
    /// to a new one. A key may be added that is the key of a member
    /// already: the key is tracked to the group into which a member with it
    /// was last pushed. Where each key names one member before and the keys
    /// added are new, each key names one member afterwards.
    pub fn update(&mut self, to_remove: Vec<u64>, to_add: Vec<(u64, Mesh)>) -> (changes: Vec<
        GroupChange,
    >)
        requires
            old(self).wf(),
            removable(settled_state(old(self).groups(), old(self).membership()), to_remove@),
            addable(to_add@, old(self).max_vertices_per_group()),
        ensures
            final(self).wf(),
            final(self).max_vertices_per_group() == old(self).max_vertices_per_group(),
            final(self).groups() == group_members(
                updated_state(
                    old(self).groups(),
                    old(self).membership(),
                    to_remove@,
                    to_add@,
                    old(self).max_vertices_per_group(),
                ).groups,
            ),
            final(self).membership() == updated_state(
                old(self).groups(),
                old(self).membership(),
                to_remove@,
                to_add@,
                old(self).max_vertices_per_group(),
            ).membership,
            reports(
                changes@,
                updated_state(
                    old(self).groups(),
                    old(self).membership(),
                    to_remove@,
                    to_add@,
                    old(self).max_vertices_per_group(),
                ).groups,
            ),
            old(self).well_keyed() && fresh_keys(
                remove_all(settled_state(old(self).groups(), old(self).membership()), to_remove@),
                to_add@,
            ) ==> final(self).well_keyed(),
    {
        let ghost start = self.state();
        let ghost max_vertices = self.max_vertices_per_group as nat;
        proof {
            assert(start.groups =~= clean_groups(self.groups()));
            assert(to_remove@.subrange(0, to_remove@.len() as int) =~= to_remove@);
        }
        let mut i: usize = 0;
        while i < to_remove.len()
            invariant
                i <= to_remove.len(),
                self.inv(),
                self.max_vertices_per_group == old(self).max_vertices_per_group,
                removable(self.state(), to_remove@.subrange(i as int, to_remove@.len() as int)),
                remove_all(start, to_remove@) == remove_all(
                    self.state(),
                    to_remove@.subrange(i as int, to_remove@.len() as int),
                ),
            decreases to_remove.len() - i,
        {
            proof {
                let rest = to_remove@.subrange(i as int, to_remove@.len() as int);
                assert(rest[0] == to_remove@[i as int]);
                assert(rest.drop_first() =~= to_remove@.subrange(i + 1, to_remove@.len() as int));
            }
            self.remove_member(to_remove[i]);
            i = i + 1;
        }
        let ghost removed = self.state();
        let mut to_add = to_add;
        let ghost adding = to_add@;
        while to_add.len() > 0
            invariant
                self.inv(),
                self.max_vertices_per_group == old(self).max_vertices_per_group,
                max_vertices == self.max_vertices_per_group,
                addable(to_add@, max_vertices),
                add_all(removed, adding, max_vertices) == add_all(
                    self.state(),
                    to_add@,
                    max_vertices,
                ),
            decreases to_add.len(),
        {
            let ghost waiting = to_add@;
            let new_member = to_add.remove(0);
            proof {
                assert(new_member == waiting[0]);
                assert(to_add@ =~= waiting.drop_first());
                assert forall|j: int| 0 <= j < to_add@.len() implies (#[trigger] to_add@[j]).1@.index_safe()
                    && to_add@[j].1@.vertices.len() <= max_vertices by {
                    assert(to_add@[j] == waiting[j + 1]);
                }
            }
            self.add_member(new_member);
        }
        let ghost worked = self.state();
        let changes = self.take_changes();
        proof {
            if old(self).well_keyed() && fresh_keys(remove_all(start, to_remove@), adding) {
                lemma_update_keeps_keys(
                    old(self).groups(),
                    old(self).membership(),
                    to_remove@,
                    adding,
                    max_vertices,
                    0,
                );
                let settled = settled_state(self.groups(), self.membership());
                assert(keyed(worked));
                assert forall|g: int, j: int|
                    0 <= g < settled.groups.len() && 0 <= j < settled.groups[g].members.len() implies settled.membership.contains_key(
                    (#[trigger] settled.groups[g].members[j]).0,
                ) && settled.membership[settled.groups[g].members[j].0] == g by {
                    assert(settled.groups[g].members[j] == worked.groups[g].members[j]);
                }
                assert forall|g: int| 0 <= g < settled.groups.len() implies distinct_keys(
                    (#[trigger] settled.groups[g]).members,
                ) by {
                    assert(settled.groups[g].members == worked.groups[g].members);
                    assert(distinct_keys(worked.groups[g].members));
                }
            }
        }
        changes
    }
}

/// What is reported of place `j` of the changes: the place of the `j`th
/// group that changed, and the meshes of its members joined in order.
pub open spec fn reported_at(changes: Seq<GroupChange>, groups: Seq<GroupView>, j: int) -> bool {
    &&& 0 <= j < dirty_groups(groups).len()
    &&& changes[j].group_id == dirty_groups(groups)[j]
    &&& changes[j].new_group_mesh@ == mesh_sum(
        member_meshes(groups[dirty_groups(groups)[j]].members),
    )
}

/// The changes report each group that changed, in order, and no other.
pub open spec fn reports(changes: Seq<GroupChange>, groups: Seq<GroupView>) -> bool {
    &&& changes.len() == dirty_groups(groups).len()
    &&& forall|j: int| 0 <= j < changes.len() ==> reported_at(changes, groups, j)
}

/// Each place among the groups that changed is the place of a group.
pub proof fn lemma_dirty_groups(groups: Seq<GroupView>, j: int)
    requires
        0 <= j < dirty_groups(groups).len(),
    ensures
        0 <= dirty_groups(groups)[j] < groups.len(),
        groups[dirty_groups(groups)[j]].dirty,
    decreases groups.len(),
{
    if groups.len() > 0 {
        if j < dirty_groups(groups.drop_last()).len() {
            lemma_dirty_groups(groups.drop_last(), j);
        }
    }
}

/// No key is the key of two members, in one group or in two, and the key of
/// each member is tracked to the place of its group.
pub open spec fn keyed(state: GrouperView) -> bool {
    tracked_by(state.groups, state.membership) && groups_distinct(state.groups)
}

/// Keys that an update may add to a grouper in which each key names one
/// member, so that each key still names one member afterwards: they differ
/// from each other and from the keys of all members.
pub open spec fn fresh_keys(state: GrouperView, to_add: Seq<(u64, Mesh)>) -> bool {
    distinct_keys(to_add) && ungrouped(state.groups, to_add)
}

/// Where each key names one member, it does so after the member with a key
/// has left, and the keys in the groups are those of before but for that
/// key.
pub proof fn lemma_keyed_after_removal(state: GrouperView, key: u64, other: u64)
    requires
        keyed(state),
        can_remove(state, key),
    ensures
        keyed(remove_key(state, key)),
        key_grouped(remove_key(state, key).groups, other) <==> (key_grouped(state.groups, other)
            && other != key),
{
    let groups = state.groups;
    let after = remove_key(state, key).groups;
    let home = state.membership[key];
    lemma_one_group(groups, state.membership, key, home);
    lemma_first_with_key(groups[home].members, key);
    let members = groups[home].members;
    let gone = first_with_key(members, key);
    assert(distinct_keys(members));
    assert forall|g: int, j: int|
        0 <= g < after.len() && 0 <= j < after[g].members.len() implies state.membership.contains_key(
        (#[trigger] after[g].members[j]).0,
    ) && state.membership[after[g].members[j].0] == g by {
        if g == home {
            if j < gone {
                assert(after[g].members[j] == members[j]);
            } else {
                assert(after[g].members[j] == members[j + 1]);
            }
        } else {
            assert(after[g].members[j] == groups[g].members[j]);
        }
    }
    assert forall|g: int| 0 <= g < after.len() implies distinct_keys((#[trigger] after[g]).members) by {
        assert(distinct_keys(groups[g].members));
        if g == home {
            let now = after[g].members;
            assert forall|i: int, j: int|
                0 <= i < now.len() && 0 <= j < now.len() && i != j implies (#[trigger] now[i]).0 != (
            #[trigger] now[j]).0 by {
                let from_i = if i < gone {
                    i
                } else {
                    i + 1
                };
                let from_j = if j < gone {
                    j
                } else {
                    j + 1
                };
                assert(now[i] == members[from_i]);
                assert(now[j] == members[from_j]);
            }
        }
    }
    {
        if key_grouped(after, other) {
            let g = choose|g: int| 0 <= g < after.len() && has_key((#[trigger] after[g]).members, other);
            let j = choose|j: int| 0 <= j < after[g].members.len() && (#[trigger] after[g].members[j]).0 == other;
            if g == home {
                let from = if j < gone {
                    j
                } else {
                    j + 1
                };
                assert(after[g].members[j] == members[from]);
                assert(members[from].0 != members[gone].0);
                assert(has_key(groups[g].members, other));
            } else {
                assert(after[g] == groups[g]);
                assert(has_key(groups[g].members, other));
                assert(!has_key(groups[g].members, key));
            }
        }
        if key_grouped(groups, other) && other != key {
            let g = choose|g: int| 0 <= g < groups.len() && has_key((#[trigger] groups[g]).members, other);
            let j = choose|j: int| 0 <= j < groups[g].members.len() && (#[trigger] groups[g].members[j]).0 == other;
            if g == home {
                let to = if j < gone {
                    j
                } else {
                    j - 1
                };
                assert(after[g].members[to] == members[j]);
                assert(has_key(after[g].members, other));
            } else {
                assert(after[g] == groups[g]);
                assert(has_key(after[g].members, other));
            }
        }
    }
}

/// Where each key names one member, tracking keys that are in no group
/// leaves the members of the groups tracked as they were.
proof fn lemma_tracking_ungrouped(
    groups: Seq<GroupView>,
    membership: Map<u64, int>,
    incoming: Seq<(u64, Mesh)>,
    place: int,
)
    requires
        tracked_by(groups, membership),
        ungrouped(groups, incoming),
    ensures
        tracked_by(groups, tracking(membership, incoming, place)),
        forall|j: int|
            0 <= j < incoming.len() ==> tracking(membership, incoming, place).contains_key(
                (#[trigger] incoming[j]).0,
            ) && tracking(membership, incoming, place)[incoming[j].0] == place,
{
    lemma_tracking(membership, incoming, place);
    let now = tracking(membership, incoming, place);
    assert forall|g: int, j: int|
        0 <= g < groups.len() && 0 <= j < groups[g].members.len() implies now.contains_key(
        (#[trigger] groups[g].members[j]).0,
    ) && now[groups[g].members[j].0] == g by {
        let key = groups[g].members[j].0;
        assert(has_key(groups[g].members, key));
        assert(key_grouped(groups, key));
        if has_key(incoming, key) {
            let i = choose|i: int| 0 <= i < incoming.len() && (#[trigger] incoming[i]).0 == key;
            assert(!key_grouped(groups, incoming[i].0));
        }
    }
}

/// Where each key names one member and the incoming keys are new, each key
/// names one member after the incoming members have been pushed in, and the
/// keys in the groups are those of before and the incoming ones.
pub proof fn lemma_keyed_after_cascade(
    state: GrouperView,
    from: int,
    incoming: Seq<(u64, Mesh)>,
    max_vertices: nat,
    key: u64,
)
    requires
        keyed(state),
        fresh_keys(state, incoming),
        0 <= from <= state.groups.len(),
    ensures
        keyed(cascade(state, from, incoming, max_vertices)),
        key_grouped(cascade(state, from, incoming, max_vertices).groups, key) <==> (key_grouped(
            state.groups,
            key,
        ) || has_key(incoming, key)),
    decreases state.groups.len() - from,
{
    if incoming.len() == 0 {
    } else {
        let membership = tracking(state.membership, incoming, from);
        lemma_tracking_ungrouped(state.groups, state.membership, incoming, from);
        if from < state.groups.len() {
            let members = state.groups[from].members;
            let leaving = evicted(members, weight(incoming), max_vertices) as int;
            lemma_evicted_bound(members, weight(incoming), max_vertices);
            let stays = members.subrange(leaving, members.len() as int) + incoming;
            let left = members.subrange(0, leaving);
            let next = GrouperView {
                groups: state.groups.update(from, GroupView { members: stays, dirty: true }),
                membership,
            };
            lemma_after_push(state.groups, membership, from, incoming, leaving);
            assert((key_grouped(next.groups, key) || has_key(left, key)) <==> (key_grouped(
                state.groups,
                key,
            ) || has_key(incoming, key)));
            lemma_keyed_after_cascade(next, from + 1, left, max_vertices, key);
            assert(cascade(state, from, incoming, max_vertices) == cascade(
                next,
                from + 1,
                left,
                max_vertices,
            ));
        } else {
            lemma_after_new_group(state.groups, membership, incoming);
            let after = state.groups.push(GroupView { members: incoming, dirty: true });
            assert(key_grouped(after, key) <==> (key_grouped(state.groups, key) || has_key(
                incoming,
                key,
            )));
        }
    }
}

/// No more members leave a group than it has.
pub proof fn lemma_evicted_bound(members: Seq<(u64, Mesh)>, incoming: nat, max_vertices: nat)
    ensures
        evicted(members, incoming, max_vertices) <= members.len(),
    decreases members.len(),
{
    if members.len() > 0 {
        lemma_evicted_bound(members.drop_first(), incoming, max_vertices);
    }
}

/// Where each key names one member and the keys to remove have members to
/// leave, each key names one member after they have left, and a key is in
/// the groups then if it was before and is none of the keys removed.
pub proof fn lemma_keyed_after_removals(state: GrouperView, keys: Seq<u64>, key: u64)
    requires
        keyed(state),
        removable(state, keys),
    ensures
        keyed(remove_all(state, keys)),
        key_grouped(remove_all(state, keys).groups, key) <==> (key_grouped(state.groups, key)
            && !is_among(keys, key)),
    decreases keys.len(),
{
    if keys.len() > 0 {
        let next = remove_key(state, keys[0]);
        let rest = keys.drop_first();
        lemma_keyed_after_removal(state, keys[0], key);
        lemma_keyed_after_removals(next, rest, key);
        if is_among(rest, key) {
            let k = choose|k: int| 0 <= k < rest.len() && #[trigger] rest[k] == key;
            assert(keys[k + 1] == key);
        }
        if key == keys[0] {
            assert(is_among(keys, key));
        }
        if is_among(keys, key) {
            let k = choose|k: int| 0 <= k < keys.len() && #[trigger] keys[k] == key;
            if k > 0 {
                assert(rest[k - 1] == key);
            }
        }
    }
}

/// Where each key names one member and the keys to add are new, each key
/// names one member after the members have been added, and a key is in the
/// groups then if it was before or is one of the keys added.
pub proof fn lemma_keyed_after_additions(
    state: GrouperView,
    to_add: Seq<(u64, Mesh)>,
    max_vertices: nat,
    key: u64,
)
    requires
        keyed(state),
        fresh_keys(state, to_add),
    ensures
        keyed(add_all(state, to_add, max_vertices)),
        key_grouped(add_all(state, to_add, max_vertices).groups, key) <==> (key_grouped(
            state.groups,
            key,
        ) || has_key(to_add, key)),
    decreases to_add.len(),
{
    if to_add.len() > 0 {
        let first = seq![to_add[0]];
        let rest = to_add.drop_first();
        assert(!key_grouped(state.groups, first[0].0));
        lemma_keyed_after_cascade(state, 0, first, max_vertices, key);
        let next = cascade(state, 0, first, max_vertices);
        assert forall|j: int| 0 <= j < rest.len() implies !key_grouped(
            next.groups,
            (#[trigger] rest[j]).0,
        ) by {
            assert(rest[j] == to_add[j + 1]);
            assert(!key_grouped(state.groups, to_add[j + 1].0));
            lemma_keyed_after_cascade(state, 0, first, max_vertices, rest[j].0);
            if has_key(first, rest[j].0) {
                let i = choose|i: int| 0 <= i < first.len() && (#[trigger] first[i]).0 == rest[j].0;
                assert(to_add[0].0 != to_add[j + 1].0);
            }
        }
        assert forall|a: int, b: int|
            0 <= a < rest.len() && 0 <= b < rest.len() && a != b implies (#[trigger] rest[a]).0 != (
        #[trigger] rest[b]).0 by {
            assert(rest[a] == to_add[a + 1]);
            assert(rest[b] == to_add[b + 1]);
        }
        lemma_keyed_after_additions(next, rest, max_vertices, key);
        if has_key(first, key) {
            let i = choose|i: int| 0 <= i < first.len() && (#[trigger] first[i]).0 == key;
            assert(to_add[0].0 == key);
        }
        if has_key(rest, key) {
            let i = choose|i: int| 0 <= i < rest.len() && (#[trigger] rest[i]).0 == key;
            assert(to_add[i + 1].0 == key);
        }
        if has_key(to_add, key) {
            let i = choose|i: int| 0 <= i < to_add.len() && (#[trigger] to_add[i]).0 == key;
            if i == 0 {
                assert(first[0].0 == key);
            } else {
                assert(rest[i - 1].0 == key);
            }
        }
    }
}

/// An update keeps a grouper in which each key names one member so, as long
/// as the keys it adds are new: after it no key is the key of two members,
/// each member's key is tracked to its group, and a key is in the groups if
/// it was before and was not removed, or was added.
pub proof fn lemma_update_keeps_keys(
    groups: Seq<Seq<(u64, Mesh)>>,
    membership: Map<u64, int>,
    to_remove: Seq<u64>,
    to_add: Seq<(u64, Mesh)>,
    max_vertices: nat,
    key: u64,
)
    requires
        keyed(settled_state(groups, membership)),
        removable(settled_state(groups, membership), to_remove),
        fresh_keys(remove_all(settled_state(groups, membership), to_remove), to_add),
    ensures
        keyed(updated_state(groups, membership, to_remove, to_add, max_vertices)),
        key_grouped(updated_state(groups, membership, to_remove, to_add, max_vertices).groups, key)
            <==> ((key_grouped(clean_groups(groups), key) && !is_among(to_remove, key)) || has_key(
            to_add,
            key,
        )),
{
    let start = settled_state(groups, membership);
    let removed = remove_all(start, to_remove);
    lemma_keyed_after_removals(start, to_remove, key);
    lemma_keyed_after_additions(removed, to_add, max_vertices, key);
}

/// After `incoming` has been pushed into the group at `place` and the
/// `leaving` oldest members have left it, the groups are tracked and
/// distinct as before, what left is in no group, and the keys in the groups
/// or on their way are those of before.
proof fn lemma_after_push(
    before: Seq<GroupView>,
    membership: Map<u64, int>,
    place: int,
    incoming: Seq<(u64, Mesh)>,
    leaving: int,
)
    requires
        0 <= place < before.len(),
        0 <= leaving <= before[place].members.len(),
        tracked_by(before, membership),
        groups_distinct(before),
        distinct_keys(incoming),
        ungrouped(before, incoming),
        forall|j: int|
            0 <= j < incoming.len() ==> membership.contains_key((#[trigger] incoming[j]).0)
                && membership[incoming[j].0] == place,
    ensures
        ({
            let members = before[place].members;
            let stays = members.subrange(leaving, members.len() as int) + incoming;
            let left = members.subrange(0, leaving);
            let after = before.update(place, GroupView { members: stays, dirty: true });
            &&& tracked_by(after, membership)
            &&& groups_distinct(after)
            &&& distinct_keys(left)
            &&& ungrouped(after, left)
            &&& forall|key: u64|
                key_grouped(after, key) || has_key(left, key) <==> key_grouped(before, key)
                    || has_key(incoming, key)
        }),
{
    let members = before[place].members;
    let kept = members.subrange(leaving, members.len() as int);
    let stays = kept + incoming;
    let left = members.subrange(0, leaving);
    let after = before.update(place, GroupView { members: stays, dirty: true });
    assert(distinct_keys(members));
    assert forall|g: int, j: int|
        0 <= g < after.len() && 0 <= j < after[g].members.len() implies membership.contains_key(
        (#[trigger] after[g].members[j]).0,
    ) && membership[after[g].members[j].0] == g by {
        if g == place {
            if j < kept.len() {
                assert(stays[j] == members[j + leaving]);
            } else {
                assert(stays[j] == incoming[j - kept.len()]);
            }
        } else {
            assert(after[g].members[j] == before[g].members[j]);
        }
    }
    assert forall|a: int, b: int|
        0 <= a < stays.len() && 0 <= b < stays.len() && a != b implies (#[trigger] stays[a]).0 != (
    #[trigger] stays[b]).0 by {
        if a < kept.len() && b < kept.len() {
            assert(stays[a] == members[a + leaving]);
            assert(stays[b] == members[b + leaving]);
        } else if a >= kept.len() && b >= kept.len() {
            assert(stays[a] == incoming[a - kept.len()]);
            assert(stays[b] == incoming[b - kept.len()]);
        } else {
            let (old_one, new_one) = if a < kept.len() {
                (a, b)
            } else {
                (b, a)
            };
            assert(stays[old_one] == members[old_one + leaving]);
            assert(stays[new_one] == incoming[new_one - kept.len()]);
            assert(has_key(before[place].members, members[old_one + leaving].0));
            assert(!key_grouped(before, incoming[new_one - kept.len()].0));
        }
    }
    assert forall|g: int| 0 <= g < after.len() implies distinct_keys((#[trigger] after[g]).members) by {
        if g != place {
            assert(distinct_keys(before[g].members));
        }
    }
    assert forall|a: int, b: int|
        0 <= a < left.len() && 0 <= b < left.len() && a != b implies (#[trigger] left[a]).0 != (
    #[trigger] left[b]).0 by {
        assert(left[a] == members[a]);
        assert(left[b] == members[b]);
    }
    assert forall|j: int| 0 <= j < left.len() implies !key_grouped(after, (#[trigger] left[j]).0) by {
        let key = left[j].0;
        assert(left[j] == members[j]);
        assert(has_key(members, key));
        lemma_one_group(before, membership, key, place);
        if key_grouped(after, key) {
            let g = choose|g: int| 0 <= g < after.len() && has_key((#[trigger] after[g]).members, key);
            if g == place {
                let i = choose|i: int| 0 <= i < stays.len() && (#[trigger] stays[i]).0 == key;
                if i < kept.len() {
                    assert(stays[i] == members[i + leaving]);
                } else {
                    assert(stays[i] == incoming[i - kept.len()]);
                    assert(!key_grouped(before, incoming[i - kept.len()].0));
                    assert(key_grouped(before, key));
                }
            } else {
                assert(after[g] == before[g]);
            }
        }
    }
    assert forall|key: u64|
        key_grouped(after, key) || has_key(left, key) <==> key_grouped(before, key) || has_key(
            incoming,
            key,
        ) by {
        if key_grouped(after, key) {
            let g = choose|g: int| 0 <= g < after.len() && has_key((#[trigger] after[g]).members, key);
            if g == place {
                let i = choose|i: int| 0 <= i < stays.len() && (#[trigger] stays[i]).0 == key;
                if i < kept.len() {
                    assert(stays[i] == members[i + leaving]);
                    assert(has_key(before[place].members, key));
                } else {
                    assert(stays[i] == incoming[i - kept.len()]);
                    assert(has_key(incoming, key));
                }
            } else {
                assert(after[g] == before[g]);
                assert(has_key(before[g].members, key));
            }
        }
        if has_key(left, key) {
            let i = choose|i: int| 0 <= i < left.len() && (#[trigger] left[i]).0 == key;
            assert(left[i] == members[i]);
            assert(has_key(before[place].members, key));
        }
        if key_grouped(before, key) {
            let g = choose|g: int| 0 <= g < before.len() && has_key((#[trigger] before[g]).members, key);
            if g == place {
                let i = choose|i: int| 0 <= i < members.len() && (#[trigger] members[i]).0 == key;
                if i < leaving {
                    assert(left[i] == members[i]);
                    assert(has_key(left, key));
                } else {
                    assert(stays[i - leaving] == members[i]);
                    assert(has_key(after[place].members, key));
                }
            } else {
                assert(after[g] == before[g]);
                assert(has_key(after[g].members, key));
            }
        }
        if has_key(incoming, key) {
            let i = choose|i: int| 0 <= i < incoming.len() && (#[trigger] incoming[i]).0 == key;
            assert(stays[kept.len() + i] == incoming[i]);
            assert(has_key(after[place].members, key));
        }
    }
}

/// After `incoming` has become a new last group, the groups are tracked and
/// distinct as before, and the keys in the groups are those of before and
/// those of `incoming`.
proof fn lemma_after_new_group(
    before: Seq<GroupView>,
    membership: Map<u64, int>,
    incoming: Seq<(u64, Mesh)>,
)
    requires
        tracked_by(before, membership),
        groups_distinct(before),
        distinct_keys(incoming),
        forall|j: int|
            0 <= j < incoming.len() ==> membership.contains_key((#[trigger] incoming[j]).0)
                && membership[incoming[j].0] == before.len(),
    ensures
        ({
            let after = before.push(GroupView { members: incoming, dirty: true });
            &&& tracked_by(after, membership)
            &&& groups_distinct(after)
            &&& forall|key: u64|
                key_grouped(after, key) <==> key_grouped(before, key) || has_key(incoming, key)
        }),
{
    let after = before.push(GroupView { members: incoming, dirty: true });
    assert forall|g: int, j: int|
        0 <= g < after.len() && 0 <= j < after[g].members.len() implies membership.contains_key(
        (#[trigger] after[g].members[j]).0,
    ) && membership[after[g].members[j].0] == g by {
        if g < before.len() {
            assert(after[g].members[j] == before[g].members[j]);
        }
    }
    assert forall|g: int| 0 <= g < after.len() implies distinct_keys((#[trigger] after[g]).members) by {
        if g < before.len() {
            assert(distinct_keys(before[g].members));
        }
    }
    assert forall|key: u64|
        key_grouped(after, key) <==> key_grouped(before, key) || has_key(incoming, key) by {
        if key_grouped(after, key) {
            let g = choose|g: int| 0 <= g < after.len() && has_key((#[trigger] after[g]).members, key);
            if g < before.len() {
                assert(after[g] == before[g]);
                assert(has_key(before[g].members, key));
            }
        }
        if key_grouped(before, key) {
            let g = choose|g: int| 0 <= g < before.len() && has_key((#[trigger] before[g]).members, key);
            assert(after[g] == before[g]);
            assert(has_key(after[g].members, key));
        }
        if has_key(incoming, key) {
            assert(has_key(after[before.len() as int].members, key));
        }
    }
}

} // verus!
