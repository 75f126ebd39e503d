use crate::name::CampaignName;
use crate::tables::{set_contains, set_elements, set_insert};
use fnv::FnvHashSet;
use vstd::prelude::*;

verus! {

/// Identity of a person, as given by the messaging platform.
#[derive(Debug, Clone, Copy, PartialEq, Eq, Structural, Hash)]
pub struct MemberId(pub u64);

/// Identity of a campaign: the platform's channel it is anchored to.
#[derive(Debug, Clone, Copy, PartialEq, Eq, Structural, Hash)]
pub struct CampaignId(pub u64);

/// What a campaign is, as plain values.
pub ghost struct CampaignView {
    pub id: u64,
    pub name: Seq<char>,
    pub leader: u64,
    pub members: Set<u64>,
}

/// The identities held in a list of members.
pub open spec fn ids_of(s: Seq<MemberId>) -> Set<u64> {
    Set::new(|m: u64| exists|i: int| 0 <= i < s.len() && (#[trigger] s[i]).0 == m)
}

/// A campaign: its channel identity, display name, leader and members.
/// The members always include the leader.
pub struct Campaign {
    name: CampaignName,
    members: FnvHashSet<u64>,
    leader: MemberId,
    id: CampaignId,
}

impl View for Campaign {
    type V = CampaignView;

    closed spec fn view(&self) -> CampaignView {
        CampaignView {
            id: self.id.0,
            name: self.name@,
            leader: self.leader.0,
            members: self.members@,
        }
    }
}

impl Campaign {
    /// The leader is a member.
    pub open spec fn wf(&self) -> bool {
        self@.members.contains(self@.leader)
    }

    /// A campaign whose only member is its leader.
    pub fn new(name: CampaignName, leader: MemberId, id: CampaignId) -> (r: Campaign)
        ensures
            r.wf(),
            r@.id == id.0,
            r@.name == name@,
            r@.leader == leader.0,
            r@.members == set![leader.0],
    {
        let mut members: FnvHashSet<u64> = FnvHashSet::default();
        set_insert(&mut members, leader.0);
        let r = Campaign { name, members, leader, id };
        assert(r@.members =~= set![leader.0]);
        r
    }

    pub fn id(&self) -> (r: CampaignId)
        ensures
            r.0 == self@.id,
    {
        self.id
    }

    pub fn name(&self) -> (r: &CampaignName)
        ensures
            r@ == self@.name,
    {
        &self.name
    }

    pub fn leader(&self) -> (r: MemberId)
        ensures
            r.0 == self@.leader,
    {
        self.leader
    }

    /// The members, each once, in no particular order.
    pub fn members(&self) -> (r: Vec<MemberId>)
        ensures
            ids_of(r@) == self@.members,
            forall|i: int, j: int|
                0 <= i < j < r@.len() ==> (#[trigger] r@[i]).0 != (#[trigger] r@[j]).0,
    {
        let elems = set_elements(&self.members);
        let mut out: Vec<MemberId> = Vec::new();
        let mut i: usize = 0;
        while i < elems.len()
            invariant
                i <= elems@.len(),
                out@.len() == i,
                forall|k: int| 0 <= k < i ==> (#[trigger] out@[k]).0 == elems@[k],
            decreases elems@.len() - i,
        {
            out.push(MemberId(elems[i]));
            i = i + 1;
        }
        proof {
            assert forall|m: u64| ids_of(out@).contains(m) == self@.members.contains(m) by {
                if ids_of(out@).contains(m) {
                    let k = choose|k: int| 0 <= k < out@.len() && (#[trigger] out@[k]).0 == m;
                    assert(elems@[k] == m);
                }
                if self@.members.contains(m) {
                    assert(elems@.contains(m));
                    let k = choose|k: int| 0 <= k < elems@.len() && elems@[k] == m;
                    assert(out@[k].0 == m);
                }
            }
            assert(ids_of(out@) =~= self@.members);
            assert forall|a: int, b: int|
                0 <= a < b < out@.len() implies (#[trigger] out@[a]).0 != (#[trigger] out@[b]).0 by {
                assert(elems@[a] != elems@[b]);
            }
        }
        out
    }

    /// Whether `user` is a member.
    pub fn has_member(&self, user: MemberId) -> (r: bool)
        ensures
            r == self@.members.contains(user.0),
    {
        set_contains(&self.members, user.0)
    }

    /// Adds `user` to the members; adding a member twice changes nothing.
    pub fn add_member(&mut self, user: MemberId)
        requires
            old(self).wf(),
        ensures
            final(self).wf(),
            final(self)@ == (CampaignView {
                members: old(self)@.members.insert(user.0),
                ..old(self)@
            }),
    {
        set_insert(&mut self.members, user.0);
    }

    /// Adds each of `users` to the members, as `add_member` does.
    pub fn add_members(&mut self, users: &[MemberId])
        requires
            old(self).wf(),
        ensures
            final(self).wf(),
            final(self)@ == (CampaignView {
                members: old(self)@.members.union(ids_of(users@)),
                ..old(self)@
            }),
    {
        let mut k: usize = 0;
        assert(ids_of(users@.subrange(0, 0)) =~= Set::empty());
        assert(old(self)@.members.union(Set::empty()) =~= old(self)@.members);
        while k < users.len()
            invariant
                k <= users@.len(),
                self.wf(),
                self@ == (CampaignView {
                    members: old(self)@.members.union(ids_of(users@.subrange(0, k as int))),
                    ..old(self)@
                }),
            decreases users@.len() - k,
        {
            self.add_member(users[k]);
            proof {
                let a = users@.subrange(0, k as int);
                let b = users@.subrange(0, k + 1);
                assert(ids_of(b) =~= ids_of(a).insert(users@[k as int].0)) by {
                    assert forall|m: u64| ids_of(b).contains(m) implies ids_of(a).insert(
                        users@[k as int].0,
                    ).contains(m) by {
                        let i = choose|i: int| 0 <= i < b.len() && (#[trigger] b[i]).0 == m;
                        if i < k {
                            assert(a[i].0 == m);
                        }
                    }
                    assert forall|m: u64| ids_of(a).insert(users@[k as int].0).contains(m) implies ids_of(
                        b,
                    ).contains(m) by {
                        if m == users@[k as int].0 {
                            assert(b[k as int].0 == m);
                        } else {
                            let i = choose|i: int| 0 <= i < a.len() && (#[trigger] a[i]).0 == m;
                            assert(b[i].0 == m);
                        }
                    }
                }
                assert(self@.members =~= old(self)@.members.union(ids_of(b)));
            }
            k = k + 1;
        }
        assert(users@.subrange(0, users@.len() as int) =~= users@);
    }

    /// A second campaign equal to this one.
    pub fn duplicate(&self) -> (r: Campaign)
        requires
            self.wf(),
        ensures
            r@ == self@,
            r.wf(),
    {
        let elems = set_elements(&self.members);
        let mut members: FnvHashSet<u64> = FnvHashSet::default();
        let mut i: usize = 0;
        while i < elems.len()
            invariant
                i <= elems@.len(),
                members@ == elems@.subrange(0, i as int).to_set(),
            decreases elems@.len() - i,
        {
            set_insert(&mut members, elems[i]);
            proof {
                assert(elems@.subrange(0, i + 1) =~= elems@.subrange(0, i as int).push(elems@[i as int]));
                elems@.subrange(0, i as int).lemma_push_to_set_commute(elems@[i as int]);
            }
            i = i + 1;
        }
        proof {
            assert(elems@.subrange(0, elems@.len() as int) =~= elems@);
            assert forall|m: u64| members@.contains(m) == self@.members.contains(m) by {
                if self@.members.contains(m) {
                    assert(elems@.contains(m));
                }
            }
            assert(members@ =~= self@.members);
        }
        Campaign { name: self.name.duplicate(), members, leader: self.leader, id: self.id }
    }
}

/// Every campaign built by `new` and then grown by `add_member` and
/// `add_members` has its leader among its members.
pub proof fn lemma_leader_is_member(c: Campaign)
    requires
        c.wf(),
    ensures
        c@.members.contains(c@.leader),
{
}

} // verus!
