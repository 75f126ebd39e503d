use crate::campaign::{ids_of, Campaign, CampaignId, CampaignView, MemberId};
use crate::name::CampaignName;
use crate::tables::{
    map_get, map_insert, map_keys, map_remove, name_entries, names_get, names_insert, names_new,
    names_remove, set_contains, set_insert, set_remove,
};
use fnv::{FnvHashMap, FnvHashSet};
use vstd::prelude::*;

verus! {

/// The directory as plain values: its campaigns by identity, the campaigns
/// of each member, and the owner of each name.
pub ghost struct DirectoryView {
    pub campaigns: Map<u64, CampaignView>,
    pub users: Map<u64, Set<u64>>,
    pub names: Map<Seq<char>, u64>,
}

/// Campaign `id` is recorded among the campaigns of member `m`.
pub open spec fn linked(users: Map<u64, Set<u64>>, m: u64, id: u64) -> bool {
    users.contains_key(m) && users[m].contains(id)
}

/// The member index and the name index agree with the campaign table.
pub open spec fn consistent(v: DirectoryView) -> bool {
    // each campaign is stored under its own identity
    &&& forall|id: u64| #[trigger] v.campaigns.contains_key(id) ==> v.campaigns[id].id == id
    // every campaign owns its name in the name index
    &&& forall|id: u64| #[trigger]
        v.campaigns.contains_key(id) ==> v.names.contains_key(v.campaigns[id].name)
            && v.names[v.campaigns[id].name] == id
    // the name index holds no name that its owner does not carry
    &&& forall|n: Seq<char>| #[trigger]
        v.names.contains_key(n) ==> v.campaigns.contains_key(v.names[n])
            && v.campaigns[v.names[n]].name == n
    // every member of a campaign points back to it
    &&& forall|id: u64, m: u64|
        v.campaigns.contains_key(id) && #[trigger] v.campaigns[id].members.contains(m) ==> linked(
            v.users,
            m,
            id,
        )
    // no member points to a campaign it does not belong to
    &&& forall|m: u64, id: u64| #[trigger]
        linked(v.users, m, id) ==> v.campaigns.contains_key(id)
            && v.campaigns[id].members.contains(m)
    // the member index keeps no empty entry
    &&& forall|m: u64| #[trigger] v.users.contains_key(m) ==> v.users[m] != Set::<u64>::empty()
    // two campaigns never share a name
    &&& forall|a: u64, b: u64|
        #![trigger v.campaigns[a], v.campaigns[b]]
        v.campaigns.contains_key(a) && v.campaigns.contains_key(b) && a != b
            ==> v.campaigns[a].name != v.campaigns[b].name
}

/// Some campaign other than `c.id` already carries the name of `c`.
pub open spec fn name_taken(cs: Map<u64, CampaignView>, c: CampaignView) -> bool {
    exists|x: u64| #[trigger] cs.contains_key(x) && x != c.id && cs[x].name == c.name
}

/// What an upsert of `c` does to a directory `pre`: nothing when the name
/// is taken by another campaign, else `c` replaces or joins the table.
pub open spec fn upserted(pre: DirectoryView, c: CampaignView, post: DirectoryView) -> bool {
    if name_taken(pre.campaigns, c) {
        post == pre
    } else {
        post.campaigns == pre.campaigns.insert(c.id, c)
    }
}

/// The upsert was refused: the name belongs to another campaign.
#[derive(Debug, Clone, Copy, PartialEq, Eq, Structural)]
pub struct DuplicateNameError {
    pub conflicting: CampaignId,
}

/// `m` is one of the first `i` members of `s`.
pub open spec fn in_prefix(s: Seq<MemberId>, i: int, m: u64) -> bool {
    exists|j: int| 0 <= j < i && (#[trigger] s[j]).0 == m
}

proof fn lemma_prefix_step(s: Seq<MemberId>, i: int, m: u64)
    requires
        0 <= i < s.len(),
    ensures
        in_prefix(s, i + 1, m) == (in_prefix(s, i, m) || s[i].0 == m),
{
    if in_prefix(s, i + 1, m) {
        let j = choose|j: int| 0 <= j < i + 1 && (#[trigger] s[j]).0 == m;
        if j < i {
            assert(in_prefix(s, i, m));
        }
    }
    if s[i].0 == m {
        assert(0 <= i < i + 1 && s[i].0 == m);
    }
}

proof fn lemma_prefix_all(s: Seq<MemberId>, m: u64)
    ensures
        in_prefix(s, s.len() as int, m) == ids_of(s).contains(m),
{
}

proof fn lemma_link_is_member(v: DirectoryView, m: u64, x: u64)
    requires
        consistent(v),
        linked(v.users, m, x),
    ensures
        v.campaigns.contains_key(x),
        v.campaigns[x].members.contains(m),
{
}

proof fn lemma_member_is_linked(v: DirectoryView, m: u64, x: u64)
    requires
        consistent(v),
        v.campaigns.contains_key(x),
        v.campaigns[x].members.contains(m),
    ensures
        linked(v.users, m, x),
{
}

proof fn lemma_campaign_named(v: DirectoryView, x: u64)
    requires
        consistent(v),
        v.campaigns.contains_key(x),
    ensures
        v.names.contains_key(v.campaigns[x].name),
        v.names[v.campaigns[x].name] == x,
{
}

proof fn lemma_entry_nonempty(v: DirectoryView, m: u64)
    requires
        consistent(v),
        v.users.contains_key(m),
    ensures
        v.users[m] != Set::<u64>::empty(),
{
}

proof fn lemma_names_distinct(v: DirectoryView, a: u64, b: u64)
    requires
        consistent(v),
        v.campaigns.contains_key(a),
        v.campaigns.contains_key(b),
        a != b,
    ensures
        v.campaigns[a].name != v.campaigns[b].name,
{
}

proof fn lemma_name_owner(v: DirectoryView, n: Seq<char>)
    requires
        consistent(v),
        v.names.contains_key(n),
    ensures
        v.campaigns.contains_key(v.names[n]),
        v.campaigns[v.names[n]].name == n,
{
}

proof fn lemma_stored_under_id(v: DirectoryView, x: u64)
    requires
        consistent(v),
        v.campaigns.contains_key(x),
    ensures
        v.campaigns[x].id == x,
{
}

/// The campaign table after upserting each record in turn, or `None` when
/// one of them is refused for its name.
pub open spec fn replay(rs: Seq<CampaignView>) -> Option<Map<u64, CampaignView>>
    decreases rs.len(),
{
    if rs.len() == 0 {
        Some(Map::empty())
    } else {
        match replay(rs.drop_last()) {
            None => None,
            Some(m) => if name_taken(m, rs.last()) {
                None
            } else {
                Some(m.insert(rs.last().id, rs.last()))
            },
        }
    }
}

/// `rs` lists every campaign of `cs` exactly once.
pub open spec fn lists(rs: Seq<CampaignView>, cs: Map<u64, CampaignView>) -> bool {
    &&& forall|i: int| #![trigger rs[i]] 0 <= i < rs.len() ==> cs.contains_key(rs[i].id) && cs[rs[i].id] == rs[i]
    &&& forall|id: u64| #[trigger] cs.contains_key(id) ==> exists|i: int| 0 <= i < rs.len() && (#[trigger] rs[i]).id == id
    &&& forall|i: int, j: int| 0 <= i < j < rs.len() ==> (#[trigger] rs[i]).id != (#[trigger] rs[j]).id
}

/// The identities among the first `k` records.
pub open spec fn prefix_ids(rs: Seq<CampaignView>, k: int) -> Set<u64> {
    Set::new(|x: u64| exists|j: int| 0 <= j < k && (#[trigger] rs[j]).id == x)
}

proof fn lemma_some_member(s: Set<u64>)
    requires
        s != Set::<u64>::empty(),
    ensures
        exists|x: u64| s.contains(x),
{
    if !(exists|x: u64| s.contains(x)) {
        assert(s =~= Set::<u64>::empty());
    }
}

/// Both indices are fixed by the campaign table: two consistent directories
/// with the same campaigns are the same directory.
pub proof fn lemma_indices_follow_table(a: DirectoryView, b: DirectoryView)
    requires
        consistent(a),
        consistent(b),
        a.campaigns == b.campaigns,
    ensures
        a == b,
{
    assert forall|m: u64, x: u64| linked(a.users, m, x) <==> linked(b.users, m, x) by {
        if linked(a.users, m, x) {
            lemma_link_is_member(a, m, x);
            lemma_member_is_linked(b, m, x);
        }
        if linked(b.users, m, x) {
            lemma_link_is_member(b, m, x);
            lemma_member_is_linked(a, m, x);
        }
    }
    assert forall|m: u64| a.users.contains_key(m) <==> b.users.contains_key(m) by {
        if a.users.contains_key(m) {
            lemma_entry_nonempty(a, m);
            lemma_some_member(a.users[m]);
            let x = choose|x: u64| a.users[m].contains(x);
            assert(linked(a.users, m, x));
        }
        if b.users.contains_key(m) {
            lemma_entry_nonempty(b, m);
            lemma_some_member(b.users[m]);
            let x = choose|x: u64| b.users[m].contains(x);
            assert(linked(b.users, m, x));
        }
    }
    assert forall|m: u64| a.users.contains_key(m) implies a.users[m] =~= b.users[m] by {
        assert forall|x: u64| a.users[m].contains(x) <==> b.users[m].contains(x) by {
            assert(linked(a.users, m, x) <==> linked(b.users, m, x));
        }
    }
    assert(a.users =~= b.users);
    assert forall|n: Seq<char>| a.names.contains_key(n) implies b.names.contains_key(n)
        && b.names[n] == a.names[n] by {
        lemma_name_owner(a, n);
        lemma_campaign_named(b, a.names[n]);
    }
    assert forall|n: Seq<char>| b.names.contains_key(n) implies a.names.contains_key(n) by {
        lemma_name_owner(b, n);
        lemma_campaign_named(a, b.names[n]);
    }
    assert(a.names =~= b.names);
}

/// Upserting the same campaign twice in a row leaves the directory as a
/// single upsert does.
pub proof fn lemma_upsert_idempotent(
    pre: DirectoryView,
    c: CampaignView,
    once: DirectoryView,
    twice: DirectoryView,
)
    requires
        consistent(pre),
        consistent(once),
        consistent(twice),
        upserted(pre, c, once),
        upserted(once, c, twice),
    ensures
        twice == once,
{
    if !name_taken(pre.campaigns, c) {
        if name_taken(once.campaigns, c) {
            let x = choose|x: u64| #[trigger]
                once.campaigns.contains_key(x) && x != c.id && once.campaigns[x].name == c.name;
            assert(pre.campaigns.contains_key(x));
        }
        assert(twice.campaigns =~= once.campaigns);
        lemma_indices_follow_table(once, twice);
    }
}

proof fn lemma_replay_prefix(d: DirectoryView, rs: Seq<CampaignView>, k: int)
    requires
        consistent(d),
        lists(rs, d.campaigns),
        0 <= k <= rs.len(),
    ensures
        replay(rs.subrange(0, k)) == Some(d.campaigns.restrict(prefix_ids(rs, k))),
    decreases k,
{
    if k == 0 {
        assert(rs.subrange(0, 0) =~= Seq::<CampaignView>::empty());
        assert(d.campaigns.restrict(prefix_ids(rs, 0)) =~= Map::empty());
    } else {
        lemma_replay_prefix(d, rs, k - 1);
        let p = rs.subrange(0, k);
        assert(p.drop_last() =~= rs.subrange(0, k - 1));
        let m = d.campaigns.restrict(prefix_ids(rs, k - 1));
        let c = rs[k - 1];
        assert(p.last() == c);
        assert(d.campaigns.contains_key(c.id) && d.campaigns[c.id] == c);
        if name_taken(m, c) {
            let x = choose|x: u64| #[trigger] m.contains_key(x) && x != c.id && m[x].name == c.name;
            lemma_names_distinct(d, x, c.id);
        }
        assert forall|x: u64| #[trigger] prefix_ids(rs, k).contains(x) <==> (prefix_ids(rs, k - 1).contains(x) || x == c.id) by {
            if prefix_ids(rs, k).contains(x) {
                let j = choose|j: int| 0 <= j < k && (#[trigger] rs[j]).id == x;
                if j < k - 1 {
                    assert(prefix_ids(rs, k - 1).contains(x));
                }
            }
            if prefix_ids(rs, k - 1).contains(x) {
                let j = choose|j: int| 0 <= j < k - 1 && (#[trigger] rs[j]).id == x;
                assert(0 <= j < k && rs[j].id == x);
            }
            if x == c.id {
                assert(0 <= k - 1 < k && rs[k - 1].id == x);
            }
        }
        assert(m.insert(c.id, c) =~= d.campaigns.restrict(prefix_ids(rs, k)));
    }
}

/// Replaying a list of every campaign of a consistent directory, each once,
/// succeeds and rebuilds its campaign table.
pub proof fn lemma_records_replay(d: DirectoryView, rs: Seq<CampaignView>)
    requires
        consistent(d),
        lists(rs, d.campaigns),
    ensures
        replay(rs) == Some(d.campaigns),
{
    lemma_replay_prefix(d, rs, rs.len() as int);
    assert(rs.subrange(0, rs.len() as int) =~= rs);
    assert forall|x: u64| d.campaigns.contains_key(x) implies #[trigger] prefix_ids(rs, rs.len() as int).contains(x) by {
        let i = choose|i: int| 0 <= i < rs.len() && (#[trigger] rs[i]).id == x;
    }
    assert(d.campaigns.restrict(prefix_ids(rs, rs.len() as int)) =~= d.campaigns);
}

/// Writing out the campaigns of a directory and replaying them into a
/// fresh directory gives back the same campaign table, member index and
/// name index.
pub proof fn lemma_round_trip(d: DirectoryView, rs: Seq<CampaignView>, e: DirectoryView)
    requires
        consistent(d),
        lists(rs, d.campaigns),
        consistent(e),
        replay(rs) == Some(e.campaigns),
    ensures
        e == d,
{
    lemma_records_replay(d, rs);
    lemma_indices_follow_table(d, e);
}

proof fn lemma_replay_extend_none(rs: Seq<CampaignView>, k: int)
    requires
        0 <= k <= rs.len(),
        replay(rs.subrange(0, k)) is None,
    ensures
        replay(rs) is None,
    decreases rs.len() - k,
{
    if k == rs.len() {
        assert(rs.subrange(0, k) =~= rs);
    } else {
        assert(rs.subrange(0, k + 1).drop_last() =~= rs.subrange(0, k));
        lemma_replay_extend_none(rs, k + 1);
    }
}

/// In a consistent directory the member index records a campaign for
/// exactly its current members: after a campaign is replaced, its old
/// members that left no longer point to it and every new member does.
pub proof fn lemma_links_follow_members(d: DirectoryView, id: u64, m: u64)
    requires
        consistent(d),
        d.campaigns.contains_key(id),
    ensures
        linked(d.users, m, id) <==> d.campaigns[id].members.contains(m),
{
    if linked(d.users, m, id) {
        lemma_link_is_member(d, m, id);
    }
    if d.campaigns[id].members.contains(m) {
        lemma_member_is_linked(d, m, id);
    }
}

/// Renaming a campaign frees its old name: once an upsert has replaced
/// campaign `c.id` by `c` under another name, the name index no longer
/// holds the old name and maps the new one to `c.id`.
pub proof fn lemma_rename_frees_name(pre: DirectoryView, c: CampaignView, post: DirectoryView)
    requires
        consistent(pre),
        consistent(post),
        upserted(pre, c, post),
        !name_taken(pre.campaigns, c),
        pre.campaigns.contains_key(c.id),
        pre.campaigns[c.id].name != c.name,
    ensures
        !post.names.contains_key(pre.campaigns[c.id].name),
        post.names.contains_key(c.name),
        post.names[c.name] == c.id,
{
    let old_name = pre.campaigns[c.id].name;
    assert(post.campaigns.contains_key(c.id) && post.campaigns[c.id] == c);
    if post.names.contains_key(old_name) {
        lemma_name_owner(post, old_name);
        let y = post.names[old_name];
        assert(y != c.id);
        assert(pre.campaigns.contains_key(y) && pre.campaigns[y] == post.campaigns[y]);
        lemma_names_distinct(pre, y, c.id);
    }
    lemma_campaign_named(post, c.id);
}

/// A membership directory of campaigns with a name index and a member index.
pub struct CampaignState {
    campaign_table: FnvHashMap<u64, Campaign>,
    user_table: FnvHashMap<u64, FnvHashSet<u64>>,
    campaign_names_table: FnvHashMap<String, u64>,
}

impl View for CampaignState {
    type V = DirectoryView;

    closed spec fn view(&self) -> DirectoryView {
        DirectoryView {
            campaigns: self.campaign_table@.map_values(|c: Campaign| c@),
            users: self.user_table@.map_values(|s: FnvHashSet<u64>| s@),
            names: name_entries(self.campaign_names_table),
        }
    }
}

impl CampaignState {
    /// Every stored campaign is well formed.
    pub closed spec fn stored_ok(&self) -> bool {
        &&& forall|id: u64| #[trigger]
            self.campaign_table@.contains_key(id) ==> self.campaign_table@[id].wf()
    }

    /// The directory is well formed: all its invariants hold.
    pub open spec fn wf(&self) -> bool {
        self.stored_ok() && consistent(self@)
    }

    /// An empty directory.
    pub fn new() -> (r: CampaignState)
        ensures
            r.wf(),
            r@.campaigns.is_empty(),
            r@.users.is_empty(),
            r@.names.is_empty(),
    {
        let r = CampaignState {
            campaign_table: FnvHashMap::default(),
            user_table: FnvHashMap::default(),
            campaign_names_table: names_new(),
        };
        assert(r@.campaigns =~= Map::empty());
        assert(r@.users =~= Map::empty());
        assert(r@.names =~= Map::empty());
        r
    }

    /// The campaign that owns `name`, if any.
    pub fn lookup_name(&self, name: &CampaignName) -> (r: Option<CampaignId>)
        requires
            self.wf(),
        ensures
            match r {
                Some(id) => self@.names.contains_key(name@) && self@.names[name@] == id.0,
                None => !self@.names.contains_key(name@),
            },
    {
        match names_get(&self.campaign_names_table, name.as_str()) {
            Some(v) => Some(CampaignId(v)),
            None => None,
        }
    }

    /// The campaign stored under `id`, if any.
    pub fn get(&self, id: CampaignId) -> (r: Option<&Campaign>)
        ensures
            match r {
                Some(c) => self@.campaigns.contains_key(id.0) && c@ == self@.campaigns[id.0],
                None => !self@.campaigns.contains_key(id.0),
            },
    {
        map_get(&self.campaign_table, id.0)
    }

    /// Whether the member index records `id` among the campaigns of `member`.
    pub fn is_linked(&self, member: MemberId, id: CampaignId) -> (r: bool)
        ensures
            r == linked(self@.users, member.0, id.0),
    {
        match map_get(&self.user_table, member.0) {
            Some(s) => set_contains(s, id.0),
            None => false,
        }
    }

    /// The identities of the campaigns `member` belongs to, if any.
    pub fn campaigns_of(&self, member: MemberId) -> (r: Option<&FnvHashSet<u64>>)
        ensures
            match r {
                Some(s) => self@.users.contains_key(member.0) && s@ == self@.users[member.0],
                None => !self@.users.contains_key(member.0),
            },
    {
        map_get(&self.user_table, member.0)
    }
    /// Drops every link of `gone`, whose entry has already left the table.
    fn remove_links(&mut self, gone: &Campaign)
        requires
            old(self).stored_ok(),
            gone.wf(),
            !old(self)@.campaigns.contains_key(gone@.id),
            consistent(
                DirectoryView {
                    campaigns: old(self)@.campaigns.insert(gone@.id, gone@),
                    ..old(self)@
                },
            ),
        ensures
            final(self).wf(),
            final(self)@.campaigns == old(self)@.campaigns,
    {
        let id = gone.id().0;
        let members = gone.members();
        let ghost mseq = members@;
        let ghost u0 = self@.users;
        let ghost c1 = old(self)@.campaigns.insert(gone@.id, gone@);
        let ghost vold = DirectoryView { campaigns: c1, users: u0, names: old(self)@.names };
        assert(vold == DirectoryView { campaigns: c1, ..old(self)@ });
        assert(consistent(vold));
        assert forall|m: u64| #[trigger] u0.contains_key(m) implies u0[m] != Set::<u64>::empty() by {
            lemma_entry_nonempty(vold, m);
        }
        let mut i: usize = 0;
        while i < members.len()
            invariant
                i <= members@.len(),
                id == gone@.id,
                ids_of(members@) == gone@.members,
                self.campaign_table == old(self).campaign_table,
                self.campaign_names_table == old(self).campaign_names_table,
                forall|m: u64, x: u64| #[trigger]
                    linked(self@.users, m, x) <==> linked(u0, m, x) && !(x == id && in_prefix(
                        members@,
                        i as int,
                        m,
                    )),
                forall|m: u64| #[trigger] self@.users.contains_key(m) ==> self@.users[m] != Set::<u64>::empty(),
            decreases members@.len() - i,
        {
            let key = members[i].0;
            let ghost before = self@.users;
            match map_remove(&mut self.user_table, key) {
                Some(mut set) => {
                    let ghost s0 = set@;
                    assert(s0 == before[key]);
                    set_remove(&mut set, id);
                    if !set.is_empty() {
                        map_insert(&mut self.user_table, key, set);
                        assert(self@.users =~= before.insert(key, s0.remove(id)));
                    } else {
                        assert(self@.users =~= before.remove(key));
                        assert forall|x: u64| s0.contains(x) implies x == id by {
                            assert(!s0.remove(id).contains(x));
                        }
                    }
                },
                None => {
                    assert(!before.contains_key(key));
                    assert(self@.users =~= before);
                },
            }
            proof {
                assert forall|m: u64, x: u64|
                    m != key implies #[trigger] linked(self@.users, m, x) == linked(before, m, x) by {}
                assert forall|x: u64|
                    #[trigger] linked(self@.users, key, x) == (linked(before, key, x) && x != id) by {}
                assert forall|m: u64, x: u64| #[trigger]
                    linked(self@.users, m, x) <==> linked(u0, m, x) && !(x == id && in_prefix(
                        members@,
                        i + 1,
                        m,
                    )) by {
                    lemma_prefix_step(members@, i as int, m);
                    if m != key {
                        assert(linked(self@.users, m, x) == linked(before, m, x));
                    }
                }
            }
            i = i + 1;
        }
        let ghost u1 = self@.users;
        proof {
            assert forall|m: u64, x: u64| #[trigger] linked(u1, m, x) implies x != id && linked(
                u0,
                m,
                x,
            ) by {
                lemma_prefix_all(members@, m);
                assert(linked(u0, m, x));
                lemma_link_is_member(vold, m, x);
            }
        }
        names_remove(&mut self.campaign_names_table, gone.name().as_str());
        proof {
            let v = self@;
            let n0 = old(self)@.names;
            assert(v.names == n0.remove(gone@.name));
            assert(v.users == u1);
            assert(v.campaigns == old(self)@.campaigns);
            assert forall|x: u64| #[trigger] v.campaigns.contains_key(x) implies v.names.contains_key(
                v.campaigns[x].name,
            ) && v.names[v.campaigns[x].name] == x by {
                assert(c1.contains_key(x) && c1.contains_key(id) && c1[x] == v.campaigns[x]);
                lemma_names_distinct(vold, x, id);
                lemma_campaign_named(vold, x);
            }
            assert forall|n: Seq<char>| #[trigger] v.names.contains_key(n) implies v.campaigns.contains_key(
                v.names[n],
            ) && v.campaigns[v.names[n]].name == n by {
                assert(n0.contains_key(n));
                lemma_name_owner(vold, n);
            }
            assert forall|x: u64, m: u64|
                v.campaigns.contains_key(x) && #[trigger] v.campaigns[x].members.contains(m) implies linked(
                v.users,
                m,
                x,
            ) by {
                assert(c1[x] == v.campaigns[x]);
                lemma_member_is_linked(vold, m, x);
                assert(linked(u1, m, x));
            }
            assert forall|m: u64, x: u64| #[trigger] linked(v.users, m, x) implies v.campaigns.contains_key(
                x,
            ) && v.campaigns[x].members.contains(m) by {
                assert(linked(u1, m, x));
                lemma_link_is_member(vold, m, x);
            }
            assert forall|a: u64, b: u64|
                #![trigger v.campaigns[a], v.campaigns[b]]
                v.campaigns.contains_key(a) && v.campaigns.contains_key(b) && a != b implies v.campaigns[a].name
                != v.campaigns[b].name by {
                assert(c1[a] == v.campaigns[a] && c1[b] == v.campaigns[b]);
                lemma_names_distinct(vold, a, b);
            }
            assert forall|x: u64| #[trigger] v.campaigns.contains_key(x) implies v.campaigns[x].id
                == x by {
                assert(c1.contains_key(x) && c1[x] == v.campaigns[x]);
                lemma_stored_under_id(vold, x);
            }
            assert(self.stored_ok());
            assert(consistent(v));
        }
    }

    /// Links `c`, already stored under its identity, into both indices: each
    /// member points to it and its free name is given to it. The campaign
    /// table is left as it is.
    fn add_links(&mut self, c: &Campaign)
        requires
            old(self).stored_ok(),
            c.wf(),
            old(self)@.campaigns.contains_key(c@.id),
            old(self)@.campaigns[c@.id] == c@,
            !old(self)@.names.contains_key(c@.name),
            consistent(
                DirectoryView {
                    campaigns: old(self)@.campaigns.remove(c@.id),
                    ..old(self)@
                },
            ),
        ensures
            final(self).wf(),
            final(self).campaign_table == old(self).campaign_table,
            final(self)@.campaigns == old(self)@.campaigns,
            final(self)@.names == old(self)@.names.insert(c@.name, c@.id),
    {
        let id = c.id().0;
        let ghost u0 = self@.users;
        let ghost cbase = old(self)@.campaigns.remove(id);
        let ghost vbase = DirectoryView { campaigns: cbase, users: u0, names: old(self)@.names };
        assert(vbase == DirectoryView { campaigns: old(self)@.campaigns.remove(c@.id), ..old(self)@ });
        assert forall|m: u64| #[trigger] u0.contains_key(m) implies u0[m] != Set::<u64>::empty() by {
            lemma_entry_nonempty(vbase, m);
        }
        let members = c.members();
        let mut i: usize = 0;
        while i < members.len()
            invariant
                i <= members@.len(),
                id == c@.id,
                ids_of(members@) == c@.members,
                self.campaign_table == old(self).campaign_table,
                self.campaign_names_table == old(self).campaign_names_table,
                forall|m: u64, x: u64| #[trigger]
                    linked(self@.users, m, x) <==> linked(u0, m, x) || (x == id && in_prefix(
                        members@,
                        i as int,
                        m,
                    )),
                forall|m: u64| #[trigger] self@.users.contains_key(m) ==> self@.users[m] != Set::<u64>::empty(),
            decreases members@.len() - i,
        {
            let key = members[i].0;
            let ghost before = self@.users;
            let mut set = match map_remove(&mut self.user_table, key) {
                Some(s) => s,
                None => FnvHashSet::default(),
            };
            let ghost s0 = set@;
            set_insert(&mut set, id);
            map_insert(&mut self.user_table, key, set);
            proof {
                assert(self@.users =~= before.insert(key, s0.insert(id)));
                assert forall|m: u64, x: u64|
                    m != key implies #[trigger] linked(self@.users, m, x) == linked(before, m, x) by {}
                assert forall|x: u64|
                    #[trigger] linked(self@.users, key, x) == (linked(before, key, x) || x == id) by {}
                assert(s0.insert(id).contains(id));
                if before.contains_key(key) {
                    assert(s0 == before[key]);
                } else {
                    assert(s0 == Set::<u64>::empty());
                }
                assert(self@.users[key].contains(id));
                assert forall|m: u64, x: u64| #[trigger]
                    linked(self@.users, m, x) <==> linked(u0, m, x) || (x == id && in_prefix(
                        members@,
                        i + 1,
                        m,
                    )) by {
                    lemma_prefix_step(members@, i as int, m);
                    if m != key {
                        assert(linked(self@.users, m, x) == linked(before, m, x));
                    }
                }
            }
            i = i + 1;
        }
        let ghost u1 = self@.users;
        names_insert(&mut self.campaign_names_table, c.name().as_str().to_owned(), id);
        let ghost cv = c@;
        let ghost cseq = members@;
        proof {
            let v = self@;
            let c0 = cbase;
            let n0 = old(self)@.names;
            assert(v.campaigns =~= c0.insert(id, cv));
            assert(v.names == n0.insert(cv.name, id));
            assert(v.users == u1);
            assert forall|x: u64| #[trigger] v.campaigns.contains_key(x) implies v.names.contains_key(
                v.campaigns[x].name,
            ) && v.names[v.campaigns[x].name] == x by {
                if x != id {
                    lemma_campaign_named(vbase, x);
                }
            }
            assert forall|n: Seq<char>| #[trigger] v.names.contains_key(n) implies v.campaigns.contains_key(
                v.names[n],
            ) && v.campaigns[v.names[n]].name == n by {
                if n != cv.name {
                    assert(n0.contains_key(n));
                    lemma_name_owner(vbase, n);
                }
            }
            assert forall|x: u64, m: u64|
                v.campaigns.contains_key(x) && #[trigger] v.campaigns[x].members.contains(m) implies linked(
                v.users,
                m,
                x,
            ) by {
                lemma_prefix_all(cseq, m);
                if x != id {
                    lemma_member_is_linked(vbase, m, x);
                }
                assert(linked(u1, m, x));
            }
            assert forall|m: u64, x: u64| #[trigger] linked(v.users, m, x) implies v.campaigns.contains_key(
                x,
            ) && v.campaigns[x].members.contains(m) by {
                lemma_prefix_all(cseq, m);
                assert(linked(u1, m, x));
                if linked(u0, m, x) {
                    lemma_link_is_member(vbase, m, x);
                }
            }
            assert forall|a: u64, b: u64|
                #![trigger v.campaigns[a], v.campaigns[b]]
                v.campaigns.contains_key(a) && v.campaigns.contains_key(b) && a != b implies v.campaigns[a].name
                != v.campaigns[b].name by {
                if a == id {
                    lemma_campaign_named(vbase, b);
                } else if b == id {
                    lemma_campaign_named(vbase, a);
                } else {
                    lemma_names_distinct(vbase, a, b);
                }
            }
            assert forall|x: u64| #[trigger] v.campaigns.contains_key(x) implies v.campaigns[x].id
                == x by {
                if x != id {
                    lemma_stored_under_id(vbase, x);
                }
            }
        }
    }

    /// Inserts `campaign`, or replaces the campaign stored under its
    /// identity, and brings both indices up to date. Refused, with the
    /// directory left as it was, when another campaign owns the name.
    pub fn upsert_campaign(&mut self, campaign: Campaign) -> (r: Result<(), DuplicateNameError>)
        requires
            old(self).wf(),
            campaign.wf(),
        ensures
            final(self).wf(),
            upserted(old(self)@, campaign@, final(self)@),
            r is Err <==> name_taken(old(self)@.campaigns, campaign@),
            match r {
                Ok(_) => final(self)@.names[campaign@.name] == campaign@.id,
                Err(e) => old(self)@.names.contains_key(campaign@.name)
                    && old(self)@.names[campaign@.name] == e.conflicting.0
                    && e.conflicting.0 != campaign@.id,
            },
    {
        let id = campaign.id().0;
        match self.lookup_name(campaign.name()) {
            Some(owner) => {
                if owner.0 != id {
                    proof {
                        let cs = self@.campaigns;
                        assert(cs.contains_key(owner.0) && cs[owner.0].name == campaign@.name);
                    }
                    return Err(DuplicateNameError { conflicting: owner });
                }
            },
            None => {},
        }
        let ghost cv = campaign@;
        proof {
            if name_taken(self@.campaigns, cv) {
                let x = choose|x: u64| #[trigger]
                    self@.campaigns.contains_key(x) && x != cv.id && self@.campaigns[x].name
                        == cv.name;
                assert(self@.names.contains_key(self@.campaigns[x].name));
            }
        }
        let removed = map_remove(&mut self.campaign_table, id);
        match removed {
            Some(gone) => {
                proof {
                    assert(old(self)@.campaigns.contains_key(id));
                    assert(old(self)@.campaigns[id] == gone@);
                    assert(self@.campaigns.insert(id, gone@) =~= old(self)@.campaigns);
                }
                self.remove_links(&gone);
            },
            None => {
                assert(self@.campaigns =~= old(self)@.campaigns);
            },
        }
        proof {
            assert(self@.campaigns =~= old(self)@.campaigns.remove(id));
            if self@.names.contains_key(cv.name) {
                let y = self@.names[cv.name];
                assert(old(self)@.campaigns.contains_key(y) && y != id);
            }
        }
        let copy = campaign.duplicate();
        let ghost mid = self@;
        map_insert(&mut self.campaign_table, id, campaign);
        proof {
            assert(self@.campaigns =~= old(self)@.campaigns.insert(cv.id, cv));
            assert(self@.campaigns.remove(id) =~= mid.campaigns);
            assert(DirectoryView { campaigns: self@.campaigns.remove(id), ..self@ } == mid);
        }
        self.add_links(&copy);
        proof {
            assert(self@.campaigns.contains_key(cv.id));
        }
        Ok(())
    }
    /// Every campaign of the directory, each once: what is saved of it.
    pub fn to_records(&self) -> (r: Vec<Campaign>)
        requires
            self.wf(),
        ensures
            lists(r@.map_values(|c: Campaign| c@), self@.campaigns),
            forall|i: int| 0 <= i < r@.len() ==> (#[trigger] r@[i]).wf(),
    {
        let keys = map_keys(&self.campaign_table);
        let ghost cs = self@.campaigns;
        let mut out: Vec<Campaign> = Vec::new();
        let mut i: usize = 0;
        while i < keys.len()
            invariant
                self.wf(),
                cs == self@.campaigns,
                keys@.no_duplicates(),
                forall|k: int| 0 <= k < keys@.len() ==> cs.contains_key(#[trigger] keys@[k]),
                i <= keys@.len(),
                out@.len() == i,
                forall|k: int| 0 <= k < i ==> (#[trigger] out@[k])@ == cs[keys@[k]] && out@[k].wf(),
            decreases keys@.len() - i,
        {
            let key = keys[i];
            let c = map_get(&self.campaign_table, key).unwrap();
            let dup = c.duplicate();
            let ghost prev = out@;
            out.push(dup);
            proof {
                assert(cs.contains_key(keys@[i as int]));
                assert(c@ == cs[key]);
                assert forall|k: int| 0 <= k < i + 1 implies (#[trigger] out@[k])@ == cs[keys@[k]]
                    && out@[k].wf() by {
                    if k < i {
                        assert(out@[k] == prev[k]);
                    }
                }
            }
            i = i + 1;
        }
        proof {
            let rs = out@.map_values(|c: Campaign| c@);
            assert forall|k: int| 0 <= k < keys@.len() implies #[trigger] rs[k].id == keys@[k] by {
                assert(out@[k]@ == rs[k]);
                lemma_stored_under_id(self@, keys@[k]);
            }
            assert forall|id: u64| #[trigger] cs.contains_key(id) implies exists|k: int|
                0 <= k < rs.len() && (#[trigger] rs[k]).id == id by {
                assert(keys@.contains(id));
                let k = choose|k: int| 0 <= k < keys@.len() && keys@[k] == id;
                assert(rs[k].id == id);
            }
            assert forall|a: int, b: int| 0 <= a < b < rs.len() implies (#[trigger] rs[a]).id != (
            #[trigger] rs[b]).id by {
                assert(rs[a].id == keys@[a] && rs[b].id == keys@[b]);
            }
            assert forall|k: int| #![trigger rs[k]] 0 <= k < rs.len() implies cs.contains_key(rs[k].id) && cs[rs[k].id] == rs[k] by {
                assert(rs[k].id == keys@[k]);
            }
        }
        out
    }

    /// A directory built by upserting each record in turn, or the error of
    /// the first record refused for its name.
    pub fn from_records(records: &Vec<Campaign>) -> (r: Result<CampaignState, DuplicateNameError>)
        requires
            forall|i: int| 0 <= i < records@.len() ==> (#[trigger] records@[i]).wf(),
        ensures
            match r {
                Ok(d) => d.wf() && replay(records@.map_values(|c: Campaign| c@)) == Some(d@.campaigns),
                Err(_) => replay(records@.map_values(|c: Campaign| c@)) is None,
            },
    {
        let ghost rs = records@.map_values(|c: Campaign| c@);
        let mut d = CampaignState::new();
        let mut i: usize = 0;
        assert(rs.subrange(0, 0) =~= Seq::<CampaignView>::empty());
        assert(d@.campaigns =~= Map::empty());
        while i < records.len()
            invariant
                i <= records@.len(),
                rs == records@.map_values(|c: Campaign| c@),
                forall|k: int| 0 <= k < records@.len() ==> (#[trigger] records@[k]).wf(),
                d.wf(),
                replay(rs.subrange(0, i as int)) == Some(d@.campaigns),
            decreases records@.len() - i,
        {
            let c = records[i].duplicate();
            let res = d.upsert_campaign(c);
            proof {
                assert(rs.subrange(0, i + 1).drop_last() =~= rs.subrange(0, i as int));
                assert(rs.subrange(0, i + 1).last() == rs[i as int]);
            }
            match res {
                Ok(()) => {},
                Err(e) => {
                    proof {
                        lemma_replay_extend_none(rs, i + 1);
                    }
                    return Err(e);
                },
            }
            i = i + 1;
        }
        assert(rs.subrange(0, rs.len() as int) =~= rs);
        Ok(d)
    }

    /// Empties the directory.
    pub fn clear(&mut self)
        ensures
            final(self).wf(),
            final(self)@.campaigns.is_empty(),
            final(self)@.users.is_empty(),
            final(self)@.names.is_empty(),
    {
        *self = CampaignState::new();
    }
}

impl Default for CampaignState {
    fn default() -> (r: CampaignState)
        ensures
            r.wf(),
            r@.campaigns.is_empty(),
            r@.users.is_empty(),
            r@.names.is_empty(),
    {
        CampaignState::new()
    }
}

} // verus!
