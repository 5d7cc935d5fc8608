//! Ledger records and the vocabulary used to speak about a list of them.

use vstd::prelude::*;

verus! {

/// One member's entry in the ledger.
///
/// `last_punish` is the time of the last strike or of the last forgiven
/// strike, in seconds since the Unix epoch. `pitted` is set while the member
/// holds the punishment role and the matching leave has not been seen yet.
#[derive(Clone, Copy, Debug, PartialEq, Eq, Structural)]
pub struct PunishedUser {
    pub id: u64,
    pub times_punished: u16,
    pub last_punish: u64,
    pub pitted: bool,
}

/// No member has two records.
pub open spec fn distinct_ids(users: Seq<PunishedUser>) -> bool {
    forall|i: int, j: int| 0 <= i < j < users.len() ==> users[i].id != users[j].id
}

/// Every record carries at least one strike.
pub open spec fn all_struck(users: Seq<PunishedUser>) -> bool {
    forall|i: int| 0 <= i < users.len() ==> users[i].times_punished > 0
}

/// What a list of records must satisfy to be a ledger.
pub open spec fn valid_ledger(users: Seq<PunishedUser>) -> bool {
    distinct_ids(users) && all_struck(users)
}

/// The member has a record in the list.
pub open spec fn tracks(users: Seq<PunishedUser>, id: u64) -> bool {
    exists|i: int| 0 <= i < users.len() && users[i].id == id
}

/// Where the member's record stands, if the list tracks the member.
pub open spec fn slot(users: Seq<PunishedUser>, id: u64) -> int {
    choose|i: int| 0 <= i < users.len() && users[i].id == id
}

/// The member's record, if there is one.
pub open spec fn record_of(users: Seq<PunishedUser>, id: u64) -> Option<PunishedUser> {
    if tracks(users, id) {
        Some(users[slot(users, id)])
    } else {
        None
    }
}

/// A record as it is once the member is out of the pit.
pub open spec fn released(user: PunishedUser) -> PunishedUser {
    PunishedUser { pitted: false, ..user }
}

/// A member's record, if there is one, once the member is out of the pit.
pub open spec fn let_out(previous: Option<PunishedUser>) -> Option<PunishedUser> {
    match previous {
        Some(user) => Some(released(user)),
        None => None,
    }
}

/// `released` as a rule to apply to every record.
pub open spec fn release_rule() -> spec_fn(PunishedUser) -> PunishedUser {
    |user: PunishedUser| released(user)
}

/// In a list without duplicates, a record that carries the member's id is
/// the member's record.
pub proof fn lemma_slot_is(users: Seq<PunishedUser>, id: u64, i: int)
    requires
        distinct_ids(users),
        0 <= i < users.len(),
        users[i].id == id,
    ensures
        tracks(users, id),
        slot(users, id) == i,
        record_of(users, id) == Some(users[i]),
{
    let k = slot(users, id);
    assert(0 <= k < users.len() && users[k].id == id);
    if k < i {
        assert(users[k].id != users[i].id);
    } else if i < k {
        assert(users[i].id != users[k].id);
    }
}

/// Dropping the last record of a list without duplicates leaves a list
/// without duplicates.
pub proof fn lemma_distinct_prefix(users: Seq<PunishedUser>, added: PunishedUser)
    requires
        distinct_ids(users.push(added)),
    ensures
        distinct_ids(users),
        !tracks(users, added.id),
{
    let more = users.push(added);
    assert forall|a: int, b: int| 0 <= a < b < users.len() implies users[a].id
        != users[b].id by {
        assert(more[a].id != more[b].id);
    }
    if tracks(users, added.id) {
        let j = choose|j: int| 0 <= j < users.len() && users[j].id == added.id;
        assert(more[j].id != more[users.len() as int].id);
    }
}

/// A first record for a member can be appended to a list without
/// duplicates, and is then the member's record.
pub proof fn lemma_push_new(users: Seq<PunishedUser>, added: PunishedUser)
    requires
        distinct_ids(users),
        !tracks(users, added.id),
    ensures
        distinct_ids(users.push(added)),
        record_of(users.push(added), added.id) == Some(added),
{
    let more = users.push(added);
    assert forall|a: int, b: int| 0 <= a < b < more.len() implies more[a].id != more[b].id by {
        if b == users.len() {
            assert(users[a].id != added.id);
        } else {
            assert(users[a].id != users[b].id);
        }
    }
    lemma_slot_is(more, added.id, users.len() as int);
}

/// A record that is appended for one member does not change what the list
/// says about another.
pub proof fn lemma_push_other(users: Seq<PunishedUser>, added: PunishedUser, id: u64)
    requires
        distinct_ids(users.push(added)),
        added.id != id,
    ensures
        tracks(users.push(added), id) == tracks(users, id),
        record_of(users.push(added), id) == record_of(users, id),
{
    let more = users.push(added);
    lemma_distinct_prefix(users, added);
    if tracks(users, id) {
        let j = choose|j: int| 0 <= j < users.len() && users[j].id == id;
        assert(more[j].id == id);
        lemma_slot_is(more, id, j);
        lemma_slot_is(users, id, j);
    } else if tracks(more, id) {
        let j = choose|j: int| 0 <= j < more.len() && more[j].id == id;
        assert(users[j].id == id);
    }
}

/// Replacing a member's record by another record of the same member keeps
/// the list free of duplicates and makes the new record the member's.
pub proof fn lemma_update_same(users: Seq<PunishedUser>, i: int, changed: PunishedUser)
    requires
        distinct_ids(users),
        0 <= i < users.len(),
        changed.id == users[i].id,
    ensures
        distinct_ids(users.update(i, changed)),
        record_of(users.update(i, changed), changed.id) == Some(changed),
{
    let next = users.update(i, changed);
    assert forall|a: int, b: int| 0 <= a < b < next.len() implies next[a].id != next[b].id by {
        assert(users[a].id != users[b].id);
    }
    lemma_slot_is(next, changed.id, i);
}

/// Replacing a member's record does not change what the list says about
/// another member.
pub proof fn lemma_update_other(users: Seq<PunishedUser>, i: int, changed: PunishedUser, id: u64)
    requires
        distinct_ids(users),
        0 <= i < users.len(),
        changed.id == users[i].id,
        changed.id != id,
    ensures
        tracks(users.update(i, changed), id) == tracks(users, id),
        record_of(users.update(i, changed), id) == record_of(users, id),
{
    let next = users.update(i, changed);
    lemma_update_same(users, i, changed);
    if tracks(users, id) {
        let j = choose|j: int| 0 <= j < users.len() && users[j].id == id;
        assert(next[j].id == id);
        lemma_slot_is(next, id, j);
        lemma_slot_is(users, id, j);
    } else if tracks(next, id) {
        let j = choose|j: int| 0 <= j < next.len() && next[j].id == id;
        assert(users[j].id == id);
    }
}

/// Removing a member's record keeps the list free of duplicates and leaves
/// the member without a record.
pub proof fn lemma_remove_same(users: Seq<PunishedUser>, i: int)
    requires
        distinct_ids(users),
        0 <= i < users.len(),
    ensures
        distinct_ids(users.remove(i)),
        !tracks(users.remove(i), users[i].id),
{
    let next = users.remove(i);
    assert forall|a: int, b: int| 0 <= a < b < next.len() implies next[a].id != next[b].id by {
        let a0 = if a < i { a } else { a + 1 };
        let b0 = if b < i { b } else { b + 1 };
        assert(users[a0].id != users[b0].id);
    }
    if tracks(next, users[i].id) {
        let j = choose|j: int| 0 <= j < next.len() && next[j].id == users[i].id;
        let j0 = if j < i { j } else { j + 1 };
        if j0 < i {
            assert(users[j0].id != users[i].id);
        } else {
            assert(users[i].id != users[j0].id);
        }
    }
}

/// Removing a member's record does not change what the list says about
/// another member.
pub proof fn lemma_remove_other(users: Seq<PunishedUser>, i: int, id: u64)
    requires
        distinct_ids(users),
        0 <= i < users.len(),
        users[i].id != id,
    ensures
        tracks(users.remove(i), id) == tracks(users, id),
        record_of(users.remove(i), id) == record_of(users, id),
{
    let next = users.remove(i);
    lemma_remove_same(users, i);
    if tracks(users, id) {
        let j = choose|j: int| 0 <= j < users.len() && users[j].id == id;
        let j1 = if j < i { j } else { j - 1 };
        assert(next[j1] == users[j]);
        lemma_slot_is(next, id, j1);
        lemma_slot_is(users, id, j);
    } else if tracks(next, id) {
        let j = choose|j: int| 0 <= j < next.len() && next[j].id == id;
        let j0 = if j < i { j } else { j + 1 };
        assert(users[j0].id == id);
    }
}

/// Letting every member out of the pit keeps a ledger a ledger.
pub proof fn lemma_release_keeps_ledger(users: Seq<PunishedUser>)
    requires
        valid_ledger(users),
    ensures
        valid_ledger(users.map_values(release_rule())),
{
    lemma_release_all(users, 0);
}

/// Letting every member out of the pit treats each member's record alike.
pub proof fn lemma_release_all(users: Seq<PunishedUser>, id: u64)
    requires
        valid_ledger(users),
    ensures
        valid_ledger(users.map_values(release_rule())),
        record_of(users.map_values(release_rule()), id) == let_out(record_of(users, id)),
{
    let out = users.map_values(release_rule());
    assert forall|a: int, b: int| 0 <= a < b < out.len() implies out[a].id != out[b].id by {
        assert(users[a].id != users[b].id);
    }
    assert forall|a: int| 0 <= a < out.len() implies out[a].times_punished > 0 by {
        assert(users[a].times_punished > 0);
    }
    if tracks(users, id) {
        let i = slot(users, id);
        assert(out[i].id == id);
        lemma_slot_is(out, id, i);
    } else if tracks(out, id) {
        let j = slot(out, id);
        assert(users[j].id == id);
    }
}

/// Finds the first record that carries `id`.
pub(crate) fn position(users: &Vec<PunishedUser>, id: u64) -> (found: Option<usize>)
    ensures
        match found {
            Some(i) => i < users.len() && users[i as int].id == id,
            None => !tracks(users@, id),
        },
{
    let mut i: usize = 0;
    while i < users.len()
        invariant
            i <= users.len(),
            forall|j: int| 0 <= j < i ==> users[j].id != id,
        decreases users.len() - i,
    {
        if users[i].id == id {
            return Some(i);
        }
        i += 1;
    }
    None
}

/// Tells whether `user`'s id occurs among the first `upto` records.
fn occurs_before(users: &Vec<PunishedUser>, upto: usize, id: u64) -> (found: bool)
    requires
        upto <= users.len(),
    ensures
        found == exists|j: int| 0 <= j < upto && users[j].id == id,
{
    let mut j: usize = 0;
    while j < upto
        invariant
            j <= upto <= users.len(),
            forall|k: int| 0 <= k < j ==> users[k].id != id,
        decreases upto - j,
    {
        if users[j].id == id {
            return true;
        }
        j += 1;
    }
    false
}

/// Checks that a list of records is a ledger: no member twice, no record
/// without a strike.
pub fn is_valid_ledger(users: &Vec<PunishedUser>) -> (ok: bool)
    ensures
        ok == valid_ledger(users@),
{
    let mut i: usize = 0;
    while i < users.len()
        invariant
            i <= users.len(),
            forall|a: int, b: int| 0 <= a < b < i ==> users[a].id != users[b].id,
            forall|a: int| 0 <= a < i ==> users[a].times_punished > 0,
        decreases users.len() - i,
    {
        if users[i].times_punished == 0 {
            return false;
        }
        if occurs_before(users, i, users[i].id) {
            let ghost j = choose|j: int| 0 <= j < i && users[j].id == users[i as int].id;
            assert(users@[j].id == users@[i as int].id);
            return false;
        }
        i += 1;
    }
    true
}

} // verus!
