//! Executor registry: the rotating quorum membership.
//!
//! Rows are kept sorted by identity bytes and are never physically deleted:
//! deregistration soft-deletes a row (`is_active = false`, recording the
//! height it left at), so insertion indexes are never reused. Membership is
//! what the queries report: the lookup, the in-list check, the window
//! listing and the registry size see only active rows, so a deregistered
//! identity reads as absent; its row stays stored for audit and keeps its
//! insertion index for reactivation.

use vstd::prelude::*;
use crate::keys::{compare_keys, key_bytes, lex_le, lex_lt, lemma_lex_transitive,
    lemma_lex_trichotomy, KeyOrder};

verus! {

/// One registered executor. A row is created on first registration and then
/// only ever mutated: `insertion_index` is assigned once and never reused.
#[derive(Debug)]
pub struct Executor {
    /// Opaque identity, e.g. an encoded public key.
    pub identity: String,
    /// Whether the executor currently belongs to the quorum.
    pub is_active: bool,
    /// Stable, strictly increasing creation index.
    pub insertion_index: u64,
    /// Height at which the executor was last deregistered, if ever.
    pub left_block: Option<u64>,
}

/// Rows are strictly sorted by identity bytes; identities are unique.
pub open spec fn registry_sorted(s: Seq<Executor>) -> bool {
    forall|i: int, j: int|
        0 <= i < j < s.len() ==> lex_lt(
            key_bytes(#[trigger] s[i].identity@),
            key_bytes(#[trigger] s[j].identity@),
        )
}

/// Every insertion index was assigned below the counter, and none is reused.
pub open spec fn registry_indexes_wf(s: Seq<Executor>, next_index: int) -> bool {
    &&& forall|i: int| 0 <= i < s.len() ==> (#[trigger] s[i].insertion_index) < next_index
    &&& forall|i: int, j: int|
        0 <= i < j < s.len() ==> (#[trigger] s[i].insertion_index) != (
        #[trigger] s[j].insertion_index)
}

pub open spec fn registry_wf(s: Seq<Executor>, next_index: int) -> bool {
    registry_sorted(s) && registry_indexes_wf(s, next_index)
}

/// Whether some row carries this identity, active or not.
pub open spec fn has_executor(s: Seq<Executor>, id: Seq<char>) -> bool {
    exists|i: int| 0 <= i < s.len() && (#[trigger] s[i]).identity@ == id
}

/// The position of the row carrying this identity.
pub open spec fn executor_index(s: Seq<Executor>, id: Seq<char>) -> int {
    choose|i: int| 0 <= i < s.len() && (#[trigger] s[i]).identity@ == id
}

/// The row carrying this identity.
pub open spec fn executor_at(s: Seq<Executor>, id: Seq<char>) -> Executor
    recommends
        has_executor(s, id),
{
    s[executor_index(s, id)]
}

/// How many rows are currently active: the registry size that the admission
/// gate is measured against.
pub open spec fn active_count(s: Seq<Executor>) -> int
    decreases s.len(),
{
    if s.len() == 0 {
        0
    } else {
        active_count(s.drop_last()) + if s.last().is_active {
            1int
        } else {
            0int
        }
    }
}

/// In a sorted registry the row of an identity is unique, so any index that
/// carries the identity is the one `executor_index` picks.
pub proof fn lemma_executor_index_is(s: Seq<Executor>, id: Seq<char>, i: int)
    requires
        registry_sorted(s),
        0 <= i < s.len(),
        s[i].identity@ == id,
    ensures
        has_executor(s, id),
        executor_index(s, id) == i,
{
    assert(has_executor(s, id));
    let j = executor_index(s, id);
    if i != j {
        lemma_lex_trichotomy(key_bytes(s[i].identity@), key_bytes(s[j].identity@));
    }
}

/// The active count is between 0 and the number of rows.
pub proof fn lemma_active_count_bounds(s: Seq<Executor>)
    ensures
        0 <= active_count(s) <= s.len(),
    decreases s.len(),
{
    if s.len() > 0 {
        lemma_active_count_bounds(s.drop_last());
    }
}

/// Replacing one row changes the active count by the activity delta.
proof fn lemma_active_count_update(s: Seq<Executor>, i: int, e: Executor)
    requires
        0 <= i < s.len(),
    ensures
        active_count(s.update(i, e)) == active_count(s) - (if s[i].is_active {
            1int
        } else {
            0int
        }) + (if e.is_active {
            1int
        } else {
            0int
        }),
    decreases s.len(),
{
    let t = s.update(i, e);
    if i == s.len() - 1 {
        assert(t.drop_last() =~= s.drop_last());
        assert(t.last() == e);
    } else {
        assert(t.drop_last() =~= s.drop_last().update(i, e));
        assert(t.last() == s.last());
        lemma_active_count_update(s.drop_last(), i, e);
    }
}

/// Inserting a row adds its activity to the count.
proof fn lemma_active_count_insert(s: Seq<Executor>, p: int, e: Executor)
    requires
        0 <= p <= s.len(),
    ensures
        active_count(s.insert(p, e)) == active_count(s) + (if e.is_active {
            1int
        } else {
            0int
        }),
    decreases s.len(),
{
    let t = s.insert(p, e);
    if p == s.len() {
        assert(t.drop_last() =~= s);
        assert(t.last() == e);
    } else {
        assert(t.drop_last() =~= s.drop_last().insert(p, e));
        assert(t.last() == s.last());
        lemma_active_count_insert(s.drop_last(), p, e);
    }
}

/// Where `id` is or would be among the sorted rows: the first position whose
/// identity is not below it, and whether it is an exact hit.
fn locate_executor(rows: &Vec<Executor>, id: &str) -> (r: (usize, bool))
    requires
        registry_sorted(rows@),
    ensures
        r.0 <= rows@.len(),
        r.1 ==> r.0 < rows@.len() && rows@[r.0 as int].identity@ == id@,
        !r.1 ==> !has_executor(rows@, id@),
        forall|j: int|
            0 <= j < r.0 ==> lex_lt(key_bytes(#[trigger] rows@[j].identity@), key_bytes(id@)),
        !r.1 && r.0 < rows@.len() ==> lex_lt(
            key_bytes(id@),
            key_bytes(rows@[r.0 as int].identity@),
        ),
{
    let n = rows.len();
    let mut i: usize = 0;
    while i < n
        invariant
            0 <= i <= n,
            n == rows@.len(),
            registry_sorted(rows@),
            forall|j: int|
                0 <= j < i ==> lex_lt(key_bytes(#[trigger] rows@[j].identity@), key_bytes(id@)),
        decreases n - i,
    {
        match compare_keys(rows[i].identity.as_str(), id) {
            KeyOrder::Less => {
                i = i + 1;
            },
            KeyOrder::Equal => {
                return (i, true);
            },
            KeyOrder::Greater => {
                proof {
                    assert forall|k: int|
                        0 <= k < rows@.len() implies rows@[k].identity@ != id@ by {
                        if k < i {
                            lemma_lex_trichotomy(key_bytes(rows@[k].identity@), key_bytes(id@));
                        } else {
                            if k > i {
                                lemma_lex_transitive(
                                    key_bytes(id@),
                                    key_bytes(rows@[i as int].identity@),
                                    key_bytes(rows@[k].identity@),
                                );
                            }
                            lemma_lex_trichotomy(key_bytes(id@), key_bytes(rows@[k].identity@));
                        }
                    }
                }
                return (i, false);
            },
        }
    }
    proof {
        assert forall|k: int| 0 <= k < rows@.len() implies rows@[k].identity@ != id@ by {
            lemma_lex_trichotomy(key_bytes(rows@[k].identity@), key_bytes(id@));
        }
    }
    (n, false)
}

/// Looks an executor row up by identity, active or not.
/// Whether an identity is currently in the executor set: it has a row and
/// that row is active. A soft-deleted row stays stored for audit and to
/// keep its insertion index, but it is no longer a member.
pub open spec fn in_executor_list(s: Seq<Executor>, id: Seq<char>) -> bool {
    has_executor(s, id) && executor_at(s, id).is_active
}

/// Looks a current member up by identity; a deregistered identity reads as
/// absent, exactly as the membership query reports it.
pub fn read_executor<'a>(st: &'a crate::state::State, identity: &str) -> (r: Option<&'a Executor>)
    requires
        st.wf(),
    ensures
        r is Some <==> in_executor_list(st.executors@, identity@),
        r is Some ==> *r->0 == executor_at(st.executors@, identity@),
{
    let (pos, found) = locate_executor(&st.executors, identity);
    if found {
        proof {
            lemma_executor_index_is(st.executors@, identity@, pos as int);
        }
        if st.executors[pos].is_active {
            Some(&st.executors[pos])
        } else {
            None
        }
    } else {
        None
    }
}

/// Registers one identity: reactivates its row if it exists, keeping its
/// insertion index, otherwise creates a row with the next fresh index.
pub fn store_executor(st: &mut crate::state::State, identity: &str)
    requires
        old(st).wf(),
        old(st).next_executor_index < u64::MAX,
    ensures
        final(st).wf(),
        has_executor(final(st).executors@, identity@),
        ({
            let row = executor_at(final(st).executors@, identity@);
            row.identity@ == identity@ && row.is_active && row.left_block is None
        }),
        has_executor(old(st).executors@, identity@) ==> {
            &&& executor_at(final(st).executors@, identity@).insertion_index == executor_at(
                old(st).executors@,
                identity@,
            ).insertion_index
            &&& final(st).next_executor_index == old(st).next_executor_index
            &&& final(st).executors@.len() == old(st).executors@.len()
        },
        !has_executor(old(st).executors@, identity@) ==> {
            &&& executor_at(final(st).executors@, identity@).insertion_index == old(
                st,
            ).next_executor_index
            &&& final(st).next_executor_index == old(st).next_executor_index + 1
            &&& final(st).executors@.len() == old(st).executors@.len() + 1
        },
        forall|k: Seq<char>|
            k != identity@ ==> #[trigger] has_executor(final(st).executors@, k) == has_executor(
                old(st).executors@,
                k,
            ),
        forall|k: Seq<char>|
            k != identity@ && has_executor(old(st).executors@, k)
                ==> #[trigger] executor_at(final(st).executors@, k) == executor_at(
                old(st).executors@,
                k,
            ),
        active_count(final(st).executors@) == active_count(old(st).executors@) + (
        if has_executor(old(st).executors@, identity@) && executor_at(
            old(st).executors@,
            identity@,
        ).is_active {
            0int
        } else {
            1int
        }),
        final(st).config == old(st).config,
        final(st).requests == old(st).requests,
        final(st).services == old(st).services,
{
    let ghost s0 = st.executors@;
    let (pos, found) = locate_executor(&st.executors, identity);
    if found {
        let mut row = st.executors.remove(pos);
        row.is_active = true;
        row.left_block = None;
        st.executors.insert(pos, row);
        proof {
            let s1 = st.executors@;
            let p = pos as int;
            assert(s1 =~= s0.update(p, s1[p]));
            lemma_row_update_ok(s0, s1, p, identity@, st.next_executor_index as int);
            lemma_active_count_update(s0, p, s1[p]);
            lemma_executor_index_is(s0, identity@, p);
        }
    } else {
        let row = Executor {
            identity: identity.to_owned(),
            is_active: true,
            insertion_index: st.next_executor_index,
            left_block: None,
        };
        st.executors.insert(pos, row);
        st.next_executor_index = st.next_executor_index + 1;
        proof {
            let s1 = st.executors@;
            let p = pos as int;
            assert(s1 == s0.insert(p, s1[p]));
            lemma_row_insert_ok(
                s0,
                s1,
                p,
                identity@,
                old(st).next_executor_index as int,
            );
            lemma_active_count_insert(s0, p, s1[p]);
        }
    }
}

/// Deregisters one identity: soft-deletes its row, recording the height it
/// left at; unknown identities are silently skipped.
pub fn remove_executor(st: &mut crate::state::State, identity: &str, height: u64)
    requires
        old(st).wf(),
    ensures
        final(st).wf(),
        has_executor(final(st).executors@, identity@) == has_executor(
            old(st).executors@,
            identity@,
        ),
        has_executor(old(st).executors@, identity@) ==> {
            let row = executor_at(final(st).executors@, identity@);
            &&& row.identity@ == identity@
            &&& !row.is_active
            &&& row.left_block == Some(height)
            &&& row.insertion_index == executor_at(old(st).executors@, identity@).insertion_index
        },
        forall|k: Seq<char>|
            k != identity@ ==> #[trigger] has_executor(final(st).executors@, k) == has_executor(
                old(st).executors@,
                k,
            ),
        forall|k: Seq<char>|
            k != identity@ && has_executor(old(st).executors@, k)
                ==> #[trigger] executor_at(final(st).executors@, k) == executor_at(
                old(st).executors@,
                k,
            ),
        active_count(final(st).executors@) == active_count(old(st).executors@) - (
        if has_executor(old(st).executors@, identity@) && executor_at(
            old(st).executors@,
            identity@,
        ).is_active {
            1int
        } else {
            0int
        }),
        final(st).executors@.len() == old(st).executors@.len(),
        final(st).next_executor_index == old(st).next_executor_index,
        final(st).config == old(st).config,
        final(st).requests == old(st).requests,
        final(st).services == old(st).services,
{
    let ghost s0 = st.executors@;
    let (pos, found) = locate_executor(&st.executors, identity);
    if found {
        let mut row = st.executors.remove(pos);
        row.is_active = false;
        row.left_block = Some(height);
        st.executors.insert(pos, row);
        proof {
            let s1 = st.executors@;
            let p = pos as int;
            assert(s1 =~= s0.update(p, s1[p]));
            lemma_row_update_ok(s0, s1, p, identity@, st.next_executor_index as int);
            lemma_active_count_update(s0, p, s1[p]);
            lemma_executor_index_is(s0, identity@, p);
        }
    }
}

/// Effects of replacing the row at `p` with one of the same identity and
/// insertion index.
proof fn lemma_row_update_ok(s0: Seq<Executor>, s1: Seq<Executor>, p: int, id: Seq<char>, next: int)
    requires
        registry_wf(s0, next),
        0 <= p < s0.len(),
        s0[p].identity@ == id,
        s1 == s0.update(p, s1[p]),
        s1.len() == s0.len(),
        s1[p].identity@ == id,
        s1[p].insertion_index == s0[p].insertion_index,
    ensures
        registry_wf(s1, next),
        has_executor(s1, id),
        executor_at(s1, id) == s1[p],
        forall|k: Seq<char>|
            k != id ==> #[trigger] has_executor(s1, k) == has_executor(s0, k),
        forall|k: Seq<char>|
            k != id && has_executor(s0, k) ==> #[trigger] executor_at(s1, k) == executor_at(s0, k),
{
    assert(forall|i: int| 0 <= i < s1.len() ==> (#[trigger] s1[i]).identity@ == s0[i].identity@);
    assert(forall|i: int|
        0 <= i < s1.len() ==> (#[trigger] s1[i]).insertion_index == s0[i].insertion_index);
    lemma_executor_index_is(s1, id, p);
    assert forall|k: Seq<char>| k != id implies #[trigger] has_executor(s1, k) == has_executor(
        s0,
        k,
    ) by {
        if has_executor(s1, k) {
            let i = choose|i: int| 0 <= i < s1.len() && (#[trigger] s1[i]).identity@ == k;
            assert(s0[i].identity@ == k);
        }
        if has_executor(s0, k) {
            let i = choose|i: int| 0 <= i < s0.len() && (#[trigger] s0[i]).identity@ == k;
            assert(s1[i].identity@ == k);
        }
    }
    assert forall|k: Seq<char>| k != id && has_executor(s0, k) implies #[trigger] executor_at(
        s1,
        k,
    ) == executor_at(s0, k) by {
        let i = choose|i: int| 0 <= i < s0.len() && (#[trigger] s0[i]).identity@ == k;
        assert(s1[i].identity@ == k);
        lemma_executor_index_is(s0, k, i);
        lemma_executor_index_is(s1, k, i);
    }
}

/// Effects of inserting a fresh row at its sorted position with the next
/// insertion index.
proof fn lemma_row_insert_ok(s0: Seq<Executor>, s1: Seq<Executor>, p: int, id: Seq<char>, next: int)
    requires
        registry_wf(s0, next),
        0 <= p <= s0.len(),
        !has_executor(s0, id),
        s1 == s0.insert(p, s1[p]),
        s1[p].identity@ == id,
        s1[p].insertion_index == next,
        forall|j: int| 0 <= j < p ==> lex_lt(key_bytes(#[trigger] s0[j].identity@), key_bytes(id)),
        p < s0.len() ==> lex_lt(key_bytes(id), key_bytes(s0[p].identity@)),
    ensures
        registry_wf(s1, next + 1),
        has_executor(s1, id),
        executor_at(s1, id) == s1[p],
        forall|k: Seq<char>|
            k != id ==> #[trigger] has_executor(s1, k) == has_executor(s0, k),
        forall|k: Seq<char>|
            k != id && has_executor(s0, k) ==> #[trigger] executor_at(s1, k) == executor_at(s0, k),
{
    assert(s1.len() == s0.len() + 1);
    assert(forall|j: int| 0 <= j < p ==> #[trigger] s1[j] == s0[j]);
    assert(forall|j: int| p < j < s1.len() ==> #[trigger] s1[j] == s0[j - 1]);
    assert(registry_sorted(s1)) by {
        assert forall|i: int, j: int| 0 <= i < j < s1.len() implies lex_lt(
            key_bytes(#[trigger] s1[i].identity@),
            key_bytes(#[trigger] s1[j].identity@),
        ) by {
            if i == p {
                if j - 1 > p {
                    lemma_lex_transitive(
                        key_bytes(id),
                        key_bytes(s0[p].identity@),
                        key_bytes(s0[j - 1].identity@),
                    );
                }
            } else if j == p {
            } else if i < p && j > p {
                if j - 1 > p {
                    lemma_lex_transitive(
                        key_bytes(id),
                        key_bytes(s0[p].identity@),
                        key_bytes(s0[j - 1].identity@),
                    );
                }
                lemma_lex_transitive(
                    key_bytes(s0[i].identity@),
                    key_bytes(id),
                    key_bytes(s0[j - 1].identity@),
                );
            }
        }
    }
    assert(registry_indexes_wf(s1, next + 1));
    lemma_executor_index_is(s1, id, p);
    assert forall|k: Seq<char>| k != id implies #[trigger] has_executor(s1, k) == has_executor(
        s0,
        k,
    ) by {
        if has_executor(s1, k) {
            let i = choose|i: int| 0 <= i < s1.len() && (#[trigger] s1[i]).identity@ == k;
            if i < p {
                assert(s0[i].identity@ == k);
            } else {
                assert(i != p);
                assert(s0[i - 1].identity@ == k);
            }
        }
        if has_executor(s0, k) {
            let i = choose|i: int| 0 <= i < s0.len() && (#[trigger] s0[i]).identity@ == k;
            if i < p {
                assert(s1[i].identity@ == k);
            } else {
                assert(s1[i + 1].identity@ == k);
            }
        }
    }
    assert forall|k: Seq<char>| k != id && has_executor(s0, k) implies #[trigger] executor_at(
        s1,
        k,
    ) == executor_at(s0, k) by {
        let i = choose|i: int| 0 <= i < s0.len() && (#[trigger] s0[i]).identity@ == k;
        lemma_executor_index_is(s0, k, i);
        if i < p {
            assert(s1[i].identity@ == k);
            lemma_executor_index_is(s1, k, i);
        } else {
            assert(s1[i + 1].identity@ == k);
            lemma_executor_index_is(s1, k, i + 1);
        }
    }
}

/// Whether some identity in the batch views as `k`.
pub open spec fn contains_id(ids: Seq<String>, k: Seq<char>) -> bool {
    exists|i: int| 0 <= i < ids.len() && (#[trigger] ids[i])@ == k
}

/// Registers a batch of identities, inserting or reactivating each in turn.
pub fn store_executors(st: &mut crate::state::State, executors: &Vec<String>)
    requires
        old(st).wf(),
        old(st).next_executor_index + executors@.len() <= u64::MAX,
    ensures
        final(st).wf(),
        forall|k: Seq<char>|
            contains_id(executors@, k) ==> #[trigger] has_executor(final(st).executors@, k)
                && executor_at(final(st).executors@, k).is_active && executor_at(
                final(st).executors@,
                k,
            ).left_block is None && executor_at(final(st).executors@, k).identity@ == k,
        forall|k: Seq<char>|
            #[trigger] has_executor(old(st).executors@, k) ==> has_executor(
                final(st).executors@,
                k,
            ) && executor_at(final(st).executors@, k).insertion_index == executor_at(
                old(st).executors@,
                k,
            ).insertion_index,
        forall|k: Seq<char>|
            !contains_id(executors@, k) ==> #[trigger] has_executor(final(st).executors@, k)
                == has_executor(old(st).executors@, k),
        forall|k: Seq<char>|
            !contains_id(executors@, k) && has_executor(old(st).executors@, k)
                ==> #[trigger] executor_at(final(st).executors@, k) == executor_at(
                old(st).executors@,
                k,
            ),
        forall|k: Seq<char>|
            has_executor(old(st).executors@, k) && executor_at(old(st).executors@, k).is_active
                ==> #[trigger] executor_at(final(st).executors@, k).is_active,
        active_count(final(st).executors@) >= active_count(old(st).executors@),
        (forall|k: Seq<char>|
            contains_id(executors@, k) ==> #[trigger] has_executor(old(st).executors@, k)
                && executor_at(old(st).executors@, k).is_active) ==> active_count(
            final(st).executors@,
        ) == active_count(old(st).executors@),
        old(st).next_executor_index <= final(st).next_executor_index <= old(st).next_executor_index
            + executors@.len(),
        final(st).config == old(st).config,
        final(st).requests == old(st).requests,
        final(st).services == old(st).services,
{
    let ghost pre = *old(st);
    let n = executors.len();
    let mut i: usize = 0;
    while i < n
        invariant
            0 <= i <= n,
            n == executors@.len(),
            st.wf(),
            pre.wf(),
            pre.next_executor_index + executors@.len() <= u64::MAX,
            forall|k: Seq<char>|
                contains_id(executors@.take(i as int), k) ==> #[trigger] has_executor(
                    st.executors@,
                    k,
                ) && executor_at(st.executors@, k).is_active && executor_at(
                    st.executors@,
                    k,
                ).left_block is None && executor_at(st.executors@, k).identity@ == k,
            forall|k: Seq<char>|
                #[trigger] has_executor(pre.executors@, k) ==> has_executor(st.executors@, k)
                    && executor_at(st.executors@, k).insertion_index == executor_at(
                    pre.executors@,
                    k,
                ).insertion_index,
            forall|k: Seq<char>|
                !contains_id(executors@.take(i as int), k) ==> #[trigger] has_executor(
                    st.executors@,
                    k,
                ) == has_executor(pre.executors@, k),
            forall|k: Seq<char>|
                !contains_id(executors@.take(i as int), k) && has_executor(pre.executors@, k)
                    ==> #[trigger] executor_at(st.executors@, k) == executor_at(pre.executors@, k),
            forall|k: Seq<char>|
                has_executor(pre.executors@, k) && executor_at(pre.executors@, k).is_active
                    ==> #[trigger] executor_at(st.executors@, k).is_active,
            active_count(st.executors@) >= active_count(pre.executors@),
            (forall|k: Seq<char>|
                contains_id(executors@.take(i as int), k) ==> #[trigger] has_executor(
                    pre.executors@,
                    k,
                ) && executor_at(pre.executors@, k).is_active) ==> active_count(st.executors@)
                == active_count(pre.executors@),
            pre.next_executor_index <= st.next_executor_index <= pre.next_executor_index + i,
            st.config == pre.config,
            st.requests == pre.requests,
            st.services == pre.services,
        decreases n - i,
    {
        let ghost cur = *st;
        store_executor(st, executors[i].as_str());
        proof {
            assert forall|k: Seq<char>|
                contains_id(executors@.take(i + 1), k) implies contains_id(
                executors@.take(i as int),
                k,
            ) || executors@[i as int]@ == k by {
                let j = choose|j: int|
                    0 <= j < executors@.take(i + 1).len() && (#[trigger] executors@.take(
                        i + 1,
                    )[j])@ == k;
                if j < i {
                    assert(executors@.take(i as int)[j]@ == k);
                }
            }
            assert forall|k: Seq<char>|
                contains_id(executors@.take(i as int), k) implies contains_id(
                executors@.take(i + 1),
                k,
            ) by {
                let j = choose|j: int|
                    0 <= j < executors@.take(i as int).len() && (#[trigger] executors@.take(
                        i as int,
                    )[j])@ == k;
                assert(executors@.take(i + 1)[j]@ == k);
            }
            assert(executors@.take(i + 1)[i as int]@ == executors@[i as int]@);
            let id = executors@[i as int]@;
            assert forall|k: Seq<char>| contains_id(executors@.take(i + 1), k) implies has_executor(
                st.executors@,
                k,
            ) && executor_at(st.executors@, k).is_active && executor_at(
                st.executors@,
                k,
            ).left_block is None && executor_at(st.executors@, k).identity@ == k by {
                if k != id {
                    assert(contains_id(executors@.take(i as int), k));
                    assert(has_executor(cur.executors@, k));
                    assert(has_executor(st.executors@, k));
                    assert(executor_at(st.executors@, k) == executor_at(cur.executors@, k));
                }
            }
        }
        i = i + 1;
    }
    proof {
        assert(executors@.take(n as int) =~= executors@);
        if forall|k: Seq<char>|
            contains_id(executors@, k) ==> #[trigger] has_executor(pre.executors@, k)
                && executor_at(pre.executors@, k).is_active {
            assert forall|k: Seq<char>|
                contains_id(executors@.take(n as int), k) implies #[trigger] has_executor(
                pre.executors@,
                k,
            ) && executor_at(pre.executors@, k).is_active by {
                assert(contains_id(executors@, k));
            }
        }
    }
}

/// How many rows are active and named in the batch: exactly the members a
/// batch deregistration removes. Rows are unique per identity, so each
/// distinct listed identity counts once, however often the batch repeats it.
pub open spec fn deactivated_count(rows: Seq<Executor>, ids: Seq<String>) -> int
    decreases rows.len(),
{
    if rows.len() == 0 {
        0
    } else {
        deactivated_count(rows.drop_last(), ids) + (if rows.last().is_active && contains_id(
            ids,
            rows.last().identity@,
        ) {
            1int
        } else {
            0int
        })
    }
}

/// An empty batch removes nobody.
proof fn lemma_deactivated_none(rows: Seq<Executor>, ids: Seq<String>)
    requires
        ids.len() == 0,
    ensures
        deactivated_count(rows, ids) == 0,
    decreases rows.len(),
{
    if rows.len() > 0 {
        lemma_deactivated_none(rows.drop_last(), ids);
    }
}

/// Extending the batch by one identity raises the removed-member count by
/// one exactly when that identity is an active row not already listed.
proof fn lemma_deactivated_extend(
    rows: Seq<Executor>,
    ids1: Seq<String>,
    ids2: Seq<String>,
    x: Seq<char>,
)
    requires
        registry_sorted(rows),
        forall|k: Seq<char>| #[trigger] contains_id(ids2, k) == (contains_id(ids1, k) || k == x),
    ensures
        deactivated_count(rows, ids2) == deactivated_count(rows, ids1) + (if has_executor(rows, x)
            && executor_at(rows, x).is_active && !contains_id(ids1, x) {
            1int
        } else {
            0int
        }),
    decreases rows.len(),
{
    if rows.len() > 0 {
        let s = rows.drop_last();
        let last = rows.last();
        assert(registry_sorted(s)) by {
            assert forall|i: int, j: int| 0 <= i < j < s.len() implies lex_lt(
                key_bytes(#[trigger] s[i].identity@),
                key_bytes(#[trigger] s[j].identity@),
            ) by {
                assert(s[i] == rows[i]);
                assert(s[j] == rows[j]);
            }
        }
        lemma_deactivated_extend(s, ids1, ids2, x);
        assert(contains_id(ids2, last.identity@) == (contains_id(ids1, last.identity@)
            || last.identity@ == x));
        if last.identity@ == x {
            lemma_executor_index_is(rows, x, rows.len() - 1);
            assert(!has_executor(s, x)) by {
                if has_executor(s, x) {
                    let i = choose|i: int| 0 <= i < s.len() && (#[trigger] s[i]).identity@ == x;
                    assert(s[i] == rows[i]);
                    lemma_lex_trichotomy(
                        key_bytes(rows[i].identity@),
                        key_bytes(last.identity@),
                    );
                }
            }
        } else {
            assert(has_executor(rows, x) == has_executor(s, x)) by {
                if has_executor(s, x) {
                    let i = choose|i: int| 0 <= i < s.len() && (#[trigger] s[i]).identity@ == x;
                    assert(rows[i] == s[i]);
                }
                if has_executor(rows, x) {
                    let i = choose|i: int|
                        0 <= i < rows.len() && (#[trigger] rows[i]).identity@ == x;
                    assert(i != rows.len() - 1);
                    assert(s[i] == rows[i]);
                }
            }
            if has_executor(s, x) {
                let i = choose|i: int| 0 <= i < s.len() && (#[trigger] s[i]).identity@ == x;
                assert(rows[i] == s[i]);
                lemma_executor_index_is(rows, x, i);
                lemma_executor_index_is(s, x, i);
                assert(executor_at(rows, x) == executor_at(s, x));
            }
        }
    }
}

/// Deregisters a batch of identities, soft-deleting each present row and
/// silently skipping unknown identities. The active count drops by exactly
/// the number of distinct listed identities that were active rows.
pub fn remove_executors(st: &mut crate::state::State, executors: &Vec<String>, height: u64)
    requires
        old(st).wf(),
    ensures
        final(st).wf(),
        forall|k: Seq<char>|
            #[trigger] has_executor(final(st).executors@, k) == has_executor(
                old(st).executors@,
                k,
            ),
        forall|k: Seq<char>|
            contains_id(executors@, k) && has_executor(old(st).executors@, k) ==> {
                let row = #[trigger] executor_at(final(st).executors@, k);
                &&& row.identity@ == k
                &&& !row.is_active
                &&& row.left_block == Some(height)
                &&& row.insertion_index == executor_at(old(st).executors@, k).insertion_index
            },
        forall|k: Seq<char>|
            !contains_id(executors@, k) && has_executor(old(st).executors@, k)
                ==> #[trigger] executor_at(final(st).executors@, k) == executor_at(
                old(st).executors@,
                k,
            ),
        active_count(final(st).executors@) == active_count(old(st).executors@)
            - deactivated_count(old(st).executors@, executors@),
        final(st).next_executor_index == old(st).next_executor_index,
        final(st).config == old(st).config,
        final(st).requests == old(st).requests,
        final(st).services == old(st).services,
{
    let ghost pre = *old(st);
    let n = executors.len();
    let mut i: usize = 0;
    proof {
        assert(executors@.take(0).len() == 0);
        lemma_deactivated_none(pre.executors@, executors@.take(0));
    }
    while i < n
        invariant
            0 <= i <= n,
            n == executors@.len(),
            st.wf(),
            pre.wf(),
            forall|k: Seq<char>|
                #[trigger] has_executor(st.executors@, k) == has_executor(pre.executors@, k),
            forall|k: Seq<char>|
                contains_id(executors@.take(i as int), k) && has_executor(pre.executors@, k) ==> {
                    let row = #[trigger] executor_at(st.executors@, k);
                    &&& row.identity@ == k
                    &&& !row.is_active
                    &&& row.left_block == Some(height)
                    &&& row.insertion_index == executor_at(pre.executors@, k).insertion_index
                },
            forall|k: Seq<char>|
                !contains_id(executors@.take(i as int), k) && has_executor(pre.executors@, k)
                    ==> #[trigger] executor_at(st.executors@, k) == executor_at(pre.executors@, k),
            active_count(st.executors@) == active_count(pre.executors@) - deactivated_count(
                pre.executors@,
                executors@.take(i as int),
            ),
            st.next_executor_index == pre.next_executor_index,
            st.config == pre.config,
            st.requests == pre.requests,
            st.services == pre.services,
        decreases n - i,
    {
        let ghost cur = *st;
        remove_executor(st, executors[i].as_str(), height);
        proof {
            let x = executors@[i as int]@;
            assert(executors@.take(i + 1)[i as int]@ == x);
            assert forall|k: Seq<char>|
                #[trigger] contains_id(executors@.take(i + 1), k) == (contains_id(
                executors@.take(i as int),
                k,
            ) || k == x) by {
                if contains_id(executors@.take(i + 1), k) {
                    let j = choose|j: int|
                        0 <= j < executors@.take(i + 1).len() && (#[trigger] executors@.take(
                            i + 1,
                        )[j])@ == k;
                    if j < i {
                        assert(executors@.take(i as int)[j]@ == k);
                    }
                }
                if contains_id(executors@.take(i as int), k) {
                    let j = choose|j: int|
                        0 <= j < executors@.take(i as int).len() && (#[trigger] executors@.take(
                            i as int,
                        )[j])@ == k;
                    assert(executors@.take(i + 1)[j]@ == k);
                }
                if k == x {
                    assert(contains_id(executors@.take(i + 1), k));
                }
            }
            lemma_deactivated_extend(
                pre.executors@,
                executors@.take(i as int),
                executors@.take(i + 1),
                x,
            );
            if has_executor(pre.executors@, x) {
                if contains_id(executors@.take(i as int), x) {
                    assert(!executor_at(cur.executors@, x).is_active);
                } else {
                    assert(executor_at(cur.executors@, x) == executor_at(pre.executors@, x));
                }
            }
        }
        i = i + 1;
    }
    proof {
        assert(executors@.take(n as int) =~= executors@);
    }
}

/// Whether an identity falls in the queried window. Ascending scans cover
/// `[start, end)`; descending scans cover `(end, start]` walked downwards:
/// iteration always begins at `start` inclusively and stops before `end`.
pub open spec fn in_window(
    id: Seq<char>,
    start: Option<Seq<char>>,
    end: Option<Seq<char>>,
    descending: bool,
) -> bool {
    if descending {
        &&& match end {
            Some(e) => lex_lt(key_bytes(e), key_bytes(id)),
            None => true,
        }
        &&& match start {
            Some(s) => lex_le(key_bytes(id), key_bytes(s)),
            None => true,
        }
    } else {
        &&& match start {
            Some(s) => lex_le(key_bytes(s), key_bytes(id)),
            None => true,
        }
        &&& match end {
            Some(e) => lex_lt(key_bytes(id), key_bytes(e)),
            None => true,
        }
    }
}

/// The identities of the active rows inside the window, in stored
/// (ascending key) order; soft-deleted rows are not listed.
pub open spec fn window_ids(
    rows: Seq<Executor>,
    start: Option<Seq<char>>,
    end: Option<Seq<char>>,
    descending: bool,
) -> Seq<Seq<char>>
    decreases rows.len(),
{
    if rows.len() == 0 {
        Seq::empty()
    } else {
        window_ids(rows.drop_last(), start, end, descending) + (if rows.last().is_active
            && in_window(rows.last().identity@, start, end, descending) {
            seq![rows.last().identity@]
        } else {
            Seq::empty()
        })
    }
}

/// Whether this identity lies in the queried window.
fn check_window(id: &str, start: &Option<String>, end: &Option<String>, descending: bool) -> (r:
    bool)
    ensures
        r == in_window(id@, start.deep_view(), end.deep_view(), descending),
{
    let lower_ok: bool = if descending {
        match end {
            Some(e) => match compare_keys(e.as_str(), id) {
                KeyOrder::Less => true,
                _ => false,
            },
            None => true,
        }
    } else {
        match start {
            Some(s) => match compare_keys(s.as_str(), id) {
                KeyOrder::Greater => false,
                _ => true,
            },
            None => true,
        }
    };
    let upper_ok: bool = if descending {
        match start {
            Some(s) => match compare_keys(id, s.as_str()) {
                KeyOrder::Greater => false,
                _ => true,
            },
            None => true,
        }
    } else {
        match end {
            Some(e) => match compare_keys(id, e.as_str()) {
                KeyOrder::Less => true,
                _ => false,
            },
            None => true,
        }
    };
    lower_ok && upper_ok
}

/// Lists the identities of the current members whose identity falls within
/// the window, walking the chosen direction, capped at the clamped limit.
pub fn query_executors(
    st: &crate::state::State,
    start: Option<String>,
    end: Option<String>,
    order: Option<u8>,
    limit: Option<u8>,
) -> (r: Vec<String>)
    ensures
        r.deep_view() == crate::pagination::page(
            window_ids(st.executors@, start.deep_view(), end.deep_view(), crate::pagination::chosen_order(order) == crate::pagination::Order::Descending),
            crate::pagination::chosen_order(order),
            crate::pagination::clamped_limit(limit),
        ),
{
    let lim = crate::pagination::clamp_limit(limit);
    let ord = crate::pagination::order_of(order);
    let descending = match ord {
        crate::pagination::Order::Descending => true,
        crate::pagination::Order::Ascending => false,
    };
    let ghost lo = start.deep_view();
    let ghost hi = end.deep_view();
    let rows = &st.executors;
    let n = rows.len();
    let mut out: Vec<String> = Vec::new();
    if !descending {
        let mut i: usize = 0;
        while i < n
            invariant
                0 <= i <= n,
                n == rows@.len(),
                lo == start.deep_view(),
                hi == end.deep_view(),
                out.deep_view() == crate::pagination::truncated(
                    window_ids(rows@.take(i as int), lo, hi, false),
                    lim as int,
                ),
                out@.len() <= lim,
            decreases n - i,
        {
            let ghost w0 = window_ids(rows@.take(i as int), lo, hi, false);
            proof {
                assert(rows@.take(i + 1).drop_last() =~= rows@.take(i as int));
                assert(rows@.take(i + 1).last() == rows@[i as int]);
            }
            if rows[i].is_active && check_window(rows[i].identity.as_str(), &start, &end, false) {
                if out.len() < lim {
                    let ghost dv0 = out.deep_view();
                    out.push(rows[i].identity.clone());
                    proof {
                        assert(out.deep_view() =~= dv0.push(rows@[i as int].identity@));
                        assert(window_ids(rows@.take(i + 1), lo, hi, false) =~= w0.push(
                            rows@[i as int].identity@,
                        ));
                    }
                } else {
                    proof {
                        assert(window_ids(rows@.take(i + 1), lo, hi, false) =~= w0.push(
                            rows@[i as int].identity@,
                        ));
                        assert(crate::pagination::truncated(
                            w0.push(rows@[i as int].identity@),
                            lim as int,
                        ) =~= crate::pagination::truncated(w0, lim as int));
                    }
                }
            } else {
                proof {
                    assert(window_ids(rows@.take(i + 1), lo, hi, false) =~= w0);
                }
            }
            i = i + 1;
        }
        proof {
            assert(rows@.take(n as int) =~= rows@);
        }
    } else {
        let ghost mut tail: Seq<Seq<char>> = Seq::empty();
        let mut i: usize = n;
        proof {
            assert(rows@.take(n as int) =~= rows@);
            assert(window_ids(rows@.take(n as int), lo, hi, true) + tail =~= window_ids(
                rows@,
                lo,
                hi,
                true,
            ));
            assert(tail.reverse() =~= Seq::<Seq<char>>::empty());
            assert(out.deep_view() =~= Seq::<Seq<char>>::empty());
        }
        while i > 0
            invariant
                0 <= i <= n,
                n == rows@.len(),
                lo == start.deep_view(),
                hi == end.deep_view(),
                window_ids(rows@, lo, hi, true) == window_ids(rows@.take(i as int), lo, hi, true)
                    + tail,
                out.deep_view() == crate::pagination::truncated(tail.reverse(), lim as int),
                out@.len() <= lim,
            decreases i,
        {
            let ghost w1 = window_ids(rows@.take(i as int), lo, hi, true);
            proof {
                assert(rows@.take(i as int).drop_last() =~= rows@.take(i - 1));
                assert(rows@.take(i as int).last() == rows@[i - 1]);
            }
            let ghost w0 = window_ids(rows@.take(i - 1), lo, hi, true);
            i = i - 1;
            if rows[i].is_active && check_window(rows[i].identity.as_str(), &start, &end, true) {
                let ghost id = rows@[i as int].identity@;
                let ghost t0 = tail;
                proof {
                    assert(w1 =~= w0.push(id));
                    tail = seq![id] + t0;
                    assert(w0 + tail =~= w1 + t0);
                    assert(tail.reverse() =~= t0.reverse().push(id));
                }
                if out.len() < lim {
                    let ghost dv0 = out.deep_view();
                    out.push(rows[i].identity.clone());
                    proof {
                        assert(out.deep_view() =~= dv0.push(id));
                        assert(t0.reverse().len() == dv0.len());
                        assert(crate::pagination::truncated(tail.reverse(), lim as int)
                            =~= t0.reverse().push(id));
                    }
                } else {
                    proof {
                        assert(t0.reverse().len() >= lim);
                        assert(crate::pagination::truncated(tail.reverse(), lim as int)
                            =~= crate::pagination::truncated(t0.reverse(), lim as int));
                    }
                }
            } else {
                proof {
                    assert(w1 =~= w0);
                }
            }
        }
        proof {
            assert(rows@.take(0) =~= Seq::<Executor>::empty());
            assert(window_ids(rows@.take(0), lo, hi, true) + tail =~= tail);
            assert(window_ids(rows@, lo, hi, true).reverse() =~= tail.reverse());
        }
    }
    out
}

/// The registry size the admission gate measures against: the number of
/// active rows. Registering an already-active identity does not change it.
pub fn query_executor_size(st: &crate::state::State) -> (r: u64)
    ensures
        r == active_count(st.executors@),
{
    proof {
        lemma_active_count_bounds(st.executors@);
    }
    let n = st.executors.len();
    let mut count: u64 = 0;
    let mut i: usize = 0;
    while i < n
        invariant
            0 <= i <= n,
            n == st.executors@.len(),
            count == active_count(st.executors@.take(i as int)),
            count <= i,
        decreases n - i,
    {
        proof {
            assert(st.executors@.take(i + 1).drop_last() =~= st.executors@.take(i as int));
            assert(st.executors@.take(i + 1).last() == st.executors@[i as int]);
        }
        if st.executors[i].is_active {
            count = count + 1;
        }
        i = i + 1;
    }
    proof {
        assert(st.executors@.take(n as int) =~= st.executors@);
    }
    count
}

} // verus!
