//! Persistent state of the oracle and the records it is made of.
//!
//! [`State`] models the contract's ordered key-value store as one value that
//! the host passes through every entry point: a singleton config, the dense
//! request ledger (stage `s` lives at position `s - 1`, so stages are
//! strictly increasing from 1 with no gaps), the executor registry, and the
//! service-metadata records sorted by name bytes.

use vstd::prelude::*;
use crate::executors::Executor;
use crate::keys::{compare_keys, key_bytes, lex_lt, lemma_lex_transitive, lemma_lex_trichotomy,
    KeyOrder};

verus! {

/// Singleton configuration; mutated only by the current owner.
#[derive(Debug)]
pub struct Config {
    /// Identity of the owner, the only caller allowed to update the config
    /// or register Merkle roots.
    pub owner: String,
    /// Percentage cap used by the admission gate, logically in `0..=100`.
    pub max_req_threshold: u64,
}

/// One oracle request, stored under its stage number.
#[derive(Debug)]
pub struct Request {
    pub requester: String,
    /// Chain height at creation.
    pub request_height: u64,
    /// Chain height when the root was registered; 0 until then.
    pub submit_merkle_height: u64,
    /// Hex-encoded Merkle root; the empty string means "pending", and a
    /// non-empty value is immutable.
    pub merkle_root: String,
    /// Minimum executor participation the request demands.
    pub threshold: u64,
    /// Which data service the request targets.
    pub service: String,
    /// Optional opaque payload.
    pub input: Option<Vec<u8>>,
}

#[derive(Debug)]
pub struct DataSourceState {
    pub language: String,
    pub script_url: String,
    pub parameters: Vec<Vec<u8>>,
}

#[derive(Debug)]
pub struct TestCaseState {
    pub input: Vec<u8>,
    pub expected_output: Vec<u8>,
}

#[derive(Debug)]
pub struct Service {
    pub dsources: Vec<DataSourceState>,
    pub tcases: Vec<TestCaseState>,
    pub oscript_url: String,
}

/// A service-metadata record and the identity that owns it.
#[derive(Debug)]
pub struct ServiceInfo {
    pub owner: String,
    pub service: Service,
}

/// A service record as stored: keyed by its name.
#[derive(Debug)]
pub struct ServiceRecord {
    pub name: String,
    pub info: ServiceInfo,
}

/// The whole persistent state.
pub struct State {
    pub config: Config,
    /// The request ledger: stage `s` is `requests[s - 1]`.
    pub requests: Vec<Request>,
    /// Executor rows, sorted by identity bytes.
    pub executors: Vec<Executor>,
    /// The next insertion index an executor row will get; never reused.
    pub next_executor_index: u64,
    /// Service records, sorted by name bytes.
    pub services: Vec<ServiceRecord>,
}

/// Records are strictly sorted by name bytes; names are unique.
pub open spec fn services_sorted(s: Seq<ServiceRecord>) -> bool {
    forall|i: int, j: int|
        0 <= i < j < s.len() ==> lex_lt(
            key_bytes(#[trigger] s[i].name@),
            key_bytes(#[trigger] s[j].name@),
        )
}

/// Whether a record with this name is stored.
pub open spec fn has_service(s: Seq<ServiceRecord>, name: Seq<char>) -> bool {
    exists|i: int| 0 <= i < s.len() && (#[trigger] s[i]).name@ == name
}

/// The position of the record with this name.
pub open spec fn service_index(s: Seq<ServiceRecord>, name: Seq<char>) -> int {
    choose|i: int| 0 <= i < s.len() && (#[trigger] s[i]).name@ == name
}

/// The stored record with this name.
pub open spec fn service_info_of(s: Seq<ServiceRecord>, name: Seq<char>) -> ServiceInfo
    recommends
        has_service(s, name),
{
    s[service_index(s, name)].info
}

impl State {
    /// The number of the last stage handed out; stages `1..=latest_stage`
    /// exist, nothing else does.
    pub open spec fn latest_stage(self) -> int {
        self.requests@.len() as int
    }

    pub open spec fn has_stage(self, stage: int) -> bool {
        1 <= stage <= self.latest_stage()
    }

    pub open spec fn request_at(self, stage: int) -> Request
        recommends
            self.has_stage(stage),
    {
        self.requests@[stage - 1]
    }

    /// Well-formedness: both ordered collections are sorted with unique
    /// keys, and executor insertion indexes are fresh and unique.
    pub open spec fn wf(self) -> bool {
        &&& services_sorted(self.services@)
        &&& crate::executors::registry_wf(self.executors@, self.next_executor_index as int)
    }
}

/// In a sorted list the record of a name is unique, so any index that
/// carries the name is the one `service_index` picks.
pub proof fn lemma_service_index_is(s: Seq<ServiceRecord>, name: Seq<char>, i: int)
    requires
        services_sorted(s),
        0 <= i < s.len(),
        s[i].name@ == name,
    ensures
        has_service(s, name),
        service_index(s, name) == i,
{
    assert(has_service(s, name));
    let j = service_index(s, name);
    if i != j {
        lemma_lex_trichotomy(key_bytes(s[i].name@), key_bytes(s[j].name@));
    }
}

/// Stores the configuration record.
pub fn config_save(st: &mut State, config: Config)
    ensures
        final(st).config == config,
        final(st).requests == old(st).requests,
        final(st).executors == old(st).executors,
        final(st).next_executor_index == old(st).next_executor_index,
        final(st).services == old(st).services,
{
    st.config = config;
}

/// Reads the configuration record.
pub fn config_read(st: &State) -> (r: &Config)
    ensures
        *r == st.config,
{
    &st.config
}

/// Applies the optional owner and threshold changes to the configuration,
/// leaving whatever is not mentioned as it was.
pub fn config_update(st: &mut State, new_owner: Option<String>, new_max_req_threshold: Option<u64>)
    ensures
        final(st).config.owner@ == match new_owner {
            Some(o) => o@,
            None => old(st).config.owner@,
        },
        final(st).config.max_req_threshold == match new_max_req_threshold {
            Some(t) => t,
            None => old(st).config.max_req_threshold,
        },
        final(st).requests == old(st).requests,
        final(st).executors == old(st).executors,
        final(st).next_executor_index == old(st).next_executor_index,
        final(st).services == old(st).services,
{
    match new_owner {
        Some(owner) => {
            st.config.owner = owner;
        },
        None => {},
    }
    match new_max_req_threshold {
        Some(t) => {
            st.config.max_req_threshold = t;
        },
        None => {},
    }
}

/// Reads the stage counter: the stage most recently handed out, 0 when no
/// request was ever made.
pub fn latest_stage_read(st: &State) -> (r: u64)
    ensures
        r == st.latest_stage(),
{
    let n = st.requests.len();
    n as u64
}

/// Where `name` is or would be among the sorted records: the first position
/// whose name is not below it, and whether it is an exact hit.
pub(crate) fn locate_service(services: &Vec<ServiceRecord>, name: &str) -> (r: (usize, bool))
    requires
        services_sorted(services@),
    ensures
        r.0 <= services@.len(),
        r.1 ==> r.0 < services@.len() && services@[r.0 as int].name@ == name@,
        !r.1 ==> !has_service(services@, name@),
        forall|j: int|
            0 <= j < r.0 ==> lex_lt(key_bytes(#[trigger] services@[j].name@), key_bytes(name@)),
        !r.1 && r.0 < services@.len() ==> lex_lt(
            key_bytes(name@),
            key_bytes(services@[r.0 as int].name@),
        ),
{
    let n = services.len();
    let mut i: usize = 0;
    while i < n
        invariant
            0 <= i <= n,
            n == services@.len(),
            services_sorted(services@),
            forall|j: int|
                0 <= j < i ==> lex_lt(key_bytes(#[trigger] services@[j].name@), key_bytes(name@)),
        decreases n - i,
    {
        match compare_keys(services[i].name.as_str(), name) {
            KeyOrder::Less => {
                i = i + 1;
            },
            KeyOrder::Equal => {
                return (i, true);
            },
            KeyOrder::Greater => {
                proof {
                    assert forall|k: int|
                        0 <= k < services@.len() implies services@[k].name@ != name@ by {
                        if k < i {
                            lemma_lex_trichotomy(
                                key_bytes(services@[k].name@),
                                key_bytes(name@),
                            );
                        } else {
                            if k > i {
                                lemma_lex_transitive(
                                    key_bytes(name@),
                                    key_bytes(services@[i as int].name@),
                                    key_bytes(services@[k].name@),
                                );
                            }
                            lemma_lex_trichotomy(
                                key_bytes(name@),
                                key_bytes(services@[k].name@),
                            );
                        }
                    }
                }
                return (i, false);
            },
        }
    }
    proof {
        assert forall|k: int| 0 <= k < services@.len() implies services@[k].name@ != name@ by {
            lemma_lex_trichotomy(key_bytes(services@[k].name@), key_bytes(name@));
        }
    }
    (n, false)
}

/// Looks a service record up by name.
pub fn read_service_info<'a>(st: &'a State, name: &str) -> (r: Option<&'a ServiceInfo>)
    requires
        st.wf(),
    ensures
        r is Some <==> has_service(st.services@, name@),
        r is Some ==> *r->0 == service_info_of(st.services@, name@),
{
    let (pos, found) = locate_service(&st.services, name);
    if found {
        proof {
            lemma_service_index_is(st.services@, name@, pos as int);
        }
        Some(&st.services[pos].info)
    } else {
        None
    }
}

/// Stores a service record under its name, replacing any record already
/// there and leaving every other record as it was.
pub fn store_service_info(st: &mut State, name: &str, info: ServiceInfo)
    requires
        old(st).wf(),
    ensures
        final(st).wf(),
        has_service(final(st).services@, name@),
        service_info_of(final(st).services@, name@) == info,
        forall|k: Seq<char>|
            k != name@ ==> #[trigger] has_service(final(st).services@, k) == has_service(
                old(st).services@,
                k,
            ),
        forall|k: Seq<char>|
            k != name@ && has_service(old(st).services@, k)
                ==> #[trigger] service_info_of(final(st).services@, k) == service_info_of(
                old(st).services@,
                k,
            ),
        final(st).config == old(st).config,
        final(st).requests == old(st).requests,
        final(st).executors == old(st).executors,
        final(st).next_executor_index == old(st).next_executor_index,
{
    let ghost s0 = st.services@;
    let (pos, found) = locate_service(&st.services, name);
    let rec = ServiceRecord { name: name.to_owned(), info };
    if found {
        st.services.remove(pos);
        st.services.insert(pos, rec);
        proof {
            let s1 = st.services@;
            let p = pos as int;
            assert(s1 =~= s0.update(p, rec));
            lemma_store_update_ok(s0, s1, p, name@);
        }
    } else {
        st.services.insert(pos, rec);
        proof {
            let s1 = st.services@;
            let p = pos as int;
            assert(s1 == s0.insert(p, rec));
            lemma_store_insert_ok(s0, s1, p, name@);
        }
    }
}

/// Effects of replacing the record at `p` with one of the same name.
pub(crate) proof fn lemma_store_update_ok(s0: Seq<ServiceRecord>, s1: Seq<ServiceRecord>, p: int, name: Seq<
    char,
>)
    requires
        services_sorted(s0),
        0 <= p < s0.len(),
        s0[p].name@ == name,
        s1 == s0.update(p, s1[p]),
        s1.len() == s0.len(),
        s1[p].name@ == name,
    ensures
        services_sorted(s1),
        has_service(s1, name),
        service_info_of(s1, name) == s1[p].info,
        forall|k: Seq<char>|
            k != name ==> #[trigger] has_service(s1, k) == has_service(s0, k),
        forall|k: Seq<char>|
            k != name && has_service(s0, k) ==> #[trigger] service_info_of(s1, k)
                == service_info_of(s0, k),
{
    assert(services_sorted(s1)) by {
        assert(forall|i: int| 0 <= i < s1.len() ==> (#[trigger] s1[i]).name@ == s0[i].name@);
    }
    lemma_service_index_is(s1, name, p);
    assert forall|k: Seq<char>| k != name implies #[trigger] has_service(s1, k) == has_service(
        s0,
        k,
    ) by {
        if has_service(s1, k) {
            let i = choose|i: int| 0 <= i < s1.len() && (#[trigger] s1[i]).name@ == k;
            assert(s0[i].name@ == k);
        }
        if has_service(s0, k) {
            let i = choose|i: int| 0 <= i < s0.len() && (#[trigger] s0[i]).name@ == k;
            assert(s1[i].name@ == k);
        }
    }
    assert forall|k: Seq<char>| k != name && has_service(s0, k) implies #[trigger] service_info_of(
        s1,
        k,
    ) == service_info_of(s0, k) by {
        let i = choose|i: int| 0 <= i < s0.len() && (#[trigger] s0[i]).name@ == k;
        assert(s1[i].name@ == k);
        lemma_service_index_is(s0, k, i);
        lemma_service_index_is(s1, k, i);
    }
}

/// Effects of inserting a record with a fresh name at its sorted position.
proof fn lemma_store_insert_ok(s0: Seq<ServiceRecord>, s1: Seq<ServiceRecord>, p: int, name: Seq<
    char,
>)
    requires
        services_sorted(s0),
        0 <= p <= s0.len(),
        !has_service(s0, name),
        s1 == s0.insert(p, s1[p]),
        s1[p].name@ == name,
        forall|j: int| 0 <= j < p ==> lex_lt(key_bytes(#[trigger] s0[j].name@), key_bytes(name)),
        p < s0.len() ==> lex_lt(key_bytes(name), key_bytes(s0[p].name@)),
    ensures
        services_sorted(s1),
        has_service(s1, name),
        service_info_of(s1, name) == s1[p].info,
        forall|k: Seq<char>|
            k != name ==> #[trigger] has_service(s1, k) == has_service(s0, k),
        forall|k: Seq<char>|
            k != name && has_service(s0, k) ==> #[trigger] service_info_of(s1, k)
                == service_info_of(s0, k),
{
    assert(s1.len() == s0.len() + 1);
    assert(forall|j: int| 0 <= j < p ==> #[trigger] s1[j] == s0[j]);
    assert(forall|j: int| p < j < s1.len() ==> #[trigger] s1[j] == s0[j - 1]);
    assert(services_sorted(s1)) by {
        assert forall|i: int, j: int| 0 <= i < j < s1.len() implies lex_lt(
            key_bytes(#[trigger] s1[i].name@),
            key_bytes(#[trigger] s1[j].name@),
        ) by {
            if i == p {
                // name < s0[p] <= s0[j - 1]
                if j - 1 > p {
                    lemma_lex_transitive(
                        key_bytes(name),
                        key_bytes(s0[p].name@),
                        key_bytes(s0[j - 1].name@),
                    );
                }
            } else if j == p {
                // s0[i] < name
            } else if i < p && j > p {
                if j - 1 > p {
                    lemma_lex_transitive(
                        key_bytes(name),
                        key_bytes(s0[p].name@),
                        key_bytes(s0[j - 1].name@),
                    );
                }
                lemma_lex_transitive(
                    key_bytes(s0[i].name@),
                    key_bytes(name),
                    key_bytes(s0[j - 1].name@),
                );
            }
        }
    }
    lemma_service_index_is(s1, name, p);
    assert forall|k: Seq<char>| k != name implies #[trigger] has_service(s1, k) == has_service(
        s0,
        k,
    ) by {
        if has_service(s1, k) {
            let i = choose|i: int| 0 <= i < s1.len() && (#[trigger] s1[i]).name@ == k;
            if i < p {
                assert(s0[i].name@ == k);
            } else {
                assert(i != p);
                assert(s0[i - 1].name@ == k);
            }
        }
        if has_service(s0, k) {
            let i = choose|i: int| 0 <= i < s0.len() && (#[trigger] s0[i]).name@ == k;
            if i < p {
                assert(s1[i].name@ == k);
            } else {
                assert(s1[i + 1].name@ == k);
            }
        }
    }
    assert forall|k: Seq<char>| k != name && has_service(s0, k) implies #[trigger] service_info_of(
        s1,
        k,
    ) == service_info_of(s0, k) by {
        let i = choose|i: int| 0 <= i < s0.len() && (#[trigger] s0[i]).name@ == k;
        lemma_service_index_is(s0, k, i);
        if i < p {
            assert(s1[i].name@ == k);
            lemma_service_index_is(s1, k, i);
        } else {
            assert(s1[i + 1].name@ == k);
            lemma_service_index_is(s1, k, i + 1);
        }
    }
}

/// Removes the service record with this name; does nothing if there is none.
pub fn remove_service_info(st: &mut State, name: &str)
    requires
        old(st).wf(),
    ensures
        final(st).wf(),
        !has_service(final(st).services@, name@),
        forall|k: Seq<char>|
            k != name@ ==> #[trigger] has_service(final(st).services@, k) == has_service(
                old(st).services@,
                k,
            ),
        forall|k: Seq<char>|
            k != name@ && has_service(old(st).services@, k)
                ==> #[trigger] service_info_of(final(st).services@, k) == service_info_of(
                old(st).services@,
                k,
            ),
        final(st).config == old(st).config,
        final(st).requests == old(st).requests,
        final(st).executors == old(st).executors,
        final(st).next_executor_index == old(st).next_executor_index,
{
    let ghost s0 = st.services@;
    let (pos, found) = locate_service(&st.services, name);
    if found {
        st.services.remove(pos);
        proof {
            let s1 = st.services@;
            let p = pos as int;
            assert(s1 == s0.remove(p));
            assert(s1.len() == s0.len() - 1);
            assert(forall|j: int| 0 <= j < p ==> #[trigger] s1[j] == s0[j]);
            assert(forall|j: int| p <= j < s1.len() ==> #[trigger] s1[j] == s0[j + 1]);
            assert(services_sorted(s1));
            assert forall|k: Seq<char>| k != name@ implies #[trigger] has_service(s1, k)
                == has_service(s0, k) by {
                if has_service(s1, k) {
                    let i = choose|i: int| 0 <= i < s1.len() && (#[trigger] s1[i]).name@ == k;
                    if i < p {
                        assert(s0[i].name@ == k);
                    } else {
                        assert(s0[i + 1].name@ == k);
                    }
                }
                if has_service(s0, k) {
                    let i = choose|i: int| 0 <= i < s0.len() && (#[trigger] s0[i]).name@ == k;
                    assert(i != p);
                    if i < p {
                        assert(s1[i].name@ == k);
                    } else {
                        assert(s1[i - 1].name@ == k);
                    }
                }
            }
            assert(!has_service(s1, name@)) by {
                if has_service(s1, name@) {
                    let i = choose|i: int|
                        0 <= i < s1.len() && (#[trigger] s1[i]).name@ == name@;
                    if i < p {
                        lemma_service_index_is(s0, name@, i);
                        lemma_service_index_is(s0, name@, p);
                    } else {
                        lemma_service_index_is(s0, name@, i + 1);
                        lemma_service_index_is(s0, name@, p);
                    }
                }
            }
            assert forall|k: Seq<char>| k != name@ && has_service(s0, k)
                implies #[trigger] service_info_of(s1, k) == service_info_of(s0, k) by {
                let i = choose|i: int| 0 <= i < s0.len() && (#[trigger] s0[i]).name@ == k;
                lemma_service_index_is(s0, k, i);
                if i < p {
                    assert(s1[i].name@ == k);
                    lemma_service_index_is(s1, k, i);
                } else {
                    assert(i != p);
                    assert(s1[i - 1].name@ == k);
                    lemma_service_index_is(s1, k, i - 1);
                }
            }
        }
    }
}

} // verus!
