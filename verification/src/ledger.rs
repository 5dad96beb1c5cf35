//! Read side of the request ledger.
//!
//! The ledger is dense — stage `s` is stored at position `s - 1` — so the
//! two secondary orderings (by service, by Merkle root) are derived by
//! filtering the primary records; every record reaches exactly one slot of
//! each ordering, keyed by its current field values, and resolves back to
//! its stage. All range queries share the pagination engine's exclusive
//! offset, clamped limit and direction.

use vstd::prelude::*;
use crate::error::ContractError;
use crate::msg::{LatestStageResponse, RequestResponse, RequestResponseView};
use crate::pagination::{chosen_order, clamp_limit, clamped_limit, order_of, page, truncated, Order};
use crate::state::{Request, State};

verus! {

/// The response record for the request stored at `stage`.
pub open spec fn resp_of(req: Request, stage: int) -> RequestResponseView {
    RequestResponseView {
        stage: stage as u64,
        requester: req.requester@,
        request_height: req.request_height,
        submit_merkle_height: req.submit_merkle_height,
        merkle_root: req.merkle_root@,
        threshold: req.threshold,
        service: req.service@,
    }
}

/// Which records a ledger query selects before paging.
pub enum RequestSelector {
    All,
    ByService(Seq<char>),
    ByMerkleRoot(Seq<char>),
}

pub open spec fn selected(req: Request, sel: RequestSelector) -> bool {
    match sel {
        RequestSelector::All => true,
        RequestSelector::ByService(s) => req.service@ == s,
        RequestSelector::ByMerkleRoot(s) => req.merkle_root@ == s,
    }
}

/// Whether a stage passes the exclusive offset in the chosen direction.
pub open spec fn stage_in_range(stage: int, offset: Option<u64>, descending: bool) -> bool {
    match offset {
        None => true,
        Some(o) => if descending {
            stage < o
        } else {
            stage > o
        },
    }
}

/// The selected response records in ascending stage order, offset applied.
pub open spec fn matching_resps(
    l: Seq<Request>,
    sel: RequestSelector,
    offset: Option<u64>,
    descending: bool,
) -> Seq<RequestResponseView>
    decreases l.len(),
{
    if l.len() == 0 {
        Seq::empty()
    } else {
        matching_resps(l.drop_last(), sel, offset, descending) + (if selected(l.last(), sel)
            && stage_in_range(l.len() as int, offset, descending) {
            seq![resp_of(l.last(), l.len() as int)]
        } else {
            Seq::empty()
        })
    }
}

/// An executable request filter, paired with the selector it decides.
enum ReqFilter<'a> {
    All,
    ByService(&'a String),
    ByMerkleRoot(&'a String),
}

spec fn selector_of(f: ReqFilter) -> RequestSelector {
    match f {
        ReqFilter::All => RequestSelector::All,
        ReqFilter::ByService(s) => RequestSelector::ByService(s@),
        ReqFilter::ByMerkleRoot(s) => RequestSelector::ByMerkleRoot(s@),
    }
}

fn matches_filter(req: &Request, f: &ReqFilter) -> (b: bool)
    ensures
        b == selected(*req, selector_of(*f)),
{
    match f {
        ReqFilter::All => true,
        ReqFilter::ByService(s) => req.service.eq(*s),
        ReqFilter::ByMerkleRoot(s) => req.merkle_root.eq(*s),
    }
}

/// Builds the response record for the request stored at `stage`.
fn parse_request(req: &Request, stage: u64) -> (r: RequestResponse)
    ensures
        r@ == resp_of(*req, stage as int),
{
    RequestResponse {
        stage,
        requester: req.requester.clone(),
        request_height: req.request_height,
        submit_merkle_height: req.submit_merkle_height,
        merkle_root: req.merkle_root.clone(),
        threshold: req.threshold,
        service: req.service.clone(),
    }
}

/// Whether this stage passes the exclusive offset in the given direction.
fn check_stage(stage: u64, offset: &Option<u64>, descending: bool) -> (r: bool)
    ensures
        r == stage_in_range(stage as int, *offset, descending),
{
    match offset {
        None => true,
        Some(o) => if descending {
            stage < *o
        } else {
            stage > *o
        },
    }
}

/// One shared scan behind every paginated ledger query.
fn scan_requests(
    st: &State,
    filter: ReqFilter,
    offset: Option<u64>,
    limit: Option<u8>,
    order: Option<u8>,
) -> (r: Vec<RequestResponse>)
    ensures
        r.deep_view() == page(
            matching_resps(
                st.requests@,
                selector_of(filter),
                offset,
                chosen_order(order) == Order::Descending,
            ),
            chosen_order(order),
            clamped_limit(limit),
        ),
{
    let lim = clamp_limit(limit);
    let ord = order_of(order);
    let descending = match ord {
        Order::Descending => true,
        Order::Ascending => false,
    };
    let ghost sel = selector_of(filter);
    let l = &st.requests;
    let n = l.len();
    let mut out: Vec<RequestResponse> = Vec::new();
    if !descending {
        let mut i: usize = 0;
        while i < n
            invariant
                0 <= i <= n,
                n == l@.len(),
                sel == selector_of(filter),
                out.deep_view() == truncated(
                    matching_resps(l@.take(i as int), sel, offset, false),
                    lim as int,
                ),
                out@.len() <= lim,
            decreases n - i,
        {
            let ghost w0 = matching_resps(l@.take(i as int), sel, offset, false);
            proof {
                assert(l@.take(i + 1).drop_last() =~= l@.take(i as int));
                assert(l@.take(i + 1).last() == l@[i as int]);
                assert(l@.take(i + 1).len() == i + 1);
            }
            let stage: u64 = (i as u64) + 1;
            if matches_filter(&l[i], &filter) && check_stage(stage, &offset, false) {
                if out.len() < lim {
                    let ghost dv0 = out.deep_view();
                    let item = parse_request(&l[i], stage);
                    out.push(item);
                    proof {
                        assert(out.deep_view() =~= dv0.push(resp_of(l@[i as int], i + 1)));
                        assert(matching_resps(l@.take(i + 1), sel, offset, false) =~= w0.push(
                            resp_of(l@[i as int], i + 1),
                        ));
                    }
                } else {
                    proof {
                        assert(matching_resps(l@.take(i + 1), sel, offset, false) =~= w0.push(
                            resp_of(l@[i as int], i + 1),
                        ));
                        assert(truncated(w0.push(resp_of(l@[i as int], i + 1)), lim as int)
                            =~= truncated(w0, lim as int));
                    }
                }
            } else {
                proof {
                    assert(matching_resps(l@.take(i + 1), sel, offset, false) =~= w0);
                }
            }
            i = i + 1;
        }
        proof {
            assert(l@.take(n as int) =~= l@);
        }
    } else {
        let ghost mut tail: Seq<RequestResponseView> = Seq::empty();
        let mut i: usize = n;
        proof {
            assert(l@.take(n as int) =~= l@);
            assert(matching_resps(l@.take(n as int), sel, offset, true) + tail =~= matching_resps(
                l@,
                sel,
                offset,
                true,
            ));
            assert(tail.reverse() =~= Seq::<RequestResponseView>::empty());
            assert(out.deep_view() =~= Seq::<RequestResponseView>::empty());
        }
        while i > 0
            invariant
                0 <= i <= n,
                n == l@.len(),
                sel == selector_of(filter),
                matching_resps(l@, sel, offset, true) == matching_resps(
                    l@.take(i as int),
                    sel,
                    offset,
                    true,
                ) + tail,
                out.deep_view() == truncated(tail.reverse(), lim as int),
                out@.len() <= lim,
            decreases i,
        {
            let ghost w1 = matching_resps(l@.take(i as int), sel, offset, true);
            proof {
                assert(l@.take(i as int).drop_last() =~= l@.take(i - 1));
                assert(l@.take(i as int).last() == l@[i - 1]);
                assert(l@.take(i as int).len() == i as int);
            }
            let ghost w0 = matching_resps(l@.take(i - 1), sel, offset, true);
            i = i - 1;
            let stage: u64 = (i as u64) + 1;
            if matches_filter(&l[i], &filter) && check_stage(stage, &offset, true) {
                let ghost rv = resp_of(l@[i as int], i + 1);
                let ghost t0 = tail;
                proof {
                    assert(w1 =~= w0.push(rv));
                    tail = seq![rv] + t0;
                    assert(w0 + tail =~= w1 + t0);
                    assert(tail.reverse() =~= t0.reverse().push(rv));
                }
                if out.len() < lim {
                    let ghost dv0 = out.deep_view();
                    let item = parse_request(&l[i], stage);
                    out.push(item);
                    proof {
                        assert(out.deep_view() =~= dv0.push(rv));
                        assert(t0.reverse().len() == dv0.len());
                        assert(truncated(tail.reverse(), lim as int) =~= t0.reverse().push(rv));
                    }
                } else {
                    proof {
                        assert(t0.reverse().len() >= lim);
                        assert(truncated(tail.reverse(), lim as int) =~= truncated(
                            t0.reverse(),
                            lim as int,
                        ));
                    }
                }
            } else {
                proof {
                    assert(w1 =~= w0);
                }
            }
        }
        proof {
            assert(l@.take(0) =~= Seq::<Request>::empty());
            assert(matching_resps(l@.take(0), sel, offset, true) + tail =~= tail);
            assert(matching_resps(l@, sel, offset, true).reverse() =~= tail.reverse());
        }
    }
    out
}

/// Looks one request up by stage.
pub fn query_request(st: &State, stage: u64) -> (r: Result<RequestResponse, ContractError>)
    ensures
        r is Ok <==> st.has_stage(stage as int),
        r is Ok ==> r->Ok_0@ == resp_of(st.request_at(stage as int), stage as int),
        r is Err ==> r->Err_0 == ContractError::NotFound,
{
    let n = st.requests.len();
    if stage >= 1 && stage <= n as u64 {
        Ok(parse_request(&st.requests[(stage - 1) as usize], stage))
    } else {
        Err(ContractError::NotFound)
    }
}

/// Pages through all requests by stage.
pub fn query_requests(
    st: &State,
    offset: Option<u64>,
    limit: Option<u8>,
    order: Option<u8>,
) -> (r: Vec<RequestResponse>)
    ensures
        r.deep_view() == page(
            matching_resps(
                st.requests@,
                RequestSelector::All,
                offset,
                chosen_order(order) == Order::Descending,
            ),
            chosen_order(order),
            clamped_limit(limit),
        ),
{
    scan_requests(st, ReqFilter::All, offset, limit, order)
}

/// Pages through the requests of one service, by stage.
pub fn query_requests_by_service(
    st: &State,
    service: String,
    offset: Option<u64>,
    limit: Option<u8>,
    order: Option<u8>,
) -> (r: Vec<RequestResponse>)
    ensures
        r.deep_view() == page(
            matching_resps(
                st.requests@,
                RequestSelector::ByService(service@),
                offset,
                chosen_order(order) == Order::Descending,
            ),
            chosen_order(order),
            clamped_limit(limit),
        ),
{
    scan_requests(st, ReqFilter::ByService(&service), offset, limit, order)
}

/// Pages through the requests carrying one Merkle root, by stage. The empty
/// root selects the still-pending requests.
pub fn query_requests_by_merkle_root(
    st: &State,
    merkle_root: String,
    offset: Option<u64>,
    limit: Option<u8>,
    order: Option<u8>,
) -> (r: Vec<RequestResponse>)
    ensures
        r.deep_view() == page(
            matching_resps(
                st.requests@,
                RequestSelector::ByMerkleRoot(merkle_root@),
                offset,
                chosen_order(order) == Order::Descending,
            ),
            chosen_order(order),
            clamped_limit(limit),
        ),
{
    scan_requests(st, ReqFilter::ByMerkleRoot(&merkle_root), offset, limit, order)
}

/// Reports the stage most recently handed out.
pub fn query_latest_stage(st: &State) -> (r: LatestStageResponse)
    ensures
        r.latest_stage == st.latest_stage(),
{
    LatestStageResponse { latest_stage: crate::state::latest_stage_read(st) }
}

/// Stages are dense: exactly the numbers `1..=latest_stage` address a
/// request, strictly increasing with no gaps. Together with the request
/// handler's postcondition — each accepted request gets stage
/// `latest_stage + 1` — stage numbers are assigned strictly increasing from
/// 1 over any sequence of calls, whatever else is interleaved.
pub proof fn lemma_stages_dense(st: State)
    ensures
        forall|s: int| st.has_stage(s) <==> 1 <= s <= st.latest_stage(),
        st.latest_stage() == st.requests@.len(),
{
}

/// The ascending matches above an offset in a dense ledger are exactly the
/// stages `o + 1 ..= latest`, in order.
proof fn lemma_matches_above(l: Seq<Request>, o: u64)
    ensures
        ({
            let m = matching_resps(l, RequestSelector::All, Some(o), false);
            &&& m.len() == if l.len() <= o {
                0int
            } else {
                l.len() - o
            }
            &&& forall|i: int|
                0 <= i < m.len() ==> m[i] == resp_of(l[o + i], o + 1 + i)
        }),
    decreases l.len(),
{
    if l.len() > 0 {
        lemma_matches_above(l.drop_last(), o);
        let m = matching_resps(l, RequestSelector::All, Some(o), false);
        let m0 = matching_resps(l.drop_last(), RequestSelector::All, Some(o), false);
        if l.len() > o {
            assert(m =~= m0.push(resp_of(l.last(), l.len() as int)));
            assert(forall|i: int|
                0 <= i < l.len() - 1 ==> #[trigger] l.drop_last()[i] == l[i]);
        } else {
            assert(m =~= m0);
            assert(forall|i: int|
                0 <= i < l.len() - 1 ==> #[trigger] l.drop_last()[i] == l[i]);
        }
    }
}

/// Ascending pages chain without overlap and without gap: a query whose
/// exclusive offset is the last stage of the previous page returns exactly
/// the stages that follow it, from `o + 1` upward.
pub proof fn lemma_pages_chain(l: Seq<Request>, o: u64, lim: int)
    requires
        0 <= lim,
    ensures
        ({
            let pg = truncated(matching_resps(l, RequestSelector::All, Some(o), false), lim);
            &&& pg.len() == if l.len() <= o {
                0int
            } else if l.len() - o < lim {
                l.len() - o
            } else {
                lim
            }
            &&& forall|i: int| 0 <= i < pg.len() ==> pg[i] == resp_of(l[o + i], o + 1 + i)
        }),
{
    lemma_matches_above(l, o);
}

} // verus!
