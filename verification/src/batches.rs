//! Requests sent to several servers at once, answered together: a batch
//! is complete once every server in it has answered all its requests; a
//! server that fails leaves the batch, so that the others can still complete
//! it.

use vstd::prelude::*;

verus! {

/// A request that waits for its answer: its id, its batch, whether it was
/// canceled, and whether it asks for code actions (whose failures are not
/// reported).
#[derive(Clone, Copy, Debug, PartialEq, Eq, Structural)]
pub struct WaitEntry {
    pub id: u64,
    pub batch: u64,
    pub canceled: bool,
    pub code_action: bool,
}

/// A batch: the answers so far, each with its server, and how many requests
/// each server in the batch was sent.
pub struct Batch<R> {
    pub id: u64,
    pub responses: Vec<(usize, R)>,
    pub sizes: Vec<(usize, usize)>,
}

/// The requests that wait for answers, and the batches they belong to.
pub struct PendingRequests<R> {
    pub waitlist: Vec<WaitEntry>,
    pub batches: Vec<Batch<R>>,
}

/// A batch as values.
pub struct BatchView<R> {
    pub id: u64,
    pub responses: Seq<(usize, R)>,
    pub sizes: Seq<(usize, usize)>,
}

/// Pending requests as values.
pub struct PendingView<R> {
    pub waitlist: Seq<WaitEntry>,
    pub batches: Seq<BatchView<R>>,
}

pub open spec fn batch_view<R>(b: Batch<R>) -> BatchView<R> {
    BatchView { id: b.id, responses: b.responses@, sizes: b.sizes@ }
}

impl<R> PendingRequests<R> {
    pub open spec fn view(&self) -> PendingView<R> {
        PendingView { waitlist: self.waitlist@, batches: self.batches@.map_values(|b: Batch<R>| batch_view(b)) }
    }
}

/// How a server answered: with a result, or with an error (whether it says
/// the content was modified, and whether the method is unknown to it).
pub enum ResponseOutcome<R> {
    Success(R),
    Failure { content_modified: bool, method_not_found: bool },
}

/// What an answer leads to.
pub enum BatchAction<R> {
    /// No request waits for this id.
    NotWaiting,
    /// The request was canceled: its answer is dropped.
    Canceled,
    /// The request's batch is gone: nothing more is done.
    NoBatch,
    /// The batch still waits for other answers.
    Pending,
    /// The batch is complete: its handler gets these answers.
    Complete { batch: u64, responses: Vec<(usize, R)> },
    /// A failure that is not reported.
    Silent,
    /// A failure that is reported to the user.
    ReportError { method_not_found: bool },
}

/// An action as values.
pub enum ActionView<R> {
    NotWaiting,
    Canceled,
    NoBatch,
    Pending,
    Complete { batch: u64, responses: Seq<(usize, R)> },
    Silent,
    ReportError { method_not_found: bool },
}

impl<R> BatchAction<R> {
    pub open spec fn view(&self) -> ActionView<R> {
        match self {
            BatchAction::NotWaiting => ActionView::NotWaiting,
            BatchAction::Canceled => ActionView::Canceled,
            BatchAction::NoBatch => ActionView::NoBatch,
            BatchAction::Pending => ActionView::Pending,
            BatchAction::Complete { batch, responses } => ActionView::Complete { batch: *batch, responses: responses@ },
            BatchAction::Silent => ActionView::Silent,
            BatchAction::ReportError { method_not_found } => ActionView::ReportError { method_not_found: *method_not_found },
        }
    }
}

/// The index of the first request waiting with this id.
pub open spec fn find_wait(w: Seq<WaitEntry>, id: u64) -> Option<int>
    decreases w.len(),
{
    if w.len() == 0 {
        None
    } else {
        match find_wait(w.drop_last(), id) {
            Some(i) => Some(i),
            None => if w.last().id == id { Some(w.len() - 1) } else { None },
        }
    }
}

/// The index of the first batch with this id.
pub open spec fn find_batch<R>(b: Seq<BatchView<R>>, id: u64) -> Option<int>
    decreases b.len(),
{
    if b.len() == 0 {
        None
    } else {
        match find_batch(b.drop_last(), id) {
            Some(i) => Some(i),
            None => if b.last().id == id { Some(b.len() - 1) } else { None },
        }
    }
}

/// The number of answers a batch waits for in all.
pub open spec fn sum_sizes(s: Seq<(usize, usize)>) -> int
    decreases s.len(),
{
    if s.len() == 0 { 0 } else { sum_sizes(s.drop_last()) + s.last().1 }
}

/// The entries not of `server`, in their order.
pub open spec fn without_server<T>(s: Seq<(usize, T)>, server: usize) -> Seq<(usize, T)>
    decreases s.len(),
{
    if s.len() == 0 {
        Seq::empty()
    } else {
        (if s[0].0 == server { Seq::empty() } else { seq![s[0]] }) + without_server(s.drop_first(), server)
    }
}

/// What a failure that leaves no batch to complete comes to: silence for a
/// modified content or a request for code actions, else a report.
pub open spec fn failure_action<R>(w: WaitEntry, content_modified: bool, method_not_found: bool) -> ActionView<R> {
    if content_modified || w.code_action {
        ActionView::Silent
    } else {
        ActionView::ReportError { method_not_found }
    }
}

/// The pending requests after `server` answered request `id`, and what the
/// answer leads to.
pub open spec fn response_step<R>(p: PendingView<R>, server: usize, id: u64, outcome: ResponseOutcome<R>) -> (PendingView<R>, ActionView<R>) {
    match find_wait(p.waitlist, id) {
        None => (p, ActionView::NotWaiting),
        Some(i) => {
            let w = p.waitlist[i];
            let p1 = PendingView { waitlist: p.waitlist.remove(i), batches: p.batches };
            if w.canceled {
                (p1, ActionView::Canceled)
            } else {
                match outcome {
                    ResponseOutcome::Success(v) => match find_batch(p1.batches, w.batch) {
                        None => (p1, ActionView::NoBatch),
                        Some(j) => {
                            let b = p1.batches[j];
                            let rs = b.responses.push((server, v));
                            if rs.len() >= sum_sizes(b.sizes) {
                                (PendingView { waitlist: p1.waitlist, batches: p1.batches.remove(j) }, ActionView::Complete { batch: w.batch, responses: rs })
                            } else {
                                (
                                    PendingView {
                                        waitlist: p1.waitlist,
                                        batches: p1.batches.update(j, BatchView { id: b.id, responses: rs, sizes: b.sizes }),
                                    },
                                    ActionView::Pending,
                                )
                            }
                        },
                    },
                    ResponseOutcome::Failure { content_modified, method_not_found } => match find_batch(p1.batches, w.batch) {
                        None => (p1, failure_action(w, content_modified, method_not_found)),
                        Some(j) => {
                            let b = p1.batches[j];
                            let sizes = without_server(b.sizes, server);
                            if sizes.len() == 0 {
                                (PendingView { waitlist: p1.waitlist, batches: p1.batches.remove(j) }, failure_action(w, content_modified, method_not_found))
                            } else {
                                let rs = without_server(b.responses, server);
                                if rs.len() >= sum_sizes(sizes) {
                                    (PendingView { waitlist: p1.waitlist, batches: p1.batches.remove(j) }, ActionView::Complete { batch: w.batch, responses: rs })
                                } else {
                                    (
                                        PendingView {
                                            waitlist: p1.waitlist,
                                            batches: p1.batches.update(j, BatchView { id: b.id, responses: rs, sizes }),
                                        },
                                        ActionView::Pending,
                                    )
                                }
                            }
                        },
                    },
                }
            }
        },
    }
}

/// No two requests wait with the same id.
pub open spec fn ids_unique(w: Seq<WaitEntry>) -> bool {
    forall|i: int, j: int| 0 <= i < j < w.len() ==> w[i].id != w[j].id
}

/// Every request is answered once: where ids are unique, a second answer
/// with the same id finds no request waiting for it, whatever either answer
/// was.
pub proof fn lemma_answered_once<R>(p: PendingView<R>, server: usize, other: usize, id: u64, first: ResponseOutcome<R>, second: ResponseOutcome<R>)
    requires
        ids_unique(p.waitlist),
    ensures
        response_step(response_step(p, server, id, first).0, other, id, second).1 == ActionView::<R>::NotWaiting,
{
    lemma_find_wait(p.waitlist, id);
    let p2 = response_step(p, server, id, first).0;
    match find_wait(p.waitlist, id) {
        None => {},
        Some(i) => {
            let rest = p.waitlist.remove(i);
            assert(p2.waitlist == rest);
            assert forall|j: int| 0 <= j < rest.len() implies rest[j].id != id by {
                if j < i {
                    assert(rest[j] == p.waitlist[j]);
                } else {
                    assert(rest[j] == p.waitlist[j + 1]);
                }
            }
            lemma_find_wait(rest, id);
        },
    }
}

/// A failure to answer a request for code actions is never reported, and
/// neither is one that says the content was modified.
pub proof fn lemma_quiet_failures<R>(p: PendingView<R>, server: usize, id: u64, content_modified: bool, method_not_found: bool)
    requires
        find_wait(p.waitlist, id) matches Some(i) && (p.waitlist[i].code_action || content_modified),
    ensures
        !(response_step(p, server, id, ResponseOutcome::<R>::Failure { content_modified, method_not_found }).1 is ReportError),
{
}

proof fn lemma_find_wait(w: Seq<WaitEntry>, id: u64)
    ensures
        match find_wait(w, id) {
            Some(i) => 0 <= i < w.len() && w[i].id == id && forall|j: int| 0 <= j < i ==> w[j].id != id,
            None => forall|j: int| 0 <= j < w.len() ==> w[j].id != id,
        },
    decreases w.len(),
{
    if w.len() > 0 {
        let d = w.drop_last();
        lemma_find_wait(d, id);
        assert forall|j: int| 0 <= j < d.len() implies d[j] == w[j] by {}
    }
}

proof fn lemma_find_batch<R>(b: Seq<BatchView<R>>, id: u64)
    ensures
        match find_batch(b, id) {
            Some(i) => 0 <= i < b.len() && b[i].id == id && forall|j: int| 0 <= j < i ==> b[j].id != id,
            None => forall|j: int| 0 <= j < b.len() ==> b[j].id != id,
        },
    decreases b.len(),
{
    if b.len() > 0 {
        let d = b.drop_last();
        lemma_find_batch(d, id);
        assert forall|j: int| 0 <= j < d.len() implies d[j] == b[j] by {}
    }
}

fn wait_index(w: &Vec<WaitEntry>, id: u64) -> (res: Option<usize>)
    ensures
        match res {
            Some(i) => find_wait(w@, id) == Some(i as int) && i < w.len(),
            None => find_wait(w@, id) is None,
        },
{
    proof {
        lemma_find_wait(w@, id);
    }
    let mut k: usize = 0;
    while k < w.len()
        invariant
            k <= w.len(),
            forall|j: int| 0 <= j < k ==> w@[j].id != id,
        decreases w.len() - k,
    {
        if w[k].id == id {
            proof {
                lemma_find_wait(w@, id);
                let f = find_wait(w@, id);
                if f is Some && f->0 < k {
                    assert(w@[f->0].id != id);
                }
            }
            return Some(k);
        }
        k = k + 1;
    }
    None
}

fn batch_index<R>(b: &Vec<Batch<R>>, id: u64) -> (res: Option<usize>)
    ensures
        match res {
            Some(i) => find_batch(b@.map_values(|x: Batch<R>| batch_view(x)), id) == Some(i as int) && i < b.len(),
            None => find_batch(b@.map_values(|x: Batch<R>| batch_view(x)), id) is None,
        },
{
    let ghost v = b@.map_values(|x: Batch<R>| batch_view(x));
    proof {
        lemma_find_batch(v, id);
    }
    let mut k: usize = 0;
    while k < b.len()
        invariant
            k <= b.len(),
            v == b@.map_values(|x: Batch<R>| batch_view(x)),
            forall|j: int| 0 <= j < k ==> b@[j].id != id,
        decreases b.len() - k,
    {
        if b[k].id == id {
            proof {
                lemma_find_batch(v, id);
                let f = find_batch(v, id);
                assert(v[k as int].id == id);
                if f is Some && f->0 < k {
                    assert(v[f->0].id == b@[f->0].id);
                }
            }
            return Some(k);
        }
        k = k + 1;
    }
    proof {
        let f = find_batch(v, id);
        if f is Some {
            assert(v[f->0].id == b@[f->0].id);
        }
    }
    None
}

proof fn lemma_sum_sizes_prefix(s: Seq<(usize, usize)>, k: int)
    requires
        0 <= k <= s.len(),
    ensures
        0 <= sum_sizes(s.take(k)) <= sum_sizes(s),
    decreases s.len(),
{
    if s.len() > 0 {
        if k == s.len() {
            assert(s.take(k) =~= s);
            lemma_sum_sizes_prefix(s.drop_last(), k - 1);
        } else {
            assert(s.drop_last().take(k) =~= s.take(k));
            lemma_sum_sizes_prefix(s.drop_last(), k);
        }
    } else {
        assert(s.take(k) =~= s);
    }
}

/// The number of answers a batch waits for; see `sum_sizes`.
fn total_size(s: &Vec<(usize, usize)>) -> (res: usize)
    requires
        sum_sizes(s@) <= usize::MAX,
    ensures
        res == sum_sizes(s@),
{
    let mut t: usize = 0;
    let mut k: usize = 0;
    while k < s.len()
        invariant
            k <= s.len(),
            sum_sizes(s@) <= usize::MAX,
            t == sum_sizes(s@.take(k as int)),
        decreases s.len() - k,
    {
        proof {
            assert(s@.take(k + 1).drop_last() =~= s@.take(k as int));
            lemma_sum_sizes_prefix(s@, k + 1);
        }
        t = t + s[k].1;
        k = k + 1;
    }
    assert(s@.take(k as int) =~= s@);
    t
}

/// The entries of `s` not of `server`; see `without_server`.
fn drop_server<T>(s: Vec<(usize, T)>, server: usize) -> (res: Vec<(usize, T)>)
    ensures
        res@ == without_server(s@, server),
{
    let ghost orig = s@;
    let mut rest = s;
    let mut kept: Vec<(usize, T)> = Vec::new();
    proof {
        assert(kept@ + without_server(rest@, server) =~= without_server(orig, server));
    }
    while rest.len() > 0
        invariant
            kept@ + without_server(rest@, server) == without_server(orig, server),
        decreases rest.len(),
    {
        let ghost before = rest@;
        let e = rest.remove(0);
        proof {
            assert(rest@ =~= before.drop_first());
        }
        if e.0 != server {
            kept.push(e);
            proof {
                assert(kept@ + without_server(rest@, server) =~= without_server(orig, server));
            }
        } else {
            proof {
                assert(kept@ + without_server(rest@, server) =~= without_server(orig, server));
            }
        }
    }
    assert(without_server(rest@, server) =~= Seq::<(usize, T)>::empty());
    assert(kept@ =~= kept@ + without_server(rest@, server));
    kept
}

/// Whether every batch's total fits a machine word.
pub open spec fn sizes_fit<R>(p: PendingView<R>) -> bool {
    forall|j: int| 0 <= j < p.batches.len() ==> sum_sizes(#[trigger] p.batches[j].sizes) <= usize::MAX
}

/// Records that `server` answered request `id`; see `response_step`.
pub fn on_server_response<R>(pending: &mut PendingRequests<R>, server: usize, id: u64, outcome: ResponseOutcome<R>) -> (action: BatchAction<R>)
    requires
        sizes_fit(old(pending)@),
    ensures
        (final(pending)@, action@) == response_step(old(pending)@, server, id, outcome),
{
    let ghost p0 = pending@;
    let i = match wait_index(&pending.waitlist, id) {
        Some(i) => i,
        None => return BatchAction::NotWaiting,
    };
    let w = pending.waitlist.remove(i);
    proof {
        assert(pending@.batches == p0.batches);
    }
    if w.canceled {
        return BatchAction::Canceled;
    }
    let j = match batch_index(&pending.batches, w.batch) {
        Some(j) => j,
        None => {
            return match outcome {
                ResponseOutcome::Success(_) => BatchAction::NoBatch,
                ResponseOutcome::Failure { content_modified, method_not_found } => {
                    if content_modified || w.code_action {
                        BatchAction::Silent
                    } else {
                        BatchAction::ReportError { method_not_found }
                    }
                },
            };
        },
    };
    let ghost bv = pending@.batches;
    let b = pending.batches.remove(j);
    proof {
        assert(bv[j as int] == batch_view(b));
        assert(sum_sizes(bv[j as int].sizes) <= usize::MAX);
        assert(pending@.batches =~= bv.remove(j as int));
    }
    let Batch { id: bid, responses, sizes } = b;
    match outcome {
        ResponseOutcome::Success(v) => {
            let mut rs = responses;
            rs.push((server, v));
            let total = total_size(&sizes);
            if rs.len() >= total {
                BatchAction::Complete { batch: w.batch, responses: rs }
            } else {
                pending.batches.insert(j, Batch { id: bid, responses: rs, sizes });
                proof {
                    assert(pending@.batches =~= bv.update(j as int, BatchView { id: bid, responses: rs@, sizes: sizes@ }));
                }
                BatchAction::Pending
            }
        },
        ResponseOutcome::Failure { content_modified, method_not_found } => {
            let sizes2 = drop_server(sizes, server);
            if sizes2.len() == 0 {
                if content_modified || w.code_action {
                    BatchAction::Silent
                } else {
                    BatchAction::ReportError { method_not_found }
                }
            } else {
                let rs = drop_server(responses, server);
                proof {
                    lemma_without_server_sum(bv[j as int].sizes, server);
                }
                let total = total_size(&sizes2);
                if rs.len() >= total {
                    BatchAction::Complete { batch: w.batch, responses: rs }
                } else {
                    pending.batches.insert(j, Batch { id: bid, responses: rs, sizes: sizes2 });
                    proof {
                        assert(pending@.batches =~= bv.update(j as int, BatchView { id: bid, responses: rs@, sizes: sizes2@ }));
                    }
                    BatchAction::Pending
                }
            }
        },
    }
}

/// Leaving a server out of a batch's sizes makes the total no larger.
proof fn lemma_without_server_sum(s: Seq<(usize, usize)>, server: usize)
    ensures
        0 <= sum_sizes(without_server(s, server)) <= sum_sizes(s),
    decreases s.len(),
{
    if s.len() > 0 {
        lemma_without_server_sum(s.drop_first(), server);
        lemma_sum_concat(seq![s[0]], s.drop_first());
        assert(s =~= seq![s[0]] + s.drop_first());
        let head: Seq<(usize, usize)> = if s[0].0 == server { Seq::empty() } else { seq![s[0]] };
        lemma_sum_concat(head, without_server(s.drop_first(), server));
        assert(seq![s[0]].drop_last() =~= Seq::<(usize, usize)>::empty());
        let one = seq![s[0]];
        assert(one.last() == s[0]);
        assert(sum_sizes(one) == sum_sizes(one.drop_last()) + one.last().1);
        assert(sum_sizes(one) == s[0].1);
        assert(sum_sizes(Seq::<(usize, usize)>::empty()) == 0);
        assert(without_server(s, server) == head + without_server(s.drop_first(), server));
        lemma_sum_nonneg(s.drop_first());
    }
}

proof fn lemma_sum_nonneg(s: Seq<(usize, usize)>)
    ensures
        sum_sizes(s) >= 0,
    decreases s.len(),
{
    if s.len() > 0 {
        lemma_sum_nonneg(s.drop_last());
    }
}

proof fn lemma_sum_concat(a: Seq<(usize, usize)>, b: Seq<(usize, usize)>)
    ensures
        sum_sizes(a + b) == sum_sizes(a) + sum_sizes(b),
    decreases b.len(),
{
    if b.len() == 0 {
        assert(a + b =~= a);
    } else {
        assert((a + b).drop_last() =~= a + b.drop_last());
        lemma_sum_concat(a, b.drop_last());
    }
}

} // verus!
