//! Deletion of a thread together with the threads it spawned.
//!
//! The thread itself goes first; its descendants follow, the newest first. A
//! descendant that cannot be deleted stays, and does not stop the others.

use vstd::prelude::*;

use crate::request_error::{RequestError, RequestFault};
use crate::text;

verus! {

/// Why the thread store did not delete a thread.
#[derive(Clone, Debug, PartialEq, Eq)]
pub enum ThreadStoreError {
    ThreadNotFound { thread_id: String },
    InvalidRequest { message: String },
    Unsupported { operation: String },
    /// Any other failure, in words.
    Other { text: String },
}

/// The mathematical counterpart of [`ThreadStoreError`].
pub enum StoreFault {
    ThreadNotFound { thread_id: Seq<char> },
    InvalidRequest { message: Seq<char> },
    Unsupported { operation: Seq<char> },
    Other { text: Seq<char> },
}

impl View for ThreadStoreError {
    type V = StoreFault;

    open spec fn view(&self) -> StoreFault {
        match self {
            ThreadStoreError::ThreadNotFound { thread_id } => StoreFault::ThreadNotFound {
                thread_id: thread_id@,
            },
            ThreadStoreError::InvalidRequest { message } => StoreFault::InvalidRequest {
                message: message@,
            },
            ThreadStoreError::Unsupported { operation } => StoreFault::Unsupported {
                operation: operation@,
            },
            ThreadStoreError::Other { text } => StoreFault::Other { text: text@ },
        }
    }
}

/// How a request is answered when the store does not delete the thread.
pub open spec fn delete_fault(err: StoreFault) -> RequestFault {
    match err {
        StoreFault::ThreadNotFound { thread_id } => RequestFault::InvalidRequest(
            "thread not found: "@ + thread_id,
        ),
        StoreFault::InvalidRequest { message } => RequestFault::InvalidRequest(message),
        StoreFault::Unsupported { operation } => RequestFault::UnsupportedOperation(operation),
        StoreFault::Other { text } => RequestFault::Internal("failed to delete thread: "@ + text),
    }
}

/// How a request is answered when the store does not delete the thread.
pub fn thread_store_delete_error(err: ThreadStoreError) -> (r: RequestError)
    ensures
        r@ == delete_fault(err@),
{
    match err {
        ThreadStoreError::ThreadNotFound { thread_id } => {
            let mut message: String = "thread not found: ".to_owned();
            message.append(thread_id.as_str());
            RequestError::InvalidRequest(message)
        },
        ThreadStoreError::InvalidRequest { message } => RequestError::InvalidRequest(message),
        ThreadStoreError::Unsupported { operation } => RequestError::UnsupportedOperation(
            operation,
        ),
        ThreadStoreError::Other { text } => {
            let mut message: String = "failed to delete thread: ".to_owned();
            message.append(text.as_str());
            RequestError::Internal(message)
        },
    }
}

// ---------------------------------------------------------------------------
// What to delete
// ---------------------------------------------------------------------------
/// Whether a thread is loaded, and if so, whether it is persisted.
#[derive(Clone, Copy, Debug, PartialEq, Eq, Structural)]
pub enum LiveThread {
    NotLoaded,
    Persisted,
    Ephemeral,
}

/// What is known of the loaded threads below a thread.
#[derive(Clone, Debug, PartialEq, Eq)]
pub enum LiveListing {
    /// The thread and the loaded threads below it.
    Listed(Vec<String>),
    /// The thread is not loaded.
    ThreadNotFound,
    /// They could not be listed.
    Failed(RequestError),
}

/// The thread that a request names.
pub fn delete_target(parsed: Result<String, String>) -> (r: Result<String, RequestError>)
    ensures
        match parsed {
            Ok(id) => r == Ok::<String, RequestError>(id),
            Err(e) => r is Err && r->Err_0@ == RequestFault::InvalidRequest(
                "invalid thread id: "@ + e@,
            ),
        },
{
    match parsed {
        Ok(id) => Ok(id),
        Err(err) => {
            let mut message: String = "invalid thread id: ".to_owned();
            message.append(err.as_str());
            Err(RequestError::InvalidRequest(message))
        },
    }
}

/// How a request to delete a thread that is not persisted is answered.
pub open spec fn ephemeral_fault(thread_id: Seq<char>) -> RequestFault {
    RequestFault::InvalidRequest("thread is not persisted and cannot be deleted: "@ + thread_id)
}

/// Refuses to delete a loaded thread that is not persisted.
fn refuse_ephemeral(thread_id: &str, live: LiveThread) -> (r: Result<(), RequestError>)
    ensures
        r is Err <==> live is Ephemeral,
        r is Err ==> r->Err_0@ == ephemeral_fault(thread_id@),
{
    match live {
        LiveThread::Ephemeral => {
            let mut message: String = "thread is not persisted and cannot be deleted: ".to_owned();
            message.append(thread_id);
            Err(RequestError::InvalidRequest(message))
        },
        _ => Ok(()),
    }
}

/// `stored` followed by each of `live` that is not there before it.
pub open spec fn merged(stored: Seq<Seq<char>>, live: Seq<Seq<char>>) -> Seq<Seq<char>>
    decreases live.len(),
{
    if live.len() == 0 {
        stored
    } else {
        let before = merged(stored, live.drop_last());
        if before.contains(live.last()) {
            before
        } else {
            before.push(live.last())
        }
    }
}

/// The order in which a thread and the threads below it are deleted, where
/// `ids` has the thread first.
pub open spec fn deletion_order(root: Seq<char>, ids: Seq<Seq<char>>) -> Seq<Seq<char>> {
    if ids.len() == 0 {
        seq![root]
    } else {
        seq![root] + ids.skip(1).reverse()
    }
}

/// `stored` followed by each of `live` that is not there before it.
pub fn merge_subtree(stored: Vec<String>, live: &Vec<String>) -> (r: Vec<String>)
    ensures
        text::views(r@) == merged(text::views(stored@), text::views(live@)),
{
    let mut ids = stored;
    let ghost first = text::views(stored@);
    let ghost all = text::views(live@);
    let mut i: usize = 0;
    assert(all.take(0) =~= Seq::<Seq<char>>::empty());
    while i < live.len()
        invariant
            i <= live@.len(),
            all == text::views(live@),
            text::views(ids@) == merged(first, all.take(i as int)),
        decreases live.len() - i,
    {
        let ghost before = ids@;
        proof {
            assert(all.take(i + 1).drop_last() == all.take(i as int));
            assert(all.take(i + 1).last() == all[i as int]);
        }
        if !text::holds(&ids, &live[i]) {
            ids.push(live[i].clone());
            assert(text::views(ids@) == text::views(before).push(all[i as int]));
        }
        i += 1;
    }
    assert(all.take(all.len() as int) == all);
    ids
}

fn order_of(root: &str, ids: &Vec<String>) -> (r: Vec<String>)
    ensures
        text::views(r@) == deletion_order(root@, text::views(ids@)),
{
    let mut order: Vec<String> = Vec::new();
    order.push(root.to_owned());
    let total: usize = ids.len();
    let ghost all = text::views(ids@);
    assert(all.len() == total);
    let mut left: usize = total;
    assert(text::views(order@) =~= seq![root@] + all.skip(left as int).reverse());
    while left > 1
        invariant
            left <= total,
            total >= 1 ==> left >= 1,
            total == ids@.len(),
            all == text::views(ids@),
            text::views(order@) == seq![root@] + all.skip(left as int).reverse(),
        decreases left,
    {
        let ghost before = order@;
        left -= 1;
        order.push(ids[left].clone());
        proof {
            assert(text::views(order@) =~= text::views(before).push(all[left as int]));
            let was = all.skip(left + 1);
            let now = all.skip(left as int);
            assert(now =~= seq![all[left as int]] + was);
            assert(now.reverse() =~= was.reverse().push(all[left as int]));
            assert(text::views(order@) =~= seq![root@] + now.reverse());
        }
    }
    proof {
        if total == 0 {
            assert(text::views(order@) =~= seq![root@]);
        }
    }
    order
}

/// A deletion, one thread at a time.
pub struct ThreadDeletion {
    order: Vec<String>,
    next: usize,
    deleted: Vec<String>,
    failure: Option<RequestError>,
}

/// The mathematical counterpart of [`ThreadDeletion`].
pub struct Deletion {
    pub order: Seq<Seq<char>>,
    pub next: int,
    pub deleted: Seq<Seq<char>>,
    pub failure: Option<RequestFault>,
}

pub open spec fn failure_view(e: Option<RequestError>) -> Option<RequestFault> {
    match e {
        Some(e) => Some(e@),
        None => None,
    }
}

impl View for ThreadDeletion {
    type V = Deletion;

    closed spec fn view(&self) -> Deletion {
        Deletion {
            order: text::views(self.order@),
            next: self.next as int,
            deleted: text::views(self.deleted@),
            failure: failure_view(self.failure),
        }
    }
}

/// The deletion before its first question.
pub open spec fn deletion_start(order: Seq<Seq<char>>) -> Deletion {
    Deletion { order, next: 0, deleted: Seq::empty(), failure: None }
}

/// The thread to delete next.
pub open spec fn deletion_question(d: Deletion) -> Option<Seq<char>> {
    if d.failure is None && 0 <= d.next < d.order.len() {
        Some(d.order[d.next])
    } else {
        None
    }
}

/// The deletion after the store deleted the next thread, or did not.
pub open spec fn deletion_answered(d: Deletion, error: Option<StoreFault>) -> Deletion {
    match deletion_question(d) {
        None => d,
        Some(id) => match error {
            None => Deletion { next: d.next + 1, deleted: d.deleted.push(id), ..d },
            Some(err) => if d.next == 0 {
                Deletion { failure: Some(delete_fault(err)), ..d }
            } else {
                Deletion { next: d.next + 1, ..d }
            },
        },
    }
}

/// Why a deletion cannot begin, going by what is known of the loaded threads.
pub open spec fn listing_fault(
    thread_id: Seq<char>,
    live: LiveThread,
    listing: LiveListing,
    has_state_db: bool,
) -> Option<RequestFault> {
    if live is Ephemeral {
        Some(ephemeral_fault(thread_id))
    } else {
        match listing {
            LiveListing::Listed(_) => None,
            LiveListing::ThreadNotFound => if has_state_db {
                None
            } else {
                Some(
                    RequestFault::Internal(
                        "cannot delete thread "@ + thread_id
                            + ": sqlite state db is unavailable and the thread is not loaded"@,
                    ),
                )
            },
            LiveListing::Failed(e) => Some(e@),
        }
    }
}

/// The threads below a thread, stored or loaded.
pub open spec fn subtree(stored: Seq<Seq<char>>, listing: LiveListing) -> Seq<Seq<char>> {
    match listing {
        LiveListing::Listed(live) => merged(stored, text::views(live@)),
        _ => stored,
    }
}

/// Plans the deletion of a thread, where `stored` has the thread and the
/// threads below it that the state database knows. A loaded thread that is not
/// persisted is refused before anything is done to it.
pub fn thread_delete_response(
    thread_id: &str,
    live: LiveThread,
    stored: Vec<String>,
    listing: LiveListing,
    has_state_db: bool,
) -> (r: Result<ThreadDeletion, RequestError>)
    ensures
        match listing_fault(thread_id@, live, listing, has_state_db) {
            Some(fault) => r is Err && r->Err_0@ == fault,
            None => {
                &&& r is Ok
                &&& r->Ok_0@ == deletion_start(
                    deletion_order(thread_id@, subtree(text::views(stored@), listing)),
                )
            },
        },
{
    match refuse_ephemeral(thread_id, live) {
        Ok(()) => {},
        Err(e) => {
            return Err(e);
        },
    }
    let ids = match listing {
        LiveListing::Listed(live) => merge_subtree(stored, &live),
        LiveListing::ThreadNotFound => {
            if !has_state_db {
                let mut message: String = "cannot delete thread ".to_owned();
                message.append(thread_id);
                message.append(": sqlite state db is unavailable and the thread is not loaded");
                return Err(RequestError::Internal(message));
            }
            stored
        },
        LiveListing::Failed(e) => {
            return Err(e);
        },
    };
    let order = order_of(thread_id, &ids);
    let deleted: Vec<String> = Vec::new();
    assert(text::views(deleted@) =~= Seq::<Seq<char>>::empty());
    Ok(ThreadDeletion { order, next: 0, deleted, failure: None })
}

impl ThreadDeletion {
    /// The thread to unload and delete next; none once the deletion is over.
    pub fn question(&self) -> (r: Option<&str>)
        ensures
            match r {
                Some(id) => deletion_question(self@) == Some(id@),
                None => deletion_question(self@) is None,
            },
    {
        assert(text::views(self.order@).len() == self.order@.len());
        if self.failure.is_none() && self.next < self.order.len() {
            Some(self.order[self.next].as_str())
        } else {
            None
        }
    }

    /// Takes what the store made of it.
    pub fn answer(&mut self, result: Result<(), ThreadStoreError>)
        ensures
            final(self)@ == deletion_answered(
                old(self)@,
                match result {
                    Ok(()) => None,
                    Err(e) => Some(e@),
                },
            ),
    {
        assert(text::views(self.order@).len() == self.order@.len());
        if self.failure.is_some() || self.next >= self.order.len() {
            return ;
        }
        match result {
            Ok(()) => {
                let ghost before = self.deleted@;
                let id: String = self.order[self.next].clone();
                self.deleted.push(id);
                self.next = self.next + 1;
                assert(text::views(self.deleted@) == text::views(before).push(
                    self.deleted@.last()@,
                ));
            },
            Err(err) => {
                if self.next == 0 {
                    self.failure = Some(thread_store_delete_error(err));
                } else {
                    self.next = self.next + 1;
                }
            },
        }
    }

    /// The threads that were deleted, in order, or why the thread itself was
    /// not.
    pub fn finish(self) -> (r: Result<Vec<String>, RequestError>)
        requires
            deletion_question(self@) is None,
        ensures
            match self@.failure {
                Some(fault) => r is Err && r->Err_0@ == fault,
                None => r is Ok && text::views(r->Ok_0@) == self@.deleted,
            },
    {
        match self.failure {
            Some(e) => Err(e),
            None => Ok(self.deleted),
        }
    }
}

// ---------------------------------------------------------------------------
// Laws
// ---------------------------------------------------------------------------
/// The deletion carried on to its end, where `store` says why a thread is not
/// deleted, if it is not.
pub open spec fn deletion_run(
    d: Deletion,
    store: spec_fn(Seq<char>) -> Option<StoreFault>,
) -> Deletion
    decreases
            (if d.failure is None {
                1int
            } else {
                0int
            }),
            d.order.len() - d.next,
{
    match deletion_question(d) {
        Some(id) => deletion_run(deletion_answered(d, store(id)), store),
        None => d,
    }
}

/// The threads of `ids` that the store deletes.
pub open spec fn deletable(
    ids: Seq<Seq<char>>,
    store: spec_fn(Seq<char>) -> Option<StoreFault>,
) -> Seq<Seq<char>>
    decreases ids.len(),
{
    if ids.len() == 0 {
        Seq::empty()
    } else {
        let rest = deletable(ids.drop_first(), store);
        if store(ids[0]) is None {
            seq![ids[0]] + rest
        } else {
            rest
        }
    }
}

proof fn lemma_descendants(d: Deletion, store: spec_fn(Seq<char>) -> Option<StoreFault>)
    requires
        d.failure is None,
        0 < d.next <= d.order.len(),
    ensures
        deletion_run(d, store).failure is None,
        deletion_run(d, store).deleted == d.deleted + deletable(d.order.skip(d.next), store),
    decreases d.order.len() - d.next,
{
    let left = d.order.skip(d.next);
    if d.next < d.order.len() {
        let id = d.order[d.next];
        let next = deletion_answered(d, store(id));
        assert(left[0] == id);
        assert(left.drop_first() =~= d.order.skip(d.next + 1));
        lemma_descendants(next, store);
        let rest = deletable(left.drop_first(), store);
        assert(d.deleted.push(id) + rest =~= d.deleted + (seq![id] + rest));
    } else {
        assert(d.deleted + deletable(left, store) =~= d.deleted);
    }
}

/// If the thread itself cannot be deleted, that is the answer and nothing is
/// deleted. Otherwise it goes first, and then its descendants in reverse order,
/// except for those that cannot be deleted.
pub proof fn law_root_first_then_descendants(
    root: Seq<char>,
    ids: Seq<Seq<char>>,
    store: spec_fn(Seq<char>) -> Option<StoreFault>,
)
    ensures
        ({
            let end = deletion_run(deletion_start(deletion_order(root, ids)), store);
            match store(root) {
                Some(err) => end.failure == Some(delete_fault(err)) && end.deleted.len() == 0,
                None => {
                    &&& end.failure is None
                    &&& end.deleted == seq![root] + deletable(
                        if ids.len() == 0 {
                            Seq::empty()
                        } else {
                            ids.skip(1).reverse()
                        },
                        store,
                    )
                },
            }
        }),
{
    let order = deletion_order(root, ids);
    let d = deletion_start(order);
    let first = deletion_answered(d, store(root));
    assert(order[0] == root);
    assert(deletion_question(d) == Some(root));
    assert(deletion_run(d, store) == deletion_run(first, store));
    match store(root) {
        Some(err) => {
            assert(deletion_question(first) is None);
        },
        None => {
            lemma_descendants(first, store);
            let rest = if ids.len() == 0 {
                Seq::<Seq<char>>::empty()
            } else {
                ids.skip(1).reverse()
            };
            assert(order.skip(1) =~= rest);
            assert(first.deleted =~= seq![root]);
        },
    }
}

/// Stored and loaded threads are merged without loss or repetition: stored ones
/// keep their places, and a loaded one is added only if it was not there.
pub proof fn law_merging_adds_what_is_missing(stored: Seq<Seq<char>>, live: Seq<Seq<char>>)
    ensures
        ({
            let all = merged(stored, live);
            &&& stored.is_prefix_of(all)
            &&& forall|x: Seq<char>| #[trigger]
                all.contains(x) <==> stored.contains(x) || live.contains(x)
            &&& stored.no_duplicates() ==> all.no_duplicates()
        }),
    decreases live.len(),
{
    let all = merged(stored, live);
    if live.len() > 0 {
        let front = live.drop_last();
        let x = live.last();
        let before = merged(stored, front);
        law_merging_adds_what_is_missing(stored, front);
        assert forall|y: Seq<char>| #[trigger] all.contains(y) <==> stored.contains(y)
            || live.contains(y) by {
            assert(live.contains(y) <==> front.contains(y) || y == x) by {
                if front.contains(y) {
                    let i = choose|i: int| 0 <= i < front.len() && front[i] == y;
                    assert(live[i] == y);
                }
                if y == x {
                    assert(live[live.len() - 1] == y);
                }
                if live.contains(y) && y != x {
                    let i = choose|i: int| 0 <= i < live.len() && live[i] == y;
                    assert(front[i] == y);
                }
            }
            assert(before.push(x).contains(y) <==> before.contains(y) || y == x) by {
                if before.contains(y) {
                    let i = choose|i: int| 0 <= i < before.len() && before[i] == y;
                    assert(before.push(x)[i] == y);
                }
                if y == x {
                    assert(before.push(x)[before.len() as int] == y);
                }
            }
            assert(before.contains(y) <==> stored.contains(y) || front.contains(y));
        }
    } else {
        assert forall|y: Seq<char>| #[trigger] all.contains(y) <==> stored.contains(y)
            || live.contains(y) by {}
    }
}

proof fn lemma_order_contains(root: Seq<char>, ids: Seq<Seq<char>>, x: Seq<char>)
    ensures
        deletion_order(root, ids).contains(x) <==> x == root || (exists|i: int|
            1 <= i < ids.len() && #[trigger] ids[i] == x),
{
    let order = deletion_order(root, ids);
    assert(order[0] == root);
    if order.contains(x) && x != root {
        let k = choose|k: int| 0 <= k < order.len() && order[k] == x;
        assert(ids.skip(1).reverse()[k - 1] == ids[ids.len() - k]);
        assert(ids[ids.len() - k] == x);
    }
    if exists|i: int| 1 <= i < ids.len() && #[trigger] ids[i] == x {
        let i = choose|i: int| 1 <= i < ids.len() && #[trigger] ids[i] == x;
        assert(order[ids.len() - i] == ids.skip(1).reverse()[ids.len() - i - 1]);
        assert(order[ids.len() - i] == x);
    }
}

/// A planned deletion takes the thread first and leaves out no thread below it,
/// whether the state database knows it or it is only loaded, and takes no other.
/// Stored threads go in the reverse of the order they are stored in, after those
/// that are only loaded. No thread goes twice.
///
/// The lists have the thread itself first.
pub proof fn law_deletion_covers_the_subtree(
    root: Seq<char>,
    stored: Seq<Seq<char>>,
    loaded: Vec<String>,
)
    requires
        stored.len() > 0 ==> stored[0] == root,
        stored.len() == 0 && loaded@.len() > 0 ==> loaded@[0]@ == root,
    ensures
        ({
            let order = deletion_order(root, subtree(stored, LiveListing::Listed(loaded)));
            &&& order.len() > 0 && order[0] == root
            &&& forall|i: int| 0 <= i < stored.len() ==> order.contains(#[trigger] stored[i])
            &&& forall|i: int| 0 <= i < loaded@.len() ==> order.contains(#[trigger] loaded@[i]@)
            &&& forall|k: int|
                0 <= k < order.len() ==> #[trigger] order[k] == root || stored.contains(order[k]) || (
                exists|i: int| 0 <= i < loaded@.len() && #[trigger] loaded@[i]@ == order[k])
            &&& forall|i: int|
                1 <= i < stored.len() ==> order.len() > i && order[order.len() - i]
                    == #[trigger] stored[i]
            &&& stored.no_duplicates() ==> order.no_duplicates()
        }),
{
    let live = text::views(loaded@);
    let all = merged(stored, live);
    let order = deletion_order(root, all);
    law_merging_adds_what_is_missing(stored, live);
    assert(forall|i: int| 0 <= i < stored.len() ==> all[i] == #[trigger] stored[i]);
    if all.len() > 0 {
        assert(all[0] == root) by {
            if stored.len() == 0 {
                lemma_merged_first(stored, live);
            }
        }
    }
    assert forall|x: Seq<char>| #[trigger] all.contains(x) implies order.contains(x) by {
        lemma_order_contains(root, all, x);
        let i = choose|i: int| 0 <= i < all.len() && all[i] == x;
        if i > 0 {
            assert(1 <= i < all.len() && all[i] == x);
        }
    }
    assert forall|i: int| 0 <= i < stored.len() implies order.contains(#[trigger] stored[i]) by {
        assert(stored.contains(stored[i]));
        assert(all.contains(stored[i]));
    }
    assert forall|i: int| 0 <= i < loaded@.len() implies order.contains(#[trigger] loaded@[i]@) by {
        assert(live[i] == loaded@[i]@);
        assert(live.contains(live[i]));
        assert(all.contains(live[i]));
    }
    assert forall|k: int| 0 <= k < order.len() implies #[trigger] order[k] == root
        || stored.contains(order[k]) || (exists|i: int|
        0 <= i < loaded@.len() && #[trigger] loaded@[i]@ == order[k]) by {
        let x = order[k];
        assert(order.contains(x));
        lemma_order_contains(root, all, x);
        if x != root {
            let i = choose|i: int| 1 <= i < all.len() && #[trigger] all[i] == x;
            assert(all.contains(x));
            if !stored.contains(x) {
                let j = choose|j: int| 0 <= j < live.len() && live[j] == x;
                assert(loaded@[j]@ == x);
            }
        }
    }
    assert forall|i: int| 1 <= i < stored.len() implies order.len() > i && order[order.len() - i]
        == #[trigger] stored[i] by {
        assert(all[i] == stored[i]);
        assert(order[all.len() - i] == all.skip(1).reverse()[all.len() - i - 1]);
    }
    if stored.no_duplicates() {
        assert forall|a: int, b: int| 0 <= a < order.len() && 0 <= b < order.len() && a != b implies
            order[a] != order[b] by {
            if a > 0 {
                assert(order[a] == all[all.len() - a]);
            } else {
                assert(order[a] == root);
            }
            if b > 0 {
                assert(order[b] == all[all.len() - b]);
            } else {
                assert(order[b] == root);
            }
        }
    }
}

proof fn lemma_merged_first(stored: Seq<Seq<char>>, live: Seq<Seq<char>>)
    requires
        stored.len() == 0,
        live.len() > 0,
    ensures
        merged(stored, live).len() > 0,
        merged(stored, live)[0] == live[0],
    decreases live.len(),
{
    if live.len() > 1 {
        lemma_merged_first(stored, live.drop_last());
    } else {
        assert(merged(stored, live.drop_last()) == stored);
    }
}

/// Without a listing of loaded threads the stored ones are deleted: the thread
/// first, then the others in the reverse of the order they are stored in.
pub proof fn law_deletion_without_loaded_threads(root: Seq<char>, stored: Seq<Seq<char>>)
    requires
        stored.len() > 0,
    ensures
        ({
            let order = deletion_order(root, subtree(stored, LiveListing::ThreadNotFound));
            &&& order.len() == stored.len()
            &&& order[0] == root
            &&& forall|i: int|
                1 <= i < stored.len() ==> order[stored.len() - i] == #[trigger] stored[i]
        }),
{
    let order = deletion_order(root, stored);
    assert forall|i: int| 1 <= i < stored.len() implies order[stored.len() - i]
        == #[trigger] stored[i] by {
        assert(order[stored.len() - i] == stored.skip(1).reverse()[stored.len() - i - 1]);
    }
}

proof fn lemma_deletable(
    ids: Seq<Seq<char>>,
    store: spec_fn(Seq<char>) -> Option<StoreFault>,
    x: Seq<char>,
)
    ensures
        deletable(ids, store).contains(x) <==> ids.contains(x) && store(x) is None,
    decreases ids.len(),
{
    if ids.len() > 0 {
        let rest = ids.drop_first();
        let kept = deletable(rest, store);
        lemma_deletable(rest, store, x);
        assert(ids.contains(x) <==> x == ids[0] || rest.contains(x)) by {
            if ids.contains(x) && x != ids[0] {
                let i = choose|i: int| 0 <= i < ids.len() && ids[i] == x;
                assert(rest[i - 1] == x);
            }
            if rest.contains(x) {
                let i = choose|i: int| 0 <= i < rest.len() && rest[i] == x;
                assert(ids[i + 1] == x);
            }
        }
        let whole = seq![ids[0]] + kept;
        assert(whole.contains(x) <==> x == ids[0] || kept.contains(x)) by {
            assert(whole[0] == ids[0]);
            if whole.contains(x) && x != ids[0] {
                let i = choose|i: int| 0 <= i < whole.len() && whole[i] == x;
                assert(kept[i - 1] == x);
            }
            if kept.contains(x) {
                let i = choose|i: int| 0 <= i < kept.len() && kept[i] == x;
                assert(whole[i + 1] == x);
            }
        }
    }
}

/// A deletion that the thread itself does not stop deletes every planned thread
/// that the store lets go, and reports exactly those; one that fails reports none.
pub proof fn law_deletion_reports_what_is_gone(
    root: Seq<char>,
    ids: Seq<Seq<char>>,
    store: spec_fn(Seq<char>) -> Option<StoreFault>,
    x: Seq<char>,
)
    ensures
        ({
            let end = deletion_run(deletion_start(deletion_order(root, ids)), store);
            &&& end.failure is Some <==> store(root) is Some
            &&& store(root) is Some ==> end.deleted.len() == 0
            &&& store(root) is None ==> (end.deleted.contains(x) <==> store(x) is None && (x == root
                || exists|i: int| 1 <= i < ids.len() && #[trigger] ids[i] == x))
            &&& store(root) is None ==> end.deleted[0] == root
        }),
{
    law_root_first_then_descendants(root, ids, store);
    let rest = if ids.len() == 0 {
        Seq::<Seq<char>>::empty()
    } else {
        ids.skip(1).reverse()
    };
    lemma_deletable(rest, store, x);
    lemma_order_contains(root, ids, x);
    let order = deletion_order(root, ids);
    let kept = deletable(rest, store);
    let whole = seq![root] + kept;
    assert(whole[0] == root);
    assert(whole.contains(x) <==> x == root || kept.contains(x)) by {
        if whole.contains(x) && x != root {
            let i = choose|i: int| 0 <= i < whole.len() && whole[i] == x;
            assert(kept[i - 1] == x);
        }
        if kept.contains(x) {
            let i = choose|i: int| 0 <= i < kept.len() && kept[i] == x;
            assert(whole[i + 1] == x);
        }
    }
    assert(order =~= seq![root] + rest);
    assert(order.contains(x) <==> x == root || rest.contains(x)) by {
        if order.contains(x) && x != root {
            let i = choose|i: int| 0 <= i < order.len() && order[i] == x;
            assert(rest[i - 1] == x);
        }
        if rest.contains(x) {
            let i = choose|i: int| 0 <= i < rest.len() && rest[i] == x;
            assert(order[i + 1] == x);
        }
    }
}

/// A deletion begins exactly for a thread that is persisted as far as is known,
/// whose loaded threads are known or, where it is not loaded, whose stored threads
/// are. A thread that is loaded and not persisted is refused before everything
/// else, and a listing that failed is answered with its own error.
pub proof fn law_when_deletion_begins(
    thread_id: Seq<char>,
    live: LiveThread,
    listing: LiveListing,
    has_state_db: bool,
)
    ensures
        ({
            let fault = listing_fault(thread_id, live, listing, has_state_db);
            &&& fault is None <==> !(live is Ephemeral) && (listing is Listed || (
            listing is ThreadNotFound && has_state_db))
            &&& live is Ephemeral ==> (fault matches Some(RequestFault::InvalidRequest(m))
                && thread_id.is_suffix_of(m))
            &&& !(live is Ephemeral) ==> (listing matches LiveListing::Failed(e) ==> fault == Some(
                e@,
            ))
            &&& !(live is Ephemeral) && listing is ThreadNotFound && !has_state_db ==> fault matches Some(
                RequestFault::Internal(_),
            )
        }),
{
    let head = "thread is not persisted and cannot be deleted: "@;
    let whole = head + thread_id;
    assert(whole.subrange(whole.len() - thread_id.len(), whole.len() as int) =~= thread_id);
}

/// A request is to blame where the thread is not there or the request is not
/// valid; everything else is an internal error. What the store says is passed on.
pub proof fn law_store_errors_are_passed_on(err: StoreFault)
    ensures
        match err {
            StoreFault::ThreadNotFound { thread_id } => delete_fault(err)
                matches RequestFault::InvalidRequest(m) && thread_id.is_suffix_of(m),
            StoreFault::InvalidRequest { message } => delete_fault(err)
                == RequestFault::InvalidRequest(message),
            StoreFault::Unsupported { operation } => delete_fault(err)
                == RequestFault::UnsupportedOperation(operation),
            StoreFault::Other { text } => delete_fault(err) matches RequestFault::Internal(m)
                && text.is_suffix_of(m),
        },
{
    match err {
        StoreFault::ThreadNotFound { thread_id } => {
            let whole = "thread not found: "@ + thread_id;
            assert(whole.subrange(whole.len() - thread_id.len(), whole.len() as int) =~= thread_id);
        },
        StoreFault::Other { text } => {
            let whole = "failed to delete thread: "@ + text;
            assert(whole.subrange(whole.len() - text.len(), whole.len() as int) =~= text);
        },
        _ => {},
    }
}

} // verus!
