use crate::job::{FetchRequest, RequestView};
use std::collections::VecDeque;
use vstd::prelude::*;

verus! {

/// The contents of a list of requests.
pub open spec fn request_views(items: Seq<FetchRequest>) -> Seq<RequestView> {
    items.map_values(|r: FetchRequest| r@)
}

/// The work queue between admission and the dispatcher: requests leave in the
/// order in which they came. Once closed it takes no more.
pub struct FetchQueue {
    items: VecDeque<FetchRequest>,
    open: bool,
}

impl View for FetchQueue {
    type V = Seq<RequestView>;

    closed spec fn view(&self) -> Seq<RequestView> {
        request_views(self.items@)
    }
}

impl FetchQueue {
    /// Whether the queue still takes requests.
    pub closed spec fn accepting(&self) -> bool {
        self.open
    }

    /// An empty queue that takes requests.
    pub fn new() -> (q: Self)
        ensures
            q@ == Seq::<RequestView>::empty(),
            q.accepting(),
    {
        let q = FetchQueue { items: VecDeque::new(), open: true };
        assert(q@ =~= Seq::<RequestView>::empty());
        q
    }

    /// Tells whether the queue still takes requests.
    pub fn is_open(&self) -> (r: bool)
        ensures
            r == self.accepting(),
    {
        self.open
    }

    /// Stops the queue from taking requests. What it holds stays in it.
    pub fn close(&mut self)
        ensures
            !final(self).accepting(),
            final(self)@ == old(self)@,
    {
        self.open = false;
    }

    /// The number of waiting requests.
    pub fn len(&self) -> (n: usize)
        ensures
            n == self@.len(),
    {
        self.items.len()
    }

    /// Puts a request at the end of an open queue. A closed queue is left as
    /// it is, and the answer is `false`.
    pub fn enqueue(&mut self, request: FetchRequest) -> (taken: bool)
        ensures
            taken == old(self).accepting(),
            final(self).accepting() == old(self).accepting(),
            final(self)@ == if taken {
                old(self)@.push(request@)
            } else {
                old(self)@
            },
    {
        if !self.open {
            return false;
        }
        assert(request_views(self.items@.push(request)) =~= self@.push(request@));
        self.items.push_back(request);
        true
    }

    /// Takes the request that has waited longest.
    pub fn dequeue(&mut self) -> (r: Option<FetchRequest>)
        ensures
            final(self).accepting() == old(self).accepting(),
            match r {
                Some(request) => old(self)@.len() > 0 && request@ == old(self)@[0] && final(self)@
                    == old(self)@.drop_first(),
                None => old(self)@.len() == 0 && final(self)@ == old(self)@,
            },
    {
        let ghost before = self.items@;
        let r = self.items.pop_front();
        proof {
            if before.len() > 0 {
                assert(request_views(before.subrange(1, before.len() as int)) =~= request_views(
                    before,
                ).drop_first());
            }
        }
        r
    }
}

} // verus!
