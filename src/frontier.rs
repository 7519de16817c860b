use crate::text::views;
use vstd::prelude::*;

verus! {

/// The queue after offering `u` to a frontier holding `q` with room for `cap`
/// urls: `None` when it is full, and the offer has to wait for a pop.
pub open spec fn offer(q: Seq<Seq<char>>, cap: nat, u: Seq<char>) -> Option<Seq<Seq<char>>> {
    if q.len() < cap {
        Some(q.push(u))
    } else {
        None
    }
}

/// Offers the urls `us` one after the other; `None` when one has to wait.
pub open spec fn offer_all(q: Seq<Seq<char>>, cap: nat, us: Seq<Seq<char>>) -> Option<
    Seq<Seq<char>>,
>
    decreases us.len(),
{
    if us.len() == 0 {
        Some(q)
    } else {
        match offer_all(q, cap, us.drop_last()) {
            Some(p) => offer(p, cap, us.last()),
            None => None,
        }
    }
}

/// A bounded async_channel with both of its ends. The ends stay in here and
/// are never cloned or handed out, so the channel's contents change only
/// through the wrappers below, and it is never closed.
#[verifier::external_body]
pub struct Channel {
    tx: async_channel::Sender<String>,
    rx: async_channel::Receiver<String>,
}

/// The urls waiting in a channel, oldest first.
pub uninterp spec fn channel_items(c: Channel) -> Seq<Seq<char>>;

/// The bound a channel was made with.
pub uninterp spec fn channel_bound(c: Channel) -> nat;

/// Relies on `async_channel::bounded`, which panics on a zero capacity and
/// makes an empty channel with room for `capacity` messages.
#[verifier::external_body]
fn open_channel(capacity: usize) -> (c: Channel)
    requires
        capacity > 0,
    ensures
        channel_items(c) == Seq::<Seq<char>>::empty(),
        channel_bound(c) == capacity,
{
    let (tx, rx) = async_channel::bounded(capacity);
    Channel { tx, rx }
}

/// Relies on `async_channel::Sender::try_send`: the message joins the back of
/// the queue unless it is full, and a full queue hands it back. The channel
/// is never closed while its receiver is held here.
#[verifier::external_body]
fn channel_try_send(c: &mut Channel, url: String) -> (r: Result<(), String>)
    requires
        channel_items(*old(c)).len() <= channel_bound(*old(c)),
    ensures
        channel_bound(*final(c)) == channel_bound(*old(c)),
        channel_items(*old(c)).len() < channel_bound(*old(c)) ==> (r is Ok && channel_items(*final(c)) == channel_items(*old(c)).push(url@)),
        channel_items(*old(c)).len() >= channel_bound(*old(c)) ==> (r == Err::<(), String>(url) && channel_items(*final(c)) == channel_items(*old(c))),
{
    c.tx.try_send(url).map_err(|e| e.into_inner())
}

/// Relies on `async_channel::Receiver::try_recv`: the oldest message, or an
/// error on an empty queue.
#[verifier::external_body]
fn channel_try_recv(c: &mut Channel) -> (r: Option<String>)
    ensures
        channel_bound(*final(c)) == channel_bound(*old(c)),
        channel_items(*old(c)).len() == 0 ==> (r is None && channel_items(*final(c)) == channel_items(*old(c))),
        channel_items(*old(c)).len() > 0 ==> (r matches Some(u) && u@ == channel_items(*old(c))[0] && channel_items(*final(c)) == channel_items(*old(c)).drop_first()),
{
    c.rx.try_recv().ok()
}

/// Relies on `async_channel::Receiver::len`: the number of waiting messages.
#[verifier::external_body]
fn channel_len(c: &Channel) -> (n: usize)
    ensures
        n == channel_items(*c).len(),
{
    c.rx.len()
}

/// The bounded queue of urls waiting to be fetched.
///
/// A push into a full frontier is refused and hands the url back: the caller
/// waits for a pop and offers it again. No url is dropped or duplicated.
pub struct Frontier {
    channel: Channel,
    capacity: usize,
}

impl View for Frontier {
    type V = Seq<Seq<char>>;

    closed spec fn view(&self) -> Seq<Seq<char>> {
        channel_items(self.channel)
    }
}

impl Frontier {
    pub closed spec fn spec_capacity(&self) -> nat {
        self.capacity as nat
    }

    pub closed spec fn well_formed(&self) -> bool {
        &&& 0 < self.capacity
        &&& channel_bound(self.channel) == self.capacity
        &&& channel_items(self.channel).len() <= self.capacity
    }

    /// An empty frontier with room for `capacity` urls.
    pub fn new(capacity: usize) -> (r: Frontier)
        requires
            capacity > 0,
        ensures
            r.well_formed(),
            r@ == Seq::<Seq<char>>::empty(),
            r.spec_capacity() == capacity,
    {
        Frontier { channel: open_channel(capacity), capacity }
    }

    /// A frontier holding the seed urls, with room for the larger of
    /// `max_queue_size` and the number of seeds.
    pub fn with_seeds(max_queue_size: usize, seeds: Vec<String>) -> (r: Frontier)
        requires
            max_queue_size > 0 || seeds@.len() > 0,
        ensures
            r.well_formed(),
            r@ == views(seeds@),
            r.spec_capacity() == if max_queue_size >= seeds@.len() {
                max_queue_size as nat
            } else {
                seeds@.len()
            },
    {
        let capacity = if max_queue_size >= seeds.len() {
            max_queue_size
        } else {
            seeds.len()
        };
        let mut r = Frontier::new(capacity);
        let ghost all = views(seeds@);
        let mut i: usize = 0;
        while i < seeds.len()
            invariant
                r.well_formed(),
                r.spec_capacity() == capacity,
                capacity >= seeds@.len(),
                all == views(seeds@),
                i <= seeds@.len(),
                r@ == all.take(i as int),
            decreases seeds.len() - i,
        {
            let pushed = r.push(seeds[i].clone());
            match pushed {
                Ok(()) => {},
                Err(_) => {
                    assert(false);
                },
            }
            i += 1;
            assert(r@ =~= all.take(i as int));
        }
        assert(all =~= r@);
        r
    }

    /// The number of waiting urls.
    pub fn len(&self) -> (n: usize)
        ensures
            n == self@.len(),
    {
        channel_len(&self.channel)
    }

    /// The number of urls the frontier has room for.
    pub fn capacity(&self) -> (n: usize)
        ensures
            n == self.spec_capacity(),
    {
        self.capacity
    }

    /// Whether a push would have to wait.
    pub fn is_full(&self) -> (b: bool)
        requires
            self.well_formed(),
        ensures
            b == (self@.len() >= self.spec_capacity()),
    {
        channel_len(&self.channel) >= self.capacity
    }

    /// Queues `url` when there is room; else hands it back and changes nothing.
    pub fn push(&mut self, url: String) -> (r: Result<(), String>)
        requires
            old(self).well_formed(),
        ensures
            final(self).well_formed(),
            final(self).spec_capacity() == old(self).spec_capacity(),
            match offer(old(self)@, old(self).spec_capacity(), url@) {
                Some(q) => r is Ok && final(self)@ == q,
                None => r == Err::<(), String>(url) && final(self)@ == old(self)@,
            },
    {
        channel_try_send(&mut self.channel, url)
    }

    /// Takes the oldest waiting url, if any.
    pub fn pop(&mut self) -> (r: Option<String>)
        requires
            old(self).well_formed(),
        ensures
            final(self).well_formed(),
            final(self).spec_capacity() == old(self).spec_capacity(),
            old(self)@.len() == 0 ==> r is None && final(self)@ == old(self)@,
            old(self)@.len() > 0 ==> (r matches Some(u) && u@ == old(self)@[0] && final(self)@
                == old(self)@.drop_first()),
    {
        channel_try_recv(&mut self.channel)
    }
}

/// A frontier with room for `cap` urls takes `cap` urls one after the other;
/// the next one waits, and it is taken once a url has been popped.
pub proof fn lemma_backpressure(cap: nat, urls: Seq<Seq<char>>)
    requires
        cap > 0,
        urls.len() == cap + 1,
    ensures
        offer_all(Seq::empty(), cap, urls.take(cap as int)) == Some(urls.take(cap as int)),
        offer(urls.take(cap as int), cap, urls[cap as int]) is None,
        offer(urls.take(cap as int).drop_first(), cap, urls[cap as int]) == Some(
            urls.take(cap as int).drop_first().push(urls[cap as int]),
        ),
{
    lemma_offer_all_fits(cap, urls, cap as int);
}

proof fn lemma_offer_all_fits(cap: nat, urls: Seq<Seq<char>>, n: int)
    requires
        0 <= n <= cap,
        n <= urls.len(),
    ensures
        offer_all(Seq::empty(), cap, urls.take(n)) == Some(urls.take(n)),
    decreases n,
{
    if n > 0 {
        lemma_offer_all_fits(cap, urls, n - 1);
        assert(urls.take(n).drop_last() =~= urls.take(n - 1));
        assert(urls.take(n - 1).push(urls.take(n).last()) =~= urls.take(n));
    } else {
        assert(urls.take(0) =~= Seq::<Seq<char>>::empty());
    }
}

} // verus!
