//! Single-instance coordination: the lifecycle of the local listener, the
//! latch that holds argument hand-offs until the UI has started, and the
//! hand-off that a second instance makes to the first.

use vstd::prelude::*;
use vstd::string::StringExecFns;

use crate::http::strings_view;

verus! {

pub open spec fn payloads_view(v: Seq<Vec<u8>>) -> Seq<Seq<u8>> {
    v.map_values(|p: Vec<u8>| p@)
}

/// An argument hand-off with payload `p` against a latch that is `latched` with
/// `pending` payloads waiting: the payloads that wait afterwards, and those
/// delivered now. A closed latch queues; an open one delivers at once.
pub open spec fn latch_post(latched: bool, pending: Seq<Seq<u8>>, p: Seq<u8>) -> (
    Seq<Seq<u8>>,
    Seq<Seq<u8>>,
) {
    if latched {
        (pending.push(p), Seq::empty())
    } else {
        (pending, seq![p])
    }
}

/// The local listener and the argument latch of this process.
pub struct Ipc {
    listening: bool,
    serving: bool,
    latched: bool,
    pending: Vec<Vec<u8>>,
}

/// Where a second instance sends its arguments.
pub struct ArgsForward {
    pub url: String,
    /// The arguments as a JSON array of strings.
    pub body: Vec<u8>,
    /// The process ends once the hand-off is sent.
    pub exit_after: bool,
}

/// What a process does once its hand-off has been attempted.
#[derive(Debug, Clone, Copy, PartialEq, Eq, Structural)]
pub enum ForwardVerdict {
    /// It is the primary instance: it goes on.
    Stay,
    /// The primary took the arguments: this instance ends.
    Exit,
    /// Nobody took them: the port holder is stale, this instance goes on alone.
    BecomePrimary,
}

/// What `serde_json::to_vec` makes of a list of strings: a JSON array.
pub uninterp spec fn json_string_array(args: Seq<Seq<char>>) -> Seq<u8>;

/// Relies on `serde_json::to_vec`: serialises the list as a JSON array of
/// strings, which cannot fail for strings.
#[verifier::external_body]
fn to_json_array(args: &Vec<String>) -> (r: Vec<u8>)
    ensures
        r@ == json_string_array(strings_view(args@)),
{
    serde_json::to_vec(args).unwrap_or_default()
}

impl Ipc {
    /// This process holds the local port: it is the primary instance.
    pub closed spec fn holds_port(&self) -> bool {
        self.listening
    }

    /// Whether this process holds the local port.
    pub fn is_listening(&self) -> (r: bool)
        ensures
            r == self.holds_port(),
    {
        self.listening
    }

    /// Whether argument hand-offs are held back.
    pub fn is_latched(&self) -> (r: bool)
        ensures
            r == self.latched(),
    {
        self.latched
    }

    /// The local server is running and can be told to stop.
    pub closed spec fn serving(&self) -> bool {
        self.serving
    }

    /// Argument hand-offs are held back.
    pub closed spec fn latched(&self) -> bool {
        self.latched
    }

    /// The hand-offs held back, oldest first.
    pub closed spec fn pending(&self) -> Seq<Seq<u8>> {
        payloads_view(self.pending@)
    }

    /// Not bound, not serving, latch open, nothing held.
    pub fn new() -> (r: Ipc)
        ensures
            !r.holds_port(),
            !r.serving(),
            !r.latched(),
            r.pending() == Seq::<Seq<u8>>::empty(),
    {
        let r = Ipc { listening: false, serving: false, latched: false, pending: Vec::new() };
        assert(r.pending() =~= Seq::<Seq<u8>>::empty());
        r
    }

    /// Closes the latch, then records whether the local port could be bound
    /// (`bound`): the first delivery waits for the UI to start.
    pub fn init(&mut self, bound: bool)
        ensures
            final(self).latched(),
            final(self).holds_port() == bound,
            final(self).serving() == old(self).serving(),
            final(self).pending() == old(self).pending(),
    {
        self.latched = true;
        self.listening = bound;
    }

    /// Starts serving on the bound port; fails when this process holds none.
    pub fn listen(&mut self) -> (r: Result<(), String>)
        ensures
            old(self).holds_port() ==> r is Ok && final(self).serving(),
            !old(self).holds_port() ==> r is Err && r->Err_0@ == "No TCP listener"@
                && final(self).serving() == old(self).serving(),
            final(self).holds_port() == old(self).holds_port(),
            final(self).latched() == old(self).latched(),
            final(self).pending() == old(self).pending(),
    {
        if !self.listening {
            return Err(String::from_str("No TCP listener"));
        }
        self.serving = true;
        Ok(())
    }

    /// The UI has started: the latch opens and what it held is delivered, in
    /// the order it came.
    pub fn start(&mut self) -> (r: Vec<Vec<u8>>)
        ensures
            payloads_view(r@) == old(self).pending(),
            !final(self).latched(),
            final(self).pending() == Seq::<Seq<u8>>::empty(),
            final(self).holds_port() == old(self).holds_port(),
            final(self).serving() == old(self).serving(),
    {
        self.latched = false;
        let mut r: Vec<Vec<u8>> = Vec::new();
        std::mem::swap(&mut r, &mut self.pending);
        assert(payloads_view(self.pending@) =~= Seq::<Seq<u8>>::empty());
        r
    }

    /// Closes the latch again; closing a closed latch changes nothing.
    pub fn pause(&mut self)
        ensures
            final(self).latched(),
            final(self).pending() == old(self).pending(),
            final(self).holds_port() == old(self).holds_port(),
            final(self).serving() == old(self).serving(),
    {
        if !self.latched {
            self.latched = true;
        }
    }

    /// Stops serving and gives up the port; returns whether a running
    /// server must be told to stop.
    pub fn stop(&mut self) -> (r: bool)
        ensures
            r == old(self).serving(),
            !final(self).serving(),
            !final(self).holds_port(),
            final(self).latched() == old(self).latched(),
            final(self).pending() == old(self).pending(),
    {
        let r = self.serving;
        self.serving = false;
        self.listening = false;
        r
    }

    /// An argument hand-off arrives: delivered now when the latch is open,
    /// else held. A held hand-off is acknowledged only once `start`
    /// delivers it: the k-th payload that `start` returns is the k-th one
    /// held.
    pub fn post_args(&mut self, payload: Vec<u8>) -> (r: Vec<Vec<u8>>)
        ensures
            (final(self).pending(), payloads_view(r@)) == latch_post(
                old(self).latched(),
                old(self).pending(),
                payload@,
            ),
            final(self).latched() == old(self).latched(),
            final(self).holds_port() == old(self).holds_port(),
            final(self).serving() == old(self).serving(),
    {
        let ghost pv = payload@;
        let mut r: Vec<Vec<u8>> = Vec::new();
        if self.latched {
            let ghost prev = self.pending@;
            self.pending.push(payload);
            assert(payloads_view(self.pending@) =~= payloads_view(prev).push(pv));
        } else {
            r.push(payload);
        }
        assert(payloads_view(r@) =~= latch_post(old(self).latched(), old(self).pending(), pv).1);
        r
    }

    /// The hand-off of this process's arguments `args` to the instance
    /// that holds the local port. A process that does not hold it ends
    /// after sending.
    pub fn send(&self, args: &Vec<String>) -> (r: ArgsForward)
        ensures
            r.url@ == "http://127.0.0.1:44321/args"@,
            r.body@ == json_string_array(strings_view(args@)),
            r.exit_after == !self.holds_port(),
    {
        ArgsForward {
            url: String::from_str("http://127.0.0.1:44321/args"),
            body: to_json_array(args),
            exit_after: !self.listening,
        }
    }

    /// What this process does once its hand-off was (`delivered`) or was
    /// not taken.
    pub fn after_forward(&self, delivered: bool) -> (r: ForwardVerdict)
        ensures
            self.holds_port() ==> r == ForwardVerdict::Stay,
            !self.holds_port() && delivered ==> r == ForwardVerdict::Exit,
            !self.holds_port() && !delivered ==> r == ForwardVerdict::BecomePrimary,
    {
        if self.listening {
            ForwardVerdict::Stay
        } else if delivered {
            ForwardVerdict::Exit
        } else {
            ForwardVerdict::BecomePrimary
        }
    }
}

/// The address the primary instance listens on.
pub fn local_address() -> (r: String)
    ensures
        r@ == "127.0.0.1:44321"@,
{
    String::from_str("127.0.0.1:44321")
}

/// Hand-offs made while the latch is closed are all delivered, in the order
/// they were made, when it opens; one made while it is open is delivered at
/// once, and a later closing of the latch does not take it back.
pub proof fn lemma_latch_order(held: Seq<Seq<u8>>, a: Seq<u8>, b: Seq<u8>, c: Seq<u8>)
    ensures
        latch_post(true, held, a).1 == Seq::<Seq<u8>>::empty(),
        latch_post(true, latch_post(true, held, a).0, b).1 == Seq::<Seq<u8>>::empty(),
        latch_post(true, latch_post(true, held, a).0, b).0 == held + seq![a, b],
        latch_post(false, held, c).1 == seq![c],
        latch_post(false, held, c).0 == held,
{
    assert(held.push(a).push(b) =~= held + seq![a, b]);
}

} // verus!
