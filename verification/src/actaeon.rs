//! The interpreter's side of its host: collected output lines, and the
//! pub/sub transport that three operations delegate to.
//!
//! The transport itself is an external collaborator; the interpreter only
//! holds an opaque [`Actaeon`] handle and exchanges plain byte strings with
//! the host. The [`Host`] value models that exchange: lines the interpreter
//! printed, messages the host has queued for delivery, and messages the
//! interpreter asked to send. The embedding host moves data between these
//! queues and the real world; a receive never blocks — it takes the next
//! queued message or reports that none is there.

use crate::lisptype::{LispType, Val};
use std::io::Write;
use vstd::prelude::*;
use vstd::string::StringExecFns;

verus! {

/// The spec-level state of the host: what was printed, what messages wait
/// for the interpreter, and what the interpreter sent.
pub ghost struct HostView {
    pub printed: Seq<Seq<char>>,
    pub inbox: Seq<Seq<char>>,
    pub sent: Seq<Seq<char>>,
}

/// The views of a sequence of strings.
pub open spec fn strs(s: Seq<String>) -> Seq<Seq<char>> {
    Seq::new(s.len(), |i: int| s[i]@)
}

/// The mutable host state an evaluation threads through: printed lines and
/// the transport queues.
#[derive(Debug)]
pub struct Host {
    pub printed: Vec<String>,
    pub inbox: Vec<String>,
    pub sent: Vec<String>,
}

impl View for Host {
    type V = HostView;

    open spec fn view(&self) -> HostView {
        HostView {
            printed: strs(self.printed@),
            inbox: strs(self.inbox@),
            sent: strs(self.sent@),
        }
    }
}

impl Host {
    /// A host with nothing printed, queued or sent.
    pub fn new() -> (h: Host)
        ensures
            h@.printed =~= Seq::<Seq<char>>::empty(),
            h@.inbox =~= Seq::<Seq<char>>::empty(),
            h@.sent =~= Seq::<Seq<char>>::empty(),
    {
        Host { printed: Vec::new(), inbox: Vec::new(), sent: Vec::new() }
    }

    /// Queue a transport message for the interpreter to receive.
    pub fn queue_message(&mut self, m: String)
        ensures
            final(self)@.inbox =~= old(self)@.inbox.push(m@),
            final(self)@.printed == old(self)@.printed,
            final(self)@.sent == old(self)@.sent,
    {
        self.inbox.push(m);
        proof {
            assert(final(self)@.printed =~= old(self)@.printed);
            assert(final(self)@.sent =~= old(self)@.sent);
        }
    }
}

/// Relies on `writeln` to standard output: writes the line and a newline.
#[verifier::external_body]
fn emit_line(s: &str) {
    let _ = writeln!(std::io::stdout(), "{}", s);
}

/// What printing a line does to the host state.
pub open spec fn print_step(h: HostView, m: Seq<char>) -> HostView {
    HostView { printed: h.printed.push(m), ..h }
}

/// Write a line to standard output and record it with the host.
pub(crate) fn print_line(host: &mut Host, s: &str)
    ensures
        final(host)@ == print_step(old(host)@, s@),
{
    emit_line(s);
    host.printed.push(String::from_str(s));
    proof {
        assert(final(host)@.printed =~= print_step(old(host)@, s@).printed);
        assert(final(host)@.inbox =~= old(host)@.inbox);
        assert(final(host)@.sent =~= old(host)@.sent);
        assert(final(host)@ == print_step(old(host)@, s@));
    }
}

/// The spec-level content of a transport handle.
pub ghost struct HandleView {
    pub center: Seq<char>,
    pub remote: Seq<char>,
    pub port: int,
    pub topic: Seq<char>,
}

/// An opaque handle to one pub/sub transport connection. The interpreter
/// never inspects it; it only carries the handle between the operation that
/// opened it and the operations that send or receive on it.
#[derive(Debug)]
pub struct Actaeon {
    pub center: String,
    pub remote: String,
    pub port: usize,
    pub topic: String,
}

impl View for Actaeon {
    type V = HandleView;

    open spec fn view(&self) -> HandleView {
        HandleView {
            center: self.center@,
            remote: self.remote@,
            port: self.port as int,
            topic: self.topic@,
        }
    }
}

/// What a non-blocking receive returns and leaves behind: the next queued
/// message as text, or `Boolean(false)` when none waits.
pub open spec fn receive_step(h: HostView) -> (Val, HostView) {
    if h.inbox.len() > 0 {
        (Val::Text(h.inbox[0]), HostView { inbox: h.inbox.drop_first(), ..h })
    } else {
        (Val::Boolean(false), h)
    }
}

/// What a send returns and leaves behind: the message is handed to the host
/// and the result is `Boolean(true)`.
pub open spec fn send_step(h: HostView, m: Seq<char>) -> (Val, HostView) {
    (Val::Boolean(true), HostView { sent: h.sent.push(m), ..h })
}

impl Actaeon {
    /// Open a connection to the transport and wrap the handle as a value.
    pub fn new(center: &str, remote: &str, port: usize, topic: &str) -> (r: LispType)
        ensures
            r@ == Val::Handle(
                HandleView {
                    center: center@,
                    remote: remote@,
                    port: port as int,
                    topic: topic@,
                },
            ),
    {
        LispType::Actaeon(
            Actaeon {
                center: String::from_str(center),
                remote: String::from_str(remote),
                port,
                topic: String::from_str(topic),
            },
        )
    }

    /// Take the next message the host has queued, without blocking.
    pub fn receive(&self, host: &mut Host) -> (r: LispType)
        ensures
            (r@, final(host)@) == receive_step(old(host)@),
    {
        if host.inbox.len() > 0 {
            let m = host.inbox.remove(0);
            proof {
                assert(final(host)@.inbox =~= receive_step(old(host)@).1.inbox);
                assert(final(host)@.printed =~= old(host)@.printed);
                assert(final(host)@.sent =~= old(host)@.sent);
                assert(final(host)@ == receive_step(old(host)@).1);
            }
            LispType::String(m)
        } else {
            LispType::Bool(false)
        }
    }

    /// Hand a message to the host for broadcast on this handle's topic.
    pub fn send(&self, host: &mut Host, data: &str) -> (r: LispType)
        ensures
            (r@, final(host)@) == send_step(old(host)@, data@),
    {
        host.sent.push(String::from_str(data));
        proof {
            assert(final(host)@.sent =~= send_step(old(host)@, data@).1.sent);
            assert(final(host)@.printed =~= old(host)@.printed);
            assert(final(host)@.inbox =~= old(host)@.inbox);
            assert(final(host)@ == send_step(old(host)@, data@).1);
        }
        LispType::Bool(true)
    }
}

} // verus!
