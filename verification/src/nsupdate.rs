//! The external updater's command language and the dispatch queue.
//!
//! An [`UpdateMessage`] is an ordered run of delete/add commands for one
//! authoritative server; `finalize` renders it to the line-oriented update
//! protocol (`server` line, command lines, `send` line).  The
//! [`UpdateDispatcher`] is the multi-producer queue in front of the single
//! worker that runs the external updater: messages leave it strictly in
//! arrival order.

use crate::addr::{addr_class, addr_class_text, addr_text, addr_to_string, IpAddress, IpV};
use crate::ffdyndns::{Error, UpdateRequest};
use crate::text::{dec_str, push_dec_u64};
use vstd::prelude::*;

verus! {

/// Record TTL carried in generated `update add` commands, in seconds.
pub const DNSTTL: u64 = 60;

/// One update-protocol command.
pub enum UpdateCommand {
    Delete(String),
    Add(String, IpAddress),
}

/// The spec-level value of a command.
pub enum CmdV {
    Delete(Seq<char>),
    Add(Seq<char>, IpV),
}

impl View for UpdateCommand {
    type V = CmdV;

    open spec fn view(&self) -> CmdV {
        match self {
            UpdateCommand::Delete(d) => CmdV::Delete(d@),
            UpdateCommand::Add(d, a) => CmdV::Add(d@, a@),
        }
    }
}

/// The protocol line a command renders to.
pub open spec fn cmd_text(c: CmdV) -> Seq<char> {
    match c {
        CmdV::Delete(d) => "update delete "@ + d,
        CmdV::Add(d, a) => "update add "@ + d + " "@ + dec_str(DNSTTL as nat) + " "@
            + addr_class_text(a) + " "@ + addr_text(a),
    }
}

impl UpdateCommand {
    /// A delete command for a name.
    pub fn delete(d: &String) -> (r: Self)
        ensures
            r@ == CmdV::Delete(d@),
    {
        UpdateCommand::Delete(d.clone())
    }

    /// An add command for a name and address.
    pub fn add(d: &String, a: IpAddress) -> (r: Self)
        ensures
            r@ == CmdV::Add(d@, a@),
    {
        UpdateCommand::Add(d.clone(), a)
    }

    /// Renders the command to its protocol line.
    pub fn finalize(&self) -> (r: String)
        ensures
            r@ == cmd_text(self@),
    {
        match self {
            UpdateCommand::Delete(d) => {
                let mut s = "update delete ".to_owned();
                s.append(d.as_str());
                proof {
                    assert(s@ =~= cmd_text(CmdV::Delete(d@)));
                }
                s
            },
            UpdateCommand::Add(d, a) => {
                let mut s = "update add ".to_owned();
                s.append(d.as_str());
                s.append(" ");
                push_dec_u64(&mut s, DNSTTL);
                s.append(" ");
                let cls = addr_class(a);
                s.append(cls.as_str());
                s.append(" ");
                let at = addr_to_string(a);
                s.append(at.as_str());
                proof {
                    assert(s@ =~= cmd_text(CmdV::Add(d@, a@)));
                }
                s
            },
        }
    }
}

/// An ordered run of commands for one authoritative update server.
pub struct UpdateMessage {
    pub server: String,
    pub commands: Vec<UpdateCommand>,
}

/// The spec-level value of a message.
#[verifier::ext_equal]
pub struct MsgV {
    pub server: Seq<char>,
    pub commands: Seq<CmdV>,
}

impl View for UpdateMessage {
    type V = MsgV;

    open spec fn view(&self) -> MsgV {
        MsgV {
            server: self.server@,
            commands: Seq::new(self.commands@.len(), |i: int| self.commands@[i]@),
        }
    }
}

/// The command lines of a message, each with its trailing newline.
pub open spec fn cmds_text(cs: Seq<CmdV>) -> Seq<char>
    decreases cs.len(),
{
    if cs.len() == 0 {
        seq![]
    } else {
        cmd_text(cs[0]) + "\n"@ + cmds_text(cs.drop_first())
    }
}

pub proof fn lemma_cmds_text_push(cs: Seq<CmdV>, c: CmdV)
    ensures
        cmds_text(cs.push(c)) == cmds_text(cs) + cmd_text(c) + "\n"@,
    decreases cs.len(),
{
    if cs.len() == 0 {
        assert(cs.push(c).drop_first() =~= cs);
        assert(cmds_text(cs.push(c)) =~= cmds_text(cs) + cmd_text(c) + "\n"@);
    } else {
        assert(cs.push(c).drop_first() =~= cs.drop_first().push(c));
        lemma_cmds_text_push(cs.drop_first(), c);
        assert(cmds_text(cs.push(c)) =~= cmds_text(cs) + cmd_text(c) + "\n"@);
    }
}

/// The full update-protocol text of a message: one `server` line, the
/// command lines in message order, one `send` line, no blank lines.
pub open spec fn message_text(m: MsgV) -> Seq<char> {
    "server "@ + m.server + "\n"@ + cmds_text(m.commands) + "send"@
}

impl UpdateMessage {
    /// An empty message for the given authoritative server.
    pub fn new(server: String) -> (r: Self)
        ensures
            r@.server == server@,
            r@.commands == Seq::<CmdV>::empty(),
    {
        let r = UpdateMessage { server, commands: Vec::new() };
        proof {
            assert(r@.commands =~= Seq::<CmdV>::empty());
        }
        r
    }

    /// The delete-then-add message for an accepted address update:
    /// idempotent under retries, and clean across address-family changes.
    pub fn from_updaterequest(server: String, ur: UpdateRequest) -> (r: Self)
        ensures
            r@.server == server@,
            r@.commands == seq![CmdV::Delete(ur.domain@), CmdV::Add(ur.domain@, ur.addr@)],
    {
        let mut nsup = Self::new(server);
        nsup.add_command(UpdateCommand::delete(&ur.domain));
        nsup.add_command(UpdateCommand::add(&ur.domain, ur.addr));
        proof {
            assert(nsup@.commands =~= seq![
                CmdV::Delete(ur.domain@),
                CmdV::Add(ur.domain@, ur.addr@),
            ]);
        }
        nsup
    }

    /// The delete-only message sent when a record is removed.
    pub fn new_remove_message(server: String, d: String) -> (r: Self)
        ensures
            r@.server == server@,
            r@.commands == seq![CmdV::Delete(d@)],
    {
        let mut nsup = Self::new(server);
        nsup.add_command(UpdateCommand::delete(&d));
        proof {
            assert(nsup@.commands =~= seq![CmdV::Delete(d@)]);
        }
        nsup
    }

    /// Appends one command to the message.
    pub fn add_command(&mut self, cmd: UpdateCommand)
        ensures
            final (self)@.server == old(self)@.server,
            final (self)@.commands == old(self)@.commands.push(cmd@),
    {
        self.commands.push(cmd);
        proof {
            assert(self@.commands =~= old(self)@.commands.push(cmd@));
        }
    }

    /// Renders the whole message to its update-protocol text.
    pub fn finalize(self) -> (r: String)
        ensures
            r@ == message_text(self@),
    {
        let mut out = "server ".to_owned();
        out.append(self.server.as_str());
        out.append("\n");
        let n = self.commands.len();
        let ghost cs = self@.commands;
        let ghost base = out@;
        let mut i: usize = 0;
        while i < n
            invariant
                i <= n,
                n == self.commands@.len(),
                cs == Seq::new(self.commands@.len(), |t: int| self.commands@[t]@),
                out@ == base + cmds_text(cs.take(i as int)),
            decreases n - i,
        {
            let line = self.commands[i].finalize();
            out.append(line.as_str());
            out.append("\n");
            proof {
                assert(cs.take(i + 1) =~= cs.take(i as int).push(cs[i as int]));
                lemma_cmds_text_push(cs.take(i as int), cs[i as int]);
                assert(out@ =~= base + cmds_text(cs.take(i + 1)));
            }
            i = i + 1;
        }
        out.append("send");
        proof {
            assert(cs.take(n as int) =~= cs);
            assert(out@ =~= message_text(MsgV { server: self.server@, commands: cs }));
        }
        out
    }
}

/// The multi-producer queue in front of the dispatcher's single worker.
/// Enqueued messages leave strictly in arrival order; enqueue fails only
/// after the dispatcher has been shut down.
pub struct UpdateDispatcher {
    queue: Vec<UpdateMessage>,
    accepting: bool,
}

impl View for UpdateDispatcher {
    type V = Seq<MsgV>;

    closed spec fn view(&self) -> Seq<MsgV> {
        Seq::new(self.queue@.len(), |i: int| self.queue@[i]@)
    }
}

/// The queue after one message arrives.
pub open spec fn spec_enqueue(q: Seq<MsgV>, m: MsgV) -> Seq<MsgV> {
    q.push(m)
}

/// The queue after the worker takes one message, and the message taken.
pub open spec fn spec_dequeue(q: Seq<MsgV>) -> (Seq<MsgV>, Option<MsgV>) {
    if q.len() == 0 {
        (q, None)
    } else {
        (q.drop_first(), Some(q[0]))
    }
}

impl UpdateDispatcher {
    /// Whether the dispatcher still accepts messages.
    pub closed spec fn is_accepting(&self) -> bool {
        self.accepting
    }

    /// An empty, accepting dispatcher.
    pub fn new() -> (r: UpdateDispatcher)
        ensures
            r@ == Seq::<MsgV>::empty(),
            r.is_accepting(),
    {
        let r = UpdateDispatcher { queue: Vec::new(), accepting: true };
        proof {
            assert(r@ =~= Seq::<MsgV>::empty());
        }
        r
    }

    /// Number of queued messages.
    pub fn len(&self) -> (r: usize)
        ensures
            r == self@.len(),
    {
        self.queue.len()
    }

    /// Appends a message; never blocks, and fails only when the
    /// dispatcher has been shut down, leaving the queue unchanged then.
    pub fn enqueue(&mut self, m: UpdateMessage) -> (r: Result<(), Error>)
        ensures
            final (self).is_accepting() == old(self).is_accepting(),
            match r {
                Ok(_) => old(self).is_accepting() && final (self)@ == spec_enqueue(
                    old(self)@,
                    m@,
                ),
                Err(e) => !old(self).is_accepting() && e is PropagationFailed && final (self)@
                    == old(self)@,
            },
    {
        if !self.accepting {
            return Err(Error::PropagationFailed);
        }
        self.queue.push(m);
        proof {
            assert(self@ =~= spec_enqueue(old(self)@, m@));
        }
        Ok(())
    }

    /// Takes the oldest queued message, if any.
    pub fn dequeue(&mut self) -> (r: Option<UpdateMessage>)
        ensures
            final (self).is_accepting() == old(self).is_accepting(),
            old(self)@.len() == 0 ==> r is None && final (self)@ == old(self)@,
            old(self)@.len() > 0 ==> (r matches Some(m) && m@ == old(self)@[0] && final (self)@
                == spec_dequeue(old(self)@).0),
    {
        if self.queue.len() == 0 {
            proof {
                assert(self@ =~= old(self)@);
            }
            return None;
        }
        let m = self.queue.remove(0);
        proof {
            assert(self@ =~= old(self)@.drop_first());
        }
        Some(m)
    }

    /// Stops accepting messages; what is queued stays queued.
    pub fn shutdown(&mut self)
        ensures
            !final (self).is_accepting(),
            final (self)@ == old(self)@,
    {
        self.accepting = false;
        proof {
            assert(self@ =~= old(self)@);
        }
    }
}

/// The dispatcher serves strictly first-in, first-out: enqueuing `m1` and
/// then `m2` onto any queue appends them in that order, and from an empty
/// queue the worker takes `m1` before `m2`, whoever submitted each.
pub proof fn lemma_dispatcher_fifo(q: Seq<MsgV>, m1: MsgV, m2: MsgV)
    ensures
        spec_enqueue(spec_enqueue(q, m1), m2) == q + seq![m1, m2],
        ({
            let q2 = spec_enqueue(spec_enqueue(Seq::<MsgV>::empty(), m1), m2);
            let (q3, r1) = spec_dequeue(q2);
            let (q4, r2) = spec_dequeue(q3);
            r1 == Some(m1) && r2 == Some(m2) && q4.len() == 0
        }),
{
    assert(spec_enqueue(spec_enqueue(q, m1), m2) =~= q + seq![m1, m2]);
    let q2 = spec_enqueue(spec_enqueue(Seq::<MsgV>::empty(), m1), m2);
    assert(q2.len() == 2 && q2[0] == m1 && q2[1] == m2);
    let (q3, r1) = spec_dequeue(q2);
    assert(q3 =~= seq![m2]);
    let (q4, r2) = spec_dequeue(q3);
    assert(q4.len() == 0);
}

} // verus!
