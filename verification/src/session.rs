//! Session orchestrator logic: drives the framer and the classifier over
//! each raw read of the control channel, collects the outbound control
//! messages in the order their triggering lines arrived, and decides when
//! the session leaves negotiation and hands off to the transfer executor.
//! The caller owns the sockets; it sends what `on_chunk` returns, in order,
//! and stops polling the control channel once a descriptor appears.

use vstd::prelude::*;
use crate::framer::{framer_carry, framer_lines, LineFramer};
use crate::proto::{
    classify, handle_message, join_msg, pong_msg, quit_msg, request_msg, Dcc, DccView, LineClass,
    mode_signal, build_quit,
};

verus! {

/// The two states of the control channel: still negotiating, or done with
/// it and transferring.
pub enum SessionState {
    Negotiating,
    Transferring,
}

/// What one run of lines produces: outbound messages in order, whether the
/// offer request has been issued, and the descriptor that ends negotiation.
pub ghost struct SessionOutcome {
    pub out: Seq<Seq<u8>>,
    pub requested: bool,
    pub transfer: Option<DccView>,
}

/// React to complete lines in order. The offer request is issued at most
/// once per session: a second mode signal is ignored. The first recognized
/// offer ends negotiation: a parting message is queued, and lines after it
/// are not processed.
pub open spec fn react_lines(
    lines: Seq<Seq<u8>>,
    bot: Seq<u8>,
    packnum: nat,
    requested: bool,
) -> SessionOutcome
    decreases lines.len(),
{
    if lines.len() == 0 {
        SessionOutcome { out: Seq::empty(), requested, transfer: None }
    } else {
        match classify(lines.first()) {
            LineClass::Ping { token } => {
                let rest = react_lines(lines.drop_first(), bot, packnum, requested);
                SessionOutcome {
                    out: seq![pong_msg(token)] + rest.out,
                    requested: rest.requested,
                    transfer: rest.transfer,
                }
            },
            LineClass::ModeSignal => {
                if requested {
                    react_lines(lines.drop_first(), bot, packnum, true)
                } else {
                    let rest = react_lines(lines.drop_first(), bot, packnum, true);
                    SessionOutcome {
                        out: seq![join_msg(), request_msg(bot, packnum)] + rest.out,
                        requested: rest.requested,
                        transfer: rest.transfer,
                    }
                }
            },
            LineClass::Offer { d } => SessionOutcome {
                out: seq![quit_msg()],
                requested,
                transfer: Some(d),
            },
            LineClass::Other => react_lines(lines.drop_first(), bot, packnum, requested),
        }
    }
}

spec fn sess_combine(pre: Seq<Seq<u8>>, rest: SessionOutcome) -> SessionOutcome {
    SessionOutcome { out: pre + rest.out, requested: rest.requested, transfer: rest.transfer }
}

/// One line's contribution: the messages it sends, the request flag after
/// it, and the descriptor if it was an offer.
spec fn react_step(line: Seq<u8>, bot: Seq<u8>, packnum: nat, requested: bool) -> (
    Seq<Seq<u8>>,
    bool,
    Option<DccView>,
) {
    match classify(line) {
        LineClass::Ping { token } => (seq![pong_msg(token)], requested, None),
        LineClass::ModeSignal => if requested {
            (Seq::<Seq<u8>>::empty(), true, None)
        } else {
            (seq![join_msg(), request_msg(bot, packnum)], true, None)
        },
        LineClass::Offer { d } => (seq![quit_msg()], requested, Some(d)),
        LineClass::Other => (Seq::<Seq<u8>>::empty(), requested, None),
    }
}

/// Unfolds `react_lines` by one line, phrased over `react_step`.
proof fn lemma_react_lines_step(
    lines: Seq<Seq<u8>>,
    bot: Seq<u8>,
    packnum: nat,
    requested: bool,
)
    requires
        lines.len() > 0,
    ensures
        ({
            let (o, rq, tr) = react_step(lines.first(), bot, packnum, requested);
            react_lines(lines, bot, packnum, requested) == (if tr is Some {
                SessionOutcome { out: o, requested: rq, transfer: tr }
            } else {
                sess_combine(o, react_lines(lines.drop_first(), bot, packnum, rq))
            })
        }),
{
    let (o, rq, tr) = react_step(lines.first(), bot, packnum, requested);
    match classify(lines.first()) {
        LineClass::Ping { token } => {
            assert(react_lines(lines, bot, packnum, requested) == sess_combine(
                o,
                react_lines(lines.drop_first(), bot, packnum, rq),
            ));
        },
        LineClass::ModeSignal => {
            if requested {
                let rest = react_lines(lines.drop_first(), bot, packnum, true);
                assert(Seq::<Seq<u8>>::empty() + rest.out =~= rest.out);
            }
        },
        LineClass::Offer { d } => {},
        LineClass::Other => {
            let rest = react_lines(lines.drop_first(), bot, packnum, requested);
            assert(Seq::<Seq<u8>>::empty() + rest.out =~= rest.out);
        },
    }
}

/// React to one complete line: the messages to send, the request flag
/// afterwards, and the transfer descriptor if the line was an offer.
fn react_one(line: &[u8], bot: &[u8], packnum: usize, requested: bool) -> (r: (
    Vec<Vec<u8>>,
    bool,
    Option<Dcc>,
))
    ensures
        ({
            let (o, rq, tr) = react_step(line@, bot@, packnum as nat, requested);
            &&& r.0.deep_view() == o
            &&& r.1 == rq
            &&& match (r.2, tr) {
                (Some(d), Some(dv)) => d@ == dv,
                (None, None) => true,
                _ => false,
            }
        }),
{
    let reaction = handle_message(line, bot, packnum);
    if let Some(d) = reaction.transfer {
        let mut out: Vec<Vec<u8>> = Vec::new();
        out.push(build_quit());
        proof {
            assert(out.deep_view() =~~= seq![quit_msg()]);
        }
        return (out, requested, Some(d));
    }
    let is_mode = mode_signal(line);
    if is_mode {
        if requested {
            let out: Vec<Vec<u8>> = Vec::new();
            proof {
                assert(out.deep_view() =~~= Seq::<Seq<u8>>::empty());
            }
            (out, true, None)
        } else {
            (reaction.outbound, true, None)
        }
    } else {
        (reaction.outbound, requested, None)
    }
}

/// The outbound messages and the possible transfer descriptor produced by
/// one raw read of the control channel.
pub struct SessionStep {
    pub outbound: Vec<Vec<u8>>,
    pub transfer: Option<Dcc>,
}

/// One download session's control-channel state.
pub struct Session {
    pub framer: LineFramer,
    pub bot: Vec<u8>,
    pub packnum: usize,
    pub requested: bool,
    pub state: SessionState,
}

impl Session {
    pub open spec fn wf(&self) -> bool {
        self.framer.wf()
    }

    pub fn new(bot: Vec<u8>, packnum: usize) -> (r: Session)
        ensures
            r.wf(),
            r.framer@ == Seq::<u8>::empty(),
            r.bot@ == bot@,
            r.packnum == packnum,
            r.requested == false,
            r.state is Negotiating,
    {
        Session {
            framer: LineFramer::new(),
            bot,
            packnum,
            requested: false,
            state: SessionState::Negotiating,
        }
    }

    /// Push one raw read through the framer and react to every completed
    /// line, in order, until the first recognized offer. While already
    /// transferring, the control channel is dead: nothing is read into it
    /// and nothing is sent.
    #[verifier::rlimit(100)]
    #[verifier::loop_isolation(false)]
    pub fn on_chunk(&mut self, chunk: &[u8]) -> (r: SessionStep)
        requires
            old(self).wf(),
        ensures
            final(self).wf(),
            final(self).bot@ == old(self).bot@,
            final(self).packnum == old(self).packnum,
            old(self).state is Transferring ==> *final(self) == *old(self) && r.outbound@.len()
                == 0 && r.transfer is None,
            old(self).state is Negotiating ==> ({
                let oc = react_lines(
                    framer_lines(old(self).framer@, chunk@),
                    old(self).bot@,
                    old(self).packnum as nat,
                    old(self).requested,
                );
                &&& r.outbound.deep_view() == oc.out
                &&& final(self).framer@ == framer_carry(old(self).framer@, chunk@)
                &&& final(self).requested == oc.requested
                &&& match (r.transfer, oc.transfer) {
                    (Some(d), Some(dv)) => d@ == dv,
                    (None, None) => true,
                    _ => false,
                }
                &&& (final(self).state is Transferring <==> oc.transfer is Some)
            }),
    {
        if let SessionState::Transferring = self.state {
            return SessionStep { outbound: Vec::new(), transfer: None };
        }
        let lines = self.framer.feed(chunk);
        let ghost all = lines.deep_view();
        let ghost bot0 = self.bot@;
        let ghost req0 = self.requested;
        let ghost goal = react_lines(all, bot0, self.packnum as nat, req0);
        let mut outbound: Vec<Vec<u8>> = Vec::new();
        proof {
            assert(all.skip(0) =~= all);
            assert(outbound.deep_view() + goal.out =~= goal.out);
        }
        let mut i: usize = 0;
        while i < lines.len()
            invariant
                i <= all.len(),
                lines.deep_view() == all,
                self.bot@ == bot0,
                self.packnum == old(self).packnum,
                self.framer@ == framer_carry(old(self).framer@, chunk@),
                self.framer.wf(),
                self.state is Negotiating,
                goal == sess_combine(
                    outbound.deep_view(),
                    react_lines(all.skip(i as int), bot0, self.packnum as nat, self.requested),
                ),
            decreases all.len() - i,
        {
            let ghost rest = all.skip(i as int);
            let ghost later = all.skip(i + 1);
            proof {
                assert(rest.first() == all[i as int]);
                assert(rest.drop_first() =~= later);
                assert(all[i as int] =~= lines@[i as int]@);
                lemma_react_lines_step(rest, bot0, self.packnum as nat, self.requested);
            }
            let line = &lines[i];
            let req_now = self.requested;
            let (mut msgs, rq, tr) = react_one(
                line.as_slice(),
                self.bot.as_slice(),
                self.packnum,
                req_now,
            );
            let ghost pre = outbound.deep_view();
            let ghost msgs_dv = msgs.deep_view();
            outbound.append(&mut msgs);
            proof {
                assert(outbound.deep_view() =~~= pre + msgs_dv);
            }
            self.requested = rq;
            if let Some(d) = tr {
                // A recognized offer: part from the control channel and
                // hand the descriptor up; later lines go unprocessed.
                self.state = SessionState::Transferring;
                proof {
                    assert(goal.out =~= outbound.deep_view());
                }
                return SessionStep { outbound, transfer: Some(d) };
            }
            proof {
                assert(pre + (msgs_dv + react_lines(
                    later,
                    bot0,
                    self.packnum as nat,
                    rq,
                ).out) =~= (pre + msgs_dv) + react_lines(later, bot0, self.packnum as nat, rq).out);
                assert(goal == sess_combine(
                    outbound.deep_view(),
                    react_lines(later, bot0, self.packnum as nat, self.requested),
                ));
            }
            i = i + 1;
        }
        proof {
            assert(all.skip(all.len() as int) =~= Seq::<Seq<u8>>::empty());
            assert(goal.out =~= outbound.deep_view());
        }
        SessionStep { outbound, transfer: None }
    }
}

/// Frame one outbound control message for the wire: the message bytes
/// followed by carriage return and line feed.
pub fn wire_encode(msg: &[u8]) -> (r: Vec<u8>)
    ensures
        r@ == msg@ + seq![13u8, 10u8],
{
    let mut out: Vec<u8> = Vec::new();
    crate::text::extend_from(&mut out, msg);
    out.push(13);
    out.push(10);
    proof {
        assert(out@ =~= msg@ + seq![13u8, 10u8]);
    }
    out
}

/// The identity line sent immediately upon connecting, before any inbound
/// line is processed.
pub open spec fn user_msg() -> Seq<u8> {
    seq![
        85u8, 83u8, 69u8, 82u8, 32u8, 65u8, 110u8, 105u8, 109u8, 101u8, 70u8, 97u8, 110u8, 52u8,
        50u8, 32u8, 48u8, 32u8, 42u8, 32u8, 65u8, 110u8, 105u8, 109u8, 101u8, 70u8, 97u8, 110u8,
        52u8, 50u8,
    ]
}

/// The nickname line sent right after the identity line.
pub open spec fn nick_msg() -> Seq<u8> {
    seq![78u8, 73u8, 67u8, 75u8, 32u8, 65u8, 110u8, 105u8, 109u8, 101u8, 70u8, 97u8, 110u8, 52u8, 50u8]
}

/// The registration sequence: `USER AnimeFan42 0 * AnimeFan42`, then
/// `NICK AnimeFan42`.
pub fn registration_messages() -> (r: Vec<Vec<u8>>)
    ensures
        r.deep_view() == seq![user_msg(), nick_msg()],
{
    let user: Vec<u8> = vec![
        85, 83, 69, 82, 32, 65, 110, 105, 109, 101, 70, 97, 110, 52, 50, 32, 48, 32, 42, 32, 65,
        110, 105, 109, 101, 70, 97, 110, 52, 50,
    ];
    let nick: Vec<u8> = vec![78, 73, 67, 75, 32, 65, 110, 105, 109, 101, 70, 97, 110, 52, 50];
    proof {
        assert(user@ =~= user_msg());
        assert(nick@ =~= nick_msg());
    }
    let mut r: Vec<Vec<u8>> = Vec::new();
    r.push(user);
    r.push(nick);
    proof {
        assert(r.deep_view() =~~= seq![user_msg(), nick_msg()]);
    }
    r
}

} // verus!
