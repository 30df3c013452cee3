//! One attached client: the handshake that decides what it is replayed, and
//! the steady state in which its messages are turned into input for the
//! terminal.

use vstd::prelude::*;
use crate::escape::strip_queries;
use crate::frame::{after_first_message, first_frame, first_message, FrameDecoder};
use crate::messages::{client_action, process_client_message, ClientAction, ClientActionView};
use crate::protocol::WS_MSG_RESUME;
use crate::replay::{
    exit_messages, exit_notice, gzip_fast, handle_resume, replay_sequence, resume_selection,
    send_full_replay,
};
use crate::session::{frame_views, SharedState};

verus! {

/// Where a client stands.
#[derive(Clone, Copy, Debug, PartialEq, Eq, Structural)]
pub enum ClientPhase {
    /// Attached, nothing replayed yet: its first message or the end of the
    /// resume window decides what it gets.
    Handshaking,
    /// Replayed and subscribed to the broadcast.
    Streaming,
    /// Gone.
    Closed,
}

/// The state kept for one client.
pub struct ClientSession {
    pub decoder: FrameDecoder,
    pub phase: ClientPhase,
}

/// What is to be done after a step of a client.
pub struct ClientStep {
    /// Frames to send to this client, in order.
    pub send: Vec<Vec<u8>>,
    /// What its messages ask of the host, in order.
    pub actions: Vec<ClientAction>,
}

/// The views of a list of actions.
pub open spec fn action_views(actions: Seq<ClientAction>) -> Seq<ClientActionView> {
    Seq::new(actions.len(), |k: int| actions[k]@)
}

/// What the complete messages of `pending` ask of the host in the steady
/// state, in order.
pub open spec fn pending_actions(pending: Seq<u8>) -> Seq<ClientActionView>
    decreases pending.len(),
{
    match first_message(pending) {
        Some((kind, body, rest)) => if rest.len() < pending.len() {
            seq![client_action(kind, body)] + pending_actions(rest)
        } else {
            Seq::empty()
        },
        None => Seq::empty(),
    }
}

/// What is left of `pending` once every complete message is taken off.
pub open spec fn drained(pending: Seq<u8>) -> Seq<u8>
    decreases pending.len(),
{
    match first_message(pending) {
        Some((kind, body, rest)) => if rest.len() < pending.len() {
            drained(rest)
        } else {
            pending
        },
        None => after_first_message(pending),
    }
}

/// Whether `frames` are a replay of `selected` followed, if the child is
/// gone, by its exit code. The scrollback is compressed or not, as the
/// compressor and the lengths decide.
pub open spec fn is_replay_of(state: SharedState, frames: Seq<Seq<u8>>, selected: Seq<u8>) -> bool {
    ||| frames == replay_sequence(state, selected, None) + exit_messages(state)
    ||| frames == replay_sequence(state, selected, Some(gzip_fast(strip_queries(selected))))
        + exit_messages(state)
}

/// The bytes that a client is replayed whose first message has type `kind`
/// and body `body`: what a `RESUME` selects, everything for any other
/// message.
pub open spec fn handshake_selection(state: SharedState, kind: u8, body: Seq<u8>) -> Seq<u8> {
    if kind == WS_MSG_RESUME {
        resume_selection(state, body)
    } else {
        state.output_buffer.replay_view()
    }
}

/// A message takes at least its length prefix and its type byte off the
/// pending bytes.
pub proof fn lemma_first_message_shrinks(pending: Seq<u8>)
    ensures
        match first_message(pending) {
            Some((kind, body, rest)) => rest.len() < pending.len() && rest == after_first_message(
                pending,
            ),
            None => after_first_message(pending).len() <= pending.len(),
        },
    decreases pending.len(),
{
    match first_frame(pending) {
        None => {},
        Some((payload, rest)) => {
            if payload.len() == 0 {
                lemma_first_message_shrinks(rest);
            }
        },
    }
}

impl ClientSession {
    /// A client that has just attached.
    pub fn new() -> (client: ClientSession)
        ensures
            client.phase == ClientPhase::Handshaking,
            client.decoder@ == Seq::<u8>::empty(),
    {
        ClientSession { decoder: FrameDecoder::new(), phase: ClientPhase::Handshaking }
    }

    /// Whether broadcast frames go to this client: only once it has been
    /// replayed, so that the replay comes first.
    pub fn forwards_broadcast(&self) -> (yes: bool)
        ensures
            yes == (self.phase == ClientPhase::Streaming),
    {
        match self.phase {
            ClientPhase::Streaming => true,
            _ => false,
        }
    }

    /// Takes every complete message off the decoder and decides what each
    /// asks for.
    fn drain(&mut self, actions: &mut Vec<ClientAction>)
        ensures
            final(self).phase == old(self).phase,
            final(self).decoder@ == drained(old(self).decoder@),
            action_views(final(actions)@) == action_views(old(actions)@) + pending_actions(
                old(self).decoder@,
            ),
    {
        loop
            invariant
                self.phase == old(self).phase,
                drained(self.decoder@) == drained(old(self).decoder@),
                action_views(actions@) + pending_actions(self.decoder@) == action_views(
                    old(actions)@,
                ) + pending_actions(old(self).decoder@),
            decreases self.decoder@.len(),
        {
            let ghost before = self.decoder@;
            let ghost had = actions@;
            proof {
                lemma_first_message_shrinks(before);
            }
            match self.decoder.next_message() {
                None => {
                    proof {
                        lemma_no_message_left(before);
                        assert(action_views(actions@) + Seq::<ClientActionView>::empty()
                            =~= action_views(actions@));
                    }
                    return ;
                },
                Some((kind, body)) => {
                    let action = process_client_message(kind, body.as_slice());
                    actions.push(action);
                    proof {
                        assert(action_views(actions@) =~= action_views(had).push(action@));
                        assert(action_views(had).push(action@) + pending_actions(self.decoder@)
                            =~= action_views(had) + (seq![action@] + pending_actions(
                            self.decoder@,
                        )));
                    }
                },
            }
        }
    }

    /// Takes in bytes read from the client. In the handshake, the first
    /// complete message decides the replay: a `RESUME` is answered with what
    /// the client missed, any other message with a full replay, after which
    /// the message itself is acted on; the client then streams. In the steady
    /// state every complete message is acted on. A closed client is left
    /// alone.
    pub fn receive(&mut self, bytes: &[u8], state: &SharedState) -> (step: ClientStep)
        requires
            state.wf(),
        ensures
            old(self).phase == ClientPhase::Closed ==> *final(self) == *old(self)
                && step.send@.len() == 0 && step.actions@.len() == 0,
            old(self).phase == ClientPhase::Streaming ==> {
                &&& final(self).phase == ClientPhase::Streaming
                &&& final(self).decoder@ == drained(old(self).decoder@ + bytes@)
                &&& step.send@.len() == 0
                &&& action_views(step.actions@) == pending_actions(old(self).decoder@ + bytes@)
            },
            old(self).phase == ClientPhase::Handshaking ==> match first_message(
                old(self).decoder@ + bytes@,
            ) {
                None => {
                    &&& final(self).phase == ClientPhase::Handshaking
                    &&& final(self).decoder@ == after_first_message(old(self).decoder@ + bytes@)
                    &&& step.send@.len() == 0
                    &&& step.actions@.len() == 0
                },
                Some((kind, body, rest)) => {
                    &&& final(self).phase == ClientPhase::Streaming
                    &&& final(self).decoder@ == drained(rest)
                    &&& is_replay_of(
                        *state,
                        frame_views(step.send@),
                        handshake_selection(*state, kind, body),
                    )
                    &&& action_views(step.actions@) == (if kind == WS_MSG_RESUME {
                        Seq::<ClientActionView>::empty()
                    } else {
                        seq![client_action(kind, body)]
                    }) + pending_actions(rest)
                },
            },
    {
        let mut send: Vec<Vec<u8>> = Vec::new();
        let mut actions: Vec<ClientAction> = Vec::new();
        match self.phase {
            ClientPhase::Closed => {},
            ClientPhase::Streaming => {
                self.decoder.feed(bytes);
                self.drain(&mut actions);
                assert(action_views(Seq::<ClientAction>::empty()) + pending_actions(
                    old(self).decoder@ + bytes@,
                ) =~= pending_actions(old(self).decoder@ + bytes@));
            },
            ClientPhase::Handshaking => {
                self.decoder.feed(bytes);
                match self.decoder.next_message() {
                    None => {},
                    Some((kind, body)) => {
                        if kind == WS_MSG_RESUME {
                            send = handle_resume(state, body.as_slice());
                        } else {
                            send = send_full_replay(state);
                            let action = process_client_message(kind, body.as_slice());
                            actions.push(action);
                            assert(action_views(actions@) =~= seq![action@]);
                        }
                        let ghost replayed = frame_views(send@);
                        match exit_notice(state) {
                            Some(frame) => {
                                send.push(frame);
                                assert(frame_views(send@) =~= replayed + seq![frame@]);
                            },
                            None => {
                                assert(frame_views(send@) =~= replayed + Seq::<Seq<u8>>::empty());
                            },
                        }
                        self.phase = ClientPhase::Streaming;
                        let ghost first = action_views(actions@);
                        self.drain(&mut actions);
                        assert(first =~= (if kind == WS_MSG_RESUME {
                            Seq::<ClientActionView>::empty()
                        } else {
                            seq![client_action(kind, body@)]
                        }));
                    },
                }
            },
        }
        ClientStep { send, actions }
    }

    /// The resume window is over. A client that has sent no complete message
    /// yet gets a full replay and streams from then on. For any other client
    /// nothing happens.
    pub fn timer_expired(&mut self, state: &SharedState) -> (send: Vec<Vec<u8>>)
        requires
            state.wf(),
        ensures
            final(self).decoder == old(self).decoder,
            old(self).phase == ClientPhase::Handshaking ==> final(self).phase
                == ClientPhase::Streaming && is_replay_of(
                *state,
                frame_views(send@),
                state.output_buffer.replay_view(),
            ),
            old(self).phase != ClientPhase::Handshaking ==> final(self).phase == old(self).phase
                && send@.len() == 0,
    {
        match self.phase {
            ClientPhase::Handshaking => {
                let mut send = send_full_replay(state);
                let ghost replayed = frame_views(send@);
                match exit_notice(state) {
                    Some(frame) => {
                        send.push(frame);
                        assert(frame_views(send@) =~= replayed + seq![frame@]);
                    },
                    None => {
                        assert(frame_views(send@) =~= replayed + Seq::<Seq<u8>>::empty());
                    },
                }
                self.phase = ClientPhase::Streaming;
                send
            },
            _ => Vec::new(),
        }
    }

    /// The connection is gone: the client is closed, whatever it was doing.
    pub fn disconnect(&mut self)
        ensures
            final(self).phase == ClientPhase::Closed,
            final(self).decoder == old(self).decoder,
    {
        self.phase = ClientPhase::Closed;
    }
}

/// Once no complete message is left, nothing more is drained and nothing is
/// asked for.
proof fn lemma_no_message_left(pending: Seq<u8>)
    requires
        first_message(pending).is_none(),
    ensures
        drained(pending) == after_first_message(pending),
        pending_actions(pending) == Seq::<ClientActionView>::empty(),
{
}

} // verus!
