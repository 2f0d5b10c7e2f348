//! A batch of requests as a state machine: what a batch holds, what can
//! happen to it, and what it answers.
//!
//! A batch is fed what happens, one event at a time: a message of the control
//! connection, the end of that connection, the end of the wait for one
//! request's notice, something on one transfer's data connection, the user's
//! wish to stop. It answers each event with what is to be done.

use vstd::prelude::*;
use crate::dcc::{destination, pack_request_text, send_notice, SendNoticeView};
use crate::irc::{
    ctcp_payload, join_message, nick_message, nick_of, private_message, user_message, wire_line,
    Message, MessageView,
};
use crate::progress::Status;
use crate::search::{Offer, OfferView};
use crate::session::{fresh, Failure, Outcome, ProgressEvent, SessionEvent, SessionView};
use crate::text::ascii;

verus! {


/// An offer that is to be fetched, and the directory it is stored in.
#[derive(Debug, Clone, PartialEq, Eq)]
pub struct TransferRequest {
    /// The offer.
    pub offer: Offer,
    /// The directory in which the file is stored.
    pub destination_dir: Vec<u8>,
}

/// What a `TransferRequest` holds.
pub struct RequestView {
    pub offer: OfferView,
    pub destination_dir: Seq<u8>,
}

impl View for TransferRequest {
    type V = RequestView;

    open spec fn view(&self) -> RequestView {
        RequestView { offer: self.offer@, destination_dir: self.destination_dir@ }
    }
}

impl RequestView {
    /// The path at which the file is stored.
    pub open spec fn path(self) -> Seq<u8> {
        destination(self.destination_dir, self.offer.filename)
    }

    /// The line that asks the bot for the pack.
    pub open spec fn request_line(self) -> Seq<u8> {
        wire_line(private_message(self.offer.bot, pack_request_text(self.offer.pack_number)))
    }
}

/// What each of a list of requests holds.
pub open spec fn request_views(list: Seq<TransferRequest>) -> Seq<RequestView> {
    Seq::new(list.len(), |i: int| list[i]@)
}

/// What happens to a batch.
#[derive(Debug, Clone, PartialEq, Eq)]
pub enum Event {
    /// A message came in over the control connection.
    Message(Message),
    /// The control connection ended.
    Disconnected,
    /// The time allowed for the notice of this request is over.
    RequestTimedOut(usize),
    /// Something happened on the data connection of this request.
    Data(usize, SessionEvent),
    /// The user asked to stop.
    Cancelled,
}

/// What an `Event` holds.
pub enum EventView {
    Message(MessageView),
    Disconnected,
    RequestTimedOut(usize),
    Data(usize, SessionEvent),
    Cancelled,
}

impl View for Event {
    type V = EventView;

    open spec fn view(&self) -> EventView {
        match self {
            Event::Message(m) => EventView::Message(m@),
            Event::Disconnected => EventView::Disconnected,
            Event::RequestTimedOut(i) => EventView::RequestTimedOut(*i),
            Event::Data(i, e) => EventView::Data(*i, *e),
            Event::Cancelled => EventView::Cancelled,
        }
    }
}

/// What is to be done.
#[derive(Debug, Clone, PartialEq, Eq)]
pub enum Action {
    /// Write this line to the control connection.
    Send(Vec<u8>),
    /// Let a moment pass before the next line is written: the bot that it goes
    /// to has just been asked for another pack.
    Pause,
    /// Open the data connection of this request to this address and port, and
    /// store what comes in at this path.
    Connect { request: usize, address: u32, port: u16, path: Vec<u8> },
    /// Close the data connection of this request if it is open. What was
    /// stored of its file is not the file.
    Abandon { request: usize },
    /// Tell the progress channel of this request.
    Progress { request: usize, event: ProgressEvent },
    /// Tell the status channel.
    Report(Status),
}

/// What an `Action` holds.
pub enum ActionView {
    Send(Seq<u8>),
    Pause,
    Connect { request: usize, address: u32, port: u16, path: Seq<u8> },
    Abandon { request: usize },
    Progress { request: usize, event: ProgressEvent },
    Report(Status),
}

impl View for Action {
    type V = ActionView;

    open spec fn view(&self) -> ActionView {
        match self {
            Action::Send(line) => ActionView::Send(line@),
            Action::Pause => ActionView::Pause,
            Action::Connect { request, address, port, path } => ActionView::Connect {
                request: *request,
                address: *address,
                port: *port,
                path: path@,
            },
            Action::Abandon { request } => ActionView::Abandon { request: *request },
            Action::Progress { request, event } => ActionView::Progress {
                request: *request,
                event: *event,
            },
            Action::Report(status) => ActionView::Report(*status),
        }
    }
}

/// What each of a list of actions holds.
pub open spec fn action_views(list: Seq<Action>) -> Seq<ActionView> {
    Seq::new(list.len(), |i: int| list[i]@)
}

/// Where one request of a batch stands.
pub struct SlotView {
    /// The request.
    pub request: RequestView,
    /// The transfer, once the bot has named an address.
    pub session: Option<SessionView>,
    /// How the request ended, once it has.
    pub outcome: Option<Outcome>,
}

impl SlotView {
    /// What holds of every request: a transfer is for the size that was
    /// advertised and has ended as the request has, and without a transfer
    /// there is no success.
    pub open spec fn wf(self) -> bool {
        &&& self.request.offer.size_bytes <= u64::MAX
        &&& match self.session {
            Some(s) => s.wf() && s.expected == self.request.offer.size_bytes && s.outcome
                == self.outcome,
            None => self.outcome != Some(Outcome::Success),
        }
    }

    /// Whether the request still waits for its bot to name an address.
    pub open spec fn waiting(self) -> bool {
        self.session is None && self.outcome is None
    }

    /// Whether the request has ended.
    pub open spec fn done(self) -> bool {
        self.outcome is Some
    }

    /// The bytes that the transfer of the request holds, and 0 without one.
    pub open spec fn received(self) -> nat {
        match self.session {
            Some(s) => s.received,
            None => 0,
        }
    }

    /// The request as it ends without its file.
    pub open spec fn fail(self, failure: Failure) -> SlotView {
        SlotView {
            session: match self.session {
                Some(s) => Some(SessionView { outcome: Some(Outcome::Failed(failure)), ..s }),
                None => None,
            },
            outcome: Some(Outcome::Failed(failure)),
            ..self
        }
    }

    /// What is done when request `i` ends without its file: its progress
    /// channel hears the end, its data connection is given up if it has one,
    /// and the status channel hears of the failure.
    pub open spec fn fail_actions(self, i: usize, failure: Failure) -> Seq<ActionView> {
        let given_up = if self.session is Some {
            seq![ActionView::Abandon { request: i }]
        } else {
            Seq::empty()
        };
        seq![ActionView::Progress { request: i, event: ProgressEvent::End }] + given_up + seq![
            ActionView::Report(Status::Failed(failure)),
        ]
    }

    /// Whether the notice `n` of `sender` answers this request: the request
    /// waits, and bot and file name are the same.
    pub open spec fn answered_by(self, sender: Seq<u8>, n: SendNoticeView) -> bool {
        self.waiting() && self.request.offer.bot == sender && self.request.offer.filename
            == n.filename
    }
}

/// Whether every request has ended.
pub open spec fn all_done(slots: Seq<SlotView>) -> bool {
    forall|i: int| 0 <= i < slots.len() ==> (#[trigger] slots[i]).done()
}

/// Whether an earlier request of the batch is stored at the path of request
/// `i`.
pub open spec fn collides(requests: Seq<RequestView>, i: int) -> bool {
    exists|j: int| 0 <= j < i && (#[trigger] requests[j]).path() == requests[i].path()
}

/// Whether the bot of request `i` is asked for an earlier request of the batch
/// too.
pub open spec fn asked_before(requests: Seq<RequestView>, i: int) -> bool {
    exists|j: int|
        0 <= j < i && !collides(requests, j) && (#[trigger] requests[j]).offer.bot
            == requests[i].offer.bot
}

/// What is done for the first `count` requests when a batch begins. A request
/// that collides with an earlier one ends at once. Every other is sent to its
/// bot, after a pause where that bot has just been asked, and is reported as
/// queued.
pub open spec fn opening(requests: Seq<RequestView>, count: int) -> Seq<ActionView>
    decreases count,
{
    if count <= 0 {
        Seq::empty()
    } else {
        let i = count - 1;
        let pause = if asked_before(requests, i) {
            seq![ActionView::Pause]
        } else {
            Seq::empty()
        };
        let this = if collides(requests, i) {
            seq![
                ActionView::Progress { request: i as usize, event: ProgressEvent::End },
                ActionView::Report(Status::Failed(Failure::Collision)),
            ]
        } else {
            pause + seq![
                ActionView::Send(requests[i].request_line()),
                ActionView::Report(Status::Queued),
            ]
        };
        opening(requests, i) + this
    }
}

/// The notice that the message `m` brings to `nickname`, with the nickname of
/// its sender: a private message to `nickname` whose text is a CTCP message
/// that reads as a notice.
pub open spec fn notice_in(nickname: Seq<u8>, m: MessageView) -> Option<(Seq<u8>, SendNoticeView)> {
    if m.prefix is Some && m.command == ascii("PRIVMSG"@) && m.params.len() == 2 && m.params[0]
        == nickname {
        match ctcp_payload(m.params[1]) {
            Some(payload) => match send_notice(payload) {
                Some(n) => Some((nick_of(m.prefix->0), n)),
                None => None,
            },
            None => None,
        }
    } else {
        None
    }
}

/// The first request at or after `from` that the notice `n` of `sender`
/// answers, or the number of requests where it answers none.
pub open spec fn first_answered(
    slots: Seq<SlotView>,
    sender: Seq<u8>,
    n: SendNoticeView,
    from: int,
) -> int
    decreases slots.len() - from,
{
    if 0 <= from < slots.len() && !slots[from].answered_by(sender, n) {
        first_answered(slots, sender, n, from + 1)
    } else {
        from
    }
}

/// A batch: its requests and where each of them stands.
pub struct BatchView {
    /// The nickname under which this client is known.
    pub nickname: Seq<u8>,
    /// The requests, in the order in which they were made.
    pub slots: Seq<SlotView>,
    /// Whether the status channel has heard its last word.
    pub announced: bool,
}

/// A batch after an event, and what is to be done.
pub struct Step {
    pub state: BatchView,
    pub actions: Seq<ActionView>,
}

impl BatchView {
    /// What holds of every batch: of each request what holds of every
    /// request, and the last word has been said only if every request has
    /// ended.
    pub open spec fn wf(self) -> bool {
        &&& self.slots.len() <= usize::MAX
        &&& forall|i: int| 0 <= i < self.slots.len() ==> (#[trigger] self.slots[i]).wf()
        &&& self.announced ==> all_done(self.slots)
    }

    /// The batch with `slot` in place of request `i`.
    pub open spec fn put(self, i: int, slot: SlotView) -> BatchView {
        BatchView { slots: self.slots.update(i, slot), ..self }
    }

    /// The end of every answer: once every request has ended, the status
    /// channel hears its last word, once.
    pub open spec fn conclude(self, actions: Seq<ActionView>) -> Step {
        if !self.announced && all_done(self.slots) {
            Step {
                state: BatchView { announced: true, ..self },
                actions: actions.push(ActionView::Report(Status::AllFinished)),
            }
        } else {
            Step { state: self, actions }
        }
    }

    /// A batch as it begins, and what is done first: the client registers and
    /// joins the channel, then the requests are dealt with in their order.
    pub open spec fn start(
        nickname: Seq<u8>,
        channel: Seq<u8>,
        requests: Seq<RequestView>,
    ) -> Step {
        let batch = BatchView {
            nickname,
            slots: Seq::new(
                requests.len(),
                |i: int|
                    SlotView {
                        request: requests[i],
                        session: None,
                        outcome: if collides(requests, i) {
                            Some(Outcome::Failed(Failure::Collision))
                        } else {
                            None
                        },
                    },
            ),
            announced: false,
        };
        batch.conclude(
            seq![
                ActionView::Send(wire_line(nick_message(nickname))),
                ActionView::Send(wire_line(user_message(nickname))),
                ActionView::Send(wire_line(join_message(channel))),
            ] + opening(requests, requests.len() as int),
        )
    }

    /// The batch after a message of the control connection. A notice that
    /// answers a request begins its transfer: the first such request in the
    /// order of the batch. Every other message changes nothing.
    pub open spec fn on_message(self, m: MessageView) -> Step {
        match notice_in(self.nickname, m) {
            Some((sender, n)) => {
                let i = first_answered(self.slots, sender, n, 0);
                if i < self.slots.len() {
                    let slot = self.slots[i];
                    let session = fresh(
                        n.address as u32,
                        n.port as u16,
                        slot.request.offer.size_bytes as u64,
                    );
                    self.put(i, SlotView { session: Some(session), ..slot }).conclude(
                        seq![
                            ActionView::Report(Status::Connecting),
                            ActionView::Connect {
                                request: i as usize,
                                address: n.address as u32,
                                port: n.port as u16,
                                path: slot.request.path(),
                            },
                        ],
                    )
                } else {
                    self.conclude(Seq::empty())
                }
            },
            None => self.conclude(Seq::empty()),
        }
    }

    /// The batch after the wait for the notice of request `i` is over. The
    /// request ends if it still waits; else nothing changes.
    pub open spec fn on_timeout(self, i: usize) -> Step {
        if i < self.slots.len() && self.slots[i as int].waiting() {
            let slot = self.slots[i as int];
            self.put(i as int, slot.fail(Failure::RequestTimeout)).conclude(
                slot.fail_actions(i, Failure::RequestTimeout),
            )
        } else {
            self.conclude(Seq::empty())
        }
    }

    /// The batch after something happened on the data connection of request
    /// `i`. The transfer takes the event. Its progress channel hears what the
    /// transfer says; the status channel hears of the first bytes and of the
    /// end. Without a transfer that is under way nothing changes.
    pub open spec fn on_data(self, i: usize, event: SessionEvent) -> Step {
        if i < self.slots.len() && self.slots[i as int].session is Some && !self.slots[i as int].done() {
            let slot = self.slots[i as int];
            let before = slot.session->0;
            let r = before.step(event);
            let started = if before.received == 0 && r.state.received > 0 {
                seq![ActionView::Report(Status::Downloading)]
            } else {
                Seq::empty()
            };
            let progress = Seq::new(
                r.emitted.len(),
                |k: int| ActionView::Progress { request: i, event: r.emitted[k] },
            );
            let ending = match r.state.outcome {
                None => Seq::empty(),
                Some(Outcome::Success) => seq![ActionView::Report(Status::Finished)],
                Some(Outcome::Failed(f)) => seq![
                    ActionView::Abandon { request: i },
                    ActionView::Report(Status::Failed(f)),
                ],
            };
            self.put(
                i as int,
                SlotView { session: Some(r.state), outcome: r.state.outcome, ..slot },
            ).conclude(started + progress + ending)
        } else {
            self.conclude(Seq::empty())
        }
    }

    /// The batch after the first `count` requests were stopped, and what was
    /// done for it. A request that has ended stays as it is. One that waits
    /// ends without its file; one whose transfer is under way does so only if
    /// `active_too` says so.
    pub open spec fn stop(self, failure: Failure, active_too: bool, count: int) -> Step
        decreases count,
    {
        if count <= 0 {
            Step { state: self, actions: Seq::empty() }
        } else {
            let i = count - 1;
            let before = self.stop(failure, active_too, i);
            let slot = before.state.slots[i];
            if slot.done() || (slot.session is Some && !active_too) {
                before
            } else {
                Step {
                    state: before.state.put(i, slot.fail(failure)),
                    actions: before.actions + slot.fail_actions(i as usize, failure),
                }
            }
        }
    }

    /// The batch after the control connection ended: no notice will come, so
    /// every request that waits for one ends. Transfers that are under way go
    /// on.
    pub open spec fn on_disconnect(self) -> Step {
        let stopped = self.stop(Failure::RequestTimeout, false, self.slots.len() as int);
        stopped.state.conclude(stopped.actions)
    }

    /// The batch after the user asked to stop: every request that has not
    /// ended ends without its file.
    pub open spec fn on_cancel(self) -> Step {
        let stopped = self.stop(Failure::Cancelled, true, self.slots.len() as int);
        stopped.state.conclude(stopped.actions)
    }

    /// The batch after `event`, and what is to be done.
    pub open spec fn step(self, event: EventView) -> Step {
        match event {
            EventView::Message(m) => self.on_message(m),
            EventView::Disconnected => self.on_disconnect(),
            EventView::RequestTimedOut(i) => self.on_timeout(i),
            EventView::Data(i, e) => self.on_data(i, e),
            EventView::Cancelled => self.on_cancel(),
        }
    }
}

} // verus!
