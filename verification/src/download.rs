//! The download of a batch: the orchestrator that holds a batch and takes
//! its events.
//!
//! The orchestrator holds no socket and no file, and it never waits. The
//! program around it opens the connections, hands it what happens on them,
//! and carries out what it answers.

use vstd::prelude::*;
use vstd::slice::slice_to_vec;
use crate::batch::{
    action_views, all_done, asked_before, collides, first_answered, notice_in, opening,
    request_views, Action, ActionView, BatchView, Event, RequestView, SlotView, TransferRequest,
};
use crate::batch_laws::{lemma_first_answered, lemma_start, lemma_step_keeps_wf, lemma_stop};
use crate::dcc::{destination_path, pack_request, parse_send, SendNotice};
use crate::irc::{
    join, join_message, nick_message, read_ctcp, registration, send_private_message, sender_nick,
    user_message, views, wire_line, Message,
};
use crate::progress::Status;
use crate::session::{
    Failure, Outcome, ProgressEvent, SessionEvent, SessionView, TransferSession,
};
use crate::text::{ascii_bytes, bytes_eq};

verus! {

/// How many seconds a request waits for its bot to name an address.
pub const NOTICE_TIMEOUT_SECONDS: u64 = 60;

/// How many milliseconds pass before a bot is asked for another pack.
pub const PAUSE_MILLISECONDS: u64 = 1500;

/// Where one request stands.
struct SlotState {
    session: Option<TransferSession>,
    outcome: Option<Outcome>,
}

impl SlotState {
    spec fn session_view(&self) -> Option<SessionView> {
        match self.session {
            Some(s) => Some(s@),
            None => None,
        }
    }

    spec fn slot(&self, request: RequestView) -> SlotView {
        SlotView { request, session: self.session_view(), outcome: self.outcome }
    }
}

/// The download of a batch of requests.
pub struct Orchestrator {
    nickname: Vec<u8>,
    requests: Vec<TransferRequest>,
    paths: Vec<Vec<u8>>,
    states: Vec<SlotState>,
    announced: bool,
}

impl View for Orchestrator {
    type V = BatchView;

    closed spec fn view(&self) -> BatchView {
        BatchView {
            nickname: self.nickname@,
            slots: Seq::new(
                self.requests.len() as nat,
                |i: int| self.states[i].slot(self.requests[i]@),
            ),
            announced: self.announced,
        }
    }
}

/// Puts `next` in the place of the state at `i`.
fn put_state(states: &mut Vec<SlotState>, i: usize, next: SlotState)
    requires
        i < old(states).len(),
    ensures
        final(states)@ == old(states)@.update(i as int, next),
    no_unwind
{
    states[i] = next;
}

/// Whether an earlier one of `paths` is the same as the one at `i`.
fn taken_before(paths: &Vec<Vec<u8>>, i: usize) -> (r: bool)
    requires
        i < paths.len(),
    ensures
        r == exists|j: int| 0 <= j < i && (#[trigger] paths[j])@ == paths[i as int]@,
{
    let mut j: usize = 0;
    while j < i
        invariant
            0 <= j <= i < paths.len(),
            forall|k: int| 0 <= k < j ==> (#[trigger] paths[k])@ != paths[i as int]@,
        decreases i - j,
    {
        if bytes_eq(paths[j].as_slice(), paths[i].as_slice()) {
            return true;
        }
        j += 1;
    }
    false
}

/// Whether the bot of request `i` is asked for an earlier request too.
fn bot_asked_before(requests: &Vec<TransferRequest>, collided: &Vec<bool>, i: usize) -> (r: bool)
    requires
        i < requests.len(),
        collided.len() == i,
        forall|k: int| 0 <= k < i ==> #[trigger] collided[k] == collides(request_views(requests@), k),
    ensures
        r == asked_before(request_views(requests@), i as int),
{
    let ghost wanted = request_views(requests@);
    let mut j: usize = 0;
    while j < i
        invariant
            0 <= j <= i < requests.len(),
            collided.len() == i,
            wanted == request_views(requests@),
            forall|k: int| 0 <= k < i ==> #[trigger] collided[k] == collides(wanted, k),
            forall|k: int|
                0 <= k < j ==> !(!collides(wanted, k) && (#[trigger] wanted[k]).offer.bot
                    == wanted[i as int].offer.bot),
        decreases i - j,
    {
        if !collided[j] && bytes_eq(requests[j].offer.bot.as_slice(), requests[i].offer.bot.as_slice()) {
            assert(!collides(wanted, j as int) && wanted[j as int].offer.bot == wanted[i as int].offer.bot);
            return true;
        }
        j += 1;
    }
    false
}

impl Orchestrator {
    #[verifier::type_invariant]
    spec fn inv(&self) -> bool {
        &&& self.requests.len() == self.paths.len()
        &&& self.requests.len() == self.states.len()
        &&& forall|i: int|
            0 <= i < self.paths.len() ==> (#[trigger] self.paths[i])@ == self.requests[i]@.path()
        &&& forall|i: int|
            0 <= i < self.states.len() ==> (#[trigger] self.states[i]).slot(self.requests[i]@).wf()
        &&& self.announced ==> forall|i: int|
            0 <= i < self.states.len() ==> (#[trigger] self.states[i]).outcome is Some
    }

    /// A batch that is held is in order.
    proof fn lemma_inv(&self)
        requires
            self.inv(),
        ensures
            self@.wf(),
            self@.slots.len() == self.states.len(),
            forall|i: int|
                0 <= i < self.states.len() ==> #[trigger] self@.slots[i] == self.states[i].slot(
                    self.requests[i]@,
                ),
    {
        assert forall|i: int| 0 <= i < self@.slots.len() implies (#[trigger] self@.slots[i]).wf() by {
            assert(self@.slots[i] == self.states[i].slot(self.requests[i]@));
        }
        if self.announced {
            assert forall|i: int| 0 <= i < self@.slots.len() implies (#[trigger] self@.slots[i]).done() by {
                assert(self.states[i].outcome is Some);
            }
        }
    }

    /// Begins the download of `requests` for the client `nickname` on
    /// `channel`, and says what is to be done first.
    pub fn new(nickname: &[u8], channel: &[u8], requests: Vec<TransferRequest>) -> (r: (
        Orchestrator,
        Vec<Action>,
    ))
        ensures
            r.0@ == BatchView::start(nickname@, channel@, request_views(requests@)).state,
            action_views(r.1@) == BatchView::start(
                nickname@,
                channel@,
                request_views(requests@),
            ).actions,
            r.0@.wf(),
    {
        let ghost wanted = request_views(requests@);
        let count: usize = requests.len();
        let mut paths: Vec<Vec<u8>> = Vec::new();
        let mut i: usize = 0;
        while i < count
            invariant
                0 <= i <= count,
                count == requests.len(),
                wanted == request_views(requests@),
                paths.len() == i,
                forall|k: int| 0 <= k < i ==> (#[trigger] paths[k])@ == wanted[k].path(),
            decreases count - i,
        {
            let path = destination_path(
                requests[i].destination_dir.as_slice(),
                requests[i].offer.filename.as_slice(),
            );
            paths.push(path);
            i += 1;
        }
        let mut collided: Vec<bool> = Vec::new();
        let mut states: Vec<SlotState> = Vec::new();
        let mut actions: Vec<Action> = Vec::new();
        let opening_lines = registration(nickname);
        actions.push(Action::Send(slice_to_vec(opening_lines[0].as_slice())));
        actions.push(Action::Send(slice_to_vec(opening_lines[1].as_slice())));
        actions.push(Action::Send(join(channel)));
        let ghost first = seq![
            ActionView::Send(wire_line(nick_message(nickname@))),
            ActionView::Send(wire_line(user_message(nickname@))),
            ActionView::Send(wire_line(join_message(channel@))),
        ];
        proof {
            assert(views(opening_lines@)[0] == opening_lines[0]@);
            assert(views(opening_lines@)[1] == opening_lines[1]@);
            assert(action_views(actions@) == first + opening(wanted, 0));
        }
        i = 0;
        while i < count
            invariant
                0 <= i <= count,
                count == requests.len(),
                count == paths.len(),
                wanted == request_views(requests@),
                forall|k: int| 0 <= k < count ==> (#[trigger] paths[k])@ == wanted[k].path(),
                collided.len() == i,
                states.len() == i,
                forall|k: int| 0 <= k < i ==> #[trigger] collided[k] == collides(wanted, k),
                forall|k: int|
                    0 <= k < i ==> (#[trigger] states[k]).session is None && states[k].outcome == if collides(
                        wanted,
                        k,
                    ) {
                        Some(Outcome::Failed(Failure::Collision))
                    } else {
                        None
                    },
                action_views(actions@) == first + opening(wanted, i as int),
            decreases count - i,
        {
            let taken: bool = taken_before(&paths, i);
            proof {
                if taken {
                    let j = choose|j: int| 0 <= j < i && (#[trigger] paths[j])@ == paths[i as int]@;
                    assert(wanted[j].path() == wanted[i as int].path());
                }
                if collides(wanted, i as int) {
                    let j = choose|j: int|
                        0 <= j < i && (#[trigger] wanted[j]).path() == wanted[i as int].path();
                    assert(paths[j]@ == paths[i as int]@);
                }
                assert(taken == collides(wanted, i as int));
            }
            let ghost before = action_views(actions@);
            if taken {
                states.push(
                    SlotState { session: None, outcome: Some(Outcome::Failed(Failure::Collision)) },
                );
                actions.push(Action::Progress { request: i, event: ProgressEvent::End });
                actions.push(Action::Report(Status::Failed(Failure::Collision)));
                proof {
                    assert(action_views(actions@) == before + seq![
                        ActionView::Progress { request: i, event: ProgressEvent::End },
                        ActionView::Report(Status::Failed(Failure::Collision)),
                    ]);
                }
            } else {
                states.push(SlotState { session: None, outcome: None });
                let asked: bool = bot_asked_before(&requests, &collided, i);
                if asked {
                    actions.push(Action::Pause);
                }
                let text = pack_request(requests[i].offer.pack_number);
                let line = send_private_message(requests[i].offer.bot.as_slice(), text.as_slice());
                actions.push(Action::Send(line));
                actions.push(Action::Report(Status::Queued));
                proof {
                    let pause = if asked_before(wanted, i as int) {
                        seq![ActionView::Pause]
                    } else {
                        Seq::empty()
                    };
                    assert(line@ == wanted[i as int].request_line());
                    assert(action_views(actions@) == before + (pause + seq![
                        ActionView::Send(wanted[i as int].request_line()),
                        ActionView::Report(Status::Queued),
                    ]));
                }
            }
            collided.push(taken);
            i += 1;
        }
        let mut batch = Orchestrator {
            nickname: slice_to_vec(nickname),
            requests,
            paths,
            states,
            announced: false,
        };
        proof {
            let start = BatchView {
                nickname: nickname@,
                slots: Seq::new(
                    wanted.len(),
                    |i: int|
                        SlotView {
                            request: wanted[i],
                            session: None,
                            outcome: if collides(wanted, i) {
                                Some(Outcome::Failed(Failure::Collision))
                            } else {
                                None
                            },
                        },
                ),
                announced: false,
            };
            assert(batch@.slots == start.slots);
            assert(batch@ == start);
        }
        batch.conclude(&mut actions);
        proof {
            lemma_start(nickname@, channel@, wanted);
        }
        (batch, actions)
    }

    /// How many requests the batch holds.
    pub fn len(&self) -> (r: usize)
        ensures
            r == self@.slots.len(),
            self@.wf(),
    {
        proof {
            use_type_invariant(self);
            self.lemma_inv();
        }
        self.requests.len()
    }

    /// The request with the number `i`.
    pub fn request(&self, i: usize) -> (r: Option<&TransferRequest>)
        ensures
            i < self@.slots.len() ==> (r matches Some(x) && x@ == self@.slots[i as int].request),
            i >= self@.slots.len() ==> r is None,
    {
        if i < self.requests.len() {
            Some(&self.requests[i])
        } else {
            None
        }
    }

    /// The path at which the file of request `i` is stored.
    pub fn path(&self, i: usize) -> (r: Option<Vec<u8>>)
        ensures
            i < self@.slots.len() ==> (r matches Some(x) && x@ == self@.slots[i as int].request.path()),
            i >= self@.slots.len() ==> r is None,
    {
        proof {
            use_type_invariant(self);
            self.lemma_inv();
        }
        if i < self.paths.len() {
            Some(slice_to_vec(self.paths[i].as_slice()))
        } else {
            None
        }
    }

    /// How request `i` ended, if it has.
    pub fn outcome(&self, i: usize) -> (r: Option<Outcome>)
        ensures
            i < self@.slots.len() ==> r == self@.slots[i as int].outcome,
            i >= self@.slots.len() ==> r is None,
    {
        proof {
            use_type_invariant(self);
            self.lemma_inv();
        }
        if i < self.states.len() {
            self.states[i].outcome
        } else {
            None
        }
    }

    /// The transfer of request `i`, once its bot has named an address.
    pub fn session(&self, i: usize) -> (r: Option<TransferSession>)
        ensures
            i < self@.slots.len() ==> match self@.slots[i as int].session {
                Some(t) => r matches Some(x) && x@ == t,
                None => r is None,
            },
            i >= self@.slots.len() ==> r is None,
    {
        proof {
            use_type_invariant(self);
            self.lemma_inv();
        }
        if i < self.states.len() {
            match &self.states[i].session {
                Some(t) => Some(t.clone()),
                None => None,
            }
        } else {
            None
        }
    }

    /// Whether every request has ended and the status channel has heard its
    /// last word.
    pub fn is_finished(&self) -> (r: bool)
        ensures
            r == self@.announced,
    {
        self.announced
    }

    /// The notice that `m` brings to this client, with the nickname of its
    /// sender.
    fn read_notice(&self, m: &Message) -> (r: Option<(Vec<u8>, SendNotice)>)
        ensures
            match notice_in(self@.nickname, m@) {
                Some((sender, n)) => r matches Some(x) && x.0@ == sender && x.1@ == n,
                None => r is None,
            },
    {
        proof {
            reveal_strlit("PRIVMSG");
        }
        let prefix: &Vec<u8> = match &m.prefix {
            Some(p) => p,
            None => {
                return None;
            },
        };
        if !(bytes_eq(m.command.as_slice(), ascii_bytes("PRIVMSG")) && m.params.len() == 2 && bytes_eq(
            m.params[0].as_slice(),
            self.nickname.as_slice(),
        )) {
            return None;
        }
        let payload: Vec<u8> = match read_ctcp(m.params[1].as_slice()) {
            Some(payload) => payload,
            None => {
                return None;
            },
        };
        match parse_send(payload.as_slice()) {
            Some(n) => Some((sender_nick(prefix.as_slice()), n)),
            None => None,
        }
    }

    /// The first request that the notice `n` of `sender` answers, or the
    /// number of requests.
    fn find_request(&self, sender: &Vec<u8>, n: &SendNotice) -> (r: usize)
        ensures
            r == first_answered(self@.slots, sender@, n@, 0),
            r <= self@.slots.len(),
    {
        proof {
            use_type_invariant(self);
            self.lemma_inv();
        }
        let mut i: usize = 0;
        while i < self.requests.len()
            invariant
                0 <= i <= self.requests.len(),
                self.requests.len() == self.states.len(),
                first_answered(self@.slots, sender@, n@, 0) == first_answered(
                    self@.slots,
                    sender@,
                    n@,
                    i as int,
                ),
            decreases self.requests.len() - i,
        {
            let state = &self.states[i];
            let offer = &self.requests[i].offer;
            if state.session.is_none() && state.outcome.is_none() && bytes_eq(
                offer.bot.as_slice(),
                sender.as_slice(),
            ) && bytes_eq(offer.filename.as_slice(), n.filename.as_slice()) {
                assert(self@.slots[i as int].answered_by(sender@, n@));
                return i;
            }
            assert(!self@.slots[i as int].answered_by(sender@, n@));
            i += 1;
        }
        i
    }

    /// Takes a message of the control connection.
    fn on_message(&mut self, m: &Message) -> (actions: Vec<Action>)
        ensures
            final(self)@ == old(self)@.on_message(m@).state,
            action_views(actions@) == old(self)@.on_message(m@).actions,
    {
        proof {
            use_type_invariant(&*self);
            self.lemma_inv();
        }
        let mut actions: Vec<Action> = Vec::new();
        match self.read_notice(m) {
            Some((sender, n)) => {
                let i: usize = self.find_request(&sender, &n);
                if i < self.states.len() {
                    proof {
                        lemma_first_answered(self@.slots, sender@, n@, 0);
                    }
                    let ghost slot = self@.slots[i as int];
                    let session = TransferSession::open(
                        n.address,
                        n.port,
                        self.requests[i].offer.size_bytes,
                    );
                    let path = slice_to_vec(self.paths[i].as_slice());
                    let ghost begun = session@;
                    let next = SlotState { session: Some(session), outcome: None };
                    proof {
                        assert(self@.slots[i as int].waiting());
                        assert(self.states[i as int].outcome is None);
                        assert(!self.announced);
                        assert(next.slot(self.requests[i as int]@).wf());
                    }
                    put_state(&mut self.states, i, next);
                    actions.push(Action::Report(Status::Connecting));
                    actions.push(
                        Action::Connect { request: i, address: n.address, port: n.port, path },
                    );
                    proof {
                        assert(self@.slots == old(self)@.put(
                            i as int,
                            SlotView { session: Some(begun), ..slot },
                        ).slots);
                        assert(action_views(actions@) == seq![
                            ActionView::Report(Status::Connecting),
                            ActionView::Connect {
                                request: i,
                                address: n.address,
                                port: n.port,
                                path: slot.request.path(),
                            },
                        ]);
                    }
                }
            },
            None => {},
        }
        assert(action_views(actions@).len() == 0 ==> action_views(actions@) == Seq::<
            ActionView,
        >::empty());
        self.conclude(&mut actions);
        actions
    }

    /// Ends request `i` without its file, and adds to `actions` what is done
    /// for it. A transfer that is under way can only end so at the user's wish.
    fn fail(&mut self, i: usize, failure: Failure, actions: &mut Vec<Action>)
        requires
            i < old(self)@.slots.len(),
            !old(self)@.slots[i as int].done(),
            old(self)@.slots[i as int].session is Some ==> failure == Failure::Cancelled,
        ensures
            final(self)@ == old(self)@.put(i as int, old(self)@.slots[i as int].fail(failure)),
            action_views(final(actions)@) == action_views(old(actions)@) + old(
                self,
            )@.slots[i as int].fail_actions(i, failure),
    {
        proof {
            use_type_invariant(&*self);
            self.lemma_inv();
        }
        let ghost slot = self@.slots[i as int];
        let ghost before = action_views(actions@);
        actions.push(Action::Progress { request: i, event: ProgressEvent::End });
        let session: Option<TransferSession> = match &self.states[i].session {
            Some(t) => {
                let mut ended = t.clone();
                let _ = ended.step(SessionEvent::Cancelled);
                actions.push(Action::Abandon { request: i });
                Some(ended)
            },
            None => None,
        };
        actions.push(Action::Report(Status::Failed(failure)));
        let next = SlotState { session, outcome: Some(Outcome::Failed(failure)) };
        proof {
            assert(next.slot(self.requests[i as int]@) == slot.fail(failure));
            assert(slot.fail(failure).wf());
            assert(action_views(actions@) == before + slot.fail_actions(i, failure));
        }
        put_state(&mut self.states, i, next);
        proof {
            assert(self@.slots == old(self)@.put(i as int, slot.fail(failure)).slots);
        }
    }

    /// Takes the end of the wait for the notice of request `i`.
    fn on_timeout(&mut self, i: usize) -> (actions: Vec<Action>)
        ensures
            final(self)@ == old(self)@.on_timeout(i).state,
            action_views(actions@) == old(self)@.on_timeout(i).actions,
    {
        proof {
            use_type_invariant(&*self);
            self.lemma_inv();
        }
        let mut actions: Vec<Action> = Vec::new();
        if i < self.states.len() && self.states[i].session.is_none() && self.states[i].outcome.is_none() {
            self.fail(i, Failure::RequestTimeout, &mut actions);
            proof {
                let slot = old(self)@.slots[i as int];
                assert(Seq::<ActionView>::empty() + slot.fail_actions(i, Failure::RequestTimeout)
                    == slot.fail_actions(i, Failure::RequestTimeout));
            }
        }
        self.conclude(&mut actions);
        actions
    }

    /// Takes something that happened on the data connection of request `i`.
    fn on_data(&mut self, i: usize, event: SessionEvent) -> (actions: Vec<Action>)
        ensures
            final(self)@ == old(self)@.on_data(i, event).state,
            action_views(actions@) == old(self)@.on_data(i, event).actions,
    {
        proof {
            use_type_invariant(&*self);
            self.lemma_inv();
        }
        let mut actions: Vec<Action> = Vec::new();
        if i < self.states.len() && self.states[i].session.is_some() && self.states[i].outcome.is_none() {
            let ghost slot = self@.slots[i as int];
            let mut session: TransferSession = match &self.states[i].session {
                Some(t) => t.clone(),
                None => TransferSession::open(0, 0, 0),
            };
            let ghost before = session@;
            let ghost run = before.step(event);
            let had: u64 = session.received();
            let emitted = session.step(event);
            let has: u64 = session.received();
            let outcome: Option<Outcome> = session.outcome();
            if had == 0 && has > 0 {
                actions.push(Action::Report(Status::Downloading));
            }
            let ghost started = action_views(actions@);
            let mut k: usize = 0;
            while k < emitted.len()
                invariant
                    0 <= k <= emitted.len(),
                    emitted@ == run.emitted,
                    action_views(actions@) == started + Seq::new(
                        k as nat,
                        |t: int| ActionView::Progress { request: i, event: run.emitted[t] },
                    ),
                decreases emitted.len() - k,
            {
                let ghost told = action_views(actions@);
                actions.push(Action::Progress { request: i, event: emitted[k] });
                proof {
                    let next = ActionView::Progress { request: i, event: run.emitted[k as int] };
                    assert(action_views(actions@) == told.push(next));
                    assert(Seq::new(
                        (k + 1) as nat,
                        |t: int| ActionView::Progress { request: i, event: run.emitted[t] },
                    ) == Seq::new(
                        k as nat,
                        |t: int| ActionView::Progress { request: i, event: run.emitted[t] },
                    ).push(next));
                }
                k += 1;
            }
            let ghost progress = Seq::new(
                run.emitted.len(),
                |t: int| ActionView::Progress { request: i, event: run.emitted[t] },
            );
            let ghost reported = action_views(actions@);
            match outcome {
                None => {},
                Some(Outcome::Success) => {
                    actions.push(Action::Report(Status::Finished));
                },
                Some(Outcome::Failed(f)) => {
                    actions.push(Action::Abandon { request: i });
                    actions.push(Action::Report(Status::Failed(f)));
                },
            }
            let next = SlotState { session: Some(session), outcome };
            proof {
                let ending = match run.state.outcome {
                    None => Seq::empty(),
                    Some(Outcome::Success) => seq![ActionView::Report(Status::Finished)],
                    Some(Outcome::Failed(f)) => seq![
                        ActionView::Abandon { request: i },
                        ActionView::Report(Status::Failed(f)),
                    ],
                };
                assert(reported == started + progress);
                assert(action_views(actions@) == reported + ending);
                assert(next.slot(self.requests[i as int]@) == (SlotView {
                    session: Some(run.state),
                    outcome: run.state.outcome,
                    ..slot
                }));
                assert(next.slot(self.requests[i as int]@).wf());
            }
            put_state(&mut self.states, i, next);
            proof {
                assert(self@.slots == old(self)@.put(
                    i as int,
                    SlotView { session: Some(run.state), outcome: run.state.outcome, ..slot },
                ).slots);
            }
        }
        self.conclude(&mut actions);
        actions
    }

    /// Ends every request that waits and, if `active_too` says so, every
    /// request whose transfer is under way.
    fn stop(&mut self, failure: Failure, active_too: bool) -> (actions: Vec<Action>)
        requires
            active_too ==> failure == Failure::Cancelled,
        ensures
            final(self)@ == old(self)@.stop(
                failure,
                active_too,
                old(self)@.slots.len() as int,
            ).state,
            action_views(actions@) == old(self)@.stop(
                failure,
                active_too,
                old(self)@.slots.len() as int,
            ).actions,
    {
        proof {
            use_type_invariant(&*self);
            self.lemma_inv();
        }
        let mut actions: Vec<Action> = Vec::new();
        let count: usize = self.states.len();
        let mut i: usize = 0;
        while i < count
            invariant
                0 <= i <= count,
                count == old(self)@.slots.len(),
                old(self)@.wf(),
                active_too ==> failure == Failure::Cancelled,
                self@ == old(self)@.stop(failure, active_too, i as int).state,
                action_views(actions@) == old(self)@.stop(failure, active_too, i as int).actions,
            decreases count - i,
        {
            proof {
                use_type_invariant(&*self);
                self.lemma_inv();
                lemma_stop(old(self)@, failure, active_too, i as int);
            }
            let ended: bool = self.states[i].outcome.is_some();
            let active: bool = self.states[i].session.is_some();
            if !(ended || (active && !active_too)) {
                self.fail(i, failure, &mut actions);
            }
            i += 1;
        }
        actions
    }

    /// Takes one event, and says what is to be done.
    pub fn step(&mut self, event: &Event) -> (actions: Vec<Action>)
        ensures
            final(self)@ == old(self)@.step(event@).state,
            action_views(actions@) == old(self)@.step(event@).actions,
            old(self)@.wf(),
            final(self)@.wf(),
    {
        proof {
            use_type_invariant(&*self);
            self.lemma_inv();
            lemma_step_keeps_wf(self@, event@);
        }
        match event {
            Event::Message(m) => self.on_message(m),
            Event::Disconnected => {
                let mut actions = self.stop(Failure::RequestTimeout, false);
                self.conclude(&mut actions);
                actions
            },
            Event::RequestTimedOut(i) => self.on_timeout(*i),
            Event::Data(i, e) => self.on_data(*i, *e),
            Event::Cancelled => {
                let mut actions = self.stop(Failure::Cancelled, true);
                self.conclude(&mut actions);
                actions
            },
        }
    }

    /// Whether every request has ended.
    fn every_done(&self) -> (r: bool)
        ensures
            r == all_done(self@.slots),
    {
        proof {
            use_type_invariant(self);
            self.lemma_inv();
        }
        let mut i: usize = 0;
        while i < self.states.len()
            invariant
                0 <= i <= self.states.len(),
                self.states.len() == self.requests.len(),
                forall|k: int| 0 <= k < i ==> (#[trigger] self@.slots[k]).done(),
            decreases self.states.len() - i,
        {
            if self.states[i].outcome.is_none() {
                assert(!self@.slots[i as int].done());
                return false;
            }
            i += 1;
        }
        true
    }

    /// Ends an answer: once every request has ended, the status channel hears
    /// its last word.
    fn conclude(&mut self, actions: &mut Vec<Action>)
        ensures
            final(self)@ == old(self)@.conclude(action_views(old(actions)@)).state,
            action_views(final(actions)@) == old(self)@.conclude(action_views(old(actions)@)).actions,
    {
        if !self.announced && self.every_done() {
            proof {
                use_type_invariant(&*self);
                self.lemma_inv();
                assert forall|i: int| 0 <= i < self.states.len() implies (
                #[trigger] self.states[i]).outcome is Some by {
                    assert(self@.slots[i].done());
                }
            }
            self.announced = true;
            actions.push(Action::Report(Status::AllFinished));
            proof {
                assert(self@.slots == old(self)@.slots);
                assert(action_views(actions@) == action_views(old(actions)@).push(
                    ActionView::Report(Status::AllFinished),
                ));
            }
        }
    }
}

} // verus!
