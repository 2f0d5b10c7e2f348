//! What holds of every batch, whatever happens to it.
//!
//! The status channel hears its last word when the last request ends: then,
//! once, and as the last thing. A request that ended in success has a
//! transfer that received exactly the advertised bytes. Of two requests that
//! are stored at one path the later one ends at once. The progress channel of
//! each request hears byte counts that never fall, and the end last.

use vstd::prelude::*;
use crate::batch::{
    all_done, asked_before, collides, first_answered, notice_in, opening, ActionView, BatchView,
    EventView, RequestView, SlotView, Step,
};
use crate::dcc::SendNoticeView;
use crate::irc::{join_message, nick_message, user_message, wire_line};
use crate::progress::Status;
use crate::session::{fresh, in_order, Failure, Outcome, ProgressEvent};

verus! {

/// Whether `actions` hold nothing for the status channel after which nothing
/// may follow.
pub open spec fn quiet(actions: Seq<ActionView>) -> bool {
    forall|k: int|
        0 <= k < actions.len() ==> #[trigger] actions[k] != ActionView::Report(Status::AllFinished)
}

/// How often `actions` tell the status channel its last word.
pub open spec fn last_words(actions: Seq<ActionView>) -> nat
    decreases actions.len(),
{
    if actions.len() == 0 {
        0
    } else {
        last_words(actions.drop_last()) + if actions.last() == ActionView::Report(
            Status::AllFinished,
        ) {
            1nat
        } else {
            0nat
        }
    }
}

/// The last word is counted over two runs of actions as over each.
pub proof fn lemma_last_words_add(a: Seq<ActionView>, b: Seq<ActionView>)
    ensures
        last_words(a + b) == last_words(a) + last_words(b),
    decreases b.len(),
{
    if b.len() == 0 {
        assert(a + b == a);
    } else {
        lemma_last_words_add(a, b.drop_last());
        assert((a + b).drop_last() == a + b.drop_last());
    }
}

/// Actions that are quiet do not hold the last word.
pub proof fn lemma_quiet_has_no_last_word(actions: Seq<ActionView>)
    requires
        quiet(actions),
    ensures
        last_words(actions) == 0,
    decreases actions.len(),
{
    if actions.len() > 0 {
        assert(actions.last() == actions[actions.len() - 1]);
        assert forall|k: int| 0 <= k < actions.drop_last().len() implies #[trigger] actions.drop_last()[k]
            != ActionView::Report(Status::AllFinished) by {
            assert(actions.drop_last()[k] == actions[k]);
        }
        lemma_quiet_has_no_last_word(actions.drop_last());
    }
}

/// `first_answered` stops at the first request that the notice answers and
/// not before.
pub proof fn lemma_first_answered(
    slots: Seq<SlotView>,
    sender: Seq<u8>,
    n: SendNoticeView,
    from: int,
)
    requires
        0 <= from <= slots.len(),
    ensures
        from <= first_answered(slots, sender, n, from) <= slots.len(),
        forall|k: int|
            from <= k < first_answered(slots, sender, n, from) ==> !(#[trigger] slots[k]).answered_by(
                sender,
                n,
            ),
        first_answered(slots, sender, n, from) < slots.len() ==> slots[first_answered(
            slots,
            sender,
            n,
            from,
        )].answered_by(sender, n),
    decreases slots.len() - from,
{
    if from < slots.len() && !slots[from].answered_by(sender, n) {
        lemma_first_answered(slots, sender, n, from + 1);
    }
}

/// What is done when a batch begins does not hold the last word.
proof fn lemma_opening_quiet(requests: Seq<RequestView>, count: int)
    ensures
        quiet(opening(requests, count)),
    decreases count,
{
    if count > 0 {
        lemma_opening_quiet(requests, count - 1);
    }
}

/// Stopping requests keeps a batch in order, ends what it is meant to end and
/// nothing else, and does not say the last word.
pub proof fn lemma_stop(s: BatchView, failure: Failure, active_too: bool, count: int)
    requires
        s.wf(),
        0 <= count <= s.slots.len(),
    ensures
        ({
            let r = s.stop(failure, active_too, count);
            &&& r.state.wf()
            &&& r.state.slots.len() == s.slots.len()
            &&& r.state.nickname == s.nickname
            &&& r.state.announced == s.announced
            &&& quiet(r.actions)
            &&& forall|i: int|
                0 <= i < s.slots.len() ==> (#[trigger] r.state.slots[i]).request == s.slots[i].request
            &&& forall|i: int|
                0 <= i < s.slots.len() && (s.slots[i].done() || i >= count || (s.slots[i].session
                    is Some && !active_too)) ==> #[trigger] r.state.slots[i] == s.slots[i]
            &&& forall|i: int|
                0 <= i < count && !s.slots[i].done() && (s.slots[i].session is None || active_too)
                    ==> #[trigger] r.state.slots[i] == s.slots[i].fail(failure)
            &&& all_done(s.slots) ==> r.state == s && r.actions.len() == 0
        }),
    decreases count,
{
    if count > 0 {
        lemma_stop(s, failure, active_too, count - 1);
        let before = s.stop(failure, active_too, count - 1);
        assert(before.state.slots[count - 1] == s.slots[count - 1]);
        if all_done(s.slots) {
            assert(s.slots[count - 1].done());
        }
    }
}

/// Every event leaves a batch in order, with the same requests, and leaves
/// every request that has ended as it is.
pub proof fn lemma_step_keeps_wf(s: BatchView, event: EventView)
    requires
        s.wf(),
    ensures
        s.step(event).state.wf(),
        s.step(event).state.slots.len() == s.slots.len(),
        s.step(event).state.nickname == s.nickname,
        forall|i: int|
            0 <= i < s.slots.len() ==> (#[trigger] s.step(event).state.slots[i]).request
                == s.slots[i].request,
        forall|i: int|
            0 <= i < s.slots.len() && s.slots[i].done() ==> #[trigger] s.step(event).state.slots[i]
                == s.slots[i],
{
    match event {
        EventView::Message(m) => {
            match notice_in(s.nickname, m) {
                Some((sender, n)) => {
                    lemma_first_answered(s.slots, sender, n, 0);
                },
                None => {},
            }
        },
        EventView::Disconnected => {
            lemma_stop(s, Failure::RequestTimeout, false, s.slots.len() as int);
        },
        EventView::RequestTimedOut(i) => {},
        EventView::Data(i, e) => {},
        EventView::Cancelled => {
            lemma_stop(s, Failure::Cancelled, true, s.slots.len() as int);
        },
    }
}

/// The last word is said when the last request ends, as the last thing done,
/// and once it is said nothing is done any more.
pub proof fn lemma_step_last_word(s: BatchView, event: EventView)
    requires
        s.wf(),
    ensures
        ({
            let r = s.step(event);
            &&& r.state.announced <==> all_done(r.state.slots)
            &&& last_words(r.actions) == if !s.announced && r.state.announced { 1nat } else { 0nat }
            &&& last_words(r.actions) == 1 ==> r.actions.last() == ActionView::Report(
                Status::AllFinished,
            )
            &&& s.announced ==> r.state == s && r.actions.len() == 0
        }),
{
    lemma_step_keeps_wf(s, event);
    let r = s.step(event);
    let inner: Step = match event {
        EventView::Message(m) => {
            match notice_in(s.nickname, m) {
                Some((sender, n)) => {
                    lemma_first_answered(s.slots, sender, n, 0);
                    let i = first_answered(s.slots, sender, n, 0);
                    if i < s.slots.len() {
                        let slot = s.slots[i];
                        assert(!slot.done());
                        let session = fresh(
                            n.address as u32,
                            n.port as u16,
                            slot.request.offer.size_bytes as u64,
                        );
                        Step {
                            state: s.put(i, SlotView { session: Some(session), ..slot }),
                            actions: seq![
                                ActionView::Report(Status::Connecting),
                                ActionView::Connect {
                                    request: i as usize,
                                    address: n.address as u32,
                                    port: n.port as u16,
                                    path: slot.request.path(),
                                },
                            ],
                        }
                    } else {
                        Step { state: s, actions: Seq::empty() }
                    }
                },
                None => Step { state: s, actions: Seq::empty() },
            }
        },
        EventView::Disconnected => {
            lemma_stop(s, Failure::RequestTimeout, false, s.slots.len() as int);
            s.stop(Failure::RequestTimeout, false, s.slots.len() as int)
        },
        EventView::RequestTimedOut(i) => {
            if i < s.slots.len() && s.slots[i as int].waiting() {
                let slot = s.slots[i as int];
                Step {
                    state: s.put(i as int, slot.fail(Failure::RequestTimeout)),
                    actions: slot.fail_actions(i, Failure::RequestTimeout),
                }
            } else {
                Step { state: s, actions: Seq::empty() }
            }
        },
        EventView::Data(i, e) => {
            if i < s.slots.len() && s.slots[i as int].session is Some && !s.slots[i as int].done() {
                let slot = s.slots[i as int];
                let before = slot.session->0;
                let run = before.step(e);
                let started = if before.received == 0 && run.state.received > 0 {
                    seq![ActionView::Report(Status::Downloading)]
                } else {
                    Seq::empty()
                };
                let progress = Seq::new(
                    run.emitted.len(),
                    |k: int| ActionView::Progress { request: i, event: run.emitted[k] },
                );
                let ending = match run.state.outcome {
                    None => Seq::empty(),
                    Some(Outcome::Success) => seq![ActionView::Report(Status::Finished)],
                    Some(Outcome::Failed(f)) => seq![
                        ActionView::Abandon { request: i },
                        ActionView::Report(Status::Failed(f)),
                    ],
                };
                Step {
                    state: s.put(
                        i as int,
                        SlotView { session: Some(run.state), outcome: run.state.outcome, ..slot },
                    ),
                    actions: started + progress + ending,
                }
            } else {
                Step { state: s, actions: Seq::empty() }
            }
        },
        EventView::Cancelled => {
            lemma_stop(s, Failure::Cancelled, true, s.slots.len() as int);
            s.stop(Failure::Cancelled, true, s.slots.len() as int)
        },
    };
    assert(r == inner.state.conclude(inner.actions));
    assert(quiet(inner.actions));
    assert(inner.state.announced == s.announced);
    lemma_quiet_has_no_last_word(inner.actions);
    if s.announced {
        assert(all_done(s.slots));
        assert(inner.state == s && inner.actions.len() == 0) by {
            match event {
                EventView::Message(m) => {
                    match notice_in(s.nickname, m) {
                        Some((sender, n)) => {
                            lemma_first_answered(s.slots, sender, n, 0);
                            let i = first_answered(s.slots, sender, n, 0);
                            if i < s.slots.len() {
                                assert(s.slots[i].done());
                            }
                        },
                        None => {},
                    }
                },
                EventView::RequestTimedOut(i) => {
                    if i < s.slots.len() {
                        assert(s.slots[i as int].done());
                    }
                },
                EventView::Data(i, e) => {
                    if i < s.slots.len() {
                        assert(s.slots[i as int].done());
                    }
                },
                _ => {},
            }
        }
    }
    if !inner.state.announced && all_done(inner.state.slots) {
        assert(r.actions.drop_last() == inner.actions);
    }
}

impl BatchView {
    /// The batch after the events of `events`, one after the other, and all
    /// that is done on the way.
    pub open spec fn run(self, events: Seq<EventView>) -> Step
        decreases events.len(),
    {
        if events.len() == 0 {
            Step { state: self, actions: Seq::empty() }
        } else {
            let before = self.run(events.drop_last());
            let last = before.state.step(events.last());
            Step { state: last.state, actions: before.actions + last.actions }
        }
    }
}

/// A batch from its beginning through `events`, and all that is done on the
/// way.
pub open spec fn play(
    nickname: Seq<u8>,
    channel: Seq<u8>,
    requests: Seq<RequestView>,
    events: Seq<EventView>,
) -> Step {
    let begin = BatchView::start(nickname, channel, requests);
    let rest = begin.state.run(events);
    Step { state: rest.state, actions: begin.actions + rest.actions }
}

/// Whether a batch can be made of `requests`: there are no more of them than
/// can be counted, and every size fits its field.
pub open spec fn countable(requests: Seq<RequestView>) -> bool {
    &&& requests.len() <= usize::MAX
    &&& forall|i: int| 0 <= i < requests.len() ==> (#[trigger] requests[i]).offer.size_bytes
        <= u64::MAX
}

/// A batch begins in order. The requests that collide with an earlier one
/// have ended, and no others.
pub proof fn lemma_start(nickname: Seq<u8>, channel: Seq<u8>, requests: Seq<RequestView>)
    requires
        countable(requests),
    ensures
        ({
            let r = BatchView::start(nickname, channel, requests);
            &&& r.state.wf()
            &&& r.state.nickname == nickname
            &&& r.state.slots.len() == requests.len()
            &&& forall|i: int|
                0 <= i < requests.len() ==> {
                    &&& (#[trigger] r.state.slots[i]).request == requests[i]
                    &&& r.state.slots[i].session is None
                    &&& r.state.slots[i].outcome == if collides(requests, i) {
                        Some(Outcome::Failed(Failure::Collision))
                    } else {
                        None
                    }
                }
            &&& r.state.announced <==> all_done(r.state.slots)
            &&& last_words(r.actions) == if r.state.announced { 1nat } else { 0nat }
            &&& r.state.announced ==> r.actions.last() == ActionView::Report(Status::AllFinished)
        }),
{
    let r = BatchView::start(nickname, channel, requests);
    let first = seq![
        ActionView::Send(wire_line(nick_message(nickname))),
        ActionView::Send(wire_line(user_message(nickname))),
        ActionView::Send(wire_line(join_message(channel))),
    ] + opening(requests, requests.len() as int);
    lemma_opening_quiet(requests, requests.len() as int);
    assert(quiet(first));
    lemma_quiet_has_no_last_word(first);
    if r.state.announced {
        assert(r.actions.drop_last() == first);
    }
}

/// Of two requests for the same file in the same directory, the later one
/// ends at once as a collision; the earlier one does not, unless it collides
/// with one before it.
pub proof fn lemma_same_request_twice(
    nickname: Seq<u8>,
    channel: Seq<u8>,
    requests: Seq<RequestView>,
    first: int,
    second: int,
)
    requires
        countable(requests),
        0 <= first < second < requests.len(),
        requests[first].path() == requests[second].path(),
    ensures
        BatchView::start(nickname, channel, requests).state.slots[second].outcome == Some(
            Outcome::Failed(Failure::Collision),
        ),
        !collides(requests, first) ==> BatchView::start(
            nickname,
            channel,
            requests,
        ).state.slots[first].outcome is None,
{
    lemma_start(nickname, channel, requests);
    assert(collides(requests, second));
}

/// Over any events a batch stays in order, and its status channel hears the
/// last word when the last request ends: then, once, and as the last thing.
proof fn lemma_run(s: BatchView, events: Seq<EventView>)
    requires
        s.wf(),
        s.announced <==> all_done(s.slots),
    ensures
        ({
            let r = s.run(events);
            &&& r.state.wf()
            &&& r.state.slots.len() == s.slots.len()
            &&& r.state.announced <==> all_done(r.state.slots)
            &&& s.announced ==> r.state.announced && r.actions.len() == 0
            &&& last_words(r.actions) == if !s.announced && r.state.announced { 1nat } else { 0nat }
            &&& !s.announced && r.state.announced ==> r.actions.last() == ActionView::Report(
                Status::AllFinished,
            )
        }),
    decreases events.len(),
{
    if events.len() > 0 {
        lemma_run(s, events.drop_last());
        let before = s.run(events.drop_last());
        lemma_step_keeps_wf(before.state, events.last());
        lemma_step_last_word(before.state, events.last());
        let last = before.state.step(events.last());
        lemma_last_words_add(before.actions, last.actions);
        if before.state.announced {
            assert(before.actions + last.actions == before.actions);
        }
    }
}

/// From its beginning and over any events, a batch tells its status channel
/// the last word exactly once if every request has ended, as the last thing
/// that it does, and not at all before that.
pub proof fn lemma_last_word_once(
    nickname: Seq<u8>,
    channel: Seq<u8>,
    requests: Seq<RequestView>,
    events: Seq<EventView>,
)
    requires
        countable(requests),
    ensures
        ({
            let r = play(nickname, channel, requests, events);
            &&& r.state.wf()
            &&& r.state.announced <==> all_done(r.state.slots)
            &&& last_words(r.actions) == if all_done(r.state.slots) { 1nat } else { 0nat }
            &&& all_done(r.state.slots) ==> r.actions.last() == ActionView::Report(
                Status::AllFinished,
            )
        }),
{
    lemma_start(nickname, channel, requests);
    let begin = BatchView::start(nickname, channel, requests);
    lemma_run(begin.state, events);
    let rest = begin.state.run(events);
    lemma_last_words_add(begin.actions, rest.actions);
    if begin.state.announced {
        assert(begin.actions + rest.actions == begin.actions);
    }
}

/// From its beginning and over any events, a request of a batch that has
/// ended in success has a transfer that received exactly the advertised
/// number of bytes.
pub proof fn lemma_batch_success_is_exact(
    nickname: Seq<u8>,
    channel: Seq<u8>,
    requests: Seq<RequestView>,
    events: Seq<EventView>,
    i: int,
)
    requires
        countable(requests),
        0 <= i < requests.len(),
        play(nickname, channel, requests, events).state.slots[i].outcome == Some(Outcome::Success),
    ensures
        ({
            let slot = play(nickname, channel, requests, events).state.slots[i];
            slot.session matches Some(t) && t.received == slot.request.offer.size_bytes
        }),
{
    lemma_last_word_once(nickname, channel, requests, events);
    lemma_start(nickname, channel, requests);
    lemma_run(BatchView::start(nickname, channel, requests).state, events);
}

/// What `actions` tell the progress channel of request `i`, in their order.
pub open spec fn channel_of(actions: Seq<ActionView>, i: usize) -> Seq<ProgressEvent>
    decreases actions.len(),
{
    if actions.len() == 0 {
        Seq::empty()
    } else {
        let before = channel_of(actions.drop_last(), i);
        match actions.last() {
            ActionView::Progress { request, event } => if request == i {
                before.push(event)
            } else {
                before
            },
            _ => before,
        }
    }
}

/// Whether `log` is what the progress channel of a request that stands as
/// `slot` has heard: byte counts in good order, none of them more than the
/// transfer holds, and the end as the last event if and only if the request
/// has ended.
pub open spec fn heard(slot: SlotView, log: Seq<ProgressEvent>) -> bool {
    &&& in_order(log)
    &&& forall|k: int|
        0 <= k < log.len() ==> (#[trigger] log[k] matches ProgressEvent::Bytes(n) ==> n
            <= slot.received())
    &&& slot.done() <==> log.len() > 0 && log.last() is End
}

/// Whether `told` is what the progress channel of a request hears while the
/// request goes from `before` to `after`: nothing once the request has ended;
/// else at most a byte count, which is what the transfer holds now and more
/// than it held, and then the end if the request ends.
pub open spec fn tells(before: SlotView, after: SlotView, told: Seq<ProgressEvent>) -> bool {
    &&& before.done() ==> told.len() == 0 && after == before
    &&& before.received() <= after.received()
    &&& in_order(told)
    &&& forall|k: int|
        0 <= k < told.len() ==> (#[trigger] told[k] matches ProgressEvent::Bytes(n)
            ==> before.received() < n <= after.received())
    &&& after.done() <==> before.done() || (told.len() > 0 && told.last() is End)
}

/// What two runs of actions tell a progress channel is what the first tells
/// it and then what the second tells it.
pub proof fn lemma_channel_add(a: Seq<ActionView>, b: Seq<ActionView>, i: usize)
    ensures
        channel_of(a + b, i) == channel_of(a, i) + channel_of(b, i),
    decreases b.len(),
{
    if b.len() == 0 {
        assert(a + b == a);
        assert(channel_of(a, i) + channel_of(b, i) == channel_of(a, i));
    } else {
        lemma_channel_add(a, b.drop_last(), i);
        assert((a + b).drop_last() == a + b.drop_last());
        assert((a + b).last() == b.last());
        let head = channel_of(a, i);
        let tail = channel_of(b.drop_last(), i);
        match b.last() {
            ActionView::Progress { request, event } => {
                if request == i {
                    assert((head + tail).push(event) == head + tail.push(event));
                }
            },
            _ => {},
        }
    }
}

/// Actions of which none is for a progress channel tell no progress channel
/// anything.
proof fn lemma_channel_silent(actions: Seq<ActionView>, i: usize)
    requires
        forall|k: int| 0 <= k < actions.len() ==> !(#[trigger] actions[k] is Progress),
    ensures
        channel_of(actions, i) == Seq::<ProgressEvent>::empty(),
    decreases actions.len(),
{
    if actions.len() > 0 {
        assert(actions.last() == actions[actions.len() - 1]);
        assert forall|k: int| 0 <= k < actions.drop_last().len() implies !(
        #[trigger] actions.drop_last()[k] is Progress) by {
            assert(actions.drop_last()[k] == actions[k]);
        }
        lemma_channel_silent(actions.drop_last(), i);
    }
}

/// What a transfer says is told to the progress channel of its request, and
/// to no other.
proof fn lemma_channel_progress(emitted: Seq<ProgressEvent>, request: usize, i: usize)
    ensures
        channel_of(
            Seq::new(emitted.len(), |k: int| ActionView::Progress { request, event: emitted[k] }),
            i,
        ) == if request == i {
            emitted
        } else {
            Seq::empty()
        },
    decreases emitted.len(),
{
    let actions = Seq::new(
        emitted.len(),
        |k: int| ActionView::Progress { request, event: emitted[k] },
    );
    if emitted.len() > 0 {
        let shorter = emitted.drop_last();
        lemma_channel_progress(shorter, request, i);
        assert(actions.drop_last() == Seq::new(
            shorter.len(),
            |k: int| ActionView::Progress { request, event: shorter[k] },
        ));
        assert(actions.last() == ActionView::Progress { request, event: emitted.last() });
        if request == i {
            assert(shorter.push(emitted.last()) == emitted);
        }
    }
}

/// A request that ends without its file tells its own progress channel the
/// end, and no other channel anything.
proof fn lemma_channel_fail(slot: SlotView, request: usize, failure: Failure, i: usize)
    ensures
        channel_of(slot.fail_actions(request, failure), i) == if request == i {
            seq![ProgressEvent::End]
        } else {
            Seq::empty()
        },
{
    let first = seq![ActionView::Progress { request, event: ProgressEvent::End }];
    let given_up = if slot.session is Some {
        seq![ActionView::Abandon { request }]
    } else {
        Seq::empty()
    };
    let rest = given_up + seq![ActionView::Report(Status::Failed(failure))];
    assert(slot.fail_actions(request, failure) == first + rest);
    lemma_channel_add(first, rest, i);
    lemma_channel_silent(rest, i);
    lemma_channel_progress(seq![ProgressEvent::End], request, i);
    assert(first == Seq::new(
        1,
        |k: int| ActionView::Progress { request, event: seq![ProgressEvent::End][k] },
    ));
    if request == i {
        assert(seq![ProgressEvent::End] + Seq::<ProgressEvent>::empty() == seq![
            ProgressEvent::End,
        ]);
    } else {
        assert(Seq::<ProgressEvent>::empty() + Seq::<ProgressEvent>::empty() == Seq::<
            ProgressEvent,
        >::empty());
    }
}

/// The end of an answer tells no progress channel anything.
proof fn lemma_channel_conclude(s: BatchView, actions: Seq<ActionView>, i: usize)
    ensures
        channel_of(s.conclude(actions).actions, i) == channel_of(actions, i),
{
    if !s.announced && all_done(s.slots) {
        assert(s.conclude(actions).actions.drop_last() == actions);
    }
}

/// When a batch begins, a request that collides with an earlier one tells its
/// progress channel the end, and no other request tells its channel anything.
proof fn lemma_channel_opening(requests: Seq<RequestView>, count: int, i: usize)
    requires
        0 <= count <= usize::MAX,
    ensures
        channel_of(opening(requests, count), i) == if i < count && collides(requests, i as int) {
            seq![ProgressEvent::End]
        } else {
            Seq::empty()
        },
    decreases count,
{
    if count > 0 {
        let at = count - 1;
        lemma_channel_opening(requests, at, i);
        let pause = if asked_before(requests, at) {
            seq![ActionView::Pause]
        } else {
            Seq::empty()
        };
        let this = if collides(requests, at) {
            seq![
                ActionView::Progress { request: at as usize, event: ProgressEvent::End },
                ActionView::Report(Status::Failed(Failure::Collision)),
            ]
        } else {
            pause + seq![
                ActionView::Send(requests[at].request_line()),
                ActionView::Report(Status::Queued),
            ]
        };
        assert(opening(requests, count) == opening(requests, at) + this);
        lemma_channel_add(opening(requests, at), this, i);
        let head = channel_of(opening(requests, at), i);
        if collides(requests, at) {
            let slot = SlotView { request: requests[at], session: None, outcome: None };
            assert(this == slot.fail_actions(at as usize, Failure::Collision));
            lemma_channel_fail(slot, at as usize, Failure::Collision, i);
        } else {
            lemma_channel_silent(this, i);
        }
        assert(head + Seq::<ProgressEvent>::empty() == head);
        assert(Seq::<ProgressEvent>::empty() + seq![ProgressEvent::End] == seq![
            ProgressEvent::End,
        ]);
    }
}

/// Stopping requests tells the progress channel of each request that it ends
/// the end, and no other channel anything.
proof fn lemma_channel_stop(
    s: BatchView,
    failure: Failure,
    active_too: bool,
    count: int,
    i: usize,
)
    requires
        s.wf(),
        0 <= count <= s.slots.len(),
        i < s.slots.len(),
    ensures
        channel_of(s.stop(failure, active_too, count).actions, i) == if i < count
            && !s.slots[i as int].done() && (s.slots[i as int].session is None || active_too) {
            seq![ProgressEvent::End]
        } else {
            Seq::empty()
        },
    decreases count,
{
    if count > 0 {
        let at = count - 1;
        lemma_channel_stop(s, failure, active_too, at, i);
        lemma_stop(s, failure, active_too, at);
        let before = s.stop(failure, active_too, at);
        let slot = before.state.slots[at];
        assert(slot == s.slots[at]);
        let head = channel_of(before.actions, i);
        if !(slot.done() || (slot.session is Some && !active_too)) {
            lemma_channel_add(before.actions, slot.fail_actions(at as usize, failure), i);
            lemma_channel_fail(slot, at as usize, failure, i);
        }
        assert(head + Seq::<ProgressEvent>::empty() == head);
        assert(Seq::<ProgressEvent>::empty() + seq![ProgressEvent::End] == seq![
            ProgressEvent::End,
        ]);
    }
}

/// In every step of a batch, the progress channel of each request hears what
/// it may hear, going by how the request stood and how it stands after.
pub proof fn lemma_step_channel(s: BatchView, event: EventView, i: usize)
    requires
        s.wf(),
        i < s.slots.len(),
    ensures
        tells(s.slots[i as int], s.step(event).state.slots[i as int], channel_of(
            s.step(event).actions,
            i,
        )),
{
    lemma_step_keeps_wf(s, event);
    let r = s.step(event);
    let old = s.slots[i as int];
    let new = r.state.slots[i as int];
    let none = Seq::<ProgressEvent>::empty();
    match event {
        EventView::Message(m) => {
            match notice_in(s.nickname, m) {
                Some((sender, n)) => {
                    lemma_first_answered(s.slots, sender, n, 0);
                    let at = first_answered(s.slots, sender, n, 0);
                    if at < s.slots.len() {
                        let slot = s.slots[at];
                        let session = fresh(
                            n.address as u32,
                            n.port as u16,
                            slot.request.offer.size_bytes as u64,
                        );
                        let inner = seq![
                            ActionView::Report(Status::Connecting),
                            ActionView::Connect {
                                request: at as usize,
                                address: n.address as u32,
                                port: n.port as u16,
                                path: slot.request.path(),
                            },
                        ];
                        let state = s.put(at, SlotView { session: Some(session), ..slot });
                        lemma_channel_conclude(state, inner, i);
                        lemma_channel_silent(inner, i);
                    } else {
                        lemma_channel_conclude(s, Seq::empty(), i);
                    }
                },
                None => {
                    lemma_channel_conclude(s, Seq::empty(), i);
                },
            }
            assert(channel_of(r.actions, i) == none);
        },
        EventView::Disconnected => {
            let count = s.slots.len() as int;
            lemma_stop(s, Failure::RequestTimeout, false, count);
            lemma_channel_stop(s, Failure::RequestTimeout, false, count, i);
            let stopped = s.stop(Failure::RequestTimeout, false, count);
            lemma_channel_conclude(stopped.state, stopped.actions, i);
        },
        EventView::RequestTimedOut(at) => {
            if at < s.slots.len() && s.slots[at as int].waiting() {
                let slot = s.slots[at as int];
                let state = s.put(at as int, slot.fail(Failure::RequestTimeout));
                let inner = slot.fail_actions(at, Failure::RequestTimeout);
                lemma_channel_conclude(state, inner, i);
                lemma_channel_fail(slot, at, Failure::RequestTimeout, i);
            } else {
                lemma_channel_conclude(s, Seq::empty(), i);
            }
        },
        EventView::Data(at, e) => {
            if at < s.slots.len() && s.slots[at as int].session is Some && !s.slots[at as int].done() {
                let slot = s.slots[at as int];
                let before = slot.session->0;
                let run = before.step(e);
                let started = if before.received == 0 && run.state.received > 0 {
                    seq![ActionView::Report(Status::Downloading)]
                } else {
                    Seq::empty()
                };
                let progress = Seq::new(
                    run.emitted.len(),
                    |k: int| ActionView::Progress { request: at, event: run.emitted[k] },
                );
                let ending = match run.state.outcome {
                    None => Seq::empty(),
                    Some(Outcome::Success) => seq![ActionView::Report(Status::Finished)],
                    Some(Outcome::Failed(f)) => seq![
                        ActionView::Abandon { request: at },
                        ActionView::Report(Status::Failed(f)),
                    ],
                };
                let state = s.put(
                    at as int,
                    SlotView { session: Some(run.state), outcome: run.state.outcome, ..slot },
                );
                let inner = started + progress + ending;
                lemma_channel_conclude(state, inner, i);
                lemma_channel_add(started + progress, ending, i);
                lemma_channel_add(started, progress, i);
                lemma_channel_silent(started, i);
                lemma_channel_silent(ending, i);
                lemma_channel_progress(run.emitted, at, i);
                let told = channel_of(progress, i);
                assert(none + told + none == told);
                assert(channel_of(r.actions, i) == told);
            } else {
                lemma_channel_conclude(s, Seq::empty(), i);
            }
        },
        EventView::Cancelled => {
            let count = s.slots.len() as int;
            lemma_stop(s, Failure::Cancelled, true, count);
            lemma_channel_stop(s, Failure::Cancelled, true, count, i);
            let stopped = s.stop(Failure::Cancelled, true, count);
            lemma_channel_conclude(stopped.state, stopped.actions, i);
        },
    }
}

/// What a progress channel has heard stays in good order when it hears what
/// it may hear.
proof fn lemma_heard_more(
    before: SlotView,
    after: SlotView,
    log: Seq<ProgressEvent>,
    told: Seq<ProgressEvent>,
)
    requires
        heard(before, log),
        tells(before, after, told),
    ensures
        heard(after, log + told),
{
    let all = log + told;
    if before.done() {
        assert(all == log);
    } else {
        assert forall|k: int| 0 <= k < log.len() implies #[trigger] log[k] is Bytes by {
            if k == log.len() - 1 {
                assert(log.last() == log[k]);
            }
        }
        assert forall|k: int| 0 <= k < all.len() - 1 implies #[trigger] all[k] is Bytes by {
            if k < log.len() {
                assert(all[k] == log[k]);
            } else {
                assert(all[k] == told[k - log.len()]);
            }
        }
        assert forall|k: int| 0 <= k < all.len() implies (#[trigger] all[k] matches ProgressEvent::Bytes(
            n,
        ) ==> n > 0 && n <= after.received()) by {
            if k < log.len() {
                assert(all[k] == log[k]);
            } else {
                assert(all[k] == told[k - log.len()]);
            }
        }
        assert forall|a: int, b: int| 0 <= a <= b < all.len() implies (
        #[trigger] all[a] matches ProgressEvent::Bytes(x) ==> (
        #[trigger] all[b] matches ProgressEvent::Bytes(y) ==> x <= y)) by {
            if a < log.len() {
                assert(all[a] == log[a]);
            } else {
                assert(all[a] == told[a - log.len()]);
            }
            if b < log.len() {
                assert(all[b] == log[b]);
            } else {
                assert(all[b] == told[b - log.len()]);
            }
        }
        if told.len() > 0 {
            assert(all.last() == told.last());
        } else {
            assert(all == log);
        }
    }
}

/// Over any events, the progress channel of each request stays in good order.
proof fn lemma_run_channel(s: BatchView, events: Seq<EventView>, i: usize, log: Seq<ProgressEvent>)
    requires
        s.wf(),
        i < s.slots.len(),
        heard(s.slots[i as int], log),
    ensures
        s.run(events).state.wf(),
        s.run(events).state.slots.len() == s.slots.len(),
        heard(s.run(events).state.slots[i as int], log + channel_of(s.run(events).actions, i)),
    decreases events.len(),
{
    if events.len() == 0 {
        assert(log + Seq::<ProgressEvent>::empty() == log);
    } else {
        lemma_run_channel(s, events.drop_last(), i, log);
        let before = s.run(events.drop_last());
        lemma_step_keeps_wf(before.state, events.last());
        lemma_step_channel(before.state, events.last(), i);
        let last = before.state.step(events.last());
        lemma_channel_add(before.actions, last.actions, i);
        let so_far = log + channel_of(before.actions, i);
        let told = channel_of(last.actions, i);
        lemma_heard_more(before.state.slots[i as int], last.state.slots[i as int], so_far, told);
        assert(so_far + told == log + (channel_of(before.actions, i) + told));
    }
}

/// From the beginning of a batch and over any events, what the progress
/// channel of each request has heard is in good order: positive byte counts
/// that never fall and never pass what the transfer holds, and the end as the
/// last event if and only if the request has ended.
pub proof fn lemma_channel_in_order(
    nickname: Seq<u8>,
    channel: Seq<u8>,
    requests: Seq<RequestView>,
    events: Seq<EventView>,
    i: usize,
)
    requires
        countable(requests),
        i < requests.len(),
    ensures
        ({
            let r = play(nickname, channel, requests, events);
            heard(r.state.slots[i as int], channel_of(r.actions, i))
        }),
{
    lemma_start(nickname, channel, requests);
    let begin = BatchView::start(nickname, channel, requests);
    let first = seq![
        ActionView::Send(wire_line(nick_message(nickname))),
        ActionView::Send(wire_line(user_message(nickname))),
        ActionView::Send(wire_line(join_message(channel))),
    ];
    let asked = opening(requests, requests.len() as int);
    let slots = Seq::new(
        requests.len(),
        |k: int|
            SlotView {
                request: requests[k],
                session: None,
                outcome: if collides(requests, k) {
                    Some(Outcome::Failed(Failure::Collision))
                } else {
                    None
                },
            },
    );
    let batch = BatchView { nickname, slots, announced: false };
    assert(begin == batch.conclude(first + asked));
    lemma_channel_conclude(batch, first + asked, i);
    lemma_channel_add(first, asked, i);
    lemma_channel_silent(first, i);
    lemma_channel_opening(requests, requests.len() as int, i);
    let log = channel_of(begin.actions, i);
    assert(Seq::<ProgressEvent>::empty() + channel_of(asked, i) == channel_of(asked, i));
    assert(heard(begin.state.slots[i as int], log)) by {
        if collides(requests, i as int) {
            assert(log == seq![ProgressEvent::End]);
            assert(log.last() == ProgressEvent::End);
        } else {
            assert(log.len() == 0);
        }
    }
    lemma_run_channel(begin.state, events, i, log);
    let rest = begin.state.run(events);
    lemma_channel_add(begin.actions, rest.actions, i);
}

} // verus!
