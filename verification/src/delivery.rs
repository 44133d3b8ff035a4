//! What a sink's rounds guarantee.
//!
//! A round is a sequence of beats: each is an event that the sink awaited, and
//! the sink's answer to it is the action taken next. The guarantees speak of
//! all the rounds that can happen, whatever the log, the sink adapter, the
//! checkpoint store and the dead-letter queue answer.

use crate::checkpoint;
use crate::connector::{ConnectorKind, DeliveryReport};
use crate::error::{CoreError, PortError};
use crate::record;
use crate::record::RecordView;
use crate::retry;
use crate::sink::{BatchView, PhaseView, SinkActionView, SinkEvent, SinkView};
use crate::timestamp::Instant;
use crate::units::Offset;
use vstd::prelude::*;

verus! {

/// An event, and the time of it.
pub struct Beat {
    pub event: SinkEvent,
    pub now: Instant,
}

/// A sink's state after some beats.
pub open spec fn state_after(s: SinkView, beats: Seq<Beat>) -> SinkView
    decreases beats.len(),
{
    if beats.len() == 0 {
        s
    } else {
        state_after(s, beats.drop_last()).turn(beats.last().event, beats.last().now).state
    }
}

/// The action that answers the `i`-th beat.
pub open spec fn action_at(s: SinkView, beats: Seq<Beat>, i: int) -> SinkActionView {
    state_after(s, beats.take(i)).turn(beats[i].event, beats[i].now).action
}

/// Whether each beat answers the action before it.
pub open spec fn legal(s: SinkView, beats: Seq<Beat>) -> bool {
    forall|i: int|
        0 <= i < beats.len() ==> state_after(s, #[trigger] beats.take(i)).awaits(beats[i].event)
}

/// Whether the beats are a round, finished or not, of a sink that was idle.
pub open spec fn round(s: SinkView, beats: Seq<Beat>) -> bool {
    &&& s.phase is Idle
    &&& legal(s, beats)
    &&& forall|i: int| 0 < i < beats.len() ==> !((#[trigger] beats[i]).event is Start)
}

/// Whether a record was delivered, or else dead-lettered, during the beats: the
/// action was taken and reported to have succeeded.
pub open spec fn handled(s: SinkView, beats: Seq<Beat>, r: RecordView) -> bool {
    exists|j: int| #[trigger] handled_at(s, beats, r, j)
}

/// Whether the action at `j` delivered or dead-lettered a record.
pub open spec fn handled_at(s: SinkView, beats: Seq<Beat>, r: RecordView, j: int) -> bool {
    &&& 0 <= j
    &&& j + 1 < beats.len()
    &&& {
        ||| {
            &&& action_at(s, beats, j) matches SinkActionView::Deliver(sent, _) && sent == r
            &&& beats[j + 1].event matches SinkEvent::Delivered(Ok(_))
        }
        ||| {
            &&& action_at(s, beats, j) matches SinkActionView::DeadLetter(letter) && letter.offset
                == r.offset && letter.payload == r.payload
            &&& beats[j + 1].event matches SinkEvent::DeadLettered(Ok(_))
        }
    }
}

/// Whether the checkpoint at an offset was saved during the beats: the action
/// was taken and reported to have succeeded.
pub open spec fn saved(s: SinkView, beats: Seq<Beat>, offset: u64) -> bool {
    exists|j: int| #[trigger] saved_at(s, beats, offset, j)
}

/// Whether the action at `j` saved the checkpoint at an offset.
pub open spec fn saved_at(s: SinkView, beats: Seq<Beat>, offset: u64, j: int) -> bool {
    &&& 0 <= j
    &&& j + 1 < beats.len()
    &&& action_at(s, beats, j) == SinkActionView::Save(s.checkpoint(offset))
    &&& beats[j + 1].event matches SinkEvent::Saved(Ok(_))
}

/// Whether the records were read from the log during the beats.
pub open spec fn was_read(beats: Seq<Beat>, records: Seq<RecordView>) -> bool {
    exists|j: int| #[trigger] read_at(beats, records, j)
}

/// Whether the `j`-th beat brought the records from the log.
pub open spec fn read_at(beats: Seq<Beat>, records: Seq<RecordView>, j: int) -> bool {
    &&& 0 <= j < beats.len()
    &&& beats[j].event matches SinkEvent::Fetched(Ok(batch)) && record::views(batch.records@)
        == records
}

/// Whether the sink asked for records from an offset on during the beats.
pub open spec fn asked(s: SinkView, beats: Seq<Beat>, from: u64) -> bool {
    exists|j: int|
        0 <= j < beats.len() && #[trigger] action_at(s, beats, j) == SinkActionView::Fetch(
            from,
            s.config.batch_size as nat,
        )
}

/// How far a count has come.
pub open spec fn advanced(n: u64, by: int) -> int {
    (n + by) % 0x1_0000_0000_0000_0000
}

/// What a batch in hand, and the state `st` of the sink, tell of the beats so
/// far.
pub open spec fn accounts(
    s: SinkView,
    beats: Seq<Beat>,
    st: SinkView,
    batch: BatchView,
    precommitted: bool,
) -> bool {
    &&& forall|records: Seq<RecordView>| #[trigger]
        was_read(beats, records) ==> records == batch.records
    &&& was_read(beats, batch.records)
    &&& forall|i: int| 0 <= i < batch.index ==> handled(s, beats, #[trigger] batch.records[i])
    &&& st.processed == advanced(s.processed, batch.delivered)
    &&& st.dead == advanced(s.dead, batch.dead)
    &&& s.config.guarantee is AtLeastOnce ==> (st.cursor matches Some(start) && asked(
        s,
        beats,
        start.0,
    ))
    &&& s.config.guarantee is AtMostOnce && precommitted ==> st.cursor == Some(
        Offset(batch.next),
    ) && saved(s, beats, batch.next)
}

/// Whether a report tells truly what a round did: every record read was
/// delivered or dead-lettered and is counted once, the totals have grown
/// accordingly, and the checkpoint lies behind the last record.
pub open spec fn reports_truly(
    s: SinkView,
    beats: Seq<Beat>,
    st: SinkView,
    report: DeliveryReport,
) -> bool {
    &&& report.polled == report.delivered + report.dead_lettered
    &&& st.processed == advanced(s.processed, report.delivered as int)
    &&& st.dead == advanced(s.dead, report.dead_lettered as int)
    &&& st.cursor == Some(report.checkpoint)
    &&& exists|records: Seq<RecordView>| #[trigger] was_read(beats, records)
    &&& forall|records: Seq<RecordView>| #[trigger]
        was_read(beats, records) ==> {
            &&& records.len() == report.polled
            &&& records.len() > 0 ==> report.checkpoint.0 == records.last().offset + 1
            &&& records.len() == 0 ==> asked(s, beats, report.checkpoint.0)
            &&& forall|i: int| 0 <= i < records.len() ==> handled(s, beats, #[trigger] records[i])
        }
}

/// What holds at every point of a round.
pub open spec fn sound(s: SinkView, beats: Seq<Beat>) -> bool {
    let st = state_after(s, beats);
    &&& st.wf()
    &&& st.id == s.id
    &&& st.topic == s.topic
    &&& st.partition == s.partition
    &&& st.config == s.config
    &&& match st.phase {
        PhaseView::Idle => beats.len() > 0 ==> (action_at(
            s,
            beats,
            beats.len() - 1,
        ) matches SinkActionView::Done(result) && (result matches Ok(report) ==> reports_truly(
            s,
            beats,
            st,
            report,
        ))),
        PhaseView::Loading => {
            &&& st == (SinkView { phase: st.phase, ..s })
            &&& forall|records: Seq<RecordView>| !#[trigger] was_read(beats, records)
        },
        PhaseView::Fetching(start) => {
            &&& st == (SinkView { phase: st.phase, cursor: st.cursor, ..s })
            &&& asked(s, beats, start)
            &&& forall|records: Seq<RecordView>| !#[trigger] was_read(beats, records)
        },
        PhaseView::Precommitting(batch) => {
            &&& accounts(s, beats, st, batch, false)
            &&& beats.len() > 0
            &&& action_at(s, beats, beats.len() - 1) == SinkActionView::Save(
                s.checkpoint(batch.next),
            )
        },
        PhaseView::Delivering(batch) => {
            &&& accounts(s, beats, st, batch, true)
            &&& beats.len() > 0
            &&& action_at(s, beats, beats.len() - 1) == SinkActionView::Deliver(
                batch.records[batch.index],
                batch.attempt,
            )
        },
        PhaseView::Burying(batch) => {
            &&& accounts(s, beats, st, batch, true)
            &&& beats.len() > 0
            &&& action_at(s, beats, beats.len() - 1) matches SinkActionView::DeadLetter(letter)
                && letter.offset == batch.records[batch.index].offset && letter.payload
                == batch.records[batch.index].payload
        },
        PhaseView::Committing(batch) => {
            &&& accounts(s, beats, st, batch, true)
            &&& beats.len() > 0
            &&& action_at(s, beats, beats.len() - 1) == SinkActionView::Save(
                s.checkpoint(batch.next),
            )
        },
    }
}

/// What was done stays done.
proof fn lemma_extend(s: SinkView, beats: Seq<Beat>, beat: Beat)
    ensures
        forall|j: int|
            0 <= j < beats.len() ==> action_at(s, beats.push(beat), j) == #[trigger] action_at(
                s,
                beats,
                j,
            ),
        forall|r: RecordView| #[trigger] handled(s, beats, r) ==> handled(s, beats.push(beat), r),
        forall|offset: u64| #[trigger]
            saved(s, beats, offset) ==> saved(s, beats.push(beat), offset),
        forall|from: u64| #[trigger] asked(s, beats, from) ==> asked(s, beats.push(beat), from),
        forall|records: Seq<RecordView>| #[trigger]
            was_read(beats, records) ==> was_read(beats.push(beat), records),
        !(beat.event matches SinkEvent::Fetched(Ok(_))) ==> forall|records: Seq<RecordView>|
            #[trigger] was_read(beats.push(beat), records) ==> was_read(beats, records),
        beat.event matches SinkEvent::Fetched(Ok(batch)) ==> was_read(
            beats.push(beat),
            record::views(batch.records@),
        ) && forall|records: Seq<RecordView>| #[trigger]
            was_read(beats.push(beat), records) ==> was_read(beats, records) || records
                == record::views(batch.records@),
        forall|offset: u64| #[trigger]
            saved(s, beats.push(beat), offset) ==> saved(s, beats, offset) || (beats.len() > 0
                && action_at(s, beats, beats.len() - 1) == SinkActionView::Save(
                s.checkpoint(offset),
            ) && (beat.event matches SinkEvent::Saved(Ok(_)))),
        forall|from: u64| #[trigger]
            asked(s, beats.push(beat), from) ==> asked(s, beats, from) || state_after(
                s,
                beats,
            ).turn(beat.event, beat.now).action == SinkActionView::Fetch(
                from,
                s.config.batch_size as nat,
            ),
        state_after(s, beats.push(beat)) == state_after(s, beats).turn(
            beat.event,
            beat.now,
        ).state,
        action_at(s, beats.push(beat), beats.len() as int) == state_after(s, beats).turn(
            beat.event,
            beat.now,
        ).action,
{
    let more = beats.push(beat);
    let n = beats.len() as int;
    assert(more.drop_last() =~= beats);
    assert(more.take(n) =~= beats);
    assert forall|j: int| 0 <= j < n implies action_at(s, more, j) == #[trigger] action_at(
        s,
        beats,
        j,
    ) by {
        assert(more.take(j) =~= beats.take(j));
    }
    assert forall|r: RecordView| #[trigger] handled(s, beats, r) implies handled(s, more, r) by {
        let j = choose|j: int| #[trigger] handled_at(s, beats, r, j);
        assert(action_at(s, more, j) == action_at(s, beats, j));
        assert(handled_at(s, more, r, j));
    }
    assert forall|offset: u64| #[trigger] saved(s, beats, offset) implies saved(s, more, offset) by {
        let j = choose|j: int| #[trigger] saved_at(s, beats, offset, j);
        assert(action_at(s, more, j) == action_at(s, beats, j));
        assert(saved_at(s, more, offset, j));
    }
    assert forall|from: u64| #[trigger] asked(s, beats, from) implies asked(s, more, from) by {
        let j = choose|j: int|
            0 <= j < beats.len() && #[trigger] action_at(s, beats, j) == SinkActionView::Fetch(
                from,
                s.config.batch_size as nat,
            );
        assert(action_at(s, more, j) == action_at(s, beats, j));
    }
    assert forall|records: Seq<RecordView>| #[trigger] was_read(beats, records) implies was_read(
        more,
        records,
    ) by {
        let j = choose|j: int| #[trigger] read_at(beats, records, j);
        assert(read_at(more, records, j));
    }
    assert forall|records: Seq<RecordView>| #[trigger] was_read(more, records) implies was_read(
        beats,
        records,
    ) || (beat.event matches SinkEvent::Fetched(Ok(batch)) && records == record::views(
        batch.records@,
    )) by {
        let j = choose|j: int| #[trigger] read_at(more, records, j);
        if j < n {
            assert(read_at(beats, records, j));
        }
    }
    if let SinkEvent::Fetched(Ok(batch)) = beat.event {
        assert(read_at(more, record::views(batch.records@), n));
    }
    assert forall|offset: u64| #[trigger] saved(s, more, offset) implies saved(s, beats, offset)
        || (n > 0 && action_at(s, beats, n - 1) == SinkActionView::Save(s.checkpoint(offset)) && (
    beat.event matches SinkEvent::Saved(Ok(_)))) by {
        let j = choose|j: int| #[trigger] saved_at(s, more, offset, j);
        assert(action_at(s, more, j) == action_at(s, beats, j));
        if j + 1 < n {
            assert(saved_at(s, beats, offset, j));
        }
    }
    assert forall|from: u64| #[trigger] asked(s, more, from) implies asked(s, beats, from)
        || state_after(s, beats).turn(beat.event, beat.now).action == SinkActionView::Fetch(
        from,
        s.config.batch_size as nat,
    ) by {
        let j = choose|j: int|
            0 <= j < more.len() && #[trigger] action_at(s, more, j) == SinkActionView::Fetch(
                from,
                s.config.batch_size as nat,
            );
        if j < n {
            assert(action_at(s, more, j) == action_at(s, beats, j));
        }
    }
}

/// What a sink makes of the events of a delivery.
proof fn lemma_turn_in_batch(st: SinkView, event: SinkEvent, now: Instant)
    ensures
        (st.phase matches PhaseView::Delivering(batch) && event matches SinkEvent::Delivered(Ok(_)))
            ==> st.turn(event, now) == (SinkView {
            processed: crate::sink::wrapped(st.processed),
            ..st
        }).going_on(next_delivered(st.phase->Delivering_0)),
        (st.phase matches PhaseView::Delivering(batch) && event matches SinkEvent::Delivered(
            Err(e),
        )) ==> st.turn(event, now) == st.refused(
            st.phase->Delivering_0,
            event->Delivered_0->Err_0,
            now,
        ),
        (st.phase matches PhaseView::Burying(batch) && event matches SinkEvent::DeadLettered(
            Ok(_),
        )) ==> st.turn(event, now) == (SinkView {
            dead: crate::sink::wrapped(st.dead),
            ..st
        }).going_on(next_buried(st.phase->Burying_0)),
        (st.phase matches PhaseView::Burying(batch) && event matches SinkEvent::DeadLettered(
            Err(e),
        )) ==> st.turn(event, now) == st.failed(event->DeadLettered_0->Err_0),
{
    reveal(SinkView::turn);
}

/// What a sink makes of a batch that was read.
proof fn lemma_turn_fetched(st: SinkView, event: SinkEvent, now: Instant)
    ensures
        (st.phase matches PhaseView::Fetching(start) && event matches SinkEvent::Fetched(Ok(batch)))
            ==> st.turn(event, now) == st.read(
            st.phase->Fetching_0,
            record::views(event->Fetched_0->Ok_0.records@),
        ),
        (st.phase matches PhaseView::Fetching(start) && event matches SinkEvent::Fetched(Err(e)))
            ==> st.turn(event, now) == st.failed(event->Fetched_0->Err_0),
{
    reveal(SinkView::turn);
}

/// The batch after the record in hand was delivered.
spec fn next_delivered(batch: BatchView) -> BatchView {
    BatchView {
        index: batch.index + 1,
        attempt: 1,
        delivered: batch.delivered + 1,
        ..batch
    }
}

/// The batch after the record in hand was dead-lettered.
spec fn next_buried(batch: BatchView) -> BatchView {
    BatchView { index: batch.index + 1, attempt: 1, dead: batch.dead + 1, ..batch }
}

/// Going on with a batch that tells of the beats truly keeps the round sound.
proof fn lemma_arrive(s: SinkView, beats: Seq<Beat>, base: SinkView, batch: BatchView)
    requires
        beats.len() > 0,
        state_after(s, beats) == base.going_on(batch).state,
        action_at(s, beats, beats.len() - 1) == base.going_on(batch).action,
        base.carries(batch),
        base.id == s.id,
        base.topic == s.topic,
        base.partition == s.partition,
        base.config == s.config,
        accounts(s, beats, base, batch, true),
    ensures
        sound(s, beats),
{
    let st = state_after(s, beats);
    assert(st.processed == base.processed && st.dead == base.dead && st.cursor == base.cursor);
    assert(accounts(s, beats, st, batch, true));
    if st.phase is Idle {
        lemma_committed(s, beats, st, batch);
    }
}

proof fn lemma_from_idle(s: SinkView, beats: Seq<Beat>, beat: Beat)
    requires
        beats.len() == 0,
        s.phase is Idle,
        s.awaits(beat.event),
    ensures
        sound(s, beats.push(beat)),
{
    lemma_extend(s, beats, beat);
    reveal(SinkView::turn);
    let more = beats.push(beat);
    assert forall|records: Seq<RecordView>| !#[trigger] was_read(more, records) by {
        if was_read(more, records) {
            let j = choose|j: int| #[trigger] read_at(more, records, j);
            assert(j == 0);
        }
    }
    assert(action_at(s, more, 0) == s.turn(beat.event, beat.now).action);
}

proof fn lemma_from_loading(s: SinkView, beats: Seq<Beat>, beat: Beat)
    requires
        sound(s, beats),
        state_after(s, beats).phase is Loading,
        state_after(s, beats).awaits(beat.event),
    ensures
        sound(s, beats.push(beat)),
{
    lemma_extend(s, beats, beat);
    reveal(SinkView::turn);
    let more = beats.push(beat);
    assert(action_at(s, more, beats.len() as int) == state_after(s, beats).turn(
        beat.event,
        beat.now,
    ).action);
}

proof fn lemma_from_fetching(s: SinkView, beats: Seq<Beat>, beat: Beat)
    requires
        sound(s, beats),
        state_after(s, beats).phase is Fetching,
        state_after(s, beats).awaits(beat.event),
    ensures
        sound(s, beats.push(beat)),
{
    lemma_extend(s, beats, beat);
    lemma_turn_fetched(state_after(s, beats), beat.event, beat.now);
    let st = state_after(s, beats);
    let more = beats.push(beat);
    if let SinkEvent::Fetched(Ok(fetched)) = beat.event {
        let records = record::views(fetched.records@);
        if records.len() > 0 {
            assert(records.last() == fetched.records@.last()@);
            assert(records.len() == fetched.records.len());
            let batch = BatchView {
                records,
                next: (records.last().offset + 1) as u64,
                index: 0,
                attempt: 1,
                delivered: 0,
                dead: 0,
            };
            assert(st.carries(batch));
            if s.config.guarantee is AtMostOnce {
                assert(accounts(s, more, state_after(s, more), batch, false));
            } else {
                assert(accounts(s, more, st, batch, true));
                lemma_arrive(s, more, st, batch);
            }
        } else {
            assert(was_read(more, records));
            assert(reports_truly(
                s,
                more,
                state_after(s, more),
                DeliveryReport {
                    polled: 0,
                    delivered: 0,
                    dead_lettered: 0,
                    checkpoint: Offset(st.phase->Fetching_0),
                },
            ));
        }
    }
}

proof fn lemma_from_precommitting(s: SinkView, beats: Seq<Beat>, beat: Beat)
    requires
        sound(s, beats),
        state_after(s, beats).phase is Precommitting,
        state_after(s, beats).awaits(beat.event),
    ensures
        sound(s, beats.push(beat)),
{
    lemma_extend(s, beats, beat);
    reveal(SinkView::turn);
    let st = state_after(s, beats);
    let more = beats.push(beat);
    if let PhaseView::Precommitting(batch) = st.phase {
        if let SinkEvent::Saved(Ok(_)) = beat.event {
            let base = SinkView { cursor: Some(Offset(batch.next)), ..st };
            let j = beats.len() - 1;
            assert(action_at(s, more, j) == action_at(s, beats, j));
            assert(saved_at(s, more, batch.next, j));
            assert(saved(s, more, batch.next));
            assert(accounts(s, more, base, batch, true));
            lemma_arrive(s, more, base, batch);
        }
    }
}

proof fn lemma_from_delivering(s: SinkView, beats: Seq<Beat>, beat: Beat)
    requires
        sound(s, beats),
        state_after(s, beats).phase is Delivering,
        state_after(s, beats).awaits(beat.event),
    ensures
        sound(s, beats.push(beat)),
{
    lemma_extend(s, beats, beat);
    lemma_turn_in_batch(state_after(s, beats), beat.event, beat.now);
    let st = state_after(s, beats);
    let more = beats.push(beat);
    if let PhaseView::Delivering(batch) = st.phase {
        let j = beats.len() - 1;
        assert(action_at(s, more, j) == action_at(s, beats, j));
        match beat.event {
            SinkEvent::Delivered(Ok(_)) => {
                let base = SinkView { processed: crate::sink::wrapped(st.processed), ..st };
                let next = next_delivered(batch);
                assert(handled_at(s, more, batch.records[batch.index], j));
                assert forall|i: int| 0 <= i < next.index implies handled(
                    s,
                    more,
                    #[trigger] next.records[i],
                ) by {
                    if i < batch.index {
                        assert(handled(s, beats, batch.records[i]));
                    }
                }
                assert(accounts(s, more, base, next, true));
                lemma_arrive(s, more, base, next);
            },
            SinkEvent::Delivered(Err(e)) => {
                assert forall|i: int| 0 <= i < batch.index implies handled(
                    s,
                    more,
                    #[trigger] batch.records[i],
                ) by {
                    assert(handled(s, beats, batch.records[i]));
                }
                if retry::retries(st.config.max_attempts, batch.attempt, e) {
                    let next = BatchView { attempt: (batch.attempt + 1) as u32, ..batch };
                    assert(accounts(s, more, st, next, true));
                    lemma_arrive(s, more, st, next);
                } else {
                    assert(accounts(s, more, state_after(s, more), batch, true));
                }
            },
            _ => {},
        }
    }
}

proof fn lemma_from_burying(s: SinkView, beats: Seq<Beat>, beat: Beat)
    requires
        sound(s, beats),
        state_after(s, beats).phase is Burying,
        state_after(s, beats).awaits(beat.event),
    ensures
        sound(s, beats.push(beat)),
{
    lemma_extend(s, beats, beat);
    lemma_turn_in_batch(state_after(s, beats), beat.event, beat.now);
    let st = state_after(s, beats);
    let more = beats.push(beat);
    if let PhaseView::Burying(batch) = st.phase {
        if let SinkEvent::DeadLettered(Ok(_)) = beat.event {
            let j = beats.len() - 1;
            assert(action_at(s, more, j) == action_at(s, beats, j));
            let base = SinkView { dead: crate::sink::wrapped(st.dead), ..st };
            let next = next_buried(batch);
            assert(handled_at(s, more, batch.records[batch.index], j));
            assert forall|i: int| 0 <= i < next.index implies handled(
                s,
                more,
                #[trigger] next.records[i],
            ) by {
                if i < batch.index {
                    assert(handled(s, beats, batch.records[i]));
                }
            }
            assert(accounts(s, more, base, next, true));
            lemma_arrive(s, more, base, next);
        }
    }
}

proof fn lemma_from_committing(s: SinkView, beats: Seq<Beat>, beat: Beat)
    requires
        sound(s, beats),
        state_after(s, beats).phase is Committing,
        state_after(s, beats).awaits(beat.event),
    ensures
        sound(s, beats.push(beat)),
{
    lemma_extend(s, beats, beat);
    reveal(SinkView::turn);
    let st = state_after(s, beats);
    let more = beats.push(beat);
    if let PhaseView::Committing(batch) = st.phase {
        if let SinkEvent::Saved(Ok(_)) = beat.event {
            let end = state_after(s, more);
            assert forall|i: int| 0 <= i < batch.index implies handled(
                s,
                more,
                #[trigger] batch.records[i],
            ) by {
                assert(handled(s, beats, batch.records[i]));
            }
            assert(was_read(more, batch.records));
            assert(end.cursor == Some(Offset(batch.next)));
            lemma_committed(s, more, end, batch);
        }
    }
}

/// A batch that was handled to its end, and whose checkpoint was saved behind
/// it, makes a true report.
proof fn lemma_committed(s: SinkView, beats: Seq<Beat>, st: SinkView, batch: BatchView)
    requires
        s.config == st.config,
        st.carries(batch),
        batch.index == batch.records.len(),
        st.cursor == Some(Offset(batch.next)),
        st.processed == advanced(s.processed, batch.delivered),
        st.dead == advanced(s.dead, batch.dead),
        was_read(beats, batch.records),
        forall|records: Seq<RecordView>| #[trigger]
            was_read(beats, records) ==> records == batch.records,
        forall|i: int| 0 <= i < batch.index ==> handled(s, beats, #[trigger] batch.records[i]),
    ensures
        reports_truly(
            s,
            beats,
            st,
            DeliveryReport {
                polled: batch.records.len() as u64,
                delivered: batch.delivered as u64,
                dead_lettered: batch.dead as u64,
                checkpoint: Offset(batch.next),
            },
        ),
{
}

/// At every point of a round of a sink in good order, the state of the sink
/// tells truly what has happened.
proof fn lemma_sound(s: SinkView, beats: Seq<Beat>)
    requires
        s.wf(),
        round(s, beats),
    ensures
        sound(s, beats),
    decreases beats.len(),
{
    if beats.len() > 0 {
        let n = beats.len() - 1;
        let before = beats.drop_last();
        let beat = beats.last();
        assert(before.push(beat) =~= beats);
        assert(beats.take(n) =~= before);
        let st = state_after(s, before);
        assert(st.awaits(beat.event));
        if n == 0 {
            lemma_from_idle(s, before, beat);
        } else {
            lemma_shorter(s, beats, n);
            lemma_sound(s, before);
            assert(!(beats[n].event is Start));
            match st.phase {
                PhaseView::Idle => {},
                PhaseView::Loading => {
                    lemma_from_loading(s, before, beat);
                },
                PhaseView::Fetching(_) => {
                    lemma_from_fetching(s, before, beat);
                },
                PhaseView::Precommitting(_) => {
                    lemma_from_precommitting(s, before, beat);
                },
                PhaseView::Delivering(_) => {
                    lemma_from_delivering(s, before, beat);
                },
                PhaseView::Burying(_) => {
                    lemma_from_burying(s, before, beat);
                },
                PhaseView::Committing(_) => {
                    lemma_from_committing(s, before, beat);
                },
            }
        }
    }
}

/// The first beats of a round are a round.
proof fn lemma_shorter(s: SinkView, beats: Seq<Beat>, n: int)
    requires
        round(s, beats),
        0 <= n <= beats.len(),
    ensures
        round(s, beats.take(n)),
{
    let less = beats.take(n);
    assert forall|i: int| 0 <= i < less.len() implies state_after(
        s,
        #[trigger] less.take(i),
    ).awaits(less[i].event) by {
        assert(less.take(i) =~= beats.take(i));
    }
    assert forall|i: int| 0 < i < less.len() implies !((#[trigger] less[i]).event is Start) by {
        assert(less[i] == beats[i]);
    }
}

/// Whether the sink's checkpoint is the one saved during the round, or else the
/// one that the round started from.
pub open spec fn placed(s: SinkView, beats: Seq<Beat>) -> bool {
    let st = state_after(s, beats);
    &&& forall|offset: u64| #[trigger]
        saved(s, beats, offset) ==> st.cursor == Some(Offset(offset))
    &&& forall|from: u64| #[trigger]
        asked(s, beats, from) ==> st.cursor == Some(Offset(from)) || exists|offset: u64| #[trigger]
            saved(s, beats, offset)
    &&& st.phase is Loading ==> forall|from: u64| !#[trigger] asked(s, beats, from)
    &&& {
        ||| st.phase is Loading
        ||| st.phase is Fetching
        ||| st.phase is Precommitting
        ||| st.phase is Committing
        ||| s.config.guarantee is AtLeastOnce && !(st.phase is Idle)
    } ==> forall|offset: u64| !#[trigger] saved(s, beats, offset)
}

/// How an event moves a sink's checkpoint.
proof fn lemma_turn_cursor(st: SinkView, event: SinkEvent, now: Instant)
    requires
        st.wf(),
        st.awaits(event),
    ensures
        ({
            let next = st.turn(event, now);
            &&& match next.action {
                SinkActionView::Fetch(from, _) => {
                    &&& st.phase is Idle || st.phase is Loading
                    &&& next.state.cursor == Some(Offset(from))
                    &&& next.state.phase is Fetching
                },
                _ => if event matches SinkEvent::Saved(Ok(_)) {
                    match st.phase {
                        PhaseView::Precommitting(batch) | PhaseView::Committing(batch) => {
                            &&& next.state.cursor == Some(Offset(batch.next))
                            &&& !(next.state.phase is Loading)
                        },
                        _ => false,
                    }
                } else {
                    next.state.cursor == st.cursor
                },
            }
            &&& next.state.phase is Loading ==> st.phase is Idle
            &&& next.state.phase is Precommitting ==> st.phase is Fetching
            &&& next.state.phase is Committing ==> st.config.guarantee is AtLeastOnce
            &&& st.phase is Committing ==> next.state.phase is Idle
            &&& next.state.phase is Fetching ==> next.action is Fetch
        }),
{
    reveal(SinkView::turn);
}

proof fn lemma_placed(s: SinkView, beats: Seq<Beat>)
    requires
        s.wf(),
        round(s, beats),
    ensures
        placed(s, beats),
    decreases beats.len(),
{
    if beats.len() == 0 {
        assert forall|offset: u64| !#[trigger] saved(s, beats, offset) by {
            if saved(s, beats, offset) {
                let j = choose|j: int| #[trigger] saved_at(s, beats, offset, j);
            }
        }
        assert forall|from: u64| !#[trigger] asked(s, beats, from) by {}
    } else {
        let n = beats.len() - 1;
        let before = beats.drop_last();
        let beat = beats.last();
        assert(before.push(beat) =~= beats);
        assert(beats.take(n) =~= before);
        lemma_shorter(s, beats, n);
        lemma_placed(s, before);
        lemma_sound(s, before);
        lemma_extend(s, before, beat);
        let st = state_after(s, before);
        assert(st.awaits(beat.event));
        lemma_turn_cursor(st, beat.event, beat.now);
        if n > 0 {
            assert(!(beats[n].event is Start));
        }
        lemma_placed_step(s, before, beat);
    }
}

proof fn lemma_placed_step(s: SinkView, beats: Seq<Beat>, beat: Beat)
    requires
        placed(s, beats),
        sound(s, beats),
        beats.len() > 0 ==> !(beat.event is Start),
        beats.len() == 0 ==> s.phase is Idle,
        state_after(s, beats).awaits(beat.event),
    ensures
        placed(s, beats.push(beat)),
{
    let more = beats.push(beat);
    let st = state_after(s, beats);
    let next = st.turn(beat.event, beat.now);
    lemma_extend(s, beats, beat);
    lemma_turn_cursor(st, beat.event, beat.now);
    if beats.len() == 0 {
        assert forall|offset: u64| !#[trigger] saved(s, beats, offset) by {
            if saved(s, beats, offset) {
                let j = choose|j: int| #[trigger] saved_at(s, beats, offset, j);
            }
        }
        assert forall|from: u64| !#[trigger] asked(s, beats, from) by {}
    }
    if let SinkEvent::Saved(Ok(_)) = beat.event {
        let batch = match st.phase {
            PhaseView::Precommitting(batch) => batch,
            PhaseView::Committing(batch) => batch,
            _ => arbitrary(),
        };
        assert(action_at(s, beats, beats.len() - 1) == SinkActionView::Save(
            s.checkpoint(batch.next),
        ));
        let j = beats.len() - 1;
        assert(action_at(s, more, j) == action_at(s, beats, j));
        assert(saved_at(s, more, batch.next, j));
        assert(saved(s, more, batch.next));
        assert forall|offset: u64| #[trigger] saved(s, more, offset) implies offset
            == batch.next by {
            assert(!saved(s, beats, offset));
            assert(s.checkpoint(offset).offset == s.checkpoint(batch.next).offset);
        }
    }
}

/// **At least once.** A sink that promises it saves a checkpoint only after
/// every record it has read was delivered or dead-lettered; so a crash
/// redelivers rather than drops. The checkpoint lies behind the last record.
pub proof fn law_at_least_once(s: SinkView, beats: Seq<Beat>, k: int)
    requires
        s.wf(),
        round(s, beats),
        s.config.guarantee is AtLeastOnce,
        0 <= k < beats.len(),
        action_at(s, beats, k) is Save,
    ensures
        exists|records: Seq<RecordView>| #[trigger]
            was_read(beats.take(k + 1), records) && action_at(s, beats, k) == SinkActionView::Save(
                s.checkpoint((records.last().offset + 1) as u64),
            ),
        forall|records: Seq<RecordView>, i: int|
            #![trigger was_read(beats.take(k + 1), records), records[i]]
            was_read(beats.take(k + 1), records) && 0 <= i < records.len() ==> handled(
                s,
                beats.take(k + 1),
                records[i],
            ),
{
    let so_far = beats.take(k + 1);
    lemma_shorter(s, beats, k + 1);
    lemma_sound(s, so_far);
    assert(so_far.drop_last() =~= beats.take(k));
    assert(so_far.take(k) =~= beats.take(k));
    lemma_shorter(s, beats, k);
    lemma_sound(s, beats.take(k));
    let st = state_after(s, beats.take(k));
    lemma_save_comes_last(st, beats[k].event, beats[k].now);
    if let PhaseView::Committing(batch) = state_after(s, so_far).phase {
        assert(was_read(so_far, batch.records));
    }
}

/// A sink that promises at least once saves its checkpoint as the last thing of
/// a round.
proof fn lemma_save_comes_last(st: SinkView, event: SinkEvent, now: Instant)
    requires
        st.wf(),
        st.awaits(event),
        st.turn(event, now).action is Save,
    ensures
        st.config.guarantee is AtLeastOnce ==> st.turn(event, now).state.phase is Committing,
{
    reveal(SinkView::turn);
}

/// **At most once.** A sink that promises it delivers a record only after the
/// checkpoint behind the whole batch was saved, and its own position has moved
/// there; so a crash may drop records in flight but never redelivers them.
pub proof fn law_at_most_once(s: SinkView, beats: Seq<Beat>, k: int)
    requires
        s.wf(),
        round(s, beats),
        s.config.guarantee is AtMostOnce,
        0 <= k < beats.len(),
        action_at(s, beats, k) is Deliver,
    ensures
        exists|records: Seq<RecordView>|
            {
                let next = (records.last().offset + 1) as u64;
                &&& #[trigger] was_read(beats.take(k + 1), records)
                &&& records.contains(action_at(s, beats, k)->Deliver_0)
                &&& saved(s, beats.take(k + 1), next)
                &&& state_after(s, beats.take(k + 1)).cursor == Some(Offset(next))
            },
{
    let so_far = beats.take(k + 1);
    lemma_shorter(s, beats, k + 1);
    lemma_sound(s, so_far);
    assert(so_far.drop_last() =~= beats.take(k));
    assert(so_far.take(k) =~= beats.take(k));
    lemma_shorter(s, beats, k);
    lemma_sound(s, beats.take(k));
    let st = state_after(s, beats.take(k));
    lemma_deliver_is_pending(st, beats[k].event, beats[k].now);
    if let PhaseView::Delivering(batch) = state_after(s, so_far).phase {
        assert(was_read(so_far, batch.records));
        assert(batch.records.contains(batch.records[batch.index]));
    }
}

proof fn lemma_deliver_is_pending(st: SinkView, event: SinkEvent, now: Instant)
    requires
        st.wf(),
        st.awaits(event),
        st.turn(event, now).action is Deliver,
    ensures
        st.turn(event, now).state.phase is Delivering,
{
    reveal(SinkView::turn);
}

/// What an event does to a sink before anything was read: it asks for the
/// checkpoint or for records.
proof fn lemma_step_before(st: SinkView, event: SinkEvent, now: Instant)
    requires
        st.wf(),
        st.awaits(event),
        ({
            let phase = st.turn(event, now).state.phase;
            phase is Loading || phase is Fetching
        }),
    ensures
        st.phase is Idle || st.phase is Loading,
        st.turn(event, now).action is Load || st.turn(event, now).action is Fetch,
{
    reveal(SinkView::turn);
}

/// Until records are read, a round does nothing but ask for them.
proof fn lemma_before_reading(s: SinkView, beats: Seq<Beat>, k: int, m: int)
    requires
        s.wf(),
        round(s, beats),
        0 <= m <= k < beats.len(),
        beats[k].event is Fetched,
    ensures
        ({
            let phase = state_after(s, beats.take(m)).phase;
            phase is Fetching || phase is Loading || phase is Idle
        }),
        m == k ==> state_after(s, beats.take(m)).phase is Fetching,
        m < k ==> action_at(s, beats, m) is Load || action_at(s, beats, m) is Fetch,
        state_after(s, beats.take(m)).phase is Idle ==> m == 0,
    decreases k - m,
{
    let st = state_after(s, beats.take(m));
    lemma_shorter(s, beats, m);
    lemma_sound(s, beats.take(m));
    assert(st.awaits(beats[m].event));
    if m < k {
        lemma_before_reading(s, beats, k, m + 1);
        assert(beats.take(m + 1).drop_last() =~= beats.take(m));
        assert(!(beats[m + 1].event is Start));
        lemma_step_before(st, beats[m].event, beats[m].now);
    }
    if m > 0 {
        assert(!(beats[m].event is Start));
    }
}

/// What an event does to a sink that delivers at most once, once it has saved
/// its checkpoint: it saves no other.
proof fn lemma_step_after(st: SinkView, event: SinkEvent, now: Instant)
    requires
        st.wf(),
        st.awaits(event),
        st.config.guarantee is AtMostOnce,
        st.phase is Delivering || st.phase is Burying,
    ensures
        ({
            let next = st.turn(event, now);
            &&& next.state.phase is Delivering || next.state.phase is Burying
                || next.state.phase is Idle
            &&& !(next.action is Save)
        }),
{
    reveal(SinkView::turn);
}

/// What saving the checkpoint leads to: the first delivery, or the end of the
/// round if it fails.
proof fn lemma_step_saved(st: SinkView, event: SinkEvent, now: Instant)
    requires
        st.wf(),
        st.awaits(event),
        st.phase is Precommitting,
    ensures
        match event {
            SinkEvent::Saved(Ok(_)) => {
                &&& st.turn(event, now).state.phase is Delivering
                &&& st.turn(event, now).action is Deliver
            },
            SinkEvent::Saved(Err(e)) => {
                &&& st.turn(event, now).state.phase is Idle
                &&& st.turn(event, now).action == SinkActionView::Done(Err(CoreError::Port(e)))
            },
            _ => false,
        },
{
    reveal(SinkView::turn);
}

/// What reading records leads to in a sink that delivers at most once.
proof fn lemma_step_read(st: SinkView, event: SinkEvent, now: Instant, records: Seq<RecordView>)
    requires
        st.awaits(event),
        st.phase is Fetching,
        st.config.guarantee is AtMostOnce,
        event matches SinkEvent::Fetched(Ok(batch)) && record::views(batch.records@) == records,
        records.len() > 0,
    ensures
        records.last().offset < u64::MAX,
        st.turn(event, now).state.phase is Precommitting,
        st.turn(event, now).action == SinkActionView::Save(
            st.checkpoint((records.last().offset + 1) as u64),
        ),
{
    reveal(SinkView::turn);
    if let SinkEvent::Fetched(Ok(batch)) = event {
        assert(records.last() == batch.records@.last()@);
    }
}

/// Behind the saved checkpoint, a round of a sink that delivers at most once
/// delivers and dead-letters until it ends.
proof fn lemma_after_saving(s: SinkView, beats: Seq<Beat>, records: Seq<RecordView>, k: int, m: int)
    requires
        s.wf(),
        round(s, beats),
        s.config.guarantee is AtMostOnce,
        read_at(beats, records, k),
        records.len() > 0,
        k + 1 < m <= beats.len(),
    ensures
        ({
            let phase = state_after(s, beats.take(m)).phase;
            phase is Delivering || phase is Burying || phase is Idle
        }),
        !(action_at(s, beats, m - 1) is Save),
        beats[k + 1].event is Saved,
        beats[k + 1].event matches SinkEvent::Saved(Err(e)) ==> m == k + 2 && action_at(
            s,
            beats,
            k + 1,
        ) == SinkActionView::Done(Err(CoreError::Port(e))) && state_after(
            s,
            beats.take(m),
        ).phase is Idle,
        m < beats.len() ==> !(state_after(s, beats.take(m)).phase is Idle),
    decreases m,
{
    let last = m - 1;
    let st = state_after(s, beats.take(last));
    assert(beats.take(m).drop_last() =~= beats.take(last));
    lemma_shorter(s, beats, last);
    lemma_sound(s, beats.take(last));
    assert(st.awaits(beats[last].event));
    if m == k + 2 {
        lemma_reading_saves(s, beats, records, k);
        lemma_step_saved(st, beats[last].event, beats[last].now);
    } else {
        lemma_after_saving(s, beats, records, k, last);
        lemma_step_after(st, beats[last].event, beats[last].now);
    }
    if m < beats.len() {
        assert(!(beats[m].event is Start));
        assert(state_after(s, beats.take(m)).awaits(beats[m].event));
    }
}

/// A sink that delivers at most once saves the checkpoint behind a batch as soon
/// as it is read.
proof fn lemma_reading_saves(s: SinkView, beats: Seq<Beat>, records: Seq<RecordView>, k: int)
    requires
        s.wf(),
        round(s, beats),
        s.config.guarantee is AtMostOnce,
        read_at(beats, records, k),
        records.len() > 0,
    ensures
        records.last().offset < u64::MAX,
        action_at(s, beats, k) == SinkActionView::Save(
            s.checkpoint((records.last().offset + 1) as u64),
        ),
        state_after(s, beats.take(k + 1)).phase is Precommitting,
{
    let st = state_after(s, beats.take(k));
    lemma_shorter(s, beats, k);
    lemma_sound(s, beats.take(k));
    lemma_before_reading(s, beats, k, k);
    assert(st.awaits(beats[k].event));
    lemma_step_read(st, beats[k].event, beats[k].now, records);
    assert(beats.take(k + 1).drop_last() =~= beats.take(k));
}

/// **At most once, in full.** A sink that promises it, having read a batch, saves
/// exactly one checkpoint: the one behind the last record, and before anything
/// else. If that fails, the round ends with the error of the store, and nothing
/// is delivered or dead-lettered. If it succeeds, the next round reads from behind
/// the batch, however this one ends: nothing is delivered again.
pub proof fn law_at_most_once_saves_first(
    s: SinkView,
    beats: Seq<Beat>,
    records: Seq<RecordView>,
    k: int,
)
    requires
        s.wf(),
        round(s, beats),
        s.config.guarantee is AtMostOnce,
        read_at(beats, records, k),
        records.len() > 0,
    ensures
        records.last().offset < u64::MAX,
        action_at(s, beats, k) == SinkActionView::Save(
            s.checkpoint((records.last().offset + 1) as u64),
        ),
        forall|j: int|
            0 <= j < beats.len() && #[trigger] action_at(s, beats, j) is Save ==> j == k,
        forall|j: int|
            0 <= j < beats.len() && (#[trigger] action_at(s, beats, j) is Deliver || action_at(
                s,
                beats,
                j,
            ) is DeadLetter) ==> k < j && (beats[k + 1].event matches SinkEvent::Saved(Ok(_))),
        k + 1 < beats.len() ==> beats[k + 1].event is Saved,
        k + 1 < beats.len() ==> (beats[k + 1].event matches SinkEvent::Saved(Err(e))
            ==> beats.len() == k + 2 && action_at(s, beats, k + 1) == SinkActionView::Done(
            Err(CoreError::Port(e)),
        )),
        k + 1 < beats.len() && (beats[k + 1].event matches SinkEvent::Saved(Ok(_))) && state_after(
            s,
            beats,
        ).phase is Idle ==> forall|now: Instant| #[trigger]
            state_after(s, beats).turn(SinkEvent::Start, now).action == SinkActionView::Fetch(
                (records.last().offset + 1) as u64,
                s.config.batch_size as nat,
            ),
{
    let next = (records.last().offset + 1) as u64;
    lemma_reading_saves(s, beats, records, k);
    assert forall|j: int| 0 <= j < beats.len() && #[trigger] action_at(s, beats, j) is Save implies j
        == k by {
        if j < k {
            lemma_before_reading(s, beats, k, j);
        } else if j > k {
            lemma_after_saving(s, beats, records, k, j + 1);
        }
    }
    assert forall|j: int|
        0 <= j < beats.len() && (#[trigger] action_at(s, beats, j) is Deliver || action_at(
            s,
            beats,
            j,
        ) is DeadLetter) implies k < j && (beats[k + 1].event matches SinkEvent::Saved(Ok(_))) by {
        if j < k {
            lemma_before_reading(s, beats, k, j);
        } else if j > k {
            lemma_after_saving(s, beats, records, k, j + 1);
        }
    }
    if k + 1 < beats.len() {
        lemma_after_saving(s, beats, records, k, beats.len() as int);
        if beats[k + 1].event matches SinkEvent::Saved(Ok(_)) {
            assert(saved_at(s, beats, next, k));
            assert(saved(s, beats, next));
            law_position_is_the_saved_checkpoint(s, beats);
        }
    }
}

/// A round that ends well reports truly: see [`reports_truly`].
pub proof fn law_reports_are_true(s: SinkView, beats: Seq<Beat>, report: DeliveryReport)
    requires
        s.wf(),
        round(s, beats),
        beats.len() > 0,
        action_at(s, beats, beats.len() - 1) == SinkActionView::Done(
            Ok::<DeliveryReport, CoreError>(report),
        ),
    ensures
        reports_truly(s, beats, state_after(s, beats), report),
        state_after(s, beats).phase is Idle,
{
    let n = beats.len() - 1;
    lemma_sound(s, beats);
    lemma_shorter(s, beats, n);
    lemma_sound(s, beats.take(n));
    assert(beats.take(n) =~= beats.drop_last());
    lemma_done_is_idle(state_after(s, beats.take(n)), beats[n].event, beats[n].now);
}

proof fn lemma_done_is_idle(st: SinkView, event: SinkEvent, now: Instant)
    requires
        st.wf(),
        st.awaits(event),
        st.turn(event, now).action is Done,
    ensures
        st.turn(event, now).state.phase is Idle,
{
    reveal(SinkView::turn);
}

/// Wherever a round stops, the sink's position is the checkpoint that the round
/// saved, if it saved one, and else the one that it read from; and the next
/// round reads from there. So a round that fails before its checkpoint is saved
/// is done over from the same record, and one that got that far is not.
pub proof fn law_position_is_the_saved_checkpoint(s: SinkView, beats: Seq<Beat>)
    requires
        s.wf(),
        round(s, beats),
    ensures
        placed(s, beats),
        state_after(s, beats).phase is Idle ==> {
            let st = state_after(s, beats);
            forall|offset: u64, now: Instant|
                #![trigger saved(s, beats, offset), st.turn(SinkEvent::Start, now)]
                saved(s, beats, offset) ==> st.turn(SinkEvent::Start, now).action
                    == SinkActionView::Fetch(offset, s.config.batch_size as nat)
        },
        state_after(s, beats).phase is Idle && (forall|offset: u64|
            !#[trigger] saved(s, beats, offset)) ==> {
            let st = state_after(s, beats);
            forall|from: u64, now: Instant|
                #![trigger asked(s, beats, from), st.turn(SinkEvent::Start, now)]
                asked(s, beats, from) ==> st.turn(SinkEvent::Start, now).action
                    == SinkActionView::Fetch(from, s.config.batch_size as nat)
        },
{
    lemma_placed(s, beats);
    lemma_sound(s, beats);
    reveal(SinkView::turn);
}

/// A sink that starts anew resumes exactly at the checkpoint that was saved, or
/// at the very first offset if none was.
pub proof fn law_restart_resumes(
    s: SinkView,
    saved: Option<Offset>,
    first: Instant,
    second: Instant,
)
    requires
        s.phase is Idle,
        s.cursor is None,
    ensures
        ({
            let start = s.turn(SinkEvent::Start, first);
            let loaded = start.state.turn(SinkEvent::Loaded(Ok(saved)), second);
            &&& start.action is Load
            &&& loaded.action == SinkActionView::Fetch(
                match saved {
                    Some(offset) => offset.0,
                    None => 0,
                },
                s.config.batch_size as nat,
            )
        }),
{
    reveal(SinkView::turn);
}

/// No record is tried more often than the configuration allows, and at least
/// one attempt is always made.
pub proof fn law_attempts_are_bounded(s: SinkView, beats: Seq<Beat>, k: int)
    requires
        s.wf(),
        round(s, beats),
        0 <= k < beats.len(),
    ensures
        action_at(s, beats, k) matches SinkActionView::Deliver(_, attempt) ==> 1 <= attempt
            <= retry::limit(s.config.max_attempts),
{
    if action_at(s, beats, k) is Deliver {
        let so_far = beats.take(k + 1);
        lemma_shorter(s, beats, k + 1);
        lemma_sound(s, so_far);
        assert(so_far.drop_last() =~= beats.take(k));
        assert(so_far.take(k) =~= beats.take(k));
        lemma_shorter(s, beats, k);
        lemma_sound(s, beats.take(k));
        lemma_deliver_is_pending(
            state_after(s, beats.take(k)),
            beats[k].event,
            beats[k].now,
        );
    }
}

/// A failure that a retry cannot mend, and one in the last attempt, dead-letter
/// the record at once, with the reason and the number of attempts made; any
/// other failure makes the sink try the same record again.
pub proof fn law_failed_delivery(s: SinkView, batch: BatchView, e: PortError, now: Instant)
    requires
        s.wf(),
        s.phase == PhaseView::Delivering(batch),
    ensures
        ({
            let next = s.turn(SinkEvent::Delivered(Err(e)), now);
            let r = batch.records[batch.index];
            if e.retryable() && batch.attempt < retry::limit(s.config.max_attempts) {
                next.action == SinkActionView::Deliver(r, (batch.attempt + 1) as u32)
            } else {
                next.action matches SinkActionView::DeadLetter(letter) && letter.offset == r.offset
                    && letter.payload == r.payload && letter.reason == e.message()
                    && letter.attempts == batch.attempt && letter.failed_at == now
            }
        }),
{
    reveal(SinkView::turn);
}

/// A record that is dead-lettered does not hold up the ones behind it: with the
/// letter stored, the next record is delivered, or the batch is at its end.
pub proof fn law_dead_letters_do_not_block(s: SinkView, batch: BatchView, now: Instant)
    requires
        s.wf(),
        s.phase == PhaseView::Burying(batch),
    ensures
        ({
            let next = s.turn(SinkEvent::DeadLettered(Ok(())), now);
            if batch.index + 1 < batch.records.len() {
                next.action == SinkActionView::Deliver(batch.records[batch.index + 1], 1)
            } else {
                next.action is Save || next.action matches SinkActionView::Done(Ok(_))
            }
        }),
{
    reveal(SinkView::turn);
}

/// A sink speaks for itself alone. Whatever it asks to save or to dead-letter
/// bears its own id, its own topic and its own partition; and nothing that happens
/// to it changes those, or its configuration.
pub proof fn law_a_sink_speaks_for_itself(s: SinkView, event: SinkEvent, now: Instant)
    ensures
        ({
            let next = s.turn(event, now);
            &&& next.state.id == s.id
            &&& next.state.topic == s.topic
            &&& next.state.partition == s.partition
            &&& next.state.config == s.config
            &&& next.action matches SinkActionView::Save(c) ==> {
                &&& c.connector == s.id
                &&& c.topic == s.topic
                &&& c.partition == s.partition
            }
            &&& next.action matches SinkActionView::DeadLetter(letter) ==> {
                &&& letter.connector == s.id@
                &&& letter.topic == s.topic@
                &&& letter.partition == s.partition.0
            }
        }),
{
    reveal(SinkView::turn);
}

/// What a sink is doing when it asks to save a checkpoint.
proof fn lemma_save_is_pending(st: SinkView, event: SinkEvent, now: Instant)
    requires
        st.wf(),
        st.awaits(event),
        st.turn(event, now).action is Save,
    ensures
        st.turn(event, now).state.phase is Precommitting || st.turn(event, now).state.phase
            is Committing,
{
    reveal(SinkView::turn);
}

/// Whenever a sink saves a checkpoint, under either guarantee, it is its own and
/// lies right behind the last record that it has read.
pub proof fn law_checkpoints_lie_behind_what_was_read(s: SinkView, beats: Seq<Beat>, k: int)
    requires
        s.wf(),
        round(s, beats),
        0 <= k < beats.len(),
        action_at(s, beats, k) is Save,
    ensures
        action_at(s, beats, k) matches SinkActionView::Save(c) && {
            &&& c.connector == s.id
            &&& c.topic == s.topic
            &&& c.partition == s.partition
            &&& exists|records: Seq<RecordView>| #[trigger]
                was_read(beats.take(k + 1), records) && records.len() > 0
            &&& forall|records: Seq<RecordView>| #[trigger]
                was_read(beats.take(k + 1), records) ==> c.offset.0 == records.last().offset + 1
        },
{
    let so_far = beats.take(k + 1);
    let st = state_after(s, beats.take(k));
    lemma_shorter(s, beats, k + 1);
    lemma_sound(s, so_far);
    assert(so_far.drop_last() =~= beats.take(k));
    assert(so_far.take(k) =~= beats.take(k));
    lemma_shorter(s, beats, k);
    lemma_sound(s, beats.take(k));
    assert(st.awaits(beats[k].event));
    lemma_save_is_pending(st, beats[k].event, beats[k].now);
    law_a_sink_speaks_for_itself(st, beats[k].event, beats[k].now);
    match state_after(s, so_far).phase {
        PhaseView::Precommitting(batch) | PhaseView::Committing(batch) => {
            assert(was_read(so_far, batch.records));
        },
        _ => {},
    }
}

/// A sink that is started anew goes on where the last one stopped: what it finds
/// saved under its own id, topic and partition is what the earlier sink of that
/// id, topic and partition saved, in memory as in files, and it reads from right
/// behind the records that were read then.
pub proof fn law_restart_goes_on_behind_the_batch(
    s: SinkView,
    beats: Seq<Beat>,
    k: int,
    records: Seq<RecordView>,
    again: SinkView,
    map: Map<Seq<char>, u64>,
    files: Map<Seq<char>, Seq<u8>>,
    first: Instant,
    second: Instant,
)
    requires
        s.wf(),
        round(s, beats),
        0 <= k < beats.len(),
        action_at(s, beats, k) is Save,
        was_read(beats.take(k + 1), records),
        checkpoint::valid_names(s.id@, s.topic@),
        again.id == s.id,
        again.topic == s.topic,
        again.partition == s.partition,
        again.phase is Idle,
        again.cursor is None,
    ensures
        ({
            let c = action_at(s, beats, k)->Save_0;
            let key = checkpoint::key_text(again.id@, again.topic@, again.partition.0);
            let file = checkpoint::FileCheckpointStore::file_text(
                again.id@,
                again.topic@,
                again.partition.0,
            );
            let kept = checkpoint::all_kept(map, seq![c]);
            let stored = checkpoint::all_persisted(files, seq![c]);
            let next = (records.last().offset + 1) as u64;
            let start = again.turn(SinkEvent::Start, first);
            let loaded = start.state.turn(
                SinkEvent::Loaded(Ok(Some(Offset(kept[key])))),
                second,
            );
            &&& kept.contains_key(key)
            &&& kept[key] == records.last().offset + 1
            &&& stored.contains_key(file)
            &&& checkpoint::number_in(stored[file]) == Ok::<u64, Seq<char>>(next)
            &&& start.action is Load
            &&& loaded.action == SinkActionView::Fetch(next, again.config.batch_size as nat)
        }),
{
    law_checkpoints_lie_behind_what_was_read(s, beats, k);
    let c = action_at(s, beats, k)->Save_0;
    let saves = seq![c];
    checkpoint::law_load_gives_the_last_save(
        files,
        map,
        saves,
        s.id@,
        s.topic@,
        s.partition.0,
    );
    assert(saves.last() == c);
    assert(checkpoint::belongs(saves.last(), s.id@, s.topic@, s.partition.0));
    law_restart_resumes(again, Some(c.offset), first, second);
}

/// What a sink is doing when it asks to dead-letter a record.
proof fn lemma_letter_is_of_the_failed(st: SinkView, event: SinkEvent, now: Instant)
    requires
        st.wf(),
        st.awaits(event),
        st.turn(event, now).action is DeadLetter,
    ensures
        st.phase matches PhaseView::Delivering(batch) && {
            let r = batch.records[batch.index];
            &&& event matches SinkEvent::Delivered(Err(e)) && {
                &&& !(e is Unavailable || e is Transient) || batch.attempt
                    >= st.config.max_attempts
                &&& st.turn(event, now).action matches SinkActionView::DeadLetter(letter) && {
                    &&& letter.offset == r.offset
                    &&& letter.payload == r.payload
                    &&& letter.attempts == batch.attempt
                    &&& letter.reason == e.message()
                    &&& letter.failed_at == now
                }
            }
        },
{
    reveal(SinkView::turn);
}

/// A dead letter tells of the delivery that failed last: the record that was being
/// delivered, read in this round from the sink's own topic and partition, the
/// failure, and the number of attempts made. It is written only where trying
/// again cannot help or no attempts are left.
pub proof fn law_dead_letters_tell_of_what_failed(s: SinkView, beats: Seq<Beat>, k: int)
    requires
        s.wf(),
        round(s, beats),
        0 <= k < beats.len(),
        action_at(s, beats, k) is DeadLetter,
    ensures
        action_at(s, beats, k) matches SinkActionView::DeadLetter(letter) && {
            &&& letter.connector == s.id@
            &&& letter.topic == s.topic@
            &&& letter.partition == s.partition.0
            &&& letter.failed_at == beats[k].now
            &&& k > 0
            &&& action_at(s, beats, k - 1) matches SinkActionView::Deliver(r, attempt) && {
                &&& letter.offset == r.offset
                &&& letter.payload == r.payload
                &&& letter.attempts == attempt
                &&& beats[k].event matches SinkEvent::Delivered(Err(e)) && {
                    &&& letter.reason == e.message()
                    &&& !(e is Unavailable || e is Transient) || attempt >= s.config.max_attempts
                }
                &&& exists|records: Seq<RecordView>| #[trigger]
                    was_read(beats.take(k), records) && records.contains(r)
            }
        },
{
    let st = state_after(s, beats.take(k));
    lemma_shorter(s, beats, k);
    lemma_sound(s, beats.take(k));
    assert(st.awaits(beats[k].event));
    lemma_letter_is_of_the_failed(st, beats[k].event, beats[k].now);
    law_a_sink_speaks_for_itself(st, beats[k].event, beats[k].now);
    if let PhaseView::Delivering(batch) = st.phase {
        assert(beats.take(k).len() == k);
        assert(beats.take(k).take(k - 1) =~= beats.take(k - 1));
        assert(action_at(s, beats, k - 1) == action_at(s, beats.take(k), k - 1));
        assert(was_read(beats.take(k), batch.records));
        assert(batch.records.contains(batch.records[batch.index]));
    }
}

/// What is delivered next, and in which attempt.
proof fn lemma_what_is_delivered(st: SinkView, event: SinkEvent, now: Instant)
    requires
        st.wf(),
        st.awaits(event),
        st.turn(event, now).action is Deliver,
    ensures
        st.turn(event, now).action matches SinkActionView::Deliver(r, attempt) && match st.phase {
            PhaseView::Fetching(_) => {
                &&& event matches SinkEvent::Fetched(Ok(read)) && read.records@.len() > 0 && r
                    == record::views(read.records@)[0]
                &&& attempt == 1
            },
            PhaseView::Precommitting(batch) => r == batch.records[0] && attempt == batch.attempt,
            PhaseView::Delivering(batch) => match event {
                SinkEvent::Delivered(Ok(_)) => batch.index + 1 < batch.records.len() && r
                    == batch.records[batch.index + 1] && attempt == 1,
                SinkEvent::Delivered(Err(e)) => (e is Unavailable || e is Transient)
                    && batch.attempt < st.config.max_attempts && r == batch.records[batch.index]
                    && attempt == batch.attempt + 1,
                _ => false,
            },
            PhaseView::Burying(batch) => batch.index + 1 < batch.records.len() && r
                == batch.records[batch.index + 1] && attempt == 1,
            _ => false,
        },
{
    reveal(SinkView::turn);
}

/// Attempts are counted as they are made: a first attempt is numbered one, and
/// any other is one more than the attempt before it, which was of the same record
/// and failed in a way that a retry may mend.
pub proof fn law_attempts_count_up(s: SinkView, beats: Seq<Beat>, k: int)
    requires
        s.wf(),
        round(s, beats),
        0 <= k < beats.len(),
        action_at(s, beats, k) is Deliver,
    ensures
        action_at(s, beats, k) matches SinkActionView::Deliver(r, attempt) && {
            ||| attempt == 1
            ||| {
                &&& k > 0
                &&& action_at(s, beats, k - 1) == SinkActionView::Deliver(r, (attempt - 1) as u32)
                &&& attempt <= s.config.max_attempts
                &&& beats[k].event matches SinkEvent::Delivered(Err(e)) && (e is Unavailable
                    || e is Transient)
            }
        },
{
    let st = state_after(s, beats.take(k));
    lemma_shorter(s, beats, k);
    lemma_sound(s, beats.take(k));
    assert(st.awaits(beats[k].event));
    lemma_what_is_delivered(st, beats[k].event, beats[k].now);
    if k > 0 {
        let earlier = state_after(s, beats.take(k - 1));
        assert(beats.take(k).take(k - 1) =~= beats.take(k - 1));
        assert(beats.take(k).drop_last() =~= beats.take(k - 1));
        assert(action_at(s, beats, k - 1) == action_at(s, beats.take(k), k - 1));
        lemma_shorter(s, beats, k - 1);
        lemma_sound(s, beats.take(k - 1));
        assert(earlier.awaits(beats[k - 1].event));
        lemma_first_attempt(earlier, beats[k - 1].event, beats[k - 1].now);
    }
}

/// A batch that was just read has not been tried yet.
proof fn lemma_first_attempt(st: SinkView, event: SinkEvent, now: Instant)
    requires
        st.wf(),
        st.awaits(event),
    ensures
        st.turn(event, now).state.phase matches PhaseView::Precommitting(batch) ==> batch.attempt
            == 1,
{
    reveal(SinkView::turn);
}

/// A sink goes through a batch record by record, in order and leaving none out:
/// once a record is delivered, the next one is, or the batch is at its end. At its
/// end a sink that promises at least once saves its checkpoint, and one that
/// promises at most once, having saved it already, ends the round.
pub proof fn law_records_are_delivered_in_order(s: SinkView, batch: BatchView, now: Instant)
    requires
        s.wf(),
    ensures
        s.phase == PhaseView::Precommitting(batch) ==> s.turn(
            SinkEvent::Saved(Ok(())),
            now,
        ).action == SinkActionView::Deliver(batch.records[0], batch.attempt),
        s.phase == PhaseView::Delivering(batch) ==> {
            let next = s.turn(SinkEvent::Delivered(Ok(())), now);
            if batch.index + 1 < batch.records.len() {
                next.action == SinkActionView::Deliver(batch.records[batch.index + 1], 1)
            } else if s.config.guarantee is AtLeastOnce {
                next.action is Save
            } else {
                next.action matches SinkActionView::Done(Ok(_))
            }
        },
        s.phase == PhaseView::Burying(batch) ==> {
            let next = s.turn(SinkEvent::DeadLettered(Ok(())), now);
            if batch.index + 1 < batch.records.len() {
                next.action == SinkActionView::Deliver(batch.records[batch.index + 1], 1)
            } else if s.config.guarantee is AtLeastOnce {
                next.action is Save
            } else {
                next.action matches SinkActionView::Done(Ok(_))
            }
        },
{
    reveal(SinkView::turn);
}

/// A round starts from the sink's position: the one it knows, or else the one that
/// was saved, or else the very first offset; and it reads as many records as the
/// sink is configured to. What it reads is delivered from its first record on, at
/// once where the sink promises at least once; and if it reads nothing, the round
/// is over and nothing moves.
pub proof fn law_rounds_start_at_the_position(
    s: SinkView,
    read: crate::stats::FetchResult,
    start: u64,
    now: Instant,
)
    requires
        s.wf(),
    ensures
        s.phase is Idle && s.cursor == Some(Offset(start)) ==> s.turn(
            SinkEvent::Start,
            now,
        ).action == SinkActionView::Fetch(start, s.config.batch_size as nat),
        s.phase is Idle && s.cursor is None ==> s.turn(SinkEvent::Start, now).action is Load,
        s.phase is Loading ==> {
            &&& s.turn(SinkEvent::Loaded(Ok(Some(Offset(start)))), now).action
                == SinkActionView::Fetch(start, s.config.batch_size as nat)
            &&& s.turn(SinkEvent::Loaded(Ok(None)), now).action == SinkActionView::Fetch(
                0,
                s.config.batch_size as nat,
            )
        },
        s.phase == PhaseView::Fetching(start) && read.records@.len() == 0 ==> {
            let next = s.turn(SinkEvent::Fetched(Ok(read)), now);
            &&& next.state == (SinkView { phase: PhaseView::Idle, ..s })
            &&& next.action matches SinkActionView::Done(Ok(report)) && report.polled == 0
                && report.delivered == 0 && report.dead_lettered == 0 && report.checkpoint
                == Offset(start)
        },
        s.phase == PhaseView::Fetching(start) && read.records@.len() > 0
            && s.config.guarantee is AtLeastOnce ==> s.turn(
            SinkEvent::Fetched(Ok(read)),
            now,
        ).action == SinkActionView::Deliver(read.records@[0]@, 1),
        s.phase == PhaseView::Fetching(start) && read.records@.len() > 0
            && s.config.guarantee is AtMostOnce ==> {
            let next = s.turn(SinkEvent::Fetched(Ok(read)), now);
            &&& next.action is Save
            &&& next.state.turn(SinkEvent::Saved(Ok(())), now).action == SinkActionView::Deliver(
                read.records@[0]@,
                1,
            )
        },
{
    reveal(SinkView::turn);
}

/// A failure of the log, of the checkpoint store or of the dead-letter queue ends
/// the round with that very failure, and leaves the sink's position and its totals
/// as they were.
pub proof fn law_port_failures_end_the_round(s: SinkView, e: PortError, now: Instant)
    ensures
        s.phase is Loading ==> ends_with(s, SinkEvent::Loaded(Err(e)), now, e),
        s.phase is Fetching ==> ends_with(s, SinkEvent::Fetched(Err(e)), now, e),
        s.phase is Precommitting || s.phase is Committing ==> ends_with(
            s,
            SinkEvent::Saved(Err(e)),
            now,
            e,
        ),
        s.phase is Burying ==> ends_with(s, SinkEvent::DeadLettered(Err(e)), now, e),
{
    reveal(SinkView::turn);
}

/// Whether an event ends a sink's round with a failure and changes nothing else.
pub open spec fn ends_with(s: SinkView, event: SinkEvent, now: Instant, e: PortError) -> bool {
    let next = s.turn(event, now);
    &&& next.action == SinkActionView::Done(Err(CoreError::Port(e)))
    &&& next.state == (SinkView { phase: PhaseView::Idle, ..s })
}

/// How many deliveries succeeded during the beats.
pub open spec fn deliveries(beats: Seq<Beat>) -> int
    decreases beats.len(),
{
    if beats.len() == 0 {
        0
    } else if beats.last().event matches SinkEvent::Delivered(Ok(_)) {
        deliveries(beats.drop_last()) + 1
    } else {
        deliveries(beats.drop_last())
    }
}

/// How many dead letters were stored during the beats.
pub open spec fn burials(beats: Seq<Beat>) -> int
    decreases beats.len(),
{
    if beats.len() == 0 {
        0
    } else if beats.last().event matches SinkEvent::DeadLettered(Ok(_)) {
        burials(beats.drop_last()) + 1
    } else {
        burials(beats.drop_last())
    }
}

/// Whether a batch in hand counts what happened.
pub open spec fn counts(beats: Seq<Beat>, batch: BatchView) -> bool {
    batch.delivered == deliveries(beats) && batch.dead == burials(beats)
}

/// Whether a sink's state counts what happened.
pub open spec fn tallied(s: SinkView, beats: Seq<Beat>) -> bool {
    let st = state_after(s, beats);
    &&& 0 <= deliveries(beats)
    &&& 0 <= burials(beats)
    &&& st.processed == advanced(s.processed, deliveries(beats))
    &&& st.dead == advanced(s.dead, burials(beats))
    &&& match st.phase {
        PhaseView::Loading | PhaseView::Fetching(_) => deliveries(beats) == 0 && burials(beats)
            == 0,
        PhaseView::Precommitting(batch)
        | PhaseView::Delivering(batch)
        | PhaseView::Burying(batch)
        | PhaseView::Committing(batch) => counts(beats, batch),
        PhaseView::Idle => true,
    }
}

/// How an event changes what a sink has counted.
proof fn lemma_turn_counts(st: SinkView, event: SinkEvent, now: Instant)
    requires
        st.wf(),
        st.awaits(event),
    ensures
        ({
            let next = st.turn(event, now);
            let sent = event matches SinkEvent::Delivered(Ok(_));
            let buried = event matches SinkEvent::DeadLettered(Ok(_));
            &&& next.state.processed == if sent {
                advanced(st.processed, 1)
            } else {
                st.processed as int
            }
            &&& next.state.dead == if buried {
                advanced(st.dead, 1)
            } else {
                st.dead as int
            }
            &&& sent ==> st.phase is Delivering
            &&& buried ==> st.phase is Burying
            &&& next.state.phase is Loading || next.state.phase is Fetching ==> st.phase is Idle
                || st.phase is Loading
            &&& match next.state.phase {
                PhaseView::Precommitting(batch)
                | PhaseView::Delivering(batch)
                | PhaseView::Burying(batch)
                | PhaseView::Committing(batch) => match st.phase {
                    PhaseView::Precommitting(was)
                    | PhaseView::Delivering(was)
                    | PhaseView::Burying(was)
                    | PhaseView::Committing(was) => {
                        &&& batch.delivered == was.delivered + if sent {
                            1int
                        } else {
                            0
                        }
                        &&& batch.dead == was.dead + if buried {
                            1int
                        } else {
                            0
                        }
                    },
                    PhaseView::Fetching(_) => batch.delivered == 0 && batch.dead == 0,
                    _ => false,
                },
                _ => true,
            }
            &&& next.action matches SinkActionView::Done(Ok(report)) ==> match st.phase {
                PhaseView::Delivering(was)
                | PhaseView::Burying(was)
                | PhaseView::Committing(was) => {
                    &&& report.delivered == was.delivered + if sent {
                        1int
                    } else {
                        0
                    }
                    &&& report.dead_lettered == was.dead + if buried {
                        1int
                    } else {
                        0
                    }
                },
                PhaseView::Fetching(_) => report.delivered == 0 && report.dead_lettered == 0,
                _ => false,
            }
        }),
{
    reveal(SinkView::turn);
}

/// Counting one more after some.
proof fn lemma_advanced(n: u64, by: int)
    ensures
        0 <= advanced(n, by) <= u64::MAX,
        advanced(advanced(n, by) as u64, 1) == advanced(n, by + 1),
{
}

proof fn lemma_tallied_step(s: SinkView, beats: Seq<Beat>, beat: Beat)
    requires
        tallied(s, beats),
        state_after(s, beats).wf(),
        state_after(s, beats).awaits(beat.event),
        beats.len() == 0 ==> s.phase is Idle,
        beats.len() > 0 ==> !(beat.event is Start),
    ensures
        tallied(s, beats.push(beat)),
{
    let more = beats.push(beat);
    let st = state_after(s, beats);
    assert(more.drop_last() =~= beats);
    assert(more.last() == beat);
    assert(state_after(s, more) == st.turn(beat.event, beat.now).state);
    lemma_turn_counts(st, beat.event, beat.now);
    lemma_advanced(s.processed, deliveries(beats));
    lemma_advanced(s.dead, burials(beats));
    if beats.len() == 0 {
        assert(st == s);
    }
}

proof fn lemma_tallied(s: SinkView, beats: Seq<Beat>)
    requires
        s.wf(),
        round(s, beats),
    ensures
        tallied(s, beats),
    decreases beats.len(),
{
    if beats.len() > 0 {
        let n = beats.len() - 1;
        let before = beats.drop_last();
        assert(before.push(beats.last()) =~= beats);
        assert(beats.take(n) =~= before);
        lemma_shorter(s, beats, n);
        lemma_tallied(s, before);
        lemma_sound(s, before);
        assert(state_after(s, before).awaits(beats[n].event));
        if n > 0 {
            assert(!(beats[n].event is Start));
        }
        lemma_tallied_step(s, before, beats.last());
    }
}

/// A sink counts what happened and nothing else: its totals grow by the
/// deliveries that succeeded and by the dead letters that were stored, however a
/// round ends; and a round that ends well reports just those numbers.
pub proof fn law_counts_are_of_what_happened(s: SinkView, beats: Seq<Beat>)
    requires
        s.wf(),
        round(s, beats),
    ensures
        s.processed + deliveries(beats) <= u64::MAX ==> state_after(s, beats).processed
            == s.processed + deliveries(beats),
        s.dead + burials(beats) <= u64::MAX ==> state_after(s, beats).dead == s.dead + burials(
            beats,
        ),
        beats.len() > 0 ==> (action_at(s, beats, beats.len() - 1) matches SinkActionView::Done(
            Ok(report),
        ) ==> report.delivered == deliveries(beats) && report.dead_lettered == burials(beats)),
{
    lemma_tallied(s, beats);
    if beats.len() > 0 {
        let n = beats.len() - 1;
        let before = beats.drop_last();
        assert(beats.take(n) =~= before);
        lemma_shorter(s, beats, n);
        lemma_tallied(s, before);
        lemma_sound(s, before);
        let st = state_after(s, before);
        assert(st.awaits(beats[n].event));
        lemma_turn_counts(st, beats[n].event, beats[n].now);
    }
}

/// A sink's status tells who it is, what it promises and what it has counted, and
/// its checkpoint is where its next round reads from. There is a status unless the
/// checkpoint is not known yet and could not be loaded.
pub proof fn law_status_tells_the_position(
    s: SinkView,
    loaded: Result<Option<Offset>, PortError>,
    first: Instant,
    second: Instant,
)
    ensures
        s.status(loaded) matches Ok(status) ==> {
            &&& status.id == s.id
            &&& status.kind == ConnectorKind::Sink
            &&& status.guarantee == s.config.guarantee
            &&& status.running
            &&& status.processed == s.processed
            &&& status.dead_lettered == s.dead
            &&& s.phase is Idle ==> {
                let start = s.turn(SinkEvent::Start, first);
                let asked = if s.cursor is Some {
                    start.action
                } else {
                    start.state.turn(SinkEvent::Loaded(loaded), second).action
                };
                asked == SinkActionView::Fetch(status.checkpoint.0, s.config.batch_size as nat)
            }
        },
        s.status(loaded) matches Err(e) ==> s.cursor is None && (loaded matches Err(cause) && e
            == CoreError::Port(cause)),
        s.cursor is None && loaded is Err ==> s.status(loaded) is Err,
{
    reveal(SinkView::turn);
}

} // verus!
