//! A connector pipeline: a source that fills a log, and a sink that drains it.
//!
//! A pipeline decides which of the two runs next and when it is over; the caller
//! runs a round of the one asked for and reports how it went.

use crate::connector::{DeliveryGuarantee, DeliveryReport};
use crate::text;
use vstd::prelude::*;
use vstd::string::*;

verus! {

/// How long the source of a pipeline runs.
#[derive(Debug, Clone, Copy, PartialEq, Eq, Structural)]
pub enum PipelineMode {
    /// Until it has nothing more to give.
    Drain,
    /// For one round, after which the connectors' state is made observable.
    Tick,
}

/// What a pipeline waits for.
#[derive(Debug, Clone, Copy, PartialEq, Eq, Structural)]
pub enum PipelineStage {
    /// To be started.
    New,
    /// A round of the source.
    Sourcing,
    /// A round of the sink.
    Sinking,
    /// The connectors' state to be made observable.
    Publishing,
    /// Nothing more.
    Over,
}

/// What happened to a pipeline last.
#[derive(Debug, Clone, Copy, PartialEq, Eq, Structural)]
pub enum PipelineEvent {
    /// The pipeline is to start.
    Start,
    /// The source ran a round that produced so many records.
    Sourced(u64),
    /// The sink ran a round.
    Sunk(DeliveryReport),
    /// The connectors' state was made observable.
    Published,
}

/// What a pipeline has done in all.
#[derive(Debug, Clone, Copy, PartialEq, Eq, Structural)]
pub struct PipelineTotals {
    /// Records that the source produced.
    pub sourced: u64,
    /// Records that the sink delivered.
    pub delivered: u64,
    /// Records that the sink dead-lettered.
    pub dead_lettered: u64,
}

/// What a pipeline wants done next.
#[derive(Debug, Clone, Copy, PartialEq, Eq, Structural)]
pub enum PipelineAction {
    /// Run a round of the source.
    RunSource,
    /// Run a round of the sink.
    RunSink,
    /// Make observable the status of the source, that of the sink, and the dead
    /// letters.
    Publish,
    /// The pipeline is over.
    Done(PipelineTotals),
}

/// A source and a sink at work.
#[derive(Debug)]
pub struct Pipeline {
    mode: PipelineMode,
    stage: PipelineStage,
    totals: PipelineTotals,
}

/// What is known of a pipeline.
#[verifier::ext_equal]
pub struct PipelineView {
    pub mode: PipelineMode,
    pub stage: PipelineStage,
    pub totals: PipelineTotals,
}

impl View for Pipeline {
    type V = PipelineView;

    closed spec fn view(&self) -> PipelineView {
        PipelineView { mode: self.mode, stage: self.stage, totals: self.totals }
    }
}

impl PipelineView {
    /// A pipeline that has done nothing yet.
    pub open spec fn fresh(mode: PipelineMode) -> PipelineView {
        PipelineView {
            mode,
            stage: PipelineStage::New,
            totals: PipelineTotals { sourced: 0, delivered: 0, dead_lettered: 0 },
        }
    }

    /// What always holds of a pipeline: it makes its state observable only where
    /// that is its mode.
    pub open spec fn wf(self) -> bool {
        self.stage is Publishing ==> self.mode is Tick
    }

    /// Whether the event answers what the pipeline wants done, and the totals do
    /// not run out.
    pub open spec fn awaits(self, event: PipelineEvent) -> bool {
        match (self.stage, event) {
            (PipelineStage::New, PipelineEvent::Start) => true,
            (PipelineStage::Sourcing, PipelineEvent::Sourced(n)) => self.totals.sourced + n
                <= u64::MAX,
            (PipelineStage::Sinking, PipelineEvent::Sunk(report)) => {
                &&& self.totals.delivered + report.delivered <= u64::MAX
                &&& self.totals.dead_lettered + report.dead_lettered <= u64::MAX
            },
            (PipelineStage::Publishing, PipelineEvent::Published) => true,
            _ => false,
        }
    }

    /// What a pipeline makes of an event that it awaits. The source runs until a
    /// round gives nothing, or for one round; then the sink runs until it is
    /// caught up.
    pub open spec fn step(self, event: PipelineEvent) -> (PipelineView, PipelineAction) {
        match (self.stage, event) {
            (PipelineStage::New, PipelineEvent::Start) => (
                PipelineView { stage: PipelineStage::Sourcing, ..self },
                PipelineAction::RunSource,
            ),
            (PipelineStage::Sourcing, PipelineEvent::Sourced(n)) => {
                let totals = PipelineTotals {
                    sourced: (self.totals.sourced + n) as u64,
                    ..self.totals
                };
                if self.mode is Drain && n > 0 {
                    (PipelineView { totals, ..self }, PipelineAction::RunSource)
                } else {
                    (
                        PipelineView { totals, stage: PipelineStage::Sinking, ..self },
                        PipelineAction::RunSink,
                    )
                }
            },
            (PipelineStage::Sinking, PipelineEvent::Sunk(report)) => if report.polled > 0 {
                let totals = PipelineTotals {
                    delivered: (self.totals.delivered + report.delivered) as u64,
                    dead_lettered: (self.totals.dead_lettered + report.dead_lettered) as u64,
                    ..self.totals
                };
                (PipelineView { totals, ..self }, PipelineAction::RunSink)
            } else if self.mode is Tick {
                (
                    PipelineView { stage: PipelineStage::Publishing, ..self },
                    PipelineAction::Publish,
                )
            } else {
                (
                    PipelineView { stage: PipelineStage::Over, ..self },
                    PipelineAction::Done(self.totals),
                )
            },
            _ => (
                PipelineView { stage: PipelineStage::Over, ..self },
                PipelineAction::Done(self.totals),
            ),
        }
    }
}

impl Pipeline {
    /// A pipeline that has done nothing yet.
    pub fn new(mode: PipelineMode) -> (r: Pipeline)
        ensures
            r@ == PipelineView::fresh(mode),
    {
        Pipeline {
            mode,
            stage: PipelineStage::New,
            totals: PipelineTotals { sourced: 0, delivered: 0, dead_lettered: 0 },
        }
    }

    /// Whether the totals have room for what an event reports.
    pub fn has_room(&self, event: &PipelineEvent) -> (r: bool)
        ensures
            r == match *event {
                PipelineEvent::Sourced(n) => self@.totals.sourced + n <= u64::MAX,
                PipelineEvent::Sunk(report) => {
                    &&& self@.totals.delivered + report.delivered <= u64::MAX
                    &&& self@.totals.dead_lettered + report.dead_lettered <= u64::MAX
                },
                _ => true,
            },
    {
        match event {
            PipelineEvent::Sourced(n) => self.totals.sourced <= u64::MAX - *n,
            PipelineEvent::Sunk(report) => self.totals.delivered <= u64::MAX - report.delivered
                && self.totals.dead_lettered <= u64::MAX - report.dead_lettered,
            _ => true,
        }
    }

    /// Take the pipeline one step further: given what happened last, say what to
    /// do next.
    pub fn step(&mut self, event: PipelineEvent) -> (r: PipelineAction)
        requires
            old(self)@.awaits(event),
        ensures
            (final(self)@, r) == old(self)@.step(event),
    {
        match (self.stage, event) {
            (PipelineStage::New, PipelineEvent::Start) => {
                self.stage = PipelineStage::Sourcing;
                PipelineAction::RunSource
            },
            (PipelineStage::Sourcing, PipelineEvent::Sourced(n)) => {
                self.totals.sourced = self.totals.sourced + n;
                if self.mode == PipelineMode::Drain && n > 0 {
                    PipelineAction::RunSource
                } else {
                    self.stage = PipelineStage::Sinking;
                    PipelineAction::RunSink
                }
            },
            (PipelineStage::Sinking, PipelineEvent::Sunk(report)) => {
                if report.polled > 0 {
                    self.totals.delivered = self.totals.delivered + report.delivered;
                    self.totals.dead_lettered = self.totals.dead_lettered + report.dead_lettered;
                    PipelineAction::RunSink
                } else if self.mode == PipelineMode::Tick {
                    self.stage = PipelineStage::Publishing;
                    PipelineAction::Publish
                } else {
                    self.stage = PipelineStage::Over;
                    PipelineAction::Done(self.totals)
                }
            },
            _ => {
                self.stage = PipelineStage::Over;
                PipelineAction::Done(self.totals)
            },
        }
    }
}

/// A pipeline after a sequence of events.
pub open spec fn state_after(p: PipelineView, events: Seq<PipelineEvent>) -> PipelineView
    decreases events.len(),
{
    if events.len() == 0 {
        p
    } else {
        state_after(p, events.drop_last()).step(events.last()).0
    }
}

/// What the pipeline wants done after the last of a sequence of events.
pub open spec fn last_action(p: PipelineView, events: Seq<PipelineEvent>) -> PipelineAction {
    state_after(p, events.drop_last()).step(events.last()).1
}

/// Whether each event answers the action before it.
pub open spec fn legal(p: PipelineView, events: Seq<PipelineEvent>) -> bool {
    forall|i: int|
        0 <= i < events.len() ==> state_after(p, #[trigger] events.take(i)).awaits(events[i])
}

/// Records that the source rounds of a sequence of events produced.
pub open spec fn sourced(events: Seq<PipelineEvent>) -> int
    decreases events.len(),
{
    if events.len() == 0 {
        0
    } else {
        sourced(events.drop_last()) + match events.last() {
            PipelineEvent::Sourced(n) => n as int,
            _ => 0,
        }
    }
}

/// Records that the sink rounds of a sequence of events delivered.
pub open spec fn delivered(events: Seq<PipelineEvent>) -> int
    decreases events.len(),
{
    if events.len() == 0 {
        0
    } else {
        delivered(events.drop_last()) + match events.last() {
            PipelineEvent::Sunk(report) => report.delivered as int,
            _ => 0,
        }
    }
}

/// Records that the sink rounds of a sequence of events dead-lettered.
pub open spec fn dead_lettered(events: Seq<PipelineEvent>) -> int
    decreases events.len(),
{
    if events.len() == 0 {
        0
    } else {
        dead_lettered(events.drop_last()) + match events.last() {
            PipelineEvent::Sunk(report) => report.dead_lettered as int,
            _ => 0,
        }
    }
}

/// Whether the sink rounds that read nothing delivered and dead-lettered
/// nothing.
pub open spec fn idle_rounds_are_empty(events: Seq<PipelineEvent>) -> bool {
    forall|i: int|
        0 <= i < events.len() ==> (#[trigger] events[i] matches PipelineEvent::Sunk(report)
            ==> report.polled == 0 ==> report.delivered == 0 && report.dead_lettered == 0)
}

/// What a pipeline reports at any time is the sum of what its rounds reported.
pub proof fn law_totals_add_up(mode: PipelineMode, events: Seq<PipelineEvent>)
    requires
        legal(PipelineView::fresh(mode), events),
        idle_rounds_are_empty(events),
    ensures
        ({
            let p = state_after(PipelineView::fresh(mode), events);
            &&& p.mode == mode
            &&& p.totals.sourced == sourced(events)
            &&& p.totals.delivered == delivered(events)
            &&& p.totals.dead_lettered == dead_lettered(events)
            &&& events.len() > 0 ==> (last_action(PipelineView::fresh(mode), events)
                matches PipelineAction::Done(totals) ==> totals == p.totals)
        }),
    decreases events.len(),
{
    if events.len() > 0 {
        let n = events.len() - 1;
        let earlier = events.drop_last();
        lemma_shorter(PipelineView::fresh(mode), events);
        assert forall|i: int| 0 <= i < earlier.len() implies (#[trigger] earlier[i]
            matches PipelineEvent::Sunk(report) ==> report.polled == 0 ==> report.delivered == 0
            && report.dead_lettered == 0) by {
            assert(earlier[i] == events[i]);
        }
        law_totals_add_up(mode, earlier);
        assert(events.take(n) =~= earlier);
        assert(events[n] == events.last());
    }
}

proof fn lemma_shorter(p: PipelineView, events: Seq<PipelineEvent>)
    requires
        legal(p, events),
        events.len() > 0,
    ensures
        legal(p, events.drop_last()),
        state_after(p, events.drop_last()).awaits(events.last()),
{
    let earlier = events.drop_last();
    assert(events.take(events.len() - 1) =~= earlier);
    assert forall|i: int| 0 <= i < earlier.len() implies state_after(
        p,
        #[trigger] earlier.take(i),
    ).awaits(earlier[i]) by {
        assert(earlier.take(i) =~= events.take(i));
    }
}

/// A pipeline is over, or makes its state observable, only once the sink is
/// caught up; and one that drains its source turns to the sink only once a round
/// of the source gave nothing.
pub proof fn law_stages_end_when_they_are_done(p: PipelineView, event: PipelineEvent)
    requires
        p.wf(),
        p.awaits(event),
    ensures
        p.step(event).0.wf(),
        ({
            let next = p.step(event).1;
            &&& next is Publish || (next is Done && p.mode is Drain) ==> (event
                matches PipelineEvent::Sunk(report) && report.polled == 0)
            &&& next is Done && p.mode is Tick ==> event is Published
            &&& next is RunSink && p.mode is Drain ==> {
                ||| event == PipelineEvent::Sourced(0)
                ||| event is Sunk
            }
            &&& event matches PipelineEvent::Sunk(report) ==> (report.polled > 0 <==> next
                is RunSink)
        }),
{
}

/// The summary of a pipeline that is over, line by line.
pub open spec fn summary_text(
    topic: Seq<char>,
    guarantee: DeliveryGuarantee,
    totals: PipelineTotals,
    queued: nat,
) -> Seq<Seq<char>> {
    seq![
        "ConnectForge connector demo"@,
        "  topic               : "@ + topic,
        "  guarantee           : "@ + guarantee.label(),
        "  records sourced     : "@ + text::decimal(totals.sourced as nat),
        "  records delivered   : "@ + text::decimal(totals.delivered as nat),
        "  records dead-lettered: "@ + text::decimal(totals.dead_lettered as nat),
        "  dlq size            : "@ + text::decimal(queued),
    ]
}

/// The summary of a pipeline that is over, line by line: what it worked on, what
/// it has done, and how many dead letters are queued.
pub fn summary(
    topic: &str,
    guarantee: DeliveryGuarantee,
    totals: PipelineTotals,
    queued: usize,
) -> (r: Vec<String>)
    ensures
        crate::layout::texts(r@) == summary_text(topic@, guarantee, totals, queued as nat),
{
    let mut lines: Vec<String> = Vec::new();
    lines.push("ConnectForge connector demo".to_owned());
    lines.push("  topic               : ".to_owned().concat(topic));
    lines.push("  guarantee           : ".to_owned().concat(guarantee.to_string().as_str()));
    lines.push(
        "  records sourced     : ".to_owned().concat(text::to_decimal(totals.sourced).as_str()),
    );
    lines.push(
        "  records delivered   : ".to_owned().concat(text::to_decimal(totals.delivered).as_str()),
    );
    lines.push(
        "  records dead-lettered: ".to_owned().concat(
            text::to_decimal(totals.dead_lettered).as_str(),
        ),
    );
    lines.push("  dlq size            : ".to_owned().concat(text::to_decimal(queued as u64).as_str()));
    assert(crate::layout::texts(lines@) =~= summary_text(
        topic@,
        guarantee,
        totals,
        queued as nat,
    ));
    lines
}

/// A pipeline goes stage by stage: it starts with the source, which runs until it
/// has nothing more to give, or once where the pipeline is only to tick; then the
/// sink runs until it is caught up; then the pipeline ends with what it has done,
/// and where it is to tick, its state is made observable before.
pub proof fn law_pipelines_go_stage_by_stage(p: PipelineView, n: u64, report: DeliveryReport)
    ensures
        p.stage is New ==> p.step(PipelineEvent::Start).1 is RunSource,
        p.stage is Sourcing ==> {
            let next = p.step(PipelineEvent::Sourced(n)).1;
            &&& p.mode is Drain && n > 0 ==> next is RunSource
            &&& p.mode is Drain && n == 0 ==> next is RunSink
            &&& p.mode is Tick ==> next is RunSink
        },
        p.stage is Sinking ==> {
            let next = p.step(PipelineEvent::Sunk(report)).1;
            &&& report.polled > 0 ==> next is RunSink
            &&& report.polled == 0 && p.mode is Tick ==> next is Publish
            &&& report.polled == 0 && p.mode is Drain ==> next == PipelineAction::Done(p.totals)
        },
        p.stage is Publishing ==> p.step(PipelineEvent::Published).1 == PipelineAction::Done(
            p.totals,
        ),
{
}

/// A pipeline waits for what it asked for, and keeps to its mode.
pub proof fn law_pipelines_wait_for_what_they_asked(p: PipelineView, event: PipelineEvent)
    ensures
        ({
            let (next, action) = p.step(event);
            &&& next.mode == p.mode
            &&& p.awaits(event) ==> match action {
                PipelineAction::RunSource => next.stage is Sourcing,
                PipelineAction::RunSink => next.stage is Sinking,
                PipelineAction::Publish => next.stage is Publishing,
                PipelineAction::Done(totals) => next.stage is Over && totals == next.totals,
            }
        }),
{
}

/// The summary names the topic and the guarantee, and tells each total as a number
/// that reads back: what the source produced, what the sink delivered, what it
/// dead-lettered, and what is queued, in this order and each in a line of its own.
pub proof fn law_summary_tells_the_totals(
    topic: Seq<char>,
    guarantee: DeliveryGuarantee,
    totals: PipelineTotals,
    queued: nat,
)
    ensures
        ({
            let lines = summary_text(topic, guarantee, totals, queued);
            &&& lines.len() == 7
            &&& lines[1].skip(24) == topic
            &&& lines[2].skip(24) == guarantee.label()
            &&& text::digits_value(lines[3].skip(24)) == totals.sourced
            &&& text::digits_value(lines[4].skip(24)) == totals.delivered
            &&& text::digits_value(lines[5].skip(25)) == totals.dead_lettered
            &&& text::digits_value(lines[6].skip(24)) == queued
        }),
{
    let lines = summary_text(topic, guarantee, totals, queued);
    reveal_strlit("  topic               : ");
    reveal_strlit("  guarantee           : ");
    reveal_strlit("  records sourced     : ");
    reveal_strlit("  records delivered   : ");
    reveal_strlit("  records dead-lettered: ");
    reveal_strlit("  dlq size            : ");
    assert(lines[1].skip(24) =~= topic);
    assert(lines[2].skip(24) =~= guarantee.label());
    assert(lines[3].skip(24) =~= text::decimal(totals.sourced as nat));
    assert(lines[4].skip(24) =~= text::decimal(totals.delivered as nat));
    assert(lines[5].skip(25) =~= text::decimal(totals.dead_lettered as nat));
    assert(lines[6].skip(24) =~= text::decimal(queued));
    text::law_decimal_read_back(totals.sourced as nat);
    text::law_decimal_read_back(totals.delivered as nat);
    text::law_decimal_read_back(totals.dead_lettered as nat);
    text::law_decimal_read_back(queued);
}

} // verus!
