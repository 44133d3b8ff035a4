//! A lightweight registry that makes connector activity observable.
//!
//! Whoever runs the connector runtimes pushes status and dead-letter updates
//! here; the query side reads consistent snapshots.

use crate::connector;
use crate::connector::{copy_dead_letters, ConnectorStatus, DeadLetterRecord, DeadLetterView};
use crate::text;
use vstd::prelude::*;

verus! {

/// What a registry holds: the statuses in the order in which the connectors
/// first reported, and the dead letters.
#[verifier::ext_equal]
pub struct RegistryView {
    pub statuses: Seq<ConnectorStatus>,
    pub dead_letters: Seq<DeadLetterView>,
}

/// Where the status of a connector stands, from the `i`-th on.
pub open spec fn place_of(statuses: Seq<ConnectorStatus>, id: Seq<char>, i: int) -> Option<int>
    decreases statuses.len() - i,
{
    if i >= statuses.len() {
        None
    } else if statuses[i].id@ == id {
        Some(i)
    } else {
        place_of(statuses, id, i + 1)
    }
}

impl RegistryView {
    /// The registry after a status was reported: it takes the place of the
    /// connector's earlier one, or comes last.
    pub open spec fn upserted(self, status: ConnectorStatus) -> RegistryView {
        RegistryView {
            statuses: match place_of(self.statuses, status.id@, 0) {
                Some(i) => self.statuses.update(i, status),
                None => self.statuses.push(status),
            },
            ..self
        }
    }

    /// The registry after more dead letters were observed.
    pub open spec fn extended(self, letters: Seq<DeadLetterView>) -> RegistryView {
        RegistryView { dead_letters: self.dead_letters + letters, ..self }
    }

    /// Whether every connector has one status at most.
    pub open spec fn ids_differ(self) -> bool {
        forall|i: int, j: int|
            #![trigger self.statuses[i], self.statuses[j]]
            0 <= i < j < self.statuses.len() ==> self.statuses[i].id@ != self.statuses[j].id@
    }
}

/// Shared, observable state for all registered connectors.
#[derive(Debug)]
pub struct ConnectorRegistry {
    statuses: Vec<ConnectorStatus>,
    dead_letters: Vec<DeadLetterRecord>,
}

impl View for ConnectorRegistry {
    type V = RegistryView;

    closed spec fn view(&self) -> RegistryView {
        RegistryView {
            statuses: self.statuses@,
            dead_letters: connector::dead_letter_views(self.dead_letters@),
        }
    }
}

impl ConnectorRegistry {
    /// Create an empty registry.
    pub fn new() -> (r: ConnectorRegistry)
        ensures
            r@ == (RegistryView { statuses: Seq::empty(), dead_letters: Seq::empty() }),
            r@.ids_differ(),
    {
        let r = ConnectorRegistry { statuses: Vec::new(), dead_letters: Vec::new() };
        assert(r@.dead_letters =~= Seq::<DeadLetterView>::empty());
        r
    }

    /// Insert or update a connector's status (keyed by id).
    pub fn upsert_status(&mut self, status: ConnectorStatus)
        ensures
            final(self)@ == old(self)@.upserted(status),
            old(self)@.ids_differ() ==> final(self)@.ids_differ(),
    {
        let ghost was = self@;
        let mut i: usize = 0;
        proof {
            law_upsert_keeps_ids_apart(was, status);
        }
        while i < self.statuses.len()
            invariant
                i <= self.statuses@.len(),
                self@ == was,
                *self == *old(self),
                place_of(was.statuses, status.id@, 0) == place_of(
                    was.statuses,
                    status.id@,
                    i as int,
                ),
                was.ids_differ() ==> was.upserted(status).ids_differ(),
            decreases self.statuses.len() - i,
        {
            if text::same(self.statuses[i].id.as_str(), status.id.as_str()) {
                self.statuses[i] = status;
                return;
            }
            i = i + 1;
        }
        self.statuses.push(status);
    }

    /// Append dead-lettered records observed during a run.
    pub fn extend_dead_letters(&mut self, records: Vec<DeadLetterRecord>)
        ensures
            final(self)@ == old(self)@.extended(connector::dead_letter_views(records@)),
            final(self)@ == (RegistryView {
                dead_letters: old(self)@.dead_letters + connector::dead_letter_views(records@),
                ..old(self)@
            }),
    {
        let ghost was = self@;
        let ghost more = connector::dead_letter_views(records@);
        let mut incoming = records;
        self.dead_letters.append(&mut incoming);
        assert(self@.dead_letters =~= was.dead_letters + more);
    }

    /// Replace the dead-letter snapshot (used by a supervisor that owns the
    /// queue).
    pub fn set_dead_letters(&mut self, records: Vec<DeadLetterRecord>)
        ensures
            final(self)@ == (RegistryView {
                dead_letters: connector::dead_letter_views(records@),
                ..old(self)@
            }),
    {
        self.dead_letters = records;
    }

    /// A snapshot of all connector statuses.
    pub fn statuses(&self) -> (r: Vec<ConnectorStatus>)
        ensures
            r@ == self@.statuses,
    {
        let mut out: Vec<ConnectorStatus> = Vec::new();
        let mut i: usize = 0;
        while i < self.statuses.len()
            invariant
                i <= self.statuses@.len(),
                out@ == self.statuses@.take(i as int),
            decreases self.statuses.len() - i,
        {
            out.push(self.statuses[i].clone());
            assert(self.statuses@.take(i as int + 1) =~= self.statuses@.take(i as int).push(
                self.statuses@[i as int],
            ));
            i = i + 1;
        }
        assert(self.statuses@.take(self.statuses@.len() as int) =~= self.statuses@);
        out
    }

    /// A snapshot of all dead-lettered records.
    pub fn dead_letters(&self) -> (r: Vec<DeadLetterRecord>)
        ensures
            connector::dead_letter_views(r@) == self@.dead_letters,
    {
        copy_dead_letters(&self.dead_letters)
    }
}

proof fn lemma_place(statuses: Seq<ConnectorStatus>, id: Seq<char>, i: int)
    requires
        0 <= i,
    ensures
        match place_of(statuses, id, i) {
            Some(k) => i <= k < statuses.len() && statuses[k].id@ == id,
            None => forall|k: int| i <= k < statuses.len() ==> (#[trigger] statuses[k]).id@ != id,
        },
    decreases statuses.len() - i,
{
    if i < statuses.len() && statuses[i].id@ != id {
        lemma_place(statuses, id, i + 1);
        if place_of(statuses, id, i) is None {
            assert forall|k: int| i <= k < statuses.len() implies (#[trigger] statuses[k]).id@
                != id by {
                if k > i {
                    assert(statuses[k].id@ != id);
                }
            }
        }
    }
}

/// Reporting a status leaves every connector with one status at most, and the
/// reported one in place.
pub proof fn law_upsert_keeps_ids_apart(r: RegistryView, status: ConnectorStatus)
    ensures
        r.ids_differ() ==> r.upserted(status).ids_differ(),
        r.upserted(status).statuses.contains(status),
{
    lemma_place(r.statuses, status.id@, 0);
    let after = r.upserted(status);
    match place_of(r.statuses, status.id@, 0) {
        Some(i) => {
            assert(after.statuses[i] == status);
        },
        None => {
            assert(after.statuses[r.statuses.len() as int] == status);
        },
    }
}

/// Reporting a status touches no other connector's: where the connector had
/// reported before, its new status stands in the place of the old one, and
/// otherwise behind all the others; and the dead letters stay.
pub proof fn law_upsert_leaves_the_others(r: RegistryView, status: ConnectorStatus)
    requires
        r.ids_differ(),
    ensures
        ({
            let after = r.upserted(status);
            let known = exists|i: int|
                0 <= i < r.statuses.len() && (#[trigger] r.statuses[i]).id@ == status.id@;
            &&& after.dead_letters == r.dead_letters
            &&& after.statuses.len() == r.statuses.len() + if known {
                0int
            } else {
                1
            }
            &&& forall|i: int|
                0 <= i < r.statuses.len() ==> #[trigger] after.statuses[i]
                    == if r.statuses[i].id@ == status.id@ {
                    status
                } else {
                    r.statuses[i]
                }
            &&& !known ==> after.statuses.last() == status
        }),
{
    lemma_place(r.statuses, status.id@, 0);
    let after = r.upserted(status);
    if let Some(k) = place_of(r.statuses, status.id@, 0) {
        assert(r.statuses[k].id@ == status.id@);
        assert forall|i: int| 0 <= i < r.statuses.len() implies #[trigger] after.statuses[i]
            == if r.statuses[i].id@ == status.id@ {
            status
        } else {
            r.statuses[i]
        } by {
            if i != k {
                assert(r.statuses[i].id@ != r.statuses[k].id@);
            }
        }
    }
}

/// Dead letters accumulate: those there were stay in front, as they were, the new
/// ones come behind them in order, and no status changes.
pub proof fn law_dead_letters_accumulate(r: RegistryView, letters: Seq<DeadLetterView>)
    ensures
        r.extended(letters).statuses == r.statuses,
        r.extended(letters).dead_letters.len() == r.dead_letters.len() + letters.len(),
        forall|i: int|
            0 <= i < r.dead_letters.len() ==> #[trigger] r.extended(letters).dead_letters[i]
                == r.dead_letters[i],
        forall|i: int|
            0 <= i < letters.len() ==> #[trigger] letters[i] == r.extended(
                letters,
            ).dead_letters[r.dead_letters.len() + i],
{
}

} // verus!
