//! What the API's queries, mutations and subscription make of their arguments
//! and of the engine's answers.

use crate::connector::{ConnectorStatus, DeadLetterRecord};
use crate::invalid::InvalidRecord;
use crate::model::{ConnectorStatusObject, DeadLetterObject, ProduceInput, TopicObject};
use crate::record;
use crate::record::{ProduceRecord, ProduceRecordView};
use crate::text;
use crate::topic::TopicConfig;
use crate::units;
use crate::units::{TopicName, MAX_TOPIC_NAME_LEN};
use vstd::prelude::*;
use vstd::string::*;
use vstd::utf8::*;

verus! {

/// Read-only queries (the query side).
#[derive(Debug, Clone, Copy)]
pub struct QueryRoot;

/// Mutations (the command side).
#[derive(Debug, Clone, Copy)]
pub struct MutationRoot;

/// Subscriptions.
#[derive(Debug, Clone, Copy)]
pub struct SubscriptionRoot;

/// The topic that a client names, or what to tell the client of a bad name.
pub fn topic_named(name: String) -> (r: Result<TopicName, String>)
    ensures
        match (r, units::name_problem(name@, MAX_TOPIC_NAME_LEN as nat)) {
            (Ok(t), None) => t@ == name@,
            (Err(why), Some(problem)) => why@ == problem.message(),
            _ => false,
        },
{
    match TopicName::new(name) {
        Ok(topic) => Ok(topic),
        Err(problem) => Err(problem.to_string()),
    }
}

/// The first configuration under a name, from the `i`-th on.
pub open spec fn named(configs: Seq<TopicConfig>, name: Seq<char>, i: int) -> Option<TopicConfig>
    decreases configs.len() - i,
{
    if i >= configs.len() {
        None
    } else if configs[i].name@ == name {
        Some(configs[i])
    } else {
        named(configs, name, i + 1)
    }
}

impl QueryRoot {
    /// List all topics.
    pub fn topics(configs: Vec<TopicConfig>) -> (r: Vec<TopicObject>)
        ensures
            r@.len() == configs@.len(),
            forall|i: int| 0 <= i < r@.len() ==> (#[trigger] r@[i]).tells(configs@[i]),
    {
        let ghost all = configs@;
        let mut out: Vec<TopicObject> = Vec::new();
        for next in it: configs
            invariant
                it.seq() == all,
                out@.len() == it.index(),
                forall|i: int| 0 <= i < it.index() ==> (#[trigger] out@[i]).tells(all[i]),
        {
            out.push(TopicObject::from(next));
        }
        out
    }

    /// Find a single topic's configuration by name.
    pub fn topic(configs: &Vec<TopicConfig>, want: &TopicName) -> (r: Option<TopicObject>)
        ensures
            match (r, named(configs@, want@, 0)) {
                (Some(object), Some(config)) => object.tells(config),
                (None, None) => true,
                _ => false,
            },
    {
        let mut i: usize = 0;
        while i < configs.len()
            invariant
                i <= configs@.len(),
                named(configs@, want@, 0) == named(configs@, want@, i as int),
            decreases configs.len() - i,
        {
            if text::same(configs[i].name.as_str(), want.as_str()) {
                return Some(TopicObject::from(configs[i].clone()));
            }
            i = i + 1;
        }
        None
    }

    /// List all registered connectors and their live status.
    pub fn connectors(statuses: Vec<ConnectorStatus>) -> (r: Vec<ConnectorStatusObject>)
        ensures
            r@.len() == statuses@.len(),
            forall|i: int| 0 <= i < r@.len() ==> (#[trigger] r@[i]).tells(statuses@[i]),
    {
        let ghost all = statuses@;
        let mut out: Vec<ConnectorStatusObject> = Vec::new();
        for next in it: statuses
            invariant
                it.seq() == all,
                out@.len() == it.index(),
                forall|i: int| 0 <= i < it.index() ==> (#[trigger] out@[i]).tells(all[i]),
        {
            out.push(ConnectorStatusObject::from(next));
        }
        out
    }

    /// Inspect records that connectors failed to deliver (the dead-letter
    /// queue).
    pub fn dead_letters(records: Vec<DeadLetterRecord>) -> (r: Vec<DeadLetterObject>)
        ensures
            r@.len() == records@.len(),
            forall|i: int| 0 <= i < r@.len() ==> (#[trigger] r@[i]).tells(records@[i]),
    {
        let ghost all = records@;
        let mut out: Vec<DeadLetterObject> = Vec::new();
        for next in it: records
            invariant
                it.seq() == all,
                out@.len() == it.index(),
                forall|i: int| 0 <= i < it.index() ==> (#[trigger] out@[i]).tells(all[i]),
        {
            out.push(DeadLetterObject::from(next));
        }
        out
    }
}

/// What a submitted record holds.
pub open spec fn submitted(input: ProduceInput) -> ProduceRecordView {
    ProduceRecordView {
        key: record::optional_text(input.key),
        payload: encode_utf8(input.payload@),
    }
}

/// What the submitted records of a list hold.
pub open spec fn submitted_all(inputs: Seq<ProduceInput>) -> Seq<ProduceRecordView> {
    inputs.map_values(|i: ProduceInput| submitted(i))
}

/// What is wrong with the first bad topic name of a list.
pub open spec fn first_bad_name(names: Seq<String>) -> Option<InvalidRecord>
    decreases names.len(),
{
    if names.len() == 0 {
        None
    } else {
        match units::name_problem(names[0]@, MAX_TOPIC_NAME_LEN as nat) {
            Some(problem) => Some(problem),
            None => first_bad_name(names.skip(1)),
        }
    }
}

impl MutationRoot {
    /// The batch that a client submits, or what to tell the client of its first
    /// bad record.
    pub fn batch(records: Vec<ProduceInput>) -> (r: Result<Vec<ProduceRecord>, String>)
        ensures
            match (r, crate::engine::first_problem(submitted_all(records@))) {
                (Ok(batch), None) => record::produce_views(batch@) == submitted_all(records@),
                (Err(why), Some(problem)) => why@ == problem.message(),
                _ => false,
            },
    {
        let ghost sent = records@;
        let ghost all = submitted_all(sent);
        let mut batch: Vec<ProduceRecord> = Vec::new();
        assert(all.skip(0) =~= all);
        for next in it: records
            invariant
                it.seq() == sent,
                all == submitted_all(sent),
                batch@.len() == it.index(),
                forall|i: int| 0 <= i < it.index() ==> (#[trigger] batch@[i])@ == all[i],
                crate::engine::first_problem(all) == crate::engine::first_problem(
                    all.skip(it.index()),
                ),
        {
            let ghost view = submitted(next);
            proof {
                let rest = all.skip(it.index());
                assert(rest[0] == view);
                assert(rest.skip(1) =~= all.skip(it.index() + 1));
            }
            match ProduceRecord::new(next.key, next.payload.as_str().as_bytes_vec()) {
                Ok(valid) => {
                    batch.push(valid);
                },
                Err(problem) => {
                    return Err(problem.to_string());
                },
            }
        }
        assert(record::produce_views(batch@) =~= all);
        Ok(batch)
    }
}

impl SubscriptionRoot {
    /// The topics that a client subscribes to, or what to tell the client of
    /// the first bad name.
    pub fn names(topics: Vec<String>) -> (r: Result<Vec<TopicName>, String>)
        ensures
            match (r, first_bad_name(topics@)) {
                (Ok(names), None) => {
                    &&& names@.len() == topics@.len()
                    &&& forall|i: int|
                        0 <= i < names@.len() ==> (#[trigger] names@[i])@ == topics@[i]@
                },
                (Err(why), Some(problem)) => why@ == problem.message(),
                _ => false,
            },
    {
        let ghost sent = topics@;
        let mut names: Vec<TopicName> = Vec::new();
        assert(sent.skip(0) =~= sent);
        for next in it: topics
            invariant
                it.seq() == sent,
                names@.len() == it.index(),
                forall|i: int| 0 <= i < it.index() ==> (#[trigger] names@[i])@ == sent[i]@,
                first_bad_name(sent) == first_bad_name(sent.skip(it.index())),
        {
            proof {
                let rest = sent.skip(it.index());
                assert(rest[0] == next);
                assert(rest.skip(1) =~= sent.skip(it.index() + 1));
            }
            match TopicName::new(next) {
                Ok(name) => {
                    names.push(name);
                },
                Err(problem) => {
                    return Err(problem.to_string());
                },
            }
        }
        Ok(names)
    }
}

/// What a client submits is what clients see once it is stored: the text of the
/// payload and of the key, with the offset and the timestamp that the record was
/// given.
pub proof fn law_clients_see_what_was_submitted(
    input: ProduceInput,
    offset: u64,
    timestamp: crate::timestamp::Instant,
)
    ensures
        ({
            let seen = crate::model::shown(record::stored(submitted(input), offset, timestamp));
            &&& seen.payload == input.payload@
            &&& input.key is None ==> seen.key is None
            &&& input.key matches Some(k) ==> seen.key == Some(k@)
            &&& seen.offset == offset
            &&& seen.timestamp == timestamp
        }),
{
    encode_utf8_valid_utf8(input.payload@);
    encode_utf8_decode_utf8(input.payload@);
}

/// A submitted batch is taken over record by record, in order.
pub proof fn law_batches_are_taken_over(inputs: Seq<ProduceInput>)
    ensures
        submitted_all(inputs).len() == inputs.len(),
        forall|i: int|
            0 <= i < inputs.len() ==> {
                &&& (#[trigger] submitted_all(inputs)[i]).payload == encode_utf8(
                    inputs[i].payload@,
                )
                &&& inputs[i].key is None ==> submitted_all(inputs)[i].key is None
                &&& inputs[i].key matches Some(k) ==> submitted_all(inputs)[i].key == Some(k@)
            },
{
}

/// A topic is found by its name exactly if one of that name is listed, and what is
/// found is the first of them.
pub proof fn law_topics_are_found_by_name(configs: Seq<TopicConfig>, name: Seq<char>, i: int)
    requires
        0 <= i,
    ensures
        match named(configs, name, i) {
            None => forall|k: int|
                i <= k < configs.len() ==> (#[trigger] configs[k]).name@ != name,
            Some(config) => exists|k: int|
                i <= k < configs.len() && #[trigger] configs[k] == config && config.name@ == name
                    && forall|j: int| i <= j < k ==> (#[trigger] configs[j]).name@ != name,
        },
    decreases configs.len() - i,
{
    if i < configs.len() {
        if configs[i].name@ == name {
            assert(configs[i] == named(configs, name, i)->Some_0);
        } else {
            law_topics_are_found_by_name(configs, name, i + 1);
            if let Some(config) = named(configs, name, i) {
                let k = choose|k: int|
                    i + 1 <= k < configs.len() && #[trigger] configs[k] == config && config.name@
                        == name && forall|j: int|
                        i + 1 <= j < k ==> (#[trigger] configs[j]).name@ != name;
                assert(configs[k] == config);
            }
        }
    }
}

/// The names of a subscription are taken exactly if all are valid; otherwise the
/// first bad one is told of.
pub proof fn law_first_bad_name_is_told(names: Seq<String>)
    ensures
        match first_bad_name(names) {
            None => forall|i: int|
                0 <= i < names.len() ==> units::name_problem(
                    (#[trigger] names[i])@,
                    255,
                ) is None,
            Some(problem) => exists|i: int|
                0 <= i < names.len() && units::name_problem((#[trigger] names[i])@, 255) == Some(
                    problem,
                ) && forall|j: int|
                    0 <= j < i ==> units::name_problem((#[trigger] names[j])@, 255) is None,
        },
    decreases names.len(),
{
    if names.len() > 0 {
        let rest = names.skip(1);
        law_first_bad_name_is_told(rest);
        if units::name_problem(names[0]@, 255) is None {
            match first_bad_name(rest) {
                None => {
                    assert forall|i: int| 0 <= i < names.len() implies units::name_problem(
                        (#[trigger] names[i])@,
                        255,
                    ) is None by {
                        if i > 0 {
                            assert(rest[i - 1] == names[i]);
                        }
                    }
                },
                Some(problem) => {
                    let k = choose|k: int|
                        0 <= k < rest.len() && units::name_problem((#[trigger] rest[k])@, 255)
                            == Some(problem) && forall|j: int|
                            0 <= j < k ==> units::name_problem(
                                (#[trigger] rest[j])@,
                                255,
                            ) is None;
                    assert(names[k + 1] == rest[k]);
                    assert forall|j: int| 0 <= j < k + 1 implies units::name_problem(
                        (#[trigger] names[j])@,
                        255,
                    ) is None by {
                        if j > 0 {
                            assert(rest[j - 1] == names[j]);
                        }
                    }
                },
            }
        } else {
            assert(units::name_problem(names[0]@, 255) == first_bad_name(names));
        }
    }
}

} // verus!
