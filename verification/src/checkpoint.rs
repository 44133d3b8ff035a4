//! Checkpoint stores: offset persistence so that a sink connector resumes
//! exactly where it left off after a restart.

use crate::connector::{Checkpoint, ConnectorId, MAX_CONNECTOR_ID_LEN};
use crate::error::PortError;
use crate::text;
use crate::units;
use crate::units::{Offset, PartitionId, TopicName, MAX_TOPIC_NAME_LEN};
use dashmap::DashMap;
use vstd::prelude::*;
use vstd::string::*;
use vstd::utf8::*;

verus! {

/// The concurrent map type of `dashmap`.
#[verifier::external_type_specification]
#[verifier::external_body]
#[verifier::reject_recursive_types(K)]
#[verifier::reject_recursive_types(V)]
#[verifier::reject_recursive_types(S)]
pub struct ExDashMap<K, V, S>(dashmap::DashMap<K, V, S>);

/// A name for what a map holds.
pub uninterp spec fn contents(map: DashMap<String, u64>) -> Map<Seq<char>, u64>;

/// Calls `DashMap::new`. Claimed: the map is empty.
#[verifier::external_body]
fn new_map() -> (r: DashMap<String, u64>)
    ensures
        contents(r) == (Map::<Seq<char>, u64>::empty()),
{
    DashMap::new()
}

/// Calls `DashMap::get`. Claimed: it finds the value under the key, if there is
/// one.
#[verifier::external_body]
fn get(map: &DashMap<String, u64>, key: &str) -> (r: Option<u64>)
    ensures
        r == if contents(*map).contains_key(key@) {
            Some(contents(*map)[key@])
        } else {
            None
        },
{
    map.get(key).map(|v| *v)
}

/// Calls `DashMap::insert`. Claimed: it puts the value under the key, leaves
/// every other key alone, and returns what was there before.
#[verifier::external_body]
fn insert(map: &mut DashMap<String, u64>, key: String, value: u64) -> (r: Option<u64>)
    ensures
        contents(*final(map)) == contents(*old(map)).insert(key@, value),
        r == if contents(*old(map)).contains_key(key@) {
            Some(contents(*old(map))[key@])
        } else {
            None
        },
{
    map.insert(key, value)
}

/// The bytes of a number in decimal.
pub open spec fn numeral(n: u64) -> Seq<u8> {
    encode_utf8(text::decimal(n as nat))
}

/// A name for what `serde_json::from_slice` makes of bytes that are to hold an
/// unsigned 64-bit number: the number, or the text of the error.
pub uninterp spec fn json_number(bytes: Seq<u8>) -> Result<u64, Seq<char>>;

/// A number, or the text of an error.
pub open spec fn told(r: Result<u64, String>) -> Result<u64, Seq<char>> {
    match r {
        Ok(n) => Ok(n),
        Err(why) => Err(why@),
    }
}

/// Calls `serde_json::from_slice` for an unsigned 64-bit number. Claimed: a
/// decimal numeral is read as its number, and of other bytes the result depends
/// on the bytes alone. Which other bytes denote a number, and what the errors
/// say, is left unsaid.
#[verifier::external_body]
fn from_json(bytes: &[u8]) -> (r: Result<u64, String>)
    ensures
        forall|n: u64| bytes@ == #[trigger] numeral(n) ==> told(r) == (Ok::<u64, Seq<char>>(n)),
        (forall|n: u64| bytes@ != #[trigger] numeral(n)) ==> told(r) == json_number(bytes@),
{
    serde_json::from_slice::<u64>(bytes).map_err(|e| e.to_string())
}

/// Calls `serde_json::to_vec` on an unsigned 64-bit number. Claimed: it
/// succeeds, with the number in decimal.
#[verifier::external_body]
fn to_json(n: u64) -> (r: Result<Vec<u8>, String>)
    ensures
        r is Ok,
        r->Ok_0@ == numeral(n),
{
    serde_json::to_vec(&n).map_err(|e| e.to_string())
}

/// The number that bytes hold, or the text of the error that they do not.
pub open spec fn number_in(bytes: Seq<u8>) -> Result<u64, Seq<char>> {
    if exists|n: u64| bytes == #[trigger] numeral(n) {
        Ok(choose|n: u64| bytes == #[trigger] numeral(n))
    } else {
        json_number(bytes)
    }
}

/// The key that a checkpoint is stored under. No name can hold the character
/// that joins its parts.
pub open spec fn key_text(connector: Seq<char>, topic: Seq<char>, partition: u32) -> Seq<char> {
    connector + "@"@ + topic + "@"@ + text::decimal(partition as nat)
}

fn key(connector: &ConnectorId, topic: &TopicName, partition: PartitionId) -> (r: String)
    ensures
        r@ == key_text(connector@, topic@, partition.0),
        valid_names(connector@, topic@),
{
    connector.as_str().to_owned().concat("@").concat(topic.as_str()).concat("@").concat(
        partition.to_string().as_str(),
    )
}

/// What a map of offsets holds after a checkpoint was kept in it.
pub open spec fn kept(map: Map<Seq<char>, u64>, c: Checkpoint) -> Map<Seq<char>, u64> {
    map.insert(key_text(c.connector@, c.topic@, c.partition.0), c.offset.0)
}

/// The offset that a map holds for a connector, topic and partition.
pub open spec fn found(
    map: Map<Seq<char>, u64>,
    connector: Seq<char>,
    topic: Seq<char>,
    partition: u32,
) -> Option<u64> {
    let key = key_text(connector, topic, partition);
    if map.contains_key(key) {
        Some(map[key])
    } else {
        None
    }
}

/// In-memory checkpoint store for demos and tests (not durable).
#[derive(Debug)]
pub struct MemoryCheckpointStore {
    map: DashMap<String, u64>,
}

impl View for MemoryCheckpointStore {
    type V = Map<Seq<char>, u64>;

    closed spec fn view(&self) -> Map<Seq<char>, u64> {
        contents(self.map)
    }
}

impl MemoryCheckpointStore {
    /// Create an empty store.
    pub fn new() -> (r: MemoryCheckpointStore)
        ensures
            r@ == Map::<Seq<char>, u64>::empty(),
    {
        MemoryCheckpointStore { map: new_map() }
    }

    /// Load the saved next-offset for a connector's `(topic, partition)`.
    pub fn load(&self, connector: &ConnectorId, topic: &TopicName, partition: PartitionId) -> (r:
        Option<Offset>)
        ensures
            r == match found(self@, connector@, topic@, partition.0) {
                Some(offset) => Some(Offset(offset)),
                None => None,
            },
            ({
                let key = key_text(connector@, topic@, partition.0);
                r == if self@.contains_key(key) {
                    Some(Offset(self@[key]))
                } else {
                    None
                }
            }),
    {
        match get(&self.map, key(connector, topic, partition).as_str()) {
            Some(offset) => Some(Offset(offset)),
            None => None,
        }
    }

    /// Keep a checkpoint.
    pub fn save(&mut self, checkpoint: Checkpoint)
        ensures
            final(self)@ == kept(old(self)@, checkpoint),
            final(self)@ == old(self)@.insert(
                key_text(
                    checkpoint.connector@,
                    checkpoint.topic@,
                    checkpoint.partition.0,
                ),
                checkpoint.offset.0,
            ),
    {
        let key = key(&checkpoint.connector, &checkpoint.topic, checkpoint.partition);
        let _ = insert(&mut self.map, key, checkpoint.offset.0);
    }
}

/// What reading a checkpoint's file came to.
#[derive(Debug)]
pub enum FileRead {
    /// The file's contents.
    Contents(Vec<u8>),
    /// There is no such file.
    Missing,
    /// The file could not be read, and why.
    Failed(String),
}

/// How a checkpoint is to be persisted: write the bytes to the temporary file,
/// then rename it, which is atomic and crash-safe.
#[derive(Debug)]
pub struct SavePlan {
    /// Name of the temporary file.
    pub temporary: String,
    /// Name of the checkpoint's file.
    pub file: String,
    /// What to write.
    pub bytes: Vec<u8>,
}

/// What a plan to persist a checkpoint holds.
#[verifier::ext_equal]
pub struct SavePlanView {
    pub temporary: Seq<char>,
    pub file: Seq<char>,
    pub bytes: Seq<u8>,
}

impl View for SavePlan {
    type V = SavePlanView;

    open spec fn view(&self) -> SavePlanView {
        SavePlanView { temporary: self.temporary@, file: self.file@, bytes: self.bytes@ }
    }
}

/// How a checkpoint is to be persisted.
pub open spec fn planned(c: Checkpoint) -> SavePlanView {
    let file = FileCheckpointStore::file_text(c.connector@, c.topic@, c.partition.0);
    SavePlanView { temporary: file + ".tmp"@, file, bytes: numeral(c.offset.0) }
}

/// What went wrong with a checkpoint's files.
#[derive(Debug, Clone, Copy, PartialEq, Eq, Structural)]
pub enum FileStep {
    /// The directory could not be created.
    CreateDir,
    /// The temporary file could not be written.
    Write,
    /// The temporary file could not be renamed.
    Commit,
}

impl FileStep {
    /// How the failure of the step is told.
    pub open spec fn label(self) -> Seq<char> {
        match self {
            FileStep::CreateDir => "create checkpoint dir: "@,
            FileStep::Write => "write checkpoint: "@,
            FileStep::Commit => "commit checkpoint: "@,
        }
    }

    /// The error of a step that failed.
    pub fn failure(self, why: &str) -> (r: PortError)
        ensures
            r matches PortError::Transient(text) && text@ == self.label() + why@,
    {
        let label = match self {
            FileStep::CreateDir => "create checkpoint dir: ",
            FileStep::Write => "write checkpoint: ",
            FileStep::Commit => "commit checkpoint: ",
        };
        PortError::Transient(label.to_owned().concat(why))
    }
}

/// Durable checkpoint store backed by one small JSON file per
/// `(connector, topic, partition)`.
#[derive(Debug)]
pub struct FileCheckpointStore;

impl FileCheckpointStore {
    /// The name of a checkpoint's file.
    pub open spec fn file_text(connector: Seq<char>, topic: Seq<char>, partition: u32) -> Seq<
        char,
    > {
        key_text(connector, topic, partition) + ".json"@
    }

    /// The name of a checkpoint's file.
    pub fn path(connector: &ConnectorId, topic: &TopicName, partition: PartitionId) -> (r: String)
        ensures
            r@ == FileCheckpointStore::file_text(connector@, topic@, partition.0),
            valid_names(connector@, topic@),
    {
        key(connector, topic, partition).concat(".json")
    }

    /// The saved next-offset that a checkpoint's file tells: none if there is no
    /// such file.
    pub fn load(read: FileRead) -> (r: Result<Option<Offset>, PortError>)
        ensures
            match read {
                FileRead::Contents(bytes) => match number_in(bytes@) {
                    Ok(offset) => r == Ok::<Option<Offset>, PortError>(Some(Offset(offset))),
                    Err(why) => r matches Err(PortError::Permanent(text)) && text@
                        == "decode checkpoint: "@ + why,
                },
                FileRead::Missing => r == Ok::<Option<Offset>, PortError>(None),
                FileRead::Failed(why) => r matches Err(PortError::Transient(text)) && text@
                    == "read checkpoint: "@ + why@,
            },
    {
        match read {
            FileRead::Contents(bytes) => {
                proof {
                    lemma_numerals_differ();
                }
                match from_json(bytes.as_slice()) {
                    Ok(offset) => Ok(Some(Offset(offset))),
                    Err(why) => Err(
                        PortError::Permanent(
                            "decode checkpoint: ".to_owned().concat(why.as_str()),
                        ),
                    ),
                }
            },
            FileRead::Missing => Ok(None),
            FileRead::Failed(why) => Err(
                PortError::Transient("read checkpoint: ".to_owned().concat(why.as_str())),
            ),
        }
    }

    /// How to persist a checkpoint.
    pub fn save(checkpoint: &Checkpoint) -> (r: Result<SavePlan, PortError>)
        ensures
            r matches Ok(plan) && plan@ == planned(*checkpoint),
            r matches Ok(plan) && {
                let file = FileCheckpointStore::file_text(
                    checkpoint.connector@,
                    checkpoint.topic@,
                    checkpoint.partition.0,
                );
                &&& plan.file@ == file
                &&& plan.temporary@ == file + ".tmp"@
                &&& plan.bytes@ == numeral(checkpoint.offset.0)
            },
    {
        match to_json(checkpoint.offset.0) {
            Err(why) => Err(
                PortError::Permanent("encode checkpoint: ".to_owned().concat(why.as_str())),
            ),
            Ok(bytes) => {
                let file = FileCheckpointStore::path(
                    &checkpoint.connector,
                    &checkpoint.topic,
                    checkpoint.partition,
                );
                let temporary = file.clone().concat(".tmp");
                Ok(SavePlan { temporary, file, bytes })
            },
        }
    }
}

/// A numeral is written from one number only.
proof fn lemma_numerals_differ()
    ensures
        forall|a: u64, b: u64| #[trigger] numeral(a) == #[trigger] numeral(b) ==> a == b,
{
    assert forall|a: u64, b: u64| #[trigger] numeral(a) == #[trigger] numeral(b) implies a
        == b by {
        encode_utf8_decode_utf8(text::decimal(a as nat));
        encode_utf8_decode_utf8(text::decimal(b as nat));
        text::law_decimal_read_back(a as nat);
        text::law_decimal_read_back(b as nat);
    }
}

/// What is loaded from a checkpoint's file is what was saved to it.
pub proof fn law_checkpoint_reads_back(offset: u64)
    ensures
        number_in(numeral(offset)) == Ok::<u64, Seq<char>>(offset),
{
    lemma_numerals_differ();
    assert(numeral(offset) == numeral(offset));
}

/// Whether the names that make up a key are valid.
pub open spec fn valid_names(connector: Seq<char>, topic: Seq<char>) -> bool {
    &&& units::name_problem(connector, MAX_CONNECTOR_ID_LEN as nat) is None
    &&& units::name_problem(topic, MAX_TOPIC_NAME_LEN as nat) is None
}

/// Each connector, topic and partition has a key, and a file, of its own.
pub proof fn law_keys_are_kept_apart(
    connector: Seq<char>,
    topic: Seq<char>,
    partition: u32,
    other_connector: Seq<char>,
    other_topic: Seq<char>,
    other_partition: u32,
)
    requires
        valid_names(connector, topic),
        valid_names(other_connector, other_topic),
    ensures
        ({
            let same = connector == other_connector && topic == other_topic && partition
                == other_partition;
            &&& key_text(connector, topic, partition) == key_text(
                other_connector,
                other_topic,
                other_partition,
            ) <==> same
            &&& FileCheckpointStore::file_text(connector, topic, partition)
                == FileCheckpointStore::file_text(
                other_connector,
                other_topic,
                other_partition,
            ) <==> same
        }),
{
    reveal_strlit("@");
    let one = text::decimal(partition as nat);
    let two = text::decimal(other_partition as nat);
    let key = key_text(connector, topic, partition);
    let other_key = key_text(other_connector, other_topic, other_partition);
    let file = key + ".json"@;
    let other_file = other_key + ".json"@;
    if file == other_file {
        assert(file.len() == key.len() + ".json"@.len());
        assert(other_file.len() == other_key.len() + ".json"@.len());
        assert(file.take(key.len() as int) =~= key);
        assert(other_file.take(key.len() as int) =~= other_key);
    }
    if key == other_key {
        assert(key =~= connector + "@"@ + (topic + "@"@ + one));
        assert(other_key =~= other_connector + "@"@ + (other_topic + "@"@ + two));
        lemma_first_joint(connector, topic + "@"@ + one, other_connector, other_topic + "@"@ + two);
        lemma_first_joint(topic, one, other_topic, two);
        text::law_decimal_read_back(partition as nat);
        text::law_decimal_read_back(other_partition as nat);
    }
}

/// Names in front of the joining character end where it first stands.
proof fn lemma_first_joint(a: Seq<char>, x: Seq<char>, b: Seq<char>, y: Seq<char>)
    requires
        a + "@"@ + x == b + "@"@ + y,
        forall|i: int| 0 <= i < a.len() ==> #[trigger] units::name_char(a[i]),
        forall|i: int| 0 <= i < b.len() ==> #[trigger] units::name_char(b[i]),
    ensures
        a == b,
        x == y,
{
    reveal_strlit("@");
    let left = a + "@"@ + x;
    let right = b + "@"@ + y;
    assert(left[a.len() as int] == '@');
    assert(right[b.len() as int] == '@');
    if a.len() < b.len() {
        assert(right[a.len() as int] == b[a.len() as int]);
        assert(units::name_char(b[a.len() as int]));
    }
    if b.len() < a.len() {
        assert(left[b.len() as int] == a[b.len() as int]);
        assert(units::name_char(a[b.len() as int]));
    }
    assert(left.take(a.len() as int) =~= a);
    assert(right.take(a.len() as int) =~= b);
    assert(left.skip(a.len() as int + 1) =~= x);
    assert(right.skip(a.len() as int + 1) =~= y);
}

/// The files in the directory of a checkpoint store, by name, after a checkpoint
/// was saved as planned: written to its temporary file, which was then renamed.
pub open spec fn persisted(files: Map<Seq<char>, Seq<u8>>, c: Checkpoint) -> Map<
    Seq<char>,
    Seq<u8>,
> {
    let plan = planned(c);
    let written = files.insert(plan.temporary, plan.bytes);
    written.insert(plan.file, written[plan.temporary]).remove(plan.temporary)
}

/// The files after a sequence of saves.
pub open spec fn all_persisted(files: Map<Seq<char>, Seq<u8>>, saves: Seq<Checkpoint>) -> Map<
    Seq<char>,
    Seq<u8>,
>
    decreases saves.len(),
{
    if saves.len() == 0 {
        files
    } else {
        persisted(all_persisted(files, saves.drop_last()), saves.last())
    }
}

/// What a memory store holds after a sequence of saves.
pub open spec fn all_kept(map: Map<Seq<char>, u64>, saves: Seq<Checkpoint>) -> Map<Seq<char>, u64>
    decreases saves.len(),
{
    if saves.len() == 0 {
        map
    } else {
        kept(all_kept(map, saves.drop_last()), saves.last())
    }
}

/// Whether a checkpoint belongs to a connector, topic and partition.
pub open spec fn belongs(
    c: Checkpoint,
    connector: Seq<char>,
    topic: Seq<char>,
    partition: u32,
) -> bool {
    c.connector@ == connector && c.topic@ == topic && c.partition.0 == partition
}

/// The offset that was saved last for a connector, topic and partition.
pub open spec fn last_saved(
    saves: Seq<Checkpoint>,
    connector: Seq<char>,
    topic: Seq<char>,
    partition: u32,
) -> Option<u64>
    decreases saves.len(),
{
    if saves.len() == 0 {
        None
    } else if belongs(saves.last(), connector, topic, partition) {
        Some(saves.last().offset.0)
    } else {
        last_saved(saves.drop_last(), connector, topic, partition)
    }
}

/// Whatever was saved, and however often, what is loaded for a connector, topic
/// and partition is the offset that was saved for it last. If none was, nothing
/// is found that was not there before.
pub proof fn law_load_gives_the_last_save(
    files: Map<Seq<char>, Seq<u8>>,
    map: Map<Seq<char>, u64>,
    saves: Seq<Checkpoint>,
    connector: Seq<char>,
    topic: Seq<char>,
    partition: u32,
)
    requires
        valid_names(connector, topic),
        forall|i: int|
            0 <= i < saves.len() ==> valid_names(
                (#[trigger] saves[i]).connector@,
                saves[i].topic@,
            ),
    ensures
        ({
            let file = FileCheckpointStore::file_text(connector, topic, partition);
            let after = all_persisted(files, saves);
            match last_saved(saves, connector, topic, partition) {
                Some(offset) => {
                    &&& after.contains_key(file)
                    &&& number_in(after[file]) == Ok::<u64, Seq<char>>(offset)
                },
                None => {
                    &&& after.contains_key(file) == files.contains_key(file)
                    &&& after[file] == files[file]
                },
            }
        }),
        ({
            let key = key_text(connector, topic, partition);
            let after = all_kept(map, saves);
            match last_saved(saves, connector, topic, partition) {
                Some(offset) => {
                    &&& after.contains_key(key)
                    &&& after[key] == offset
                    &&& found(after, connector, topic, partition) == Some(offset)
                },
                None => after.contains_key(key) == map.contains_key(key) && after[key] == map[key],
            }
        }),
    decreases saves.len(),
{
    if saves.len() > 0 {
        let c = saves.last();
        let earlier = saves.drop_last();
        assert forall|i: int| 0 <= i < earlier.len() implies valid_names(
            (#[trigger] earlier[i]).connector@,
            earlier[i].topic@,
        ) by {
            assert(earlier[i] == saves[i]);
        }
        assert(saves[saves.len() - 1] == c);
        law_load_gives_the_last_save(files, map, earlier, connector, topic, partition);
        law_keys_are_kept_apart(
            connector,
            topic,
            partition,
            c.connector@,
            c.topic@,
            c.partition.0,
        );
        law_checkpoint_reads_back(c.offset.0);
        let file = FileCheckpointStore::file_text(connector, topic, partition);
        let saved = FileCheckpointStore::file_text(c.connector@, c.topic@, c.partition.0);
        let temporary = saved + ".tmp"@;
        reveal_strlit(".json");
        reveal_strlit(".tmp");
        assert(file.last() == 'n');
        assert(saved.last() == 'n');
        assert(temporary.last() == 'p');
    }
}

/// Whatever was saved, there is a checkpoint to load if and only if one was
/// saved for that connector, topic and partition.
pub proof fn law_nothing_else_is_saved(
    saves: Seq<Checkpoint>,
    connector: Seq<char>,
    topic: Seq<char>,
    partition: u32,
)
    ensures
        last_saved(saves, connector, topic, partition) is Some <==> exists|i: int|
            0 <= i < saves.len() && belongs(#[trigger] saves[i], connector, topic, partition),
    decreases saves.len(),
{
    if saves.len() > 0 {
        let earlier = saves.drop_last();
        law_nothing_else_is_saved(earlier, connector, topic, partition);
        if belongs(saves.last(), connector, topic, partition) {
            assert(belongs(saves[saves.len() - 1], connector, topic, partition));
        } else if last_saved(saves, connector, topic, partition) is Some {
            let i = choose|i: int|
                0 <= i < earlier.len() && belongs(
                    #[trigger] earlier[i],
                    connector,
                    topic,
                    partition,
                );
            assert(belongs(saves[i], connector, topic, partition));
        } else {
            assert forall|i: int| 0 <= i < saves.len() implies !belongs(
                #[trigger] saves[i],
                connector,
                topic,
                partition,
            ) by {
                if i < earlier.len() {
                    assert(earlier[i] == saves[i]);
                }
            }
        }
    }
}

} // verus!
