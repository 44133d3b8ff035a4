use connectforge::checkpoint::{
    FileCheckpointStore, FileRead, FileStep, MemoryCheckpointStore,
};
use connectforge::connector::{Checkpoint, ConnectorId};
use connectforge::error::PortError;
use connectforge::filepart::{FetchAction, FileAction, PartitionState};
use connectforge::filestore::FileLogStore;
use connectforge::frame::{decode, encode};
use connectforge::layout::{
    partition_dirs, segment_base, segment_bases, segment_file_name, topic_dir,
};
use connectforge::memstore::MemoryLogStore;
use connectforge::ports::AppendOutcome;
use connectforge::record::{ProduceRecord, Record};
use connectforge::segment::{read_records, Segment};
use connectforge::stats::{FetchResult, LogStats};
use connectforge::timestamp::Timestamp;
use connectforge::topic::{RetentionPolicy, TopicConfig};
use connectforge::units::{Offset, PartitionId, TopicName};
use std::collections::BTreeMap;

fn topic(name: &str) -> TopicName {
    TopicName::new(name.to_string()).unwrap()
}

fn topic_config(name: &str, partitions: u32, seg_max: u64, max: u64) -> TopicConfig {
    TopicConfig::new(
        topic(name),
        partitions,
        RetentionPolicy {
            segment_max_records: seg_max,
            max_records: max,
        },
    )
    .unwrap()
}

fn produce(payload: &[u8]) -> ProduceRecord {
    ProduceRecord::new(None, payload.to_vec()).unwrap()
}

fn rec(offset: u64, payload: &[u8]) -> Record {
    Record {
        offset: Offset(offset),
        timestamp: Timestamp::now(),
        key: Some(format!("k{offset}")),
        payload: payload.to_vec(),
    }
}

/// A segment with its file.
struct OneSegment {
    segment: Segment,
    file: Vec<u8>,
}

impl OneSegment {
    fn create(base: u64) -> Self {
        OneSegment {
            segment: Segment::create(base),
            file: Vec::new(),
        }
    }

    fn append(&mut self, record: &Record) {
        let bytes = self.segment.append(record);
        self.file.extend_from_slice(&bytes);
        self.segment.appended(bytes.len() as u64);
    }

    fn read_from(&self, from: u64, remaining: usize, out: &mut Vec<Record>) -> usize {
        match self.segment.read_from(from, remaining) {
            Some(start) => read_records(&self.file[start as usize..], remaining, out),
            None => 0,
        }
    }
}

#[test]
fn append_and_read_roundtrip() {
    let mut seg = OneSegment::create(0);
    for i in 0..5 {
        seg.append(&rec(i, format!("p{i}").as_bytes()));
    }
    assert_eq!(seg.segment.len(), 5);
    let mut out = Vec::new();
    let n = seg.read_from(2, 10, &mut out);
    assert_eq!(n, 3);
    assert_eq!(out[0].offset, Offset(2));
    assert_eq!(out[0].payload, b"p2");
    assert_eq!(out[0].key.as_deref(), Some("k2"));
}

#[test]
fn reopen_rebuilds_index() {
    let mut seg = OneSegment::create(0);
    seg.append(&rec(0, b"a"));
    seg.append(&rec(1, b"b"));
    let (segment, torn) = Segment::open(0, &seg.file);
    assert_eq!(torn, None);
    let seg = OneSegment {
        segment,
        file: seg.file,
    };
    assert_eq!(seg.segment.len(), 2);
    let mut out = Vec::new();
    seg.read_from(0, 10, &mut out);
    assert_eq!(out.len(), 2);
    assert_eq!(out[1].payload, b"b");
}

#[test]
fn keyless_record_roundtrips() {
    let mut seg = OneSegment::create(0);
    let r = Record {
        offset: Offset(0),
        timestamp: Timestamp::now(),
        key: None,
        payload: b"nokey".to_vec(),
    };
    seg.append(&r);
    let mut out = Vec::new();
    seg.read_from(0, 1, &mut out);
    assert_eq!(out[0].key, None);
    assert_eq!(out[0].payload, b"nokey");
}

#[test]
fn torn_tails_are_cut_off() {
    let mut seg = OneSegment::create(7);
    seg.append(&rec(7, b"a"));
    let whole = seg.file.len() as u64;
    let next = seg.segment.append(&rec(8, b"bcd"));
    for cut in 0..next.len() {
        let mut data = seg.file.clone();
        data.extend_from_slice(&next[..cut]);
        let (segment, torn) = Segment::open(7, &data);
        assert_eq!(segment.len(), 1, "cut at {cut}");
        assert_eq!(segment.base(), 7);
        assert_eq!(segment.write_pos(), whole);
        assert_eq!(torn, if cut == 0 { None } else { Some(whole) });
    }
    assert!(Segment::create(3).is_empty());
}

#[test]
fn a_torn_segment_goes_on() {
    let mut seg = OneSegment::create(4);
    let stamped = |offset: u64| Record {
        timestamp: Timestamp::from_millis(1_700_000_000_123).unwrap(),
        ..rec(offset, b"p")
    };
    for i in 4..7 {
        seg.append(&stamped(i));
    }
    let torn = seg.segment.append(&stamped(7));
    let mut file = seg.file.clone();
    file.extend_from_slice(&torn[..torn.len() - 1]);
    let (segment, cut) = Segment::open(4, &file);
    file.truncate(cut.unwrap() as usize);
    assert_eq!(file, seg.file);
    let mut seg = OneSegment { segment, file };
    let mut out = Vec::new();
    assert_eq!(seg.read_from(4, 3, &mut out), 3);
    assert_eq!(out, [stamped(4), stamped(5), stamped(6)]);
    seg.append(&stamped(7));
    let mut out = Vec::new();
    assert_eq!(seg.read_from(7, 10, &mut out), 1);
    assert_eq!(out, [stamped(7)]);
}

#[test]
fn segment_reads_start_where_they_should() {
    let mut seg = OneSegment::create(10);
    for i in 10..14 {
        seg.append(&rec(i, b"x"));
    }
    let read = |from: u64, n: usize| {
        let mut out = Vec::new();
        seg.read_from(from, n, &mut out);
        out.iter().map(|r| r.offset.value()).collect::<Vec<_>>()
    };
    assert_eq!(read(0, 2), [10, 11]);
    assert_eq!(read(10, 100), [10, 11, 12, 13]);
    assert_eq!(read(13, 100), [13]);
    assert_eq!(read(14, 100), [0u64; 0]);
    assert_eq!(read(11, 0), [0u64; 0]);
    assert_eq!(seg.segment.read_from(10, 0), None);
    assert_eq!(Segment::create(0).read_from(0, 1), None);
}

#[test]
fn frames_have_the_documented_layout() {
    let record = Record {
        offset: Offset(0x0102),
        timestamp: Timestamp::new(-1, 999_999_999).unwrap(),
        key: Some("é".into()),
        payload: vec![9, 8],
    };
    let mut buf = vec![0xff];
    encode(&record, &mut buf);
    assert_eq!(
        buf,
        [
            0xff, // what was there
            2, 1, 0, 0, 0, 0, 0, 0, // offset
            255, 255, 255, 255, 255, 255, 255, 255, // minus one millisecond
            1, 2, 0, 0, 0, 0xc3, 0xa9, // key
            2, 0, 0, 0, 9, 8, // payload
        ]
    );
    let (back, end) = decode(&buf, 1).unwrap();
    assert_eq!(end, buf.len());
    assert_eq!(back.offset, record.offset);
    assert_eq!(back.key, record.key);
    assert_eq!(back.payload, record.payload);
    assert_eq!(back.timestamp, Timestamp::from_millis(-1).unwrap());

    // A flag other than one means no key.
    let mut odd = vec![0u8; 16];
    odd.push(7);
    odd.extend_from_slice(&[1, 0, 0, 0, 42]);
    let (r, end) = decode(&odd, 0).unwrap();
    assert_eq!((r.key, r.payload, end), (None, vec![42], odd.len()));

    // A key that is not UTF-8 is read lossily.
    let mut lossy = vec![0u8; 16];
    lossy.push(1);
    lossy.extend_from_slice(&[2, 0, 0, 0, b'a', 0xff, 0, 0, 0, 0]);
    let (r, _) = decode(&lossy, 0).unwrap();
    assert_eq!(r.key.as_deref(), Some("a\u{fffd}"));

    // A timestamp outside the calendar ends the log.
    let mut late = vec![0u8; 8];
    late.extend_from_slice(&i64::MAX.to_le_bytes());
    late.push(0);
    late.extend_from_slice(&[0, 0, 0, 0]);
    assert!(decode(&late, 0).is_none());
    assert!(decode(&odd, odd.len()).is_none());
    assert!(decode(&odd, odd.len() + 5).is_none());
    assert!(decode(&odd, usize::MAX).is_none());
}

/// The files of a durable store.
#[derive(Default)]
struct Disk {
    configs: Vec<TopicConfig>,
    files: BTreeMap<(String, u32, u64), Vec<u8>>,
}

fn create(store: &mut FileLogStore, disk: &mut Disk, config: TopicConfig) -> bool {
    if store.plan_topic(&config).is_none() {
        return false;
    }
    disk.configs.push(config.clone());
    store.create_topic(config)
}

fn append(
    store: &mut FileLogStore,
    disk: &mut Disk,
    topic: &TopicName,
    partition: u32,
    records: Vec<ProduceRecord>,
) -> Result<AppendOutcome, PortError> {
    let place = |base: u64| (topic_dir(topic), partition, base);
    assert!(store.has_room(topic, PartitionId(partition), records.len()));
    let (mut run, mut action) =
        store.append(topic, PartitionId(partition), records, Timestamp::now());
    loop {
        match action {
            FileAction::Create(base) => {
                disk.files.entry(place(base)).or_default();
            }
            FileAction::Write(base, bytes) => {
                disk.files.get_mut(&place(base)).unwrap().extend(bytes);
            }
            FileAction::Remove(base) => {
                disk.files.remove(&place(base)).unwrap();
            }
            FileAction::Done(result) => return result,
        }
        assert!(store.fits(&run));
        action = store.append_next(&mut run, Ok(()));
    }
}

fn fetch(
    store: &mut FileLogStore,
    disk: &Disk,
    topic: &TopicName,
    partition: u32,
    from: u64,
    max: usize,
) -> Result<FetchResult, PortError> {
    let (mut run, mut action) = store.fetch(topic, PartitionId(partition), Offset(from), max);
    loop {
        match action {
            FetchAction::Read(base, position) => {
                let file = &disk.files[&(topic_dir(topic), partition, base)];
                let data = file[position as usize..].to_vec();
                action = store.fetch_next(&mut run, Ok(data));
            }
            FetchAction::Done(result) => return result,
        }
    }
}

fn reopen(disk: &mut Disk) -> FileLogStore {
    let mut store = FileLogStore::open();
    for config in disk.configs.clone() {
        let mut partitions = Vec::new();
        for p in 0..config.partitions {
            let names: Vec<String> = disk
                .files
                .keys()
                .filter(|(t, q, _)| *t == topic_dir(&config.name) && *q == p)
                .map(|(_, _, base)| segment_file_name(*base))
                .collect();
            let mut segments = Vec::new();
            for base in segment_bases(&names) {
                let file = disk
                    .files
                    .get_mut(&(topic_dir(&config.name), p, base))
                    .unwrap();
                let (segment, torn) = Segment::open(base, file);
                if let Some(len) = torn {
                    file.truncate(len as usize);
                }
                segments.push(segment);
            }
            partitions.push(PartitionState::recover(segments));
        }
        store.recover(config, partitions);
    }
    store
}

#[test]
fn append_then_fetch_roundtrip() {
    let mut disk = Disk::default();
    let mut store = FileLogStore::open();
    let cfg = topic_config("t", 1, 1000, 0);
    assert!(create(&mut store, &mut disk, cfg));
    let topic = topic("t");

    let batch = vec![produce(b"a"), produce(b"b"), produce(b"c")];
    let out = append(&mut store, &mut disk, &topic, 0, batch).unwrap();
    assert_eq!(out.records.len(), 3);
    assert_eq!(out.records[0].offset, Offset(0));

    let res = fetch(&mut store, &disk, &topic, 0, 1, 10).unwrap();
    assert_eq!(res.records.len(), 2);
    assert_eq!(res.records[0].offset, Offset(1));
    assert_eq!(res.high_watermark, Offset(3));
    assert_eq!(res.next_offset, Offset(3));
}

#[test]
fn segments_roll_and_retention_prunes() {
    let mut disk = Disk::default();
    let mut store = FileLogStore::open();
    // roll every 2 records, retain at most 4.
    create(&mut store, &mut disk, topic_config("t", 1, 2, 4));
    let topic = topic("t");
    for i in 0..10u8 {
        append(&mut store, &mut disk, &topic, 0, vec![produce(&[i])]).unwrap();
    }
    let stats = store.stats().unwrap();
    assert!(stats.records <= 6, "retained {}", stats.records);
    assert_eq!(stats.produced_total, 10);
    // Earliest data was pruned; fetching from 0 clamps forward.
    let res = fetch(&mut store, &disk, &topic, 0, 0, 100).unwrap();
    assert_eq!(res.high_watermark, Offset(10));
    assert!(res.records.iter().all(|r| r.offset.value() >= 4));
    assert_eq!(disk.files.len() as u64, stats.segments);
    assert_eq!(
        store.stats().unwrap().fetched_total,
        res.records.len() as u64
    );
}

#[test]
fn recovers_after_reopen() {
    let mut disk = Disk::default();
    let topic = topic("t");
    {
        let mut store = FileLogStore::open();
        create(&mut store, &mut disk, topic_config("t", 2, 2, 0));
        for i in 0..5u8 {
            append(&mut store, &mut disk, &topic, 0, vec![produce(&[i])]).unwrap();
        }
    }
    let mut store = reopen(&mut disk);
    assert_eq!(store.partition_count(&topic), Some(2));
    let res = fetch(&mut store, &disk, &topic, 0, 0, 100).unwrap();
    assert_eq!(res.records.len(), 5);
    assert_eq!(res.high_watermark, Offset(5));
    // A further append continues from the recovered high-watermark.
    let out = append(&mut store, &mut disk, &topic, 0, vec![produce(b"z")]).unwrap();
    assert_eq!(out.records[0].offset, Offset(5));
}

#[test]
fn duplicate_topic_returns_false() {
    let mut disk = Disk::default();
    let mut store = FileLogStore::open();
    assert!(create(&mut store, &mut disk, topic_config("t", 1, 8, 0)));
    assert!(!create(&mut store, &mut disk, topic_config("t", 1, 8, 0)));
    assert!(!store.create_topic(topic_config("t", 1, 8, 0)));
}

#[test]
fn recovery_survives_a_torn_write_and_pruning() {
    let mut disk = Disk::default();
    let mut store = FileLogStore::open();
    create(&mut store, &mut disk, topic_config("t", 1, 2, 4));
    let topic = topic("t");
    for i in 0..9u8 {
        append(&mut store, &mut disk, &topic, 0, vec![produce(&[i])]).unwrap();
    }
    let before = fetch(&mut store, &disk, &topic, 0, 0, 100).unwrap();
    disk.files
        .last_entry()
        .unwrap()
        .get_mut()
        .extend_from_slice(&[9, 0, 0, 0, 0, 0]);
    let mut store = reopen(&mut disk);
    let after = fetch(&mut store, &disk, &topic, 0, 0, 100).unwrap();
    assert_eq!(before, after);
    let out = append(&mut store, &mut disk, &topic, 0, vec![produce(b"next")]).unwrap();
    assert_eq!(out.records[0].offset, Offset(9));
    let tail = fetch(&mut store, &disk, &topic, 0, 9, 100).unwrap();
    assert_eq!(tail.records[0].payload, b"next");
}

#[test]
fn fetches_cross_segments_and_continue() {
    let mut disk = Disk::default();
    let mut store = FileLogStore::open();
    create(&mut store, &mut disk, topic_config("t", 1, 3, 0));
    let topic = topic("t");
    let batch: Vec<ProduceRecord> = (0..10u8).map(|i| produce(&[i])).collect();
    append(&mut store, &mut disk, &topic, 0, batch).unwrap();
    let bases: Vec<u64> = disk.files.keys().map(|(_, _, base)| *base).collect();
    assert_eq!(bases, [0, 3, 6, 9]);
    let mut from = 0;
    let mut seen = Vec::new();
    loop {
        let res = fetch(&mut store, &disk, &topic, 0, from, 4).unwrap();
        if res.records.is_empty() {
            assert_eq!(res.next_offset, Offset(10));
            break;
        }
        seen.extend(res.records.iter().map(|r| r.payload[0]));
        from = res.next_offset.value();
    }
    assert_eq!(seen, (0..10).collect::<Vec<u8>>());
    let res = fetch(&mut store, &disk, &topic, 0, 99, 4).unwrap();
    assert_eq!((res.next_offset, res.high_watermark), (Offset(99), Offset(10)));
}

#[test]
fn failed_operations_end_an_append() {
    let mut store = FileLogStore::open();
    store.create_topic(topic_config("t", 1, 2, 0));
    let t = topic("t");
    let (mut run, action) =
        store.append(&t, PartitionId(0), vec![produce(b"a")], Timestamp::now());
    assert!(matches!(action, FileAction::Create(0)));
    let io = PortError::Transient("disk full".into());
    match store.append_next(&mut run, Err(io.clone())) {
        FileAction::Done(Err(e)) => assert_eq!(e, io),
        other => panic!("{other:?}"),
    }
    assert_eq!(store.stats().unwrap().produced_total, 0);
    assert_eq!(store.stats().unwrap().records, 0);
    let (_, action) = store.append(&t, PartitionId(4), vec![produce(b"a")], Timestamp::now());
    match action {
        FileAction::Done(Err(e)) => assert_eq!(e, PortError::NotFound("t/4".into())),
        other => panic!("{other:?}"),
    }
    let (_, action) = store.fetch(&topic("no"), PartitionId(0), Offset(0), 1);
    match action {
        FetchAction::Done(Err(e)) => assert_eq!(e, PortError::NotFound("no".into())),
        other => panic!("{other:?}"),
    }
    assert_eq!(store.partition_count(&topic("no")), None);
}

#[test]
fn failed_write_keeps_what_was_stored() {
    let mut disk = Disk::default();
    let mut store = FileLogStore::open();
    create(&mut store, &mut disk, topic_config("t", 1, 10, 0));
    let t = topic("t");
    append(&mut store, &mut disk, &t, 0, vec![produce(b"a")]).unwrap();
    let (mut run, action) =
        store.append(&t, PartitionId(0), vec![produce(b"b")], Timestamp::now());
    assert!(matches!(action, FileAction::Write(0, _)));
    let action = store.append_next(&mut run, Err(PortError::Transient("full".into())));
    assert!(matches!(action, FileAction::Done(Err(PortError::Transient(_)))));
    let out = append(&mut store, &mut disk, &t, 0, vec![produce(b"c")]).unwrap();
    assert_eq!(out.records[0].offset, Offset(1));
    let res = fetch(&mut store, &disk, &t, 0, 0, 9).unwrap();
    let payloads: Vec<&[u8]> = res.records.iter().map(|r| r.payload.as_slice()).collect();
    assert_eq!(payloads, [b"a", b"c"]);
    assert_eq!(store.stats().unwrap().produced_total, 2);
}

#[test]
fn layout_names() {
    assert_eq!(segment_file_name(42), "00000000000000000042.log");
    assert_eq!(segment_base("00000000000000000042.log"), Some(42));
    assert_eq!(segment_base("7.log"), Some(7));
    for bad in ["", "log", ".log", "7", "7.log.tmp", "x.log", "7.LOG", "7é.log", "-7.log", "é"] {
        assert_eq!(segment_base(bad), None, "{bad}");
    }
    let names: Vec<String> = ["9.log", "topic.json", "10.log", "2.log"]
        .iter()
        .map(|s| s.to_string())
        .collect();
    assert_eq!(segment_bases(&names), [2, 9, 10]);
    assert_eq!(partition_dirs(3), ["0", "1", "2"]);
    assert!(segment_file_name(9) < segment_file_name(10));
    assert!(segment_file_name(u64::MAX - 1) < segment_file_name(u64::MAX));
    assert!(partition_dirs(0).is_empty());
}

fn cfg(name: &str) -> TopicConfig {
    TopicConfig::new(topic(name), 2, RetentionPolicy::default()).unwrap()
}

#[test]
fn append_and_fetch() {
    let mut store = MemoryLogStore::new();
    assert!(store.create_topic(cfg("t")));
    assert!(!store.create_topic(cfg("t")));
    let topic = topic("t");
    store
        .append(
            &topic,
            PartitionId(0),
            vec![produce(b"a"), produce(b"b")],
            Timestamp::now(),
        )
        .unwrap();
    let res = store
        .fetch(&topic, PartitionId(0), Offset(0), 10)
        .unwrap();
    assert_eq!(res.records.len(), 2);
    assert_eq!(res.high_watermark, Offset(2));
    let stats = store.stats();
    assert_eq!(stats.topics, 1);
    assert_eq!(stats.partitions, 2);
    assert_eq!(stats.records, 2);
}

#[test]
fn retention_prunes_head() {
    let mut store = MemoryLogStore::new();
    store.create_topic(topic_config("t", 1, 2, 3));
    let topic = topic("t");
    for i in 0..6u8 {
        store
            .append(&topic, PartitionId(0), vec![produce(&[i])], Timestamp::now())
            .unwrap();
    }
    let res = store
        .fetch(&topic, PartitionId(0), Offset(0), 100)
        .unwrap();
    assert!(res.records.len() <= 3);
    assert_eq!(res.high_watermark, Offset(6));
}

#[test]
fn unknown_topic_errors() {
    let mut store = MemoryLogStore::new();
    let topic = topic("missing");
    let err = store
        .append(&topic, PartitionId(0), vec![produce(b"x")], Timestamp::now())
        .unwrap_err();
    assert!(matches!(err, PortError::NotFound(_)));
}

#[test]
fn memory_store_counts_and_lists() {
    let mut store = MemoryLogStore::new();
    for name in ["b", "a", "c", "B"] {
        assert!(store.create_topic(topic_config(name, 2, 2, 3)));
    }
    let names: Vec<String> = store.topics().iter().map(|c| c.name.to_string()).collect();
    assert_eq!(names, ["B", "a", "b", "c"]);
    assert_eq!(store.partition_total(), 8);
    assert_eq!(store.partition_count(&topic("a")), Some(2));
    assert_eq!(store.partition_count(&topic("z")), None);
    let batch: Vec<ProduceRecord> = (0..5u8).map(|i| produce(&[i])).collect();
    let out = store
        .append(&topic("a"), PartitionId(1), batch, Timestamp::now())
        .unwrap();
    assert_eq!(out.records.len(), 5);
    assert_eq!(out.truncated_to, Some(Offset(2)));
    let err = store
        .append(&topic("a"), PartitionId(2), vec![], Timestamp::now())
        .unwrap_err();
    assert_eq!(err, PortError::NotFound("a/2".into()));
    let res = store
        .fetch(&topic("a"), PartitionId(1), Offset(0), 2)
        .unwrap();
    assert_eq!(res.records[0].offset, Offset(2));
    assert_eq!(res.next_offset, Offset(4));
    let err = store
        .fetch(&topic("a"), PartitionId(9), Offset(0), 2)
        .unwrap_err();
    assert_eq!(err, PortError::NotFound("a/9".into()));
    assert_eq!(
        store.stats(),
        LogStats {
            topics: 4,
            partitions: 8,
            records: 3,
            segments: 2,
            produced_total: 5,
            fetched_total: 2,
        }
    );
}

#[test]
fn whole_segments_are_pruned_in_memory() {
    let mut store = MemoryLogStore::new();
    store.create_topic(topic_config("t", 1, 2, 3));
    let t = topic("t");
    let mut truncated = Vec::new();
    for i in 0..6u8 {
        let out = store
            .append(&t, PartitionId(0), vec![produce(&[i])], Timestamp::now())
            .unwrap();
        truncated.push(out.truncated_to);
    }
    assert_eq!(
        truncated,
        [None, None, None, Some(Offset(2)), None, Some(Offset(4))]
    );
    assert_eq!((store.stats().records, store.stats().segments), (2, 1));

    // A segment takes no more than the partition may retain.
    store.create_topic(topic_config("wide", 1, 10, 3));
    let wide = topic("wide");
    let batch: Vec<ProduceRecord> = (0..5u8).map(|i| produce(&[i])).collect();
    let out = store
        .append(&wide, PartitionId(0), batch, Timestamp::now())
        .unwrap();
    assert_eq!(out.truncated_to, Some(Offset(3)));
    let res = store.fetch(&wide, PartitionId(0), Offset(0), 100).unwrap();
    let offsets: Vec<Offset> = res.records.iter().map(|r| r.offset).collect();
    assert_eq!(offsets, [Offset(3), Offset(4)]);
    assert_eq!(res.high_watermark, Offset(5));
}

#[test]
fn the_bound_is_kept_with_the_newest_record() {
    for (roll, bound) in [(1, 1), (1024, 10), (10, 3), (3, 3), (2, 7), (1024, 1)] {
        let mut store = MemoryLogStore::new();
        store.create_topic(topic_config("t", 1, roll, bound));
        let t = topic("t");
        let mut next = 0;
        for size in [1u8, 1, 12, 0, 5, 3, 1, 30, 2] {
            let batch = (0..size).map(|i| produce(&[i])).collect::<Vec<_>>();
            store
                .append(&t, PartitionId(0), batch, Timestamp::now())
                .unwrap();
            next += u64::from(size);
            let res = store.fetch(&t, PartitionId(0), Offset(0), 100).unwrap();
            assert!(res.records.len() as u64 <= bound, "{roll} {bound}");
            assert_eq!(res.records.last().unwrap().offset, Offset(next - 1));
            assert_eq!(res.high_watermark, Offset(next));
        }
    }
}

#[test]
fn a_last_segment_over_the_bound_is_pruned() {
    let mut part = PartitionState::new();
    let batch: Vec<ProduceRecord> = (0..5u8).map(|i| produce(&[i])).collect();
    let roomy = RetentionPolicy {
        segment_max_records: 10,
        max_records: 0,
    };
    let (mut run, mut action) = part.append(batch, Timestamp::now(), roomy);
    while !matches!(action, FileAction::Done(_)) {
        assert!(part.fits(&run));
        action = part.append_next(&mut run, Ok(()));
    }
    assert_eq!((part.total_records(), part.segment_count()), (5, 1));

    // An empty segment keeps the place of the next record.
    let tight = RetentionPolicy {
        segment_max_records: 10,
        max_records: 3,
    };
    let (mut run, action) = part.append(vec![], Timestamp::now(), tight);
    assert!(matches!(action, FileAction::Create(5)), "{action:?}");
    let action = part.append_next(&mut run, Ok(()));
    assert!(matches!(action, FileAction::Remove(0)), "{action:?}");
    match part.append_next(&mut run, Ok(())) {
        FileAction::Done(Ok(out)) => assert_eq!(out.truncated_to, Some(Offset(5))),
        other => panic!("{other:?}"),
    }
    assert_eq!((part.total_records(), part.segment_count()), (0, 1));
    assert_eq!(part.next_offset(), 5);

    // So does its file, for the partition that is opened on it.
    let (segment, torn) = Segment::open(5, &[]);
    assert_eq!(torn, None);
    let mut again = PartitionState::recover(vec![segment]);
    assert_eq!((again.next_offset(), again.total_records()), (5, 0));
    let (_, action) = again.append(vec![produce(b"z")], Timestamp::now(), tight);
    assert!(matches!(action, FileAction::Write(5, _)), "{action:?}");

    // Of several segments the whole head goes as well, and nothing is left over.
    let mut part = PartitionState::new();
    let batch: Vec<ProduceRecord> = (0..6u8).map(|i| produce(&[i])).collect();
    let (mut run, mut action) = part.append(
        batch,
        Timestamp::now(),
        RetentionPolicy {
            segment_max_records: 3,
            max_records: 0,
        },
    );
    while !matches!(action, FileAction::Done(_)) {
        action = part.append_next(&mut run, Ok(()));
    }
    let policy = RetentionPolicy {
        segment_max_records: 3,
        max_records: 2,
    };
    let (mut run, mut action) = part.append(vec![], Timestamp::now(), policy);
    let mut seen = Vec::new();
    while !matches!(action, FileAction::Done(_)) {
        seen.push(format!("{action:?}"));
        action = part.append_next(&mut run, Ok(()));
    }
    assert_eq!(seen, ["Create(6)", "Remove(0)", "Remove(3)"]);
}

#[test]
fn segments_take_what_may_be_retained() {
    let capacity = |segment_max_records: u64, max_records: u64| {
        RetentionPolicy {
            segment_max_records,
            max_records,
        }
        .segment_capacity()
    };
    assert_eq!(capacity(1024, 0), 1024);
    assert_eq!(capacity(1024, 10), 10);
    assert_eq!(capacity(2, 3), 2);
    assert_eq!(capacity(3, 3), 3);
    assert_eq!(capacity(0, 0), 1);
}

#[test]
fn topics_have_directories_of_their_own() {
    assert_eq!(topic_dir(&topic("events")), "events");
    assert_eq!(topic_dir(&topic(".")), "@.");
    assert_eq!(topic_dir(&topic("..")), "@..");
    assert_eq!(topic_dir(&topic("...")), "...");
    assert_eq!(topic_dir(&topic(".a")), ".a");
    let mut disk = Disk::default();
    let mut store = FileLogStore::open();
    for name in [".", "..", "..."] {
        create(&mut store, &mut disk, topic_config(name, 1, 2, 0));
        append(&mut store, &mut disk, &topic(name), 0, vec![produce(name.as_bytes())]).unwrap();
    }
    let mut again = reopen(&mut disk);
    assert_eq!(again.topics(), store.topics());
    for name in [".", "..", "..."] {
        let res = fetch(&mut again, &disk, &topic(name), 0, 0, 10).unwrap();
        assert_eq!(res.records.len(), 1);
        assert_eq!(res.records[0].payload, name.as_bytes());
    }
}

#[test]
fn memory_mirrors_files() {
    for (roll, bound) in [(1, 0), (1, 2), (2, 3), (3, 3), (2, 4), (5, 2), (1024, 3), (9, 1)] {
        let mut disk = Disk::default();
        let mut files = FileLogStore::open();
        let mut memory = MemoryLogStore::new();
        create(&mut files, &mut disk, topic_config("t", 1, roll, bound));
        memory.create_topic(topic_config("t", 1, roll, bound));
        let t = topic("t");
        for size in [1u8, 3, 0, 2, 1, 1, 4] {
            let batch = || (0..size).map(|i| produce(&[i + 1])).collect::<Vec<_>>();
            let one = append(&mut files, &mut disk, &t, 0, batch()).unwrap();
            let two = memory
                .append(&t, PartitionId(0), batch(), Timestamp::now())
                .unwrap();
            assert_eq!(one.truncated_to, two.truncated_to, "{roll} {bound}");
            let offsets = |out: &AppendOutcome| -> Vec<Offset> {
                out.records.iter().map(|r| r.offset).collect()
            };
            assert_eq!(offsets(&one), offsets(&two));
            assert_eq!(files.stats().unwrap(), memory.stats(), "{roll} {bound}");
        }
    }
}

#[test]
fn stores_survive_a_restart() {
    let mut disk = Disk::default();
    let mut store = FileLogStore::open();
    create(&mut store, &mut disk, topic_config("b", 2, 2, 3));
    create(&mut store, &mut disk, topic_config("a", 1, 3, 0));
    for i in 0..7u8 {
        append(&mut store, &mut disk, &topic("b"), 1, vec![produce(&[i + 1])]).unwrap();
        append(&mut store, &mut disk, &topic("a"), 0, vec![produce(&[i + 1])]).unwrap();
    }
    let mut again = reopen(&mut disk);
    assert_eq!(again.topics(), store.topics());
    for (name, partition) in [("a", 0), ("b", 0), ("b", 1)] {
        let t = topic(name);
        let before = fetch(&mut store, &disk, &t, partition, 0, 100).unwrap();
        let after = fetch(&mut again, &disk, &t, partition, 0, 100).unwrap();
        assert_eq!(before, after, "{name}/{partition}");
        let out = append(&mut again, &mut disk, &t, partition, vec![produce(b"z")]).unwrap();
        assert_eq!(out.records[0].offset, before.high_watermark);
    }
}

#[test]
fn written_records_are_read_back() {
    let mut store = MemoryLogStore::new();
    store.create_topic(topic_config("t", 1, 1000, 0));
    let t = topic("t");
    let record = ProduceRecord::new(Some("k".into()), vec![1, 2, 3]).unwrap();
    let now = Timestamp::now();
    store
        .append(&t, PartitionId(0), vec![record.clone()], now)
        .unwrap();
    let res = store.fetch(&t, PartitionId(0), Offset(0), 1).unwrap();
    assert_eq!(
        res.records,
        [Record::from_produce(record, Offset(0), now)]
    );
    let ahead = store.fetch(&t, PartitionId(0), Offset(7), 1).unwrap();
    assert_eq!((ahead.records.len(), ahead.next_offset), (0, Offset(7)));
}

fn ids() -> (ConnectorId, TopicName) {
    (
        ConnectorId::new("sink-1".to_string()).unwrap(),
        topic("events"),
    )
}

fn checkpoint(connector: &ConnectorId, topic: &TopicName, offset: u64) -> Checkpoint {
    Checkpoint {
        connector: connector.clone(),
        topic: topic.clone(),
        partition: PartitionId(0),
        offset: Offset(offset),
    }
}

#[test]
fn memory_store_roundtrips() {
    let mut store = MemoryCheckpointStore::new();
    let (c, t) = ids();
    assert_eq!(store.load(&c, &t, PartitionId(0)), None);
    store.save(checkpoint(&c, &t, 42));
    assert_eq!(store.load(&c, &t, PartitionId(0)), Some(Offset(42)));
}

#[test]
fn checkpoints_are_kept_apart() {
    let mut store = MemoryCheckpointStore::new();
    let (c, t) = ids();
    store.save(checkpoint(&c, &t, 1));
    store.save(checkpoint(&c, &topic("other"), 2));
    store.save(checkpoint(&c, &t, 3));
    assert_eq!(store.load(&c, &t, PartitionId(0)), Some(Offset(3)));
    assert_eq!(
        store.load(&c, &topic("other"), PartitionId(0)),
        Some(Offset(2))
    );
    assert_eq!(store.load(&c, &t, PartitionId(1)), None);
}

#[test]
fn file_store_persists_across_reopen() {
    let mut files: BTreeMap<String, Vec<u8>> = BTreeMap::new();
    let (c, t) = ids();
    let read = |files: &BTreeMap<String, Vec<u8>>, partition: u32| {
        let path = FileCheckpointStore::path(&c, &t, PartitionId(partition));
        FileCheckpointStore::load(match files.get(&path) {
            Some(bytes) => FileRead::Contents(bytes.clone()),
            None => FileRead::Missing,
        })
    };
    let plan = FileCheckpointStore::save(&Checkpoint {
        connector: c.clone(),
        topic: t.clone(),
        partition: PartitionId(3),
        offset: Offset(100),
    })
    .unwrap();
    files.insert(plan.temporary.clone(), plan.bytes);
    let bytes = files.remove(&plan.temporary).unwrap();
    files.insert(plan.file, bytes);
    assert_eq!(read(&files, 3).unwrap(), Some(Offset(100)));
    assert!(read(&files, 9).unwrap().is_none());
}

#[test]
fn names_cannot_run_into_each_other() {
    let id = |name: &str| ConnectorId::new(name.to_string()).unwrap();
    let one = FileCheckpointStore::path(&id("a"), &topic("b__c"), PartitionId(0));
    let two = FileCheckpointStore::path(&id("a__b"), &topic("c"), PartitionId(0));
    assert_ne!(one, two);
    let mut store = MemoryCheckpointStore::new();
    store.save(checkpoint(&id("a"), &topic("b__c"), 1));
    assert_eq!(store.load(&id("a__b"), &topic("c"), PartitionId(0)), None);
}

#[test]
fn the_last_save_is_loaded() {
    let mut files: BTreeMap<String, Vec<u8>> = BTreeMap::new();
    let (c, t) = ids();
    let other = topic("other");
    for (topic, offset) in [(&t, 1), (&other, 9), (&t, 5), (&t, 3)] {
        let plan = FileCheckpointStore::save(&checkpoint(&c, topic, offset)).unwrap();
        files.insert(plan.temporary.clone(), plan.bytes);
        let bytes = files.remove(&plan.temporary).unwrap();
        files.insert(plan.file, bytes);
    }
    let load = |topic: &TopicName| {
        let path = FileCheckpointStore::path(&c, topic, PartitionId(0));
        FileCheckpointStore::load(match files.get(&path) {
            Some(bytes) => FileRead::Contents(bytes.clone()),
            None => FileRead::Missing,
        })
    };
    assert_eq!(load(&t), Ok(Some(Offset(3))));
    assert_eq!(load(&other), Ok(Some(Offset(9))));
    assert_eq!(load(&topic("none")), Ok(None));
}

#[test]
fn checkpoint_files_and_their_failures() {
    let (c, t) = ids();
    let plan = FileCheckpointStore::save(&checkpoint(&c, &t, u64::MAX)).unwrap();
    assert_eq!(plan.file, "sink-1@events@0.json");
    assert_eq!(plan.temporary, "sink-1@events@0.json.tmp");
    assert_eq!(plan.bytes, b"18446744073709551615");
    assert_eq!(
        FileCheckpointStore::load(FileRead::Contents(plan.bytes)),
        Ok(Some(Offset(u64::MAX)))
    );
    assert_eq!(
        FileCheckpointStore::load(FileRead::Contents(b" 7\n".to_vec())),
        Ok(Some(Offset(7)))
    );
    match FileCheckpointStore::load(FileRead::Contents(b"seven".to_vec())) {
        Err(PortError::Permanent(why)) => {
            assert_eq!(why, "decode checkpoint: expected value at line 1 column 1")
        }
        other => panic!("{other:?}"),
    }
    assert_eq!(
        FileCheckpointStore::load(FileRead::Failed("denied".into())),
        Err(PortError::Transient("read checkpoint: denied".into()))
    );
    assert_eq!(
        FileStep::CreateDir.failure("x"),
        PortError::Transient("create checkpoint dir: x".into())
    );
    assert_eq!(
        FileStep::Write.failure("x"),
        PortError::Transient("write checkpoint: x".into())
    );
    assert_eq!(
        FileStep::Commit.failure("x"),
        PortError::Transient("commit checkpoint: x".into())
    );
}
