use vkpace::timestamp_pool::bitset::{Bitset, CHUNK_SIZE};
use vkpace::timestamp_pool::{
    Acquired, ExpiringHandle, QueryReply, ReaperStep, RecordCommand, TimestampPool,
};

#[test]
fn bitset_alloc_release_cycle() {
    let mut bs = Bitset::full();
    assert!(bs.any_free());
    let mut taken = Vec::new();
    while let Some(q) = bs.acquire_pair() {
        assert_eq!(q % 2, 0);
        taken.push(q);
    }
    assert_eq!(taken.len(), (CHUNK_SIZE / 2) as usize);
    assert!(!bs.any_free());
    for &q in &taken[..4] {
        bs.release_pair(q);
    }
    let mut second = Vec::new();
    while let Some(q) = bs.acquire_pair() {
        second.push(q);
    }
    let mut a = taken[..4].to_vec();
    let mut b = second.clone();
    a.sort();
    b.sort();
    assert_eq!(a, b);
}

#[test]
fn bitset_returns_even_indices_only() {
    let mut bs = Bitset::full();
    for _ in 0..10 {
        assert_eq!(bs.acquire_pair().unwrap() % 2, 0);
    }
}

#[test]
fn pairs_come_from_the_lowest_index_on() {
    let mut bs = Bitset::full();
    assert_eq!(bs.acquire_pair(), Some(0));
    assert_eq!(bs.acquire_pair(), Some(2));
    bs.release_pair(0);
    assert_eq!(bs.acquire_pair(), Some(0));
    assert_eq!(bs.acquire_pair(), Some(4));
}

#[test]
fn search_goes_on_from_the_last_word_and_round() {
    let mut bs = Bitset::full();
    for _ in 0..65 {
        bs.acquire_pair();
    }
    // The search is at the second word now.
    assert_eq!(bs.hint, 1);
    assert_eq!(bs.acquire_pair(), Some(130));
    // A pair given back below takes it back there.
    bs.release_pair(10);
    assert_eq!(bs.hint, 0);
    assert_eq!(bs.acquire_pair(), Some(10));
    assert_eq!(bs.acquire_pair(), Some(132));
}

fn buffers(base: u64) -> Vec<u64> {
    (0..CHUNK_SIZE as u64).map(|i| base + i).collect()
}

#[test]
fn chunks_are_filled_one_after_the_other() {
    let mut pool = TimestampPool::new();
    assert!(pool.find_or_alloc().is_none());
    let first = pool.add_chunk(77, buffers(1_000));
    assert_eq!((first.chunk_idx, first.query_index), (0, 0));
    assert_eq!((first.start_buffer(), first.end_buffer()), (1_000, 1_001));
    for i in 1..256 {
        let h = pool.find_or_alloc().unwrap();
        assert_eq!((h.chunk_idx, h.query_index), (0, 2 * i));
        assert_eq!(h.start_buffer(), 1_000 + 2 * i as u64);
    }
    assert!(pool.find_or_alloc().is_none());
    let second = pool.add_chunk(78, buffers(9_000));
    assert_eq!((second.chunk_idx, second.query_index), (1, 0));
    assert_eq!(second.end_buffer(), 9_001);
    assert_eq!(pool.query_pool_for(1), Some(78));
    assert_eq!(pool.query_pool_for(2), None);
}

#[test]
fn a_handle_comes_back_through_the_reaper() {
    let mut pool = TimestampPool::new();
    let mut a = pool.add_chunk(5, buffers(0));
    let b = pool.find_or_alloc().unwrap();
    a.was_submitted = true;
    pool.expire(&a);
    pool.expire(&b);
    // Oldest first; only what was submitted is waited for.
    let first = match pool.reaper_step() {
        ReaperStep::Process(item) => item,
        other => panic!("{:?}", other),
    };
    assert_eq!(first.query_index, 0);
    assert_eq!(pool.wait_before_release(&first), Some((5, 1)));
    // Until it is given back, the pair is not handed out again.
    assert_eq!(pool.find_or_alloc().unwrap().query_index, 4);
    pool.process_expiring(&first);
    assert_eq!(pool.find_or_alloc().unwrap().query_index, 0);
    pool.close();
    let second = match pool.reaper_step() {
        ReaperStep::Process(item) => item,
        other => panic!("{:?}", other),
    };
    assert_eq!(second.query_index, 2);
    assert_eq!(pool.wait_before_release(&second), None);
    pool.process_expiring(&second);
    assert!(matches!(pool.reaper_step(), ReaperStep::Exit));
    assert_eq!(pool.take_chunks().len(), 1);
    assert!(pool.chunks.is_empty());
}

#[test]
fn idle_reaper_parks() {
    let mut pool = TimestampPool::new();
    assert!(matches!(pool.reaper_step(), ReaperStep::Park));
    // A chunk that is gone is passed over.
    pool.process_expiring(&ExpiringHandle {
        chunk_idx: 3,
        query_index: 0,
        was_submitted: false,
    });
    assert!(pool.chunks.is_empty());
}

#[test]
fn recording_stamps_top_then_bottom() {
    let mut pool = TimestampPool::new();
    let h = pool.add_chunk(5, buffers(100));
    let commands = pool.record(&h, true, true).unwrap();
    assert_eq!(commands.len(), 10);
    assert!(matches!(
        commands[0],
        RecordCommand::ResetQuery { query_pool: 5, index: 0 }
    ));
    assert!(matches!(
        commands[3],
        RecordCommand::WriteTimestamp { cb: 100, stage: 1, query_pool: 5, index: 0 }
    ));
    assert!(matches!(
        commands[8],
        RecordCommand::WriteTimestamp { cb: 101, stage: 0x2000, query_pool: 5, index: 1 }
    ));
    assert!(matches!(commands[9], RecordCommand::End { cb: 101 }));
    assert_eq!(pool.record(&h, false, true).unwrap_err(), -7);
    assert_eq!(pool.record(&h, true, false).unwrap_err(), -7);
}

#[test]
fn acquire_records_or_says_what_is_missing() {
    let mut pool = TimestampPool::new();
    assert!(matches!(pool.acquire(true, true), Acquired::NeedChunk));
    pool.add_chunk(5, buffers(100));
    match pool.acquire(true, true) {
        Acquired::Record(h, commands) => {
            assert_eq!(h.query_index, 2);
            assert_eq!(h.end_query(), 3);
            assert_eq!(commands.len(), 10);
        }
        other => panic!("{:?}", other),
    }
    assert!(matches!(pool.acquire(true, false), Acquired::Unsupported(-7)));
}

#[test]
fn acquire_prefers_the_first_chunk() {
    let mut pool = TimestampPool::new();
    pool.add_chunk(5, buffers(100));
    pool.add_chunk(6, buffers(10_000));
    match pool.acquire(true, true) {
        Acquired::Record(h, _) => {
            assert_eq!(h.chunk_idx, 0);
            assert_eq!(h.query_index, 2);
        }
        other => panic!("{:?}", other),
    }
}

#[test]
fn only_written_timestamps_are_read() {
    let reply = |result, available| QueryReply {
        result,
        value: 9,
        available,
    };
    assert_eq!(reply(0, 1).await_ticks(), Some(9));
    assert_eq!(reply(0, 0).await_ticks(), None);
    assert_eq!(reply(1, 1).await_ticks(), None);
    let mut pool = TimestampPool::new();
    let h = pool.add_chunk(5, buffers(0));
    assert!(h.has_end(&reply(0, 1)));
    assert!(!h.has_end(&reply(1, 1)));
    assert_eq!(h.await_end(&reply(0, 1)), Some(9));
}
