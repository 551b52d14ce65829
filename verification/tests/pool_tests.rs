use virtual_keyboard::buffer_que_manager::{
    next_frame, select_enqueue_target, write_audio, DefaultBufferQueManager, EnqueueAction,
    QueSelection, MAX_ALLOWED_QUES,
};

fn que_contents(pool: &DefaultBufferQueManager, index: usize) -> Vec<i64> {
    let mut contents = Vec::new();
    let mut at = 0;
    while at < pool.que_len(index) {
        contents.push(pool.que_sample(index, at));
        at += 1;
    }
    contents
}

#[test]
fn enqueue_on_empty_pool_creates_exactly_one_seeded_stream() {
    let mut pool = DefaultBufferQueManager::new();
    assert_eq!(pool.stream_count(), 0);
    let act = pool.add_frames_to_que(vec![1i64, 2, 3]);
    assert!(matches!(act, EnqueueAction::CreatedStream { index: 0 }));
    assert_eq!(pool.stream_count(), 1);
    assert_eq!(que_contents(&pool, 0), vec![1i64, 2, 3]);
    assert!(pool.is_playing(0));
}

#[test]
fn enqueue_reuses_first_empty_queue() {
    let mut pool = DefaultBufferQueManager::new();
    pool.add_frames_to_que(vec![1i64, 1]);
    pool.add_frames_to_que(vec![2i64, 2]);
    pool.add_frames_to_que(vec![3i64, 3]);
    assert_eq!(pool.stream_count(), 3);
    // Drain the middle queue; the next enqueue must reuse it.
    let taken = pool.take_frames(1, 10);
    assert_eq!(taken, vec![2i64, 2]);
    assert_eq!(pool.que_len(1), 0);
    let act = pool.add_frames_to_que(vec![9i64]);
    assert!(matches!(act, EnqueueAction::Appended { index: 1 }));
    assert_eq!(que_contents(&pool, 1), vec![9i64]);
    assert_eq!(pool.stream_count(), 3);
}

#[test]
fn pool_at_maximum_appends_to_fewest_samples_and_never_grows() {
    let mut pool = DefaultBufferQueManager::new();
    // Fill the pool to its maximum with queues of known, distinct lengths.
    let lengths = [5usize, 4, 6, 3, 7, 8, 9];
    for (k, len) in lengths.iter().enumerate() {
        let act = pool.add_frames_to_que(vec![k as i64; *len]);
        assert!(matches!(act, EnqueueAction::CreatedStream { .. }));
    }
    assert_eq!(pool.stream_count(), MAX_ALLOWED_QUES);
    // One more call than the pool has slots: none may create a stream.
    for round in 0..(MAX_ALLOWED_QUES + 1) {
        let act = pool.add_frames_to_que(vec![100 + round as i64]);
        assert!(matches!(act, EnqueueAction::Appended { .. }));
        assert_eq!(pool.stream_count(), MAX_ALLOWED_QUES);
    }
    // The first overflow call went to the queue that held 3 samples.
    let mut first_target = None;
    let mut check = DefaultBufferQueManager::new();
    for (k, len) in lengths.iter().enumerate() {
        check.add_frames_to_que(vec![k as i64; *len]);
    }
    if let EnqueueAction::Appended { index } = check.add_frames_to_que(vec![42i64]) {
        first_target = Some(index);
    }
    assert_eq!(first_target, Some(3));
    assert_eq!(check.que_len(3), 4);
}

#[test]
fn shortest_queue_tie_breaks_to_lowest_index() {
    let mut pool = DefaultBufferQueManager::new();
    for _ in 0..MAX_ALLOWED_QUES {
        pool.add_frames_to_que(vec![1i64, 1]);
    }
    assert_eq!(pool.stream_count(), MAX_ALLOWED_QUES);
    let act = pool.add_frames_to_que(vec![5i64]);
    assert!(matches!(act, EnqueueAction::Appended { index: 0 }));
    assert_eq!(que_contents(&pool, 0), vec![1i64, 1, 5]);
}

#[test]
fn clear_all_resets_pool_to_empty() {
    let mut pool = DefaultBufferQueManager::new();
    pool.add_frames_to_que(vec![1i64, 2, 3]);
    pool.add_frames_to_que(vec![4i64]);
    assert_eq!(pool.stream_count(), 2);
    pool.clear_all();
    assert_eq!(pool.stream_count(), 0);
}

#[test]
fn pause_all_streams_is_idempotent_and_keeps_queues() {
    let mut pool = DefaultBufferQueManager::new();
    pool.add_frames_to_que(vec![1i64]);
    pool.add_frames_to_que(vec![2i64, 2]);
    assert!(pool.is_playing(0));
    assert!(pool.is_playing(1));
    pool.pause_all_streams();
    assert!(!pool.is_playing(0));
    assert!(!pool.is_playing(1));
    pool.pause_all_streams();
    assert!(!pool.is_playing(0));
    assert!(!pool.is_playing(1));
    assert_eq!(que_contents(&pool, 1), vec![2i64, 2]);
}

#[test]
fn next_frame_takes_requested_count_from_front() {
    let mut que = vec![1i64, 2, 3, 4, 5];
    let frame = next_frame(&mut que, 3);
    assert_eq!(frame, vec![1i64, 2, 3]);
    assert_eq!(que, vec![4i64, 5]);
}

#[test]
fn next_frame_on_short_queue_takes_everything() {
    let mut que = vec![1i64, 2];
    let frame = next_frame(&mut que, 5);
    assert_eq!(frame, vec![1i64, 2]);
    assert!(que.is_empty());
}

#[test]
fn next_frame_at_exact_boundary_drains_queue() {
    let mut que = vec![1i64, 2, 3];
    let frame = next_frame(&mut que, 3);
    assert_eq!(frame, vec![1i64, 2, 3]);
    assert!(que.is_empty());
}

#[test]
fn underrun_fills_buffer_with_queue_then_silence() {
    // The callback asked for 5 samples but the queue held only 2: the
    // buffer comes back full length, prefix from the queue, rest zero.
    let mut que = vec![7i64, 8];
    let requested = 5;
    let frame = next_frame(&mut que, requested);
    let mut buffer = vec![99i64; requested];
    write_audio(&mut buffer, &frame);
    assert_eq!(buffer, vec![7i64, 8, 0, 0, 0]);
}

#[test]
fn write_audio_truncates_long_frame_to_buffer() {
    let mut buffer = vec![0i64; 2];
    write_audio(&mut buffer, &vec![5i64, 6, 7, 8]);
    assert_eq!(buffer, vec![5i64, 6]);
}

#[test]
fn select_target_empty_pool_creates() {
    assert!(matches!(select_enqueue_target(&Vec::new()), QueSelection::NewStream));
}

#[test]
fn select_target_prefers_first_observed_empty() {
    let lens = vec![Some(2usize), Some(0), Some(0)];
    assert!(matches!(select_enqueue_target(&lens), QueSelection::Existing(1)));
}

#[test]
fn select_target_creates_while_pool_has_headroom() {
    let lens = vec![Some(1usize), None, Some(2)];
    assert!(matches!(select_enqueue_target(&lens), QueSelection::NewStream));
}

#[test]
fn select_target_at_maximum_picks_shortest_inspectable() {
    let lens = vec![None, Some(3usize), Some(1), None, Some(1), Some(9), Some(4)];
    assert!(matches!(select_enqueue_target(&lens), QueSelection::Existing(2)));
}

#[test]
fn select_target_all_busy_falls_back_to_first_slot() {
    let lens = vec![None; MAX_ALLOWED_QUES];
    assert!(matches!(select_enqueue_target(&lens), QueSelection::Existing(0)));
}

#[test]
fn select_target_skips_busy_queue_even_if_it_was_shortest() {
    // Slot 1 may well be empty behind its busy lock; it is still not a
    // candidate this round.
    let lens = vec![Some(4usize), None, Some(2), Some(6), Some(5), Some(9), Some(8)];
    assert!(matches!(select_enqueue_target(&lens), QueSelection::Existing(2)));
}
