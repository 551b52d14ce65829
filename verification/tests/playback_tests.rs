use virtual_keyboard::buffer_que_manager::{DefaultBufferQueManager, EnqueueAction};
use virtual_keyboard::playback::add_notes_to_buffer_que;

fn que_contents(pool: &DefaultBufferQueManager, index: usize) -> Vec<i64> {
    let mut contents = Vec::new();
    let mut at = 0;
    while at < pool.que_len(index) {
        contents.push(pool.que_sample(index, at));
        at += 1;
    }
    contents
}

#[test]
fn empty_batch_changes_nothing() {
    let mut pool = DefaultBufferQueManager::new();
    let act = add_notes_to_buffer_que(&mut pool, Vec::new());
    assert!(act.is_none());
    assert_eq!(pool.stream_count(), 0);
}

#[test]
fn single_note_is_enqueued_unmixed() {
    let mut pool = DefaultBufferQueManager::new();
    let act = add_notes_to_buffer_que(&mut pool, vec![vec![3i64, 1, 4]]);
    assert!(matches!(act, Some(EnqueueAction::CreatedStream { index: 0 })));
    assert_eq!(que_contents(&pool, 0), vec![3i64, 1, 4]);
}

#[test]
fn chord_batch_is_mixed_before_enqueue() {
    let mut pool = DefaultBufferQueManager::new();
    let frames = vec![vec![1i64, 2, 3], vec![10i64, 20], vec![100i64, 200, 300, 400]];
    let act = add_notes_to_buffer_que(&mut pool, frames);
    assert!(matches!(act, Some(EnqueueAction::CreatedStream { index: 0 })));
    assert_eq!(pool.stream_count(), 1);
    assert_eq!(que_contents(&pool, 0), vec![111i64, 222]);
}

#[test]
fn successive_batches_follow_pool_scheduling() {
    let mut pool = DefaultBufferQueManager::new();
    add_notes_to_buffer_que(&mut pool, vec![vec![1i64]]);
    let act = add_notes_to_buffer_que(&mut pool, vec![vec![2i64], vec![3i64]]);
    // The first queue still holds samples, so a second stream is built.
    assert!(matches!(act, Some(EnqueueAction::CreatedStream { index: 1 })));
    assert_eq!(que_contents(&pool, 1), vec![5i64]);
}
