use smoke::queue::Queue;
use smoke::threadpool::ThreadPool;

#[test]
fn two_places_five_jobs() {
    let mut pool = ThreadPool::new(2);
    assert_eq!(pool.spawn("a"), Some("a"));
    assert_eq!(pool.spawn("b"), Some("b"));
    assert_eq!(pool.spawn("c"), None);
    assert_eq!(pool.spawn("d"), None);
    assert_eq!(pool.spawn("e"), None);
    assert_eq!(pool.running(), 2);
    assert_eq!(pool.pending(), 3);
    assert_eq!(pool.complete(), Some("c"));
    assert_eq!(pool.running(), 2);
    assert_eq!(pool.complete(), Some("d"));
    assert_eq!(pool.running(), 2);
    assert_eq!(pool.complete(), Some("e"));
    assert_eq!(pool.running(), 2);
    assert_eq!(pool.pending(), 0);
    assert_eq!(pool.complete(), None);
    assert_eq!(pool.running(), 1);
    assert_eq!(pool.complete(), None);
    assert_eq!(pool.running(), 0);
}

#[test]
fn a_new_pool_is_idle() {
    let pool: ThreadPool<u8> = ThreadPool::new(3);
    assert_eq!(pool.running(), 0);
    assert_eq!(pool.pending(), 0);
}

#[test]
fn process_is_a_no_op_without_a_free_place_or_a_job() {
    let mut pool = ThreadPool::new(1);
    assert_eq!(pool.process(), None);
    assert_eq!(pool.spawn(1), Some(1));
    assert_eq!(pool.spawn(2), None);
    assert_eq!(pool.process(), None);
    assert_eq!(pool.process(), None);
    assert_eq!(pool.running(), 1);
    assert_eq!(pool.pending(), 1);
}

#[test]
fn a_pool_without_a_place_only_queues() {
    let mut pool = ThreadPool::new(0);
    assert_eq!(pool.spawn(1), None);
    assert_eq!(pool.spawn(2), None);
    assert_eq!(pool.process(), None);
    assert_eq!(pool.running(), 0);
    assert_eq!(pool.pending(), 2);
}

#[test]
fn queue_starts_up_to_its_limit_in_order() {
    let mut queue = Queue::new(1);
    assert_eq!(queue.pending(), 0);
    assert_eq!(queue.run("a"), Some("a"));
    assert_eq!(queue.run("b"), None);
    assert_eq!(queue.run("c"), None);
    assert_eq!(queue.pending(), 2);
    assert_eq!(queue.done(), Some("b"));
    assert_eq!(queue.done(), Some("c"));
    assert_eq!(queue.done(), None);
    assert_eq!(queue.pending(), 0);
}

#[test]
fn a_paused_queue_starts_nothing_until_it_is_resumed() {
    let mut queue = Queue::new(2);
    queue.pause();
    assert_eq!(queue.run("a"), None);
    assert_eq!(queue.run("b"), None);
    assert_eq!(queue.run("c"), None);
    assert_eq!(queue.process(), None);
    assert_eq!(queue.pending(), 3);
    assert_eq!(queue.resume(), Some("a"));
    assert_eq!(queue.process(), Some("b"));
    assert_eq!(queue.process(), None);
    assert_eq!(queue.pending(), 1);
    queue.pause();
    assert_eq!(queue.done(), None);
    assert_eq!(queue.pending(), 1);
    assert_eq!(queue.resume(), Some("c"));
    assert_eq!(queue.done(), None);
    assert_eq!(queue.done(), None);
}
