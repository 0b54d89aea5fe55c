use typthon::arena::ArenaStats;
use typthon::async_io::BufferedWriter;
use typthon::actor::{ActorError, ActorId};
use typthon::performance::PerformanceConfig;

#[test]
fn test_arena_stats() {
    let mut stats = ArenaStats::default();

    stats.record_alloc(100);
    assert_eq!(stats.allocations, 1);
    assert_eq!(stats.current_memory, 100);
    assert_eq!(stats.peak_memory, 100);

    stats.record_alloc(200);
    assert_eq!(stats.current_memory, 300);
    assert_eq!(stats.peak_memory, 300);

    stats.record_dealloc(100);
    assert_eq!(stats.current_memory, 200);
    assert_eq!(stats.peak_memory, 300);
}

#[test]
fn dealloc_saturates_and_reset_clears() {
    let mut stats = ArenaStats::default();
    stats.record_alloc(10);
    stats.record_dealloc(50);
    assert_eq!(stats.current_memory, 0);
    assert_eq!(stats.deallocations, 1);
    assert_eq!(stats.peak_memory, 10);
    stats.reset();
    assert_eq!(stats, ArenaStats::default());
}

#[test]
fn buffered_writer() {
    let mut w = BufferedWriter::new(4);
    assert!(w.is_empty());
    w.write(b"ab");
    assert_eq!(w.len(), 2);
    assert!(!w.should_flush());
    w.write(b"cd");
    assert!(w.should_flush());
    assert_eq!(w.bytes(), b"abcd");
    w.clear();
    assert!(w.is_empty());
}

#[test]
fn actor_errors_and_ids() {
    assert_eq!(ActorId::new(3), ActorId(3));
    assert_eq!(ActorError::Disconnected.to_string(), "actor disconnected");
    assert_eq!(ActorError::MailboxFull.to_string(), "actor mailbox full");
    assert_eq!(ActorError::Timeout.to_string(), "actor message timeout");
}

#[test]
fn performance_defaults() {
    let c = PerformanceConfig::with_cache_dir("/tmp/c".to_string());
    assert!(c.incremental && c.cache_enabled && c.memory_pool);
    assert_eq!(c.cache_size_mb, 1024);
    assert_eq!(c.workers, 0);
    assert_eq!(c.cache_dir, "/tmp/c");
}
