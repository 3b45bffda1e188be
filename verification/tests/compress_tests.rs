use openhawk::compress::{count_tokens, fallback_compress, CompressError, CompressedContext, SqzEngine};

fn large_context(words: usize) -> String {
    (0..words).map(|i| format!("word{i}")).collect::<Vec<_>>().join(" ")
}

fn large_context_with_duplicates(unique_sentences: usize, repeat: usize) -> String {
    let sentences: Vec<String> = (0..unique_sentences)
        .map(|i| (0..10).map(|w| format!("s{i}w{w}")).collect::<Vec<_>>().join(" "))
        .collect();
    let mut all = Vec::new();
    for _ in 0..repeat {
        all.extend(sentences.iter().cloned());
    }
    all.join(". ")
}

/// Compression as the program runs it when sqz is not installed: a cache
/// lookup, then the built-in fallback.
fn compress(engine: &mut SqzEngine, context: &str, threshold: usize, pid: u32) -> CompressedContext {
    match engine.lookup(context, threshold, pid) {
        Some(c) => c,
        None => engine.store_compressed(context, threshold, pid, None),
    }
}

#[test]
fn compression_reduces_tokens_by_at_least_20_percent() {
    let mut engine = SqzEngine::new();
    let ctx = large_context(200);
    let result = compress(&mut engine, &ctx, 100, 1);
    assert!(!result.cache_hit);
    assert_eq!(result.original_tokens, 200);
    if !result.used_sqz {
        let reduction = 1.0 - (result.compressed_tokens as f64 / result.original_tokens as f64);
        assert!(reduction >= 0.20, "expected >= 20% reduction, got {:.1}%", reduction * 100.0);
    }
}

#[test]
fn below_threshold_returns_as_is() {
    let mut engine = SqzEngine::new();
    let ctx = "hello world foo bar";
    let result = compress(&mut engine, ctx, 100, 1);
    assert_eq!(result.text, ctx);
    assert_eq!(result.original_tokens, result.compressed_tokens);
    assert!(!result.cache_hit);
}

#[test]
fn deduplication_cache_returns_hit_for_identical_input() {
    let mut engine = SqzEngine::new();
    let ctx = large_context(200);
    let first = compress(&mut engine, &ctx, 100, 1);
    assert!(!first.cache_hit);
    let second = compress(&mut engine, &ctx, 100, 1);
    assert!(second.cache_hit);
    assert_eq!(first.compressed_tokens, second.compressed_tokens);
}

#[test]
fn cache_invalidation_clears_all_entries() {
    let mut engine = SqzEngine::new();
    let ctx = large_context(200);
    compress(&mut engine, &ctx, 100, 1);
    assert_eq!(engine.get_stats(None).cache_entries, 1);
    engine.invalidate_cache();
    assert_eq!(engine.get_stats(None).cache_entries, 0);
    let result = compress(&mut engine, &ctx, 100, 1);
    assert!(!result.cache_hit);
}

#[test]
fn stats_reflect_compression_operations() {
    let mut engine = SqzEngine::new();
    let ctx = large_context(200);
    let result = compress(&mut engine, &ctx, 100, 42);
    let stats = engine.get_stats(None);
    assert_eq!(stats.total_tokens_processed, 200);
    assert_eq!(stats.total_tokens_saved, (200 - result.compressed_tokens) as u64);
    let agent_stats = stats.per_agent.get(&42).expect("agent 42 should have stats");
    assert_eq!(agent_stats.tokens_processed, 200);
}

#[test]
fn stats_accumulate_across_multiple_calls() {
    let mut engine = SqzEngine::new();
    compress(&mut engine, &large_context(100), 50, 1);
    compress(&mut engine, &large_context(120), 50, 1);
    let stats = engine.get_stats(None);
    assert_eq!(stats.total_tokens_processed, 220);
}

#[test]
fn deduplication_reduces_repeated_sentences() {
    let mut engine = SqzEngine::new();
    let ctx = large_context_with_duplicates(5, 10);
    let original_tokens = count_tokens(&ctx);
    let result = compress(&mut engine, &ctx, original_tokens - 1, 1);
    assert!(result.compressed_tokens < original_tokens);
}

#[test]
fn different_contexts_produce_different_cache_entries() {
    let mut engine = SqzEngine::new();
    compress(&mut engine, &large_context(100), 50, 1);
    compress(&mut engine, &large_context(110), 50, 1);
    assert_eq!(engine.get_stats(None).cache_entries, 2);
}

#[test]
fn per_agent_stats_are_tracked_separately() {
    let mut engine = SqzEngine::new();
    let ctx = large_context(100);
    compress(&mut engine, &ctx, 50, 1);
    compress(&mut engine, &ctx, 50, 2);
    let stats = engine.get_stats(None);
    assert!(stats.per_agent.contains_key(&1));
    assert!(stats.per_agent.contains_key(&2));
}

#[test]
fn token_count_splits_on_any_whitespace() {
    assert_eq!(count_tokens(""), 0);
    assert_eq!(count_tokens("   "), 0);
    assert_eq!(count_tokens("  a\tb\n c  "), 3);
}

#[test]
fn fallback_drops_repeated_sentences_exactly() {
    assert_eq!(fallback_compress("a b. c d. a b. e", 100), "a b. c d. e");
    assert_eq!(fallback_compress("x.  x. y", 100), "x. y");
}

#[test]
fn fallback_keeps_last_words_within_budget() {
    assert_eq!(fallback_compress("one two  three four", 2), "three four");
    assert_eq!(fallback_compress("a b c. a b c", 2), "b c");
}

#[test]
fn sqz_output_is_trimmed_and_cached() {
    let mut engine = SqzEngine::new();
    let ctx = large_context(10);
    assert!(engine.lookup(&ctx, 5, 7).is_none());
    let r = engine.store_compressed(&ctx, 5, 7, Some("short text \n".to_string()));
    assert_eq!(r.text, "short text");
    assert!(r.used_sqz);
    assert_eq!(r.original_tokens, 10);
    assert_eq!(r.compressed_tokens, 2);
    let again = engine.lookup(&ctx, 5, 7).unwrap();
    assert!(again.cache_hit);
    assert!(again.used_sqz);
    assert_eq!(again.text, "short text");
    let stats = engine.get_stats(Some("sqz says hi".to_string()));
    assert_eq!(stats.total_tokens_processed, 20);
    assert_eq!(stats.total_tokens_saved, 16);
    assert_eq!(stats.sqz_stats.as_deref(), Some("sqz says hi"));
}

#[test]
fn storing_again_replaces_the_cached_result() {
    let mut engine = SqzEngine::new();
    let ctx = large_context(10);
    engine.store_compressed(&ctx, 5, 1, Some("first".to_string()));
    engine.store_compressed(&ctx, 5, 1, Some("second try".to_string()));
    assert_eq!(engine.get_stats(None).cache_entries, 1);
    assert_eq!(engine.lookup(&ctx, 5, 1).unwrap().text, "second try");
}

#[test]
fn savings_never_exceed_original_tokens() {
    let mut engine = SqzEngine::new();
    let ctx = large_context(6);
    let r = engine.store_compressed(&ctx, 3, 9, Some(large_context(12)));
    assert_eq!(r.compressed_tokens, 12);
    let stats = engine.get_stats(None);
    assert_eq!(stats.total_tokens_saved, 0);
    assert_eq!(stats.per_agent.get(&9).unwrap().tokens_processed, 6);
}

#[test]
fn compress_error_message() {
    assert_eq!(CompressError::Internal("boom".to_string()).message(), "compression failed: boom");
}
