use aetheris::engine::progressive_loading::{ChunkType, ContentChunk, LoadingContext, LoadingStrategy, ProgressiveLoader};

fn chunk(id: &str, priority: u8, tokens: i64) -> ContentChunk {
    ContentChunk {
        chunk_id: id.to_string(),
        content: format!("content of {}", id),
        chunk_type: ChunkType::Context,
        priority,
        estimated_tokens: tokens,
        dependencies: vec![],
    }
}

#[test]
fn test_loading_context_strategies() {
    let mut lazy = LoadingContext::new("t".to_string(), LoadingStrategy::Lazy, 2);
    assert!(lazy.should_load_next_chunk());
    lazy.mark_chunk_loaded("a".to_string());
    assert!(!lazy.should_load_next_chunk());
    let on_demand = LoadingContext::new("t".to_string(), LoadingStrategy::OnDemand, 2);
    assert!(!on_demand.should_load_next_chunk());
    let immediate = LoadingContext::new("t".to_string(), LoadingStrategy::Immediate, 2);
    assert!(immediate.should_load_next_chunk());
    let mut batch = LoadingContext::new("t".to_string(), LoadingStrategy::Batch, 2);
    for i in 0..5 {
        assert!(batch.should_load_next_chunk());
        batch.mark_chunk_loaded(format!("c{}", i));
    }
    assert!(!batch.should_load_next_chunk());
}

#[test]
fn test_loading_context_chunks_and_depth() {
    let mut c = LoadingContext::new("t".to_string(), LoadingStrategy::Immediate, 1);
    c.add_pending_chunk("a".to_string());
    c.add_pending_chunk("b".to_string());
    c.add_pending_chunk("a".to_string());
    assert_eq!(c.pending_chunks, vec!["a".to_string(), "b".to_string()]);
    c.mark_chunk_loaded("a".to_string());
    assert_eq!(c.loaded_chunks, vec!["a".to_string()]);
    assert_eq!(c.pending_chunks, vec!["b".to_string()]);
    c.add_pending_chunk("a".to_string());
    assert_eq!(c.pending_chunks, vec!["b".to_string()]);
    c.record_token_usage(10, 2, 12);
    assert_eq!((c.prompt_tokens, c.completion_tokens, c.total_tokens), (10, 2, 12));
    assert!(c.can_enter_next_depth());
    assert!(c.enter_next_depth());
    assert_eq!(c.current_depth, 1);
    assert!(!c.enter_next_depth());
    assert_eq!(c.current_depth, 1);
}

#[test]
fn test_loader_load_chunk() {
    let mut loader = ProgressiveLoader::new(100);
    assert!(loader.load_chunk("t", "a", false).is_none());
    loader.create_context("t".to_string(), LoadingStrategy::Lazy, 3);
    loader.register_chunk(chunk("a", 1, 40));
    loader.register_chunk(chunk("b", 1, 70));
    assert!(loader.load_chunk("t", "missing", false).is_none());
    assert!(loader.load_chunk("t", "a", true).is_none());
    let a = loader.load_chunk("t", "a", false).unwrap();
    assert_eq!(a.chunk_id, "a");
    assert!(loader.is_within_budget("t"));
    assert!(loader.load_chunk("t", "b", false).is_none());
    let summary = loader.get_loading_summary("t").unwrap();
    assert_eq!(summary.loaded_chunks_count, 1);
    assert_eq!(summary.total_tokens_used, 40);
    assert!(loader.get_loading_summary("other").is_none());
    assert_eq!(loader.optimize_prompt("t", "base".to_string()), "base\n\ncontent of a");
    assert_eq!(loader.optimize_prompt("other", "base".to_string()), "base");
}

#[test]
fn test_loader_priority_order_and_batch() {
    let mut loader = ProgressiveLoader::new(25);
    for (id, p) in [("low", 1u8), ("high", 9), ("mid", 5), ("mid2", 5), ("x1", 0), ("x2", 0)] {
        loader.register_chunk(chunk(id, p, 10));
    }
    let mut ctx = LoadingContext::new("t".to_string(), LoadingStrategy::Batch, 1);
    for id in ["low", "mid", "high", "ghost", "mid2", "x1", "x2"] {
        ctx.add_pending_chunk(id.to_string());
    }
    loader.insert_context(ctx);
    assert!(loader.load_chunks_for_depth("t", 1).is_empty());
    assert!(loader.load_chunks_for_depth("none", 0).is_empty());
    let loaded = loader.load_chunks_for_depth("t", 0);
    let ids: Vec<&str> = loaded.iter().map(|c| c.chunk_id.as_str()).collect();
    assert_eq!(ids, vec!["high", "mid", "mid2", "low", "x1"]);
    let c = loader.get_context("t").unwrap();
    assert_eq!(c.total_tokens, 50);
    assert_eq!(c.pending_chunks, vec!["ghost".to_string(), "x2".to_string()]);
    assert!(!loader.is_within_budget("t"));
}
