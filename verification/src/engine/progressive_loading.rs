//! Loading context into a model in chunks: per task, which chunks are
//! loaded and pending, how deep loading has gone and the tokens it took,
//! and the loader that keeps the contexts and the chunks. Times are
//! milliseconds since the Unix epoch.

use vstd::prelude::*;
use crate::engine::types::{texts, clone_strings};
use crate::runtime::{new_uuid, now_millis};
use crate::text::{str_eq, contains_text_in};
use crate::governance::classification::{keyed, key_pos, distinct_keys, put_keyed, find_keyed, put_keyed_exec};
use crate::config::template_library::holds_position;

verus! {

/// When chunks are loaded.
#[derive(Debug, Clone, Copy, PartialEq, Eq, Structural)]
pub enum LoadingStrategy {
    Immediate,
    Lazy,
    OnDemand,
    Batch,
}

/// A piece of context, with its priority, token estimate and the chunks
/// it needs first.
#[derive(Debug, Clone)]
pub struct ContentChunk {
    pub chunk_id: String,
    pub content: String,
    pub chunk_type: ChunkType,
    pub priority: u8,
    pub estimated_tokens: i64,
    pub dependencies: Vec<String>,
}

/// What a chunk holds.
#[derive(Debug, Clone, Copy, PartialEq, Eq, Structural)]
pub enum ChunkType {
    TaskDescription,
    Context,
    Examples,
    Tools,
    Constraints,
}


/// A chunk holds the same as another.
pub open spec fn same_chunk(a: ContentChunk, b: ContentChunk) -> bool {
    &&& a.chunk_id@ == b.chunk_id@
    &&& a.content@ == b.content@
    &&& a.chunk_type == b.chunk_type
    &&& a.priority == b.priority
    &&& a.estimated_tokens == b.estimated_tokens
    &&& texts(a.dependencies@) == texts(b.dependencies@)
}

impl ContentChunk {
    /// A copy of the chunk.
    pub fn duplicate(&self) -> (r: ContentChunk)
        ensures
            same_chunk(r, *self),
    {
        ContentChunk {
            chunk_id: self.chunk_id.clone(),
            content: self.content.clone(),
            chunk_type: self.chunk_type,
            priority: self.priority,
            estimated_tokens: self.estimated_tokens,
            dependencies: clone_strings(&self.dependencies),
        }
    }
}

/// How far a task's context has been loaded: the chunks loaded and still
/// pending, the depth reached, and the tokens the loaded chunks took.
/// Times are milliseconds since the Unix epoch.
#[derive(Debug, Clone)]
pub struct LoadingContext {
    pub context_id: String,
    pub task_id: String,
    pub loading_strategy: LoadingStrategy,
    pub current_depth: u32,
    pub max_depth: u32,
    pub loaded_chunks: Vec<String>,
    pub pending_chunks: Vec<String>,
    pub prompt_tokens: i64,
    pub completion_tokens: i64,
    pub total_tokens: i64,
    pub created_at: i64,
    pub last_loaded_at: i64,
    pub batch_size: usize,
}

/// Whether the strategy lets one more chunk load: always right away,
/// lazily only the first, on demand never, by batches up to the batch
/// size.
pub open spec fn may_load_next(c: LoadingContext) -> bool {
    match c.loading_strategy {
        LoadingStrategy::Immediate => true,
        LoadingStrategy::Lazy => c.loaded_chunks@.len() == 0,
        LoadingStrategy::OnDemand => false,
        LoadingStrategy::Batch => c.loaded_chunks@.len() < c.batch_size,
    }
}

/// The texts without the first occurrence of x.
pub open spec fn without_first(s: Seq<Seq<char>>, x: Seq<char>) -> Seq<Seq<char>>
    decreases s.len(),
{
    if s.len() == 0 {
        s
    } else if s[0] == x {
        s.skip(1)
    } else {
        seq![s[0]] + without_first(s.skip(1), x)
    }
}

/// A context holds the same as another.
pub open spec fn same_context(a: LoadingContext, b: LoadingContext) -> bool {
    &&& a.context_id@ == b.context_id@
    &&& a.task_id@ == b.task_id@
    &&& a.loading_strategy == b.loading_strategy
    &&& a.current_depth == b.current_depth
    &&& a.max_depth == b.max_depth
    &&& texts(a.loaded_chunks@) == texts(b.loaded_chunks@)
    &&& texts(a.pending_chunks@) == texts(b.pending_chunks@)
    &&& a.prompt_tokens == b.prompt_tokens
    &&& a.completion_tokens == b.completion_tokens
    &&& a.total_tokens == b.total_tokens
    &&& a.created_at == b.created_at
    &&& a.last_loaded_at == b.last_loaded_at
    &&& a.batch_size == b.batch_size
}

/// A context after a chunk was loaded: it is among the loaded ones, its
/// first pending entry is gone, and its tokens are counted.
pub open spec fn loaded_into(before: LoadingContext, after: LoadingContext, id: Seq<char>, tokens: i64) -> bool {
    &&& texts(after.loaded_chunks@) == texts(before.loaded_chunks@).push(id)
    &&& texts(after.pending_chunks@) == without_first(texts(before.pending_chunks@), id)
    &&& after.prompt_tokens == before.prompt_tokens + tokens
    &&& after.completion_tokens == before.completion_tokens
    &&& after.total_tokens == before.total_tokens + tokens
    &&& after.context_id@ == before.context_id@
    &&& after.task_id@ == before.task_id@
    &&& after.loading_strategy == before.loading_strategy
    &&& after.current_depth == before.current_depth
    &&& after.max_depth == before.max_depth
    &&& after.created_at == before.created_at
    &&& after.batch_size == before.batch_size
}

impl LoadingContext {
    /// A context for a task at depth 0, nothing loaded or pending, no
    /// tokens, batches of 5.
    pub fn new(task_id: String, strategy: LoadingStrategy, max_depth: u32) -> (c: LoadingContext)
        ensures
            c.task_id == task_id,
            c.loading_strategy == strategy,
            c.current_depth == 0,
            c.max_depth == max_depth,
            c.loaded_chunks@.len() == 0,
            c.pending_chunks@.len() == 0,
            c.prompt_tokens == 0,
            c.completion_tokens == 0,
            c.total_tokens == 0,
            c.created_at == c.last_loaded_at,
            c.batch_size == 5,
            c.context_id@.len() == 36,
    {
        let now = now_millis();
        LoadingContext {
            context_id: new_uuid(),
            task_id,
            loading_strategy: strategy,
            current_depth: 0,
            max_depth,
            loaded_chunks: Vec::new(),
            pending_chunks: Vec::new(),
            prompt_tokens: 0,
            completion_tokens: 0,
            total_tokens: 0,
            created_at: now,
            last_loaded_at: now,
            batch_size: 5,
        }
    }

    /// A copy of the context.
    pub fn duplicate(&self) -> (r: LoadingContext)
        ensures
            same_context(r, *self),
    {
        LoadingContext {
            context_id: self.context_id.clone(),
            task_id: self.task_id.clone(),
            loading_strategy: self.loading_strategy,
            current_depth: self.current_depth,
            max_depth: self.max_depth,
            loaded_chunks: clone_strings(&self.loaded_chunks),
            pending_chunks: clone_strings(&self.pending_chunks),
            prompt_tokens: self.prompt_tokens,
            completion_tokens: self.completion_tokens,
            total_tokens: self.total_tokens,
            created_at: self.created_at,
            last_loaded_at: self.last_loaded_at,
            batch_size: self.batch_size,
        }
    }

    /// Whether the strategy lets one more chunk load.
    pub fn should_load_next_chunk(&self) -> (r: bool)
        ensures
            r == may_load_next(*self),
    {
        match self.loading_strategy {
            LoadingStrategy::Immediate => true,
            LoadingStrategy::Lazy => self.loaded_chunks.len() == 0,
            LoadingStrategy::OnDemand => false,
            LoadingStrategy::Batch => self.loaded_chunks.len() < self.batch_size,
        }
    }

    /// Counts tokens taken by loading, stamped with the time.
    pub fn record_token_usage(&mut self, prompt_tokens: i64, completion_tokens: i64, total_tokens: i64)
        requires
            i64::MIN <= old(self).prompt_tokens + prompt_tokens <= i64::MAX,
            i64::MIN <= old(self).completion_tokens + completion_tokens <= i64::MAX,
            i64::MIN <= old(self).total_tokens + total_tokens <= i64::MAX,
        ensures
            final(self).prompt_tokens == old(self).prompt_tokens + prompt_tokens,
            final(self).completion_tokens == old(self).completion_tokens + completion_tokens,
            final(self).total_tokens == old(self).total_tokens + total_tokens,
            *final(self) == (LoadingContext {
                prompt_tokens: final(self).prompt_tokens,
                completion_tokens: final(self).completion_tokens,
                total_tokens: final(self).total_tokens,
                last_loaded_at: final(self).last_loaded_at,
                ..*old(self)
            }),
    {
        self.prompt_tokens = self.prompt_tokens + prompt_tokens;
        self.completion_tokens = self.completion_tokens + completion_tokens;
        self.total_tokens = self.total_tokens + total_tokens;
        self.last_loaded_at = now_millis();
    }

    /// Notes a chunk as loaded, and no longer pending (its first pending
    /// entry goes).
    pub fn mark_chunk_loaded(&mut self, chunk_id: String)
        ensures
            texts(final(self).loaded_chunks@) == texts(old(self).loaded_chunks@).push(chunk_id@),
            texts(final(self).pending_chunks@) == without_first(texts(old(self).pending_chunks@), chunk_id@),
            *final(self) == (LoadingContext {
                loaded_chunks: final(self).loaded_chunks,
                pending_chunks: final(self).pending_chunks,
                ..*old(self)
            }),
    {
        let ghost before = texts(self.pending_chunks@);
        let ghost loaded = texts(self.loaded_chunks@);
        let ghost id = chunk_id@;
        let mut i: usize = 0;
        let mut found = false;
        assert(before.skip(0) =~= before);
        while i < self.pending_chunks.len()
            invariant
                i <= self.pending_chunks@.len(),
                before == texts(self.pending_chunks@),
                forall|j: int| 0 <= j < i ==> before[j] != id,
                id == chunk_id@,
            ensures
                i <= self.pending_chunks@.len(),
                before == texts(self.pending_chunks@),
                forall|j: int| 0 <= j < i ==> before[j] != id,
                i < self.pending_chunks@.len() ==> before[i as int] == id,
            decreases self.pending_chunks@.len() - i,
        {
            if str_eq(self.pending_chunks[i].as_str(), chunk_id.as_str()) {
                break;
            }
            i = i + 1;
        }
        proof {
            lemma_without_first(before, id, i as int);
        }
        if i < self.pending_chunks.len() {
            let _ = self.pending_chunks.remove(i);
            assert(texts(self.pending_chunks@) =~= before.remove(i as int));
        }
        self.loaded_chunks.push(chunk_id);
        assert(texts(self.loaded_chunks@) =~= loaded.push(id));
    }

    /// Adds a chunk to load later, unless it is loaded or pending already.
    pub fn add_pending_chunk(&mut self, chunk_id: String)
        ensures
            texts(final(self).pending_chunks@) == (if texts(old(self).loaded_chunks@).contains(chunk_id@)
                || texts(old(self).pending_chunks@).contains(chunk_id@) {
                texts(old(self).pending_chunks@)
            } else {
                texts(old(self).pending_chunks@).push(chunk_id@)
            }),
            *final(self) == (LoadingContext { pending_chunks: final(self).pending_chunks, ..*old(self) }),
    {
        let known = contains_text_in(&self.loaded_chunks, chunk_id.as_str())
            || contains_text_in(&self.pending_chunks, chunk_id.as_str());
        if !known {
            let ghost before = texts(self.pending_chunks@);
            self.pending_chunks.push(chunk_id);
            assert(texts(self.pending_chunks@) =~= before.push(chunk_id@));
        }
    }

    /// Whether a deeper level may be entered.
    pub fn can_enter_next_depth(&self) -> (r: bool)
        ensures
            r == (self.current_depth < self.max_depth),
    {
        self.current_depth < self.max_depth
    }

    /// Goes one level deeper when allowed; tells whether it did.
    pub fn enter_next_depth(&mut self) -> (r: bool)
        ensures
            r == (old(self).current_depth < old(self).max_depth),
            final(self).current_depth == (if r { (old(self).current_depth + 1) as u32 } else { old(self).current_depth }),
            *final(self) == (LoadingContext { current_depth: final(self).current_depth, ..*old(self) }),
    {
        if self.current_depth < self.max_depth {
            self.current_depth = self.current_depth + 1;
            true
        } else {
            false
        }
    }
}

proof fn lemma_without_first(s: Seq<Seq<char>>, x: Seq<char>, i: int)
    requires
        0 <= i <= s.len(),
        forall|j: int| 0 <= j < i ==> s[j] != x,
        i < s.len() ==> s[i] == x,
    ensures
        without_first(s, x) == (if i < s.len() { s.remove(i) } else { s }),
    decreases s.len(),
{
    if s.len() > 0 {
        if i == 0 {
            assert(s.remove(0) =~= s.skip(1));
        } else {
            lemma_without_first(s.skip(1), x, i - 1);
            if i < s.len() {
                assert(without_first(s, x) =~= s.remove(i));
            } else {
                assert(without_first(s, x) =~= s);
            }
        }
    }
}

/// Position i of the chunks comes before j when loading by priority: a
/// higher priority, or the same one and i is earlier.
pub open spec fn priority_first(cs: Seq<ContentChunk>, i: int, j: int) -> bool {
    cs[i].priority > cs[j].priority || (cs[i].priority == cs[j].priority && i < j)
}

/// The registered chunks of the pending ids, in the order of the ids; ids
/// with no chunk are skipped.
pub open spec fn pending_registered(chunks: Seq<(Seq<char>, ContentChunk)>, ids: Seq<Seq<char>>) -> Seq<ContentChunk>
    decreases ids.len(),
{
    if ids.len() == 0 {
        Seq::empty()
    } else {
        let rest = pending_registered(chunks, ids.drop_last());
        match key_pos(chunks, ids.last()) {
            Some(p) => rest.push(chunks[p].1),
            None => rest,
        }
    }
}

/// The total of the chunks' token estimates.
pub open spec fn tokens_of(cs: Seq<ContentChunk>) -> int
    decreases cs.len(),
{
    if cs.len() == 0 {
        0
    } else {
        tokens_of(cs.drop_last()) + cs.last().estimated_tokens
    }
}

/// The ids of chunks.
pub open spec fn chunk_ids(cs: Seq<ContentChunk>) -> Seq<Seq<char>> {
    cs.map_values(|c: ContentChunk| c.chunk_id@)
}

/// The texts without the first occurrence of each id, in turn.
pub open spec fn without_each(s: Seq<Seq<char>>, ids: Seq<Seq<char>>) -> Seq<Seq<char>>
    decreases ids.len(),
{
    if ids.len() == 0 {
        s
    } else {
        without_first(without_each(s, ids.drop_last()), ids.last())
    }
}

/// A context after chunks were loaded in turn: they follow the loaded ones,
/// each took its first pending entry away, and their tokens are counted.
pub open spec fn loaded_all(before: LoadingContext, after: LoadingContext, rs: Seq<ContentChunk>) -> bool {
    &&& texts(after.loaded_chunks@) == texts(before.loaded_chunks@) + chunk_ids(rs)
    &&& texts(after.pending_chunks@) == without_each(texts(before.pending_chunks@), chunk_ids(rs))
    &&& after.prompt_tokens == before.prompt_tokens + tokens_of(rs)
    &&& after.completion_tokens == before.completion_tokens
    &&& after.total_tokens == before.total_tokens + tokens_of(rs)
    &&& after.context_id@ == before.context_id@
    &&& after.task_id@ == before.task_id@
    &&& after.loading_strategy == before.loading_strategy
    &&& after.current_depth == before.current_depth
    &&& after.max_depth == before.max_depth
    &&& after.created_at == before.created_at
    &&& after.batch_size == before.batch_size
}

/// r is the first `limit` of the chunks cs by priority, taken from their
/// positions idx: as many as there are up to the limit, highest priority
/// first, and every chunk left out comes after all of them.
pub open spec fn priority_ranked(cs: Seq<ContentChunk>, limit: Option<usize>, r: Seq<ContentChunk>, idx: Seq<int>) -> bool {
    &&& r.len() == (match limit {
        Some(l) => if (l as int) < cs.len() { l as int } else { cs.len() as int },
        None => cs.len() as int,
    })
    &&& idx.len() == r.len()
    &&& forall|k: int| 0 <= k < idx.len() ==> 0 <= #[trigger] idx[k] < cs.len() && same_chunk(r[k], cs[idx[k]])
    &&& forall|k: int, l: int| 0 <= k < l < idx.len() ==> priority_first(cs, #[trigger] idx[k], #[trigger] idx[l])
    &&& forall|i: int, k: int| 0 <= i < cs.len() && !idx.contains(i) && 0 <= k < idx.len()
        ==> #[trigger] priority_first(cs, idx[k], i)
}

/// How many chunks one load takes at most: a batch with the batch
/// strategy, no limit otherwise.
pub open spec fn batch_limit(c: LoadingContext) -> Option<usize> {
    if c.loading_strategy == LoadingStrategy::Batch {
        Some(c.batch_size)
    } else {
        None
    }
}

/// The total of the estimates of the chunks marked in `used`.
pub open spec fn marked_tokens(cs: Seq<ContentChunk>, used: Seq<bool>) -> int
    decreases cs.len(),
{
    if cs.len() == 0 {
        0
    } else {
        marked_tokens(cs.drop_last(), used.drop_last()) + if used.last() { cs.last().estimated_tokens as int } else { 0 }
    }
}

proof fn lemma_marked_none(cs: Seq<ContentChunk>)
    ensures
        marked_tokens(cs, Seq::new(cs.len(), |q: int| false)) == 0,
    decreases cs.len(),
{
    if cs.len() > 0 {
        lemma_marked_none(cs.drop_last());
        assert(Seq::new(cs.len(), |q: int| false).drop_last() =~= Seq::new(cs.drop_last().len(), |q: int| false));
    }
}

proof fn lemma_marked_update(cs: Seq<ContentChunk>, used: Seq<bool>, i: int)
    requires
        used.len() == cs.len(),
        0 <= i < cs.len(),
        !used[i],
    ensures
        marked_tokens(cs, used.update(i, true)) == marked_tokens(cs, used) + cs[i].estimated_tokens,
    decreases cs.len(),
{
    if i == cs.len() - 1 {
        assert(used.update(i, true).drop_last() =~= used.drop_last());
    } else {
        lemma_marked_update(cs.drop_last(), used.drop_last(), i);
        assert(used.update(i, true).drop_last() =~= used.drop_last().update(i, true));
    }
}

proof fn lemma_marked_bound(cs: Seq<ContentChunk>, used: Seq<bool>)
    requires
        used.len() == cs.len(),
        forall|q: int| 0 <= q < cs.len() ==> (#[trigger] cs[q]).estimated_tokens >= 0,
    ensures
        0 <= marked_tokens(cs, used) <= tokens_of(cs),
    decreases cs.len(),
{
    if cs.len() > 0 {
        lemma_marked_bound(cs.drop_last(), used.drop_last());
        assert(cs.last().estimated_tokens >= 0);
    }
}

/// What a loading context shows: its task, how many chunks are loaded and
/// pending, its depth and the tokens used.
#[derive(Debug, Clone)]
pub struct LoadingSummary {
    pub task_id: String,
    pub loaded_chunks_count: usize,
    pub pending_chunks_count: usize,
    pub current_depth: u32,
    pub max_depth: u32,
    pub total_tokens_used: i64,
    pub loading_strategy: LoadingStrategy,
}

/// The model of a loader: the contexts by task id, the chunks by id, and
/// the token budget.
pub struct LoaderModel {
    pub contexts: Seq<(Seq<char>, LoadingContext)>,
    pub chunks: Seq<(Seq<char>, ContentChunk)>,
    pub token_budget: i64,
}

/// Loads context into a model chunk by chunk, per task, within a token
/// budget.
#[derive(Debug)]
pub struct ProgressiveLoader {
    contexts: Vec<(String, LoadingContext)>,
    chunks: Vec<(String, ContentChunk)>,
    token_budget: i64,
}

impl View for ProgressiveLoader {
    type V = LoaderModel;

    closed spec fn view(&self) -> LoaderModel {
        LoaderModel { contexts: keyed(self.contexts@), chunks: keyed(self.chunks@), token_budget: self.token_budget }
    }
}

/// Sorts positions of chunks by priority, highest first, stably.
fn priority_order(cs: &Vec<ContentChunk>) -> (order: Vec<usize>)
    ensures
        order@.len() == cs@.len(),
        forall|m: int| 0 <= m < order@.len() ==> #[trigger] order@[m] < cs@.len(),
        forall|j: int| 0 <= j < cs@.len() ==> #[trigger] holds_position(order@, j),
        forall|a: int, b: int| 0 <= a < b < order@.len()
            ==> priority_first(cs@, #[trigger] order@[a] as int, #[trigger] order@[b] as int),
{
    let ghost s = cs@;
    let mut order: Vec<usize> = Vec::new();
    let mut i: usize = 0;
    while i < cs.len()
        invariant
            i <= cs@.len(),
            s == cs@,
            order@.len() == i,
            forall|m: int| 0 <= m < order@.len() ==> #[trigger] order@[m] < i,
            forall|j: int| 0 <= j < i ==> #[trigger] holds_position(order@, j),
            forall|a: int, b: int| 0 <= a < b < order@.len() ==> priority_first(s, #[trigger] order@[a] as int, #[trigger] order@[b] as int),
        decreases cs@.len() - i,
    {
        let t = cs[i].priority;
        let mut k: usize = 0;
        while k < order.len()
            invariant
                i < cs@.len(),
                s == cs@,
                s[i as int].priority == t,
                k <= order@.len(),
                forall|m: int| 0 <= m < order@.len() ==> #[trigger] order@[m] < i,
                forall|m: int| 0 <= m < k ==> !(t > s[#[trigger] order@[m] as int].priority),
            ensures
                k <= order@.len(),
                forall|m: int| 0 <= m < k ==> !(t > s[#[trigger] order@[m] as int].priority),
                k < order@.len() ==> t > s[order@[k as int] as int].priority,
            decreases order@.len() - k,
        {
            if t > cs[order[k]].priority {
                break;
            }
            k = k + 1;
        }
        let ghost old_order = order@;
        order.insert(k, i);
        proof {
            old_order.insert_ensures(k as int, i);
            assert(order@ == old_order.insert(k as int, i));
            assert forall|m: int| 0 <= m < order@.len() implies #[trigger] order@[m] < i + 1 by {
                if m > k {
                    assert(order@[m] == old_order[m - 1]);
                }
            }
            assert forall|j: int| 0 <= j < i + 1 implies #[trigger] holds_position(order@, j) by {
                if j == i {
                    assert(order@[k as int] == j);
                } else {
                    assert(holds_position(old_order, j));
                    let m0 = choose|m: int| 0 <= m < old_order.len() && #[trigger] old_order[m] == j;
                    if m0 < k {
                        assert(order@[m0] == j);
                    } else {
                        assert(order@[m0 + 1] == j);
                    }
                }
            }
            assert forall|a: int, b: int| 0 <= a < b < order@.len() implies priority_first(s, #[trigger] order@[a] as int, #[trigger] order@[b] as int) by {
                if b < k {
                    assert(priority_first(s, old_order[a] as int, old_order[b] as int));
                } else if b == k {
                    assert(!(t > s[old_order[a] as int].priority));
                    assert(old_order[a] < i);
                } else if a < k {
                    assert(priority_first(s, old_order[a] as int, old_order[b - 1] as int));
                } else if a == k {
                    if b - 1 > k {
                        assert(priority_first(s, old_order[k as int] as int, old_order[b - 1] as int));
                    }
                } else {
                    assert(priority_first(s, old_order[a - 1] as int, old_order[b - 1] as int));
                }
            }
        }
        i = i + 1;
    }
    order
}

impl ProgressiveLoader {
    /// Task ids are distinct among the contexts, and chunk ids among the
    /// chunks.
    pub open spec fn wf(&self) -> bool {
        &&& distinct_keys(self@.contexts)
        &&& distinct_keys(self@.chunks)
    }

    /// A loader with no contexts or chunks and the given token budget.
    pub fn new(token_budget: i64) -> (l: ProgressiveLoader)
        ensures
            l.wf(),
            l@.contexts.len() == 0,
            l@.chunks.len() == 0,
            l@.token_budget == token_budget,
    {
        ProgressiveLoader { contexts: Vec::new(), chunks: Vec::new(), token_budget }
    }

    /// Opens a fresh loading context for a task, replacing the task's
    /// earlier one, and gives a copy of it.
    pub fn create_context(&mut self, task_id: String, strategy: LoadingStrategy, max_depth: u32) -> (c: LoadingContext)
        requires
            old(self).wf(),
        ensures
            final(self).wf(),
            c.task_id@ == task_id@,
            c.loading_strategy == strategy,
            c.current_depth == 0,
            c.max_depth == max_depth,
            c.loaded_chunks@.len() == 0,
            c.pending_chunks@.len() == 0,
            c.total_tokens == 0,
            exists|stored: LoadingContext| same_context(stored, c)
                && #[trigger] put_keyed(old(self)@.contexts, task_id@, stored) == final(self)@.contexts,
            final(self)@.chunks == old(self)@.chunks,
            final(self)@.token_budget == old(self)@.token_budget,
    {
        let key = task_id.clone();
        let context = LoadingContext::new(task_id, strategy, max_depth);
        let copy = context.duplicate();
        let ghost g = context;
        put_keyed_exec(&mut self.contexts, key, context);
        assert(same_context(g, copy));
        assert(texts(copy.loaded_chunks@).len() == copy.loaded_chunks@.len());
        assert(texts(copy.pending_chunks@).len() == copy.pending_chunks@.len());
        assert(texts(g.loaded_chunks@).len() == g.loaded_chunks@.len());
        assert(texts(g.pending_chunks@).len() == g.pending_chunks@.len());
        copy
    }

    /// The chunk registered under an id.
    pub fn get_chunk(&self, chunk_id: &str) -> (r: Option<&ContentChunk>)
        requires
            self.wf(),
        ensures
            match key_pos(self@.chunks, chunk_id@) {
                Some(q) => r == Some(&self@.chunks[q].1),
                None => r is None,
            },
    {
        match find_keyed(&self.chunks, chunk_id) {
            Some(q) => Some(&self.chunks[q].1),
            None => None,
        }
    }

    /// The token budget.
    pub fn token_budget(&self) -> (b: i64)
        ensures
            b == self@.token_budget,
    {
        self.token_budget
    }

    /// Puts a context as it was stored, under its task id, replacing the
    /// task's earlier one.
    pub fn insert_context(&mut self, context: LoadingContext)
        requires
            old(self).wf(),
        ensures
            final(self).wf(),
            final(self)@ == (LoaderModel { contexts: put_keyed(old(self)@.contexts, context.task_id@, context), ..old(self)@ }),
    {
        let key = context.task_id.clone();
        put_keyed_exec(&mut self.contexts, key, context);
    }

    /// Registers a chunk, replacing the chunk with its id.
    pub fn register_chunk(&mut self, chunk: ContentChunk)
        requires
            old(self).wf(),
        ensures
            final(self).wf(),
            final(self)@ == (LoaderModel { chunks: put_keyed(old(self)@.chunks, chunk.chunk_id@, chunk), ..old(self)@ }),
    {
        let key = chunk.chunk_id.clone();
        put_keyed_exec(&mut self.chunks, key, chunk);
    }

    /// The loading context of a task.
    pub fn get_context(&self, task_id: &str) -> (r: Option<&LoadingContext>)
        requires
            self.wf(),
        ensures
            match key_pos(self@.contexts, task_id@) {
                Some(p) => r == Some(&self@.contexts[p].1),
                None => r is None,
            },
    {
        match find_keyed(&self.contexts, task_id) {
            Some(i) => Some(&self.contexts[i].1),
            None => None,
        }
    }

    /// Loads one chunk for a task, unless the task has no context, its
    /// strategy holds loading back, or its budget is spent (`over_budget`,
    /// which the caller works out from the tokens and the cost). A
    /// registered chunk is then counted in the context, as its estimate in
    /// prompt tokens, and noted loaded; a copy of it is given.
    pub fn load_chunk(&mut self, task_id: &str, chunk_id: &str, over_budget: bool) -> (r: Option<ContentChunk>)
        requires
            old(self).wf(),
            match (key_pos(old(self)@.contexts, task_id@), key_pos(old(self)@.chunks, chunk_id@)) {
                (Some(p), Some(q)) => {
                    let c = old(self)@.contexts[p].1;
                    let t = old(self)@.chunks[q].1.estimated_tokens;
                    &&& i64::MIN <= c.prompt_tokens + t <= i64::MAX
                    &&& i64::MIN <= c.total_tokens + t <= i64::MAX
                },
                _ => true,
            },
        ensures
            final(self).wf(),
            final(self)@.chunks == old(self)@.chunks,
            final(self)@.token_budget == old(self)@.token_budget,
            match key_pos(old(self)@.contexts, task_id@) {
                None => r is None && final(self)@ == old(self)@,
                Some(p) => if !may_load_next(old(self)@.contexts[p].1) || over_budget {
                    r is None && final(self)@ == old(self)@
                } else {
                    match key_pos(old(self)@.chunks, chunk_id@) {
                        None => r is None && final(self)@ == old(self)@,
                        Some(q) => r matches Some(ch) && same_chunk(ch, old(self)@.chunks[q].1)
                            && final(self)@.contexts.len() == old(self)@.contexts.len()
                            && final(self)@.contexts[p].0 == old(self)@.contexts[p].0
                            && loaded_into(old(self)@.contexts[p].1, final(self)@.contexts[p].1, chunk_id@,
                                old(self)@.chunks[q].1.estimated_tokens)
                            && forall|o: int| 0 <= o < old(self)@.contexts.len() && o != p
                                ==> final(self)@.contexts[o] == old(self)@.contexts[o],
                    }
                },
            },
    {
        let ghost m = self@;
        let p = match find_keyed(&self.contexts, task_id) {
            Some(p) => p,
            None => {
                return None;
            },
        };
        if !self.contexts[p].1.should_load_next_chunk() || over_budget {
            return None;
        }
        let q = match find_keyed(&self.chunks, chunk_id) {
            Some(q) => q,
            None => {
                return None;
            },
        };
        let chunk = self.chunks[q].1.duplicate();
        let tokens = chunk.estimated_tokens;
        let (k, mut context) = self.contexts.remove(p);
        let ghost before = context;
        context.record_token_usage(tokens, 0, tokens);
        context.mark_chunk_loaded(chunk_id.to_string());
        self.contexts.insert(p, (k, context));
        proof {
            assert forall|o: int| 0 <= o < m.contexts.len() && o != p implies self@.contexts[o] == m.contexts[o] by {
                assert(keyed(self.contexts@)[o] == (self.contexts@[o].0@, self.contexts@[o].1));
            }
            assert forall|a: int, b: int| 0 <= a < b < self@.contexts.len() implies #[trigger] self@.contexts[a].0
                != #[trigger] self@.contexts[b].0 by {
                assert(m.contexts[a].0 != m.contexts[b].0);
            }
        }
        Some(chunk)
    }

    /// Loads the pending chunks of a task at its current depth: the
    /// registered ones, highest priority first (same priority in pending
    /// order), at most a batch of them with the batch strategy; each is
    /// counted in the context and noted loaded, in that order. Nothing
    /// happens at another depth or without a context.
    #[verifier::spinoff_prover]
    pub fn load_chunks_for_depth(&mut self, task_id: &str, depth: u32) -> (r: Vec<ContentChunk>)
        requires
            old(self).wf(),
            match key_pos(old(self)@.contexts, task_id@) {
                Some(p) => {
                    let c = old(self)@.contexts[p].1;
                    let cs = pending_registered(old(self)@.chunks, texts(c.pending_chunks@));
                    &&& forall|k: int| 0 <= k < cs.len() ==> (#[trigger] cs[k]).estimated_tokens >= 0
                    &&& 0 <= c.prompt_tokens
                    &&& 0 <= c.total_tokens
                    &&& c.prompt_tokens + tokens_of(cs) <= i64::MAX
                    &&& c.total_tokens + tokens_of(cs) <= i64::MAX
                },
                None => true,
            },
        ensures
            final(self).wf(),
            final(self)@.chunks == old(self)@.chunks,
            final(self)@.token_budget == old(self)@.token_budget,
            final(self)@.contexts.len() == old(self)@.contexts.len(),
            match key_pos(old(self)@.contexts, task_id@) {
                None => r@.len() == 0 && final(self)@ == old(self)@,
                Some(p) => if old(self)@.contexts[p].1.current_depth != depth {
                    r@.len() == 0 && final(self)@ == old(self)@
                } else {
                    let c = old(self)@.contexts[p].1;
                    let cs = pending_registered(old(self)@.chunks, texts(c.pending_chunks@));
                    &&& exists|idx: Seq<int>| #[trigger] priority_ranked(cs, batch_limit(c), r@, idx)
                    &&& final(self)@.contexts[p].0 == old(self)@.contexts[p].0
                    &&& forall|o: int| 0 <= o < old(self)@.contexts.len() && o != p
                        ==> final(self)@.contexts[o] == old(self)@.contexts[o]
                    &&& loaded_all(c, final(self)@.contexts[p].1, r@)
                },
            },
    {
        let ghost m = self@;
        let p = match find_keyed(&self.contexts, task_id) {
            Some(p) => p,
            None => {
                return Vec::new();
            },
        };
        if self.contexts[p].1.current_depth != depth {
            return Vec::new();
        }
        let ghost c0 = self.contexts@[p as int].1;
        let ghost ids = texts(c0.pending_chunks@);
        let mut found: Vec<ContentChunk> = Vec::new();
        let mut i: usize = 0;
        assert(pending_registered(m.chunks, ids.subrange(0, 0)) =~= Seq::<ContentChunk>::empty());
        while i < self.contexts[p].1.pending_chunks.len()
            invariant
                self.wf(),
                m == self@,
                p < self.contexts@.len(),
                c0 == self.contexts@[p as int].1,
                ids == texts(c0.pending_chunks@),
                i <= ids.len(),
                found@.len() == pending_registered(m.chunks, ids.subrange(0, i as int)).len(),
                forall|k: int| 0 <= k < found@.len() ==> same_chunk(#[trigger] found@[k], pending_registered(m.chunks, ids.subrange(0, i as int))[k]),
            decreases ids.len() - i,
        {
            assert(ids.subrange(0, i as int + 1).drop_last() =~= ids.subrange(0, i as int));
            assert(ids.subrange(0, i as int + 1).last() == ids[i as int]);
            match find_keyed(&self.chunks, self.contexts[p].1.pending_chunks[i].as_str()) {
                Some(q) => {
                    found.push(self.chunks[q].1.duplicate());
                },
                None => {},
            }
            i = i + 1;
        }
        assert(ids.subrange(0, i as int) =~= ids);
        let ghost cs = pending_registered(m.chunks, ids);
        let order = priority_order(&found);
        let n: usize = if self.contexts[p].1.loading_strategy == LoadingStrategy::Batch && self.contexts[p].1.batch_size < order.len() {
            self.contexts[p].1.batch_size
        } else {
            order.len()
        };
        let (k, mut context) = self.contexts.remove(p);
        proof {
            assert(m.contexts[p as int].1 == c0);
            assert(chunk_ids(Seq::<ContentChunk>::empty()) =~= Seq::<Seq<char>>::empty());
            assert(texts(context.loaded_chunks@) =~= texts(c0.loaded_chunks@) + chunk_ids(Seq::<ContentChunk>::empty()));
            lemma_marked_none(cs);
        }
        let mut r: Vec<ContentChunk> = Vec::new();
        let ghost mut used: Seq<bool> = Seq::new(cs.len(), |q: int| false);
        let mut j: usize = 0;
        while j < n
            invariant
                n <= order@.len(),
                order@.len() == found@.len(),
                found@.len() == cs.len(),
                used.len() == cs.len(),
                forall|q: int| 0 <= q < found@.len() ==> same_chunk(#[trigger] found@[q], cs[q]),
                forall|q: int| 0 <= q < order@.len() ==> #[trigger] order@[q] < found@.len(),
                forall|a: int, b: int| 0 <= a < b < order@.len()
                    ==> priority_first(found@, #[trigger] order@[a] as int, #[trigger] order@[b] as int),
                forall|q: int| 0 <= q < cs.len() ==> (#[trigger] used[q] <==> exists|a: int| 0 <= a < j && order@[a] == q),
                forall|q: int| 0 <= q < cs.len() ==> (#[trigger] cs[q]).estimated_tokens >= 0,
                0 <= c0.prompt_tokens,
                0 <= c0.total_tokens,
                c0.prompt_tokens + tokens_of(cs) <= i64::MAX,
                c0.total_tokens + tokens_of(cs) <= i64::MAX,
                marked_tokens(cs, used) == tokens_of(r@),
                j <= n,
                r@.len() == j,
                forall|q: int| 0 <= q < j ==> same_chunk(#[trigger] r@[q], cs[order@[q] as int]),
                loaded_all(c0, context, r@),
            decreases n - j,
        {
            let o = order[j];
            let ch = found[o].duplicate();
            let tokens = ch.estimated_tokens;
            proof {
                if used[o as int] {
                    let a = choose|a: int| 0 <= a < j && order@[a] == o;
                    assert(priority_first(found@, order@[a] as int, order@[j as int] as int));
                }
                lemma_marked_update(cs, used, o as int);
                lemma_marked_bound(cs, used.update(o as int, true));
                assert(same_chunk(found@[o as int], cs[o as int]));
            }
            let ghost before = context;
            let ghost r0 = r@;
            context.record_token_usage(tokens, 0, tokens);
            context.mark_chunk_loaded(ch.chunk_id.clone());
            r.push(ch);
            proof {
                used = used.update(o as int, true);
                assert(r@.drop_last() =~= r0);
                assert(chunk_ids(r@) =~= chunk_ids(r0).push(r@.last().chunk_id@));
                assert(chunk_ids(r@).drop_last() =~= chunk_ids(r0));
                assert(chunk_ids(r@).last() == r@.last().chunk_id@);
                assert(without_each(texts(c0.pending_chunks@), chunk_ids(r@))
                    == without_first(without_each(texts(c0.pending_chunks@), chunk_ids(r0)), r@.last().chunk_id@));
                assert(texts(context.loaded_chunks@) =~= texts(c0.loaded_chunks@) + chunk_ids(r@));
                assert forall|q: int| 0 <= q < cs.len() implies (#[trigger] used[q] <==> exists|a: int| 0 <= a < j + 1 && order@[a] == q) by {
                    if q == o {
                        assert(order@[j as int] == q);
                    }
                }
            }
            j = j + 1;
        }
        let ghost cfinal = context;
        let ghost k0 = k@;
        assert(k0 == m.contexts[p as int].0);
        self.contexts.insert(p, (k, context));
        assert(self@.contexts[p as int] == (k0, cfinal));
        assert(self@.contexts.len() == m.contexts.len());
        let ghost idx = Seq::new(n as nat, |q: int| order@[q] as int);
        proof {
            assert forall|a: int, b: int| 0 <= a < b < idx.len() implies priority_first(cs, #[trigger] idx[a], #[trigger] idx[b]) by {
                assert(priority_first(found@, order@[a] as int, order@[b] as int));
                assert(same_chunk(found@[order@[a] as int], cs[order@[a] as int]));
                assert(same_chunk(found@[order@[b] as int], cs[order@[b] as int]));
            }
            assert forall|i: int, a: int| 0 <= i < cs.len() && !idx.contains(i) && 0 <= a < idx.len()
                implies #[trigger] priority_first(cs, idx[a], i) by {
                assert(holds_position(order@, i));
                let w = choose|w: int| 0 <= w < order@.len() && #[trigger] order@[w] == i;
                if w < n {
                    assert(idx[w] == i);
                }
                assert(priority_first(found@, order@[a] as int, order@[w] as int));
                assert(same_chunk(found@[order@[a] as int], cs[order@[a] as int]));
                assert(same_chunk(found@[i], cs[i]));
            }
            assert(priority_ranked(cs, batch_limit(c0), r@, idx));
            assert forall|o: int| 0 <= o < m.contexts.len() && o != p implies self@.contexts[o] == m.contexts[o] by {
                assert(keyed(self.contexts@)[o] == (self.contexts@[o].0@, self.contexts@[o].1));
            }
            assert forall|a: int, b: int| 0 <= a < b < self@.contexts.len() implies #[trigger] self@.contexts[a].0
                != #[trigger] self@.contexts[b].0 by {
                assert(m.contexts[a].0 != m.contexts[b].0);
            }
        }
        r
    }
}

/// The prompt with the content of each loaded chunk that is registered
/// added, in the order loaded, each after a blank line.
pub open spec fn prompt_with(base: Seq<char>, chunks: Seq<(Seq<char>, ContentChunk)>, loaded: Seq<Seq<char>>) -> Seq<char>
    decreases loaded.len(),
{
    if loaded.len() == 0 {
        base
    } else {
        let rest = prompt_with(base, chunks, loaded.drop_last());
        match key_pos(chunks, loaded.last()) {
            Some(q) => rest + "\n\n"@ + chunks[q].1.content@,
            None => rest,
        }
    }
}

impl ProgressiveLoader {
    /// Whether a task's tokens are within the token budget; a task without
    /// a context is.
    pub fn is_within_budget(&self, task_id: &str) -> (r: bool)
        requires
            self.wf(),
        ensures
            r == match key_pos(self@.contexts, task_id@) {
                Some(p) => self@.contexts[p].1.total_tokens <= self@.token_budget,
                None => true,
            },
    {
        match find_keyed(&self.contexts, task_id) {
            Some(p) => self.contexts[p].1.total_tokens <= self.token_budget,
            None => true,
        }
    }

    /// The prompt for a task: the base prompt, then the content of each
    /// chunk loaded for it, each after a blank line; the base prompt alone
    /// for a task without a context.
    pub fn optimize_prompt(&self, task_id: &str, base_prompt: String) -> (r: String)
        requires
            self.wf(),
        ensures
            r@ == match key_pos(self@.contexts, task_id@) {
                Some(p) => prompt_with(base_prompt@, self@.chunks, texts(self@.contexts[p].1.loaded_chunks@)),
                None => base_prompt@,
            },
    {
        let p = match find_keyed(&self.contexts, task_id) {
            Some(p) => p,
            None => {
                return base_prompt;
            },
        };
        let ghost m = self@;
        let ghost loaded = texts(self.contexts@[p as int].1.loaded_chunks@);
        let mut r = base_prompt;
        let ghost base = r@;
        let mut i: usize = 0;
        while i < self.contexts[p].1.loaded_chunks.len()
            invariant
                self.wf(),
                m == self@,
                p < self.contexts@.len(),
                loaded == texts(self.contexts@[p as int].1.loaded_chunks@),
                i <= loaded.len(),
                r@ == prompt_with(base, m.chunks, loaded.subrange(0, i as int)),
            decreases loaded.len() - i,
        {
            assert(loaded.subrange(0, i as int + 1).drop_last() =~= loaded.subrange(0, i as int));
            assert(loaded.subrange(0, i as int + 1).last() == loaded[i as int]);
            match find_keyed(&self.chunks, self.contexts[p].1.loaded_chunks[i].as_str()) {
                Some(q) => {
                    r.append("\n\n");
                    r.append(self.chunks[q].1.content.as_str());
                    proof {
                        reveal_strlit("\n\n");
                    }
                },
                None => {},
            }
            i = i + 1;
        }
        assert(loaded.subrange(0, i as int) =~= loaded);
        assert(m.contexts[p as int].1 == self.contexts@[p as int].1);
        r
    }

    /// What a task's loading context shows, if it has one.
    pub fn get_loading_summary(&self, task_id: &str) -> (r: Option<LoadingSummary>)
        requires
            self.wf(),
        ensures
            match key_pos(self@.contexts, task_id@) {
                Some(p) => r matches Some(s) && ({
                    let c = self@.contexts[p].1;
                    &&& s.task_id@ == task_id@
                    &&& s.loaded_chunks_count == c.loaded_chunks@.len()
                    &&& s.pending_chunks_count == c.pending_chunks@.len()
                    &&& s.current_depth == c.current_depth
                    &&& s.max_depth == c.max_depth
                    &&& s.total_tokens_used == c.total_tokens
                    &&& s.loading_strategy == c.loading_strategy
                }),
                None => r is None,
            },
    {
        match find_keyed(&self.contexts, task_id) {
            Some(p) => {
                let c = &self.contexts[p].1;
                Some(LoadingSummary {
                    task_id: task_id.to_string(),
                    loaded_chunks_count: c.loaded_chunks.len(),
                    pending_chunks_count: c.pending_chunks.len(),
                    current_depth: c.current_depth,
                    max_depth: c.max_depth,
                    total_tokens_used: c.total_tokens,
                    loading_strategy: c.loading_strategy,
                })
            },
            None => None,
        }
    }
}

} // verus!
