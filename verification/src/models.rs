//! The data that flows through a search: stored memories, the results a
//! vector store hands back, and what ingestion reads from a document.

use crate::outside::{current_millis, fresh_identifier};
use vstd::prelude::*;

verus! {

/// What a [`QueryResult`] is, as plain mathematical values.
pub struct ResultView {
    pub id: Seq<char>,
    pub content: Seq<char>,
    pub tags: Seq<Seq<char>>,
    pub updated_at: i64,
    pub score: Option<i64>,
}

/// One hit of a vector-store query: the projection of a memory, with the
/// similarity (or, after reranking, the relevance) it was found at, in
/// millionths.
#[derive(Debug, PartialEq, Eq)]
pub struct QueryResult {
    pub id: String,
    pub content: String,
    pub tags: Vec<String>,
    /// Milliseconds since the epoch.
    pub updated_at: i64,
    pub score: Option<i64>,
}

impl View for QueryResult {
    type V = ResultView;

    open spec fn view(&self) -> ResultView {
        ResultView {
            id: self.id@,
            content: self.content@,
            tags: self.tags.deep_view(),
            updated_at: self.updated_at,
            score: self.score,
        }
    }
}

impl Clone for QueryResult {
    fn clone(&self) -> (copy: Self)
        ensures
            copy@ == self@,
    {
        QueryResult {
            id: self.id.clone(),
            content: self.content.clone(),
            tags: self.tags.clone(),
            updated_at: self.updated_at,
            score: self.score,
        }
    }
}

/// The views of a sequence of results, in order.
pub open spec fn result_views(results: Seq<QueryResult>) -> Seq<ResultView> {
    results.map_values(|r: QueryResult| r@)
}

/// What a [`Memory`] is, as plain mathematical values.
pub struct MemoryView {
    pub id: Seq<char>,
    pub content: Seq<char>,
    pub tags: Seq<Seq<char>>,
    pub vector: Seq<u32>,
    pub source_file: Option<Seq<char>>,
    pub created_at: i64,
    pub updated_at: i64,
}

/// A stored text with its embedding. Each component of `vector` is kept as
/// the bit pattern of a single-precision number; the search never computes
/// with it, it only carries it back to the store.
#[derive(Debug, PartialEq, Eq)]
pub struct Memory {
    pub id: String,
    pub content: String,
    pub tags: Vec<String>,
    pub vector: Vec<u32>,
    pub source_file: Option<String>,
    /// Milliseconds since the epoch.
    pub created_at: i64,
    /// Milliseconds since the epoch.
    pub updated_at: i64,
}

/// The view of an optional string.
pub open spec fn optional_text(text: Option<String>) -> Option<Seq<char>> {
    match text {
        Some(s) => Some(s@),
        None => None,
    }
}

impl View for Memory {
    type V = MemoryView;

    open spec fn view(&self) -> MemoryView {
        MemoryView {
            id: self.id@,
            content: self.content@,
            tags: self.tags.deep_view(),
            vector: self.vector@,
            source_file: optional_text(self.source_file),
            created_at: self.created_at,
            updated_at: self.updated_at,
        }
    }
}

impl Clone for Memory {
    fn clone(&self) -> (copy: Self)
        ensures
            copy@ == self@,
    {
        let source_file = match &self.source_file {
            Some(path) => Some(path.clone()),
            None => None,
        };
        Memory {
            id: self.id.clone(),
            content: self.content.clone(),
            tags: self.tags.clone(),
            vector: self.vector.clone(),
            source_file,
            created_at: self.created_at,
            updated_at: self.updated_at,
        }
    }
}

/// The parts of a memory that its author supplies.
#[derive(Debug, PartialEq, Eq)]
pub struct MemoryBuilder {
    pub content: String,
    pub tags: Vec<String>,
    pub vector: Vec<u32>,
    pub source_file: Option<String>,
}

impl Memory {
    /// A new memory made of `builder`'s parts, under a fresh random
    /// identifier, created and last updated now.
    pub fn new(builder: MemoryBuilder) -> (memory: Memory)
        ensures
            memory@.content == builder.content@,
            memory@.tags == builder.tags.deep_view(),
            memory@.vector == builder.vector@,
            memory@.source_file == optional_text(builder.source_file),
            memory@.created_at == memory@.updated_at,
    {
        let now = current_millis();
        Memory::assemble(fresh_identifier(), now, builder)
    }

    /// The memory made of `builder`'s parts under the identifier `id`,
    /// created and last updated at `now`.
    pub fn assemble(id: String, now: i64, builder: MemoryBuilder) -> (memory: Memory)
        ensures
            memory@ == (MemoryView {
                id: id@,
                content: builder.content@,
                tags: builder.tags.deep_view(),
                vector: builder.vector@,
                source_file: optional_text(builder.source_file),
                created_at: now,
                updated_at: now,
            }),
    {
        Memory {
            id,
            content: builder.content,
            tags: builder.tags,
            vector: builder.vector,
            source_file: builder.source_file,
            created_at: now,
            updated_at: now,
        }
    }
}

/// What a document's front matter says of its sections.
#[derive(Debug, PartialEq, Eq)]
pub struct MemoMetadata {
    pub tags: Vec<String>,
}

impl View for MemoMetadata {
    type V = Seq<Seq<char>>;

    open spec fn view(&self) -> Seq<Seq<char>> {
        self.tags.deep_view()
    }
}

impl Clone for MemoMetadata {
    fn clone(&self) -> (copy: Self)
        ensures
            copy@ == self@,
    {
        MemoMetadata { tags: self.tags.clone() }
    }
}

/// What a [`MemoSection`] is, as plain mathematical values.
pub struct SectionView {
    pub content: Seq<char>,
    pub tags: Seq<Seq<char>>,
}

/// One section of a document, ready to be embedded.
#[derive(Debug, PartialEq, Eq)]
pub struct MemoSection {
    pub content: String,
    pub metadata: MemoMetadata,
}

impl View for MemoSection {
    type V = SectionView;

    open spec fn view(&self) -> SectionView {
        SectionView { content: self.content@, tags: self.metadata@ }
    }
}

impl Clone for MemoSection {
    fn clone(&self) -> (copy: Self)
        ensures
            copy@ == self@,
    {
        MemoSection { content: self.content.clone(), metadata: self.metadata.clone() }
    }
}

} // verus!
