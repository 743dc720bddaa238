use memo::curate::{
    duplicate_advice, enough_to_merge, final_tags, gather_tags, oldest_created_at, section_tags,
    DuplicateAdvice, MergeError,
};
use memo::tags::{has_tag, merge_tags, tags_overlap};
use memo::{Memory, MemoryBuilder, QueryResult};

fn tags(names: &[&str]) -> Vec<String> {
    names.iter().map(|n| n.to_string()).collect()
}

fn builder() -> MemoryBuilder {
    MemoryBuilder {
        content: "remember the milk".to_string(),
        tags: tags(&["home", "shopping"]),
        vector: vec![0x3f80_0000, 0, 0xbf00_0000],
        source_file: Some("notes.md".to_string()),
    }
}

#[test]
fn new_memory_keeps_the_builder_parts() {
    let memory = Memory::new(builder());
    assert_eq!(memory.content, "remember the milk");
    assert_eq!(memory.tags, tags(&["home", "shopping"]));
    assert_eq!(memory.vector, vec![0x3f80_0000, 0, 0xbf00_0000]);
    assert_eq!(memory.source_file, Some("notes.md".to_string()));
    assert_eq!(memory.created_at, memory.updated_at);
}

#[test]
fn new_memory_gets_a_fresh_identifier_and_the_current_time() {
    let first = Memory::new(builder());
    let second = Memory::new(builder());
    assert_eq!(first.id.len(), 36);
    assert_ne!(first.id, second.id);
    assert_ne!(first.id, first.content);
    // after 2020-01-01, so the clock was read
    assert!(first.created_at > 1_577_836_800_000);
}

#[test]
fn assembled_memory_is_exact() {
    let memory = Memory::assemble("id-1".to_string(), 99, builder());
    assert_eq!(
        memory,
        Memory {
            id: "id-1".to_string(),
            content: "remember the milk".to_string(),
            tags: tags(&["home", "shopping"]),
            vector: vec![0x3f80_0000, 0, 0xbf00_0000],
            source_file: Some("notes.md".to_string()),
            created_at: 99,
            updated_at: 99,
        }
    );
}

#[test]
fn clones_are_equal() {
    let result = QueryResult {
        id: "x".to_string(),
        content: "c".to_string(),
        tags: tags(&["a", "b"]),
        updated_at: 5,
        score: Some(3),
    };
    assert_eq!(result.clone(), result);
    let memory = Memory::assemble("id".to_string(), 1, builder());
    assert_eq!(memory.clone(), memory);
}

#[test]
fn overlap_needs_one_common_tag() {
    assert!(tags_overlap(&tags(&["a", "b"]), &tags(&["c", "b"])));
    assert!(!tags_overlap(&tags(&["a", "b"]), &tags(&["c", "d"])));
    assert!(!tags_overlap(&tags(&[]), &tags(&["c", "d"])));
    assert!(!tags_overlap(&tags(&["a"]), &tags(&[])));
    assert!(has_tag(&tags(&["a", "b"]), &"b".to_string()));
    assert!(!has_tag(&tags(&["a", "b"]), &"B".to_string()));
}

#[test]
fn merged_tags_keep_order_and_add_only_new_ones() {
    assert_eq!(
        merge_tags(tags(&["rust", "cli"]), &tags(&["cli", "notes", "rust", "notes"])),
        tags(&["rust", "cli", "notes"])
    );
    assert_eq!(merge_tags(tags(&[]), &tags(&["a", "a"])), tags(&["a"]));
    assert_eq!(merge_tags(tags(&["a", "a"]), &tags(&[])), tags(&["a", "a"]));
}

#[test]
fn advice_depends_on_how_many_memories_are_similar() {
    let hit = |id: &str| QueryResult {
        id: id.to_string(),
        content: "c".to_string(),
        tags: vec![],
        updated_at: 0,
        score: Some(900_000),
    };
    assert_eq!(duplicate_advice(&vec![]), None);
    assert_eq!(
        duplicate_advice(&vec![hit("a")]),
        Some(DuplicateAdvice::Update { id: "a".to_string() })
    );
    assert_eq!(
        duplicate_advice(&vec![hit("a"), hit("b")]),
        Some(DuplicateAdvice::Merge { first: "a".to_string(), second: "b".to_string() })
    );
    assert_eq!(
        duplicate_advice(&vec![hit("a"), hit("b"), hit("c")]),
        Some(DuplicateAdvice::Reorganize)
    );
}

#[test]
fn merging_needs_two_memories() {
    assert_eq!(enough_to_merge(0), Err(MergeError::TooFew));
    assert_eq!(enough_to_merge(1), Err(MergeError::TooFew));
    assert_eq!(enough_to_merge(2), Ok(()));
    assert_eq!(enough_to_merge(7), Ok(()));
    assert_eq!(MergeError::TooFew.message(), "Need at least 2 memory IDs to merge");
}

#[test]
fn merged_memory_is_as_old_as_its_oldest_part() {
    assert_eq!(oldest_created_at(&vec![30, 10, 20]), 10);
    assert_eq!(oldest_created_at(&vec![-5]), -5);
    assert_eq!(oldest_created_at(&vec![7, 7]), 7);
    assert_eq!(oldest_created_at(&vec![]), i64::MAX);
}

#[test]
fn tags_of_merged_memories_are_gathered_once_each() {
    assert_eq!(
        gather_tags(&vec![tags(&["a", "b"]), tags(&["b", "c"]), tags(&[]), tags(&["a", "d"])]),
        tags(&["a", "b", "c", "d"])
    );
    assert_eq!(gather_tags(&vec![]), tags(&[]));
    assert_eq!(final_tags(Some(tags(&["x"])), tags(&["a"])), tags(&["x"]));
    assert_eq!(final_tags(Some(tags(&[])), tags(&["a"])), tags(&[]));
    assert_eq!(final_tags(None, tags(&["a"])), tags(&["a"]));
    assert_eq!(section_tags(tags(&["a"]), &Some(tags(&["b", "a"]))), tags(&["a", "b"]));
    assert_eq!(section_tags(tags(&["a"]), &None), tags(&["a"]));
}
