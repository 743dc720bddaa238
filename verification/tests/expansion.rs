use memo::store::expand;
use memo::{
    BranchReply, Expansion, Memory, MemoryNode, QueryResult, StorageBackend, TimeRange,
    TreeSearchConfig,
};
use std::cell::RefCell;

fn tags(names: &[&str]) -> Vec<String> {
    names.iter().map(|n| n.to_string()).collect()
}

fn hit(id: &str, tag_names: &[&str], score: i64) -> QueryResult {
    QueryResult {
        id: id.to_string(),
        content: format!("text of {}", id),
        tags: tags(tag_names),
        updated_at: 1_700_000_000_000,
        score: Some(score),
    }
}

fn memory(id: &str, tag_names: &[&str], vector: u32) -> Memory {
    Memory {
        id: id.to_string(),
        content: format!("text of {}", id),
        tags: tags(tag_names),
        vector: vec![vector],
        source_file: None,
        created_at: 1_600_000_000_000,
        updated_at: 1_700_000_000_000,
    }
}

/// One question as the store received it.
#[derive(Debug, Clone, PartialEq)]
struct Asked {
    vector: Vec<u32>,
    limit: usize,
    min_score: i64,
    time_range: Option<TimeRange>,
}

/// A store with a fixed neighbour list for each vector. Like a real one it
/// leaves out what lies under the threshold and returns no more than the
/// limit, unless told to ignore the limit.
struct Shelf {
    memories: Vec<Memory>,
    neighbours: Vec<(u32, Vec<QueryResult>)>,
    broken_vectors: Vec<u32>,
    broken_lookups: Vec<String>,
    ignore_limit: bool,
    asked: RefCell<Vec<Asked>>,
    looked_up: RefCell<Vec<String>>,
}

impl Shelf {
    fn new(memories: Vec<Memory>, neighbours: Vec<(u32, Vec<QueryResult>)>) -> Shelf {
        Shelf {
            memories,
            neighbours,
            broken_vectors: Vec::new(),
            broken_lookups: Vec::new(),
            ignore_limit: false,
            asked: RefCell::new(Vec::new()),
            looked_up: RefCell::new(Vec::new()),
        }
    }
}

impl StorageBackend for Shelf {
    type Error = String;

    fn search_by_vector(
        &self,
        vector: Vec<u32>,
        limit: usize,
        min_score: i64,
        time_range: Option<TimeRange>,
    ) -> Result<Vec<QueryResult>, String> {
        self.asked.borrow_mut().push(Asked {
            vector: vector.clone(),
            limit,
            min_score,
            time_range,
        });
        if self.broken_vectors.contains(&vector[0]) {
            return Err(format!("no answer for {}", vector[0]));
        }
        let mut found = Vec::new();
        for (from, list) in &self.neighbours {
            if *from == vector[0] {
                for r in list {
                    if r.score.unwrap_or(0) >= min_score && (self.ignore_limit || found.len() < limit)
                    {
                        found.push(r.clone());
                    }
                }
            }
        }
        Ok(found)
    }

    fn find_memory_by_id(&self, id: &str) -> Result<Option<Memory>, String> {
        self.looked_up.borrow_mut().push(id.to_string());
        if self.broken_lookups.iter().any(|b| b == id) {
            return Err(format!("lookup of {} failed", id));
        }
        Ok(self.memories.iter().find(|m| m.id == id).cloned())
    }
}

fn ids(results: &[QueryResult]) -> Vec<String> {
    results.iter().map(|r| r.id.clone()).collect()
}

fn preorder_ids(node: &MemoryNode, out: &mut Vec<String>) {
    if let Some(result) = &node.memory {
        out.push(result.id.clone());
    }
    for child in &node.children {
        preorder_ids(child, out);
    }
}

fn child_ids(node: &MemoryNode) -> Vec<String> {
    node.children
        .iter()
        .map(|c| c.memory.as_ref().unwrap().id.clone())
        .collect()
}

/// a, b, c around the query; d, e around a; f around b; g around d.
fn small_world() -> Shelf {
    Shelf::new(
        vec![
            memory("a", &["x"], 1),
            memory("b", &["y"], 2),
            memory("c", &["z"], 3),
            memory("d", &["x"], 4),
            memory("e", &["x", "y"], 5),
            memory("f", &["y"], 6),
            memory("g", &["x"], 7),
        ],
        vec![
            (0, vec![hit("a", &["x"], 900_000), hit("b", &["y"], 800_000), hit("c", &["z"], 650_000)]),
            (1, vec![hit("a", &["x"], 1_000_000), hit("d", &["x"], 900_000), hit("e", &["x", "y"], 800_000), hit("c", &["z"], 750_000)]),
            (2, vec![hit("e", &["x", "y"], 950_000), hit("f", &["y"], 720_000), hit("a", &["x"], 710_000)]),
            (3, vec![hit("g", &["x"], 990_000)]),
            (4, vec![hit("g", &["x"], 800_000), hit("a", &["x"], 790_000)]),
            (5, vec![]),
            (6, vec![hit("b", &["y"], 960_000)]),
            (7, vec![]),
        ],
    )
}

#[test]
fn three_neighbours_and_nothing_further() {
    let shelf = Shelf::new(
        vec![memory("a", &["x"], 1), memory("b", &["x"], 2), memory("c", &["x"], 3)],
        vec![
            (0, vec![hit("a", &["x"], 900_000), hit("b", &["x"], 700_000), hit("c", &["x"], 600_000)]),
            (1, vec![hit("b", &["x"], 690_000), hit("q", &["x"], 650_000)]),
            (2, vec![hit("r", &["x"], 699_999)]),
            (3, vec![]),
        ],
    );
    let search = expand(&shelf, vec![0], TreeSearchConfig::new(600_000, 50), None).unwrap();
    assert_eq!(search.total_nodes(), 3);
    assert_eq!(ids(&search.flat()), vec!["a", "b", "c"]);
    assert!(search.nodes().iter().all(|n| n.layer == 1 && n.parent.is_none()));
    // the second layer was asked at the next threshold and found nothing
    assert_eq!(search.layers_completed(), 2);
    assert_eq!(shelf.asked.borrow().len(), 4);
    assert!(shelf.asked.borrow()[1..].iter().all(|q| q.min_score == 700_000));
}

#[test]
fn unresolved_node_stays_a_leaf() {
    let mut shelf = small_world();
    shelf.memories.retain(|m| m.id != "a");
    let mut config = TreeSearchConfig::new(600_000, 50);
    config.max_depth = 2;
    let search = expand(&shelf, vec![0], config, None).unwrap();
    let tree = search.tree();
    assert_eq!(child_ids(&tree.root), vec!["a", "b", "c"]);
    assert!(tree.root.children[0].children.is_empty());
    // b's branch is what it would have been anyway
    assert_eq!(child_ids(&tree.root.children[1]), vec!["e", "f"]);
    assert!(tree.root.children[2].children.is_empty());
    // a was looked up, but no query was put from it
    assert!(shelf.looked_up.borrow().contains(&"a".to_string()));
    assert!(shelf.asked.borrow().iter().all(|q| q.vector != vec![1]));
}

#[test]
fn empty_first_layer_is_a_normal_end() {
    let shelf = Shelf::new(vec![], vec![(0, vec![hit("a", &["x"], 100_000)])]);
    let search = expand(&shelf, vec![0], TreeSearchConfig::default(), None).unwrap();
    assert_eq!(search.total_nodes(), 0);
    assert!(search.flat().is_empty());
    assert_eq!(search.layers_completed(), 1);
    let tree = search.tree();
    assert_eq!(tree.total_nodes, 0);
    assert!(tree.root.children.is_empty());
    assert!(tree.root.memory.is_none());
    assert_eq!(tree.root.layer, 0);
    assert_eq!(shelf.asked.borrow().len(), 1);
}

#[test]
fn failed_opening_query_fails_the_search() {
    let mut shelf = small_world();
    shelf.broken_vectors.push(0);
    let outcome = expand(&shelf, vec![0], TreeSearchConfig::default(), None);
    assert_eq!(outcome.err(), Some("no answer for 0".to_string()));
}

#[test]
fn failed_branch_counts_as_empty() {
    let mut shelf = small_world();
    shelf.broken_vectors.push(1);
    shelf.broken_lookups.push("c".to_string());
    let mut config = TreeSearchConfig::new(600_000, 50);
    config.max_depth = 2;
    let search = expand(&shelf, vec![0], config, None).unwrap();
    assert_eq!(ids(&search.flat()), vec!["a", "b", "c", "e", "f"]);
    let tree = search.tree();
    assert!(tree.root.children[0].children.is_empty());
    assert_eq!(child_ids(&tree.root.children[1]), vec!["e", "f"]);
    assert!(tree.root.children[2].children.is_empty());
}

#[test]
fn whole_search_with_tags_required() {
    let shelf = small_world();
    let search = expand(&shelf, vec![0], TreeSearchConfig::new(600_000, 50), None).unwrap();
    // layer 2: a offers d, e (a itself is known, c has no tag of a's);
    // b offers e (known by then), f, and a (known); c offers nothing: g
    // shares no tag with c. layer 3: d offers g.
    assert_eq!(ids(&search.flat()), vec!["a", "b", "c", "d", "e", "f", "g"]);
    let layers: Vec<usize> = search.nodes().iter().map(|n| n.layer).collect();
    assert_eq!(layers, vec![1, 1, 1, 2, 2, 2, 3]);
    let parents: Vec<Option<usize>> = search.nodes().iter().map(|n| n.parent).collect();
    assert_eq!(parents, vec![None, None, None, Some(0), Some(0), Some(1), Some(3)]);
}

#[test]
fn without_tag_requirement_candidates_pass_unfiltered() {
    let shelf = small_world();
    let mut config = TreeSearchConfig::new(600_000, 50);
    config.require_tag_overlap = false;
    config.max_depth = 2;
    let search = expand(&shelf, vec![0], config, None).unwrap();
    // c's branch now offers g
    assert_eq!(ids(&search.flat()), vec!["a", "b", "c", "d", "e", "f", "g"]);
    let parents: Vec<Option<usize>> = search.nodes().iter().map(|n| n.parent).collect();
    assert_eq!(parents, vec![None, None, None, Some(0), Some(0), Some(1), Some(2)]);
}

#[test]
fn every_deeper_node_shares_a_tag_with_its_parent() {
    let shelf = small_world();
    let search = expand(&shelf, vec![0], TreeSearchConfig::new(600_000, 50), None).unwrap();
    let nodes = search.nodes();
    let mut deeper = 0;
    for node in nodes.iter() {
        if let Some(parent) = node.parent {
            deeper += 1;
            assert!(node.layer >= 2);
            let parent_tags = &nodes[parent].result.tags;
            assert!(node.result.tags.iter().any(|t| parent_tags.contains(t)));
        }
    }
    assert_eq!(deeper, 4);
}

#[test]
fn no_identifier_is_accepted_twice() {
    let shelf = small_world();
    let mut config = TreeSearchConfig::new(0, 50);
    config.require_tag_overlap = false;
    let search = expand(&shelf, vec![0], config, None).unwrap();
    let mut seen = ids(&search.flat());
    let before = seen.len();
    seen.sort();
    seen.dedup();
    assert_eq!(seen.len(), before);
    assert_eq!(before, 7);
}

#[test]
fn repeated_identifier_in_first_layer_is_accepted_once() {
    let shelf = Shelf::new(
        vec![],
        vec![(0, vec![hit("a", &["x"], 900_000), hit("a", &["x"], 800_000), hit("b", &["x"], 700_000)])],
    );
    let search = expand(&shelf, vec![0], TreeSearchConfig::default(), None).unwrap();
    assert_eq!(ids(&search.flat()), vec!["a", "b"]);
    assert_eq!(search.flat()[0].score, Some(900_000));
}

#[test]
fn budget_cuts_a_layer_short() {
    let shelf = small_world();
    let search = expand(&shelf, vec![0], TreeSearchConfig::new(600_000, 4), None).unwrap();
    assert_eq!(ids(&search.flat()), vec!["a", "b", "c", "d"]);
    assert_eq!(search.total_nodes(), 4);
    assert_eq!(search.layers_completed(), 2);
}

#[test]
fn budget_holds_for_every_size() {
    for budget in 3..12usize {
        let shelf = small_world();
        let mut config = TreeSearchConfig::new(0, budget);
        config.require_tag_overlap = false;
        let search = expand(&shelf, vec![0], config, None).unwrap();
        assert!(search.total_nodes() <= budget);
    }
}

#[test]
fn first_layer_is_accepted_whole_even_past_the_budget() {
    let shelf = small_world();
    let search = expand(&shelf, vec![0], TreeSearchConfig::new(600_000, 2), None).unwrap();
    assert_eq!(ids(&search.flat()), vec!["a", "b", "c"]);
    assert_eq!(search.layers_completed(), 1);
    assert_eq!(shelf.asked.borrow().len(), 1);
}

#[test]
fn branch_is_cut_to_the_branch_limit() {
    let shelf = Shelf::new(
        vec![memory("a", &["x"], 1)],
        vec![
            (0, vec![hit("a", &["x"], 900_000)]),
            (1, vec![
                hit("b", &["x"], 990_000),
                hit("c", &["q"], 980_000),
                hit("d", &["x"], 970_000),
                hit("e", &["x"], 960_000),
                hit("f", &["x"], 950_000),
            ]),
        ],
    );
    let mut config = TreeSearchConfig::new(600_000, 50);
    config.branch_limit = 3;
    config.max_depth = 2;
    let search = expand(&shelf, vec![0], config, None).unwrap();
    // c is filtered out before the cut, so e moves up
    assert_eq!(ids(&search.flat()), vec!["a", "b", "d", "e"]);
}

#[test]
fn store_that_ignores_the_limit_cannot_widen_a_branch() {
    let mut shelf = Shelf::new(
        vec![memory("a", &["x"], 1)],
        vec![
            (0, vec![hit("a", &["x"], 900_000)]),
            (1, (0..20).map(|i| hit(&format!("n{}", i), &["x"], 990_000 - i)).collect()),
        ],
    );
    shelf.ignore_limit = true;
    let mut config = TreeSearchConfig::new(600_000, 50);
    config.branch_limit = 4;
    config.max_depth = 2;
    let search = expand(&shelf, vec![0], config, None).unwrap();
    assert_eq!(ids(&search.flat()), vec!["a", "n0", "n1", "n2", "n3"]);
}

#[test]
fn questions_carry_limits_thresholds_and_the_time_filter() {
    let shelf = small_world();
    let range = Some(TimeRange { after: Some(1_000), before: Some(2_000_000_000_000) });
    let search = expand(&shelf, vec![0], TreeSearchConfig::new(600_000, 50), range).unwrap();
    assert_eq!(search.total_nodes(), 7);
    let asked = shelf.asked.borrow();
    assert_eq!(
        asked[0],
        Asked { vector: vec![0], limit: 5, min_score: 600_000, time_range: range }
    );
    // layer 2 from a, b, c; layer 3 from d, e, f; layer 4 from g
    let vectors: Vec<u32> = asked.iter().map(|q| q.vector[0]).collect();
    assert_eq!(vectors, vec![0, 1, 2, 3, 4, 5, 6, 7]);
    let thresholds: Vec<i64> = asked.iter().map(|q| q.min_score).collect();
    assert_eq!(
        thresholds,
        vec![600_000, 700_000, 700_000, 700_000, 770_000, 770_000, 770_000, 820_000]
    );
    assert!(asked[1..].iter().all(|q| q.limit == 10));
    assert!(asked.iter().all(|q| q.time_range == range));
}

#[test]
fn depth_limit_stops_the_search() {
    let shelf = small_world();
    let mut config = TreeSearchConfig::new(600_000, 50);
    config.max_depth = 1;
    let search = expand(&shelf, vec![0], config, None).unwrap();
    assert_eq!(ids(&search.flat()), vec!["a", "b", "c"]);
    assert_eq!(search.layers_completed(), 1);
    config.max_depth = 0;
    let search = expand(&shelf, vec![0], config, None).unwrap();
    assert_eq!(ids(&search.flat()), vec!["a", "b", "c"]);
}

#[test]
fn exhausted_thresholds_stop_the_search() {
    let shelf = small_world();
    let mut config = TreeSearchConfig::new(930_000, 50);
    config.require_tag_overlap = false;
    config.max_depth = 9;
    let search = expand(&shelf, vec![0], config, None).unwrap();
    assert!(search.layers_completed() <= 2);
    assert!(shelf.asked.borrow().iter().all(|q| q.min_score == 930_000));
}

#[test]
fn tree_and_flat_list_hold_the_same_identifiers() {
    let shelf = small_world();
    let search = expand(&shelf, vec![0], TreeSearchConfig::new(600_000, 50), None).unwrap();
    let tree = search.tree();
    let mut walked = Vec::new();
    preorder_ids(&tree.root, &mut walked);
    assert_eq!(walked, vec!["a", "d", "g", "e", "b", "f", "c"]);
    let mut flat = ids(&search.flat());
    flat.sort();
    walked.sort();
    assert_eq!(walked, flat);
    assert_eq!(tree.total_nodes, 7);
}

#[test]
fn tree_has_the_shape_of_the_trace() {
    let shelf = small_world();
    let search = expand(&shelf, vec![0], TreeSearchConfig::new(600_000, 50), None).unwrap();
    let tree = search.tree();
    assert!(tree.root.memory.is_none());
    assert_eq!(tree.root.layer, 0);
    assert_eq!(child_ids(&tree.root), vec!["a", "b", "c"]);
    let a = &tree.root.children[0];
    assert_eq!(a.layer, 1);
    assert_eq!(a.memory.as_ref().unwrap().score, Some(900_000));
    assert_eq!(child_ids(a), vec!["d", "e"]);
    assert_eq!(a.children[0].layer, 2);
    assert_eq!(child_ids(&a.children[0]), vec!["g"]);
    assert_eq!(a.children[0].children[0].layer, 3);
    assert!(a.children[1].children.is_empty());
    assert_eq!(child_ids(&tree.root.children[1]), vec!["f"]);
    assert!(tree.root.children[2].children.is_empty());
}

#[test]
fn driving_the_search_by_hand() {
    let range = Some(TimeRange { after: None, before: Some(9) });
    let mut search = Expansion::begin(TreeSearchConfig::new(600_000, 50), range);
    assert!(!search.wants_layer());
    let opening = search.first_request(vec![11, 12]);
    assert_eq!(opening.vector, vec![11, 12]);
    assert_eq!(opening.limit, 5);
    assert_eq!(opening.min_score, 600_000);
    assert_eq!(opening.time_range, range);

    search.accept_first_layer(vec![hit("a", &["x"], 900_000), hit("b", &["y"], 800_000)]);
    assert!(search.wants_layer());
    assert_eq!(search.frontier_ids(), vec!["a".to_string(), "b".to_string()]);

    assert_eq!(search.branch_request(&None), None);
    let branch = search.branch_request(&Some(memory("a", &["x"], 77))).unwrap();
    assert_eq!(branch.vector, vec![77]);
    assert_eq!(branch.limit, 10);
    assert_eq!(branch.min_score, 700_000);
    assert_eq!(branch.time_range, range);

    search.merge_layer(vec![
        BranchReply::Found {
            memory: memory("a", &["x"], 77),
            related: vec![hit("b", &["x"], 1), hit("c", &["x"], 2), hit("d", &["y"], 3)],
        },
        BranchReply::Found {
            memory: memory("b", &["zz"], 78),
            related: vec![hit("c", &["zz"], 4), hit("e", &["zz"], 5)],
        },
    ]);
    // the tag filter goes by the memory the store resolved, here "zz" for b
    assert_eq!(ids(&search.flat()), vec!["a", "b", "c", "e"]);
    assert_eq!(search.flat()[2].score, Some(2));
    assert_eq!(search.frontier_ids(), vec!["c".to_string(), "e".to_string()]);
    assert_eq!(search.layers_completed(), 2);
    assert_eq!(search.branch_request(&Some(memory("c", &[], 1))).unwrap().min_score, 770_000);

    search.merge_layer(vec![BranchReply::Missing, BranchReply::Failed]);
    assert_eq!(search.total_nodes(), 4);
    assert_eq!(search.layers_completed(), 3);
    assert!(search.frontier_ids().is_empty());
    assert!(!search.wants_layer());
}

#[test]
fn branch_asks_for_twice_its_limit_as_far_as_numbers_go() {
    let mut config = TreeSearchConfig::new(600_000, 50);
    config.branch_limit = usize::MAX / 2 + 1;
    let mut search = Expansion::begin(config, None);
    search.accept_first_layer(vec![hit("a", &["x"], 900_000)]);
    let request = search.branch_request(&Some(memory("a", &["x"], 1))).unwrap();
    assert_eq!(request.limit, usize::MAX);
    config.branch_limit = 7;
    let mut search = Expansion::begin(config, None);
    search.accept_first_layer(vec![hit("a", &["x"], 900_000)]);
    let request = search.branch_request(&Some(memory("a", &["x"], 1))).unwrap();
    assert_eq!(request.limit, 14);
}
