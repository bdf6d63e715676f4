use zed42::graph::{is_name_of, EdgeType, KnowledgeEdge, KnowledgeGraph, KnowledgeNode, NodeType};

fn node(id: &str, t: NodeType, created: i64, updated: Option<i64>) -> KnowledgeNode {
    KnowledgeNode {
        id: id.to_string(),
        node_type: t,
        name: id.to_uppercase(),
        content: "{}".to_string(),
        metadata: "{}".to_string(),
        created_at: created,
        updated_at: updated,
    }
}

fn edge(id: &str, t: EdgeType, from: &str, to: &str) -> KnowledgeEdge {
    KnowledgeEdge { id: id.to_string(), edge_type: t, from_id: from.to_string(), to_id: to.to_string(), metadata: None, created_at: 0 }
}

#[test]
fn cascade_delete() {
    let mut g = KnowledgeGraph::new();
    g.insert_node(node("a", NodeType::Function, 0, None)).unwrap();
    g.insert_node(node("b", NodeType::Function, 0, None)).unwrap();
    g.insert_edge(edge("e1", EdgeType::Calls, "a", "b")).unwrap();
    g.delete_node("a");
    assert!(g.get_node("a").is_none());
    assert!(g.get_edges_by_type(EdgeType::Calls).is_empty());
    assert!(g.get_node("b").is_some());
}

#[test]
fn delete_matches_qualified_ids_at_either_end() {
    let mut g = KnowledgeGraph::new();
    g.insert_node(node("nodes:a", NodeType::Module, 0, None)).unwrap();
    g.insert_node(node("c", NodeType::Module, 0, None)).unwrap();
    g.insert_edge(edge("e1", EdgeType::Contains, "nodes:a", "c")).unwrap();
    g.insert_edge(edge("e2", EdgeType::DependsOn, "c", "a")).unwrap();
    g.insert_edge(edge("e3", EdgeType::DependsOn, "c", "c")).unwrap();
    assert!(g.get_node("a").is_some());
    g.delete_node("a");
    let stats = g.stats();
    assert_eq!(stats.node_count, 1);
    assert_eq!(stats.edge_count, 1);
    assert_eq!(g.get_edges_by_type(EdgeType::DependsOn)[0].id, "e3");
}

#[test]
fn duplicate_ids_are_refused() {
    let mut g = KnowledgeGraph::new();
    assert!(g.insert_node(node("a", NodeType::File, 0, None)).is_ok());
    assert!(g.insert_node(node("a", NodeType::Test, 0, None)).is_err());
    assert!(g.insert_edge(edge("e", EdgeType::Tests, "a", "a")).is_ok());
    assert!(g.insert_edge(edge("e", EdgeType::Tests, "a", "a")).is_err());
    assert_eq!(g.get_nodes_by_type(NodeType::File).len(), 1);
    assert!(g.get_nodes_by_type(NodeType::Test).is_empty());
}

#[test]
fn temporal_search_keeps_nodes_alive_at_the_instant() {
    let mut g = KnowledgeGraph::new();
    g.insert_node(node("old", NodeType::Decision, 0, Some(50))).unwrap();
    g.insert_node(node("live", NodeType::Decision, 10, Some(200))).unwrap();
    g.insert_node(node("never-updated", NodeType::Decision, 90, None)).unwrap();
    g.insert_node(node("future", NodeType::Decision, 150, None)).unwrap();
    let ids: Vec<String> = g.temporal_search(100).into_iter().map(|n| n.id).collect();
    assert_eq!(ids, vec!["live", "never-updated"]);
}

#[test]
fn names_of_a_node() {
    assert!(is_name_of("a", "a"));
    assert!(is_name_of("nodes:a", "a"));
    assert!(!is_name_of("edges:a", "a"));
    assert!(!is_name_of("nodes:ab", "a"));
}

#[test]
fn structural_search_follows_allowed_edges_to_depth() {
    let mut g = KnowledgeGraph::new();
    for id in ["a", "b", "c", "d"] {
        g.insert_node(node(id, NodeType::Function, 0, None)).unwrap();
    }
    g.insert_edge(edge("e1", EdgeType::Calls, "a", "b")).unwrap();
    g.insert_edge(edge("e2", EdgeType::Calls, "nodes:b", "c")).unwrap();
    g.insert_edge(edge("e3", EdgeType::Documents, "a", "d")).unwrap();
    g.insert_edge(edge("e4", EdgeType::Calls, "c", "a")).unwrap();
    let one = g.structural_search("a", &vec![EdgeType::Calls], 1);
    assert_eq!(one.len(), 1);
    assert_eq!(one[0].node.id, "b");
    assert_eq!(one[0].path, vec!["a".to_string(), "b".to_string()]);
    let two = g.structural_search("a", &vec![EdgeType::Calls], 3);
    let ids: Vec<&str> = two.iter().map(|h| h.node.id.as_str()).collect();
    assert_eq!(ids, vec!["b", "c"]);
    assert_eq!(two[1].path, vec!["a".to_string(), "b".to_string(), "c".to_string()]);
    let docs = g.structural_search("a", &vec![EdgeType::Documents, EdgeType::Calls], 1);
    assert_eq!(docs.len(), 2);
    assert!(g.structural_search("a", &vec![EdgeType::Calls], 0).is_empty());
}

#[test]
fn semantic_search_picks_the_most_similar_of_the_kinds_asked() {
    let mut g = KnowledgeGraph::new();
    g.insert_node(node("f1", NodeType::Function, 0, None)).unwrap();
    g.insert_node(node("d1", NodeType::Documentation, 0, None)).unwrap();
    g.insert_node(node("f2", NodeType::Function, 0, None)).unwrap();
    g.insert_node(node("f3", NodeType::Function, 0, None)).unwrap();
    let sims = vec![300_000, 990_000, 800_000, 800_000];
    let all: Vec<String> = g.semantic_search(&sims, 2, &None).into_iter().map(|s| s.node.id).collect();
    assert_eq!(all, vec!["d1", "f2"]);
    let funcs = g.semantic_search(&sims, 5, &Some(vec![NodeType::Function]));
    let ids: Vec<&str> = funcs.iter().map(|s| s.node.id.as_str()).collect();
    assert_eq!(ids, vec!["f2", "f3", "f1"]);
    assert_eq!(funcs[0].similarity, 800_000);
    assert!(g.semantic_search(&sims, 0, &None).is_empty());
}

#[test]
fn lessons_are_documentation_linked_to_their_thread() {
    let mut g = KnowledgeGraph::new();
    let n = zed42::graph::lesson_node("lesson-1".to_string(), "thread-7", "{\"lesson\":\"x\"}".to_string(), "{}".to_string(), 42);
    assert_eq!(n.name, "Lesson: thread-7");
    g.insert_node(n).unwrap();
    g.insert_edge(zed42::graph::lesson_edge("e".to_string(), "lesson-1", "thread-7", 42)).unwrap();
    assert_eq!(g.get_nodes_by_type(NodeType::Documentation).len(), 1);
    assert_eq!(g.get_edges_by_type(EdgeType::Documents)[0].to_id, "thread-7");
}
