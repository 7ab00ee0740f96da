use cdm::dependency_graph::{DependencyGraph, ResolvedExtends};

/// The project of the graph tests, as `build` receives it: the canonical path of each
/// file and, for each, its `extends` targets resolved to canonical paths.
///
/// base.cdm                 (no extends)
/// src/child.cdm            extends "../base.cdm"
/// src/grandchild.cdm       extends "./child.cdm"
/// src/sibling.cdm          extends "../base.cdm"
/// standalone.cdm           (no extends)
const BASE: &str = "/proj/base.cdm";
const CHILD: &str = "/proj/src/child.cdm";
const GRANDCHILD: &str = "/proj/src/grandchild.cdm";
const SIBLING: &str = "/proj/src/sibling.cdm";
const STANDALONE: &str = "/proj/standalone.cdm";

fn extends_of(file: &str) -> Vec<ResolvedExtends> {
    let target = |written: &str, canonical: &str| ResolvedExtends { written: written.to_string(), canonical: Some(canonical.to_string()) };
    match file {
        CHILD => vec![target("../base.cdm", BASE)],
        GRANDCHILD => vec![target("./child.cdm", CHILD)],
        SIBLING => vec![target("../base.cdm", BASE)],
        _ => vec![],
    }
}

fn build(files: &[&str]) -> (Vec<String>, DependencyGraph) {
    let files: Vec<String> = files.iter().map(|f| f.to_string()).collect();
    let extends: Vec<Vec<ResolvedExtends>> = files.iter().map(|f| extends_of(f)).collect();
    let graph = DependencyGraph::build(&files, &extends).unwrap();
    (files, graph)
}

#[test]
fn test_build_graph_from_files() {
    let (files, graph) = build(&[BASE, CHILD, GRANDCHILD, SIBLING, STANDALONE]);

    let base_dependents = graph.direct_dependents(&files[0]);
    assert_eq!(base_dependents.len(), 2);

    let child_dependents = graph.direct_dependents(&files[1]);
    assert_eq!(child_dependents.len(), 1);
    assert!(child_dependents.contains(&files[2]));

    assert!(graph.direct_dependents(&files[2]).is_empty());
    assert!(graph.direct_dependents(&files[4]).is_empty());
}

#[test]
fn test_get_all_dependents_transitive() {
    let (files, graph) = build(&[BASE, CHILD, GRANDCHILD, SIBLING]);
    let all_dependents = graph.get_all_dependents(&files[0]);
    assert_eq!(all_dependents.len(), 3);
    assert!(all_dependents.contains(&files[1]));
    assert!(all_dependents.contains(&files[2]));
    assert!(all_dependents.contains(&files[3]));
}

#[test]
fn test_get_all_dependencies_transitive() {
    let (files, graph) = build(&[BASE, CHILD, GRANDCHILD]);
    let all_deps = graph.get_all_dependencies(&files[2]);
    assert_eq!(all_deps.len(), 2);
    assert!(all_deps.contains(&files[0]));
    assert!(all_deps.contains(&files[1]));
}

#[test]
fn test_depends_on() {
    let (files, graph) = build(&[BASE, CHILD, GRANDCHILD]);
    assert!(graph.depends_on(&files[2], &files[0]));
    assert!(graph.depends_on(&files[2], &files[1]));
    assert!(!graph.depends_on(&files[0], &files[1]));
}

#[test]
fn test_empty_graph() {
    let graph = DependencyGraph::build(&[], &[]).unwrap();
    let deps = graph.get_all_dependents(&"/nonexistent.cdm".to_string());
    assert!(deps.is_empty());
}

#[test]
fn test_file_with_missing_extends() {
    // orphan.cdm extends "./missing.cdm", which does not exist
    let files = vec!["/proj/orphan.cdm".to_string()];
    let extends = vec![vec![ResolvedExtends { written: "./missing.cdm".to_string(), canonical: None }]];
    let graph = DependencyGraph::build(&files, &extends).unwrap();
    let deps = graph.direct_dependencies(&files[0]);
    assert!(deps.is_empty());
}

#[test]
fn test_results_are_sorted() {
    let (files, graph) = build(&[BASE, CHILD, GRANDCHILD, SIBLING]);
    let dependents = graph.get_all_dependents(&files[0]);
    let mut sorted = dependents.clone();
    sorted.sort();
    assert_eq!(dependents, sorted);
}

#[test]
fn targets_outside_the_project_are_not_edges() {
    let files = vec![CHILD.to_string()];
    let extends = vec![extends_of(CHILD)];
    let graph = DependencyGraph::build(&files, &extends).unwrap();
    assert!(graph.direct_dependencies(&files[0]).is_empty());
}

#[test]
fn edges_added_one_by_one_give_sorted_closures() {
    let mut g = DependencyGraph::new();
    g.add_dependency("/p/src/child.cdm".to_string(), "/p/base.cdm".to_string());
    g.add_dependency("/p/src/grandchild.cdm".to_string(), "/p/src/child.cdm".to_string());
    g.add_dependency("/p/src/sibling.cdm".to_string(), "/p/base.cdm".to_string());
    assert_eq!(
        g.get_all_dependents(&"/p/base.cdm".to_string()),
        vec!["/p/src/child.cdm", "/p/src/grandchild.cdm", "/p/src/sibling.cdm"]
    );
    assert_eq!(g.get_all_dependencies(&"/p/src/grandchild.cdm".to_string()), vec!["/p/base.cdm", "/p/src/child.cdm"]);
    assert!(g.get_all_dependencies(&"/p/base.cdm".to_string()).is_empty());
}

#[test]
fn a_file_on_a_cycle_is_its_own_dependent() {
    let mut g = DependencyGraph::new();
    g.add_dependency("/a.cdm".to_string(), "/b.cdm".to_string());
    g.add_dependency("/b.cdm".to_string(), "/a.cdm".to_string());
    assert_eq!(g.get_all_dependents(&"/a.cdm".to_string()), vec!["/a.cdm", "/b.cdm"]);
}

#[test]
fn two_spellings_of_one_path_are_one_node() {
    let mut g = DependencyGraph::new();
    g.add_dependency("/a//b.cdm".to_string(), "/p.cdm".to_string());
    g.add_dependency("/a/b.cdm".to_string(), "/q.cdm".to_string());
    assert_eq!(g.get_all_dependencies(&"/a/./b.cdm".to_string()), vec!["/p.cdm", "/q.cdm"]);
    assert!(g.depends_on(&"/a//b.cdm".to_string(), &"/q.cdm".to_string()));
    assert_eq!(g.direct_dependents(&"/p.cdm".to_string()), vec!["/a/b.cdm"]);
}
