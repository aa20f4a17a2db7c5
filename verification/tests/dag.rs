use sakamoto::dag::PipelineDag;
use sakamoto::error::SakamotoError;


#[test]
fn empty_dag() {
    let dag = PipelineDag::new();
    assert!(dag.is_empty());
    assert_eq!(dag.len(), 0);
    let levels = dag.execution_levels().unwrap();
    assert!(levels.is_empty());
}

#[test]
fn single_stage() {
    let mut dag = PipelineDag::new();
    dag.add_stage("a".into()).unwrap();
    let levels = dag.execution_levels().unwrap();
    assert_eq!(levels, vec![vec!["a"]]);
}

#[test]
fn linear_pipeline() {
    let names: Vec<String> = vec!["context", "plan", "code", "lint", "test"]
        .into_iter()
        .map(Into::into)
        .collect();
    let dag = PipelineDag::from_linear(&names).unwrap();

    let levels = dag.execution_levels().unwrap();
    assert_eq!(levels.len(), 5);
    assert_eq!(levels[0], vec!["context"]);
    assert_eq!(levels[1], vec!["plan"]);
    assert_eq!(levels[2], vec!["code"]);
    assert_eq!(levels[3], vec!["lint"]);
    assert_eq!(levels[4], vec!["test"]);
}

#[test]
fn parallel_stages() {
    // context → plan → code → { lint, test } → commit
    let mut dag = PipelineDag::new();
    for name in &["context", "plan", "code", "lint", "test", "commit"] {
        dag.add_stage((*name).into()).unwrap();
    }
    dag.add_dependency("plan", "context").unwrap();
    dag.add_dependency("code", "plan").unwrap();
    dag.add_dependency("lint", "code").unwrap();
    dag.add_dependency("test", "code").unwrap();
    dag.add_dependency("commit", "lint").unwrap();
    dag.add_dependency("commit", "test").unwrap();

    let levels = dag.execution_levels().unwrap();
    assert_eq!(levels.len(), 5);
    assert_eq!(levels[0], vec!["context"]);
    assert_eq!(levels[1], vec!["plan"]);
    assert_eq!(levels[2], vec!["code"]);
    // lint and test are at the same level (parallel)
    assert_eq!(levels[3].len(), 2);
    assert!(levels[3].contains(&"lint".to_string()));
    assert!(levels[3].contains(&"test".to_string()));
    assert_eq!(levels[4], vec!["commit"]);
}

#[test]
fn cycle_detected() {
    let mut dag = PipelineDag::new();
    dag.add_stage("a".into()).unwrap();
    dag.add_stage("b".into()).unwrap();
    dag.add_stage("c".into()).unwrap();
    dag.add_dependency("b", "a").unwrap();
    dag.add_dependency("c", "b").unwrap();
    dag.add_dependency("a", "c").unwrap();

    let err = dag.execution_levels().unwrap_err();
    assert!(matches!(err, SakamotoError::CyclicGraph));
}

#[test]
fn duplicate_stage_rejected() {
    let mut dag = PipelineDag::new();
    dag.add_stage("a".into()).unwrap();
    let err = dag.add_stage("a".into()).unwrap_err();
    assert!(matches!(err, SakamotoError::ConfigError(_)));
}

#[test]
fn dependency_on_unknown_stage_rejected() {
    let mut dag = PipelineDag::new();
    dag.add_stage("a".into()).unwrap();
    let err = dag.add_dependency("a", "nonexistent").unwrap_err();
    assert!(matches!(err, SakamotoError::StageNotFound(_)));
}

#[test]
fn has_stage_works() {
    let mut dag = PipelineDag::new();
    dag.add_stage("a".into()).unwrap();
    assert!(dag.has_stage("a"));
    assert!(!dag.has_stage("b"));
}

#[test]
fn topological_order_flattens() {
    let names: Vec<String> = vec!["a", "b", "c"].into_iter().map(Into::into).collect();
    let dag = PipelineDag::from_linear(&names).unwrap();
    let order = dag.topological_order().unwrap();
    assert_eq!(order, vec!["a", "b", "c"]);
}

#[test]
fn independent_stages_all_at_level_zero() {
    let mut dag = PipelineDag::new();
    dag.add_stage("a".into()).unwrap();
    dag.add_stage("b".into()).unwrap();
    dag.add_stage("c".into()).unwrap();
    // No dependencies — all parallel

    let levels = dag.execution_levels().unwrap();
    assert_eq!(levels.len(), 1);
    assert_eq!(levels[0].len(), 3);
}

#[test]
fn diamond_dependency() {
    //   a
    //  / \
    // b   c
    //  \ /
    //   d
    let mut dag = PipelineDag::new();
    for name in &["a", "b", "c", "d"] {
        dag.add_stage((*name).into()).unwrap();
    }
    dag.add_dependency("b", "a").unwrap();
    dag.add_dependency("c", "a").unwrap();
    dag.add_dependency("d", "b").unwrap();
    dag.add_dependency("d", "c").unwrap();

    let levels = dag.execution_levels().unwrap();
    assert_eq!(levels.len(), 3);
    assert_eq!(levels[0], vec!["a"]);
    assert_eq!(levels[1].len(), 2); // b and c parallel
    assert_eq!(levels[2], vec!["d"]);
}

#[test]
fn level_order_follows_dependency_declarations() {
    let mut dag = PipelineDag::new();
    for name in &["a", "b", "c"] {
        dag.add_stage((*name).into()).unwrap();
    }
    // "c" is declared dependent on "a" before "b" is.
    dag.add_dependency("c", "a").unwrap();
    dag.add_dependency("b", "a").unwrap();
    let levels = dag.execution_levels().unwrap();
    assert_eq!(levels, vec![vec!["a".to_string()], vec!["c".to_string(), "b".to_string()]]);
    assert_eq!(dag.topological_order().unwrap(), vec!["a", "c", "b"]);
}

#[test]
fn topological_order_is_flattened_levels_on_diamond() {
    let mut dag = PipelineDag::new();
    for name in &["a", "b", "c", "d", "e"] {
        dag.add_stage((*name).into()).unwrap();
    }
    dag.add_dependency("d", "c").unwrap();
    dag.add_dependency("d", "b").unwrap();
    dag.add_dependency("c", "a").unwrap();
    dag.add_dependency("b", "a").unwrap();
    dag.add_dependency("e", "a").unwrap();
    let levels = dag.execution_levels().unwrap();
    let flat: Vec<String> = levels.into_iter().flatten().collect();
    assert_eq!(dag.topological_order().unwrap(), flat);
    assert_eq!(flat, vec!["a", "c", "b", "e", "d"]);
}
