use openhawk::orchestrator::{capability_overlap, topological_sort, Orchestrator, SubTaskStatus};

fn make_orchestrator() -> Orchestrator {
    let mut o = Orchestrator::new();
    o.register_agent(1, "research-agent".to_string(), vec!["research".into(), "web-search".into()]);
    o.register_agent(2, "coding-agent".to_string(), vec!["coding".into(), "testing".into()]);
    o.register_agent(3, "review-agent".to_string(), vec!["review".into(), "analysis".into()]);
    o
}

#[test]
fn single_task_produces_one_subtask() {
    let o = make_orchestrator();
    let plan = o.orchestrate("research quantum computing").unwrap();
    assert_eq!(plan.subtasks.len(), 1);
    assert!(plan.dependencies.is_empty());
}

#[test]
fn and_produces_parallel_subtasks_no_dependencies() {
    let o = make_orchestrator();
    let plan = o.orchestrate("research topic and write code").unwrap();
    assert_eq!(plan.subtasks.len(), 2);
    assert!(plan.dependencies.is_empty());
}

#[test]
fn then_produces_sequential_dependency() {
    let o = make_orchestrator();
    let plan = o.orchestrate("research topic then write code").unwrap();
    assert_eq!(plan.subtasks.len(), 2);
    assert_eq!(plan.dependencies.len(), 1);
    assert_eq!(plan.dependencies[0], (0, 1));
}

#[test]
fn subtasks_have_non_empty_descriptions() {
    let o = make_orchestrator();
    let plan = o.orchestrate("research topic then write code then review changes").unwrap();
    for st in &plan.subtasks {
        assert!(!st.description.is_empty());
    }
}

#[test]
fn plan_preserves_task_description() {
    let o = make_orchestrator();
    let desc = "research topic and write code";
    let plan = o.orchestrate(desc).unwrap();
    assert_eq!(plan.task_description, desc);
}

#[test]
fn research_task_assigned_to_research_agent() {
    let o = make_orchestrator();
    let plan = o.orchestrate("research quantum computing").unwrap();
    assert_eq!(plan.subtasks[0].assigned_agent, Some(1));
}

#[test]
fn coding_task_assigned_to_coding_agent() {
    let o = make_orchestrator();
    let plan = o.orchestrate("implement the algorithm").unwrap();
    assert_eq!(plan.subtasks[0].assigned_agent, Some(2));
}

#[test]
fn review_task_assigned_to_review_agent() {
    let o = make_orchestrator();
    let plan = o.orchestrate("review the changes").unwrap();
    assert_eq!(plan.subtasks[0].assigned_agent, Some(3));
}

#[test]
fn all_subtasks_get_agent_assigned_when_agents_available() {
    let o = make_orchestrator();
    let plan = o.orchestrate("research topic and write code and review changes").unwrap();
    for st in &plan.subtasks {
        assert!(st.assigned_agent.is_some());
    }
}

#[test]
fn no_agents_still_produces_plan_with_none_assigned() {
    let o = Orchestrator::new();
    let plan = o.orchestrate("research topic").unwrap();
    assert_eq!(plan.subtasks[0].assigned_agent, None);
}

#[test]
fn independent_subtasks_all_complete() {
    let o = make_orchestrator();
    let plan = o.orchestrate("research topic and write code").unwrap();
    let report = o.execute_plan(plan).unwrap();
    assert!(report.success);
    for st in &report.plan.subtasks {
        assert_eq!(st.status, SubTaskStatus::Completed);
    }
}

#[test]
fn sequential_subtasks_complete_in_order() {
    let o = make_orchestrator();
    let plan = o.orchestrate("research topic then write code").unwrap();
    let report = o.execute_plan(plan).unwrap();
    assert!(report.success);
    assert_eq!(report.plan.subtasks[0].status, SubTaskStatus::Completed);
    assert_eq!(report.plan.subtasks[1].status, SubTaskStatus::Completed);
}

#[test]
fn subtask_with_no_agent_fails_gracefully() {
    let o = Orchestrator::new();
    let plan = o.orchestrate("research topic").unwrap();
    let report = o.execute_plan(plan).unwrap();
    assert!(!report.success);
    assert!(matches!(report.plan.subtasks[0].status, SubTaskStatus::Failed(_)));
}

#[test]
fn report_summary_reflects_failure_count() {
    let o = Orchestrator::new();
    let plan = o.orchestrate("research topic and write code").unwrap();
    let report = o.execute_plan(plan).unwrap();
    assert!(report.summary.contains("failed") || report.summary.contains("0/"));
}

#[test]
fn reassignment_uses_best_matching_agent() {
    let mut o = Orchestrator::new();
    o.register_agent(10, "generic-agent".to_string(), vec!["generic".into()]);
    o.register_agent(11, "research-agent".to_string(), vec!["research".into()]);
    let plan = o.orchestrate("research quantum computing").unwrap();
    assert_eq!(plan.subtasks[0].assigned_agent, Some(11));
}

#[test]
fn successful_report_has_correct_summary() {
    let o = make_orchestrator();
    let plan = o.orchestrate("research topic").unwrap();
    let report = o.execute_plan(plan).unwrap();
    assert!(report.success);
    assert!(report.summary.contains("1"));
    assert!(report.summary.contains("completed"));
}

#[test]
fn report_contains_original_plan() {
    let o = make_orchestrator();
    let plan = o.orchestrate("research topic and write code").unwrap();
    let report = o.execute_plan(plan).unwrap();
    assert_eq!(report.plan.subtasks.len(), 2);
}

#[test]
fn topo_sort_no_deps_returns_all_nodes() {
    let order = topological_sort(3, &[]).unwrap();
    assert_eq!(order.len(), 3);
}

#[test]
fn topo_sort_linear_chain() {
    let order = topological_sort(3, &[(0, 1), (1, 2)]).unwrap();
    assert_eq!(order, vec![0, 1, 2]);
}

#[test]
fn topo_sort_cycle_returns_none() {
    let result = topological_sort(2, &[(0, 1), (1, 0)]);
    assert!(result.is_none());
}

#[test]
fn capability_overlap_full_match() {
    let agent: Vec<String> = vec!["research".into(), "web-search".into()];
    let required: Vec<String> = vec!["research".into(), "web-search".into()];
    assert_eq!(capability_overlap(&agent, &required), 2);
}

#[test]
fn capability_overlap_no_match() {
    let agent: Vec<String> = vec!["coding".into()];
    let required: Vec<String> = vec!["research".into()];
    assert_eq!(capability_overlap(&agent, &required), 0);
}

#[test]
fn capability_overlap_partial_match() {
    let agent: Vec<String> = vec!["research".into(), "coding".into()];
    let required: Vec<String> = vec!["research".into(), "web-search".into()];
    assert_eq!(capability_overlap(&agent, &required), 1);
}

#[test]
fn test_orchestration_subtask_assignment_and_completion() {
    let mut orchestrator = Orchestrator::new();
    orchestrator.register_agent(1, "research-agent".to_string(), vec!["research".into(), "web-search".into()]);
    orchestrator.register_agent(2, "coding-agent".to_string(), vec!["coding".into(), "testing".into()]);
    orchestrator.register_agent(3, "review-agent".to_string(), vec!["review".into(), "analysis".into()]);

    let plan = orchestrator.orchestrate("research the topic and write code").unwrap();
    assert_eq!(plan.subtasks.len(), 2);
    assert!(plan.dependencies.is_empty());
    for subtask in &plan.subtasks {
        assert!(subtask.assigned_agent.is_some());
    }

    let report = orchestrator.execute_plan(plan).unwrap();
    assert!(report.success, "all sub-tasks should complete: {}", report.summary);
    for subtask in &report.plan.subtasks {
        assert_eq!(subtask.status, SubTaskStatus::Completed);
    }
}

#[test]
fn test_orchestration_sequential_tasks_respect_dependencies() {
    let mut orchestrator = Orchestrator::new();
    orchestrator.register_agent(1, "research-agent".to_string(), vec!["research".into()]);
    orchestrator.register_agent(2, "coding-agent".to_string(), vec!["coding".into()]);

    let plan = orchestrator.orchestrate("research the topic then write code").unwrap();
    assert_eq!(plan.subtasks.len(), 2);
    assert!(plan.dependencies.contains(&(0, 1)));

    let report = orchestrator.execute_plan(plan).unwrap();
    assert!(report.success);
    assert_eq!(report.plan.subtasks[0].status, SubTaskStatus::Completed);
    assert_eq!(report.plan.subtasks[1].status, SubTaskStatus::Completed);
}

#[test]
fn test_orchestration_parallel_then_sequential() {
    let mut orchestrator = Orchestrator::new();
    orchestrator.register_agent(1, "research-agent".to_string(), vec!["research".into()]);
    orchestrator.register_agent(2, "coding-agent".to_string(), vec!["coding".into()]);
    orchestrator.register_agent(3, "review-agent".to_string(), vec!["review".into()]);

    let plan = orchestrator.orchestrate("research the topic and write code then review changes").unwrap();
    assert_eq!(plan.subtasks.len(), 3);

    let report = orchestrator.execute_plan(plan).unwrap();
    assert!(report.success, "all sub-tasks should complete: {}", report.summary);
    for subtask in &report.plan.subtasks {
        assert_eq!(subtask.status, SubTaskStatus::Completed);
    }
}

#[test]
fn orchestrated_dependencies_point_forward() {
    let o = make_orchestrator();
    let plan = o.orchestrate("research a and write b then review c and test d then deploy e").unwrap();
    assert_eq!(plan.subtasks.len(), 5);
    for &(a, b) in &plan.dependencies {
        assert!(a < b);
    }
    let order = topological_sort(plan.subtasks.len(), &plan.dependencies).unwrap();
    assert_eq!(order.len(), 5);
}

#[test]
fn summary_counts_failures_exactly() {
    let o = Orchestrator::new();
    let plan = o.orchestrate("research topic and write code").unwrap();
    let report = o.execute_plan(plan).unwrap();
    assert_eq!(report.summary, "0/2 sub-tasks completed; 2 failed.");
    let o = make_orchestrator();
    let plan = o.orchestrate("research topic").unwrap();
    let report = o.execute_plan(plan).unwrap();
    assert_eq!(report.summary, "All 1 sub-tasks completed successfully.");
}

#[test]
fn every_subtask_depends_on_the_whole_previous_group() {
    let o = make_orchestrator();
    let plan = o.orchestrate("a then b and c then d").unwrap();
    assert_eq!(plan.subtasks.len(), 4);
    assert_eq!(plan.dependencies, vec![(0, 1), (0, 2), (1, 3), (2, 3)]);
    let plan = o.orchestrate("a and b then c then d and e").unwrap();
    assert_eq!(plan.dependencies, vec![(0, 2), (1, 2), (2, 3), (2, 4)]);
}
