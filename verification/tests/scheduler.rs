//! Task bookkeeping, the due/dispatch decisions, and the agent stores.

use token_ledger::{Agent, AgentStore, Schedule, Task, TaskAction};
use token_ledger::agents::{
    create_agent, get_all_agents, get_outputs, get_user_agents, store_output,
};
use token_ledger::tasks::{
    classify_task, create_task, create_task_complete, delete_task, get_task, get_tasks,
    get_tasks_by_type, get_token_tasks_by_type, task_due, update_task,
};

fn sample_task(id: u64, action: &str) -> Task {
    Task {
        id,
        data: "{}".to_string(),
        frequency: 60,
        last_run: 0,
        url: None,
        action_type: action.to_string(),
        enabled: true,
    }
}

#[test]
fn create_task_rejects_duplicate_ids() {
    let mut tasks: Vec<Task> = Vec::new();
    assert!(create_task(&mut tasks, 7, "alpha".to_string(), 60));
    assert!(!create_task(&mut tasks, 7, "beta".to_string(), 30));
    assert_eq!(tasks.len(), 1);
    assert_eq!(tasks[0].data, "alpha");
    assert_eq!(tasks[0].action_type, "custom");
    assert!(tasks[0].enabled);
}

#[test]
fn create_task_complete_assigns_next_id() {
    let mut tasks: Vec<Task> = Vec::new();
    let first = create_task_complete(
        &mut tasks,
        0,
        "a".to_string(),
        0,
        None,
        "token_init".to_string(),
    );
    assert_eq!(first, Some(1));
    let second = create_task_complete(
        &mut tasks,
        0,
        "b".to_string(),
        0,
        Some("https://example.invalid".to_string()),
        "token_mint".to_string(),
    );
    assert_eq!(second, Some(2));
    let explicit = create_task_complete(
        &mut tasks,
        9,
        "c".to_string(),
        0,
        None,
        "custom".to_string(),
    );
    assert_eq!(explicit, Some(9));
    let clash = create_task_complete(
        &mut tasks,
        9,
        "d".to_string(),
        0,
        None,
        "custom".to_string(),
    );
    assert_eq!(clash, None);
    assert_eq!(tasks.len(), 3);
}

#[test]
fn update_task_rewrites_supplied_fields() {
    let mut tasks = vec![sample_task(1, "custom"), sample_task(2, "custom")];
    assert!(update_task(
        &mut tasks,
        2,
        Some("new data".to_string()),
        Some(300),
        None,
        Some("http_request".to_string()),
        Some(false),
    ));
    assert_eq!(tasks[1].data, "new data");
    assert_eq!(tasks[1].frequency, 300);
    assert_eq!(tasks[1].action_type, "http_request");
    assert!(!tasks[1].enabled);
    assert!(tasks[1].url.is_none());
    // the untouched task is unchanged
    assert_eq!(tasks[0].data, "{}");
    // an unknown id changes nothing
    assert!(!update_task(&mut tasks, 5, None, None, None, None, None));
}

#[test]
fn delete_task_removes_one_entry() {
    let mut tasks = vec![sample_task(1, "custom"), sample_task(2, "custom")];
    assert!(delete_task(&mut tasks, 1));
    assert_eq!(tasks.len(), 1);
    assert_eq!(tasks[0].id, 2);
    assert!(!delete_task(&mut tasks, 1));
    assert_eq!(tasks.len(), 1);
}

#[test]
fn get_task_and_get_tasks_copy_entries() {
    let mut tasks = vec![sample_task(1, "custom")];
    tasks.push(sample_task(4, "token_burn"));
    let found = get_task(&tasks, 4).unwrap();
    assert_eq!(found.action_type, "token_burn");
    assert!(get_task(&tasks, 99).is_none());
    let all = get_tasks(&tasks);
    assert_eq!(all.len(), 2);
    assert_eq!(all[0].id, 1);
    assert_eq!(all[1].id, 4);
}

#[test]
fn tasks_filter_by_action_type() {
    let tasks = vec![
        sample_task(1, "token_mint"),
        sample_task(2, "custom"),
        sample_task(3, "token_mint"),
    ];
    let mints = get_tasks_by_type(&tasks, &"token_mint".to_string());
    assert_eq!(mints.iter().map(|t| t.id).collect::<Vec<_>>(), vec![1, 3]);
    let mints2 = get_token_tasks_by_type(&tasks, &"mint".to_string());
    assert_eq!(mints2.iter().map(|t| t.id).collect::<Vec<_>>(), vec![1, 3]);
    assert!(get_tasks_by_type(&tasks, &"token_burn".to_string()).is_empty());
}

#[test]
fn task_due_follows_period_and_enablement() {
    let mut t = sample_task(1, "custom");
    // never run: due at once
    assert!(task_due(&t, 0));
    t.last_run = 100;
    t.frequency = 60;
    assert!(!task_due(&t, 159));
    assert!(task_due(&t, 160));
    t.enabled = false;
    assert!(!task_due(&t, 160));
}

#[test]
fn task_actions_dispatch_by_name() {
    assert!(matches!(classify_task(&"token_init".to_string()), TaskAction::TokenInit));
    assert!(matches!(classify_task(&"token_transfer".to_string()), TaskAction::TokenTransfer));
    assert!(matches!(classify_task(&"token_mint".to_string()), TaskAction::TokenMint));
    assert!(matches!(classify_task(&"token_burn".to_string()), TaskAction::TokenBurn));
    assert!(matches!(classify_task(&"http_request".to_string()), TaskAction::HttpRequest));
    assert!(matches!(classify_task(&"token_weird".to_string()), TaskAction::Custom));
    assert!(matches!(classify_task(&"custom".to_string()), TaskAction::Custom));
}

#[test]
fn agent_ownership_check() {
    let agent = Agent::new(vec![1, 2, 3], 1_700_000_000);
    assert!(agent.owned_by(&vec![1, 2, 3]));
    assert!(!agent.owned_by(&vec![1, 2]));
    assert!(agent.active);
    assert!(agent.tasks.is_empty());
}

#[test]
fn create_agent_assigns_dense_ids() {
    let mut store = AgentStore::new();
    let msg = create_agent(
        &mut store,
        "first".to_string(),
        "a worker".to_string(),
        Schedule::Interval { interval_seconds: 60 },
        1_000,
        "do things".to_string(),
        vec![1],
    );
    assert_eq!(msg, "agent created successfully");
    create_agent(
        &mut store,
        "second".to_string(),
        "another".to_string(),
        Schedule::Cron { expression: "* * * * *".to_string() },
        2_000,
        "do more".to_string(),
        vec![1],
    );
    create_agent(
        &mut store,
        "third".to_string(),
        "foreign".to_string(),
        Schedule::Interval { interval_seconds: 5 },
        3_000,
        "other owner".to_string(),
        vec![2],
    );
    let all = get_all_agents(&store);
    assert_eq!(all.len(), 3);
    assert_eq!(all.iter().map(|p| p.0).collect::<Vec<_>>(), vec![0, 1, 2]);
    assert_eq!(all[0].1.name, "first");
    let mine = get_user_agents(&store, &vec![1]);
    assert_eq!(mine.iter().map(|c| c.agent_id).collect::<Vec<_>>(), vec![0, 1]);
    let theirs = get_user_agents(&store, &vec![2]);
    assert_eq!(theirs.iter().map(|c| c.name.as_str()).collect::<Vec<_>>(), vec!["third"]);
    assert!(get_user_agents(&store, &vec![9]).is_empty());
}

#[test]
fn outputs_are_stored_under_their_digest() {
    let mut store = AgentStore::new();
    create_agent(
        &mut store,
        "keeper".to_string(),
        "keeps outputs".to_string(),
        Schedule::Interval { interval_seconds: 60 },
        0,
        "keep".to_string(),
        vec![1],
    );
    let msg = store_output(&mut store, "hello".to_string(), 0);
    assert_eq!(msg, "Output Stored");
    // the key is the SHA-256 digest of the text, in lowercase hex
    let digest = "2cf24dba5fb0a30e26e83b2ac5b9e29e1b161e5c1fa7425e73043362938b9824".to_string();
    assert_eq!(get_outputs(&store, &digest), Some("hello".to_string()));
    assert_eq!(get_outputs(&store, &"hello".to_string()), None);
    // the digest is recorded once on the agent, even when stored twice
    store_output(&mut store, "hello".to_string(), 0);
    let all = get_all_agents(&store);
    assert_eq!(all[0].1.outputs, vec![digest.clone()]);
    // an unknown agent id stores the output but records nothing
    store_output(&mut store, "other".to_string(), 99);
    let all = get_all_agents(&store);
    assert_eq!(all[0].1.outputs.len(), 1);
}
