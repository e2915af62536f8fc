use quest_packet::effect::Effect;
use quest_packet::packet::QuestPacket;
use quest_packet::plan::{QuestPlan, TaskDef, VisitRule};
use quest_packet::registry::Item;
use quest_packet::status::Status;

fn notifications(effects: &[Effect]) -> Vec<String> {
    let mut messages = Vec::new();
    for effect in effects {
        if let Effect::Notify(message) = effect {
            messages.push(message.clone());
        }
    }
    messages
}

fn two_task_plan() -> QuestPlan {
    QuestPlan {
        items: vec![
            Item::new("docs", "https://docs.example", "Read the docs", "webpage"),
            Item::new("forum", "https://forum.example", "Say hello", "forum"),
        ],
        tasks: vec![
            TaskDef::new("tour", "read", "Read the docs"),
            TaskDef::new("tour", "greet", "Say hello on the forum"),
        ],
        rules: vec![
            VisitRule::new("docs.example", "tour", "read", "Docs read"),
            VisitRule::new("forum.example", "tour", "greet", "Hello said"),
        ],
        start_message: String::from("Tour started"),
    }
}

#[test]
fn visit_google_plan_content() {
    let plan = QuestPlan::visit_google();
    assert_eq!(
        plan.items,
        vec![Item::new("google-item", "https://google.com", "Visit Google", "webpage")]
    );
    assert_eq!(plan.tasks, vec![TaskDef::new("quest-1", "task-1", "Visit https://google.com")]);
    assert_eq!(
        plan.rules,
        vec![VisitRule::new(
            "google.com",
            "quest-1",
            "task-1",
            "Rust Task Complete: Google visited!"
        )]
    );
    assert_eq!(plan.start_message, "Rust Quest Started: Visit Google!");
}

#[test]
fn new_packet_has_nothing_registered() {
    let packet = QuestPacket::new(QuestPlan::visit_google());
    assert_eq!(packet.registry().len(), 0);
    assert_eq!(packet.tasks().len(), 0);
    assert_eq!(*packet.plan(), QuestPlan::visit_google());
}

#[test]
fn init_registers_the_plan_and_announces_the_start() {
    let mut packet = QuestPacket::new(QuestPlan::visit_google());
    let effects = packet.init();
    assert_eq!(
        effects,
        vec![
            Effect::RegisterItem(Item::new(
                "google-item",
                "https://google.com",
                "Visit Google",
                "webpage"
            )),
            Effect::RegisterTask(TaskDef::new("quest-1", "task-1", "Visit https://google.com")),
            Effect::Notify(String::from("Rust Quest Started: Visit Google!")),
        ]
    );
    assert_eq!(packet.registry().len(), 1);
    assert_eq!(
        packet.registry().lookup("google-item"),
        Some(&Item::new("google-item", "https://google.com", "Visit Google", "webpage"))
    );
    assert_eq!(packet.tasks().len(), 1);
    assert_eq!(packet.tasks().status_of("quest-1", "task-1"), Some(Status::Pending));
}

#[test]
fn init_leaves_every_task_pending() {
    let mut packet = QuestPacket::new(two_task_plan());
    let effects = packet.init();
    assert_eq!(effects.len(), 5);
    assert_eq!(notifications(&effects), vec![String::from("Tour started")]);
    assert_eq!(packet.registry().len(), 2);
    assert!(packet.registry().lookup("docs").is_some());
    assert!(packet.registry().lookup("forum").is_some());
    assert_eq!(packet.tasks().len(), 2);
    assert_eq!(packet.tasks().status_of("tour", "read"), Some(Status::Pending));
    assert_eq!(packet.tasks().status_of("tour", "greet"), Some(Status::Pending));
    assert!(!packet.tasks().is_quest_complete("tour"));
}

#[test]
fn end_to_end_visit_google() {
    let mut packet = QuestPacket::new(QuestPlan::visit_google());
    packet.init();
    let item = packet.registry().lookup("google-item").expect("init registered the item");
    assert_eq!(item.url, "https://google.com");
    assert_eq!(packet.registry().len(), 1);
    assert_eq!(packet.tasks().status_of("quest-1", "task-1"), Some(Status::Pending));

    let effects = packet.on_visit("https://google.com/search?q=x");
    assert_eq!(packet.tasks().status_of("quest-1", "task-1"), Some(Status::Completed));
    assert_eq!(
        notifications(&effects),
        vec![String::from("Rust Task Complete: Google visited!")]
    );
    assert_eq!(
        effects,
        vec![
            Effect::UpdateTask {
                quest_id: String::from("quest-1"),
                task_id: String::from("task-1"),
                status: Status::Completed,
            },
            Effect::Notify(String::from("Rust Task Complete: Google visited!")),
        ]
    );
    assert!(packet.tasks().is_quest_complete("quest-1"));

    let effects = packet.on_visit("https://example.com");
    assert!(effects.is_empty());
    assert_eq!(packet.tasks().status_of("quest-1", "task-1"), Some(Status::Completed));
    assert_eq!(packet.tasks().len(), 1);
    assert_eq!(packet.registry().len(), 1);
}

#[test]
fn on_visit_ignores_a_url_that_matches_no_rule() {
    let mut packet = QuestPacket::new(QuestPlan::visit_google());
    packet.init();
    for url in ["https://example.com", "", "https://google.co", "google,com"] {
        let effects = packet.on_visit(url);
        assert!(effects.is_empty(), "url {:?}", url);
        assert_eq!(packet.tasks().status_of("quest-1", "task-1"), Some(Status::Pending));
    }
}

#[test]
fn on_visit_matches_by_containment() {
    for url in [
        "google.com",
        "http://google.com/",
        "https://www.google.com/maps?x=1",
        "https://example.com/redirect?to=google.com",
    ] {
        let mut packet = QuestPacket::new(QuestPlan::visit_google());
        packet.init();
        let effects = packet.on_visit(url);
        assert_eq!(effects.len(), 2, "url {:?}", url);
        assert_eq!(packet.tasks().status_of("quest-1", "task-1"), Some(Status::Completed));
    }
}

#[test]
fn on_visit_repeats_the_notification_on_a_second_match() {
    let mut packet = QuestPacket::new(QuestPlan::visit_google());
    packet.init();
    let first = packet.on_visit("https://google.com");
    let second = packet.on_visit("https://google.com");
    assert_eq!(first, second);
    assert_eq!(packet.tasks().status_of("quest-1", "task-1"), Some(Status::Completed));
}

#[test]
fn on_visit_fires_each_rule_that_matches() {
    let mut packet = QuestPacket::new(two_task_plan());
    packet.init();
    let effects = packet.on_visit("https://docs.example/intro");
    assert_eq!(notifications(&effects), vec![String::from("Docs read")]);
    assert_eq!(packet.tasks().status_of("tour", "read"), Some(Status::Completed));
    assert_eq!(packet.tasks().status_of("tour", "greet"), Some(Status::Pending));
    assert!(!packet.tasks().is_quest_complete("tour"));

    let effects = packet.on_visit("https://forum.example/?from=docs.example");
    assert_eq!(
        effects,
        vec![
            Effect::UpdateTask {
                quest_id: String::from("tour"),
                task_id: String::from("read"),
                status: Status::Completed,
            },
            Effect::Notify(String::from("Docs read")),
            Effect::UpdateTask {
                quest_id: String::from("tour"),
                task_id: String::from("greet"),
                status: Status::Completed,
            },
            Effect::Notify(String::from("Hello said")),
        ]
    );
    assert!(packet.tasks().is_quest_complete("tour"));
}

#[test]
fn on_visit_goes_on_after_a_rule_whose_task_is_missing() {
    let plan = QuestPlan {
        items: vec![],
        tasks: vec![TaskDef::new("tour", "greet", "Say hello")],
        rules: vec![
            VisitRule::new("example", "tour", "no-such-task", "Lost"),
            VisitRule::new("forum.example", "tour", "greet", "Hello said"),
        ],
        start_message: String::from("Tour started"),
    };
    let mut packet = QuestPacket::new(plan);
    packet.init();
    let effects = packet.on_visit("https://forum.example");
    assert_eq!(notifications(&effects), vec![String::from("Lost"), String::from("Hello said")]);
    assert_eq!(packet.tasks().len(), 1);
    assert_eq!(packet.tasks().status_of("tour", "no-such-task"), None);
    assert_eq!(packet.tasks().status_of("tour", "greet"), Some(Status::Completed));
}

#[test]
fn on_visit_before_init_creates_no_task() {
    let mut packet = QuestPacket::new(QuestPlan::visit_google());
    let effects = packet.on_visit("https://google.com");
    assert_eq!(effects.len(), 2);
    assert_eq!(packet.tasks().len(), 0);
    assert_eq!(packet.tasks().status_of("quest-1", "task-1"), None);
    assert_eq!(packet.registry().len(), 0);
}

#[test]
fn init_again_resets_the_tasks_and_announces_again() {
    let mut packet = QuestPacket::new(two_task_plan());
    let first = packet.init();
    packet.on_visit("https://docs.example");
    assert_eq!(packet.tasks().status_of("tour", "read"), Some(Status::Completed));
    let second = packet.init();
    assert_eq!(first, second);
    assert_eq!(packet.registry().len(), 2);
    assert_eq!(packet.tasks().len(), 2);
    assert_eq!(packet.tasks().status_of("tour", "read"), Some(Status::Pending));
    assert_eq!(packet.tasks().status_of("tour", "greet"), Some(Status::Pending));
}

#[test]
fn init_keeps_the_later_of_two_entries_with_one_id() {
    let plan = QuestPlan {
        items: vec![
            Item::new("page", "https://old.example", "Old", "webpage"),
            Item::new("page", "https://new.example", "New", "webpage"),
        ],
        tasks: vec![TaskDef::new("q", "t", "old"), TaskDef::new("q", "t", "new")],
        rules: vec![],
        start_message: String::new(),
    };
    let mut packet = QuestPacket::new(plan);
    let effects = packet.init();
    assert_eq!(effects.len(), 5);
    assert_eq!(packet.registry().len(), 1);
    assert_eq!(
        packet.registry().lookup("page"),
        Some(&Item::new("page", "https://new.example", "New", "webpage"))
    );
    assert_eq!(packet.tasks().len(), 1);
    assert_eq!(packet.tasks().get("q", "t").map(|t| t.description.as_str()), Some("new"));
}

#[test]
fn empty_plan_only_announces() {
    let plan = QuestPlan {
        items: vec![],
        tasks: vec![],
        rules: vec![],
        start_message: String::from("Nothing to do"),
    };
    let mut packet = QuestPacket::new(plan);
    assert_eq!(packet.init(), vec![Effect::Notify(String::from("Nothing to do"))]);
    assert!(packet.on_visit("https://google.com").is_empty());
    assert_eq!(packet.registry().len(), 0);
    assert_eq!(packet.tasks().len(), 0);
}

#[test]
fn rule_with_an_empty_pattern_fires_on_every_url() {
    let plan = QuestPlan {
        items: vec![],
        tasks: vec![TaskDef::new("q", "t", "go anywhere")],
        rules: vec![VisitRule::new("", "q", "t", "Went somewhere")],
        start_message: String::new(),
    };
    let mut packet = QuestPacket::new(plan);
    packet.init();
    let effects = packet.on_visit("");
    assert_eq!(notifications(&effects), vec![String::from("Went somewhere")]);
    assert!(packet.tasks().is_quest_complete("q"));
}
