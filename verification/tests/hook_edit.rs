use jevx::error::JevxError;
use jevx::hook_config::hook_commands;
use jevx::hook_edit::{
    generated_hooks, generated_shape, merge_config, strip_config, ConfigShape, EventFacts,
    GroupFacts, GroupSource, HandlerFacts,
};

fn handler(index: usize, command: &str) -> HandlerFacts {
    HandlerFacts {
        index,
        handler_type: Some("command".to_owned()),
        command: Some(command.to_owned()),
    }
}

fn group(index: usize, handlers: Vec<HandlerFacts>) -> GroupFacts {
    GroupFacts {
        source: GroupSource::Existing(index),
        handlers: Some(handlers),
    }
}

fn event(name: &str, groups: Vec<GroupFacts>) -> EventFacts {
    EventFacts {
        name: name.to_owned(),
        groups: Some(groups),
    }
}

fn generated(executable: &str) -> ConfigShape {
    let commands = hook_commands(executable, "/events", "/state", false, false);
    generated_shape(&generated_hooks(&commands))
}

fn message(error: JevxError) -> String {
    match error {
        JevxError::InvalidInput(m) => m,
        other => panic!("unexpected error {:?}", other),
    }
}

fn find<'a>(events: &'a [EventFacts], name: &str) -> &'a EventFacts {
    events.iter().find(|e| e.name == name).expect("event")
}

#[test]
fn merge_keeps_custom_handlers_and_replaces_jevx_handlers() {
    let existing = ConfigShape::Hooks(vec![event(
        "UserPromptSubmit",
        vec![group(
            0,
            vec![
                handler(0, "custom"),
                handler(1, "/old/jevx hooks shadow --output /old/log"),
            ],
        )],
    )]);
    let merged = merge_config(&existing, &generated("/new/jevx")).expect("merge");
    let prompt = find(&merged, "UserPromptSubmit");
    let groups = prompt.groups.as_ref().expect("groups");
    assert_eq!(groups.len(), 3);
    assert_eq!(groups[0].source, GroupSource::Existing(0));
    let kept = groups[0].handlers.as_ref().expect("handlers");
    assert_eq!(kept.len(), 1);
    assert_eq!(kept[0].index, 0);
    assert_eq!(kept[0].command.as_deref(), Some("custom"));
    assert_eq!(groups[1].source, GroupSource::Generated(0));
    assert!(groups[1].handlers.as_ref().expect("handlers")[0]
        .command
        .as_deref()
        .expect("command")
        .contains("/new/jevx"));
    assert_eq!(merged.len(), 6);
}

#[test]
fn merge_rejects_invalid_hooks_shape() {
    let error = merge_config(&ConfigShape::HooksNotObject, &generated("/jevx")).expect_err("invalid hooks");
    assert!(message(error).contains("hooks must be an object"));

    let invalid_event = ConfigShape::Hooks(vec![EventFacts { name: "UserPromptSubmit".to_owned(), groups: None }]);
    let error = merge_config(&invalid_event, &generated("/jevx")).expect_err("invalid event");
    assert_eq!(message(error), "hooks.UserPromptSubmit must be an array");

    let invalid_generated = ConfigShape::Hooks(vec![EventFacts { name: "UserPromptSubmit".to_owned(), groups: None }]);
    let error = merge_config(&ConfigShape::NoHooks, &invalid_generated).expect_err("invalid generated");
    assert!(message(error).contains("generated hook groups"));

    let error = merge_config(&ConfigShape::NotObject, &generated("/jevx")).expect_err("root");
    assert!(message(error).contains("root must be an object"));
}

#[test]
fn uninstall_removes_only_jevx_handlers_and_keeps_custom_hooks() {
    let existing = ConfigShape::Hooks(vec![
        event(
            "UserPromptSubmit",
            vec![group(
                0,
                vec![
                    handler(0, "custom"),
                    handler(1, "'/bin/jevx' hooks shadow --output '/log' --jevx-managed"),
                ],
            )],
        ),
        event(
            "PreCompact",
            vec![group(
                0,
                vec![handler(0, "'/bin/jevx' hooks compact-assist --state-dir '/s' --jevx-managed")],
            )],
        ),
        event("Stop", vec![group(0, vec![handler(0, "notify")])]),
    ]);
    let (events, removed) = strip_config(&existing).expect("uninstall");
    assert_eq!(removed, 2);
    let events = events.expect("events");
    assert_eq!(events.len(), 2);
    let prompt = find(&events, "UserPromptSubmit").groups.as_ref().expect("groups");
    assert_eq!(prompt.len(), 1);
    let kept = prompt[0].handlers.as_ref().expect("handlers");
    assert_eq!(kept.len(), 1);
    assert_eq!(kept[0].command.as_deref(), Some("custom"));
    assert!(events.iter().all(|e| e.name != "PreCompact"));
    let stop = find(&events, "Stop").groups.as_ref().expect("groups");
    assert_eq!(stop[0].handlers.as_ref().expect("handlers")[0].command.as_deref(), Some("notify"));

    let (again, removed_again) = strip_config(&ConfigShape::Hooks(events)).expect("again");
    assert_eq!(removed_again, 0);
    assert_eq!(again.expect("events").len(), 2);
}

#[test]
fn uninstall_round_trips_install_and_handles_missing_or_invalid_config() {
    let installed = merge_config(&ConfigShape::NoHooks, &generated("/bin/jevx")).expect("install");
    let (events, removed) = strip_config(&ConfigShape::Hooks(installed)).expect("uninstall");
    assert_eq!(removed, 7);
    assert_eq!(events.expect("events").len(), 0);

    let error = strip_config(&ConfigShape::HooksNotObject).expect_err("invalid");
    assert!(message(error).contains("hooks must be an object"));
    let error = strip_config(&ConfigShape::NotObject).expect_err("root");
    assert!(message(error).contains("root must be an object"));

    let foreign = ConfigShape::Hooks(vec![
        EventFacts { name: "Stop".to_owned(), groups: None },
        event(
            "UserPromptSubmit",
            vec![group(0, vec![handler(0, "/bin/jevx hooks shadow --jevx-managed")])],
        ),
    ]);
    let (events, removed) = strip_config(&foreign).expect("foreign event shape");
    assert_eq!(removed, 1);
    let events = events.expect("events");
    assert_eq!(events.len(), 1);
    assert!(events[0].groups.is_none());

    let (none, removed) = strip_config(&ConfigShape::NoHooks).expect("no hooks");
    assert!(none.is_none());
    assert_eq!(removed, 0);
}

#[test]
fn groups_of_other_shapes_are_kept() {
    let existing = ConfigShape::Hooks(vec![event(
        "Stop",
        vec![
            GroupFacts { source: GroupSource::Existing(0), handlers: None },
            group(1, vec![]),
        ],
    )]);
    let (events, removed) = strip_config(&existing).expect("strip");
    assert_eq!(removed, 0);
    assert_eq!(events.expect("events")[0].groups.as_ref().expect("groups").len(), 2);
    let merged = merge_config(&existing, &generated("/jevx")).expect("merge");
    let stop = find(&merged, "Stop").groups.as_ref().expect("groups");
    assert_eq!(stop.len(), 2);
    assert_eq!(stop[0].source, GroupSource::Existing(0));
    assert_eq!(stop[1].source, GroupSource::Generated(0));
}

#[test]
fn install_then_uninstall_gives_back_the_user_configuration() {
    let original = vec![
        event("UserPromptSubmit", vec![group(0, vec![handler(0, "custom")])]),
        event("Stop", vec![group(0, vec![handler(0, "notify"), handler(1, "log")])]),
    ];
    let installed = merge_config(&ConfigShape::Hooks(original.clone()), &generated("/bin/jevx")).expect("install");
    let (events, removed) = strip_config(&ConfigShape::Hooks(installed)).expect("uninstall");
    assert_eq!(removed, 7);
    let events = events.expect("events");
    assert_eq!(events.len(), original.len());
    for (back, before) in events.iter().zip(original.iter()) {
        assert_eq!(back.name, before.name);
        let (back_groups, before_groups) = (back.groups.as_ref().expect("groups"), before.groups.as_ref().expect("groups"));
        assert_eq!(back_groups.len(), before_groups.len());
        for (g, h) in back_groups.iter().zip(before_groups.iter()) {
            assert_eq!(g.source, h.source);
            let indices = |f: &GroupFacts| f.handlers.as_ref().expect("handlers").iter().map(|x| x.index).collect::<Vec<_>>();
            assert_eq!(indices(g), indices(h));
        }
    }
}
