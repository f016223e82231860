use redis_nav::RedisType;
use redis_nav::RedisValue;
use redis_nav::config::ProtectedNamespace;
use redis_nav::config::ProtectionLevel;
use redis_nav::pipeline::RedisCommand;
use redis_nav::pipeline::UiMessage;
use redis_nav::viewmodel::DeleteDecision;
use redis_nav::viewmodel::Dialog;
use redis_nav::viewmodel::EditDecision;
use redis_nav::viewmodel::Focus;
use redis_nav::viewmodel::Status;
use redis_nav::viewmodel::ViewModel;

fn fresh_vm() -> ViewModel {
    ViewModel::new(vec![':'], false, vec![])
}

fn loaded_vm() -> ViewModel {
    // keys {"a:x": String, "a:y": List, "b": Hash} with delimiter ':'
    let mut vm = fresh_vm();
    let keys = vec![
        ("a:x".to_string(), RedisType::String),
        ("a:y".to_string(), RedisType::List),
        ("b".to_string(), RedisType::Hash),
    ];
    let follow = vm.handle_message(UiMessage::KeysLoaded(keys));
    assert!(follow.is_none());
    vm
}

#[test]
fn end_to_end_build_flatten_expand() {
    let mut vm = loaded_vm();
    // root: [a (folder), b (leaf, Hash)]
    assert_eq!(vm.tree_nodes.len(), 2);
    assert_eq!(vm.tree_nodes[0].name, "a");
    assert!(vm.tree_nodes[0].is_folder());
    assert_eq!(vm.tree_nodes[1].name, "b");
    assert!(!vm.tree_nodes[1].is_folder());
    // a's children: [x (String), y (List)]
    assert_eq!(vm.tree_nodes[0].children.len(), 2);
    assert_eq!(vm.tree_nodes[0].children[0].name, "x");
    assert_eq!(vm.tree_nodes[0].children[1].name, "y");
    // flattening with 'a' collapsed yields the two rows [a, b]
    assert_eq!(vm.tree_state.flattened.len(), 2);
    assert_eq!(vm.tree_state.flattened[0].name, "a");
    assert_eq!(vm.tree_state.flattened[1].name, "b");
    // first population selects row 0
    assert_eq!(vm.tree_state.selected, Some(0));
    assert!(matches!(vm.status, Status::LoadedKeys(3)));
    // expanding 'a' yields the four rows [a, x, y, b]
    let cmd = vm.expand_or_load();
    assert!(cmd.is_none());
    let names: Vec<&str> = vm.tree_state.flattened.iter().map(|r| r.name.as_str()).collect();
    assert_eq!(names, vec!["a", "x", "y", "b"]);
    assert_eq!(vm.tree_state.flattened[1].depth, 1);
    assert_eq!(vm.tree_state.flattened[2].depth, 1);
    assert_eq!(vm.tree_state.flattened[3].depth, 0);
    assert_eq!(vm.tree_state.flattened[1].full_key.as_deref(), Some("a:x"));
}

#[test]
fn expand_keeps_other_rows_and_flags() {
    let mut vm = loaded_vm();
    let before_b = vm.tree_state.flattened[1].name.clone();
    let _ = vm.expand_or_load();
    // only a's children were inserted, right after a; b is untouched
    assert_eq!(vm.tree_state.flattened[3].name, before_b);
    assert!(!vm.tree_state.flattened[3].expanded);
    assert!(vm.tree_state.flattened[0].expanded);
    // collapsing restores the two rows
    vm.collapse_selected();
    assert_eq!(vm.tree_state.flattened.len(), 2);
}

#[test]
fn selecting_leaf_loads_its_value() {
    let mut vm = loaded_vm();
    vm.tree_state.select_last();
    assert_eq!(vm.tree_state.selected, Some(1));
    match vm.expand_or_load() {
        Some(RedisCommand::GetValue { key }) => assert_eq!(key, "b"),
        _ => panic!("expected a value fetch"),
    }
    match vm.load_selected() {
        Some(RedisCommand::GetValue { key }) => assert_eq!(key, "b"),
        _ => panic!("expected a value fetch"),
    }
}

#[test]
fn navigation_clamps_to_bounds() {
    let mut vm = loaded_vm();
    vm.tree_state.select_next();
    assert_eq!(vm.tree_state.selected, Some(1));
    vm.tree_state.select_next();
    assert_eq!(vm.tree_state.selected, Some(1));
    vm.tree_state.select_previous();
    assert_eq!(vm.tree_state.selected, Some(0));
    vm.tree_state.select_previous();
    assert_eq!(vm.tree_state.selected, Some(0));
    vm.tree_state.select_last();
    assert_eq!(vm.tree_state.selected, Some(1));
    vm.tree_state.select_first();
    assert_eq!(vm.tree_state.selected, Some(0));
}

#[test]
fn selection_clamps_after_shrinking_rebuild() {
    let mut vm = loaded_vm();
    let _ = vm.expand_or_load();
    vm.tree_state.select_last();
    assert_eq!(vm.tree_state.selected, Some(3));
    // a rebuild with a single key shrinks the view; the index clamps
    let _ = vm.handle_message(UiMessage::KeysLoaded(vec![(
        "only".to_string(),
        RedisType::String,
    )]));
    assert_eq!(vm.tree_state.flattened.len(), 1);
    assert_eq!(vm.tree_state.selected, Some(0));
    // an empty rebuild clears the selection
    let _ = vm.handle_message(UiMessage::KeysLoaded(vec![]));
    assert_eq!(vm.tree_state.selected, None);
}

#[test]
fn value_loaded_replaces_selection_state() {
    let mut vm = loaded_vm();
    vm.tree_state.select_last(); // select the row addressing "b"
    vm.scroll_down(5);
    assert_eq!(vm.value_scroll, 5);
    let follow = vm.handle_message(UiMessage::ValueLoaded {
        key: "b".to_string(),
        value: RedisValue::Hash(vec![("f".to_string(), "v".to_string())]),
        ttl: 99,
        redis_type: RedisType::Hash,
    });
    assert!(follow.is_none());
    assert!(matches!(vm.selected_value, Some(RedisValue::Hash(_))));
    assert_eq!(vm.selected_ttl, Some(99));
    assert_eq!(vm.selected_type, Some(RedisType::Hash));
    assert_eq!(vm.value_scroll, 0);
    assert!(matches!(&vm.status, Status::LoadedValue(k) if k == "b"));
}

#[test]
fn stale_value_load_is_discarded() {
    // the fetch for "b" resolves after navigation moved to the folder row:
    // the result no longer matches the selected key and is dropped
    let mut vm = loaded_vm();
    assert_eq!(vm.tree_state.selected, Some(0));
    let follow = vm.handle_message(UiMessage::ValueLoaded {
        key: "b".to_string(),
        value: RedisValue::String("late".to_string()),
        ttl: 1,
        redis_type: RedisType::String,
    });
    assert!(follow.is_none());
    assert!(vm.selected_value.is_none());
    assert!(vm.selected_ttl.is_none());
    assert!(matches!(vm.status, Status::LoadedKeys(3)));
}

#[test]
fn delete_success_requests_rescan() {
    let mut vm = loaded_vm();
    let follow = vm.handle_message(UiMessage::DeleteSuccess("b".to_string()));
    match follow {
        Some(RedisCommand::ScanKeys { pattern }) => assert_eq!(pattern, "*"),
        _ => panic!("expected a rescan"),
    }
    assert!(matches!(&vm.status, Status::Deleted(k) if k == "b"));
    let follow = vm.handle_message(UiMessage::Error("oops".to_string()));
    assert!(follow.is_none());
    assert!(matches!(&vm.status, Status::Failure(e) if e == "oops"));
    let follow = vm.handle_message(UiMessage::WriteSuccess("b".to_string()));
    assert!(follow.is_none());
    assert!(matches!(&vm.status, Status::Saved(k) if k == "b"));
}

#[test]
fn edit_gate_precedence() {
    // read-only blocks first
    let mut vm = ViewModel::new(vec![':'], true, vec![]);
    assert!(matches!(vm.edit_decision(), EditDecision::ReadOnly));

    // no addressable selection
    vm.readonly = false;
    assert!(matches!(vm.edit_decision(), EditDecision::NoSelection));

    // protection beats the value check
    let mut vm = loaded_vm();
    vm.protected_namespaces = vec![ProtectedNamespace {
        prefix: "b".to_string(),
        level: ProtectionLevel::Block,
    }];
    vm.tree_state.select_last();
    vm.selected_value = Some(RedisValue::String("text".to_string()));
    match vm.edit_decision() {
        EditDecision::Protected(ns) => {
            assert_eq!(ns.prefix, "b");
            assert_eq!(ns.level, ProtectionLevel::Block);
        },
        _ => panic!("expected protection"),
    }

    // unprotected non-string values cannot be edited
    vm.protected_namespaces = vec![];
    vm.selected_value = Some(RedisValue::Hash(vec![]));
    assert!(matches!(vm.edit_decision(), EditDecision::NotAString));

    // unprotected string values open the editor
    vm.selected_value = Some(RedisValue::String("text".to_string()));
    match vm.edit_decision() {
        EditDecision::OpenEditor { key, current } => {
            assert_eq!(key, "b");
            assert_eq!(current, "text");
        },
        _ => panic!("expected the editor"),
    }
}

#[test]
fn delete_gate_precedence() {
    let vm = ViewModel::new(vec![':'], true, vec![]);
    assert!(matches!(vm.delete_decision(), DeleteDecision::ReadOnly));

    let mut vm = loaded_vm();
    vm.tree_state.select_last();
    match vm.delete_decision() {
        DeleteDecision::Confirm { key } => assert_eq!(key, "b"),
        _ => panic!("expected a confirmation"),
    }

    vm.protected_namespaces = vec![ProtectedNamespace {
        prefix: "b".to_string(),
        level: ProtectionLevel::Warn,
    }];
    assert!(matches!(vm.delete_decision(), DeleteDecision::Protected(_)));

    // a folder row has no key: nothing to delete
    vm.tree_state.select_first();
    assert!(matches!(vm.delete_decision(), DeleteDecision::NoSelection));
}

#[test]
fn confirm_dialog_yields_write() {
    let mut vm = loaded_vm();
    vm.current_dialog = Some(Dialog::DiffPreview {
        key: "b".to_string(),
        old_value: "old".to_string(),
        new_value: "new text".to_string(),
    });
    match vm.confirm_dialog() {
        Some(RedisCommand::SetValue { key, value }) => {
            assert_eq!(key, "b");
            assert_eq!(value, b"new text".to_vec());
        },
        _ => panic!("expected a write"),
    }
    assert!(vm.current_dialog.is_none());

    // in a read-only session the confirmation writes nothing
    vm.readonly = true;
    vm.current_dialog = Some(Dialog::DiffPreview {
        key: "b".to_string(),
        old_value: "old".to_string(),
        new_value: "new".to_string(),
    });
    assert!(vm.confirm_dialog().is_none());

    // other dialogs just close
    vm.current_dialog = Some(Dialog::Help);
    assert!(vm.confirm_dialog().is_none());
    vm.dismiss_dialog();
    assert!(vm.current_dialog.is_none());
}

#[test]
fn focus_scroll_and_quit_transitions() {
    let mut vm = fresh_vm();
    assert_eq!(vm.focus, Focus::Tree);
    vm.toggle_focus();
    assert_eq!(vm.focus, Focus::Value);
    vm.toggle_focus();
    assert_eq!(vm.focus, Focus::Tree);
    vm.scroll_down(10);
    vm.scroll_up(3);
    assert_eq!(vm.value_scroll, 7);
    vm.scroll_up(100);
    assert_eq!(vm.value_scroll, 0);
    vm.scroll_down(u16::MAX);
    vm.scroll_down(1);
    assert_eq!(vm.value_scroll, u16::MAX);
    vm.scroll_top();
    assert_eq!(vm.value_scroll, 0);
    let cmd = vm.request_rescan();
    assert!(matches!(cmd, RedisCommand::ScanKeys { pattern } if pattern == "*"));
    assert!(matches!(vm.status, Status::Rescanning));
    assert!(!vm.should_quit);
    vm.quit();
    assert!(vm.should_quit);
}
