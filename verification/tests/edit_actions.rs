use demo_stage::edit::{
    action_label, action_menu, action_prompt, converted_step, delete_marked, do_split,
    flatten_newlines, insert_after, next_cursor, replace_in_types, replace_marked,
    set_marked_keys, set_type_text, unflatten_newlines, EditAction,
};
use demo_stage::edit::{insert_question, inserted_step, number_answer, text_answer, InsertKind};
use demo_stage::edit::EditAction::{
    ChangeDuration, Delete, EditKey, EditReveal, Insert, Keep, ReplaceInTypes, SplitType, ToWait,
    WaitForQuiet, WaitForScreen, WaitForStdout,
};
use demo_stage::model::Step;

fn typed(text: &str) -> Step {
    Step::Type { text: text.to_string(), human_salt: true }
}

fn text_of(step: &Step) -> Option<&str> {
    match step {
        Step::Type { text, .. } => Some(text.as_str()),
        _ => None,
    }
}

#[test]
fn do_split_splits_on_newline() {
    let mut timeline = vec![
        Step::Type {
            text: "line1\nline2\nline3".into(),
            human_salt: true,
        },
        Step::Wait { duration_ms: 100 },
    ];
    do_split(&mut timeline, 0, "\n", true, "line1\nline2\nline3").unwrap();
    // Original replaced + 3 new parts inserted
    assert!(timeline.len() > 2);
    // Verify all parts are Type steps
    for step in timeline.iter().take(timeline.len() - 1) {
        assert!(matches!(step, Step::Type { .. }));
    }
}

#[test]
fn do_split_splits_on_space() {
    let mut timeline = vec![Step::Type {
        text: "a b c".into(),
        human_salt: false,
    }];
    do_split(&mut timeline, 0, " ", false, "a b c").unwrap();
    // "a b c" split by " " gives ["a ", "b ", "c"] → 3 parts
    assert!(timeline.len() >= 3);
}

#[test]
fn do_split_delimiter_not_found() {
    let mut timeline = vec![Step::Type {
        text: "hello".into(),
        human_salt: true,
    }];
    do_split(&mut timeline, 0, "XYZ", true, "hello").unwrap();
    // No split happens, original stays
    assert_eq!(timeline.len(), 1);
    if let Step::Type { text, .. } = &timeline[0] {
        assert_eq!(text, "hello");
    }
}

#[test]
fn do_split_empty_parts_ignored() {
    let mut timeline = vec![Step::Type {
        text: "a,,b".into(),
        human_salt: true,
    }];
    do_split(&mut timeline, 0, ",", true, "a,,b").unwrap();
    // "a,,b" split by "," gives ["a", "", "b"] → empty part filtered → 2 steps
    assert!(timeline.len() >= 2);
}

#[test]
fn do_split_single_char_delim() {
    let mut timeline = vec![Step::Type {
        text: "one|two|three".into(),
        human_salt: true,
    }];
    do_split(&mut timeline, 0, "|", true, "one|two|three").unwrap();
    assert!(timeline.len() >= 3);
}

#[test]
fn do_split_preserves_human_salt() {
    let mut timeline = vec![Step::Type {
        text: "x y".into(),
        human_salt: true,
    }];
    do_split(&mut timeline, 0, " ", true, "x y").unwrap();
    for step in &timeline {
        if let Step::Type { human_salt, .. } = step {
            assert!(*human_salt);
        }
    }
}

#[test]
fn do_split_single_part_no_split() {
    let mut timeline = vec![Step::Type {
        text: "nodelimiter".into(),
        human_salt: true,
    }];
    do_split(&mut timeline, 0, "|||", true, "nodelimiter").unwrap();
    assert_eq!(timeline.len(), 1);
}

#[test]
fn do_split_preserves_delimiter_in_parts() {
    let mut timeline = vec![Step::Type {
        text: "a,b,c".into(),
        human_salt: false,
    }];
    do_split(&mut timeline, 0, ",", false, "a,b,c").unwrap();
    // "a,b,c" split by "," → ["a,", "b,", "c"] → 3 steps
    assert!(timeline.len() >= 3);
}

#[test]
fn do_split_exact_parts_and_neighbours_kept() {
    let mut timeline = vec![
        Step::Wait { duration_ms: 1 },
        typed("a,,b,"),
        Step::Wait { duration_ms: 2 },
    ];
    let n = do_split(&mut timeline, 1, ",", true, "a,,b,").unwrap();
    assert_eq!(n, Some(3));
    let texts: Vec<&str> = timeline.iter().filter_map(text_of).collect();
    assert_eq!(texts, vec!["a,", ",", "b,"]);
    assert_eq!(texts.concat(), "a,,b,");
    assert!(matches!(timeline[0], Step::Wait { duration_ms: 1 }));
    assert!(matches!(timeline[4], Step::Wait { duration_ms: 2 }));
}

#[test]
fn do_split_multichar_delimiter_and_empty_delimiter() {
    let mut timeline = vec![typed("x::y::z")];
    assert_eq!(do_split(&mut timeline, 0, "::", true, "x::y::z").unwrap(), Some(3));
    let texts: Vec<&str> = timeline.iter().filter_map(text_of).collect();
    assert_eq!(texts, vec!["x::", "y::", "z"]);

    let mut timeline = vec![typed("abc")];
    assert_eq!(do_split(&mut timeline, 0, "", true, "abc").unwrap(), Some(3));
    let texts: Vec<&str> = timeline.iter().filter_map(text_of).collect();
    assert_eq!(texts, vec!["a", "b", "c"]);
}

#[test]
fn action_menu_for_single_and_groups() {
    assert_eq!(
        action_menu(1, true, false, false, false),
        vec![Keep, WaitForQuiet, WaitForScreen, WaitForStdout, ChangeDuration, Delete, SplitType, Insert]
    );
    assert_eq!(
        action_menu(3, true, false, false, true),
        vec![Keep, ToWait, WaitForQuiet, WaitForScreen, WaitForStdout, ChangeDuration, Delete, ReplaceInTypes]
    );
    assert_eq!(
        action_menu(1, false, false, true, true),
        vec![Keep, ToWait, EditReveal, WaitForQuiet, WaitForScreen, WaitForStdout, ChangeDuration, Delete, Insert]
    );
    assert_eq!(
        action_menu(2, false, true, false, false),
        vec![Keep, WaitForQuiet, WaitForScreen, WaitForStdout, ChangeDuration, Delete, EditKey]
    );
    assert_eq!(action_label(ReplaceInTypes), "Find & replace in texts");
    assert_eq!(action_prompt(1), "Action:");
    assert_eq!(action_prompt(4), "Action for the 4 marked steps:");
}

#[test]
fn conversions_replace_every_marked_step() {
    let mut timeline = vec![typed("a"), Step::Wait { duration_ms: 5 }, typed("b")];
    let step = converted_step(EditAction::WaitForScreen, 0, "ready").unwrap();
    replace_marked(&mut timeline, &[0, 2], &step);
    assert!(matches!(&timeline[0], Step::WaitForScreen { pattern, timeout_ms: None } if pattern == "ready"));
    assert!(matches!(timeline[1], Step::Wait { duration_ms: 5 }));
    assert!(matches!(&timeline[2], Step::WaitForScreen { pattern, .. } if pattern == "ready"));
    assert!(matches!(
        converted_step(EditAction::ChangeDuration, 700, ""),
        Some(Step::Wait { duration_ms: 700 })
    ));
    assert!(converted_step(EditAction::Delete, 1, "x").is_none());
}

#[test]
fn keys_are_trimmed_and_empty_is_refused() {
    let mut timeline = vec![
        Step::Keypress { key: "a".into() },
        typed("t"),
        Step::Keypress { key: "b".into() },
    ];
    set_marked_keys(&mut timeline, &[0, 1], "  enter ").unwrap();
    assert!(matches!(&timeline[0], Step::Keypress { key } if key == "enter"));
    assert!(matches!(&timeline[1], Step::Type { text, .. } if text == "t"));
    assert!(matches!(&timeline[2], Step::Keypress { key } if key == "b"));
    let err = set_marked_keys(&mut timeline, &[2], "   ").unwrap_err();
    assert_eq!(err.message(), "key name cannot be empty");
    assert!(matches!(&timeline[2], Step::Keypress { key } if key == "b"));
}

#[test]
fn insert_delete_and_cursor() {
    let mut timeline = vec![typed("a"), typed("b"), typed("c"), typed("d")];
    let cursor = insert_after(&mut timeline, 1, Step::Terminate);
    assert_eq!(cursor, 2);
    assert!(matches!(timeline[2], Step::Terminate));
    delete_marked(&mut timeline, &[0, 2, 4]);
    let texts: Vec<&str> = timeline.iter().filter_map(text_of).collect();
    assert_eq!(texts, vec!["b", "c"]);
    assert_eq!(timeline.len(), 2);
    assert_eq!(next_cursor(4, None, 2), 1);
    assert_eq!(next_cursor(0, Some(1), 2), 1);
    assert_eq!(next_cursor(0, None, 2), 0);
}

#[test]
fn find_and_replace_counts_changed_steps() {
    let mut timeline = vec![typed("foo bar foo"), typed("baz"), typed("foofoo"), typed("foo")];
    let changed = replace_in_types(&mut timeline, &[0, 1, 2], "foo", "qu");
    assert_eq!(changed, 2);
    let texts: Vec<&str> = timeline.iter().filter_map(text_of).collect();
    assert_eq!(texts, vec!["qu bar qu", "baz", "ququ", "foo"]);
    let changed = replace_in_types(&mut timeline, &[0], "aa", "b");
    assert_eq!(changed, 0);
}

#[test]
fn edited_text_turns_arrows_back_into_newlines() {
    assert_eq!(flatten_newlines("a\nb"), "a↵b");
    assert_eq!(unflatten_newlines("a↵b↵"), "a\nb\n");
    let mut timeline = vec![Step::Type { text: "x".into(), human_salt: false }, Step::Terminate];
    assert!(set_type_text(&mut timeline, 0, "l1↵l2"));
    assert!(matches!(&timeline[0], Step::Type { text, human_salt: false } if text == "l1\nl2"));
    assert!(!set_type_text(&mut timeline, 1, "zzz"));
    assert!(matches!(timeline[1], Step::Terminate));
}

#[test]
fn number_answers_are_trimmed_and_checked() {
    assert_eq!(number_answer(" 250 ").unwrap(), 250);
    assert_eq!(number_answer("+7").unwrap(), 7);
    assert_eq!(number_answer("12ms").unwrap_err().message(), "invalid number: 12ms");
    assert_eq!(number_answer("").unwrap_err().message(), "invalid number: ");
}

#[test]
fn text_answers_must_not_be_blank() {
    assert_eq!(text_answer("  ctrl+c ").unwrap(), "ctrl+c");
    assert_eq!(text_answer("   ").unwrap_err().message(), "cannot be empty");
}

#[test]
fn insert_questions_and_defaults() {
    assert_eq!(insert_question(InsertKind::Wait), ("duration_ms:", Some(200)));
    assert_eq!(insert_question(InsertKind::WaitForQuiet), ("quiet_ms:", Some(500)));
    assert_eq!(insert_question(InsertKind::Caption), ("caption text:", None));
}

#[test]
fn inserted_steps_are_built_from_answers() {
    assert!(matches!(
        inserted_step(InsertKind::Wait, "300").unwrap(),
        Step::Wait { duration_ms: 300 }
    ));
    assert!(matches!(
        inserted_step(InsertKind::WaitForQuiet, "500").unwrap(),
        Step::WaitForQuiet { quiet_ms: 500, max_ms: None }
    ));
    match inserted_step(InsertKind::Type, "  ls -la\n").unwrap() {
        Step::Type { text, human_salt } => {
            assert_eq!(text, "  ls -la\n");
            assert!(human_salt);
        }
        other => panic!("unexpected {other:?}"),
    }
    match inserted_step(InsertKind::Keypress, " enter ").unwrap() {
        Step::Keypress { key } => assert_eq!(key, "enter"),
        other => panic!("unexpected {other:?}"),
    }
    match inserted_step(InsertKind::WaitForScreen, "done").unwrap() {
        Step::WaitForScreen { pattern, timeout_ms } => {
            assert_eq!(pattern, "done");
            assert_eq!(timeout_ms, None);
        }
        other => panic!("unexpected {other:?}"),
    }
    assert_eq!(
        inserted_step(InsertKind::Wait, "soon").unwrap_err().message(),
        "invalid number: soon"
    );
    assert_eq!(
        inserted_step(InsertKind::Caption, " ").unwrap_err().message(),
        "cannot be empty"
    );
}

#[test]
fn flattened_text_reads_back_unchanged() {
    let text = "echo a\necho b\n";
    assert_eq!(unflatten_newlines(&flatten_newlines(text)), text);
}
