use glow_station::history::History;
use glow_station::ui::{
    readout_due, AppState, EditField, InputMode, Key, KeyAction, Pane, Response, StepClass,
    StepSize, TecCommand,
};

#[test]
fn edit_field_labels_and_positions() {
    let fields = [
        (EditField::TSet, "Set Temp", StepClass::Temperature),
        (EditField::P, "P Gain", StepClass::Gain),
        (EditField::I, "I Gain", StepClass::Gain),
        (EditField::D, "D Gain", StepClass::Gain),
        (EditField::TMin, "T Min", StepClass::Limit),
        (EditField::TMax, "T Max", StepClass::Limit),
    ];
    for (i, (f, label, class)) in fields.iter().enumerate() {
        assert_eq!(f.label(), *label);
        assert_eq!(EditField::from_index(i), *f);
        assert_eq!(f.index(), i);
        assert_eq!(f.step_class(), *class);
    }
    assert_eq!(EditField::from_index(6), EditField::TSet);
    assert_eq!(EditField::from_index(usize::MAX), EditField::TSet);
}

#[test]
fn navigation_wraps_around() {
    let mut s = AppState::new();
    assert_eq!(s.selected(), 0);
    assert!(matches!(s.handle_key_input(Key::Up), KeyAction::Nothing));
    assert_eq!(s.selected(), 5);
    assert_eq!(s.edit_field(), EditField::TMax);
    s.handle_key_input(Key::Down);
    assert_eq!(s.selected(), 0);
    s.handle_key_input(Key::Down);
    s.handle_key_input(Key::Down);
    assert_eq!(s.edit_field(), EditField::I);
    for _ in 0..6 {
        s.handle_key_input(Key::Down);
    }
    assert_eq!(s.edit_field(), EditField::I);
}

#[test]
fn arrows_and_signs_adjust_the_selected_field() {
    let mut s = AppState::new();
    s.handle_key_input(Key::Down);
    assert!(matches!(s.handle_key_input(Key::Right), KeyAction::Increment(EditField::P)));
    assert!(matches!(s.handle_key_input(Key::Char('+')), KeyAction::Increment(EditField::P)));
    assert!(matches!(s.handle_key_input(Key::Char('=')), KeyAction::Increment(EditField::P)));
    assert!(matches!(s.handle_key_input(Key::Left), KeyAction::Decrement(EditField::P)));
    assert!(matches!(s.handle_key_input(Key::Char('-')), KeyAction::Decrement(EditField::P)));
    assert!(matches!(s.handle_key_input(Key::Char('_')), KeyAction::Decrement(EditField::P)));
}

#[test]
fn number_keys_choose_the_step() {
    let mut s = AppState::new();
    assert_eq!(s.temp_step(), StepSize::Half);
    s.redrawn();
    s.handle_key_input(Key::Char('1'));
    assert_eq!(s.temp_step(), StepSize::Tenth);
    assert_eq!(s.status_message().map(|m| m.as_str()), Some("Step: 0.1°C"));
    assert!(s.needs_redraw());
    s.handle_key_input(Key::Char('3'));
    assert_eq!(s.temp_step(), StepSize::One);
    assert_eq!(s.status_message().map(|m| m.as_str()), Some("Step: 1.0°C"));
    s.handle_key_input(Key::Char('5'));
    assert_eq!(s.temp_step(), StepSize::Five);
    s.handle_key_input(Key::Char('2'));
    assert_eq!(s.temp_step(), StepSize::Half);
    assert_eq!(s.status_message().map(|m| m.as_str()), Some("Step: 0.5°C"));
    s.handle_key_input(Key::Char('4'));
    assert_eq!(s.temp_step(), StepSize::Half);
}

#[test]
fn editing_commits_float_literals_only() {
    let mut s = AppState::new();
    s.handle_key_input(Key::Char('e'));
    assert_eq!(s.input_mode(), InputMode::Editing);
    for c in "27.5x".chars() {
        s.handle_key_input(Key::Char(c));
    }
    s.handle_key_input(Key::Backspace);
    assert_eq!(s.edit_text(), "27.5");
    match s.handle_key_input(Key::Enter) {
        KeyAction::Commit(f, text) => {
            assert_eq!(f, EditField::TSet);
            assert_eq!(text, "27.5");
        }
        other => panic!("unexpected {:?}", other),
    }
    assert_eq!(s.input_mode(), InputMode::Normal);
    assert_eq!(s.edit_text(), "");

    s.handle_key_input(Key::Enter);
    s.handle_key_input(Key::Char('a'));
    assert!(matches!(s.handle_key_input(Key::Enter), KeyAction::Nothing));
    assert_eq!(s.status_message().map(|m| m.as_str()), Some("Invalid value"));
    assert_eq!(s.input_mode(), InputMode::Normal);
}

#[test]
fn escape_discards_the_edit() {
    let mut s = AppState::new();
    s.handle_key_input(Key::Enter);
    s.handle_key_input(Key::Char('1'));
    s.handle_key_input(Key::Esc);
    assert_eq!(s.input_mode(), InputMode::Normal);
    assert_eq!(s.edit_text(), "");
    assert_eq!(s.temp_step(), StepSize::Half);
    s.handle_key_input(Key::Enter);
    s.handle_key_input(Key::Backspace);
    assert_eq!(s.edit_text(), "");
}

#[test]
fn q_quits_in_either_mode() {
    let mut s = AppState::new();
    assert!(matches!(s.handle_key_press(Key::Char('q')), KeyAction::Quit));
    s.handle_key_press(Key::Enter);
    assert!(matches!(s.handle_key_press(Key::Char('q')), KeyAction::Quit));
    assert_eq!(s.edit_text(), "");
    // the plain handler leaves q alone in navigation and types it when editing
    let mut t = AppState::new();
    assert!(matches!(t.handle_key_input(Key::Char('q')), KeyAction::Nothing));
    t.handle_key_input(Key::Enter);
    t.handle_key_input(Key::Char('q'));
    assert_eq!(t.edit_text(), "q");
}

#[test]
fn space_toggles_the_tec_once_sent() {
    let mut s = AppState::new();
    assert!(matches!(s.handle_key_input(Key::Char(' ')), KeyAction::Toggle(TecCommand::Enable)));
    assert!(!s.tec_enabled());
    s.confirm_tec_toggle();
    assert!(s.tec_enabled());
    assert_eq!(s.status_message().map(|m| m.as_str()), Some("TEC ENABLED"));
    assert!(matches!(s.handle_key_input(Key::Char(' ')), KeyAction::Toggle(TecCommand::Disable)));
    s.confirm_tec_toggle();
    assert!(!s.tec_enabled());
    assert_eq!(s.status_message().map(|m| m.as_str()), Some("TEC DISABLED"));
    assert_eq!(TecCommand::Enable.device_command(), "A");
    assert_eq!(TecCommand::Disable.device_command(), "a");
    assert_eq!(TecCommand::Enable.done_message(), "TEC ENABLED");
}

#[test]
fn configuration_is_debounced() {
    let mut s = AppState::new();
    assert!(!s.config_due(1000));
    s.apply_configuration();
    assert!(s.pending_config());
    assert!(!s.config_due(149));
    assert!(s.config_due(150));
    s.config_sent();
    assert!(!s.config_due(1000));
}

#[test]
fn worker_messages_reach_the_status_line() {
    let mut s = AppState::new();
    s.show_error("Read error: timeout");
    assert_eq!(s.status_message().map(|m| m.as_str()), Some("Error: Read error: timeout"));
    s.show_status("Config updated");
    assert_eq!(s.status_message().map(|m| m.as_str()), Some("Config updated"));
    s.redrawn();
    assert!(!s.needs_redraw());
    s.request_redraw();
    assert!(s.needs_redraw());
    assert!(!readout_due(499));
    assert!(readout_due(500));
}

#[test]
fn history_keeps_the_newest_items() {
    let mut h: History<u32> = History::with_capacity(3);
    assert!(h.is_empty());
    assert_eq!(h.back(), None);
    for k in 1..=5u32 {
        h.push(k);
        assert_eq!(h.back(), Some(&k));
        assert!(h.len() <= 3);
    }
    assert_eq!(h.items().iter().copied().collect::<Vec<_>>(), vec![3, 4, 5]);
    let mut none: History<u32> = History::with_capacity(0);
    none.push(1);
    assert!(none.is_empty());
}

#[test]
fn a_applies_the_configuration() {
    let mut s = AppState::new();
    assert!(!s.pending_config());
    s.redrawn();
    assert!(matches!(s.handle_key_press(Key::Char('a')), KeyAction::Apply));
    assert!(s.pending_config());
    assert!(s.needs_redraw());
    assert!(!s.config_due(149));
    assert!(s.config_due(150));
    s.config_sent();
    assert!(!s.pending_config());
    // while typing, `a` is a character of the value
    s.handle_key_press(Key::Enter);
    assert!(matches!(s.handle_key_press(Key::Char('a')), KeyAction::Nothing));
    assert!(!s.pending_config());
    assert_eq!(s.edit_text(), "a");
}

#[test]
fn tab_switches_panes() {
    let mut s = AppState::new();
    assert_eq!(s.focus(), Pane::Parameters);
    s.handle_key_press(Key::Tab);
    assert_eq!(s.focus(), Pane::Charts);
    assert_eq!(s.selected(), 0);
    s.handle_key_press(Key::Tab);
    assert_eq!(s.focus(), Pane::Parameters);
    s.handle_key_press(Key::Enter);
    s.handle_key_press(Key::Tab);
    assert_eq!(s.focus(), Pane::Parameters);
}

#[test]
fn toggle_command_follows_the_known_state() {
    let mut s = AppState::new();
    assert_eq!(s.toggle_command(), TecCommand::Enable);
    s.confirm_tec_toggle();
    assert_eq!(s.toggle_command(), TecCommand::Disable);
    // toggling also works while a value is being typed
    s.handle_key_press(Key::Enter);
    s.confirm_tec_toggle();
    assert!(!s.tec_enabled());
    assert_eq!(s.input_mode(), InputMode::Editing);
    assert_eq!(s.status_message().map(|m| m.as_str()), Some("TEC DISABLED"));
}

#[test]
fn changing_a_gain_or_limit_marks_the_configuration_pending() {
    let mut s = AppState::new();
    assert!(matches!(s.handle_key_input(Key::Right), KeyAction::Increment(EditField::TSet)));
    assert!(!s.pending_config());
    assert!(matches!(s.handle_key_input(Key::Char('-')), KeyAction::Decrement(EditField::TSet)));
    assert!(!s.pending_config());

    s.handle_key_input(Key::Down);
    assert!(matches!(s.handle_key_input(Key::Left), KeyAction::Decrement(EditField::P)));
    assert!(s.pending_config());
    s.config_sent();
    assert!(matches!(s.handle_key_input(Key::Char('+')), KeyAction::Increment(EditField::P)));
    assert!(s.pending_config());
    s.config_sent();

    s.handle_key_input(Key::Up);
    s.handle_key_input(Key::Up);
    assert_eq!(s.edit_field(), EditField::TMax);
    s.handle_key_input(Key::Enter);
    for c in "40".chars() {
        s.handle_key_input(Key::Char(c));
    }
    assert!(!s.pending_config());
    assert!(matches!(s.handle_key_input(Key::Enter), KeyAction::Commit(EditField::TMax, _)));
    assert!(s.pending_config());
    assert_eq!(s.input_mode(), InputMode::Normal);
    s.config_sent();

    s.handle_key_input(Key::Enter);
    s.handle_key_input(Key::Char('x'));
    assert!(matches!(s.handle_key_input(Key::Enter), KeyAction::Nothing));
    assert!(!s.pending_config());

    s.handle_key_input(Key::Down);
    assert_eq!(s.edit_field(), EditField::TSet);
    s.handle_key_input(Key::Char('e'));
    s.handle_key_input(Key::Char('3'));
    assert!(matches!(s.handle_key_input(Key::Enter), KeyAction::Commit(EditField::TSet, _)));
    assert!(!s.pending_config());
}

#[test]
fn responses_are_taken_in_order() {
    let mut s = AppState::new();
    let mut h: History<u32> = History::with_capacity(2);
    s.redrawn();
    s.record_response(&mut h, Response::Readout(1));
    assert!(s.needs_redraw());
    assert_eq!(s.status_message(), None);
    s.record_response(&mut h, Response::Error("Config error: timeout".to_string()));
    s.record_response(&mut h, Response::Readout(2));
    assert_eq!(s.status_message().map(|m| m.as_str()), Some("Error: Config error: timeout"));
    s.record_response(&mut h, Response::Status("Config updated".to_string()));
    s.record_response(&mut h, Response::Readout(3));
    assert_eq!(s.status_message().map(|m| m.as_str()), Some("Config updated"));
    assert_eq!(h.items().iter().copied().collect::<Vec<_>>(), vec![2, 3]);
    assert_eq!(s.input_mode(), InputMode::Normal);
    assert_eq!(s.selected(), 0);
    assert!(!s.pending_config());
}
