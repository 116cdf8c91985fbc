use wiremux::interactive::{SerialFlowControl, SerialParity, SerialProfile, TerminalKey, TerminalKeyCode};
use wiremux::settings::{
    commit_settings_text, current_choice_index, handle_settings_key, open_settings_field_popup,
    settings_choice_labels, settings_field_value, settings_key_allowed, settings_saved, SettingsField,
    SettingsPopup, SettingsRow, SettingsAction, SettingsState, SettingsStep,
};
use wiremux::tui_state::{App, TuiAction};

fn test_serial_profile() -> SerialProfile {
    SerialProfile {
        port: "/dev/tty.usbmodem2101".to_string(),
        baud: 115_200,
        data_bits: 8,
        stop_bits: 1,
        parity: SerialParity::NoParity,
        flow_control: SerialFlowControl::NoFlowControl,
    }
}

fn key(code: TerminalKeyCode) -> TerminalKey {
    TerminalKey { code, control: false, alt: false, shift: false, super_key: false }
}

/// Handles a key the way the program does: panel afterwards, status,
/// profile applied.
struct Panel {
    settings: Option<SettingsState>,
    status: String,
    serial: SerialProfile,
    reconnect_requested: bool,
    saved: Vec<SerialProfile>,
}

impl Panel {
    fn new() -> Self {
        Panel {
            settings: Some(SettingsState::new(test_serial_profile())),
            status: String::new(),
            serial: test_serial_profile(),
            reconnect_requested: false,
            saved: Vec::new(),
        }
    }

    fn press(&mut self, code: TerminalKeyCode) {
        let settings = self.settings.take().expect("panel open");
        assert!(settings_key_allowed(&settings, key(code)));
        let mut step: SettingsStep = handle_settings_key(settings, key(code));
        if let Some(profile) = step.save.take() {
            self.saved.push(profile);
            step = settings_saved(step, "/tmp/wiremux-config.toml");
        }
        if let Some(status) = step.status {
            self.status = status;
        }
        if let Some(profile) = step.apply {
            self.serial = profile;
            self.reconnect_requested = true;
        }
        self.settings = step.settings;
    }
}

#[test]
fn ctrl_b_s_opens_settings_panel() {
    let mut app = App::new("diag.log");
    let ctrl_b = TerminalKey { code: TerminalKeyCode::Char('b'), control: true, alt: false, shift: false, super_key: false };
    assert!(app.handle_key(ctrl_b, false, false, false, false).is_empty());
    let actions = app.handle_key(key(TerminalKeyCode::Char('s')), false, false, false, false);

    assert_eq!(actions, vec![TuiAction::OpenSettings]);
    assert_eq!(app.status, "settings");
}

#[test]
fn settings_choice_apply_updates_serial_profile_and_reconnects() {
    let mut panel = Panel::new();

    for _ in 0..2 {
        panel.press(TerminalKeyCode::Down);
    }
    panel.press(TerminalKeyCode::Enter);
    panel.press(TerminalKeyCode::Up);
    panel.press(TerminalKeyCode::Enter);
    for _ in 0..4 {
        panel.press(TerminalKeyCode::Down);
    }
    panel.press(TerminalKeyCode::Enter);

    assert_eq!(panel.serial.data_bits, 7);
    assert!(panel.reconnect_requested);
    assert!(panel.settings.is_none());
}

#[test]
fn settings_rows_wrap_and_escape_closes_clean_panel() {
    let mut panel = Panel::new();
    panel.press(TerminalKeyCode::Up);
    assert_eq!(panel.settings.as_ref().unwrap().selected, 8);
    assert_eq!(panel.settings.as_ref().unwrap().selected_row(), SettingsRow::Action(SettingsAction::Discard));
    panel.press(TerminalKeyCode::Down);
    assert_eq!(panel.settings.as_ref().unwrap().selected, 0);
    panel.press(TerminalKeyCode::Esc);
    assert!(panel.settings.is_none());
    assert_eq!(panel.status, "settings closed");
}

#[test]
fn settings_text_popup_edits_port_and_baud() {
    let mut panel = Panel::new();
    panel.press(TerminalKeyCode::Enter);
    assert_eq!(
        panel.settings.as_ref().unwrap().popup,
        Some(SettingsPopup::TextInput { field: SettingsField::Port, value: "/dev/tty.usbmodem2101".to_string(), cursor: 21 })
    );
    for _ in 0..4 {
        panel.press(TerminalKeyCode::Backspace);
    }
    panel.press(TerminalKeyCode::Char('9'));
    panel.press(TerminalKeyCode::Left);
    panel.press(TerminalKeyCode::Char('8'));
    panel.press(TerminalKeyCode::Enter);
    assert_eq!(panel.status, "updated Serial Device");
    assert_eq!(panel.settings.as_ref().unwrap().draft.port, "/dev/tty.usbmodem89");

    panel.press(TerminalKeyCode::Down);
    panel.press(TerminalKeyCode::Enter);
    for _ in 0..6 {
        panel.press(TerminalKeyCode::Backspace);
    }
    panel.press(TerminalKeyCode::Enter);
    assert_eq!(
        panel.settings.as_ref().unwrap().popup,
        Some(SettingsPopup::Message("invalid baud value: ".to_string()))
    );
    panel.press(TerminalKeyCode::Esc);
    panel.press(TerminalKeyCode::Enter);
    for _ in 0..6 {
        panel.press(TerminalKeyCode::Backspace);
    }
    panel.press(TerminalKeyCode::Char('0'));
    panel.press(TerminalKeyCode::Enter);
    assert_eq!(
        panel.settings.as_ref().unwrap().popup,
        Some(SettingsPopup::Message("baud must be greater than 0".to_string()))
    );
}

#[test]
fn settings_dirty_escape_asks_then_saves_and_applies() {
    let mut panel = Panel::new();
    panel.press(TerminalKeyCode::Down);
    panel.press(TerminalKeyCode::Down);
    panel.press(TerminalKeyCode::Down);
    panel.press(TerminalKeyCode::Enter);
    panel.press(TerminalKeyCode::Down);
    panel.press(TerminalKeyCode::Char(' '));
    assert_eq!(panel.status, "updated Stop Bits");
    panel.press(TerminalKeyCode::Esc);
    assert_eq!(panel.settings.as_ref().unwrap().popup, Some(SettingsPopup::ConfirmExit { selected: 2 }));
    panel.press(TerminalKeyCode::Left);
    panel.press(TerminalKeyCode::Left);
    panel.press(TerminalKeyCode::Left);
    panel.press(TerminalKeyCode::Enter);
    assert_eq!(panel.saved.len(), 1);
    assert_eq!(panel.saved[0].stop_bits, 2);
    assert_eq!(panel.serial.stop_bits, 2);
    assert!(panel.reconnect_requested);
    assert!(panel.settings.is_none());
    assert_eq!(panel.status, "settings applied; reconnecting");
}

#[test]
fn settings_save_defaults_keeps_panel_with_message() {
    let mut panel = Panel::new();
    for _ in 0..7 {
        panel.press(TerminalKeyCode::Down);
    }
    panel.press(TerminalKeyCode::Enter);
    assert_eq!(panel.saved.len(), 1);
    assert_eq!(panel.status, "settings saved to /tmp/wiremux-config.toml");
    let settings = panel.settings.as_ref().unwrap();
    assert_eq!(settings.popup, Some(SettingsPopup::Message("settings saved".to_string())));
    assert!(!settings.is_dirty());
    panel.press(TerminalKeyCode::Char('x'));
    assert!(panel.settings.as_ref().unwrap().popup.is_some());
    panel.press(TerminalKeyCode::Enter);
    assert!(panel.settings.as_ref().unwrap().popup.is_none());
    panel.press(TerminalKeyCode::Down);
    panel.press(TerminalKeyCode::Enter);
    assert_eq!(panel.status, "settings discarded");
    assert!(panel.settings.is_none());
}

#[test]
fn settings_field_values_and_choices() {
    let profile = test_serial_profile();
    assert_eq!(settings_field_value(SettingsField::Baud, &profile), "115200");
    assert_eq!(settings_field_value(SettingsField::Parity, &profile), "none");
    assert_eq!(settings_choice_labels(SettingsField::DataBits), vec!["5", "6", "7", "8"]);
    assert_eq!(settings_choice_labels(SettingsField::FlowControl), vec!["none", "software", "hardware"]);
    assert!(settings_choice_labels(SettingsField::Port).is_empty());
    assert_eq!(current_choice_index(SettingsField::DataBits, &profile), 3);
    assert_eq!(current_choice_index(SettingsField::StopBits, &profile), 0);
    assert_eq!(
        open_settings_field_popup(SettingsField::Parity, &profile),
        SettingsPopup::ChoiceList { field: SettingsField::Parity, selected: 0 }
    );
}

#[test]
fn settings_commit_trims_port_and_rejects_empty() {
    let mut profile = test_serial_profile();
    assert_eq!(commit_settings_text(SettingsField::Port, "  /dev/ttyUSB0 ", &mut profile), Ok(()));
    assert_eq!(profile.port, "/dev/ttyUSB0");
    assert_eq!(commit_settings_text(SettingsField::Port, "   ", &mut profile), Err("port cannot be empty".to_string()));
    assert_eq!(commit_settings_text(SettingsField::Baud, " 921600 ", &mut profile), Ok(()));
    assert_eq!(profile.baud, 921_600);
    assert_eq!(
        commit_settings_text(SettingsField::Baud, "fast", &mut profile),
        Err("invalid baud value: fast".to_string())
    );
    assert_eq!(profile.baud, 921_600);
}

#[test]
fn settings_text_cursor_moves_by_bytes() {
    let mut state = SettingsState::new(test_serial_profile());
    state.popup = Some(SettingsPopup::TextInput { field: SettingsField::Port, value: "aé".to_string(), cursor: 3 });
    // The cursor sits after the two bytes of 'é': Backspace there would cut it.
    assert!(!settings_key_allowed(&state, key(TerminalKeyCode::Backspace)));
    let step = handle_settings_key(state, key(TerminalKeyCode::Left));
    let state = step.settings.unwrap();
    assert_eq!(state.popup, Some(SettingsPopup::TextInput { field: SettingsField::Port, value: "aé".to_string(), cursor: 2 }));
    assert!(!settings_key_allowed(&state, key(TerminalKeyCode::Char('x'))));
    let step = handle_settings_key(state, key(TerminalKeyCode::Left));
    let state = step.settings.unwrap();
    assert!(settings_key_allowed(&state, key(TerminalKeyCode::Char('x'))));
    let step = handle_settings_key(state, key(TerminalKeyCode::Char('é')));
    assert_eq!(
        step.settings.unwrap().popup,
        Some(SettingsPopup::TextInput { field: SettingsField::Port, value: "aéé".to_string(), cursor: 3 })
    );
}

#[test]
fn settings_typing_then_backspace_restores_text() {
    let mut state = SettingsState::new(test_serial_profile());
    state.popup = Some(SettingsPopup::TextInput { field: SettingsField::Port, value: "/dev/ttyé1".to_string(), cursor: 10 });
    let before = state.popup.clone();
    let step = handle_settings_key(state, key(TerminalKeyCode::Char('z')));
    let state = step.settings.unwrap();
    assert_eq!(
        state.popup,
        Some(SettingsPopup::TextInput { field: SettingsField::Port, value: "/dev/ttyéz1".to_string(), cursor: 11 })
    );
    assert!(settings_key_allowed(&state, key(TerminalKeyCode::Backspace)));
    let step = handle_settings_key(state, key(TerminalKeyCode::Backspace));
    assert_eq!(step.settings.unwrap().popup, before);
}
