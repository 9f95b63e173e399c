use serial_plotter::backend::{on_gui_event, BackendAction, BackendState};
use serial_plotter::baud::Baud;
use serial_plotter::main_window::gui_event_types::{GuiEvent, SerialSettings};
use serial_plotter::main_window::log_settings_pane::LogSettingsPane;
use serial_plotter::main_window::plot_settings_pane::PlotSettingsPane;
use serial_plotter::main_window::process_pane_info;
use serial_plotter::main_window::serial_settings_pane::{SerialSettingsPane, SerialSettingsPaneInfo};

fn settings() -> SerialSettings {
    SerialSettings {
        port_name: "COM3".to_string(),
        baud_rate: Baud::BAUD9600,
    }
}

#[test]
fn new_panes_are_blank() {
    let log = LogSettingsPane::new();
    assert_eq!(log.text1, "");
    assert_eq!(log.text2, "");
    let plot = PlotSettingsPane::new();
    assert_eq!(plot.text1, "");
    assert_eq!(plot.text2, "");
    let serial = SerialSettingsPane::new();
    assert_eq!(serial.selected_port_name_idx, 0);
    assert_eq!(serial.selected_baud_rate_idx, 0);
}

#[test]
fn default_pane_info() {
    let info = SerialSettingsPaneInfo::default();
    assert_eq!(info.selected_port_name, None);
    assert_eq!(info.selected_baud_rate, Baud::BAUD115200);
    assert!(!info.start_clicked);
    assert!(!info.stop_clicked);
}

#[test]
fn port_choices_with_and_without_ports() {
    let labels = vec!["COM1 ".to_string(), "COM3 Arduino".to_string()];
    assert_eq!(
        SerialSettingsPane::port_choices(Some(&labels)),
        vec!["COM1 ", "COM3 Arduino"]
    );
    assert_eq!(
        SerialSettingsPane::port_choices(None),
        vec!["No Ports Available"]
    );
    assert_eq!(
        SerialSettingsPane::port_choices(Some(&Vec::new())),
        Vec::<String>::new()
    );
}

#[test]
fn pane_info_reports_the_choices() {
    let names = vec!["COM1".to_string(), "COM3".to_string()];
    let mut pane = SerialSettingsPane::new();
    let info = pane.pane_info(Some(&names), false, false);
    assert_eq!(info.selected_port_name, Some("COM1".to_string()));
    assert_eq!(info.selected_baud_rate, Baud::BAUD110);
    assert!(!info.start_clicked && !info.stop_clicked);

    pane.selected_port_name_idx = 1;
    pane.selected_baud_rate_idx = 11;
    let info = pane.pane_info(Some(&names), true, false);
    assert_eq!(info.selected_port_name, Some("COM3".to_string()));
    assert_eq!(info.selected_baud_rate, Baud::BAUD115200);
    assert!(info.start_clicked && !info.stop_clicked);

    pane.selected_baud_rate_idx = 13;
    let info = pane.pane_info(None, false, true);
    assert_eq!(info.selected_port_name, None);
    assert_eq!(info.selected_baud_rate, Baud::BAUD256000);
    assert!(!info.start_clicked && info.stop_clicked);
}

#[test]
fn pane_info_without_clicks_sends_nothing() {
    let info = SerialSettingsPaneInfo {
        selected_port_name: Some("COM3".to_string()),
        selected_baud_rate: Baud::BAUD9600,
        start_clicked: false,
        stop_clicked: false,
    };
    assert!(process_pane_info(info).is_empty());
    assert!(process_pane_info(SerialSettingsPaneInfo::default()).is_empty());
}

#[test]
fn start_click_sends_the_settings() {
    let info = SerialSettingsPaneInfo {
        selected_port_name: Some("COM3".to_string()),
        selected_baud_rate: Baud::BAUD9600,
        start_clicked: true,
        stop_clicked: false,
    };
    let events = process_pane_info(info);
    assert_eq!(events.len(), 1);
    match &events[0] {
        GuiEvent::StartSerial(settings) => {
            assert_eq!(settings.port_name, "COM3");
            assert_eq!(settings.baud_rate, Baud::BAUD9600);
        }
        GuiEvent::StopSerial => panic!("a start was expected"),
    }
}

#[test]
fn stop_click_sends_a_stop() {
    let info = SerialSettingsPaneInfo {
        selected_port_name: None,
        selected_baud_rate: Baud::BAUD9600,
        start_clicked: false,
        stop_clicked: true,
    };
    let events = process_pane_info(info);
    assert_eq!(events.len(), 1);
    assert!(matches!(events[0], GuiEvent::StopSerial));
}

#[test]
fn both_clicks_send_start_then_stop() {
    let info = SerialSettingsPaneInfo {
        selected_port_name: Some("COM8".to_string()),
        selected_baud_rate: Baud::BAUD300,
        start_clicked: true,
        stop_clicked: true,
    };
    let events = process_pane_info(info);
    assert_eq!(events.len(), 2);
    assert!(matches!(&events[0], GuiEvent::StartSerial(s) if s.port_name == "COM8"));
    assert!(matches!(events[1], GuiEvent::StopSerial));
}

#[test]
fn backend_opens_on_start_and_closes_on_stop() {
    let (state, action) = on_gui_event(BackendState::Idle, GuiEvent::StartSerial(settings()));
    assert_eq!(state, BackendState::Running);
    match action {
        BackendAction::Open(s) => {
            assert_eq!(s.port_name, "COM3");
            assert_eq!(s.baud_rate, Baud::BAUD9600);
        }
        _ => panic!("the line should be opened"),
    }
    let (state, action) = on_gui_event(state, GuiEvent::StopSerial);
    assert_eq!(state, BackendState::Idle);
    assert!(matches!(action, BackendAction::Close));
}

#[test]
fn backend_passes_over_requests_out_of_turn() {
    let (state, action) = on_gui_event(BackendState::Idle, GuiEvent::StopSerial);
    assert_eq!(state, BackendState::Idle);
    assert!(matches!(action, BackendAction::Proceed));
    let (state, action) = on_gui_event(BackendState::Running, GuiEvent::StartSerial(settings()));
    assert_eq!(state, BackendState::Running);
    assert!(matches!(action, BackendAction::Proceed));
}
