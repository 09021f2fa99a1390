use soundcore_a3956::modules::{
    CategoryId, DeviceInfoSettingHandler, EasyChatStatusSettingHandler, ModuleCollection,
    PacketHandler, Setting, SettingHandler, SettingHandlerError, SettingId, SoundcoreDeviceBuilder,
};
use soundcore_a3956::packets::{A3956StateUpdatePacket, EasyChatEvent, ParseError};
use soundcore_a3956::state::A3956State;
use soundcore_a3956::structures::{EasyChatStatus, TlvRecords};
use soundcore_a3956::text::hex_string;

const CAPTURED_STATE_BODY: &str = "010101010201010302005d0402005c050530352e3531060530352e35310711313230333030374631443232333431450008020054090530312e35340a01310b02fefe0c2000000000000000000000000000000000000000000000000000000000000000000d02060f0f02020611020f0f1302040415020000170201010e02060f1002030612020f0f140205041602000018020101190201022a01011a01ff1b030841001c0101235c0000000000000000000000000000000000000000000000000000000000000000000000000000000000000000000000000000000000000000000000000000000000000000000000000000000000000000000000000000000000000000240300000025020501260200002703005a002906007f1d0f61702c030000012e01633001033101003202000133060001299f936a3428030152b8fe3f332b8845aaf1123f01000040bf665e174673684140010000804000c06a46f2d24d3e3501ff360201014401003a0102";

fn captured_state() -> A3956State {
    let body: Vec<u8> = (0..CAPTURED_STATE_BODY.len())
        .step_by(2)
        .map(|i| u8::from_str_radix(&CAPTURED_STATE_BODY[i..i + 2], 16).unwrap())
        .collect();
    let (_, packet) = A3956StateUpdatePacket::take(&body).unwrap();
    A3956State::new(packet)
}

/// A message catalogue for the tests.
fn english(message: &str) -> String {
    match message {
        "easy-chat-active-yes" => "Yes".to_owned(),
        "easy-chat-active-no" => "No".to_owned(),
        other => panic!("no message {other}"),
    }
}

fn information(value: &str) -> Option<Setting> {
    Some(Setting::Information { value: value.to_owned(), translated_value: value.to_owned() })
}

#[test]
fn new_state_keeps_records_and_starts_idle() {
    let records = TlvRecords(vec![(0x03, vec![0x00, 0x10]), (0x99, vec![0x01])]);
    let state = A3956State::new(A3956StateUpdatePacket { records: records.clone() });
    assert_eq!(state.raw_state, records);
    assert_eq!(state.easy_chat_status, EasyChatStatus { is_active: false });
    assert_eq!(state.info.battery_left, 0x10);
}

#[test]
fn device_reports_captured_state_settings() {
    let state = captured_state();
    let handler = DeviceInfoSettingHandler;
    assert_eq!(handler.get(&state, SettingId::SerialNumber), information("1203007F1D22341E"));
    assert_eq!(handler.get(&state, SettingId::FirmwareVersionLeft), information("05.51"));
    assert_eq!(handler.get(&state, SettingId::FirmwareVersionRight), information("05.51"));
    assert_eq!(handler.get(&state, SettingId::BatteryLevelLeft), information("93%"));
    assert_eq!(handler.get(&state, SettingId::BatteryLevelRight), information("92%"));
    assert_eq!(
        EasyChatStatusSettingHandler.get(&state, SettingId::EasyChatActive, english),
        Some(Setting::Information {
            value: "Idle".to_owned(),
            translated_value: "No".to_owned(),
        })
    );
}

#[test]
fn battery_percent_text() {
    let mut state = captured_state();
    for (level, text) in [(0u8, "0%"), (7, "7%"), (10, "10%"), (99, "99%"), (100, "100%"), (255, "255%")] {
        state.info.battery_left = level;
        assert_eq!(DeviceInfoSettingHandler.get(&state, SettingId::BatteryLevelLeft), information(text));
    }
}

#[test]
fn handlers_ignore_other_settings_and_refuse_changes() {
    let mut state = captured_state();
    let before = state.clone();
    assert_eq!(DeviceInfoSettingHandler.get(&state, SettingId::EasyChatActive), None);
    assert_eq!(EasyChatStatusSettingHandler.get(&state, SettingId::SerialNumber, english), None);
    assert_eq!(
        DeviceInfoSettingHandler.set(&mut state, SettingId::SerialNumber),
        Err(SettingHandlerError::ReadOnly)
    );
    assert_eq!(
        EasyChatStatusSettingHandler.set(&mut state, SettingId::EasyChatActive),
        Err(SettingHandlerError::ReadOnly)
    );
    assert_eq!(state, before);
}

#[test]
fn settings_lists() {
    assert_eq!(
        DeviceInfoSettingHandler.settings(),
        vec![
            SettingId::BatteryLevelLeft,
            SettingId::BatteryLevelRight,
            SettingId::FirmwareVersionLeft,
            SettingId::FirmwareVersionRight,
            SettingId::SerialNumber,
        ]
    );
    assert_eq!(EasyChatStatusSettingHandler.settings(), vec![SettingId::EasyChatActive]);
}

#[test]
fn easy_chat_events_update_the_status() {
    let mut state = captured_state();
    assert_eq!(state.handle_easy_chat_packet(&[0x00, 0x01]), Ok(true));
    assert!(state.easy_chat_status.is_active);
    assert_eq!(
        EasyChatStatusSettingHandler.get(&state, SettingId::EasyChatActive, english),
        Some(Setting::Information {
            value: "Active".to_owned(),
            translated_value: "Yes".to_owned(),
        })
    );
    // the same event again changes nothing
    assert_eq!(state.handle_easy_chat_packet(&[0x00, 0x01]), Ok(false));
    assert!(state.easy_chat_status.is_active);
    assert!(!state.apply_easy_chat_event(EasyChatEvent { is_active: true }));
    assert!(state.apply_easy_chat_event(EasyChatEvent { is_active: false }));
    assert!(!state.easy_chat_status.is_active);
}

#[test]
fn short_easy_chat_packet_leaves_state_alone() {
    let mut state = captured_state();
    let before = state.clone();
    assert_eq!(state.handle_easy_chat_packet(&[0x00]), Err(ParseError::UnexpectedEndOfInput));
    assert_eq!(state, before);
}

#[test]
fn hex_string_is_two_lower_case_digits_per_byte() {
    assert_eq!(hex_string(&[]), "");
    assert_eq!(hex_string(&[0x00, 0x0f, 0xab, 0x5d, 0xff]), "000fab5dff");
}

#[test]
fn module_registration() {
    let mut modules = ModuleCollection::new();
    modules.add_a3956_device_info();
    assert_eq!(
        modules.setting_handlers,
        vec![(CategoryId::DeviceInformation, SettingHandler::DeviceInfo(DeviceInfoSettingHandler))]
    );
    assert!(modules.packet_handlers.is_empty());
    modules.add_a3956_easy_chat_status();
    modules.add_a3956_easy_chat_status();
    assert_eq!(modules.setting_handlers.len(), 3);
    assert_eq!(
        modules.setting_handlers[2],
        (CategoryId::Miscellaneous, SettingHandler::EasyChatStatus(EasyChatStatusSettingHandler))
    );
    assert_eq!(modules.packet_handlers, vec![(EasyChatEvent::command(), PacketHandler::EasyChatEvent)]);
}

#[test]
fn builder_adds_a3956_modules() {
    let mut builder = SoundcoreDeviceBuilder::new();
    builder.a3956_device_info();
    builder.a3956_easy_chat_status();
    assert_eq!(
        builder.module_collection.setting_handlers,
        vec![
            (CategoryId::DeviceInformation, SettingHandler::DeviceInfo(DeviceInfoSettingHandler)),
            (CategoryId::Miscellaneous, SettingHandler::EasyChatStatus(EasyChatStatusSettingHandler)),
        ]
    );
    assert_eq!(
        builder.module_collection.packet_handlers,
        vec![(EasyChatEvent::command(), PacketHandler::EasyChatEvent)]
    );
}
