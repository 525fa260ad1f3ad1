use bms_store_gui::components::bridge_settings::{
    bacnet_row, delete_failed_notice, form_layout, form_title, load_bacnet_form, load_modbus_form, modbus_row,
    new_bacnet_form, new_modbus_form, removed_notice, saved_notice, submit_bacnet_form, submit_modbus_form,
    BridgeKind,
};
use bms_store_gui::json::JsonValue;
use bms_store_gui::text::trim;

fn s(t: &str) -> JsonValue {
    JsonValue::Str(t.to_string())
}

fn n(t: &str) -> JsonValue {
    JsonValue::Number(t.to_string())
}

fn obj(entries: Vec<(&str, JsonValue)>) -> JsonValue {
    JsonValue::Object(entries.into_iter().map(|(k, v)| (k.to_string(), v)).collect())
}

#[test]
fn trim_removes_unicode_white_space() {
    assert_eq!(trim("  a b \t\n"), "a b");
    assert_eq!(trim("\u{3000}x\u{a0}"), "x");
    assert_eq!(trim("   "), "");
    assert_eq!(trim(""), "");
    assert_eq!(trim("\u{200b}x"), "\u{200b}x");
}

#[test]
fn new_forms_have_defaults() {
    let b = new_bacnet_form();
    assert_eq!((b.name.as_str(), b.mode.as_str(), b.baud_rate.as_str()), ("", "normal", "38400"));
    assert!(b.enabled && b.bbmd_addr.is_empty() && b.serial_port.is_empty() && b.server_device_instance.is_empty());
    let m = new_modbus_form();
    assert_eq!(
        (m.mode.as_str(), m.baud_rate.as_str(), m.timeout_ms.as_str(), m.retry_count.as_str()),
        ("tcp", "9600", "5000", "3")
    );
    assert!(m.enabled && m.name.is_empty() && m.serial_port.is_empty());
}

#[test]
fn bacnet_form_needs_a_name() {
    let mut f = new_bacnet_form();
    f.name = "  \t".to_string();
    match submit_bacnet_form(&f) {
        Err(e) => assert_eq!(e, "Name is required."),
        Ok(_) => panic!("accepted a blank name"),
    }
}

#[test]
fn bacnet_form_saves_given_fields() {
    let mut f = new_bacnet_form();
    f.name = " Campus ".to_string();
    f.mode = "mstp".to_string();
    f.serial_port = " /dev/ttyUSB0 ".to_string();
    f.baud_rate = " 76800 ".to_string();
    f.server_device_instance = "4194303".to_string();
    f.enabled = false;
    let sub = submit_bacnet_form(&f).unwrap();
    assert_eq!(sub.name, "Campus");
    assert!(!sub.enabled);
    assert_eq!(
        sub.config,
        obj(vec![
            ("mode", s("mstp")),
            ("serial_port", s("/dev/ttyUSB0")),
            ("baud_rate", n("76800")),
            ("server_device_instance", n("4194303")),
        ])
    );
}

#[test]
fn bacnet_form_drops_invalid_numbers_and_unused_rate() {
    let mut f = new_bacnet_form();
    f.name = "Net".to_string();
    f.mode = "foreign".to_string();
    f.bbmd_addr = "192.168.1.1:47808".to_string();
    f.baud_rate = "fast".to_string();
    f.server_device_instance = "-1".to_string();
    let sub = submit_bacnet_form(&f).unwrap();
    assert_eq!(sub.config, obj(vec![("mode", s("foreign")), ("bbmd_addr", s("192.168.1.1:47808"))]));
    f.serial_port = "/dev/ttyS1".to_string();
    f.baud_rate = "4294967296".to_string();
    let sub = submit_bacnet_form(&f).unwrap();
    assert_eq!(
        sub.config,
        obj(vec![
            ("mode", s("foreign")),
            ("bbmd_addr", s("192.168.1.1:47808")),
            ("serial_port", s("/dev/ttyS1")),
        ])
    );
}

#[test]
fn bacnet_saved_then_edited_shows_saved_values() {
    let mut f = new_bacnet_form();
    f.name = "Campus".to_string();
    f.mode = "mstp".to_string();
    f.serial_port = "/dev/ttyUSB0".to_string();
    f.baud_rate = "+9600".to_string();
    f.server_device_instance = "12".to_string();
    let sub = submit_bacnet_form(&f).unwrap();
    let loaded = load_bacnet_form(&new_bacnet_form(), &sub.name, sub.enabled, &Some(sub.config));
    assert_eq!(loaded.name, "Campus");
    assert_eq!(loaded.mode, "mstp");
    assert_eq!(loaded.bbmd_addr, "");
    assert_eq!(loaded.serial_port, "/dev/ttyUSB0");
    assert_eq!(loaded.baud_rate, "9600");
    assert_eq!(loaded.server_device_instance, "12");
}

#[test]
fn bacnet_edit_of_unparsed_or_partial_config() {
    let mut cur = new_bacnet_form();
    cur.bbmd_addr = "old".to_string();
    let loaded = load_bacnet_form(&cur, &"N".to_string(), true, &None);
    assert_eq!(loaded.bbmd_addr, "old");
    assert_eq!(loaded.mode, "normal");
    let cfg = obj(vec![("mode", n("3")), ("baud_rate", n("1.5")), ("bbmd_addr", n("1"))]);
    let loaded = load_bacnet_form(&cur, &"N".to_string(), false, &Some(cfg));
    assert_eq!(loaded.mode, "normal");
    assert_eq!(loaded.bbmd_addr, "");
    assert_eq!(loaded.baud_rate, "38400");
    assert!(!loaded.enabled);
}

#[test]
fn modbus_form_saves_serial_fields_only_for_rtu() {
    let mut f = new_modbus_form();
    f.name = "Plant".to_string();
    f.serial_port = "/dev/ttyS0".to_string();
    let sub = submit_modbus_form(&f).unwrap();
    assert_eq!(
        sub.config,
        obj(vec![
            ("mode", s("tcp")),
            ("default_timeout_ms", n("5000")),
            ("default_retry_count", n("3")),
        ])
    );
    f.mode = "rtu".to_string();
    f.retry_count = "256".to_string();
    let sub = submit_modbus_form(&f).unwrap();
    assert_eq!(
        sub.config,
        obj(vec![
            ("mode", s("rtu")),
            ("serial_port", s("/dev/ttyS0")),
            ("baud_rate", n("9600")),
            ("default_timeout_ms", n("5000")),
        ])
    );
    let loaded = load_modbus_form(&new_modbus_form(), &sub.name, sub.enabled, &Some(sub.config));
    assert_eq!(
        (loaded.mode.as_str(), loaded.serial_port.as_str(), loaded.baud_rate.as_str()),
        ("rtu", "/dev/ttyS0", "9600")
    );
    assert_eq!((loaded.timeout_ms.as_str(), loaded.retry_count.as_str()), ("5000", "3"));
}

#[test]
fn modbus_form_needs_a_name() {
    let f = new_modbus_form();
    assert!(submit_modbus_form(&f).is_err());
}

#[test]
fn list_rows_show_configuration() {
    let cfg = obj(vec![("mode", s("sc")), ("hub_endpoint", s("wss://hub:443"))]);
    assert_eq!(bacnet_row(&Some(cfg)), ("sc".to_string(), "wss://hub:443".to_string()));
    let cfg = obj(vec![("bbmd_addr", n("5")), ("serial_port", s("/dev/x"))]);
    assert_eq!(bacnet_row(&Some(cfg)), ("normal".to_string(), "—".to_string()));
    assert_eq!(bacnet_row(&None), ("normal".to_string(), "—".to_string()));
    assert_eq!(
        modbus_row(&Some(obj(vec![("mode", s("rtu")), ("serial_port", s("/dev/ttyS0"))]))),
        ("rtu".to_string(), "/dev/ttyS0".to_string())
    );
    assert_eq!(modbus_row(&None), ("tcp".to_string(), "(TCP — set per-device)".to_string()));
}

#[test]
fn form_layout_and_messages() {
    assert_eq!(form_layout(BridgeKind::Bacnet, "normal"), (false, false));
    assert_eq!(form_layout(BridgeKind::Bacnet, "foreign"), (true, false));
    assert_eq!(form_layout(BridgeKind::Bacnet, "mstp"), (false, true));
    assert_eq!(form_layout(BridgeKind::Modbus, "rtu"), (false, true));
    assert_eq!(form_layout(BridgeKind::Modbus, "tcp"), (false, false));
    assert_eq!(form_title(BridgeKind::Bacnet, true), "Edit BACnet Network");
    assert_eq!(form_title(BridgeKind::Modbus, false), "New Modbus Bus");
    assert_eq!(
        saved_notice(BridgeKind::Bacnet, "Campus"),
        "BACnet network `Campus` saved — restart bms-store to activate"
    );
    assert_eq!(removed_notice(BridgeKind::Modbus, "Plant"), "Modbus bus `Plant` removed — restart bms-store");
    assert_eq!(delete_failed_notice(BridgeKind::Modbus, "locked"), "Failed to delete Modbus bus: locked");
}
