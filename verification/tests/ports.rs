use serial_plotter::serial_comms::{
    get_available_port_names, get_port_number, get_usb_device_name, PortInfo, PortType,
};

fn usb(name: &str, product: Option<&str>) -> PortInfo {
    PortInfo {
        port_name: name.to_string(),
        port_type: PortType::UsbPort {
            product: product.map(|p| p.to_string()),
        },
    }
}

fn other(name: &str) -> PortInfo {
    PortInfo {
        port_name: name.to_string(),
        port_type: PortType::Other,
    }
}

#[test]
fn port_numbers() {
    assert_eq!(get_port_number("COM3"), Some(3));
    assert_eq!(get_port_number("COM10"), Some(10));
    assert_eq!(get_port_number("7"), Some(7));
    assert_eq!(get_port_number("COMCOM7"), Some(7));
    assert_eq!(get_port_number("1COM2"), Some(12));
    assert_eq!(get_port_number("-COM4"), Some(-4));
    assert_eq!(get_port_number("COM"), None);
    assert_eq!(get_port_number(""), None);
    assert_eq!(get_port_number("CCOMOM5"), None);
    assert_eq!(get_port_number("com3"), None);
    assert_eq!(get_port_number("/dev/ttyUSB0"), None);
    assert_eq!(get_port_number("COM 3"), None);
    assert_eq!(get_port_number("COM2147483648"), None);
}

#[test]
fn port_numbers_agree_with_the_standard_library() {
    for name in ["COM1", "COM12", "CO", "COCOMM3", "xCOM", "COM+5", "CCOM", "MOC1", "COMCO1"] {
        assert_eq!(
            get_port_number(name),
            name.replace("COM", "").parse::<i32>().ok()
        );
    }
}

#[test]
fn usb_device_names() {
    assert_eq!(get_usb_device_name(&usb("COM1", Some("Arduino Uno"))), "Arduino Uno");
    assert_eq!(get_usb_device_name(&usb("COM1", None)), "");
    assert_eq!(get_usb_device_name(&other("COM1")), "");
}

#[test]
fn no_ports_give_none() {
    assert_eq!(get_available_port_names(&Vec::new()), None);
}

#[test]
fn ports_are_listed_by_number() {
    let ports = vec![
        usb("COM10", Some("Arduino Uno")),
        other("COM3"),
        usb("COM1", None),
        usb("COM4", Some("FT232R")),
    ];
    let (names, labels) = get_available_port_names(&ports).unwrap();
    assert_eq!(names, vec!["COM1", "COM3", "COM4", "COM10"]);
    assert_eq!(
        labels,
        vec!["COM1 ", "COM3 ", "COM4 FT232R", "COM10 Arduino Uno"]
    );
}

#[test]
fn ports_with_one_number_keep_their_order() {
    let ports = vec![
        other("COM2"),
        usb("2", Some("second")),
        other("COM1"),
        usb("COMCOM2", Some("third")),
        other("COM-5"),
    ];
    let (names, labels) = get_available_port_names(&ports).unwrap();
    assert_eq!(names, vec!["COM-5", "COM1", "COM2", "2", "COMCOM2"]);
    assert_eq!(
        labels,
        vec!["COM-5 ", "COM1 ", "COM2 ", "2 second", "COMCOM2 third"]
    );
}

#[test]
fn a_single_port() {
    let ports = vec![usb("COM7", Some("Pico"))];
    assert_eq!(
        get_available_port_names(&ports),
        Some((vec!["COM7".to_string()], vec!["COM7 Pico".to_string()]))
    );
}
