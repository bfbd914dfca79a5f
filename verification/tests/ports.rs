use flico::ports::{
    auto_detect_pico_port, choose_port, needs_detection, plan_source, port_words, PortInfo,
    PortWords, SourcePlan, UsbInfo,
};

fn plain(name: &str) -> PortInfo {
    PortInfo { name: name.to_string(), usb: None }
}

fn usb(name: &str, manufacturer: Option<&str>, product: Option<&str>) -> PortInfo {
    PortInfo {
        name: name.to_string(),
        usb: Some(UsbInfo {
            manufacturer: manufacturer.map(|s| s.to_string()),
            product: product.map(|s| s.to_string()),
        }),
    }
}

#[test]
fn description_is_in_lowercase() {
    let w = port_words(&usb("COM3", Some("Raspberry Pi"), Some("Pico")));
    assert_eq!(w.name, "COM3");
    assert_eq!(w.name_low, "com3");
    assert_eq!(w.description, "raspberry pi pico");
    assert_eq!(port_words(&usb("COM3", None, Some("X"))).description, " x");
    assert_eq!(port_words(&usb("COM3", Some("Y"), None)).description, "y ");
    assert_eq!(port_words(&plain("COM3")).description, "");
}

#[test]
fn pico_is_found_by_its_description() {
    let ports = vec![
        plain("/dev/ttyACM0"),
        usb("COM7", Some("Acme"), Some("Board with RP2040")),
        usb("COM8", Some("RASPBERRY PI"), None),
    ];
    assert_eq!(auto_detect_pico_port(&ports), Some("COM7".to_string()));
}

#[test]
fn pico_is_found_by_its_name() {
    let ports = vec![plain("/dev/ttyS0"), plain("/dev/cu.USBModem14101")];
    assert_eq!(auto_detect_pico_port(&ports), Some("/dev/cu.USBModem14101".to_string()));
}

#[test]
fn fallback_takes_the_first_likely_name() {
    let ports = vec![plain("/dev/ttyS0"), plain("/dev/ttyACM1"), plain("/dev/ttyACM0")];
    assert_eq!(auto_detect_pico_port(&ports), Some("/dev/ttyACM1".to_string()));
    // The fallback looks at the name as it is written.
    assert_eq!(auto_detect_pico_port(&vec![plain("/dev/ttyacm0")]), None);
}

#[test]
fn no_port_no_pico() {
    assert_eq!(auto_detect_pico_port(&vec![]), None);
    assert_eq!(auto_detect_pico_port(&vec![plain("COM1"), usb("COM2", None, None)]), None);
}

#[test]
fn choice_by_words_alone() {
    let words = |name: &str, low: &str, desc: &str| PortWords {
        name: name.to_string(),
        name_low: low.to_string(),
        description: desc.to_string(),
    };
    assert_eq!(
        choose_port(&vec![words("ttyACM0", "", ""), words("b", "b", "a pico w")]),
        Some(1)
    );
    assert_eq!(choose_port(&vec![words("a", "a", "Pico"), words("usbmodem", "", "")]), Some(1));
    assert_eq!(choose_port(&vec![words("a", "a", "Pico")]), None);
}

#[test]
fn source_follows_the_command_line() {
    let port = || Some("COM1".to_string());
    let found = || Some("COM2".to_string());
    assert!(matches!(plan_source(true, port(), None), SourcePlan::Demo));
    assert!(matches!(plan_source(false, port(), found()), SourcePlan::Pico(p) if p == "COM1"));
    assert!(matches!(plan_source(false, None, found()), SourcePlan::Pico(p) if p == "COM2"));
    assert!(matches!(plan_source(false, None, None), SourcePlan::Fallback));
    assert!(needs_detection(false, &None));
    assert!(!needs_detection(true, &None));
    assert!(!needs_detection(false, &port()));
}
