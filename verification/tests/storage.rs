use laser::serial::get_port;
use laser::storage::{LineSplitter, Storage};

#[test]
fn complete_lines_drop_unfinished_tail() {
    let lines = Storage::complete_lines(b"G1 X1\nG1 Y2\nM2");
    assert_eq!(lines, vec![b"G1 X1".to_vec(), b"G1 Y2".to_vec()]);
}

#[test]
fn complete_lines_keep_empty_lines() {
    let lines = Storage::complete_lines(b"\na\n\n");
    assert_eq!(lines, vec![b"".to_vec(), b"a".to_vec(), b"".to_vec()]);
}

#[test]
fn complete_lines_of_nothing() {
    assert!(Storage::complete_lines(b"").is_empty());
    assert!(Storage::complete_lines(b"no newline").is_empty());
}

#[test]
fn splitter_hands_out_lines_one_byte_at_a_time() {
    let bytes = b"ab\ncd\nef";
    let mut s = LineSplitter::new();
    let mut got = Vec::new();
    for b in bytes.iter() {
        if let Some(line) = s.push(*b) {
            got.push(line);
        }
    }
    assert_eq!(got, Storage::complete_lines(bytes));
    assert_eq!(s.pending(), b"ef");
}

#[test]
fn port_asked_for_wins() {
    let ports = vec!["/dev/ttyUSB0".to_string()];
    assert_eq!(get_port(Some("/dev/ttyACM1".to_string()), &ports), Some("/dev/ttyACM1".to_string()));
}

#[test]
fn first_port_found_otherwise() {
    let ports = vec!["/dev/ttyUSB0".to_string(), "/dev/ttyUSB1".to_string()];
    assert_eq!(get_port(None, &ports), Some("/dev/ttyUSB0".to_string()));
    assert_eq!(get_port(None, &Vec::new()), None);
}

use laser::serial::{describe_ports, PortInfo, UsbInfo};

#[test]
fn listing_of_ports() {
    let ports = vec![
        PortInfo { port_name: "/dev/ttyS0".to_string(), usb: None },
        PortInfo {
            port_name: "/dev/ttyUSB0".to_string(),
            usb: Some(UsbInfo {
                product: Some("CH340".to_string()),
                manufacturer: None,
                serial_number: Some("123".to_string()),
            }),
        },
    ];
    assert_eq!(
        describe_ports(&ports),
        "Available ports:\n - /dev/ttyS0\n - /dev/ttyUSB0\n\tproduct: CH340\n\tmanufacturer: None\n\tserial: 123\n"
    );
    assert_eq!(describe_ports(&Vec::new()), "Available ports:\n");
}
