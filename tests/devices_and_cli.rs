use pixoo_ctl::cli::require_device;
use pixoo_ctl::config::{config_path, resolve_devices, Config, DeviceConfig};
use pixoo_ctl::device::{pic_id_for, push_command, url, CANVAS_SIZE};

fn registry() -> Config {
    Config {
        devices: vec![
            ("stage-right".to_string(), DeviceConfig { ip: "10.0.0.6".to_string() }),
            ("desk".to_string(), DeviceConfig { ip: "10.0.0.9".to_string() }),
            ("stage-left".to_string(), DeviceConfig { ip: "10.0.0.5".to_string() }),
        ],
        schedule: Vec::new(),
    }
}

#[test]
fn all_resolves_every_device_sorted_by_name() {
    let v = resolve_devices(&registry(), "all").ok().unwrap();
    let names: Vec<&str> = v.iter().map(|(n, _)| n.as_str()).collect();
    assert_eq!(names, vec!["desk", "stage-left", "stage-right"]);
    assert_eq!(v[1].1, "10.0.0.5");
}

#[test]
fn single_device_resolves_to_its_address() {
    let v = resolve_devices(&registry(), "desk").ok().unwrap();
    assert_eq!(v, vec![("desk".to_string(), "10.0.0.9".to_string())]);
}

#[test]
fn unknown_device_is_an_error() {
    let e = resolve_devices(&registry(), "kitchen").err().unwrap();
    assert_eq!(e.name, "kitchen");
    assert_eq!(e.available, vec!["stage-right", "desk", "stage-left"]);
}

#[test]
fn require_device_needs_a_value() {
    assert_eq!(require_device(&Some("desk".to_string()), "push-image").ok(), Some("desk".to_string()));
    let e = require_device(&None, "get-settings").err().unwrap();
    assert_eq!(e.command, "get-settings");
}

#[test]
fn device_url_and_config_path() {
    assert_eq!(url("192.168.1.20"), "http://192.168.1.20/post");
    assert_eq!(config_path("/home/u/.config/pixoo-ctl"), "/home/u/.config/pixoo-ctl/config.toml");
}

#[test]
fn push_command_encodes_frame() {
    let c = push_command(&[0, 0, 0, 255, 255, 255], 1_700_012_345);
    assert_eq!(c.command, "Draw/SendHttpGif");
    assert_eq!(c.pic_data, "AAAA////");
    assert_eq!(c.pic_id, 2345);
    assert_eq!(c.pic_width, CANVAS_SIZE);
    assert_eq!(c.pic_num, 1);
    assert_eq!(c.pic_offset, 0);
    assert_eq!(c.pic_speed, 1000);
    let full = push_command(&vec![7u8; 64 * 64 * 3], 0);
    assert_eq!(full.pic_data.len(), 16384);
    assert_eq!(push_command(&[1], 0).pic_data, "AQ==");
}

#[test]
fn pic_id_wraps() {
    assert_eq!(pic_id_for(9999), 9999);
    assert_eq!(pic_id_for(10000), 0);
    assert_eq!(pic_id_for(123456), 3456);
}
