//! Configurations, device trees and encrypted files.

use riscbox::browser_storage::{HttpFile, StorageError};
use riscbox::config::{
    parse_value, resolve_asset_path, Console, FilesystemBackend, Object, Value, VmConfig,
};
use riscbox::crypto::{decrypt_legacy_file, derive_key, CryptoError};
use riscbox::fdt::{try_build, FdtConfig, FramebufferDescription};

#[test]
fn values_are_parsed() {
    let value = parse_value(
        " { a: 0x1F, \"b\": [0, 017, true, null], // note\n c: \"x\\n\\x41\", /* more */ d: {}, } ",
    )
    .unwrap();
    let object = value.as_object().unwrap();
    assert_eq!(object.get("a").unwrap().as_integer(), Some(31));
    let array = object.get("b").unwrap().as_array().unwrap();
    assert_eq!(array.len(), 4);
    assert_eq!(array[0].as_integer(), Some(0));
    assert_eq!(array[1].as_integer(), Some(15));
    assert!(matches!(array[2], Value::Bool(true)));
    assert!(matches!(array[3], Value::Null));
    assert_eq!(object.get("c").unwrap().as_str(), Some("x\nA"));
    assert!(object.get("d").unwrap().as_object().is_some());
    assert!(object.get("e").is_none());
    assert_eq!(object.get("a").unwrap().as_str(), None);
}

#[test]
fn later_members_replace_earlier_ones() {
    let value = parse_value("{a: 1, b: 2, a: 3}").unwrap();
    assert_eq!(value.as_object().unwrap().get("a").unwrap().as_integer(), Some(3));
    assert_eq!(value.as_object().unwrap().get("b").unwrap().as_integer(), Some(2));
}

#[test]
fn malformed_values_are_refused() {
    for source in [
        "", "{", "{a}", "{a:1", "[1 2]", "\"abc", "1 2", "nonsense", "{a:99999999999}", "-1", "'a'",
    ] {
        assert!(parse_value(source).is_err(), "{source}");
    }
    assert_eq!(parse_value("\n \t7").unwrap().as_integer(), Some(7));
}

const FULL: &str = r#"{
    version: 1, machine: "riscv64", memory_size: 256,
    bios: "bbl.bin", kernel: "k.bin", cmdline: "console=hvc0", console: "uart",
    uart_output: true, rtc_local_time: true, input_device: "virtio",
    drive0: { file: "root/blk.txt" }, drive1: { file: "b", device: "virtio" },
    fs0: { file: "/srv" }, fs1: { socket: "s", tag: "share" }, fs2: { js9p: true },
    eth0: { driver: "tap", ifname: "tap0" },
    display0: { device: "simplefb", width: 640, height: 480 },
}"#;

#[test]
fn a_full_configuration_is_read() {
    let config = VmConfig::parse(FULL).unwrap();
    assert_eq!(config.machine, "riscv64");
    assert_eq!(config.memory_size_mib, 256);
    assert_eq!(config.bios.as_deref(), Some("bbl.bin"));
    assert_eq!(config.initrd, None);
    assert_eq!(config.console, Console::Uart);
    assert!(config.uart_output && config.rtc_local_time);
    assert_eq!(config.drives.len(), 2);
    assert_eq!(config.drives[1].device.as_deref(), Some("virtio"));
    assert_eq!(config.filesystems[0].backend, FilesystemBackend::File("/srv".into()));
    assert_eq!(config.filesystems[0].tag, "/dev/root");
    assert_eq!(config.filesystems[1].tag, "share");
    assert_eq!(config.filesystems[2].backend, FilesystemBackend::JavaScript9p);
    assert_eq!(config.filesystems[2].tag, "/dev/root2");
    assert_eq!(config.networks[0].interface_name.as_deref(), Some("tap0"));
    assert_eq!(config.display.unwrap().width, 640);
}

#[test]
fn configuration_errors_say_what_is_wrong() {
    for (source, message) in [
        ("1", "configuration must be an object"),
        ("{}", "missing 'version'"),
        ("{version: 2}", "unsupported configuration version 2"),
        ("{version: 1}", "missing 'machine'"),
        ("{version: 1, machine: 1}", "machine must be a string"),
        ("{version: 1, machine: \"m\", memory_size: \"x\"}", "memory_size must be an integer"),
        (
            "{version: 1, machine: \"m\", memory_size: 1, console: \"x\"}",
            "console must be 'virtio' or 'uart'",
        ),
        (
            "{version: 1, machine: \"m\", memory_size: 1, drive0: 1}",
            "drive0 must be an object",
        ),
        (
            "{version: 1, machine: \"m\", memory_size: 1, fs0: {}}",
            "fs0 must select exactly one backend",
        ),
        (
            "{version: 1, machine: \"m\", memory_size: 1, eth1: {}}",
            "too many eth entries",
        ),
        (
            "{version: 1, machine: \"m\", memory_size: 1, eth0: {driver: \"tap\"}}",
            "missing 'ifname'",
        ),
        (
            "{version: 1, machine: \"m\", memory_size: 1, uart_output: 1}",
            "uart_output must be a boolean",
        ),
    ] {
        assert_eq!(VmConfig::parse(source).unwrap_err().0, message);
    }
}

#[test]
fn drives_are_consecutive() {
    let config = VmConfig::parse(
        "{version: 1, machine: \"m\", memory_size: 1, drive0: {file: \"a\"}, drive2: {file: \"c\"}}",
    )
    .unwrap();
    assert_eq!(config.drives.len(), 1);
    assert_eq!(config.drives[0].file, "a");
}

#[test]
fn command_lines_are_extended_or_replaced() {
    let mut config = VmConfig::parse(FULL).unwrap();
    config.apply_command_line("quiet");
    assert_eq!(config.command_line.as_deref(), Some("console=hvc0 quiet"));
    config.apply_command_line("!init=/bin/sh");
    assert_eq!(config.command_line.as_deref(), Some("init=/bin/sh"));
    config.command_line = None;
    config.apply_command_line("x");
    assert_eq!(config.command_line.as_deref(), Some(" x"));
}

#[test]
fn asset_paths_are_relative_to_the_configuration() {
    assert_eq!(resolve_asset_path(None, "a"), "a");
    assert_eq!(resolve_asset_path(Some("x.cfg"), "a"), "a");
    assert_eq!(resolve_asset_path(Some("/vm/x.cfg"), "a/b"), "/vm/a/b");
    assert_eq!(resolve_asset_path(Some("/vm/x.cfg"), "/a"), "/a");
    assert_eq!(resolve_asset_path(Some("/vm/x.cfg"), "http://h/a"), "http://h/a");
}

fn big_endian(data: &[u8], at: usize) -> u32 {
    u32::from_be_bytes([data[at], data[at + 1], data[at + 2], data[at + 3]])
}

#[test]
fn a_device_tree_says_its_size() {
    let seed = [7; 32];
    let tree = try_build(FdtConfig {
        ram_size: 0x800_0000,
        command_line: "console=ttyS0",
        initrd: Some((0x8400_0000, 0x8410_0000)),
        virtio_count: 2,
        rng_seed: Some(&seed),
        framebuffer: Some(FramebufferDescription {
            size: 0x4000,
            width: 64,
            height: 64,
            stride: 256,
        }),
    })
    .unwrap();
    assert_eq!(big_endian(&tree, 0), 0xd00d_feed);
    assert_eq!(big_endian(&tree, 4) as usize, tree.len());
    let structure = big_endian(&tree, 8) as usize;
    assert_eq!(big_endian(&tree, structure), 1);
    let end = structure + big_endian(&tree, 36) as usize;
    assert_eq!(big_endian(&tree, end - 4), 9);
    for text in ["console=ttyS0", "rng-seed", "virtio,mmio", "simple-framebuffer"] {
        assert!(
            tree.windows(text.len()).any(|part| part == text.as_bytes()),
            "{text}"
        );
    }
    assert!(tree.windows(32).any(|part| part == seed));
}

#[test]
fn keys_are_derived() {
    let mut key = [0; 16];
    derive_key(b"password", b"salt", 2, &mut key).unwrap();
    assert_eq!(
        key,
        [
            0xae, 0x4d, 0x0c, 0x95, 0xaf, 0x6b, 0x46, 0xd3, 0x2d, 0x0a, 0xdf, 0xf9, 0x28, 0xf0,
            0x6d, 0xd0
        ]
    );
    assert_eq!(
        derive_key(b"password", b"salt", 0, &mut key),
        Err(CryptoError::InvalidIterations)
    );
}

const KEY: [u8; 16] = [0, 1, 2, 3, 4, 5, 6, 7, 8, 9, 10, 11, 12, 13, 14, 15];

fn encrypted() -> Vec<u8> {
    let mut file = vec![0xfb, 0xa2, 0xe9, 0x01];
    file.extend(16_u8..32);
    file.extend([
        0x9f, 0xeb, 0xb9, 0x35, 0x4d, 0x4b, 0x1b, 0x8d, 0xa5, 0x3a, 0x78, 0x8f, 0x2d, 0x6c, 0xa8,
        0xd2, 0x63, 0xcc, 0xc7, 0x64, 0xa3, 0x63, 0xed, 0x0b, 0x5e, 0xaa, 0xf7, 0x72, 0x07, 0x49,
        0x79, 0xe4,
    ]);
    file
}

#[test]
fn encrypted_files_are_read() {
    let mut file = encrypted();
    assert_eq!(
        decrypt_legacy_file(&KEY, &mut file),
        Ok(&b"attack at dawn, bring snacks"[..])
    );
    let mut file = encrypted();
    let held = HttpFile::new("u".into(), Some(KEY));
    assert_eq!(held.decode(&mut file), Ok(&b"attack at dawn, bring snacks"[..]));
    let mut plain = b"plain".to_vec();
    assert_eq!(HttpFile::new("u".into(), None).decode(&mut plain), Ok(&b"plain"[..]));
}

#[test]
fn damaged_files_are_refused() {
    let mut file = encrypted();
    file[0] = 0;
    assert_eq!(decrypt_legacy_file(&KEY, &mut file), Err(CryptoError::InvalidHeader));
    let mut file = encrypted();
    file.truncate(25);
    assert_eq!(decrypt_legacy_file(&KEY, &mut file), Err(CryptoError::InvalidCiphertext));
    let mut file = encrypted();
    file.truncate(20);
    assert_eq!(decrypt_legacy_file(&KEY, &mut file), Err(CryptoError::InvalidCiphertext));
    let mut file = encrypted();
    file.truncate(36);
    let held = HttpFile::new("u".into(), Some(KEY));
    assert_eq!(
        held.decode(&mut file),
        Err(StorageError::Crypto(CryptoError::InvalidCiphertext))
    );
}

#[test]
fn objects_are_equal_in_any_order_of_writing() {
    let one = parse_value("{b: 1, a: [true, {d: null, c: \"x\"}], e: 3}").unwrap();
    let two = parse_value("{e: 4, a: [true, {c: \"x\", d: null}], b: 1, e: 3}").unwrap();
    assert_eq!(one, two);
    assert_eq!(one.clone(), two);
    assert_ne!(one, parse_value("{b: 1, a: [true], e: 3}").unwrap());
    let names: Vec<&str> =
        two.as_object().unwrap().entries.iter().map(|entry| entry.name.as_str()).collect();
    assert_eq!(names, ["a", "b", "e"]);
    let mut object = Object::new();
    object.insert("e".into(), Value::Integer(3));
    object.insert("b".into(), Value::Integer(9));
    object.insert("a".into(), two.as_object().unwrap().get("a").unwrap().clone());
    object.insert("b".into(), Value::Integer(1));
    assert_eq!(Value::Object(object), one);
}
