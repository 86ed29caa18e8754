//! The HTTP filesystem.

use riscbox::http_9p::{HttpNineP, NinePRequestStatus, EBADF, EEXIST, EINVAL, EIO, ENOENT, EPROTO};
use riscbox::ninep::NinePRequestId;
use riscbox::virtio_devices::DeviceError;

fn message(ty: u8, tag: u16, body: &[u8]) -> Vec<u8> {
    let mut result = Vec::from([0, 0, 0, 0, ty]);
    result.extend_from_slice(&tag.to_le_bytes());
    result.extend_from_slice(body);
    let size = u32::try_from(result.len()).unwrap();
    result[..4].copy_from_slice(&size.to_le_bytes());
    result
}

fn string(value: &str) -> Vec<u8> {
    let mut result = Vec::from(u16::try_from(value.len()).unwrap().to_le_bytes());
    result.extend_from_slice(value.as_bytes());
    result
}

fn send(fs: &mut HttpNineP, ty: u8, body: &[u8]) -> Vec<u8> {
    match fs.transact(NinePRequestId(1), &message(ty, 1, body), 4096) {
        Ok(NinePRequestStatus::Complete(reply)) => reply,
        other => panic!("no reply: {other:?}"),
    }
}

fn errno(reply: &[u8]) -> Option<u32> {
    if reply[4] == 7 {
        Some(u32::from_le_bytes([reply[7], reply[8], reply[9], reply[10]]))
    } else {
        None
    }
}

fn attach_body(fid: u32) -> Vec<u8> {
    let mut attach = Vec::from(fid.to_le_bytes());
    attach.extend_from_slice(&u32::MAX.to_le_bytes());
    attach.extend(string(""));
    attach.extend(string(""));
    attach.extend_from_slice(&0_u32.to_le_bytes());
    attach
}

fn walk_body(fid: u32, new_fid: u32, names: &[&str]) -> Vec<u8> {
    let mut walk = Vec::from(fid.to_le_bytes());
    walk.extend_from_slice(&new_fid.to_le_bytes());
    walk.extend_from_slice(&u16::try_from(names.len()).unwrap().to_le_bytes());
    for name in names {
        walk.extend(string(name));
    }
    walk
}

fn create_body(fid: u32, name: &str, flags: u32) -> Vec<u8> {
    let mut body = Vec::from(fid.to_le_bytes());
    body.extend(string(name));
    body.extend_from_slice(&flags.to_le_bytes());
    body.extend_from_slice(&0o644_u32.to_le_bytes());
    body.extend_from_slice(&0_u32.to_le_bytes());
    body
}

fn write_body(fid: u32, offset: u64, data: &[u8]) -> Vec<u8> {
    let mut body = Vec::from(fid.to_le_bytes());
    body.extend_from_slice(&offset.to_le_bytes());
    body.extend_from_slice(&u32::try_from(data.len()).unwrap().to_le_bytes());
    body.extend_from_slice(data);
    body
}

fn read_body(fid: u32, offset: u64, count: u32) -> Vec<u8> {
    let mut body = Vec::from(fid.to_le_bytes());
    body.extend_from_slice(&offset.to_le_bytes());
    body.extend_from_slice(&count.to_le_bytes());
    body
}

/// A filesystem with a file, a directory with a link, and its root attached.
fn ready() -> HttpNineP {
    let mut fs = HttpNineP::new("https://host/root/", String::new());
    let head = fs.next_request().unwrap();
    fs.complete_request(head.id, b"Version: 1\r\nRootID: 2a\r\n".to_vec()).unwrap();
    let list = fs.next_request().unwrap();
    let listing = "Version: 1\n\
        # a comment\n\
        100644 1000 1000 3 1.5 zulu 2b\n\
        040755 0 0 7.0 dir\n\
        120777 0 0 8 \"a \\x6cink\" \"../zulu\"\n\
        .\n\
        100600 1 2 0 9 alpha\n\
        .\n";
    fs.complete_request(list.id, listing.as_bytes().to_vec()).unwrap();
    assert_eq!(errno(&send(&mut fs, 104, &attach_body(1))), None);
    fs
}

#[test]
fn initialization_is_lazy_and_remote_reads_resume_after_fetch() {
    let mut fs = HttpNineP::new("https://host/root/", "secret".into());
    let head = fs.next_request().unwrap();
    assert_eq!(head.url, "https://host/root/head");
    fs.complete_request(head.id, b"Version: 1\nRootID: 2a\n".to_vec())
        .unwrap();
    let list = fs.next_request().unwrap();
    assert_eq!(list.url, "https://host/root/files/000000000000002a");
    fs.complete_request(
        list.id,
        b"Version: 1\n100644 1000 1000 3 1.0 hello 2b\n.\n".to_vec(),
    )
    .unwrap();

    let mut version = Vec::from(65_536_u32.to_le_bytes());
    version.extend(string("9P2000.L"));
    assert!(matches!(
        fs.transact(NinePRequestId(1), &message(100, u16::MAX, &version), 4096)
            .unwrap(),
        NinePRequestStatus::Complete(_)
    ));
    let mut attach = Vec::from(1_u32.to_le_bytes());
    attach.extend_from_slice(&u32::MAX.to_le_bytes());
    attach.extend(string(""));
    attach.extend(string(""));
    attach.extend_from_slice(&0_u32.to_le_bytes());
    fs.transact(NinePRequestId(2), &message(104, 1, &attach), 4096)
        .unwrap();
    let mut walk = Vec::from(1_u32.to_le_bytes());
    walk.extend_from_slice(&2_u32.to_le_bytes());
    walk.extend_from_slice(&1_u16.to_le_bytes());
    walk.extend(string("hello"));
    fs.transact(NinePRequestId(3), &message(110, 2, &walk), 4096)
        .unwrap();
    let mut read = Vec::from(2_u32.to_le_bytes());
    read.extend_from_slice(&0_u64.to_le_bytes());
    read.extend_from_slice(&3_u32.to_le_bytes());
    assert_eq!(
        fs.transact(NinePRequestId(4), &message(116, 3, &read), 4096)
            .unwrap(),
        NinePRequestStatus::Pending
    );
    let file = fs.next_request().unwrap();
    assert_eq!(file.url, "https://host/root/files/000000000000002b");
    fs.complete_request(file.id, b"abc".to_vec()).unwrap();
    let NinePRequestStatus::Complete(reply) = fs
        .transact(NinePRequestId(5), &message(116, 3, &read), 4096)
        .unwrap()
    else {
        panic!("read remained pending");
    };
    assert_eq!(&reply[11..], b"abc");
    assert!(fs.child(0, ".fscmd_pwd").is_ok());
    fs.command(9, b"pbkdf2 70617373776f7264 73616c74 2 16")
        .unwrap();
    assert_eq!(
        fs.command_replies.get(&9).unwrap(),
        &[
            0xae, 0x4d, 0x0c, 0x95, 0xaf, 0x6b, 0x46, 0xd3, 0x2d, 0x0a, 0xdf, 0xf9, 0x28, 0xf0,
            0x6d, 0xd0
        ]
    );
}

#[test]
fn requests_wait_for_the_file_list() {
    let mut fs = HttpNineP::new("https://host", String::new());
    assert_eq!(
        fs.transact(NinePRequestId(1), &message(104, 1, &attach_body(1)), 4096),
        Ok(NinePRequestStatus::Pending)
    );
    assert_eq!(
        fs.transact(NinePRequestId(1), &[1, 2, 3], 4096),
        Err(DeviceError::InvalidRequest)
    );
}

#[test]
fn file_lists_make_a_tree() {
    let fs = ready();
    let dir = fs.child(0, "dir").unwrap();
    assert!(fs.child(dir, "a link").is_ok());
    assert!(fs.child(0, "alpha").is_ok());
    assert!(fs.child(0, ".fscmd").is_ok());
    assert_eq!(fs.child(0, ".fscmd_pwd"), Err(ENOENT));
}

#[test]
fn broken_file_lists_are_refused() {
    for listing in [
        "",
        "Version: 2\n",
        "Version: 1\nbad\n",
        "Version: 1\n040755 0 0 7 dir\n",
        "Version: 1\n100644 0 0 0 1 a\n100644 0 0 0 1 a\n.\n",
        "Version: 1\n100644 0 0 3 1 a zz\n",
        "Version: 1\n100644 0 0 0 1 .fscmd\n",
        "Version: 1\n100644 0 0 0 1 \"a/b\"\n",
    ] {
        let mut fs = HttpNineP::new("https://host", String::new());
        let head = fs.next_request().unwrap();
        fs.complete_request(head.id, b"RootID: 1\n".to_vec()).unwrap();
        let list = fs.next_request().unwrap();
        assert_eq!(
            fs.complete_request(list.id, listing.as_bytes().to_vec()),
            Err(DeviceError::Backend),
            "{listing}"
        );
    }
    let mut fs = HttpNineP::new("https://host", String::new());
    assert_eq!(fs.complete_request(77, Vec::new()), Err(DeviceError::Backend));
    assert_eq!(fs.complete_request(1, b"no root".to_vec()), Err(DeviceError::Backend));
}

#[test]
fn written_bytes_are_read_back() {
    let mut fs = ready();
    send(&mut fs, 110, &walk_body(1, 2, &[]));
    let created = send(&mut fs, 14, &create_body(2, "new", 0));
    assert_eq!(created[4], 15);
    let reply = send(&mut fs, 118, &write_body(2, 3, b"hello"));
    assert_eq!(&reply[7..], &5_u32.to_le_bytes());
    let reply = send(&mut fs, 116, &read_body(2, 3, 5));
    assert_eq!(&reply[11..], b"hello");
    let reply = send(&mut fs, 116, &read_body(2, 0, 100));
    assert_eq!(&reply[11..], b"\0\0\0hello");
    let far = send(&mut fs, 118, &write_body(2, 0x200_0000, b"x"));
    assert_eq!(errno(&far), Some(27));
}

#[test]
fn names_are_made_moved_and_removed() {
    let mut fs = ready();
    send(&mut fs, 110, &walk_body(1, 2, &[]));
    let mut mkdir = Vec::from(1_u32.to_le_bytes());
    mkdir.extend(string("sub"));
    mkdir.extend_from_slice(&0o755_u32.to_le_bytes());
    mkdir.extend_from_slice(&0_u32.to_le_bytes());
    assert_eq!(errno(&send(&mut fs, 72, &mkdir)), None);
    assert_eq!(errno(&send(&mut fs, 72, &mkdir)), Some(EEXIST));
    let sub = fs.child(0, "sub").unwrap();
    send(&mut fs, 110, &walk_body(1, 3, &["sub"]));
    let mut rename = Vec::from(1_u32.to_le_bytes());
    rename.extend(string("alpha"));
    rename.extend_from_slice(&3_u32.to_le_bytes());
    rename.extend(string("beta"));
    let alpha = fs.child(0, "alpha").unwrap();
    assert_eq!(errno(&send(&mut fs, 74, &rename)), None);
    assert_eq!(fs.child(sub, "beta"), Ok(alpha));
    assert_eq!(fs.child(0, "alpha"), Err(ENOENT));
    let mut unlink = Vec::from(1_u32.to_le_bytes());
    unlink.extend(string("sub"));
    unlink.extend_from_slice(&0x200_u32.to_le_bytes());
    assert_eq!(errno(&send(&mut fs, 76, &unlink)), Some(39));
    let mut inner = Vec::from(3_u32.to_le_bytes());
    inner.extend(string("beta"));
    inner.extend_from_slice(&0_u32.to_le_bytes());
    assert_eq!(errno(&send(&mut fs, 76, &inner)), None);
    assert_eq!(fs.child(sub, "beta"), Err(ENOENT));
    assert_eq!(errno(&send(&mut fs, 76, &unlink)), None);
    assert_eq!(fs.child(0, "sub"), Err(ENOENT));
}

#[test]
fn directories_are_read_in_order() {
    let mut fs = ready();
    let reply = send(&mut fs, 40, &read_body(1, 0, 4096));
    let mut names = Vec::new();
    let mut at = 11;
    while at < reply.len() {
        let len = usize::from(u16::from_le_bytes([reply[at + 22], reply[at + 23]]));
        names.push(String::from_utf8(reply[at + 24..at + 24 + len].to_vec()).unwrap());
        at += 24 + len;
    }
    assert_eq!(names, [".fscmd", "alpha", "dir", "zulu"]);
    let two = send(&mut fs, 40, &read_body(1, 0, 24 + 6 + 24 + 5));
    assert_eq!(u32::from_le_bytes([two[7], two[8], two[9], two[10]]), 59);
    let short = send(&mut fs, 40, &read_body(1, 0, 24 + 6 + 24 + 4));
    assert_eq!(u32::from_le_bytes([short[7], short[8], short[9], short[10]]), 30);
}

#[test]
fn walks_report_how_far_they_got() {
    let mut fs = ready();
    let reply = send(&mut fs, 110, &walk_body(1, 2, &["dir", "nothing"]));
    assert_eq!(reply[4], 111);
    assert_eq!(u16::from_le_bytes([reply[7], reply[8]]), 1);
    assert_eq!(errno(&send(&mut fs, 110, &walk_body(1, 3, &["nothing"]))), Some(ENOENT));
    assert_eq!(errno(&send(&mut fs, 110, &walk_body(9, 3, &[]))), Some(EBADF));
    assert_eq!(errno(&send(&mut fs, 110, &walk_body(1, 2, &[]))), Some(EEXIST));
    let up = send(&mut fs, 110, &walk_body(1, 4, &["dir", "..", "."]));
    assert_eq!(u16::from_le_bytes([up[7], up[8]]), 3);
    let link = send(&mut fs, 110, &walk_body(1, 5, &["dir", "a link"]));
    assert_eq!(link[9 + 13], 2);
    let target = send(&mut fs, 22, &5_u32.to_le_bytes());
    assert_eq!(&target[9..], b"../zulu");
}

#[test]
fn attributes_are_reported_and_changed() {
    let mut fs = ready();
    send(&mut fs, 110, &walk_body(1, 2, &["zulu"]));
    let mut ask = Vec::from(2_u32.to_le_bytes());
    ask.extend_from_slice(&0x7ff_u64.to_le_bytes());
    let reply = send(&mut fs, 24, &ask);
    let mode = u32::from_le_bytes([reply[28], reply[29], reply[30], reply[31]]);
    assert_eq!(mode, 0o100_644);
    assert_eq!(reply[56], 3);
    let mut set = Vec::from(2_u32.to_le_bytes());
    for value in [9_u32, 0o600, 0, 0] {
        set.extend_from_slice(&value.to_le_bytes());
    }
    for value in [0_u64, 0, 0, 0, 0] {
        set.extend_from_slice(&value.to_le_bytes());
    }
    assert_eq!(errno(&send(&mut fs, 26, &set)), None);
    let reply = send(&mut fs, 24, &ask);
    let mode = u32::from_le_bytes([reply[28], reply[29], reply[30], reply[31]]);
    assert_eq!(mode, 0o100_600);
    assert_eq!(reply[56], 0);
}

#[test]
fn commands_are_checked() {
    let mut fs = ready();
    assert_eq!(fs.command(1, b"\xff"), Err(EINVAL));
    assert_eq!(fs.command(1, b"\"open"), Err(EPROTO));
    assert_eq!(fs.command(1, b"unknown a b c d"), Err(EIO));
    assert_eq!(fs.command(1, b"pbkdf2 7 73 1 1"), Err(EINVAL));
    assert_eq!(fs.command(1, b"pbkdf2 7g 73 1 1"), Err(EPROTO));
    assert_eq!(fs.command(1, b"pbkdf2 70 73 0 1"), Err(EINVAL));
    assert_eq!(fs.command(1, b"pbkdf2 70 73 1 5000"), Err(EINVAL));
    assert_eq!(fs.command(1, b"pbkdf2 70 73 1 0"), Err(EINVAL));
    assert_eq!(fs.command(1, b"pbkdf2 70 73 1 4096"), Ok(()));
    assert_eq!(fs.command_replies.get(&1).unwrap().len(), 4096);
}

#[test]
fn messages_with_a_tail_are_refused() {
    let mut fs = ready();
    let mut body = Vec::from(1_u32.to_le_bytes());
    body.push(0);
    assert_eq!(
        fs.transact(NinePRequestId(1), &message(120, 1, &body), 4096),
        Err(DeviceError::InvalidRequest)
    );
    let unknown = send(&mut fs, 99, &[]);
    assert_eq!(errno(&unknown), Some(95));
    let mut version = Vec::from(100_u32.to_le_bytes());
    version.extend(string("9P2000.L"));
    let Ok(NinePRequestStatus::Complete(small)) =
        fs.transact(NinePRequestId(1), &message(100, u16::MAX, &version), 0)
    else {
        panic!("no reply");
    };
    assert_eq!(errno(&small), Some(EINVAL));
}
