use anime_cli::dcc::{
    acknowledgement, destination_path, encode_send, octets, pack_request, parse_send, sanitize,
    SendNotice,
};

fn notice(filename: &str, address: u32, port: u16, size: u64) -> SendNotice {
    SendNotice { filename: filename.as_bytes().to_vec(), address, port, size }
}

#[test]
fn pack_request_text() {
    assert_eq!(pack_request(42), b"XDCC SEND 42".to_vec());
    assert_eq!(pack_request(1), b"XDCC SEND 1".to_vec());
    assert_eq!(pack_request(u32::MAX), b"XDCC SEND 4294967295".to_vec());
}

#[test]
fn notice_is_read() {
    assert_eq!(
        parse_send(b"DCC SEND Show.Name.E01.720p.mkv 3232235777 5000 367001600"),
        Some(notice("Show.Name.E01.720p.mkv", 3232235777, 5000, 367001600))
    );
}

#[test]
fn quoted_name_is_read() {
    assert_eq!(
        parse_send(b"DCC SEND \"Show Name E01.mkv\" 1 2 3"),
        Some(notice("Show Name E01.mkv", 1, 2, 3))
    );
    assert_eq!(
        parse_send(b"DCC SEND Show Name E01.mkv 1 2 3"),
        Some(notice("Show Name E01.mkv", 1, 2, 3))
    );
}

#[test]
fn texts_that_are_no_notice() {
    assert_eq!(parse_send(b""), None);
    assert_eq!(parse_send(b"DCC SEND"), None);
    assert_eq!(parse_send(b"DCC SEND file 1 2"), None);
    assert_eq!(parse_send(b"DCC SEND 1 2 3"), None);
    assert_eq!(parse_send(b"DCC CHAT file 1 2 3"), None);
    assert_eq!(parse_send(b"DCC SEND file x 2 3"), None);
    assert_eq!(parse_send(b"DCC SEND file 1 y 3"), None);
    assert_eq!(parse_send(b"DCC SEND file 1 2 z"), None);
    assert_eq!(parse_send(b"DCC SEND file 1 2 3 "), None);
    assert_eq!(parse_send(b"DCC SEND file 1  2 3"), None);
    assert_eq!(parse_send(b"DCC SEND \"\" 1 2 3"), None);
}

#[test]
fn numbers_of_a_notice_must_fit() {
    assert_eq!(parse_send(b"DCC SEND f 4294967296 2 3"), None);
    assert_eq!(parse_send(b"DCC SEND f 1 65536 3"), None);
    assert_eq!(parse_send(b"DCC SEND f 1 0 3"), None);
    assert_eq!(parse_send(b"DCC SEND f 1 2 18446744073709551616"), None);
    assert_eq!(
        parse_send(b"DCC SEND f 4294967295 65535 18446744073709551615"),
        Some(notice("f", u32::MAX, u16::MAX, u64::MAX))
    );
}

#[test]
fn notice_is_written() {
    assert_eq!(
        encode_send(&notice("file.mkv", 3232235777, 5000, 12345)),
        b"DCC SEND file.mkv 3232235777 5000 12345".to_vec()
    );
    assert_eq!(
        encode_send(&notice("my file.mkv", 1, 2, 3)),
        b"DCC SEND \"my file.mkv\" 1 2 3".to_vec()
    );
}

#[test]
fn written_notice_reads_back() {
    let all = [
        notice("file.mkv", 3232235777, 5000, 12345),
        notice("my file.mkv", 0, 1, 0),
        notice("\"quoted\"", 7, 8, 9),
        notice("\"", 7, 8, 9),
        notice(" ", 7, 8, 9),
    ];
    for n in all {
        assert_eq!(parse_send(&encode_send(&n)), Some(n));
    }
}

#[test]
fn address_in_octets() {
    assert_eq!(octets(3232235777), (192, 168, 1, 1));
    assert_eq!(octets(0), (0, 0, 0, 0));
    assert_eq!(octets(u32::MAX), (255, 255, 255, 255));
    assert_eq!(octets(0x7f000001), (127, 0, 0, 1));
}

#[test]
fn stored_name_is_safe() {
    assert_eq!(sanitize(b"Show.Name.E01.720p.mkv"), b"Show.Name.E01.720p.mkv".to_vec());
    assert_eq!(sanitize(b"../../etc/passwd"), b"_._.._etc_passwd".to_vec());
    assert_eq!(sanitize(b".hidden"), b"_hidden".to_vec());
    assert_eq!(sanitize(b"a:b*c?d\"e<f>g|h\\i"), b"a_b_c_d_e_f_g_h_i".to_vec());
    assert_eq!(sanitize(b"tab\there\x00\x7f"), b"tab_here__".to_vec());
    assert_eq!(sanitize(b""), b"_".to_vec());
    assert_eq!(sanitize(b"with space.mkv"), b"with space.mkv".to_vec());
}

#[test]
fn stored_name_stays_when_made_safe_again() {
    for name in [&b"../x"[..], b".a", b"", b"ok.mkv", b"a/b\\c"] {
        let once = sanitize(name);
        assert_eq!(sanitize(&once), once);
    }
}

#[test]
fn path_in_the_directory() {
    assert_eq!(destination_path(b"/home/me/Downloads", b"a.mkv"), b"/home/me/Downloads/a.mkv".to_vec());
    assert_eq!(destination_path(b"/home/me/Downloads/", b"a.mkv"), b"/home/me/Downloads/a.mkv".to_vec());
    assert_eq!(destination_path(b"", b"a.mkv"), b"a.mkv".to_vec());
    assert_eq!(destination_path(b"dir", b"x/y.mkv"), b"dir/x_y.mkv".to_vec());
}

#[test]
fn received_bytes_are_acknowledged() {
    assert_eq!(acknowledgement(0), [0, 0, 0, 0]);
    assert_eq!(acknowledgement(1), [0, 0, 0, 1]);
    assert_eq!(acknowledgement(0x01020304), [1, 2, 3, 4]);
    assert_eq!(acknowledgement(367001600), 367001600u32.to_be_bytes());
    assert_eq!(acknowledgement(0xffff_ffff), [255, 255, 255, 255]);
    assert_eq!(acknowledgement(0x1_0000_0000), [0, 0, 0, 0]);
    assert_eq!(acknowledgement(0x5_0000_0102), [0, 0, 1, 2]);
    assert_eq!(acknowledgement(u64::MAX), [255, 255, 255, 255]);
}
