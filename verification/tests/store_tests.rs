use silent::address::{ipv4_text, parse_ipv4, IpAddress};
use silent::store::{
    already_writed_in, get_contacts_from, read_line_record, record_line, search_first_user_in,
    user_file_access,
};
use silent::user::{User, UserErr};

const ID1: &str = "550e8400-e29b-41d4-a716-446655440000";
const ID1_NUM: u128 = 0x550e8400e29b41d4a716446655440000;

fn chars(s: &str) -> Vec<char> {
    s.chars().collect()
}

#[test]
fn contact_lines_are_read_in_order() {
    let text = format!("$:me:{ID1}:10.0.0.1\n@:ann:{ID1}:192.168.1.2\n  @:bob:{ID1}:1.2.3.4  \n");
    let users = get_contacts_from(&text).unwrap();
    assert_eq!(users.len(), 2);
    assert_eq!(users[0], User { name: "ann".to_string(), id: ID1_NUM, ip: IpAddress::V4(0xc0a80102), contacts: None });
    assert_eq!(users[1].name, "bob");
    assert_eq!(users[1].ip, IpAddress::V4(0x01020304));
}

#[test]
fn malformed_lines_are_skipped() {
    let text = format!(
        "@:ann:{ID1}\n@::{ID1}:1.2.3.4\n@:ann:not-a-uuid:1.2.3.4\n@:ann:{ID1}:256.1.1.1\n@:ann:{ID1}:01.2.3.4\n@:ann:{ID1}:::1\n#:ann:{ID1}:1.2.3.4\n@:ok:{ID1}:0.0.0.0"
    );
    let users = get_contacts_from(&text).unwrap();
    assert_eq!(users.len(), 1);
    assert_eq!(users[0].name, "ok");
    assert_eq!(users[0].ip, IpAddress::V4(0));
}

#[test]
fn the_first_user_line_is_the_user() {
    let text = format!("@:ann:{ID1}:1.1.1.1\n$:me:bad:1.1.1.1\n$:me:{ID1}:10.0.0.1\n$:you:{ID1}:10.0.0.2\n");
    let me = search_first_user_in(&text).unwrap();
    assert_eq!(me, User { name: "me".to_string(), id: ID1_NUM, ip: IpAddress::V4(0x0a000001), contacts: Some(vec![]) });
    assert_eq!(search_first_user_in("@:ann:x:1.1.1.1\n"), Err(UserErr::UserNotFound));
    assert_eq!(search_first_user_in(""), Err(UserErr::UserNotFound));
}

#[test]
fn already_writed_looks_at_complete_contact_lines_only() {
    let text = format!("$:me:{ID1}:1.1.1.1\n@:ann:anything:x\n@:bob:{ID1}\n");
    assert!(already_writed_in(&text, "ann"));
    assert!(!already_writed_in(&text, "me"));
    assert!(!already_writed_in(&text, "bob"));
    assert!(!already_writed_in("", "ann"));
}

#[test]
fn record_line_writes_marker_name_identifier_and_address() {
    assert_eq!(record_line('@', "ann", ID1_NUM, "192.168.1.2"), format!("@:ann:{ID1}:192.168.1.2"));
    assert_eq!(record_line('$', "me", 0, "::1"), "$:me:00000000-0000-0000-0000-000000000000:::1");
}

#[test]
fn a_written_line_reads_back() {
    let line = record_line('@', "ann", ID1_NUM, &ipv4_text(0xc0a80102));
    let (name, id, ip) = read_line_record(&chars(&line), '@').unwrap();
    assert_eq!(name, "ann");
    assert_eq!(id, ID1_NUM);
    assert_eq!(ip, 0xc0a80102);
    assert!(read_line_record(&chars(&line), '$').is_none());
    let users = get_contacts_from(&format!("{line}\n{line}\n")).unwrap();
    assert_eq!(users.len(), 2);
}

#[test]
fn ipv4_text_and_parse() {
    assert_eq!(ipv4_text(0xc0a80102), "192.168.1.2");
    assert_eq!(ipv4_text(0), "0.0.0.0");
    assert_eq!(ipv4_text(0xffffffff), "255.255.255.255");
    assert_eq!(parse_ipv4(&chars("10.20.30.40")), Some(0x0a141e28));
    assert_eq!(parse_ipv4(&chars("1.2.3")), None);
    assert_eq!(parse_ipv4(&chars("1.2.3.4.5")), None);
    assert_eq!(parse_ipv4(&chars("1.2.3.04")), None);
    assert_eq!(parse_ipv4(&chars("1.2.3.1000")), None);
    assert_eq!(parse_ipv4(&chars("1.2..4")), None);
    assert_eq!(parse_ipv4(&chars("1.2.3.a")), None);
    for a in [0u32, 1, 0x7f000001, 0xdeadbeef, 0xffffffff, 0x0a0a0a0a] {
        assert_eq!(parse_ipv4(&chars(&ipv4_text(a))), Some(a));
    }
}

#[test]
fn user_file_access_by_permission_bits() {
    assert_eq!(user_file_access(0o644), Ok(()));
    assert_eq!(user_file_access(0o600), Ok(()));
    assert_eq!(user_file_access(0o444), Err(UserErr::FailedRead));
    assert_eq!(user_file_access(0o400), Err(UserErr::FailedRead));
    assert_eq!(user_file_access(0o244), Err(UserErr::FailedWrite));
    assert_eq!(user_file_access(0o200), Err(UserErr::FailedWrite));
    assert_eq!(user_file_access(0), Err(UserErr::FailedWrite));
}

#[test]
fn an_appended_contact_line_is_read_last() {
    let mut text = format!("$:me:{ID1}:10.0.0.1\n@:ann:{ID1}:1.1.1.1\n");
    let before = get_contacts_from(&text).unwrap();
    text.push_str(&record_line('@', "bob", 42, &ipv4_text(0x0a000002)));
    text.push('\n');
    let after = get_contacts_from(&text).unwrap();
    assert_eq!(after.len(), before.len() + 1);
    assert_eq!(after[..before.len()], before[..]);
    assert_eq!(after[before.len()], User { name: "bob".to_string(), id: 42, ip: IpAddress::V4(0x0a000002), contacts: None });
}

#[test]
fn an_appended_user_line_is_the_user_found() {
    let mut text = format!("@:ann:{ID1}:1.1.1.1\n");
    assert_eq!(search_first_user_in(&text), Err(UserErr::UserNotFound));
    text.push_str(&record_line('$', "me", 7, &ipv4_text(0x7f000001)));
    text.push('\n');
    assert_eq!(search_first_user_in(&text), Ok(User { name: "me".to_string(), id: 7, ip: IpAddress::V4(0x7f000001), contacts: Some(vec![]) }));
}

#[test]
fn reading_contacts_always_gives_a_list() {
    assert_eq!(get_contacts_from(""), Some(vec![]));
    assert_eq!(get_contacts_from("garbage\n::::\n"), Some(vec![]));
}

#[test]
fn a_contact_written_once_is_seen_as_written() {
    let mut text = format!("$:me:{ID1}:10.0.0.1\n");
    assert!(!already_writed_in(&text, "bob"));
    text.push_str(&record_line('@', "bob", 42, &ipv4_text(0x0a000002)));
    text.push('\n');
    assert!(already_writed_in(&text, "bob"));
}

#[test]
fn the_first_user_stays_the_user_found() {
    let mut text = format!("$:me:{ID1}:10.0.0.1\n");
    let first = search_first_user_in(&text).unwrap();
    text.push_str(&record_line('$', "other", 7, &ipv4_text(1)));
    text.push('\n');
    assert_eq!(search_first_user_in(&text), Ok(first));
}

#[test]
fn an_identifier_of_the_wrong_length_is_not_read() {
    let short = &ID1[..35];
    assert!(read_line_record(&chars(&format!("@:ann:{short}:1.2.3.4")), '@').is_none());
    let simple = ID1.replace('-', "");
    let (_, id, _) = read_line_record(&chars(&format!("@:ann:{simple}:1.2.3.4")), '@').unwrap();
    assert_eq!(id, ID1_NUM);
}
