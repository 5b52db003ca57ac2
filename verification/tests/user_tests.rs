use silent::address::IpAddress;
use silent::user::{User, UserErr};

fn contact(name: &str, id: u128, ip: u32) -> User {
    User { name: name.to_string(), id, ip: IpAddress::V4(ip), contacts: None }
}

fn owner(contacts: Vec<User>) -> User {
    User { name: "me".to_string(), id: 1, ip: IpAddress::V4(0x7f000001), contacts: Some(contacts) }
}

fn names(u: &User) -> Vec<String> {
    u.contacts.as_ref().unwrap().iter().map(|c| c.name.clone()).collect()
}

#[test]
fn search_by_name_finds_the_first_contact_of_that_name() {
    let mut u = owner(vec![contact("ann", 10, 1), contact("bob", 20, 2), contact("bob", 30, 3)]);
    let found = u.search_by_name("bob").unwrap();
    assert_eq!(found, contact("bob", 20, 2));
    assert_eq!(u.search_by_name("zed"), Err(UserErr::UserNotFound));
}

#[test]
fn search_without_a_contact_list_finds_nothing() {
    let mut c = contact("ann", 10, 1);
    assert_eq!(c.search_by_name("ann"), Err(UserErr::UserNotFound));
    assert_eq!(c.search_by_id(10), Err(UserErr::UserNotFound));
    assert_eq!(c.search_by_ip(IpAddress::V4(1)), Err(UserErr::UserNotFound));
}

#[test]
fn search_by_id_and_by_ip() {
    let mut u = owner(vec![contact("ann", 10, 1), contact("bob", 20, 2)]);
    assert_eq!(u.search_by_id(20).unwrap().name, "bob");
    assert_eq!(u.search_by_id(99), Err(UserErr::UserNotFound));
    assert_eq!(u.search_by_ip(IpAddress::V4(1)).unwrap().name, "ann");
    assert_eq!(u.search_by_ip(IpAddress::V6(1)), Err(UserErr::UserNotFound));
}

#[test]
fn remove_by_name_removes_only_the_first_match() {
    let mut u = owner(vec![contact("ann", 10, 1), contact("bob", 20, 2), contact("bob", 30, 3)]);
    assert_eq!(u.remove_by_name("bob"), Ok(()));
    assert_eq!(names(&u), vec!["ann", "bob"]);
    assert_eq!(u.contacts.as_ref().unwrap()[1].id, 30);
    assert_eq!(u.remove_by_name("zed"), Err(UserErr::UserNotFound));
    assert_eq!(names(&u), vec!["ann", "bob"]);
}

#[test]
fn remove_by_id_and_by_ip() {
    let mut u = owner(vec![contact("ann", 10, 1), contact("bob", 20, 2)]);
    assert_eq!(u.remove_by_id(10), Ok(()));
    assert_eq!(names(&u), vec!["bob"]);
    assert_eq!(u.remove_by_id(10), Err(UserErr::UserNotFound));
    assert_eq!(u.remove_by_ip(IpAddress::V4(2)), Ok(()));
    assert!(u.contacts.as_ref().unwrap().is_empty());
    assert_eq!(u.remove_by_ip(IpAddress::V4(2)), Err(UserErr::UserNotFound));
}

#[test]
fn new_refuses_a_name_that_is_already_a_contact() {
    let mut u = owner(vec![contact("ann", 10, 1)]);
    assert_eq!(u.new("ann", IpAddress::V4(5)), Err(UserErr::UserNotFound));
    let c = u.new_with_id("bob", IpAddress::V4(5), 77).unwrap();
    assert_eq!(c, contact("bob", 77, 5));
    let d = u.new("carl", IpAddress::V4(6)).unwrap();
    assert_eq!(d.name, "carl");
    assert_eq!(d.ip, IpAddress::V4(6));
    assert!(d.contacts.is_none());
    assert_eq!((d.id >> 76) & 0xf, 4);
    assert_eq!((d.id >> 62) & 0x3, 2);
}

#[test]
fn addcontact_skips_a_known_identifier() {
    let mut u = owner(vec![contact("ann", 10, 1)]);
    assert_eq!(u.addcontact(contact("other", 10, 9)), Ok(()));
    assert_eq!(names(&u), vec!["ann"]);
    assert_eq!(u.addcontact(contact("bob", 20, 2)), Ok(()));
    assert_eq!(names(&u), vec!["ann", "bob"]);
    let mut empty = owner(vec![]);
    assert_eq!(empty.addcontact(contact("bob", 20, 2)), Ok(()));
    assert_eq!(names(&empty), vec!["bob"]);
}

#[test]
fn add_newcontact_adds_once_per_name() {
    let mut u = owner(vec![contact("ann", 10, 1)]);
    assert_eq!(u.add_newcontact_with_id("bob", IpAddress::V4(2), 20), Ok(()));
    assert_eq!(names(&u), vec!["ann", "bob"]);
    assert_eq!(u.contacts.as_ref().unwrap()[1], contact("bob", 20, 2));
    assert_eq!(u.add_newcontact_with_id("bob", IpAddress::V4(3), 30), Ok(()));
    assert_eq!(names(&u), vec!["ann", "bob"]);
    assert_eq!(u.add_newcontact_with_id("carl", IpAddress::V4(3), 10), Ok(()));
    assert_eq!(names(&u), vec!["ann", "bob"]);
    assert_eq!(u.add_newcontact("dora", IpAddress::V4(4)), Ok(()));
    assert_eq!(names(&u), vec!["ann", "bob", "dora"]);
    assert_eq!(u.add_newcontact("dora", IpAddress::V4(4)), Ok(()));
    assert_eq!(names(&u), vec!["ann", "bob", "dora"]);
}

#[test]
fn add_then_search_finds_the_new_contact() {
    let mut u = owner(vec![contact("ann", 10, 1)]);
    u.add_newcontact_with_id("bob", IpAddress::V4(2), 20).unwrap();
    assert_eq!(u.search_by_name("bob"), Ok(contact("bob", 20, 2)));
}

#[test]
fn remove_then_search_finds_nothing() {
    let mut u = owner(vec![contact("ann", 10, 1), contact("bob", 20, 2)]);
    u.remove_by_name("ann").unwrap();
    assert_eq!(u.search_by_name("ann"), Err(UserErr::UserNotFound));
}

#[test]
fn update_contact_takes_the_file_list_when_there_is_no_contact() {
    let mut u = owner(vec![]);
    u.update_contact(Some(vec![contact("ann", 10, 1), contact("ann", 11, 1)]));
    assert_eq!(names(&u), vec!["ann", "ann"]);
}

#[test]
fn update_contact_adds_only_new_names() {
    let mut u = owner(vec![contact("ann", 10, 1)]);
    u.update_contact(Some(vec![contact("ann", 11, 9), contact("bob", 20, 2), contact("bob", 21, 3)]));
    assert_eq!(names(&u), vec!["ann", "bob"]);
    assert_eq!(u.contacts.as_ref().unwrap()[0].id, 10);
    assert_eq!(u.contacts.as_ref().unwrap()[1].id, 20);
    u.update_contact(None);
    assert_eq!(names(&u), vec!["ann", "bob"]);
}

#[test]
fn update_contact_twice_changes_nothing_more() {
    let mut u = owner(vec![contact("ann", 10, 1)]);
    let file = || vec![contact("bob", 20, 2), contact("carl", 30, 3)];
    u.update_contact(Some(file()));
    let once = u.clone();
    u.update_contact(Some(file()));
    assert_eq!(u, once);
}

#[test]
fn clone_copies_the_contacts_deeply() {
    let mut inner = contact("bob", 20, 2);
    inner.contacts = Some(vec![contact("x", 1, 1)]);
    let u = owner(vec![contact("ann", 10, 1), inner]);
    let c = u.clone();
    assert_eq!(c, u);
    assert_eq!(u.duplicate(), u);
}

#[test]
fn first_user_has_an_empty_contact_list() {
    let u = User::first_user_with_id("me", IpAddress::V4(3), 42);
    assert_eq!(u, User { name: "me".to_string(), id: 42, ip: IpAddress::V4(3), contacts: Some(vec![]) });
    let v = User::first_user("you", IpAddress::V6(1)).unwrap();
    assert_eq!((v.id >> 76) & 0xf, 4);
    assert_eq!((v.id >> 62) & 0x3, 2);
    assert_eq!(v.name, "you");
    assert_eq!(v.contacts, Some(vec![]));
}

#[test]
fn update_contact_twice_from_an_empty_list_changes_nothing_more() {
    let mut u = owner(vec![]);
    let file = || vec![contact("bob", 20, 2), contact("bob", 21, 3), contact("carl", 30, 3)];
    u.update_contact(Some(file()));
    let once = u.clone();
    u.update_contact(Some(file()));
    assert_eq!(u, once);
}
