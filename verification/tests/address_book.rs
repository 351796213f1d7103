use game_network::addr::SocketAddr;
use game_network::address_book::AddressBook;
use game_network::msg::Username;

fn user(name: &str) -> Username {
    Username(String::from(name))
}

#[test]
fn new_book_is_empty() {
    let book = AddressBook::new();
    assert!(book.is_empty());
    assert_eq!(None, book.get_by_first(&SocketAddr::loopback(1)));
    assert_eq!(None, book.get_by_second(&user("ann")));
}

#[test]
fn entries_are_found_both_ways() {
    let mut book = AddressBook::new();
    book.insert(SocketAddr::loopback(1), user("ann"));
    book.insert(SocketAddr::loopback(2), user("bob"));
    assert!(!book.is_empty());
    assert_eq!(Some(user("ann")), book.get_by_first(&SocketAddr::loopback(1)));
    assert_eq!(Some(user("bob")), book.get_by_first(&SocketAddr::loopback(2)));
    assert_eq!(None, book.get_by_first(&SocketAddr::loopback(3)));
    assert_eq!(Some(SocketAddr::loopback(1)), book.get_by_second(&user("ann")));
    assert_eq!(Some(SocketAddr::loopback(2)), book.get_by_second(&user("bob")));
    assert_eq!(None, book.get_by_second(&user("cat")));
}

#[test]
fn an_address_is_taken_over() {
    let mut book = AddressBook::new();
    book.insert(SocketAddr::loopback(1), user("ann"));
    book.insert(SocketAddr::loopback(1), user("bob"));
    assert_eq!(Some(user("bob")), book.get_by_first(&SocketAddr::loopback(1)));
    assert_eq!(None, book.get_by_second(&user("ann")));
}

#[test]
fn a_user_moves() {
    let mut book = AddressBook::new();
    book.insert(SocketAddr::loopback(1), user("ann"));
    book.insert(SocketAddr::loopback(2), user("ann"));
    assert_eq!(None, book.get_by_first(&SocketAddr::loopback(1)));
    assert_eq!(Some(SocketAddr::loopback(2)), book.get_by_second(&user("ann")));
}

#[test]
fn only_one_entry_makes_way() {
    let mut book = AddressBook::new();
    book.insert(SocketAddr::loopback(1), user("ann"));
    book.insert(SocketAddr::loopback(2), user("bob"));
    book.insert(SocketAddr::loopback(1), user("bob"));
    assert_eq!(Some(user("bob")), book.get_by_first(&SocketAddr::loopback(1)));
    assert_eq!(Some(user("bob")), book.get_by_first(&SocketAddr::loopback(2)));
    assert_eq!(Some(SocketAddr::loopback(2)), book.get_by_second(&user("bob")));
}

#[test]
fn removed_users_are_gone() {
    let mut book = AddressBook::new();
    book.insert(SocketAddr::loopback(1), user("ann"));
    book.insert(SocketAddr::loopback(2), user("bob"));
    book.insert(SocketAddr::loopback(3), user("cat"));
    book.remove_by_second(&user("ann"));
    book.remove_by_second(&user("dan"));
    assert_eq!(None, book.get_by_first(&SocketAddr::loopback(1)));
    assert_eq!(None, book.get_by_second(&user("ann")));
    assert_eq!(Some(SocketAddr::loopback(2)), book.get_by_second(&user("bob")));
    assert_eq!(Some(user("cat")), book.get_by_first(&SocketAddr::loopback(3)));
    book.remove_by_second(&user("bob"));
    book.remove_by_second(&user("cat"));
    assert!(book.is_empty());
}
