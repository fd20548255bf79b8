use deet::linked_list::{LinkedList, Node};

#[test]
fn new_list_is_empty() {
    let list: LinkedList<u32> = LinkedList::new();
    assert_eq!(list.get_size(), 0);
    assert!(list.is_empty());
}

#[test]
fn push_front_then_pop_front_is_lifo() {
    let mut list: LinkedList<u32> = LinkedList::new();
    for i in 1..12 {
        list.push_front(i);
    }
    assert_eq!(list.get_size(), 11);
    assert!(!list.is_empty());
    assert_eq!(list.pop_front(), Some(11));
    assert_eq!(list.pop_front(), Some(10));
    assert_eq!(list.get_size(), 9);
    list.push_front(3);
    assert_eq!(list.pop_front(), Some(3));
    assert_eq!(list.get_size(), 9);
}

#[test]
fn pop_front_on_empty_list_gives_none() {
    let mut list: LinkedList<String> = LinkedList::new();
    assert_eq!(list.pop_front(), None);
    assert_eq!(list.get_size(), 0);
    list.push_front(String::from("a"));
    assert_eq!(list.pop_front(), Some(String::from("a")));
    assert_eq!(list.pop_front(), None);
    assert!(list.is_empty());
}

#[test]
fn cursor_walks_front_to_back() {
    let mut list: LinkedList<u8> = LinkedList::new();
    list.push_front(3);
    list.push_front(2);
    list.push_front(1);
    let mut it = list.iter();
    assert_eq!(it.next(), Some(&1));
    assert_eq!(it.next(), Some(&2));
    assert_eq!(it.next(), Some(&3));
    assert_eq!(it.next(), None);
    assert_eq!(it.next(), None);
    assert_eq!(list.get_size(), 3);
}

#[test]
fn node_new_keeps_value_and_rest() {
    let tail = Node::new(2u8, None);
    let head = Node::new(1u8, Some(Box::new(tail)));
    assert_eq!(head.value, 1);
    let rest = head.next.expect("a second node");
    assert_eq!(rest.value, 2);
    assert!(rest.next.is_none());
}

#[test]
fn clone_has_the_same_values_in_the_same_order() {
    let mut list: LinkedList<String> = LinkedList::new();
    list.push_front(String::from("c"));
    list.push_front(String::from("b"));
    list.push_front(String::from("a"));
    let mut copy = list.clone();
    assert_eq!(copy.get_size(), 3);
    assert_eq!(copy.pop_front(), Some(String::from("a")));
    assert_eq!(copy.pop_front(), Some(String::from("b")));
    assert_eq!(copy.pop_front(), Some(String::from("c")));
    assert_eq!(copy.pop_front(), None);
    assert_eq!(list.get_size(), 3);
    assert_eq!(list.pop_front(), Some(String::from("a")));
    let empty: LinkedList<u8> = LinkedList::new();
    assert!(empty.clone().is_empty());
}

#[test]
fn text_form_puts_a_space_before_every_value() {
    let mut list: LinkedList<u32> = LinkedList::new();
    assert_eq!(list.to_text(), "");
    for i in 1..12 {
        list.push_front(i);
    }
    assert_eq!(list.to_text(), " 11 10 9 8 7 6 5 4 3 2 1");
    list.pop_front();
    list.pop_front();
    assert_eq!(list.to_text(), " 9 8 7 6 5 4 3 2 1");
}
