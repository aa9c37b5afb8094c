use deet::linked_list::{spaced_text, LinkedList, Node};

fn values(list: &LinkedList<u32>) -> Vec<u32> {
    let mut found = Vec::new();
    let mut index = 0;
    while let Some(value) = list.get(index) {
        found.push(*value);
        index += 1;
    }
    found
}

#[test]
fn a_new_list_is_empty() {
    let list: LinkedList<u32> = LinkedList::new();
    assert_eq!(list.get_size(), 0);
    assert!(list.is_empty());
    assert_eq!(list.get(0), None);
}

#[test]
fn a_node_holds_its_value_and_the_rest() {
    let last = Node::new(2u32, None);
    let first = Node::new(1u32, Some(Box::new(last)));
    assert_eq!(first.value, 1);
    assert_eq!(first.next.as_ref().map(|node| node.value), Some(2));
    assert!(first.next.unwrap().next.is_none());
}

#[test]
fn what_is_pushed_last_comes_out_first() {
    let mut list: LinkedList<u32> = LinkedList::new();
    for i in 1..12 {
        list.push_front(i);
    }
    assert_eq!(list.get_size(), 11);
    assert!(!list.is_empty());
    assert_eq!(values(&list), vec![11, 10, 9, 8, 7, 6, 5, 4, 3, 2, 1]);
    assert_eq!(list.pop_front(), Some(11));
    assert_eq!(list.pop_front(), Some(10));
    assert_eq!(list.get_size(), 9);
    assert_eq!(values(&list), vec![9, 8, 7, 6, 5, 4, 3, 2, 1]);
}

#[test]
fn popping_an_empty_list_gives_nothing() {
    let mut list: LinkedList<String> = LinkedList::new();
    assert_eq!(list.pop_front(), None);
    assert_eq!(list.get_size(), 0);
    list.push_front("only".to_string());
    assert_eq!(list.pop_front(), Some("only".to_string()));
    assert_eq!(list.pop_front(), None);
    assert!(list.is_empty());
}

#[test]
fn reads_by_position_from_the_front() {
    let mut list: LinkedList<u32> = LinkedList::new();
    list.push_front(30);
    list.push_front(20);
    list.push_front(10);
    assert_eq!(list.get(0), Some(&10));
    assert_eq!(list.get(1), Some(&20));
    assert_eq!(list.get(2), Some(&30));
    assert_eq!(list.get(3), None);
    assert_eq!(list.get(usize::MAX), None);
}

#[test]
fn a_clone_holds_the_same_values_in_the_same_order_and_is_its_own_list() {
    let mut list: LinkedList<u32> = LinkedList::new();
    list.push_front(3);
    list.push_front(2);
    list.push_front(1);
    let mut copy = list.clone();
    assert_eq!(copy.get_size(), 3);
    assert_eq!(values(&copy), vec![1, 2, 3]);
    copy.push_front(0);
    assert_eq!(copy.pop_front(), Some(0));
    assert_eq!(copy.pop_front(), Some(1));
    assert_eq!(values(&list), vec![1, 2, 3]);
    assert_eq!(values(&copy), vec![2, 3]);
    let nothing: LinkedList<u32> = LinkedList::new();
    assert!(nothing.clone().is_empty());
}

#[test]
fn clearing_empties_a_long_list() {
    let mut list: LinkedList<usize> = LinkedList::new();
    for i in 0..200_000 {
        list.push_front(i);
    }
    assert_eq!(list.get_size(), 200_000);
    list.clear();
    assert!(list.is_empty());
    assert_eq!(list.pop_front(), None);
    list.push_front(1);
    assert_eq!(list.get_size(), 1);
}

#[test]
fn the_text_of_a_list_has_a_blank_before_each_value() {
    assert_eq!(spaced_text(&Vec::new()), "");
    assert_eq!(spaced_text(&vec!["1".to_string()]), " 1");
    assert_eq!(
        spaced_text(&vec!["1".to_string(), "22".to_string(), "".to_string(), "x y".to_string()]),
        " 1 22  x y"
    );
    let mut list: LinkedList<u32> = LinkedList::new();
    for i in 1..4 {
        list.push_front(i);
    }
    let parts: Vec<String> = list.values().iter().map(|value| value.to_string()).collect();
    assert_eq!(spaced_text(&parts), " 3 2 1");
}

#[test]
fn a_long_list_is_dropped_without_exhausting_the_stack() {
    let mut list: LinkedList<usize> = LinkedList::new();
    for i in 0..1_000_000 {
        list.push_front(i);
    }
    assert_eq!(list.get_size(), 1_000_000);
    drop(list);
    let mut text: LinkedList<String> = LinkedList::new();
    for i in 0..1000 {
        text.push_front(i.to_string());
    }
    let copy = text.clone();
    drop(text);
    assert_eq!(copy.get(0), Some(&"999".to_string()));
}
