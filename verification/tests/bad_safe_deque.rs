use linked_lists::bad_safe_deque::List;

#[test]
fn bad_safe_deque_basics() {
    let mut list = List::new();

    // Check empty list behaves right
    assert_eq!(list.pop_front(), None);

    // Populate list
    list.push_front(1);
    list.push_front(2);
    list.push_front(3);

    // Check normal removal
    assert_eq!(list.pop_front(), Some(3));
    assert_eq!(list.pop_front(), Some(2));

    // Push some more just to make sure nothing's corrupted
    list.push_front(4);
    list.push_front(5);

    // Check normal removal
    assert_eq!(list.pop_front(), Some(5));
    assert_eq!(list.pop_front(), Some(4));

    // Check exhaustion
    assert_eq!(list.pop_front(), Some(1));
    assert_eq!(list.pop_front(), None);

    // ---- back -----

    // Check empty list behaves right
    assert_eq!(list.pop_back(), None);

    // Populate list
    list.push_back(1);
    list.push_back(2);
    list.push_back(3);

    // Check normal removal
    assert_eq!(list.pop_back(), Some(3));
    assert_eq!(list.pop_back(), Some(2));

    // Push some more just to make sure nothing's corrupted
    list.push_back(4);
    list.push_back(5);

    // Check normal removal
    assert_eq!(list.pop_back(), Some(5));
    assert_eq!(list.pop_back(), Some(4));

    // Check exhaustion
    assert_eq!(list.pop_back(), Some(1));
    assert_eq!(list.pop_back(), None);
}

#[test]
fn bad_safe_deque_peek() {
    let mut list = List::new();
    assert!(list.peek_front().is_none());
    assert!(list.peek_back().is_none());
    assert!(list.peek_front_mut().is_none());
    assert!(list.peek_back_mut().is_none());

    list.push_front(1);
    list.push_front(2);
    list.push_front(3);

    assert_eq!(&*list.peek_front().unwrap(), &3);
    assert_eq!(&mut *list.peek_front_mut().unwrap(), &mut 3);
    assert_eq!(&*list.peek_back().unwrap(), &1);
    assert_eq!(&mut *list.peek_back_mut().unwrap(), &mut 1);
}

#[test]
fn bad_safe_deque_into_iter() {
    let mut list = List::new();
    list.push_front(1);
    list.push_front(2);
    list.push_front(3);

    let mut iter = list.into_iter();
    assert_eq!(iter.next(), Some(3));
    assert_eq!(iter.next_back(), Some(1));
    assert_eq!(iter.next(), Some(2));
    assert_eq!(iter.next_back(), None);
    assert_eq!(iter.next(), None);
}

fn drain_front(list: &mut List<i32>) -> Vec<i32> {
    let mut out = Vec::new();
    while let Some(elem) = list.pop_front() {
        out.push(elem);
    }
    out
}

fn drain_back(list: &mut List<i32>) -> Vec<i32> {
    let mut out = Vec::new();
    while let Some(elem) = list.pop_back() {
        out.push(elem);
    }
    out
}

fn mixed() -> List<i32> {
    let mut list = List::new();
    list.push_front(1);
    list.push_back(2);
    list.push_front(3);
    list.push_back(4);
    list.push_back(5);
    list.push_front(6);
    list
}

#[test]
fn deque_pop_front_order_is_front_to_back() {
    let mut list = mixed();
    assert_eq!(drain_front(&mut list), vec![6, 3, 1, 2, 4, 5]);
    assert_eq!(list.pop_front(), None);
    assert_eq!(list.pop_back(), None);
}

#[test]
fn deque_pop_back_order_is_back_to_front() {
    let mut list = mixed();
    let mut backward = drain_back(&mut list);
    assert_eq!(backward, vec![5, 4, 2, 1, 3, 6]);
    backward.reverse();
    assert_eq!(backward, drain_front(&mut mixed()));
}

#[test]
fn deque_of_symmetric_contents_pops_the_same_from_both_ends() {
    let mut front = List::new();
    let mut back = List::new();
    for elem in [7, 8, 7] {
        front.push_back(elem);
        back.push_back(elem);
    }
    let from_front = drain_front(&mut front);
    let mut reversed = from_front.clone();
    reversed.reverse();
    assert_eq!(from_front, vec![7, 8, 7]);
    assert_eq!(reversed, from_front);
    assert_eq!(drain_back(&mut back), from_front);
}

#[test]
fn deque_pop_on_empty_is_repeatable() {
    let mut list: List<i32> = List::new();
    for _ in 0..100 {
        assert_eq!(list.pop_front(), None);
        assert_eq!(list.pop_back(), None);
        assert!(list.peek_front().is_none());
        assert!(list.peek_back().is_none());
    }
    list.push_back(9);
    assert_eq!(list.pop_back(), Some(9));
    for _ in 0..100 {
        assert_eq!(list.pop_back(), None);
        assert_eq!(list.pop_front(), None);
    }
    list.push_front(10);
    assert_eq!(list.peek_back(), Some(&10));
    assert_eq!(list.pop_front(), Some(10));
}

#[test]
fn deque_single_element_is_front_and_back() {
    let mut list = List::new();
    list.push_back(1);
    assert_eq!(list.peek_front(), Some(&1));
    assert_eq!(list.peek_back(), Some(&1));
    assert_eq!(list.pop_front(), Some(1));
    assert_eq!(list.peek_front(), None);
    assert_eq!(list.peek_back(), None);
    assert_eq!(list.pop_back(), None);

    list.push_front(2);
    assert_eq!(list.peek_front(), Some(&2));
    assert_eq!(list.peek_back(), Some(&2));
    assert_eq!(list.pop_back(), Some(2));
    assert_eq!(list.pop_front(), None);
}

#[test]
fn deque_peek_front_mut_writes_through() {
    let mut list = List::new();
    list.push_front(1);
    list.push_front(2);
    list.push_front(3);
    assert_eq!(list.peek_front(), Some(&3));
    assert_eq!(list.peek_back(), Some(&1));
    if let Some(front) = list.peek_front_mut() {
        *front = 30;
    }
    assert_eq!(list.peek_front(), Some(&30));
    assert_eq!(list.peek_back(), Some(&1));
    assert_eq!(list.pop_front(), Some(30));
    assert_eq!(drain_front(&mut list), vec![2, 1]);
}

#[test]
fn deque_peek_back_mut_writes_through() {
    let mut list = List::new();
    list.push_back(1);
    list.push_back(2);
    list.push_back(3);
    if let Some(back) = list.peek_back_mut() {
        *back *= 10;
    }
    assert_eq!(list.peek_front(), Some(&1));
    assert_eq!(list.peek_back(), Some(&30));
    assert_eq!(drain_front(&mut list), vec![1, 2, 30]);
}

#[test]
fn deque_takes_vacant_slots_again() {
    let mut list = List::new();
    for round in 0..50 {
        list.push_back(round);
        list.push_front(round + 100);
        list.push_back(round + 200);
        assert_eq!(list.pop_front(), Some(round + 100));
        assert_eq!(list.pop_back(), Some(round + 200));
    }
    assert_eq!(drain_front(&mut list), (0..50).collect::<Vec<i32>>());

    for elem in 0..10 {
        list.push_front(elem);
    }
    assert_eq!(drain_back(&mut list), (0..10).collect::<Vec<i32>>());
}

#[test]
fn deque_clear_empties_the_list() {
    let mut list = List::new();
    list.clear();
    assert_eq!(list.pop_front(), None);
    for elem in 0..100_000 {
        list.push_back(elem);
    }
    list.clear();
    assert!(list.peek_front().is_none());
    assert!(list.peek_back().is_none());
    assert_eq!(list.pop_back(), None);
    list.push_front(1);
    list.push_back(2);
    assert_eq!(drain_front(&mut list), vec![1, 2]);
}

#[test]
fn deque_into_iter_meets_in_the_middle() {
    let mut even = List::new();
    for elem in 1..=4 {
        even.push_back(elem);
    }
    let mut iter = even.into_iter();
    assert_eq!(iter.next(), Some(1));
    assert_eq!(iter.next_back(), Some(4));
    assert_eq!(iter.next_back(), Some(3));
    assert_eq!(iter.next(), Some(2));
    assert_eq!(iter.next(), None);
    assert_eq!(iter.next_back(), None);

    let mut odd = List::new();
    for elem in 1..=3 {
        odd.push_back(elem);
    }
    let mut iter = odd.into_iter();
    assert_eq!(iter.next_back(), Some(3));
    assert_eq!(iter.next(), Some(1));
    assert_eq!(iter.next_back(), Some(2));
    assert_eq!(iter.next_back(), None);
    assert_eq!(iter.next(), None);

    let empty: List<i32> = List::new();
    let mut iter = empty.into_iter();
    assert_eq!(iter.next(), None);
    assert_eq!(iter.next_back(), None);
}

#[test]
fn deque_holds_elements_that_own_memory() {
    let mut list = List::new();
    list.push_back(String::from("b"));
    list.push_front(String::from("a"));
    list.push_back(String::from("c"));
    if let Some(front) = list.peek_front_mut() {
        front.push('!');
    }
    assert_eq!(list.pop_back(), Some(String::from("c")));
    assert_eq!(list.pop_front(), Some(String::from("a!")));
    assert_eq!(list.peek_front().map(|s| s.as_str()), Some("b"));
}
