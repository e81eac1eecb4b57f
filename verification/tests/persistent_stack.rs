use linked_lists::persistent_stack::List;

#[test]
fn persistent_stack_basics() {
    let list = List::new();
    assert_eq!(list.head(), None);

    let list = list.prepend(1).prepend(2).prepend(3);
    assert_eq!(list.head(), Some(&3));

    let list = list.tail();
    assert_eq!(list.head(), Some(&2));

    let list = list.tail();
    assert_eq!(list.head(), Some(&1));

    let list = list.tail();
    assert_eq!(list.head(), None);

    // Make sure empty tail works
    let list = list.tail();
    assert_eq!(list.head(), None);
}

#[test]
fn persistent_stack_iter() {
    let list = List::new().prepend(1).prepend(2).prepend(3);

    let mut iter = list.iter();
    assert_eq!(iter.next(), Some(&3));
    assert_eq!(iter.next(), Some(&2));
    assert_eq!(iter.next(), Some(&1));
}

fn contents(list: &List<i32>) -> Vec<i32> {
    let mut out = Vec::new();
    let mut iter = list.iter();
    while let Some(elem) = iter.next() {
        out.push(*elem);
    }
    out
}

#[test]
fn persistent_stack_lists_share_their_tails() {
    let base = List::new().prepend(1).prepend(2);
    let left = base.prepend(3);
    let right = base.prepend(4);
    let below = base.tail();

    assert_eq!(contents(&base), vec![2, 1]);
    assert_eq!(contents(&left), vec![3, 2, 1]);
    assert_eq!(contents(&right), vec![4, 2, 1]);
    assert_eq!(contents(&below), vec![1]);
    assert_eq!(contents(&left.tail()), contents(&base));

    drop(base);
    assert_eq!(contents(&left), vec![3, 2, 1]);
    assert_eq!(contents(&right.tail().tail()), vec![1]);
}

#[test]
fn persistent_stack_clear_leaves_shared_nodes_alone() {
    let base = List::new().prepend(1).prepend(2);
    let mut longer = base.prepend(3).prepend(4);
    longer.clear();
    assert_eq!(longer.head(), None);
    assert_eq!(contents(&longer), Vec::<i32>::new());
    assert_eq!(contents(&base), vec![2, 1]);

    let mut alone = List::new();
    for elem in 0..200_000 {
        alone = alone.prepend(elem);
    }
    assert_eq!(alone.head(), Some(&199_999));
    alone.clear();
    assert_eq!(alone.head(), None);
    assert_eq!(alone.tail().head(), None);
}

#[test]
fn persistent_stack_iter_ends_and_stays_ended() {
    let empty: List<i32> = List::new();
    let mut iter = empty.iter();
    assert_eq!(iter.next(), None);
    assert_eq!(iter.next(), None);

    let one = empty.prepend(5);
    let mut iter = one.iter();
    assert_eq!(iter.next(), Some(&5));
    assert_eq!(iter.next(), None);
    assert_eq!(empty.head(), None);
}
