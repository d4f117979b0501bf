use phaneros::observer::Publisher;

#[test]
fn notify_reaches_listeners_in_subscription_order() {
    let mut publisher: Publisher<u64, u32> = Publisher::new();
    publisher.subscribe(1, 10);
    publisher.subscribe(2, 20);
    publisher.subscribe(1, 11);
    assert_eq!(publisher.notify(&1), vec![10, 11]);
    assert_eq!(publisher.notify(&2), vec![20]);
    assert_eq!(publisher.notify(&3), Vec::<u32>::new());
}

#[test]
fn unsubscribe_removes_every_copy_of_the_listener() {
    let mut publisher: Publisher<u64, u32> = Publisher::new();
    publisher.subscribe(1, 10);
    publisher.subscribe(1, 11);
    publisher.subscribe(1, 10);
    publisher.unsubscribe(&1, 10);
    assert_eq!(publisher.notify(&1), vec![11]);
}

#[test]
fn unsubscribing_the_last_listener_leaves_the_kind_empty() {
    let mut publisher: Publisher<u64, u32> = Publisher::new();
    publisher.subscribe(7, 1);
    publisher.unsubscribe(&7, 1);
    assert_eq!(publisher.notify(&7), Vec::<u32>::new());
    publisher.subscribe(7, 2);
    assert_eq!(publisher.notify(&7), vec![2]);
}

#[test]
fn unsubscribe_of_an_unknown_kind_changes_nothing() {
    let mut publisher: Publisher<u64, u32> = Publisher::new();
    publisher.subscribe(1, 10);
    publisher.unsubscribe(&2, 10);
    publisher.unsubscribe(&1, 99);
    assert_eq!(publisher.notify(&1), vec![10]);
}
