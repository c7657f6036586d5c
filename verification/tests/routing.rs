use minerp::queue::Receiver;
use minerp::router::{handed_over, RouteError, RouteGuard, Router};
use minerp::table::{Key, Table};

#[test]
fn table_operations() {
    let mut t: Table<String, u8> = Table::new();
    assert!(!t.contains(&"a".to_owned()));
    assert_eq!(t.insert("a".to_owned(), 1), None);
    assert_eq!(t.insert("b".to_owned(), 2), None);
    assert_eq!(t.insert("a".to_owned(), 3), Some(1));
    assert_eq!(t.get(&"a".to_owned()), Some(&3));
    assert_eq!(t.get(&"c".to_owned()), None);
    let mut keys = t.keys();
    keys.sort();
    assert_eq!(keys, vec!["a".to_owned(), "b".to_owned()]);
    assert_eq!(t.remove(&"a".to_owned()), Some(3));
    assert_eq!(t.remove(&"a".to_owned()), None);
    assert!(t.contains(&"b".to_owned()));
}

#[test]
fn keys_are_compared_whole() {
    let mut a = [7u8; 32];
    assert!(a.same(&[7u8; 32]));
    a[31] = 8;
    assert!(!a.same(&[7u8; 32]));
    assert!("x".to_owned().same(&"x".to_owned()));
    assert!(!"x".to_owned().same(&"X".to_owned()));
    assert_eq!(a.duplicate(), a);
}

#[test]
fn router_operations() {
    let mut r: Router<String, u32> = Router::new();
    assert!(!r.has_route(&"one".to_owned()));
    r.register("one".to_owned(), 1);
    r.register("two".to_owned(), 2);
    r.register("one".to_owned(), 11);
    assert!(r.has_route(&"one".to_owned()));
    assert_eq!(r.queue(&"one".to_owned()), Some(&11));
    assert_eq!(r.names().len(), 2);
    r.unregister(&"one".to_owned());
    r.unregister(&"three".to_owned());
    assert_eq!(r.names(), vec!["two".to_owned()]);
}

#[test]
fn routed_connections_arrive_in_order() {
    let mut r = Router::new();
    let guard = RouteGuard::new(&mut r, "name".to_owned());
    assert_eq!(guard.name, "name");
    let mut guard = guard.listen();
    assert_eq!(guard.name, "name");
    assert!(r.route(&"name".to_owned(), 5u32).is_ok());
    assert!(r.route(&"name".to_owned(), 6u32).is_ok());
    assert_eq!(guard.queue.try_recv().ok(), Some(5));
    assert_eq!(guard.queue.try_recv().ok(), Some(6));
    assert!(guard.queue.try_recv().is_err());
}

#[test]
fn route_without_name() {
    let mut r = Router::new();
    let _guard: RouteGuard<String, _> = RouteGuard::new(&mut r, "a".to_owned());
    assert!(matches!(r.route(&"b".to_owned(), 1u8), Err(RouteError::NoSuchConnection)));
}

#[test]
fn route_into_a_closed_queue() {
    let mut r = Router::new();
    let guard = RouteGuard::new(&mut r, [1u8; 32]);
    drop(guard.queue);
    assert!(matches!(r.route(&[1u8; 32], 42u8), Err(RouteError::QueueClosed(42))));
}

#[test]
fn released_guard_leaves_no_route() {
    let mut r = Router::new();
    let _other: RouteGuard<String, Receiver<u8>> = RouteGuard::new(&mut r, "other".to_owned());
    let guard = RouteGuard::new(&mut r, "name".to_owned());
    assert!(r.has_route(&"name".to_owned()));
    guard.release(&mut r);
    assert!(!r.has_route(&"name".to_owned()));
    assert_eq!(r.names(), vec!["other".to_owned()]);
}

#[test]
fn second_guard_takes_over_and_the_first_takes_the_route_away() {
    let mut r = Router::new();
    let mut first = RouteGuard::new(&mut r, "n".to_owned()).listen();
    let mut second = RouteGuard::new(&mut r, "n".to_owned()).listen();
    assert!(r.route(&"n".to_owned(), 9u8).is_ok());
    assert!(first.queue.try_recv().is_err());
    assert_eq!(second.queue.try_recv().ok(), Some(9));
    first.release(&mut r);
    assert!(!r.has_route(&"n".to_owned()));
}

#[test]
fn guard_with_a_given_queue() {
    let mut r: Router<String, char> = Router::new();
    let guard = RouteGuard::with_queue(&mut r, "k".to_owned(), 's', 'r');
    assert_eq!(r.queue(&"k".to_owned()), Some(&'s'));
    assert_eq!(guard.queue, 'r');
}

#[test]
fn outcome_of_handing_over() {
    assert!(matches!(handed_over::<char, u8>(Ok('d')), Ok('d')));
    assert!(matches!(handed_over::<(), u8>(Err(3)), Err(RouteError::QueueClosed(3))));
}

#[test]
fn names_do_not_share_what_is_routed() {
    let mut r = Router::new();
    let mut a = RouteGuard::new(&mut r, "a".to_owned()).listen();
    let mut b = RouteGuard::new(&mut r, "b".to_owned()).listen();
    for (name, conn) in [("a", 1u8), ("b", 2), ("a", 3), ("b", 4), ("a", 5)] {
        assert!(r.route(&name.to_owned(), conn).is_ok());
    }
    for conn in [1, 3, 5] {
        assert_eq!(a.queue.try_recv().ok(), Some(conn));
    }
    for conn in [2, 4] {
        assert_eq!(b.queue.try_recv().ok(), Some(conn));
    }
    assert!(a.queue.try_recv().is_err());
    assert!(b.queue.try_recv().is_err());
}

#[test]
fn other_names_leave_a_route_alone() {
    let mut r = Router::new();
    let mut kept = RouteGuard::new(&mut r, "kept".to_owned()).listen();
    let other = RouteGuard::new(&mut r, "other".to_owned());
    other.release(&mut r);
    assert!(r.route(&"kept".to_owned(), 8u8).is_ok());
    assert!(matches!(r.route(&"other".to_owned(), 9u8), Err(RouteError::NoSuchConnection)));
    assert_eq!(kept.queue.try_recv().ok(), Some(8));
}

#[test]
fn arrivals_keep_their_order_while_other_routes_change() {
    let mut r = Router::new();
    let mut kept = RouteGuard::new(&mut r, "kept".to_owned()).listen();
    for conn in 0u8..5 {
        let other = RouteGuard::new(&mut r, "other".to_owned()).listen();
        assert!(r.route(&"kept".to_owned(), conn).is_ok());
        assert!(r.route(&"other".to_owned(), 100 + conn).is_ok());
        other.release(&mut r);
    }
    for conn in 0u8..5 {
        assert_eq!(kept.queue.try_recv().ok(), Some(conn));
    }
    assert!(kept.queue.try_recv().is_err());
}
