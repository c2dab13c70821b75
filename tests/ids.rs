use crabnets::Id;

#[test]
fn integer_ids_start_at_minimum() {
    assert_eq!(<u8 as Id>::default(), 0);
    assert_eq!(<i8 as Id>::default(), -128);
    assert_eq!(<i64 as Id>::default(), i64::MIN);
    assert_eq!(<usize as Id>::default(), 0);
}

#[test]
fn integer_ids_increment_by_one() {
    let mut a: i16 = -1;
    a.increment();
    assert_eq!(a, 0);
    let mut b: u32 = 41;
    b.increment();
    assert_eq!(b, 42);
    assert!(Id::no_later_than(&254u8, &255u8));
    assert!(!Id::no_later_than(&3i32, &-3i32));
    assert!(255u8.is_max());
    assert!(!254u8.is_max());
}

#[test]
fn error_message_names_operation() {
    let e = crabnets::CrabNetsError::new("Graph::add_e", "Vertex missing.");
    assert_eq!(e.message, "Graph::add_e. Vertex missing.");
    assert_eq!(e.to_string(), "CrabNetsError: Graph::add_e. Vertex missing.");
}
