use temple::lookahead::Lookahead;

#[test]
fn test_lookahead_iter() {
    let mut lookahead = Lookahead::<_, 5>::new(vec![1, 2, 3, 4, 5, 6]);

    assert_eq!(lookahead.peek_nth(0), Some(&1));
    assert_eq!(lookahead.peek_nth(1), Some(&2));
    assert_eq!(lookahead.peek_nth(2), Some(&3));
    assert_eq!(lookahead.peek_nth(3), Some(&4));
    assert_eq!(lookahead.peek_nth(4), Some(&5));

    assert_eq!(lookahead.next(), Some(1));
    assert_eq!(lookahead.peek_nth(0), Some(&2));
    assert_eq!(lookahead.peek_nth(1), Some(&3));
    assert_eq!(lookahead.peek_nth(2), Some(&4));
    assert_eq!(lookahead.peek_nth(3), Some(&5));
    assert_eq!(lookahead.peek_nth(4), Some(&6));

    assert_eq!(lookahead.next(), Some(2));
    assert_eq!(lookahead.peek_nth(0), Some(&3));
    assert_eq!(lookahead.peek_nth(1), Some(&4));
    assert_eq!(lookahead.peek_nth(2), Some(&5));
    assert_eq!(lookahead.peek_nth(3), Some(&6));
    assert_eq!(lookahead.peek_nth(4), None);

    assert_eq!(lookahead.next(), Some(3));
    assert_eq!(lookahead.peek_nth(0), Some(&4));
    assert_eq!(lookahead.peek_nth(1), Some(&5));
    assert_eq!(lookahead.peek_nth(2), Some(&6));
    assert_eq!(lookahead.peek_nth(3), None);
    assert_eq!(lookahead.peek_nth(4), None);

    assert_eq!(lookahead.next(), Some(4));
    assert_eq!(lookahead.peek_nth(0), Some(&5));
    assert_eq!(lookahead.peek_nth(1), Some(&6));
    assert_eq!(lookahead.peek_nth(2), None);
    assert_eq!(lookahead.peek_nth(3), None);
    assert_eq!(lookahead.peek_nth(4), None);

    assert_eq!(lookahead.next(), Some(5));
    assert_eq!(lookahead.peek_nth(0), Some(&6));
    assert_eq!(lookahead.peek_nth(1), None);
    assert_eq!(lookahead.peek_nth(2), None);
    assert_eq!(lookahead.peek_nth(3), None);
    assert_eq!(lookahead.peek_nth(4), None);

    assert_eq!(lookahead.next(), Some(6));
    assert_eq!(lookahead.peek_nth(0), None);
    assert_eq!(lookahead.peek_nth(1), None);
    assert_eq!(lookahead.peek_nth(2), None);
    assert_eq!(lookahead.peek_nth(3), None);
    assert_eq!(lookahead.peek_nth(4), None);

    assert_eq!(lookahead.next(), None);
    assert_eq!(lookahead.peek_nth(0), None);
    assert_eq!(lookahead.peek_nth(1), None);
    assert_eq!(lookahead.peek_nth(2), None);
    assert_eq!(lookahead.peek_nth(3), None);
    assert_eq!(lookahead.peek_nth(4), None);
}

#[test]
fn lookahead_stays_at_end() {
    let mut lookahead = Lookahead::<_, 2>::new(vec!['a']);
    assert_eq!(lookahead.next(), Some('a'));
    assert_eq!(lookahead.next(), None);
    assert_eq!(lookahead.next(), None);
    assert_eq!(lookahead.peek_nth(0), None);
}

#[test]
fn lookahead_window_limits_peek() {
    let lookahead = Lookahead::<_, 2>::new(vec!['a', 'b', 'c']);
    assert_eq!(lookahead.peek_nth(1), Some(&'b'));
    assert_eq!(lookahead.peek_nth(2), None);
}

#[test]
fn lookahead_has_next_matches_exactly() {
    let lookahead = Lookahead::<_, 3>::new(vec!['-', '}', '}', 'x']);
    assert!(lookahead.has_next(&['-', '}', '}']));
    assert!(lookahead.has_next(&['-']));
    assert!(lookahead.has_next(&[]));
    assert!(!lookahead.has_next(&['-', '%', '}']));
    assert!(!lookahead.has_next(&['-', '}', '}', 'x']));
    let short = Lookahead::<_, 3>::new(vec!['{']);
    assert!(!short.has_next(&['{', '{']));
}

#[test]
fn lookahead_with_next_consumes_only_on_match() {
    let mut lookahead = Lookahead::<_, 3>::new(vec!['{', '%', 'a']);
    assert!(!lookahead.with_next(&['{', '{']));
    assert_eq!(lookahead.peek_nth(0), Some(&'{'));
    assert!(lookahead.with_next(&['{', '%']));
    assert_eq!(lookahead.peek_nth(0), Some(&'a'));
    assert_eq!(lookahead.peek_nth(1), None);
}

#[test]
fn lookahead_skip_next_stops_at_end() {
    let mut lookahead = Lookahead::<_, 3>::new(vec![1, 2, 3]);
    lookahead.skip_next(2);
    assert_eq!(lookahead.next(), Some(3));
    lookahead.skip_next(5);
    assert_eq!(lookahead.next(), None);
}
