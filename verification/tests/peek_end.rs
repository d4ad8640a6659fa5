use iter_peek_end::IterPeekEnd;

#[test]
fn it_work() {
    let my_vec = vec![1, 2, 3];
    let mut it = my_vec.iter().peekable();

    assert_eq!(it.is_last(), false);
    assert_eq!(it.is_not_last(), !it.is_last());

    assert_eq!(it.next(), Some(&1));
    assert_eq!(it.is_last(), false);
    assert_eq!(it.is_not_last(), !it.is_last());

    assert_eq!(it.next(), Some(&2));
    assert_eq!(it.is_last(), false);
    assert_eq!(it.is_not_last(), !it.is_last());
    assert_eq!(it.next(), Some(&3));

    assert_eq!(it.is_last(), true);
    assert_eq!(it.is_not_last(), !it.is_last());
    assert_eq!(it.next(), None);
}

#[test]
fn is_last_trace_over_three_elements() {
    let my_vec = vec![1, 2, 3];
    let mut it = my_vec.iter().peekable();

    assert_eq!(it.is_last(), false);

    assert_eq!(it.next(), Some(&1));
    assert_eq!(it.is_last(), false);

    assert_eq!(it.next(), Some(&2));
    assert_eq!(it.is_last(), false);

    assert_eq!(it.next(), Some(&3));
    assert_eq!(it.is_last(), true);

    assert_eq!(it.next(), None);
    assert_eq!(it.is_last(), true);
}

#[test]
fn is_not_last_trace_over_three_elements() {
    let my_vec = vec![1, 2, 3];
    let mut it = my_vec.iter().peekable();

    assert_eq!(it.is_not_last(), true);

    assert_eq!(it.next(), Some(&1));
    assert_eq!(it.is_not_last(), true);

    assert_eq!(it.next(), Some(&2));
    assert_eq!(it.is_not_last(), true);

    assert_eq!(it.next(), Some(&3));
    assert_eq!(it.is_not_last(), false);

    assert_eq!(it.next(), None);
    assert_eq!(it.is_not_last(), false);
}

#[test]
fn empty_is_last_from_the_start() {
    let nothing: Vec<u8> = Vec::new();
    let mut it = nothing.iter().peekable();

    assert_eq!(it.is_last(), true);
    assert_eq!(it.is_not_last(), false);

    assert_eq!(it.next(), None);
    assert_eq!(it.is_last(), true);

    assert_eq!(it.next(), None);
    assert_eq!(it.next(), None);
    assert_eq!(it.is_last(), true);
    assert_eq!(it.is_not_last(), false);
}

#[test]
fn single_element_is_last_only_once_produced() {
    let one = vec![1];
    let mut it = one.iter().peekable();

    assert_eq!(it.is_last(), false);
    assert_eq!(it.next(), Some(&1));
    assert_eq!(it.is_last(), true);
    assert_eq!(it.next(), None);
    assert_eq!(it.is_last(), true);
}

#[test]
fn last_exactly_from_the_final_element_on() {
    for len in 0..9usize {
        let items: Vec<usize> = (0..len).collect();
        let mut it = items.iter().peekable();
        for steps in 0..len + 4 {
            assert_eq!(it.is_last(), steps >= len);
            let produced = it.next();
            if steps < len {
                assert_eq!(produced, Some(&items[steps]));
            } else {
                assert_eq!(produced, None);
            }
        }
        assert_eq!(it.is_last(), true);
    }
}

#[test]
fn two_elements_turn_last_after_the_second() {
    let pair = vec![10u32, 20u32];
    let mut it = pair.into_iter().peekable();

    assert_eq!(it.is_last(), false);
    assert_eq!(it.next(), Some(10u32));
    assert_eq!(it.is_last(), false);
    assert_eq!(it.next(), Some(20u32));
    assert_eq!(it.is_last(), true);
}

#[test]
fn not_last_negates_last_on_every_step() {
    for len in 0..6usize {
        let items: Vec<usize> = (0..len).collect();
        let mut it = items.iter().peekable();
        for _ in 0..len + 3 {
            let more = it.is_not_last();
            let last = it.is_last();
            assert_eq!(more, !last);
            let last_first = it.is_last();
            let more_second = it.is_not_last();
            assert_eq!(more_second, !last_first);
            it.next();
        }
    }
}

#[test]
fn repeated_queries_agree() {
    let items = vec!['a', 'b', 'c'];
    let mut it = items.iter().peekable();
    for steps in 0..6usize {
        let first = it.is_last();
        let second = it.is_last();
        let third = it.is_last();
        assert_eq!(first, second);
        assert_eq!(second, third);
        assert_eq!(first, steps >= 3);
        it.next();
    }
}

#[test]
fn queries_consume_nothing() {
    let items = vec![7u64, 8u64, 9u64];
    let mut it = items.iter().peekable();

    assert_eq!(it.is_last(), false);
    assert_eq!(it.is_not_last(), true);
    assert_eq!(it.is_last(), false);
    assert_eq!(it.peek(), Some(&&7u64));
    assert_eq!(it.next(), Some(&7u64));

    assert_eq!(it.is_not_last(), true);
    assert_eq!(it.is_not_last(), true);
    assert_eq!(it.next(), Some(&8u64));
    assert_eq!(it.next(), Some(&9u64));

    assert_eq!(it.is_last(), true);
    assert_eq!(it.peek(), None);
    assert_eq!(it.next(), None);
}

#[test]
fn query_in_the_middle_of_a_walk_sees_only_what_is_left() {
    let items = vec![1, 2, 3, 4];
    let mut it = items.iter().peekable();

    assert_eq!(it.next(), Some(&1));
    assert_eq!(it.next(), Some(&2));
    assert_eq!(it.next(), Some(&3));
    assert_eq!(it.is_last(), false);
    assert_eq!(it.next(), Some(&4));
    assert_eq!(it.is_last(), true);
}

#[test]
fn works_over_any_peekable_iterator() {
    let mut chars = "ab".chars().peekable();
    assert_eq!(chars.is_last(), false);
    assert_eq!(chars.next(), Some('a'));
    assert_eq!(chars.is_not_last(), true);
    assert_eq!(chars.next(), Some('b'));
    assert_eq!(chars.is_last(), true);

    let mut range = (0..1u8).peekable();
    assert_eq!(range.is_not_last(), true);
    assert_eq!(range.next(), Some(0u8));
    assert_eq!(range.is_not_last(), false);

    let words = vec![String::from("x"), String::from("y")];
    let mut owned = words.into_iter().peekable();
    assert_eq!(owned.is_last(), false);
    assert_eq!(owned.next(), Some(String::from("x")));
    assert_eq!(owned.next(), Some(String::from("y")));
    assert_eq!(owned.is_last(), true);
}

#[test]
fn separator_goes_between_elements_only() {
    let my_vec = vec![1, 2, 3];
    let mut it = my_vec.iter().peekable();
    let mut shown = String::new();

    while let Some(v) = it.next() {
        shown.push_str(&format!("{}", v));
        if it.is_not_last() {
            shown.push_str(", ");
        }
    }

    assert_eq!(shown, "1, 2, 3");
}
