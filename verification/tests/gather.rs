use weather_report::gather::{Gather, Step, DEFAULT_WINDOW};

#[test]
fn starts_in_order_within_the_window() {
    let mut g: Gather<&str, &str> = Gather::new(5, 2);
    assert_eq!(g.next_step(), Step::Start(0));
    assert_eq!(g.next_step(), Step::Start(1));
    assert_eq!(g.in_flight(), 2);
    assert_eq!(g.next_step(), Step::Wait);
    assert_eq!(g.next_step(), Step::Wait);
    assert!(g.complete(1, Ok("b")));
    assert_eq!(g.in_flight(), 1);
    assert_eq!(g.next_step(), Step::Start(2));
    assert_eq!(g.next_step(), Step::Wait);
    assert!(g.complete(2, Ok("c")));
    assert!(g.complete(0, Ok("a")));
    assert_eq!(g.next_step(), Step::Start(3));
    assert_eq!(g.next_step(), Step::Start(4));
    assert_eq!(g.next_step(), Step::Wait);
    assert!(g.complete(4, Ok("e")));
    assert_eq!(g.next_step(), Step::Wait);
    assert!(g.complete(3, Ok("d")));
    assert_eq!(g.next_step(), Step::Finish);
    assert_eq!(g.into_result(), Some(Ok(vec!["a", "b", "c", "d", "e"])));
}

#[test]
fn output_order_is_location_order_whatever_the_completion_order() {
    let orders: [[usize; 5]; 4] =
        [[0, 1, 2, 3, 4], [4, 3, 2, 1, 0], [2, 0, 4, 1, 3], [1, 4, 0, 3, 2]];
    for order in orders {
        let mut g: Gather<String, String> = Gather::new(5, DEFAULT_WINDOW);
        for i in 0..5 {
            assert_eq!(g.next_step(), Step::Start(i));
        }
        assert_eq!(g.next_step(), Step::Wait);
        for i in order {
            assert!(g.complete(i, Ok(format!("city {i}"))));
        }
        assert_eq!(g.next_step(), Step::Finish);
        assert_eq!(
            g.into_result(),
            Some(Ok(vec![
                "city 0".to_string(),
                "city 1".to_string(),
                "city 2".to_string(),
                "city 3".to_string(),
                "city 4".to_string(),
            ]))
        );
    }
}

#[test]
fn third_of_five_fails_after_the_others_succeeded() {
    let mut g: Gather<u32, &str> = Gather::new(5, 8);
    for i in 0..5 {
        assert_eq!(g.next_step(), Step::Start(i));
    }
    assert!(g.complete(0, Ok(10)));
    assert!(g.complete(1, Ok(11)));
    assert!(g.complete(3, Ok(13)));
    assert!(g.complete(4, Ok(14)));
    assert_eq!(g.next_step(), Step::Wait);
    assert!(g.complete(2, Err("forecast for location 3: 404")));
    assert_eq!(g.next_step(), Step::Finish);
    assert_eq!(g.into_result(), Some(Err("forecast for location 3: 404")));
}

#[test]
fn failure_stops_the_pass_at_once() {
    let mut g: Gather<u32, &str> = Gather::new(5, 2);
    assert_eq!(g.next_step(), Step::Start(0));
    assert_eq!(g.next_step(), Step::Start(1));
    assert!(g.complete(1, Err("timeout")));
    assert_eq!(g.next_step(), Step::Finish);
    // a sibling that was in flight may still report; it changes nothing
    assert!(g.complete(0, Ok(1)));
    assert_eq!(g.next_step(), Step::Finish);
    assert_eq!(g.in_flight(), 0);
    assert_eq!(g.into_result(), Some(Err("timeout")));
}

#[test]
fn first_failure_wins() {
    let mut g: Gather<u32, &str> = Gather::new(3, 3);
    for i in 0..3 {
        assert_eq!(g.next_step(), Step::Start(i));
    }
    assert!(g.complete(2, Err("second location down")));
    assert!(g.complete(0, Err("first location down")));
    assert!(g.complete(1, Ok(5)));
    assert_eq!(g.into_result(), Some(Err("second location down")));
}

#[test]
fn unexpected_completions_are_refused() {
    let mut g: Gather<u32, &str> = Gather::new(3, 1);
    assert!(!g.complete(0, Ok(1)));
    assert!(!g.complete(7, Ok(1)));
    assert!(!g.complete(0, Err("early")));
    assert_eq!(g.next_step(), Step::Start(0));
    assert!(!g.complete(1, Ok(1)));
    assert!(g.complete(0, Ok(1)));
    assert!(!g.complete(0, Ok(2)));
    assert_eq!(g.next_step(), Step::Start(1));
    assert!(g.complete(1, Ok(2)));
    assert_eq!(g.next_step(), Step::Start(2));
    assert!(g.complete(2, Ok(3)));
    assert_eq!(g.next_step(), Step::Finish);
    assert_eq!(g.into_result(), Some(Ok(vec![1, 2, 3])));
}

#[test]
fn no_result_while_fetches_are_outstanding() {
    let mut g: Gather<u32, &str> = Gather::new(2, 4);
    assert_eq!(g.next_step(), Step::Start(0));
    assert!(g.complete(0, Ok(1)));
    assert_eq!(g.into_result(), None);
    let fresh: Gather<u32, &str> = Gather::new(1, 1);
    assert_eq!(fresh.into_result(), None);
}

#[test]
fn no_locations_finish_at_once() {
    let mut g: Gather<u32, &str> = Gather::new(0, 8);
    assert_eq!(g.next_step(), Step::Finish);
    assert_eq!(g.into_result(), Some(Ok(vec![])));
}

#[test]
fn window_is_never_exceeded() {
    for limit in 1..6usize {
        let total = 17usize;
        let mut g: Gather<usize, ()> = Gather::new(total, limit);
        let mut flying: Vec<usize> = Vec::new();
        let mut seed: usize = 7;
        loop {
            match g.next_step() {
                Step::Start(i) => flying.push(i),
                Step::Wait => {
                    seed = (seed * 31 + 11) % 1009;
                    let i = flying.swap_remove(seed % flying.len());
                    assert!(g.complete(i, Ok(i * i)));
                }
                Step::Finish => break,
            }
            assert!(g.in_flight() <= limit);
            assert_eq!(g.in_flight(), flying.len());
        }
        let items = g.into_result().unwrap().unwrap();
        assert_eq!(items, (0..total).map(|i| i * i).collect::<Vec<_>>());
    }
}
