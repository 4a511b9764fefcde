use radbot::cards::Cards;

fn sorted(mut v: Vec<u32>) -> Vec<u32> {
    v.sort();
    v
}

#[test]
fn cards_add_and_count() {
    let mut cards = Cards::new();
    assert!(cards.is_empty());
    cards.add_one(7);
    cards.add(3, 2);
    cards.add(9, 0);
    assert_eq!(cards.count(), 3);
    assert_eq!(cards.count_of(3), 2);
    assert_eq!(cards.count_of(7), 1);
    assert_eq!(cards.count_of(9), 0);
    assert_eq!(cards.count_unique(), 2);
    assert!(!cards.is_empty());
}

#[test]
fn cards_remove_undoes_add() {
    let mut cards = Cards::from_slice(&[1, 2, 2, 5]);
    let before = cards.clone();
    cards.add(4, 3);
    cards.remove(4, 3);
    assert!(cards.same_cards(&before));
    cards.remove_one(2);
    assert_eq!(cards.count_of(2), 1);
    cards.remove_all(2);
    assert_eq!(cards.count_of(2), 0);
    assert_eq!(sorted(cards.to_list()), vec![1, 5]);
}

#[test]
fn cards_iter_unique_lists_each_type_once() {
    let cards = Cards::from_slice(&[4, 4, 4, 1, 9, 1]);
    assert_eq!(sorted(cards.iter_unique()), vec![1, 4, 9]);
    let mut pairs = cards.iter();
    pairs.sort();
    assert_eq!(pairs, vec![(1, 2), (4, 3), (9, 1)]);
}

#[test]
fn cards_same_cards_ignores_order() {
    let a = Cards::from_slice(&[3, 1, 3]);
    let b = Cards::from_slice(&[1, 3, 3]);
    let c = Cards::from_slice(&[1, 3]);
    assert!(a.same_cards(&b));
    assert!(!a.same_cards(&c));
}

#[test]
fn cards_draw_random_splits_the_cards() {
    let cards = Cards::from_slice(&[1, 1, 2, 3, 3, 3]);
    for n in 0..8 {
        let (rest, drawn) = cards.draw_random(n);
        assert_eq!(drawn.count(), n.min(6));
        assert_eq!(rest.count() + drawn.count(), 6);
        let mut all = rest.to_list();
        all.extend(drawn.to_list());
        assert_eq!(sorted(all), vec![1, 1, 2, 3, 3, 3]);
    }
}

#[test]
fn cards_enumerate_draws_lists_every_draw_once() {
    let cards = Cards::from_slice(&[1, 1, 2]);
    let mut draws = cards.enumerate_draws(2);
    assert_eq!(draws.prob_denominator(), 3);
    let mut seen = Vec::new();
    let mut total_ways = 0;
    while let Some((reduced, drawn, ways)) = draws.next() {
        assert_eq!(drawn.count(), 2);
        assert_eq!(reduced.count(), 1);
        total_ways += ways;
        seen.push((sorted(drawn.to_list()), ways));
    }
    seen.sort();
    assert_eq!(seen, vec![(vec![1, 1], 1), (vec![1, 2], 2)]);
    assert_eq!(total_ways, 3);
}

#[test]
fn cards_enumerate_draws_of_more_than_all() {
    let cards = Cards::from_slice(&[5, 6]);
    let mut draws = cards.enumerate_draws(10);
    assert_eq!(draws.prob_denominator(), 1);
    let (reduced, drawn, ways) = draws.next().unwrap();
    assert_eq!(sorted(drawn.to_list()), vec![5, 6]);
    assert!(reduced.is_empty());
    assert_eq!(ways, 1);
    assert!(draws.next().is_none());
}

#[test]
fn cards_enumerate_draws_binomial_denominator() {
    let cards = Cards::from_slice(&[1, 2, 3, 4, 5, 6, 7, 8, 9, 10]);
    let draws = cards.enumerate_draws(3);
    assert_eq!(draws.prob_denominator(), 120);
}

#[test]
fn cards_enumerate_draws_ways_add_up_to_denominator() {
    let cards = Cards::from_slice(&[1, 1, 1, 2, 2, 3, 4, 4, 4, 4]);
    let mut draws = cards.enumerate_draws(4);
    assert_eq!(draws.prob_denominator(), 210);
    let mut total_ways = 0;
    let mut num_draws = 0;
    while let Some((_, _, ways)) = draws.next() {
        total_ways += ways;
        num_draws += 1;
    }
    assert_eq!(total_ways, 210);
    // per-type counts (a, b, c, d) with a <= 3, b <= 2, c <= 1, d <= 4 and a + b + c + d = 4
    assert_eq!(num_draws, 20);
}
