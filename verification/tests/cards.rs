use daily_set::state::game_board::{find_card_completing_set, num_all_different_aspects, sort_set};
use daily_set::state::{Card, Color, Fill, Quantity, Shape};

fn card(shape: Shape, quantity: Quantity, fill: Fill, color: Color) -> Card {
    Card { shape, quantity, fill, color }
}

fn all_cards() -> Vec<Card> {
    let mut cards = Vec::new();
    for shape in [Shape::Diamond, Shape::Oval, Shape::Squiggle] {
        for quantity in [Quantity::One, Quantity::Two, Quantity::Three] {
            for fill in [Fill::Empty, Fill::Dashed, Fill::Filled] {
                for color in [Color::Blue, Color::Gold, Color::Pink] {
                    cards.push(card(shape, quantity, fill, color));
                }
            }
        }
    }
    cards
}

fn aspect_ok<T: PartialEq>(a: T, b: T, c: T) -> bool {
    (a == b && b == c) || (a != b && b != c && a != c)
}

fn is_set(a: Card, b: Card, c: Card) -> bool {
    a != b
        && aspect_ok(a.shape, b.shape, c.shape)
        && aspect_ok(a.quantity, b.quantity, c.quantity)
        && aspect_ok(a.fill, b.fill, c.fill)
        && aspect_ok(a.color, b.color, c.color)
}

#[test]
fn third_shape_of_two_different_shapes_is_the_remaining_one() {
    assert_eq!(Shape::Diamond.get_third_to_complete_set(Shape::Oval), Shape::Squiggle);
    assert_eq!(Shape::Squiggle.get_third_to_complete_set(Shape::Oval), Shape::Diamond);
    assert_eq!(Shape::Squiggle.get_third_to_complete_set(Shape::Diamond), Shape::Oval);
    assert_eq!(Shape::Oval.get_third_to_complete_set(Shape::Oval), Shape::Oval);
}

#[test]
fn third_of_each_aspect() {
    assert_eq!(Quantity::One.get_third_to_complete_set(Quantity::Three), Quantity::Two);
    assert_eq!(Quantity::Two.get_third_to_complete_set(Quantity::Two), Quantity::Two);
    assert_eq!(Fill::Dashed.get_third_to_complete_set(Fill::Filled), Fill::Empty);
    assert_eq!(Fill::Empty.get_third_to_complete_set(Fill::Empty), Fill::Empty);
    assert_eq!(Color::Blue.get_third_to_complete_set(Color::Gold), Color::Pink);
    assert_eq!(Color::Pink.get_third_to_complete_set(Color::Pink), Color::Pink);
}

#[test]
fn completing_card_forms_a_set_for_every_pair() {
    let cards = all_cards();
    assert_eq!(cards.len(), 81);
    for &a in &cards {
        for &b in &cards {
            let c = find_card_completing_set(a, b);
            assert_eq!(c, find_card_completing_set(b, a));
            if a != b {
                assert!(is_set(a, b, c));
                assert!(c != a && c != b);
                // The completing card is the only card that completes the pair.
                let completing: Vec<Card> =
                    cards.iter().copied().filter(|&x| is_set(a, b, x)).collect();
                assert_eq!(completing, vec![c]);
            } else {
                assert_eq!(c, a);
            }
        }
    }
}

#[test]
fn completing_card_example() {
    let a = card(Shape::Diamond, Quantity::One, Fill::Empty, Color::Blue);
    let b = card(Shape::Oval, Quantity::One, Fill::Dashed, Color::Blue);
    assert_eq!(
        find_card_completing_set(a, b),
        card(Shape::Squiggle, Quantity::One, Fill::Filled, Color::Blue)
    );
}

#[test]
fn counts_all_different_aspects() {
    let a = card(Shape::Diamond, Quantity::One, Fill::Empty, Color::Blue);
    let b = card(Shape::Oval, Quantity::One, Fill::Dashed, Color::Blue);
    let c = find_card_completing_set(a, b);
    assert_eq!(num_all_different_aspects([a, b], c), 2);
    let d = card(Shape::Oval, Quantity::Two, Fill::Dashed, Color::Gold);
    assert_eq!(num_all_different_aspects([a, d], find_card_completing_set(a, d)), 4);
    let e = card(Shape::Oval, Quantity::One, Fill::Empty, Color::Blue);
    assert_eq!(num_all_different_aspects([a, e], find_card_completing_set(a, e)), 1);
}

#[test]
fn sort_set_orders_like_derived_ord() {
    let cards = all_cards();
    for i in (0..81).step_by(7) {
        for j in (0..81).step_by(5) {
            for k in (0..81).step_by(11) {
                let set = [cards[i], cards[j], cards[k]];
                let mut expected = set;
                expected.sort();
                assert_eq!(sort_set(set), expected);
            }
        }
    }
}

#[test]
fn sampling_excluding_gives_the_two_other_values() {
    let mut rng = daily_set::rng::SeededRng::from_seed([7; 16]);
    for _ in 0..50 {
        let (x, y) = Shape::sample_std_uniform_excluding(&mut rng, Shape::Oval);
        assert!(x != Shape::Oval && y != Shape::Oval && x != y);
        let (x, y) = Quantity::sample_std_uniform_excluding(&mut rng, Quantity::One);
        assert!(x != Quantity::One && y != Quantity::One && x != y);
        let (x, y) = Fill::sample_std_uniform_excluding(&mut rng, Fill::Filled);
        assert!(x != Fill::Filled && y != Fill::Filled && x != y);
        let (x, y) = Color::sample_std_uniform_excluding(&mut rng, Color::Gold);
        assert!(x != Color::Gold && y != Color::Gold && x != y);
    }
}

#[test]
fn others_in_draw_order_follow_the_draw() {
    assert_eq!(Shape::others_in_draw_order(Shape::Diamond, 0), (Shape::Oval, Shape::Squiggle));
    assert_eq!(Shape::others_in_draw_order(Shape::Diamond, 1), (Shape::Squiggle, Shape::Oval));
    assert_eq!(Color::others_in_draw_order(Color::Pink, 0), (Color::Blue, Color::Gold));
    assert_eq!(Shape::from_draw(0), Shape::Diamond);
    assert_eq!(Quantity::from_draw(2), Quantity::Three);
    assert_eq!(Fill::from_draw(1), Fill::Dashed);
}

#[test]
fn sampled_cards_vary() {
    let mut rng = daily_set::rng::SeededRng::from_seed([1; 16]);
    let drawn: Vec<Card> = (0..40).map(|_| Card::sample(&mut rng)).collect();
    assert!(drawn.iter().any(|c| *c != drawn[0]));
}
