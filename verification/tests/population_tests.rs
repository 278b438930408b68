use sbrga::color::Rgb;
use sbrga::geometry::Point;
use sbrga::guidance::Direction;
use sbrga::guidance::GuidanceFields;
use sbrga::individual::Individual;
use sbrga::population::enter;
use sbrga::population::is_ranked;
use sbrga::population::merge;
use sbrga::population::Scored;
use sbrga::stroke::Stroke;

fn point(x: f32, y: f32) -> Point {
    Point { x: x.to_bits(), y: y.to_bits() }
}

/// A painting of one stroke that is seeded at pixel `tag`.
fn tagged(tag: usize) -> Individual {
    let f = GuidanceFields::new(
        100,
        1,
        vec![Rgb { r: 0, g: 0, b: 0 }; 100],
        vec![Direction { x: 0, y: 0 }; 100],
        vec![1; 100],
    )
    .unwrap();
    let seed = point(tag as f32, 0.0);
    let s = Stroke::new(tag, &f, 1.0_f32.to_bits(), vec![seed, seed], vec![seed, seed]).unwrap();
    Individual { strokes: vec![s] }
}

fn tag_of(p: &Individual) -> usize {
    p.strokes[0].pos().x as usize
}

fn entries(population: &Vec<Scored>) -> Vec<(usize, u128)> {
    population.iter().map(|s| (tag_of(&s.individual), s.score)).collect()
}

fn population_of(pairs: &[(usize, u128)]) -> Vec<Scored> {
    pairs.iter().map(|&(t, s)| Scored { individual: tagged(t), score: s }).collect()
}

#[test]
fn a_newcomer_goes_behind_those_that_score_no_more() {
    let mut population = population_of(&[(0, 10), (1, 20), (2, 20), (3, 40)]);
    assert!(enter(&mut population, Scored { individual: tagged(9), score: 20 }));
    assert_eq!(entries(&population), vec![(0, 10), (1, 20), (2, 20), (9, 20), (3, 40)]);
    assert!(enter(&mut population, Scored { individual: tagged(8), score: 5 }));
    assert_eq!(entries(&population)[0], (8, 5));
    assert!(enter(&mut population, Scored { individual: tagged(7), score: 41 }));
    assert_eq!(entries(&population)[6], (7, 41));
    assert!(enter(&mut population, Scored { individual: tagged(6), score: 10 }));
    assert_eq!(
        entries(&population),
        vec![(8, 5), (0, 10), (6, 10), (1, 20), (2, 20), (9, 20), (3, 40), (7, 41)]
    );
    let mut empty: Vec<Scored> = vec![];
    assert!(enter(&mut empty, Scored { individual: tagged(1), score: u128::MAX }));
    assert_eq!(entries(&empty), vec![(1, u128::MAX)]);
}

#[test]
fn merging_keeps_the_best() {
    let mut population = population_of(&[(0, 10), (1, 20), (2, 30), (3, 40)]);
    let newcomers = vec![tagged(10), tagged(11), tagged(12), tagged(13)];
    let done = merge(&mut population, newcomers, vec![35, 5, 50, 20], 4);
    assert!(done);
    assert_eq!(entries(&population), vec![(11, 5), (0, 10), (1, 20), (13, 20)]);
}

#[test]
fn merging_never_makes_the_best_worse() {
    let mut population = population_of(&[(0, 10), (1, 20), (2, 30)]);
    let done = merge(&mut population, vec![tagged(5), tagged(6), tagged(7)], vec![11, 12, 13], 3);
    assert!(done);
    assert_eq!(entries(&population), vec![(0, 10), (5, 11), (6, 12)]);
    let done = merge(&mut population, vec![tagged(8), tagged(9)], vec![9, 10], 3);
    assert!(done);
    assert_eq!(entries(&population), vec![(8, 9), (0, 10), (9, 10)]);
}

#[test]
fn merging_sorts_an_unsorted_batch() {
    let mut population: Vec<Scored> = vec![];
    let newcomers = (0..7).map(tagged).collect();
    let done = merge(&mut population, newcomers, vec![70, 10, 60, 20, 50, 30, 40], 10);
    assert!(done);
    assert_eq!(
        entries(&population),
        vec![(1, 10), (3, 20), (5, 30), (6, 40), (4, 50), (2, 60), (0, 70)]
    );
}

#[test]
fn of_newcomers_that_score_the_same_the_last_comes_first() {
    let mut population = population_of(&[(0, 5)]);
    let done = merge(&mut population, vec![tagged(1), tagged(2), tagged(3)], vec![5, 5, 5], 10);
    assert!(done);
    assert_eq!(entries(&population), vec![(0, 5), (3, 5), (2, 5), (1, 5)]);
}

#[test]
fn merging_does_nothing_without_a_score_for_each_newcomer() {
    let mut population = population_of(&[(0, 10), (1, 20)]);
    let done = merge(&mut population, vec![tagged(5), tagged(6)], vec![1], 2);
    assert!(!done);
    assert_eq!(entries(&population), vec![(0, 10), (1, 20)]);
    let done = merge(&mut population, vec![], vec![1], 2);
    assert!(!done);
    let done = merge(&mut population, vec![], vec![], 1);
    assert!(done);
    assert_eq!(entries(&population), vec![(0, 10)]);
    let done = merge(&mut population, vec![tagged(4)], vec![3], 0);
    assert!(done);
    assert_eq!(entries(&population), vec![]);
}

#[test]
fn a_population_that_has_not_the_best_first_is_left_alone() {
    let mut population = population_of(&[(0, 10), (1, 30), (2, 20)]);
    assert!(!is_ranked(&population));
    assert!(!enter(&mut population, Scored { individual: tagged(9), score: 15 }));
    assert_eq!(entries(&population), vec![(0, 10), (1, 30), (2, 20)]);
    assert!(!merge(&mut population, vec![tagged(5)], vec![5], 3));
    assert_eq!(entries(&population), vec![(0, 10), (1, 30), (2, 20)]);
    assert!(!merge(&mut population, vec![], vec![], 1));
    assert_eq!(entries(&population).len(), 3);
}

#[test]
fn whether_the_best_comes_first() {
    assert!(is_ranked(&population_of(&[])));
    assert!(is_ranked(&population_of(&[(0, 7)])));
    assert!(is_ranked(&population_of(&[(0, 7), (1, 7), (2, 8)])));
    assert!(!is_ranked(&population_of(&[(0, 8), (1, 7)])));
    assert!(!is_ranked(&population_of(&[(0, 1), (1, 2), (2, 3), (3, 2)])));
}
