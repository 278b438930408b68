use sbrga::color::Rgb;
use sbrga::color::Rgba;
use sbrga::error::EngineError;
use sbrga::geometry::Point;
use sbrga::growth::Hop;
use sbrga::growth::Side;
use sbrga::growth::StrokeGrowth;
use sbrga::guidance::Direction;
use sbrga::guidance::GuidanceFields;
use sbrga::geometry::PixelPos;

fn point(x: f32, y: f32) -> Point {
    Point { x: x.to_bits(), y: y.to_bits() }
}

/// Four columns, three rows; the two columns on the left are black, the two
/// on the right white.
fn two_tone() -> GuidanceFields {
    let n = 12usize;
    let color = (0..n)
        .map(|i| if i % 4 < 2 { Rgb { r: 0, g: 0, b: 0 } } else { Rgb { r: 255, g: 255, b: 255 } })
        .collect();
    let direction = (0..n).map(|i| Direction { x: i as u8, y: 200 }).collect();
    let importance = vec![77u8; n];
    GuidanceFields::new(4, 3, color, direction, importance).unwrap()
}

fn begun(f: &GuidanceFields) -> StrokeGrowth {
    StrokeGrowth::begin(
        4,
        f,
        1.0_f32.to_bits(),
        8.0_f32.to_bits(),
        point(0.6, 1.0),
        point(-0.6, 1.0),
    )
    .unwrap()
}

#[test]
fn growth_begins_with_one_hop_each_way() {
    let f = two_tone();
    let g = begun(&f);
    assert_eq!(g.tip(Side::Forward), (point(0.6, 1.0), point(0.0, 1.0)));
    assert_eq!(g.tip(Side::Backward), (point(-0.6, 1.0), point(0.0, 1.0)));
    assert!(!g.ended(Side::Forward));
    assert!(!g.ended(Side::Backward));
    assert_eq!(g.is_complete(1.2_f32.to_bits()), Ok(false));
    assert_eq!(g.is_complete(7.999_f32.to_bits()), Ok(false));
    assert_eq!(g.is_complete(8.0_f32.to_bits()), Ok(true));
    assert_eq!(g.is_complete(80.0_f32.to_bits()), Ok(true));
    let s = g.finish();
    assert_eq!(s.hopping_point(), &vec![point(-0.6, 1.0), point(0.0, 1.0), point(0.6, 1.0)]);
    assert_eq!(s.pos(), PixelPos { x: 0, y: 1 });
    assert_eq!(s.color(), Rgba { r: 0, g: 0, b: 0, a: 255 });
    assert_eq!(s.importance(), 77);
    assert_eq!(s.thickness(), 1.0_f32.to_bits());
}

#[test]
fn growth_is_refused_outside_of_the_fields_and_for_a_bad_thickness() {
    let f = two_tone();
    let t = 1.0_f32.to_bits();
    let a = point(1.0, 1.0);
    assert_eq!(StrokeGrowth::begin(12, &f, t, t, a, a).err(), Some(EngineError::InputMismatch));
    assert_eq!(
        StrokeGrowth::begin(usize::MAX, &f, t, t, a, a).err(),
        Some(EngineError::InputMismatch)
    );
    assert_eq!(StrokeGrowth::begin(12, &f, 0, 0, a, a).err(), Some(EngineError::InputMismatch));
    assert!(StrokeGrowth::begin(11, &f, t, t, a, a).is_ok());
    for bad in [0.0_f32, -0.0, f32::NAN, -2.0, f32::INFINITY] {
        assert_eq!(
            StrokeGrowth::begin(5, &f, bad.to_bits(), t, a, a).err(),
            Some(EngineError::NumericInstability)
        );
        assert_eq!(
            StrokeGrowth::begin(5, &f, t, bad.to_bits(), a, a).err(),
            Some(EngineError::NumericInstability)
        );
    }
    // a stroke is at least 0.3 thick, and meant to be at least as long as thick
    let least = 0.3_f32.to_bits();
    assert!(StrokeGrowth::begin(5, &f, least, least, a, a).is_ok());
    for thin in [1.0e-45_f32, 0.1, 0.29999998] {
        assert_eq!(
            StrokeGrowth::begin(5, &f, thin.to_bits(), t, a, a).err(),
            Some(EngineError::NumericInstability)
        );
    }
    assert_eq!(
        StrokeGrowth::begin(5, &f, t, 0.99_f32.to_bits(), a, a).err(),
        Some(EngineError::NumericInstability)
    );
    assert_eq!(
        StrokeGrowth::begin(5, &f, 2.0_f32.to_bits(), t, a, a).err(),
        Some(EngineError::NumericInstability)
    );
}

#[test]
fn both_chains_start_at_the_centre_of_the_seed_pixel() {
    let f = two_tone();
    for index in 0..12usize {
        let g = StrokeGrowth::begin(
            index,
            &f,
            1.0_f32.to_bits(),
            2.0_f32.to_bits(),
            point(9.0, 9.0),
            point(8.0, 8.0),
        )
        .unwrap();
        let centre = point((index % 4) as f32, (index / 4) as f32);
        assert_eq!(g.tip(Side::Forward), (point(9.0, 9.0), centre));
        assert_eq!(g.tip(Side::Backward), (point(8.0, 8.0), centre));
    }
}

#[test]
fn a_hop_is_taken_where_the_colours_are_close_enough() {
    let f = two_tone();
    let mut g = begun(&f);
    let hop = point(1.0, 1.0);
    let r = g.decide(Side::Forward, hop, Some(3.0_f32.to_bits()), 5.0_f32.to_bits());
    assert_eq!(r, Ok(false));
    assert_eq!(g.tip(Side::Forward), (hop, point(0.6, 1.0)));
    assert!(!g.ended(Side::Forward));
    let r = g.decide(Side::Forward, point(1.5, 1.0), Some(5.0_f32.to_bits()), 5.0_f32.to_bits());
    assert_eq!(r, Ok(false));
    assert_eq!(g.tip(Side::Forward), (point(1.5, 1.0), hop));
    assert_eq!(g.tip(Side::Backward), (point(-0.6, 1.0), point(0.0, 1.0)));
}

#[test]
fn a_chain_ends_where_the_colours_differ_too_much_and_stays_ended() {
    let f = two_tone();
    let mut g = begun(&f);
    let r = g.decide(Side::Backward, point(9.0, 9.0), Some(5.0001_f32.to_bits()), 5.0_f32.to_bits());
    assert_eq!(r, Ok(true));
    assert!(g.ended(Side::Backward));
    assert!(!g.ended(Side::Forward));
    assert_eq!(g.tip(Side::Backward), (point(-0.6, 1.0), point(0.0, 1.0)));
    let r = g.decide(Side::Backward, point(9.0, 9.0), Some(0.0_f32.to_bits()), 5.0_f32.to_bits());
    assert_eq!(r, Ok(true));
    assert_eq!(g.tip(Side::Backward), (point(-0.6, 1.0), point(0.0, 1.0)));
    let r = g.decide(Side::Backward, point(9.0, 9.0), None, f32::NAN.to_bits());
    assert_eq!(r, Ok(true));
    assert_eq!(g.is_complete(1.2_f32.to_bits()), Ok(false));
    let r = g.decide(Side::Forward, point(9.0, 9.0), Some(100.0_f32.to_bits()), 5.0_f32.to_bits());
    assert_eq!(r, Ok(true));
    assert_eq!(g.is_complete(1.2_f32.to_bits()), Ok(true));
    assert_eq!(g.is_complete(0.0_f32.to_bits()), Ok(true));
    assert_eq!(g.finish().hopping_point().len(), 3);
}

#[test]
fn a_hop_outside_of_the_fields_is_always_taken() {
    let f = two_tone();
    let mut g = begun(&f);
    let hop = point(-3.0, 1.0);
    assert_eq!(g.decide(Side::Backward, hop, None, f32::NAN.to_bits()), Ok(false));
    assert_eq!(g.tip(Side::Backward), (hop, point(-0.6, 1.0)));
    assert_eq!(g.extend(&f, Side::Backward, point(-4.0, 1.0), 0.0_f32.to_bits()), Ok(false));
    assert_eq!(g.tip(Side::Backward), (point(-4.0, 1.0), hop));
    assert_eq!(g.heading(&f, Side::Backward), None);
}

#[test]
fn numbers_that_cannot_be_compared_are_unstable() {
    let f = two_tone();
    let five = 5.0_f32.to_bits();
    for bad in [f32::NAN, f32::INFINITY, -1.0, -0.0] {
        let mut g = begun(&f);
        assert_eq!(
            g.decide(Side::Forward, point(1.0, 1.0), Some(bad.to_bits()), five),
            Err(EngineError::NumericInstability)
        );
        assert_eq!(
            g.decide(Side::Forward, point(1.0, 1.0), Some(five), bad.to_bits()),
            Err(EngineError::NumericInstability)
        );
        assert!(!g.ended(Side::Forward));
        assert_eq!(g.tip(Side::Forward), (point(0.6, 1.0), point(0.0, 1.0)));
    }
}

#[test]
fn extend_compares_the_colour_under_the_hop() {
    let f = two_tone();
    // Black on black: no difference, so even a threshold of zero lets the hop pass.
    let mut g = begun(&f);
    assert_eq!(g.extend(&f, Side::Forward, point(1.0, 1.0), 0.0_f32.to_bits()), Ok(false));
    assert_eq!(g.tip(Side::Forward).0, point(1.0, 1.0));
    // Black against white differs by about a hundred.
    assert_eq!(g.extend(&f, Side::Forward, point(2.0, 1.0), 150.0_f32.to_bits()), Ok(false));
    assert_eq!(g.tip(Side::Forward).0, point(2.0, 1.0));
    assert_eq!(g.extend(&f, Side::Forward, point(3.0, 1.0), 50.0_f32.to_bits()), Ok(true));
    assert!(g.ended(Side::Forward));
    assert_eq!(g.tip(Side::Forward).0, point(2.0, 1.0));
    assert_eq!(g.extend(&f, Side::Forward, point(1.0, 1.0), 50.0_f32.to_bits()), Ok(true));
    assert_eq!(g.tip(Side::Forward).0, point(2.0, 1.0));
    // The other chain is on its own.
    assert_eq!(g.extend(&f, Side::Backward, point(1.0, 2.0), 2.0_f32.to_bits()), Ok(false));
    assert_eq!(
        g.extend(&f, Side::Backward, point(1.0, 0.0), f32::NAN.to_bits()),
        Err(EngineError::NumericInstability)
    );
    assert_eq!(g.tip(Side::Backward).0, point(1.0, 2.0));
}

#[test]
fn the_heading_comes_from_the_field_under_the_tip() {
    let f = two_tone();
    let mut g = begun(&f);
    assert_eq!(g.heading(&f, Side::Forward), Some(Direction { x: 5, y: 200 }));
    assert_eq!(g.heading(&f, Side::Backward), None);
    assert_eq!(g.decide(Side::Forward, point(3.2, 2.4), None, 0), Ok(false));
    assert_eq!(g.heading(&f, Side::Forward), Some(Direction { x: 11, y: 200 }));
}

#[test]
fn the_finished_stroke_joins_both_chains() {
    let f = two_tone();
    let mut g = begun(&f);
    let five = 5.0_f32.to_bits();
    assert_eq!(g.decide(Side::Forward, point(1.0, 1.0), Some(0), five), Ok(false));
    assert_eq!(g.decide(Side::Backward, point(-1.0, 1.0), Some(0), five), Ok(false));
    assert_eq!(g.decide(Side::Forward, point(1.5, 1.0), Some(0), five), Ok(false));
    assert_eq!(g.decide(Side::Backward, point(-1.5, 1.0), Some(0), five), Ok(false));
    let s = g.finish();
    assert_eq!(
        s.hopping_point(),
        &vec![
            point(-1.5, 1.0),
            point(-1.0, 1.0),
            point(-0.6, 1.0),
            point(0.0, 1.0),
            point(0.6, 1.0),
            point(1.0, 1.0),
            point(1.5, 1.0),
        ]
    );
}

#[test]
fn a_hop_that_is_no_finite_point_is_unstable() {
    let f = two_tone();
    let five = 5.0_f32.to_bits();
    for (x, y) in [(f32::NAN, 1.0_f32), (1.0, f32::NAN), (f32::INFINITY, 1.0), (1.0, f32::NEG_INFINITY)] {
        let mut g = begun(&f);
        assert_eq!(
            g.decide(Side::Forward, point(x, y), None, five),
            Err(EngineError::NumericInstability)
        );
        assert_eq!(
            g.decide(Side::Forward, point(x, y), Some(0), five),
            Err(EngineError::NumericInstability)
        );
        assert_eq!(
            g.extend(&f, Side::Backward, point(x, y), five),
            Err(EngineError::NumericInstability)
        );
        assert_eq!(g.chain(Side::Forward), &vec![point(0.0, 1.0), point(0.6, 1.0)]);
        assert_eq!(g.chain(Side::Backward), &vec![point(0.0, 1.0), point(-0.6, 1.0)]);
        assert_eq!(
            StrokeGrowth::begin(4, &f, five, five, point(x, y), point(1.0, 1.0)).err(),
            Some(EngineError::NumericInstability)
        );
        assert_eq!(
            StrokeGrowth::begin(4, &f, five, five, point(1.0, 1.0), point(x, y)).err(),
            Some(EngineError::NumericInstability)
        );
    }
    // a chain that has ended does not look at the hop any more
    let mut g = begun(&f);
    assert_eq!(g.decide(Side::Forward, point(1.0, 1.0), Some(five), 0), Ok(true));
    assert_eq!(g.decide(Side::Forward, point(f32::NAN, 1.0), Some(0), five), Ok(true));
}

#[test]
fn the_chains_can_be_read() {
    let f = two_tone();
    let mut g = begun(&f);
    assert_eq!(g.decide(Side::Forward, point(1.0, 1.5), None, 0), Ok(false));
    assert_eq!(g.chain(Side::Forward), &vec![point(0.0, 1.0), point(0.6, 1.0), point(1.0, 1.5)]);
    assert_eq!(g.chain(Side::Backward), &vec![point(0.0, 1.0), point(-0.6, 1.0)]);
}

#[test]
fn a_length_that_is_no_number_is_unstable() {
    let f = two_tone();
    let g = begun(&f);
    for bad in [f32::NAN, f32::INFINITY, f32::NEG_INFINITY] {
        assert_eq!(g.is_complete(bad.to_bits()), Err(EngineError::NumericInstability));
    }
    assert_eq!(g.is_complete((-1.0_f32).to_bits()), Ok(false));
    assert_eq!(g.is_complete(f32::MAX.to_bits()), Ok(true));
}

fn hop(x: f32, y: f32, threshold: f32) -> Hop {
    Hop { point: point(x, y), threshold: threshold.to_bits() }
}

#[test]
fn a_step_offers_a_hop_to_both_chains() {
    let f = two_tone();
    let mut g = begun(&f);
    assert_eq!(g.advance(&f, hop(1.0, 1.0, 5.0), hop(-1.0, 1.0, 5.0)), Ok(false));
    assert_eq!(g.chain(Side::Forward).len(), 3);
    assert_eq!(g.chain(Side::Backward).len(), 3);
    // the forward chain runs into white and ends, the backward chain goes on
    assert_eq!(g.advance(&f, hop(2.0, 1.0, 5.0), hop(-2.0, 1.0, 5.0)), Ok(false));
    assert!(g.ended(Side::Forward));
    assert!(!g.ended(Side::Backward));
    assert_eq!(g.chain(Side::Forward).len(), 3);
    assert_eq!(g.chain(Side::Backward).len(), 4);
    assert_eq!(g.advance(&f, hop(1.0, 1.0, 5.0), hop(1.0, 2.0, 5.0)), Ok(false));
    assert_eq!(g.chain(Side::Forward).len(), 3);
    assert_eq!(g.chain(Side::Backward).len(), 5);
    // now the backward chain runs into white as well
    assert_eq!(g.advance(&f, hop(1.0, 1.0, 5.0), hop(3.0, 2.0, 5.0)), Ok(true));
    assert!(g.ended(Side::Backward));
    assert_eq!(g.chain(Side::Backward).len(), 5);
    assert_eq!(g.is_complete(0.0_f32.to_bits()), Ok(true));
    assert_eq!(g.advance(&f, hop(1.0, 1.0, 5.0), hop(1.0, 1.0, 5.0)), Ok(true));
    assert_eq!(g.finish().hopping_point().len(), 7);
}

#[test]
fn a_step_stops_at_the_first_error() {
    let f = two_tone();
    let mut g = begun(&f);
    assert_eq!(
        g.advance(&f, hop(f32::NAN, 1.0, 5.0), hop(-1.0, 1.0, 5.0)),
        Err(EngineError::NumericInstability)
    );
    assert_eq!(g.chain(Side::Forward).len(), 2);
    assert_eq!(g.chain(Side::Backward).len(), 2);
    assert_eq!(
        g.advance(&f, hop(1.0, 1.0, 5.0), hop(1.0, 2.0, f32::NAN)),
        Err(EngineError::NumericInstability)
    );
    assert_eq!(g.chain(Side::Forward).len(), 3);
    assert_eq!(g.chain(Side::Backward).len(), 2);
}
