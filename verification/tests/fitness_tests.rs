use delta_e::DE2000;
use sbrga::color::Rgb;
use sbrga::color::Rgba;
use sbrga::error::EngineError;
use sbrga::fitness::score;
use sbrga::fitness::score_of_differences;
use sbrga::fitness::ALPHA_PENALTY;
use sbrga::fitness::PIXEL_LOSS_MAX;
use sbrga::fitness::SCORE_ONE;
use sbrga::guidance::Direction;
use sbrga::guidance::GuidanceFields;

fn fields(color: Vec<Rgb>, importance: Vec<u8>) -> GuidanceFields {
    let n = color.len();
    GuidanceFields::new(n as u32, 1, color, vec![Direction { x: 9, y: 9 }; n], importance).unwrap()
}

const GRAY: Rgb = Rgb { r: 128, g: 128, b: 128 };

fn paint(c: Rgb, a: u8) -> Rgba {
    Rgba { r: c.r, g: c.g, b: c.b, a }
}

#[test]
fn the_units_of_a_score() {
    assert_eq!(SCORE_ONE, 1086676992000);
    assert_eq!(ALPHA_PENALTY, 500);
    assert_eq!(PIXEL_LOSS_MAX, 255 * (4294967295u128 * 65025 + 500 * 65025 * 65536));
}

#[test]
fn a_pixel_that_is_reached_loses_nothing() {
    let f = fields(vec![GRAY; 3], vec![255, 1, 0]);
    let rendered = vec![paint(GRAY, 255); 3];
    assert_eq!(score_of_differences(&rendered, &f, &vec![0, 0, 0]), Ok(0));
    assert_eq!(score(&rendered, &f), Ok(0));
}

#[test]
fn the_loss_of_a_pixel_is_its_difference_and_its_gap_times_its_importance() {
    let f = fields(vec![GRAY], vec![255]);
    // a difference of 1.5 on a covered pixel of full importance: a loss of 1.5
    let r = score_of_differences(&vec![paint(GRAY, 255)], &f, &vec![1.5_f32.to_bits()]);
    assert_eq!(r, Ok(SCORE_ONE * 3 / 2));
    assert_eq!(r, Ok(255 * 98304 * 65025));
    // no difference on bare canvas: the whole penalty
    let r = score_of_differences(&vec![paint(GRAY, 0)], &f, &vec![0]);
    assert_eq!(r, Ok(SCORE_ONE * 500));
    // half covered (alpha 128): 500 * (127/255)^2
    let r = score_of_differences(&vec![paint(GRAY, 128)], &f, &vec![0]);
    assert_eq!(r, Ok(255 * 500 * 127 * 127 * 65536));
    // both, at an importance of 51/255 = 0.2
    let g = fields(vec![GRAY], vec![51]);
    let r = score_of_differences(&vec![paint(GRAY, 254)], &g, &vec![2.25_f32.to_bits()]);
    assert_eq!(r, Ok(51 * (147456 * 65025 + 500 * 65536)));
}

#[test]
fn a_pixel_without_importance_loses_nothing() {
    let f = fields(vec![GRAY; 2], vec![0, 0]);
    let rendered = vec![paint(Rgb { r: 255, g: 0, b: 0 }, 0); 2];
    assert_eq!(score_of_differences(&rendered, &f, &vec![100.0_f32.to_bits(); 2]), Ok(0));
    assert_eq!(score(&rendered, &f), Ok(0));
}

#[test]
fn the_losses_of_all_pixels_add_up() {
    let f = fields(vec![GRAY; 3], vec![10, 20, 30]);
    let rendered = vec![paint(GRAY, 255), paint(GRAY, 200), paint(GRAY, 255)];
    let differences = vec![1.0_f32.to_bits(), 0.5_f32.to_bits(), 0.25_f32.to_bits()];
    let expected = 10 * (65536 * 65025)
        + 20 * (32768 * 65025 + 500 * 55 * 55 * 65536)
        + 30 * (16384 * 65025);
    assert_eq!(score_of_differences(&rendered, &f, &differences), Ok(expected));
}

#[test]
fn a_difference_off_the_scale_is_unstable() {
    let f = fields(vec![GRAY; 2], vec![255, 255]);
    let rendered = vec![paint(GRAY, 255); 2];
    for bad in [f32::NAN, f32::INFINITY, f32::NEG_INFINITY, -1.0, 65536.0, f32::MAX] {
        assert_eq!(
            score_of_differences(&rendered, &f, &vec![0, bad.to_bits()]),
            Err(EngineError::NumericInstability),
            "difference {}",
            bad
        );
        assert_eq!(
            score_of_differences(&rendered, &f, &vec![bad.to_bits(), 0]),
            Err(EngineError::NumericInstability)
        );
    }
    let greatest = score_of_differences(&rendered, &f, &vec![65535.996_f32.to_bits(); 2]);
    assert_eq!(greatest, Ok(2 * 255 * (4294967040u128 * 65025)));
    assert!(greatest.unwrap() <= 2 * PIXEL_LOSS_MAX);
}

#[test]
fn buffers_of_another_size_are_a_mismatch() {
    let f = fields(vec![GRAY; 3], vec![255; 3]);
    let rendered = vec![paint(GRAY, 255); 3];
    assert_eq!(
        score_of_differences(&rendered, &f, &vec![0, 0]),
        Err(EngineError::InputMismatch)
    );
    assert_eq!(
        score_of_differences(&vec![paint(GRAY, 255); 4], &f, &vec![0, 0, 0]),
        Err(EngineError::InputMismatch)
    );
    assert_eq!(
        score_of_differences(&vec![paint(GRAY, 255); 2], &f, &vec![f32::NAN.to_bits(); 2]),
        Err(EngineError::InputMismatch)
    );
    assert_eq!(score(&vec![paint(GRAY, 255); 2], &f), Err(EngineError::InputMismatch));
    assert_eq!(score(&vec![], &f), Err(EngineError::InputMismatch));
    assert_eq!(score(&vec![], &fields(vec![], vec![])), Ok(0));
}

#[test]
fn score_measures_the_difference_of_each_pixel() {
    let target = vec![
        Rgb { r: 234, g: 76, b: 76 },
        Rgb { r: 0, g: 0, b: 0 },
        Rgb { r: 10, g: 200, b: 30 },
        GRAY,
    ];
    let rendered = vec![
        Rgba { r: 76, g: 187, b: 234, a: 255 },
        Rgba { r: 255, g: 255, b: 255, a: 255 },
        Rgba { r: 10, g: 200, b: 30, a: 100 },
        Rgba { r: 130, g: 128, b: 128, a: 250 },
    ];
    let importance = vec![255u8, 128, 64, 7];
    let f = fields(target.clone(), importance.clone());
    let mut expected: u128 = 0;
    for i in 0..4 {
        let de = DE2000::from_rgb(
            &[rendered[i].r, rendered[i].g, rendered[i].b],
            &[target[i].r, target[i].g, target[i].b],
        );
        let units = (de as f64 * 65536.0).floor() as u128;
        let gap = (255 - rendered[i].a) as u128;
        expected += importance[i] as u128 * (units * 65025 + 500 * gap * gap * 65536);
    }
    let r = score(&rendered, &f).unwrap();
    assert_eq!(r, expected);
    // black against white is about a hundred apart
    let contrast = score(&vec![rendered[1]], &fields(vec![target[1]], vec![255])).unwrap();
    assert!(contrast > 99 * SCORE_ONE && contrast < 101 * SCORE_ONE, "{}", contrast);
    // a slight tint is a small difference, but not none
    let tint = score(&vec![paint(Rgb { r: 130, g: 128, b: 128 }, 255)], &fields(vec![GRAY], vec![255]))
        .unwrap();
    assert!(tint > 0 && tint < 3 * SCORE_ONE, "{}", tint);
}

#[test]
fn a_better_rendering_scores_less() {
    let f = fields(vec![GRAY; 4], vec![255; 4]);
    let bare = vec![Rgba { r: 0, g: 0, b: 0, a: 0 }; 4];
    let mut half = bare.clone();
    half[0] = paint(GRAY, 255);
    half[1] = paint(GRAY, 255);
    let full = vec![paint(GRAY, 255); 4];
    let s_bare = score(&bare, &f).unwrap();
    let s_half = score(&half, &f).unwrap();
    let s_full = score(&full, &f).unwrap();
    assert!(s_full < s_half && s_half < s_bare);
    assert_eq!(s_full, 0);
}

#[test]
fn score_is_the_sum_over_the_measured_differences() {
    let target: Vec<Rgb> = (0..32u8).map(|i| Rgb { r: i * 8, g: 255 - i * 8, b: 17 * (i % 16) }).collect();
    let rendered: Vec<Rgba> =
        (0..32u8).map(|i| Rgba { r: 255 - i * 3, g: i * 7, b: 90, a: 255 - i }).collect();
    let importance: Vec<u8> = (0..32u8).map(|i| i * 8 + 1).collect();
    let f = fields(target.clone(), importance);
    let differences: Vec<u32> = (0..32)
        .map(|i| {
            DE2000::from_rgb(
                &[rendered[i].r, rendered[i].g, rendered[i].b],
                &[target[i].r, target[i].g, target[i].b],
            )
            .to_bits()
        })
        .collect();
    let by_hand = score_of_differences(&rendered, &f, &differences);
    assert!(by_hand.is_ok());
    assert_eq!(score(&rendered, &f), by_hand);
    // the same rendering always has the same score
    assert_eq!(score(&rendered, &f), score(&rendered, &f));
}
