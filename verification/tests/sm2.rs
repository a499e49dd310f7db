use ksrs::sm2::{RepQuality, INITIAL_EASE, MIN_EASE, SM2};

fn hundredths(ease: f64) -> u32 {
    (ease * 100.0).round() as u32
}

fn as_factor(hundredths: u32) -> f64 {
    hundredths as f64 / 100.0
}

fn assert_review(expected: (u32, u64, f64), input: (u32, u64, f64, RepQuality)) {
    let sm2 = SM2::new()
        .set_repetitions(input.0)
        .set_ease_factor(hundredths(input.2))
        .review(input.3);

    assert_eq!(expected.0, sm2.repetitions());
    assert_eq!(expected.2, as_factor(sm2.ease_factor()));
    assert_eq!(expected.1, sm2.new_interval(&input.3));
}

#[test]
fn new() {
    let sm2 = SM2::new();

    assert_eq!(0, sm2.repetitions());
    assert_eq!(1, sm2.new_interval(&RepQuality::Grade5));
    assert_eq!(2.5, as_factor(sm2.ease_factor()));
}

#[test]
fn correct_review() {
    assert_review((1, 1, 2.6), (0, 0, 2.5, RepQuality::Grade5));
    assert_review((1, 1, 2.5), (0, 0, 2.5, RepQuality::Grade4));
    assert_review((1, 1, 2.36), (0, 0, 2.5, RepQuality::Grade3));
}

#[test]
fn second_review() {
    assert_review((2, 6, 2.6), (1, 0, 2.5, RepQuality::Grade5));
}

#[test]
fn subsequent_reviews() {
    assert_review((3, 15, 2.6), (2, 0, 2.5, RepQuality::Grade5));
}

#[test]
fn review_ease_factor_less_than_1_3() {
    assert_review((1, 1, 1.3), (0, 0, 1.3, RepQuality::Grade3));
}

#[test]
fn incorrect_review() {
    assert_review((0, 1, 2.5), (3, 0, 2.5, RepQuality::Grade2));
}

#[test]
fn default_is_the_starting_state() {
    let sm2 = SM2::default();
    assert_eq!(0, sm2.repetitions());
    assert_eq!(INITIAL_EASE, sm2.ease_factor());
    assert_eq!(250, INITIAL_EASE);
    assert_eq!(130, MIN_EASE);
}

#[test]
fn grades_three_to_five_are_correct() {
    assert!(RepQuality::Grade5.is_correct());
    assert!(RepQuality::Grade4.is_correct());
    assert!(RepQuality::Grade3.is_correct());
    assert!(!RepQuality::Grade2.is_correct());
    assert!(!RepQuality::Grade1.is_correct());
    assert!(!RepQuality::Grade0.is_correct());
}

#[test]
fn worked_values_from_the_start() {
    let sm2 = SM2::new().review(RepQuality::Grade5);
    assert_eq!(1, sm2.repetitions());
    assert_eq!(260, sm2.ease_factor());
    assert_eq!(1, sm2.new_interval(&RepQuality::Grade5));
}

#[test]
fn worked_values_grade_three() {
    let sm2 = SM2::new().set_repetitions(3).set_ease_factor(200).review(RepQuality::Grade3);
    assert_eq!(4, sm2.repetitions());
    assert_eq!(186, sm2.ease_factor());
    // 6 -> floor(6 * 1.86) = 11 -> floor(11 * 1.86) = 20
    assert_eq!(20, sm2.new_interval(&RepQuality::Grade3));
}

#[test]
fn worked_values_incorrect() {
    let sm2 = SM2::new().set_repetitions(3).set_ease_factor(250).review(RepQuality::Grade2);
    assert_eq!(0, sm2.repetitions());
    assert_eq!(250, sm2.ease_factor());
    assert_eq!(1, sm2.new_interval(&RepQuality::Grade2));
}

#[test]
fn incorrect_grades_keep_the_ease_factor() {
    for q in [RepQuality::Grade2, RepQuality::Grade1, RepQuality::Grade0] {
        let sm2 = SM2::new().set_repetitions(7).set_ease_factor(171).review(q);
        assert_eq!(0, sm2.repetitions());
        assert_eq!(171, sm2.ease_factor());
        assert_eq!(1, sm2.new_interval(&q));
    }
}

#[test]
fn review_is_a_function_of_its_inputs() {
    let grades = [
        RepQuality::Grade0,
        RepQuality::Grade1,
        RepQuality::Grade2,
        RepQuality::Grade3,
        RepQuality::Grade4,
        RepQuality::Grade5,
    ];
    for q in grades {
        let a = SM2::new().set_repetitions(4).set_ease_factor(213).review(q);
        let b = SM2::new().set_repetitions(4).set_ease_factor(213).review(q);
        assert_eq!(a.repetitions(), b.repetitions());
        assert_eq!(a.ease_factor(), b.ease_factor());
        assert_eq!(a.new_interval(&q), b.new_interval(&q));
    }
}

#[test]
fn ease_factor_never_drops_below_minimum() {
    let mut sm2 = SM2::new();
    for _ in 0..40 {
        sm2 = sm2.review(RepQuality::Grade3);
        assert!(sm2.ease_factor() >= MIN_EASE);
    }
    assert_eq!(MIN_EASE, sm2.ease_factor());
    sm2 = sm2.review(RepQuality::Grade0);
    assert_eq!(MIN_EASE, sm2.ease_factor());
}

#[test]
fn set_ease_factor_raises_to_minimum() {
    assert_eq!(130, SM2::new().set_ease_factor(0).ease_factor());
    assert_eq!(130, SM2::new().set_ease_factor(129).ease_factor());
    assert_eq!(131, SM2::new().set_ease_factor(131).ease_factor());
}

#[test]
fn interval_rounds_down_at_every_step() {
    // ease 1.30: 6, 7, 9, 11, 14
    let sm2 = SM2::new().set_ease_factor(130).set_repetitions(6);
    assert_eq!(14, sm2.new_interval(&RepQuality::Grade4));
    let sm2 = SM2::new().set_ease_factor(130).set_repetitions(3);
    assert_eq!(7, sm2.new_interval(&RepQuality::Grade4));
}

#[test]
fn interval_is_capped() {
    let sm2 = SM2::new().set_ease_factor(250).set_repetitions(1000);
    assert_eq!(u64::MAX, sm2.new_interval(&RepQuality::Grade5));
    let sm2 = SM2::new().set_ease_factor(250).set_repetitions(u32::MAX);
    assert_eq!(u64::MAX, sm2.new_interval(&RepQuality::Grade5));
}

#[test]
fn can_review_tells_the_limits() {
    let full = SM2::new().set_repetitions(u32::MAX);
    assert!(!full.can_review(RepQuality::Grade5));
    assert!(!full.can_review(RepQuality::Grade3));
    assert!(full.can_review(RepQuality::Grade2));
    let steep = SM2::new().set_ease_factor(u32::MAX - 5);
    assert!(!steep.can_review(RepQuality::Grade5));
    assert!(steep.can_review(RepQuality::Grade4));
    assert!(SM2::new().can_review(RepQuality::Grade5));
}
