use ray_tracer::pattern::StripePattern;

const WHITE: [f32; 3] = [1.0, 1.0, 1.0];
const BLACK: [f32; 3] = [0.0, 0.0, 0.0];

fn stripe_of(x: f32) -> isize {
    x.floor() as isize
}

#[test]
fn stripe_patterns_have_two_colors() {
    let p = StripePattern::new(WHITE, BLACK);

    assert_eq!(p.color1, WHITE);
    assert_eq!(p.color2, BLACK);
}

#[test]
fn stripe_patterns_are_alternate_in_x() {
    let p = StripePattern::new(WHITE, BLACK);

    assert_eq!(p.color_at_stripe(stripe_of(0.0)), WHITE);
    assert_eq!(p.color_at_stripe(stripe_of(0.9)), WHITE);
    assert_eq!(p.color_at_stripe(stripe_of(1.0)), BLACK);
    assert_eq!(p.color_at_stripe(stripe_of(-0.1)), BLACK);
    assert_eq!(p.color_at_stripe(stripe_of(-1.0)), BLACK);
    assert_eq!(p.color_at_stripe(stripe_of(-1.1)), WHITE);
}

#[test]
fn stripes_alternate_every_unit_step_on_both_sides_of_zero() {
    let p = StripePattern::new(WHITE, BLACK);

    assert_eq!(p.color_at_stripe(0), WHITE);
    assert_eq!(p.color_at_stripe(1), BLACK);
    assert_eq!(p.color_at_stripe(2), WHITE);
    assert_eq!(p.color_at_stripe(-1), BLACK);
    assert_eq!(p.color_at_stripe(-2), WHITE);
    assert_eq!(p.color_at_stripe(-3), BLACK);
    assert_eq!(p.color_at_stripe(isize::MIN), WHITE);
    assert_eq!(p.color_at_stripe(isize::MAX), BLACK);
}
