use bots_in_a_dish::bot::{push_of, Bot, Noise};
use bots_in_a_dish::random::RandomSource;
use bots_in_a_dish::shape::{Circle, Color, Line};
use bots_in_a_dish::vec2::Vec2;

fn parent() -> Bot {
    Bot {
        radius: 5_000_000,
        color: Color::new(500_000, 10_000, 995_000, 1_000_000),
        pos: Vec2::new(123_456_789, 987_654_321),
        vel: Vec2::new(250_000, -750_000),
    }
}

#[test]
fn the_seed_is_gray_and_at_rest() {
    let center = Vec2::new(400_000_000, 300_000_000);
    let seed = Bot::new_seed(center);
    assert_eq!(seed.radius, 5_000_000);
    assert_eq!(seed.color, Color { r: 500_000, g: 500_000, b: 500_000, a: 1_000_000 });
    assert_eq!(seed.pos, center);
    assert_eq!(seed.vel, Vec2 { x: 0, y: 0 });
}

#[test]
fn a_mutation_perturbs_and_bounds() {
    let noise = Noise {
        r: 15_000,
        g: -19_000,
        b: 19_000,
        vx: -999_000,
        vy: 500_000,
        radius: -900_000,
    };
    let child = parent().mutate_with(&noise);
    assert_eq!(child.color, Color { r: 515_000, g: 0, b: 1_000_000, a: 1_000_000 });
    assert_eq!(child.vel, Vec2 { x: -749_000, y: -250_000 });
    assert_eq!(child.radius, 4_100_000);
    assert_eq!(child.pos, parent().pos);
}

#[test]
fn a_mutation_bounds_the_radius_at_both_ends() {
    let mut small = parent();
    small.radius = 2_600_000;
    let shrink = Noise { r: 0, g: 0, b: 0, vx: 0, vy: 0, radius: -1_000_000 };
    assert_eq!(small.mutate_with(&shrink).radius, 2_500_000);
    let mut large = parent();
    large.radius = 14_900_000;
    let grow = Noise { r: 0, g: 0, b: 0, vx: 0, vy: 0, radius: 999_999 };
    assert_eq!(large.mutate_with(&grow).radius, 15_000_000);
}

#[test]
fn a_mutation_leaves_the_parent_and_the_opacity() {
    let bot = Bot { color: Color::new(1, 2, 3, 700_000), ..parent() };
    let before = bot;
    let noise = Noise { r: 1, g: 1, b: 1, vx: 1, vy: 1, radius: 1 };
    let child = bot.mutate_with(&noise);
    assert_eq!(bot, before);
    assert_eq!(child.color.a, 700_000);
}

#[test]
fn a_mutation_does_not_bound_the_velocity() {
    let bot = Bot { vel: Vec2::new(i64::MAX - 5, i64::MIN + 5), ..parent() };
    let noise = Noise { r: 0, g: 0, b: 0, vx: 999_999, vy: -1_000_000, radius: 0 };
    let child = bot.mutate_with(&noise);
    assert_eq!(child.vel, Vec2 { x: i64::MAX, y: i64::MIN });
}

#[test]
fn a_scripted_mutation_draws_six_values_in_order() {
    let mut source = RandomSource::scripted(vec![
        0, 500_000, 999_999, 250_000, 750_000, 400_000, 123_456,
    ])
    .unwrap();
    let child = parent().mutate(&mut source);
    let expected = parent().mutate_with(&Noise {
        r: -20_000,
        g: 0,
        b: 19_999,
        vx: -500_000,
        vy: 500_000,
        radius: -200_000,
    });
    assert_eq!(child, expected);
    assert_eq!(source.range(0, 1_000_000), 123_456);
}

#[test]
fn every_mutation_stays_in_range() {
    let mut source = RandomSource::thread();
    let mut bot = parent();
    for _ in 0..2000 {
        let child = bot.mutate(&mut source);
        assert!(0 <= child.color.r && child.color.r <= 1_000_000);
        assert!(0 <= child.color.g && child.color.g <= 1_000_000);
        assert!(0 <= child.color.b && child.color.b <= 1_000_000);
        assert_eq!(child.color.a, bot.color.a);
        assert!(2_500_000 <= child.radius && child.radius <= 15_000_000);
        assert_eq!(child.pos, bot.pos);
        assert!((child.vel.x - bot.vel.x).abs() <= 1_000_000);
        assert!((child.vel.y - bot.vel.y).abs() <= 1_000_000);
        bot = child;
    }
    assert_ne!(bot, parent());
}

#[test]
fn the_wind_pushes_against_a_half() {
    assert_eq!(push_of(1_000_000), -5_000_000);
    assert_eq!(push_of(-1_000_000), 15_000_000);
    assert_eq!(push_of(500_000), 0);
    assert_eq!(push_of(0), 5_000_000);
}

#[test]
fn a_bot_moves_by_its_velocity_and_the_wind_in_x() {
    let mut bot = Bot {
        pos: Vec2::new(100_000_000, 100_000_000),
        vel: Vec2::new(1_000_000, 2_000_000),
        ..parent()
    };
    bot.advance(Vec2::new(1_000_000, -1_000_000));
    assert_eq!(bot.pos, Vec2 { x: 96_000_000, y: 97_000_000 });
    assert_eq!(bot.vel, Vec2 { x: 1_000_000, y: 2_000_000 });
    assert_eq!(bot.radius, parent().radius);
    assert_eq!(bot.color, parent().color);
}

#[test]
fn a_bot_is_shown_as_a_disc() {
    let bot = parent();
    assert_eq!(bot.circle(), Circle { center: bot.pos, radius: bot.radius, color: bot.color });
}

#[test]
fn a_line_leans_with_both_components_of_the_wind() {
    let bot = Bot {
        pos: Vec2::new(100_000_000, 100_000_000),
        vel: Vec2::new(1_000_000, 2_000_000),
        ..parent()
    };
    let line = bot.line(Vec2::new(1_000_000, 0));
    assert_eq!(
        line,
        Line {
            from: Vec2 { x: 100_000_000, y: 100_000_000 },
            to: Vec2 { x: 96_000_000, y: 107_000_000 },
            width: 2_000_000,
            color: Color { r: 607_843, g: 0, b: 1_000_000, a: 1_000_000 },
        }
    );
}
