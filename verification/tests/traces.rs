use bots_in_a_dish::random::RandomSource;
use bots_in_a_dish::shape::{Color, Line};
use bots_in_a_dish::trace::{Trace, TraceBuffer, CAPACITY};
use bots_in_a_dish::vec2::Vec2;

fn numbered(n: i64) -> Trace {
    Trace::new(Vec2::new(n, -n), Vec2::new(0, 0))
}

#[test]
fn aging_three_times_moves_back_by_nine() {
    let mut buffer = TraceBuffer::new();
    buffer.insert(Trace::new(Vec2::new(10_000_000, 10_000_000), Vec2::new(1_000_000, 0)));
    buffer.age_all();
    buffer.age_all();
    buffer.age_all();
    assert_eq!(buffer.len(), 1);
    let trace = buffer.get(0).unwrap();
    assert_eq!(trace.origin, Vec2 { x: 1_000_000, y: 10_000_000 });
    assert_eq!(trace.direction, Vec2 { x: 1_000_000, y: 0 });
}

#[test]
fn one_trace_ages_by_three_times_its_direction() {
    let mut trace = Trace::new(Vec2::new(0, 0), Vec2::new(-500_000, 250_000));
    trace.update();
    assert_eq!(trace.origin, Vec2 { x: 1_500_000, y: -750_000 });
    assert_eq!(trace.direction, Vec2 { x: -500_000, y: 250_000 });
}

#[test]
fn a_new_buffer_is_empty() {
    let buffer = TraceBuffer::new();
    assert_eq!(buffer.len(), 0);
    assert_eq!(buffer.get(0), None);
    assert!(buffer.render_all().is_empty());
}

#[test]
fn the_buffer_holds_a_hundred_at_most() {
    assert_eq!(CAPACITY, 100);
    let mut buffer = TraceBuffer::new();
    for n in 0..250 {
        buffer.insert(numbered(n));
        assert!(buffer.len() <= 100);
        assert_eq!(buffer.len(), (n as usize + 1).min(100));
    }
}

#[test]
fn the_oldest_trace_leaves_first() {
    let mut buffer = TraceBuffer::new();
    for n in 0..100 {
        buffer.insert(numbered(n));
    }
    assert_eq!(buffer.get(0), Some(numbered(0)));
    buffer.insert(numbered(100));
    assert_eq!(buffer.len(), 100);
    assert_eq!(buffer.get(0), Some(numbered(1)));
    assert_eq!(buffer.get(99), Some(numbered(100)));
    for n in 101..250 {
        buffer.insert(numbered(n));
    }
    for i in 0..100 {
        assert_eq!(buffer.get(i), Some(numbered(150 + i as i64)));
    }
    assert_eq!(buffer.get(100), None);
}

#[test]
fn recording_places_the_trace_on_the_screen() {
    let screen = Vec2::new(800_000_000, 600_000_000);
    let wind = Vec2::new(600_000, 800_000);
    let mut source = RandomSource::thread();
    let mut buffer = TraceBuffer::new();
    for _ in 0..300 {
        buffer.record(&mut source, screen, wind);
    }
    assert_eq!(buffer.len(), 100);
    for i in 0..100 {
        let trace = buffer.get(i).unwrap();
        assert!(trace.origin.is_inside(screen));
        assert_eq!(trace.direction, wind);
    }
}

#[test]
fn a_scripted_recording_draws_x_and_then_y() {
    let screen = Vec2::new(800_000_000, 600_000_000);
    let wind = Vec2::new(600_000, 800_000);
    let mut source = RandomSource::scripted(vec![250_000, 500_000]).unwrap();
    let mut buffer = TraceBuffer::new();
    buffer.record(&mut source, screen, wind);
    assert_eq!(
        buffer.get(0),
        Some(Trace { origin: Vec2 { x: 200_000_000, y: 300_000_000 }, direction: wind })
    );
}

#[test]
fn a_trace_is_drawn_two_and_a_half_directions_to_either_side() {
    let trace = Trace::new(Vec2::new(10_000_000, 10_000_000), Vec2::new(1_000_000, -2_000_000));
    assert_eq!(
        trace.draw(),
        Line {
            from: Vec2 { x: 7_500_000, y: 15_000_000 },
            to: Vec2 { x: 12_500_000, y: 5_000_000 },
            width: 2_000_000,
            color: Color { r: 1_000_000, g: 1_000_000, b: 1_000_000, a: 1_000_000 },
        }
    );
}

#[test]
fn the_traces_are_drawn_oldest_first() {
    let mut buffer = TraceBuffer::new();
    let first = Trace::new(Vec2::new(1_000_000, 2_000_000), Vec2::new(1_000_000, 0));
    let second = Trace::new(Vec2::new(3_000_000, 4_000_000), Vec2::new(0, 1_000_000));
    buffer.insert(first);
    buffer.insert(second);
    assert_eq!(buffer.render_all(), vec![first.draw(), second.draw()]);
}
