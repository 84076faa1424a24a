use raymarcher::color::{pixel_word, U8Color, BACKGROUND, OPAQUE};
use raymarcher::frame::{pixel_index, render};
use raymarcher::march::{march, Step, Trace, MAX_STEPS};

const EPSILON: f64 = 0.001;

type Point = (f64, f64, f64);

fn plus(a: Point, b: Point) -> Point {
    (a.0 + b.0, a.1 + b.1, a.2 + b.2)
}

fn minus(a: Point, b: Point) -> Point {
    (a.0 - b.0, a.1 - b.1, a.2 - b.2)
}

fn scaled(a: Point, s: f64) -> Point {
    (a.0 * s, a.1 * s, a.2 * s)
}

fn dot(a: Point, b: Point) -> f64 {
    a.0 * b.0 + a.1 * b.1 + a.2 * b.2
}

fn length(a: Point) -> f64 {
    dot(a, a).sqrt()
}

fn unit(a: Point) -> Point {
    scaled(a, 1.0 / length(a))
}

fn sphere(p: Point, radius: f64) -> f64 {
    length(p) - radius
}

fn smooth_union(a: f64, b: f64, k: f64) -> f64 {
    let h = (0.5 + 0.5 * (b - a) / k).min(1.0).max(0.0);
    b + (a - b) * h - k * h * (1.0 - h)
}

fn scene(p: Point) -> f64 {
    let body = smooth_union(sphere(p, 3.0), sphere(minus(p, (0.0, 3.5, 0.0)), 2.0), 1.0);
    let carved = sphere(minus(p, (1.5, 1.5, -1.75)), 2.5);
    body.max(-carved)
}

fn normal(p: Point) -> Point {
    let along = |axis: Point| scene(plus(p, axis)) - scene(minus(p, axis));
    unit((along((EPSILON, 0.0, 0.0)), along((0.0, EPSILON, 0.0)), along((0.0, 0.0, EPSILON))))
}

fn primary_ray(width: usize, height: usize, x: usize, y: usize, fov: f64) -> (Point, Point) {
    let (w, h) = (width as f64, height as f64);
    let half = (fov / 2.0 * std::f64::consts::PI / 180.0).tan();
    let px = (2.0 * ((x as f64 + 0.5) / w) - 1.0) * half * (w / h);
    let py = (1.0 - 2.0 * ((y as f64 + 0.5) / h)) * half;
    ((0.0, 0.0, -10.0), unit((px, py, 1.0)))
}

fn lit(position: Point) -> U8Color {
    let light = (4.0, 3.0, -6.0);
    let to_light = minus(light, position);
    let attenuation = 10.0 / dot(to_light, to_light);
    let cos_theta = dot(unit(to_light), normal(position)).max(0.0);
    let red = cos_theta * attenuation + 0.04;
    U8Color { r: (red * 255.0) as u8, g: (0.04 * 255.0) as u8, b: (0.04 * 255.0) as u8, a: OPAQUE }
}

fn frame(width: usize, height: usize) -> Vec<u32> {
    render(width, height, |x, y| {
        let (origin, direction) = primary_ray(width, height, x, y, 64.0);
        let trace = march(EPSILON, MAX_STEPS, |depth| {
            let distance = scene(plus(origin, scaled(direction, depth)));
            if distance < EPSILON {
                Step::Hit
            } else {
                Step::Advance(depth + distance)
            }
        });
        pixel_word(match trace {
            Trace::Hit(depth) => Some(lit(plus(origin, scaled(direction, depth)))),
            Trace::Miss => None,
        })
    })
}

#[test]
fn centre_pixel_is_shaded_and_corners_are_background() {
    let buffer = frame(3, 3);
    assert_eq!(buffer.len(), 9);
    let centre = buffer[pixel_index(3, 3, 1, 1)];
    assert_ne!(centre, BACKGROUND);
    assert_eq!(centre >> 24, 0xFF);
    assert_eq!((centre >> 8) & 0xFF, 10);
    assert_eq!(centre & 0xFF, 10);
    assert!((centre >> 16) & 0xFF >= 10);
    for (x, y) in [(0, 0), (2, 0), (0, 2), (2, 2)] {
        assert_eq!(buffer[pixel_index(3, 3, x, y)], 0x0000_0000);
    }
}

#[test]
fn every_pixel_is_background_or_opaque() {
    let buffer = frame(8, 8);
    assert_eq!(buffer.len(), 64);
    let mut shaded = 0;
    for &word in &buffer {
        if word != BACKGROUND {
            shaded += 1;
            assert_eq!(word >> 24, 0xFF);
            assert_eq!(word & 0xFFFF, 0x0A0A);
        }
    }
    assert!(shaded > 0);
    assert!(shaded < 64);
}

#[test]
fn two_by_two_frame_sees_only_background() {
    assert_eq!(frame(2, 2), vec![BACKGROUND; 4]);
}

#[test]
fn rendering_twice_gives_the_same_frame() {
    assert_eq!(frame(6, 4), frame(6, 4));
}
