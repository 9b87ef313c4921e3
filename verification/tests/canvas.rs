use raytrace_core::canvas::sample;
use raytrace_core::canvas::Canvas;
use raytrace_core::material::Color;

fn ticks(units: f64) -> i64 {
    (units * 1e9).round() as i64
}

fn header(width: usize, height: usize) -> String {
    format!("{}{}\n{} {}\n255\n", 'P', 3, width, height)
}

fn color(r: f64, g: f64, b: f64) -> Color {
    Color::new(ticks(r), ticks(g), ticks(b))
}

#[test]
fn ch02_color_new() {
    let c = color(0.5, 0.2, 1.0);
    assert_eq!(c.red, 500_000_000);
    assert_eq!(c.green, 200_000_000);
    assert_eq!(c.blue, 1_000_000_000);
}

#[test]
fn tests_canvas_new() {
    let c = Canvas::new(2, 2);
    assert_eq!(c.width, 2);
    assert_eq!(c.height, 2);
    for i in 0..c.width {
        for j in 0..c.height {
            assert_eq!(c.canvas[j][i].red, 0);
            assert_eq!(c.canvas[j][i].green, 0);
            assert_eq!(c.canvas[j][i].blue, 0);
        }
    }
}

#[test]
fn ch02_canvas_new() {
    let mut canvas = Canvas::new(15, 3);
    canvas.set_pixel(0, 0, &color(0.5, 0.2, 1.0));
    let ppm_str = canvas.write_ppm_str();
    assert!(ppm_str.len() != 0);
    assert_eq!(canvas.get_pixel(0, 0), color(0.5, 0.2, 1.0));
    assert_eq!(canvas.get_pixel(1, 0), Color::black());
    assert_eq!(canvas.get_pixel(0, 1), Color::black());
}

#[test]
fn canvas_write_ppm() {
    let c1 = color(1.5, 0.0, 0.0);
    let c2 = color(0.0, 0.5, 0.0);
    let c3 = color(-0.5, 0.0, 1.0);
    let mut canvas = Canvas::new(5, 3);
    canvas.set_pixel(0, 0, &c1);
    canvas.set_pixel(2, 1, &c2);
    canvas.set_pixel(4, 2, &c3);
    let ppm_str = canvas.write_ppm_str();

    let lines: Vec<&str> = ppm_str.split("\n").collect();
    assert!(ppm_str.starts_with(&header(5, 3)));
    assert_eq!(lines[1], "5 3");
    assert_eq!(lines[2], "255");
    assert_eq!(lines[3], "255 0 0 0 0 0 0 0 0 0 0 0 0 0 0");
    assert_eq!(lines[4], "0 0 0 0 0 0 0 128 0 0 0 0 0 0 0");
    assert_eq!(lines[5], "0 0 0 0 0 0 0 0 0 0 0 0 0 0 255");
    assert!(ppm_str.ends_with("\n"));
    assert_eq!(ppm_str.as_bytes(), &canvas.write_ppm_bytes()[..]);
}

#[test]
fn ppm_of_an_empty_canvas_is_its_header() {
    assert_eq!(Canvas::new(0, 0).write_ppm_str(), header(0, 0) + "\n");
    assert_eq!(Canvas::new(0, 12).write_ppm_str(), header(0, 12) + "\n");
    assert_eq!(Canvas::new(1, 1).write_ppm_str(), header(1, 1) + "0 0 0\n\n");
    assert_eq!(header(1, 1).as_bytes()[..3], [80, 51, 10]);
}

#[test]
fn ppm_lines_stay_within_seventy() {
    let mut canvas = Canvas::new(10, 2);
    for y in 0..2 {
        for x in 0..10 {
            canvas.set_pixel(x, y, &color(1.0, 0.8, 0.6));
        }
    }
    let ppm_str = canvas.write_ppm_str();
    let lines: Vec<&str> = ppm_str.split("\n").collect();
    assert_eq!(lines[3], "255 204 153 255 204 153 255 204 153 255 204 153 255 204 153 255 204");
    assert_eq!(lines[4], " 153 255 204 153 255 204 153 255 204 153 255 204 153");
    for line in lines.iter() {
        assert!(line.len() <= 70);
    }
    let mut wide = Canvas::new(1200, 1);
    wide.set_pixel(1199, 0, &color(1.0, 1.0, 1.0));
    assert!(wide.write_ppm_str().split("\n").all(|l| l.len() <= 70));
    assert!(wide.write_ppm_str().starts_with(&(header(1200, 1) + "0 0 0")));
}

#[test]
fn samples_round_to_the_nearest_step() {
    assert_eq!(sample(0), 0);
    assert_eq!(sample(-1), 0);
    assert_eq!(sample(i64::MIN), 0);
    assert_eq!(sample(ticks(1.0)), 255);
    assert_eq!(sample(ticks(1.0) - 1), 255);
    assert_eq!(sample(i64::MAX), 255);
    assert_eq!(sample(ticks(0.5)), 128);
    assert_eq!(sample(ticks(0.2)), 51);
    assert_eq!(sample(ticks(0.8)), 204);
    assert_eq!(sample(1_960_784), 0);
    assert_eq!(sample(1_960_785), 1);
    assert_eq!(sample(ticks(0.6)), 153);
}

#[test]
fn samples_run_row_by_row() {
    let mut canvas = Canvas::new(2, 2);
    canvas.set_pixel(1, 0, &color(1.0, 0.0, 0.0));
    canvas.set_pixel(0, 1, &color(0.0, 1.0, 0.0));
    assert_eq!(canvas.samples(), vec![0, 0, 0, 255, 0, 0, 0, 255, 0, 0, 0, 0]);
}

#[test]
fn ch2_color_new() {
    let c = color(0.5, 0.2, 1.0);
    assert_eq!(c.red, ticks(0.5));
    assert_eq!(c.green, ticks(0.2));
    assert_eq!(c.blue, ticks(1.0));
}
