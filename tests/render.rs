use mandelbrot::config::{validate_config, Bounds, RenderConfig, RenderError};
use mandelbrot::coords::get_coordinates_from_pixel_number;
use mandelbrot::escape::{
    calculate_iterations, evaluate_point, is_in_cardiod_or_bulb, run_orbit, OrbitRun, Point, ONE,
};
use mandelbrot::palette::{convert_atomic_plot_buffer_to_image_buffer, Color, Palette};
use mandelbrot::partition::{stripe_length, work_chunk};
use mandelbrot::plot::{
    create_atomic_plot_buffer, generate_mandelbrot_image, mandelbrot_worker, merge_stripes,
};

const S: i32 = ONE as i32;

fn bounds() -> Bounds {
    Bounds { x_min: -2 * S, x_max: S, y_min: -3 * S / 2, y_max: 3 * S / 2 }
}

fn config(width: u32, height: u32, max_iterations: u16, num_workers: u32) -> RenderConfig {
    RenderConfig { resolution: (width, height), bounds: bounds(), max_iterations, num_workers }
}

fn values(cfg: &RenderConfig) -> Vec<u16> {
    let plot = generate_mandelbrot_image(cfg).unwrap();
    (0..plot.len()).map(|i| plot.get(i).unwrap()).collect()
}

#[test]
fn coordinates_are_linear_interpolation() {
    let p = get_coordinates_from_pixel_number(5, (4, 4), bounds());
    assert_eq!(p, Point { x: -20971520, y: -12582912 });
    let p = get_coordinates_from_pixel_number(0, (4, 4), bounds());
    assert_eq!(p, Point { x: -2 * S, y: -3 * S / 2 });
    let p = get_coordinates_from_pixel_number(15, (4, 4), bounds());
    assert_eq!(p, Point { x: 4194304, y: 12582912 });
}

#[test]
fn coordinates_are_deterministic() {
    for i in 0..48u32 {
        let a = get_coordinates_from_pixel_number(i, (8, 6), bounds());
        let b = get_coordinates_from_pixel_number(i, (8, 6), bounds());
        assert_eq!(a, b);
    }
}

#[test]
fn origin_is_in_main_body() {
    let c = Point { x: 0, y: 0 };
    assert!(is_in_cardiod_or_bulb(c));
    assert_eq!(evaluate_point(c, 255), 255);
    assert_eq!(evaluate_point(c, 50), 50);
}

#[test]
fn minus_one_is_in_period_two_bulb() {
    let c = Point { x: -S, y: 0 };
    assert!(is_in_cardiod_or_bulb(c));
    assert_eq!(evaluate_point(c, 255), 255);
}

#[test]
fn cycle_of_minus_one_is_detected_early() {
    let run = run_orbit(Point { x: -S, y: 0 }, 50);
    assert_eq!(run, OrbitRun { count: 50, steps: 2 });
    let run = run_orbit(Point { x: -S, y: 0 }, 60000);
    assert_eq!(run.count, 60000);
    assert!(run.steps <= 20);
}

#[test]
fn origin_orbit_stops_at_first_step() {
    assert_eq!(run_orbit(Point { x: 0, y: 0 }, 255), OrbitRun { count: 255, steps: 1 });
}

#[test]
fn far_point_escapes_at_once() {
    let c = Point { x: 2 * S, y: 2 * S };
    assert!(!is_in_cardiod_or_bulb(c));
    let r = evaluate_point(c, 255);
    assert_eq!(r, 1);
    assert!(r < 255);
    assert_eq!(evaluate_point(Point { x: 3 * S, y: 0 }, 255), 1);
    assert_eq!(evaluate_point(Point { x: 0, y: -100 * S }, 255), 1);
}

#[test]
fn escape_times_of_sample_points() {
    assert_eq!(calculate_iterations(Point { x: S / 2, y: 0 }, 255), 5);
    assert_eq!(evaluate_point(Point { x: -S * 3 / 4, y: S / 10 }, 255), 33);
    assert_eq!(evaluate_point(Point { x: S / 4 + 1, y: 0 }, 255), 255);
    assert_eq!(evaluate_point(Point { x: -2 * S, y: 0 }, 255), 1);
}

#[test]
fn zero_cap_gives_zero_outside_main_body() {
    assert_eq!(evaluate_point(Point { x: S / 2, y: 0 }, 0), 0);
    assert_eq!(evaluate_point(Point { x: 0, y: 0 }, 0), 0);
}

#[test]
fn end_to_end_four_by_four() {
    let cfg = config(4, 4, 50, 1);
    let plot = generate_mandelbrot_image(&cfg).unwrap();
    assert_eq!(plot.len(), 16);
    assert!(plot.is_complete());
    for i in 0..16 {
        assert!(plot.get(i).is_some());
    }
    assert_eq!(values(&cfg), vec![1, 2, 2, 2, 1, 3, 6, 5, 1, 50, 50, 50, 1, 3, 6, 5]);
}

#[test]
fn render_is_independent_of_worker_count() {
    let expected = vec![
        1, 1, 2, 2, 2, 2, 2, 2, 1, 2, 3, 3, 4, 13, 4, 2, 1, 3, 4, 5, 255, 255, 255, 3, 1, 255,
        255, 255, 255, 255, 255, 4, 1, 3, 4, 5, 255, 255, 255, 3, 1, 2, 3, 3, 4, 13, 4, 2,
    ];
    for w in [1u32, 2, 3, 5, 7, 16, 47, 48, 49, 100] {
        assert_eq!(values(&config(8, 6, 255, w)), expected);
    }
}

#[test]
fn render_twice_gives_same_buffer() {
    let cfg = config(8, 6, 255, 4);
    assert_eq!(values(&cfg), values(&cfg));
}

#[test]
fn striped_chunks_cover_every_index_once() {
    assert_eq!(work_chunk(10, 3, 0), vec![0, 3, 6, 9]);
    assert_eq!(work_chunk(10, 3, 1), vec![1, 4, 7]);
    assert_eq!(work_chunk(10, 3, 2), vec![2, 5, 8]);
    for n in [0u32, 1, 7, 16, 17, 100] {
        for w in [1u32, 2, 3, 4, 16, 101] {
            let mut seen = vec![0u32; n as usize];
            for id in 0..w {
                let chunk = work_chunk(n, w, id);
                assert_eq!(chunk.len(), stripe_length(n, w, id));
                for i in chunk {
                    seen[i as usize] += 1;
                }
            }
            assert!(seen.iter().all(|&c| c == 1));
        }
    }
}

#[test]
fn more_workers_than_pixels() {
    assert_eq!(work_chunk(3, 5, 4), Vec::<u32>::new());
    assert_eq!(stripe_length(3, 5, 4), 0);
    let cfg = config(1, 3, 50, 5);
    assert_eq!(mandelbrot_worker(&cfg, 4), Vec::<u16>::new());
    assert!(generate_mandelbrot_image(&cfg).unwrap().is_complete());
}

#[test]
fn merge_of_worker_outputs_matches_render() {
    let cfg = config(8, 6, 255, 3);
    let stripes: Vec<Vec<u16>> = (0..3).map(|w| mandelbrot_worker(&cfg, w)).collect();
    assert_eq!(stripes[0].len(), 16);
    let plot = merge_stripes(&cfg, &stripes).unwrap();
    assert!(plot.is_complete());
    let merged: Vec<u16> = (0..plot.len()).map(|i| plot.get(i).unwrap()).collect();
    assert_eq!(merged, values(&cfg));
}

#[test]
fn merge_rejects_missing_or_short_output() {
    let cfg = config(4, 4, 50, 3);
    let mut stripes: Vec<Vec<u16>> = (0..3).map(|w| mandelbrot_worker(&cfg, w)).collect();
    stripes[2].pop();
    assert_eq!(merge_stripes(&cfg, &stripes).err(), Some(RenderError::WorkerFailed));
    stripes.pop();
    assert_eq!(merge_stripes(&cfg, &stripes).err(), Some(RenderError::WorkerFailed));
}

#[test]
fn invalid_configurations_are_rejected() {
    let bad = [
        config(0, 4, 50, 1),
        config(4, 0, 50, 1),
        config(4, 4, 50, 0),
        config(65536, 65536, 50, 1),
        RenderConfig { bounds: Bounds { x_min: S, x_max: S, ..bounds() }, ..config(4, 4, 50, 1) },
        RenderConfig { bounds: Bounds { y_min: S, y_max: -S, ..bounds() }, ..config(4, 4, 50, 1) },
    ];
    for cfg in bad.iter() {
        assert_eq!(validate_config(cfg), Err(RenderError::InvalidConfig));
        assert_eq!(generate_mandelbrot_image(cfg).err(), Some(RenderError::InvalidConfig));
    }
    assert_eq!(validate_config(&config(4, 4, 50, 1)), Ok(()));
}

#[test]
fn fresh_buffer_is_unset_and_takes_one_write() {
    let mut plot = create_atomic_plot_buffer((3, 2));
    assert_eq!(plot.len(), 6);
    assert!(!plot.is_complete());
    assert!((0..6).all(|i| plot.get(i).is_none()));
    plot.store(4, 17);
    assert_eq!(plot.get(4), Some(17));
    assert_eq!(plot.get(3), None);
}

#[test]
fn palette_buckets() {
    let p = Palette::standard();
    assert_eq!(p.color_for(0), Color { r: 25, g: 30, b: 8 });
    assert_eq!(p.color_for(7), Color { r: 25, g: 30, b: 8 });
    assert_eq!(p.color_for(8), Color { r: 25, g: 30, b: 16 });
    assert_eq!(p.color_for(127), Color { r: 25, g: 30, b: 128 });
    assert_eq!(p.color_for(128), Color { r: 25, g: 30, b: 200 });
    assert_eq!(p.color_for(254), Color { r: 25, g: 30, b: 200 });
    assert_eq!(p.color_for(255), Color { r: 25, g: 30, b: 255 });
    assert_eq!(p.color_for(u16::MAX), Color { r: 25, g: 30, b: 255 });
}

#[test]
fn palette_construction() {
    let red = Color { r: 255, g: 0, b: 0 };
    let green = Color { r: 0, g: 255, b: 0 };
    let p = Palette::new(vec![10], vec![red, green]).unwrap();
    assert_eq!(p.color_for(9), red);
    assert_eq!(p.color_for(10), green);
    let single = Palette::new(vec![], vec![red]).unwrap();
    assert_eq!(single.color_for(1000), red);
    assert!(Palette::new(vec![10], vec![red]).is_none());
    assert!(Palette::new(vec![], vec![]).is_none());
    assert!(Palette::new(vec![10, 10], vec![red, green, red]).is_none());
    assert!(Palette::new(vec![10, 5], vec![red, green, red]).is_none());
}

#[test]
fn image_bytes_are_row_major_colors() {
    let cfg = config(4, 4, 50, 2);
    let plot = generate_mandelbrot_image(&cfg).unwrap();
    let palette = Palette::standard();
    let bytes = convert_atomic_plot_buffer_to_image_buffer(&plot, &palette);
    assert_eq!(bytes.len(), 48);
    assert_eq!(&bytes[0..3], &[25, 30, 8]);
    assert_eq!(&bytes[27..30], &[25, 30, 64]);
    for (i, v) in values(&cfg).into_iter().enumerate() {
        let c = palette.color_for(v);
        assert_eq!(&bytes[3 * i..3 * i + 3], &[c.r, c.g, c.b]);
    }
}
