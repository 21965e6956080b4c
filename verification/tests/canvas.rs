use raytracing_lib::canvas::Canvas;
use raytracing_lib::export::RGBPixel;
use raytracing_lib::renderer::{Aggregator, ProgressEvent, ProgressTracker, Render, Renderer, Settings};
use raytracing_lib::scalar::Scalar;
use raytracing_lib::vec3::Vec3;

fn s(x: f32) -> Scalar {
    Scalar::from_bits(x.to_bits())
}

fn f(x: Scalar) -> f32 {
    f32::from_bits(x.to_bits())
}

fn v(x: f32, y: f32, z: f32) -> Vec3 {
    Vec3::new(s(x), s(y), s(z))
}

fn sum(a: Scalar, b: Scalar) -> Scalar {
    s(f(a) + f(b))
}

fn divide(a: Scalar, n: usize) -> Scalar {
    s(f(a) / n as f32)
}

fn root(a: Scalar) -> Scalar {
    s(f32::sqrt(f(a)))
}

fn samples(cv: &Canvas) -> Vec<f32> {
    let (width, height) = cv.get_dim();
    let mut out = Vec::new();
    for j in 0..height {
        for i in 0..width {
            for c in 0..3 {
                out.push(f(cv.sample(i, j, c)));
            }
        }
    }
    out
}

fn bits(cv: &Canvas) -> Vec<u32> {
    samples(cv).iter().map(|x| x.to_bits()).collect()
}

/// A canvas of two columns and two rows, every pixel set from `seed`.
fn pass(seed: f32) -> Canvas {
    let mut cv = Canvas::new_initialized(2, 2);
    for j in 0..2usize {
        for i in 0..2usize {
            let k = (j * 2 + i) as f32;
            cv.set_pixel(i, j, v(seed + k, seed * 0.5, seed * k));
        }
    }
    cv
}

#[test]
fn a_new_canvas_is_black_and_has_no_layer() {
    let cv = Canvas::new_initialized(3, 4);
    assert_eq!(cv.get_dim(), (4, 3));
    assert_eq!(cv.height(), 3);
    assert_eq!(cv.width(), 4);
    assert_eq!(cv.layers(), 0);
    assert_eq!(bits(&cv), vec![0u32; 36]);
    let none = Canvas::new_initialized(0, 7);
    assert_eq!(none.get_dim(), (7, 0));
    assert_eq!(none.get_pixels().len(), 0);
}

#[test]
fn set_pixel_writes_one_pixel() {
    let mut cv = Canvas::new_initialized(2, 3);
    cv.set_pixel(2, 1, v(0.25, 0.5, 0.75));
    assert_eq!(cv.layers(), 1);
    let mut want = vec![0.0f32; 18];
    // row 1, column 2 of a canvas three columns wide
    want[(1 * 3 + 2) * 3] = 0.25;
    want[(1 * 3 + 2) * 3 + 1] = 0.5;
    want[(1 * 3 + 2) * 3 + 2] = 0.75;
    assert_eq!(samples(&cv), want);
    cv.set_pixel(0, 0, v(1.0, 1.0, 1.0));
    assert_eq!(cv.layers(), 1);
    want[0] = 1.0;
    want[1] = 1.0;
    want[2] = 1.0;
    assert_eq!(samples(&cv), want);
}

#[test]
fn set_pixel_keeps_the_layers_of_a_sum() {
    let mut cv = pass(1.0).add(pass(2.0), &sum);
    assert_eq!(cv.layers(), 2);
    cv.set_pixel(0, 0, v(0.0, 0.0, 0.0));
    assert_eq!(cv.layers(), 2);
}

#[test]
fn add_sums_samples_and_layers() {
    let a = pass(1.0);
    let b = pass(0.25);
    let want: Vec<f32> = samples(&a).iter().zip(samples(&b).iter()).map(|(x, y)| x + y).collect();
    let out = a.add(b, &sum);
    assert_eq!(out.layers(), 2);
    assert_eq!(out.get_dim(), (2, 2));
    assert_eq!(samples(&out), want);
    let mut total = Canvas::new_initialized(2, 2);
    total.add_assign(pass(1.0), &sum);
    assert_eq!(total.layers(), 1);
    assert_eq!(samples(&total), samples(&pass(1.0)));
    total.add_assign(pass(0.25), &sum);
    total.add_assign(pass(3.0), &sum);
    assert_eq!(total.layers(), 3);
    let want: Vec<f32> = (0..12)
        .map(|k| samples(&pass(1.0))[k] + samples(&pass(0.25))[k] + samples(&pass(3.0))[k])
        .collect();
    assert_eq!(samples(&total), want);
}

#[test]
fn merging_in_any_order_gives_the_same_image() {
    let orders: Vec<[f32; 3]> = vec![
        [1.0, 0.25, 3.0],
        [1.0, 3.0, 0.25],
        [0.25, 1.0, 3.0],
        [0.25, 3.0, 1.0],
        [3.0, 1.0, 0.25],
        [3.0, 0.25, 1.0],
    ];
    let mut images: Vec<Vec<u32>> = Vec::new();
    for order in orders.iter() {
        let mut total = Canvas::new_initialized(2, 2);
        for &seed in order.iter() {
            total.add_assign(pass(seed), &sum);
        }
        assert_eq!(total.layers(), 3);
        total.normalize(&divide);
        images.push(bits(&total));
    }
    for image in images.iter() {
        assert_eq!(image, &images[0]);
    }
    // and grouped the other way round
    let right = pass(1.0).add(pass(0.25).add(pass(3.0), &sum), &sum);
    let mut right = right;
    right.normalize(&divide);
    assert_eq!(bits(&right), images[0]);
}

#[test]
fn normalize_averages_once() {
    let mut total = pass(1.0).add(pass(2.0), &sum).add(pass(6.0), &sum);
    let want: Vec<f32> = samples(&total).iter().map(|x| x / 3.0).collect();
    total.normalize(&divide);
    assert_eq!(total.layers(), 1);
    assert_eq!(samples(&total), want);
    // a second time changes nothing
    let before = bits(&total);
    total.normalize(&divide);
    assert_eq!(total.layers(), 1);
    assert_eq!(bits(&total), before);
    // nor does it change a single layer or an empty canvas
    let mut single = pass(5.0);
    single.normalize(&divide);
    assert_eq!(bits(&single), bits(&pass(5.0)));
    assert_eq!(single.layers(), 1);
    let mut empty = Canvas::new_initialized(2, 2);
    empty.normalize(&divide);
    assert_eq!(empty.layers(), 0);
    assert_eq!(bits(&empty), vec![0u32; 12]);
}

#[test]
fn gamma_correction_twice_is_not_once() {
    let mut cv = Canvas::new_initialized(1, 1);
    cv.set_pixel(0, 0, v(0.25, 0.0625, 1.0));
    cv.gamma_correction(&root);
    assert_eq!(samples(&cv), vec![0.5, 0.25, 1.0]);
    assert_eq!(cv.layers(), 1);
    let once = bits(&cv);
    cv.gamma_correction(&root);
    assert_eq!(samples(&cv), vec![f32::sqrt(0.5), 0.5, 1.0]);
    assert_ne!(bits(&cv), once);
}

#[test]
fn a_clone_is_a_canvas_of_its_own() {
    let source = pass(2.0).add(pass(1.0), &sum);
    let mut copy = source.clone();
    assert_eq!(bits(&copy), bits(&source));
    assert_eq!(copy.layers(), 2);
    assert_eq!(copy.get_dim(), source.get_dim());
    copy.set_pixel(1, 1, v(9.0, 9.0, 9.0));
    assert_ne!(bits(&copy), bits(&source));
    assert_eq!(bits(&source), bits(&pass(2.0).add(pass(1.0), &sum)));
}

#[test]
fn pixels_row_by_row() {
    let mut cv = Canvas::new_initialized(2, 2);
    cv.set_pixel(0, 0, v(1.0, 0.0, 0.0));
    cv.set_pixel(1, 0, v(0.0, 0.5, 0.0));
    cv.set_pixel(0, 1, v(0.0, 0.0, 0.25));
    cv.set_pixel(1, 1, v(2.0, -1.0, f32::NAN));
    assert_eq!(
        cv.get_pixels(),
        vec![RGBPixel(255, 0, 0), RGBPixel(0, 128, 0), RGBPixel(0, 0, 64), RGBPixel(255, 0, 0)]
    );
    let mut buf = bytes::BytesMut::new();
    cv.write_rgba_to_buffer(&mut buf);
    assert_eq!(&buf[..], &[255u8, 0, 0, 255, 0, 128, 0, 255, 0, 0, 64, 255, 255, 0, 0, 255][..]);
    let image = Render::new(cv);
    assert_eq!(image.ppm(), "P3\n2 2\n255\n255 0 0\n0 128 0\n0 0 64\n255 0 0\n");
    let mut again = bytes::BytesMut::new();
    image.write_rgba_to_buffer(&mut again);
    assert_eq!(again, buf);
    assert_eq!(image.canvas().get_dim(), (2, 2));
}

#[test]
fn renderer_settings() {
    let r = Renderer::new("scene", 7u8);
    assert_eq!(
        r.settings(),
        Settings {
            width: 960,
            height: 540,
            samples: 100,
            bounces: 2,
            publishes_passes: false,
            with_cli_progress_tracker: false,
        }
    );
    let mut r = r.width(1200).height(800).bounces(8).samples(32).with_cli_progress_tracker();
    assert_eq!(
        r.settings(),
        Settings {
            width: 1200,
            height: 800,
            samples: 32,
            bounces: 8,
            publishes_passes: false,
            with_cli_progress_tracker: true,
        }
    );
    r.publish_passes();
    assert!(r.settings().publishes_passes);
    assert_eq!(*r.world(), "scene");
    assert_eq!(*r.camera(), 7u8);
}

#[test]
fn passes_are_published_in_their_order() {
    let mut r = Renderer::new((), ()).width(2).height(2).samples(3);
    r.publish_passes();
    let mut agg = r.aggregator();
    let seeds = [1.0f32, 0.25, 3.0];
    let mut running = vec![0.0f32; 12];
    for (k, &seed) in seeds.iter().enumerate() {
        for (at, x) in samples(&pass(seed)).iter().enumerate() {
            running[at] += x;
        }
        let published = match agg.absorb(pass(seed), &sum, &divide, &root) {
            Some(p) => p,
            None => panic!("nothing was published"),
        };
        assert_eq!(published.current_pass, k + 1);
        assert_eq!(published.total_passes, 3);
        let layers = (k + 1) as f32;
        let want: Vec<f32> = running
            .iter()
            .map(|x| f32::sqrt(if k == 0 { *x } else { x / layers }))
            .collect();
        assert_eq!(samples(&published.canvas), want);
    }
    let image = agg.finish(&divide, &root);
    let want: Vec<f32> = running.iter().map(|x| f32::sqrt(x / 3.0)).collect();
    assert_eq!(samples(image.canvas()), want);
    assert_eq!(image.canvas().layers(), 1);
}

#[test]
fn without_a_consumer_nothing_is_published() {
    let mut agg = Aggregator::new(2, 2, 2, false);
    assert!(agg.absorb(pass(1.0), &sum, &divide, &root).is_none());
    assert!(agg.absorb(pass(2.0), &sum, &divide, &root).is_none());
    let image = agg.finish(&divide, &root);
    let want: Vec<f32> = samples(&pass(1.0))
        .iter()
        .zip(samples(&pass(2.0)).iter())
        .map(|(x, y)| f32::sqrt((x + y) / 2.0))
        .collect();
    assert_eq!(samples(image.canvas()), want);
    // the same image as with a consumer
    let mut with = Aggregator::new(2, 2, 2, true);
    with.absorb(pass(1.0), &sum, &divide, &root);
    with.absorb(pass(2.0), &sum, &divide, &root);
    assert_eq!(bits(with.finish(&divide, &root).canvas()), bits(image.canvas()));
}

#[test]
fn a_render_without_passes_is_black() {
    let agg = Aggregator::new(1, 2, 0, false);
    let image = agg.finish(&divide, &root);
    assert_eq!(samples(image.canvas()), vec![0.0; 6]);
    assert_eq!(image.canvas().layers(), 0);
}

#[test]
fn progress_counts_messages_until_the_channel_closes() {
    let mut t = ProgressTracker::new(3);
    assert_eq!(t, ProgressTracker { length: 3, done: 0, finished: false });
    assert_eq!(t.observe(ProgressEvent::Empty), 0);
    assert_eq!(t.observe(ProgressEvent::Message), 1);
    assert_eq!(t.observe(ProgressEvent::Message), 2);
    assert_eq!(t.observe(ProgressEvent::Empty), 2);
    assert!(!t.is_finished());
    assert_eq!(t.observe(ProgressEvent::Message), 3);
    assert_eq!(t.observe(ProgressEvent::Disconnected), 3);
    assert!(t.is_finished());
    assert_eq!(t, ProgressTracker { length: 3, done: 3, finished: true });
}

#[test]
fn sizes_that_fit() {
    assert!(Canvas::fits(540, 960));
    assert!(Canvas::fits(0, 0));
    assert!(Canvas::fits(0, 1 << 20));
    assert!(Canvas::fits(1, (isize::MAX as usize) / 12));
    assert!(!Canvas::fits(1, (isize::MAX as usize) / 12 + 1));
    assert!(!Canvas::fits(0, (isize::MAX as usize) / 12 + 1));
    assert!(!Canvas::fits(usize::MAX, usize::MAX));
    assert!(!Canvas::fits(1 << 32, 1 << 32));
    assert!(Canvas::fits(1 << 20, 1 << 20));
}

#[test]
fn passes_of_another_size_are_not_accepted() {
    let agg = Aggregator::new(2, 2, 4, true);
    assert!(agg.accepts(&pass(1.0)));
    assert!(!agg.accepts(&Canvas::new_initialized(2, 3)));
    assert!(!agg.accepts(&Canvas::new_initialized(3, 2)));
    assert_eq!(agg.current_pass(), 1);
    assert_eq!(agg.canvas().layers(), 0);
    assert_eq!(agg.canvas().get_dim(), (2, 2));
}
