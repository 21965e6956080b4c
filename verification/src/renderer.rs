//! The renderer: the colour of a ray, one pass over the image, and the
//! bookkeeping of a progressive render.
//!
//! Threads, channels and the progress display belong to the program around
//! the library. What is here are the decisions: what a pass writes where,
//! how passes are merged and published, and when a render has ended.
use crate::aabb::{kernel_total, Slabs, AABB};
use crate::canvas::{at_least_one, Canvas};
use crate::collision::{HitRecord, Hittable};
use crate::scalar::{Scalar, INFINITY_BITS, MILLI_BITS};
use crate::vec3::{Ray, Vec3};
use crate::world::World;
use vstd::prelude::*;

verus! {

/// The colour black.
pub open spec fn black() -> Vec3 {
    Vec3 { x: Scalar { bits: 0 }, y: Scalar { bits: 0 }, z: Scalar { bits: 0 } }
}

/// The nearest distance at which a hit counts: a little above zero, so that
/// a scattered ray does not hit the surface it leaves.
pub open spec fn near_limit() -> Scalar {
    Scalar { bits: MILLI_BITS }
}

/// The farthest distance at which a hit counts: infinity.
pub open spec fn far_limit() -> Scalar {
    Scalar { bits: INFINITY_BITS }
}

/// `out` is a colour that the ray can have with `depth` bounces left.
/// Without a bounce left it is black. Otherwise the world is searched from
/// a little above zero to infinity. A ray that hits nothing has the colour
/// of the background. A ray that hits a surface is scattered by it, or
/// absorbed and black; the colour of a scattered ray is the colour of the
/// new ray with one bounce less, attenuated by the albedo of the surface.
pub open spec fn shaded<H: Hittable, K: Fn(&AABB, &Ray) -> Slabs, S: Fn(&Ray, &HitRecord) -> Option<
    Ray,
>, A: Fn(Vec3, Vec3) -> Vec3, B: Fn(&Ray) -> Vec3>(
    world: &World<H>,
    r: Ray,
    depth: nat,
    out: Vec3,
    slabs: &K,
    scatter: &S,
    attenuate: &A,
    background: &B,
) -> bool
    decreases depth,
{
    if depth == 0 {
        out == black()
    } else {
        exists|found: Option<HitRecord>|
            #![trigger world.finds(r, near_limit(), far_limit(), slabs, found)]
            world.finds(r, near_limit(), far_limit(), slabs, found) && match found {
                None => call_ensures(background, (&r,), out),
                Some(rec) => exists|next: Option<Ray>|
                    #![trigger call_ensures(scatter, (&r, &rec), next)]
                    call_ensures(scatter, (&r, &rec), next) && match next {
                        None => out == black(),
                        Some(ray) => exists|inner: Vec3|
                            #![trigger call_ensures(attenuate, (rec.material_hit.albedo_spec(), inner), out)]
                            shaded(
                                world,
                                ray,
                                (depth - 1) as nat,
                                inner,
                                slabs,
                                scatter,
                                attenuate,
                                background,
                            ) && call_ensures(
                                attenuate,
                                (rec.material_hit.albedo_spec(), inner),
                                out,
                            ),
                    },
            }
    }
}

/// The colour of a ray with `depth` bounces left. `slabs` does the
/// arithmetic of the box tests, `scatter` is the material model, `attenuate`
/// multiplies an albedo and a colour component by component, and
/// `background` is the colour of the sky along a ray.
pub fn ray_color<H: Hittable, K: Fn(&AABB, &Ray) -> Slabs, S: Fn(&Ray, &HitRecord) -> Option<
    Ray,
>, A: Fn(Vec3, Vec3) -> Vec3, B: Fn(&Ray) -> Vec3>(
    world: &World<H>,
    r: &Ray,
    depth: usize,
    slabs: &K,
    scatter: &S,
    attenuate: &A,
    background: &B,
) -> (out: Vec3)
    requires
        world.wf(),
        kernel_total(slabs),
        forall|a: Ray, rec: HitRecord| call_requires(scatter, (&a, &rec)),
        forall|x: Vec3, y: Vec3| call_requires(attenuate, (x, y)),
        forall|a: Ray| call_requires(background, (&a,)),
    ensures
        shaded(world, *r, depth as nat, out, slabs, scatter, attenuate, background),
    decreases depth,
{
    if depth == 0 {
        return Vec3::zeros();
    }
    let found = world.hit(r, Scalar::from_bits(MILLI_BITS), Scalar::infinity(), slabs);
    match found {
        Some(record) => {
            let next = scatter(r, &record);
            match next {
                Some(scattered) => {
                    let albedo = record.material_hit.albedo();
                    let inner = ray_color(
                        world,
                        &scattered,
                        depth - 1,
                        slabs,
                        scatter,
                        attenuate,
                        background,
                    );
                    let out = attenuate(albedo, inner);
                    proof {
                        assert(world.finds(*r, near_limit(), far_limit(), slabs, found));
                        assert(call_ensures(scatter, (&*r, &record), next));
                        assert(call_ensures(
                            attenuate,
                            (record.material_hit.albedo_spec(), inner),
                            out,
                        ));
                    }
                    out
                },
                None => {
                    proof {
                        assert(world.finds(*r, near_limit(), far_limit(), slabs, found));
                        assert(call_ensures(scatter, (&*r, &record), next));
                    }
                    Vec3::zeros()
                },
            }
        },
        None => {
            let out = background(r);
            proof {
                assert(world.finds(*r, near_limit(), far_limit(), slabs, found));
                assert(call_ensures(background, (&*r,), out));
            }
            out
        },
    }
}

/// One pass over the image: the colour that `shade` returns for column `i`
/// of row `j`, counted from the bottom as the camera does, is written into
/// column `i` of row `height - 1 - j` of the canvas, whose rows are counted
/// from the top.
pub fn compute_render<P: Fn(usize, usize) -> Vec3>(
    canvas_height: usize,
    canvas_width: usize,
    shade: &P,
) -> (cv: Canvas)
    requires
        at_least_one(canvas_height as int) * at_least_one(canvas_width as int) * 12 <= isize::MAX,
        forall|i: usize, j: usize| call_requires(shade, (i, j)),
    ensures
        cv.wf(),
        cv.height_spec() == canvas_height,
        cv.width_spec() == canvas_width,
        cv.layers_spec() == if canvas_height > 0 && canvas_width > 0 {
            1nat
        } else {
            0nat
        },
        forall|i: usize, j: usize|
            i < canvas_width && j < canvas_height ==> call_ensures(
                shade,
                (i, j),
                #[trigger] cv.color_at(i as int, canvas_height - 1 - j),
            ),
{
    let mut temp_cv = Canvas::new_initialized(canvas_height, canvas_width);
    let mut j: usize = 0;
    while j < canvas_height
        invariant
            j <= canvas_height,
            temp_cv.wf(),
            temp_cv.height_spec() == canvas_height,
            temp_cv.width_spec() == canvas_width,
            temp_cv.layers_spec() == if j > 0 && canvas_width > 0 {
                1nat
            } else {
                0nat
            },
            forall|i: usize, j: usize| call_requires(shade, (i, j)),
            forall|i2: usize, j2: usize|
                i2 < canvas_width && j2 < j ==> call_ensures(
                    shade,
                    (i2, j2),
                    #[trigger] temp_cv.color_at(i2 as int, canvas_height - 1 - j2),
                ),
        decreases canvas_height - j,
    {
        let mut i: usize = 0;
        while i < canvas_width
            invariant
                j < canvas_height,
                i <= canvas_width,
                temp_cv.wf(),
                temp_cv.height_spec() == canvas_height,
                temp_cv.width_spec() == canvas_width,
                temp_cv.layers_spec() == if (j > 0 || i > 0) && canvas_width > 0 {
                    1nat
                } else {
                    0nat
                },
                forall|i: usize, j: usize| call_requires(shade, (i, j)),
                forall|i2: usize, j2: usize|
                    i2 < canvas_width && (j2 < j || (j2 == j && i2 < i)) ==> call_ensures(
                        shade,
                        (i2, j2),
                        #[trigger] temp_cv.color_at(i2 as int, canvas_height - 1 - j2),
                    ),
            decreases canvas_width - i,
        {
            let color = shade(i, j);
            let ghost before = temp_cv;
            temp_cv.set_pixel(i, canvas_height - 1 - j, color);
            proof {
                assert forall|i2: usize, j2: usize|
                    i2 < canvas_width && (j2 < j || (j2 == j && i2 < i + 1)) implies call_ensures(
                    shade,
                    (i2, j2),
                    #[trigger] temp_cv.color_at(i2 as int, canvas_height - 1 - j2),
                ) by {
                    if i2 == i && j2 == j {
                    } else {
                        assert(temp_cv.color_at(i2 as int, canvas_height - 1 - j2)
                            == before.color_at(i2 as int, canvas_height - 1 - j2));
                    }
                }
            }
            i = i + 1;
        }
        j = j + 1;
    }
    temp_cv
}

/// What a render is asked for.
#[derive(Clone, Copy, Debug, PartialEq, Eq, Structural)]
pub struct Settings {
    pub width: usize,
    pub height: usize,
    pub samples: usize,
    pub bounces: usize,
    pub publishes_passes: bool,
    pub with_cli_progress_tracker: bool,
}

/// A scene, a camera and the settings of a render. The renderer carries
/// the scene and the camera and does not look into them.
pub struct Renderer<W, C> {
    world: W,
    camera: C,
    settings: Settings,
}

impl<W, C> Renderer<W, C> {
    /// The settings chosen so far.
    pub closed spec fn settings_spec(&self) -> Settings {
        self.settings
    }

    /// The scene.
    pub closed spec fn world_spec(&self) -> W {
        self.world
    }

    /// The camera.
    pub closed spec fn camera_spec(&self) -> C {
        self.camera
    }

    /// A renderer with the default settings: 960 by 540 pixels, 100
    /// samples, 2 bounces, no published passes and no progress display.
    pub fn new(world: W, camera: C) -> (r: Self)
        ensures
            r.world_spec() == world,
            r.camera_spec() == camera,
            r.settings_spec() == (Settings {
                width: 960,
                height: 540,
                samples: 100,
                bounces: 2,
                publishes_passes: false,
                with_cli_progress_tracker: false,
            }),
    {
        Renderer {
            world,
            camera,
            settings: Settings {
                width: 960,
                height: 540,
                samples: 100,
                bounces: 2,
                publishes_passes: false,
                with_cli_progress_tracker: false,
            },
        }
    }

    pub fn height(self, height: usize) -> (r: Self)
        ensures
            r.world_spec() == self.world_spec(),
            r.camera_spec() == self.camera_spec(),
            r.settings_spec() == (Settings { height, ..self.settings_spec() }),
    {
        let mut r = self;
        r.settings.height = height;
        r
    }

    pub fn width(self, width: usize) -> (r: Self)
        ensures
            r.world_spec() == self.world_spec(),
            r.camera_spec() == self.camera_spec(),
            r.settings_spec() == (Settings { width, ..self.settings_spec() }),
    {
        let mut r = self;
        r.settings.width = width;
        r
    }

    pub fn samples(self, samples: usize) -> (r: Self)
        ensures
            r.world_spec() == self.world_spec(),
            r.camera_spec() == self.camera_spec(),
            r.settings_spec() == (Settings { samples, ..self.settings_spec() }),
    {
        let mut r = self;
        r.settings.samples = samples;
        r
    }

    pub fn bounces(self, bounces: usize) -> (r: Self)
        ensures
            r.world_spec() == self.world_spec(),
            r.camera_spec() == self.camera_spec(),
            r.settings_spec() == (Settings { bounces, ..self.settings_spec() }),
    {
        let mut r = self;
        r.settings.bounces = bounces;
        r
    }

    pub fn with_cli_progress_tracker(self) -> (r: Self)
        ensures
            r.world_spec() == self.world_spec(),
            r.camera_spec() == self.camera_spec(),
            r.settings_spec() == (Settings {
                with_cli_progress_tracker: true,
                ..self.settings_spec()
            }),
    {
        let mut r = self;
        r.settings.with_cli_progress_tracker = true;
        r
    }

    /// Registers a consumer of passes: from now on every merged pass is
    /// published.
    pub fn publish_passes(&mut self)
        ensures
            final(self).world_spec() == old(self).world_spec(),
            final(self).camera_spec() == old(self).camera_spec(),
            final(self).settings_spec() == (Settings {
                publishes_passes: true,
                ..old(self).settings_spec()
            }),
    {
        self.settings.publishes_passes = true;
    }

    pub fn settings(&self) -> (s: Settings)
        ensures
            s == self.settings_spec(),
    {
        self.settings
    }

    pub fn world(&self) -> (w: &W)
        ensures
            *w == self.world_spec(),
    {
        &self.world
    }

    pub fn camera(&self) -> (c: &C)
        ensures
            *c == self.camera_spec(),
    {
        &self.camera
    }

    /// The state in which the merging of the passes begins.
    pub fn aggregator(&self) -> (agg: Aggregator)
        requires
            at_least_one(self.settings_spec().height as int) * at_least_one(
                self.settings_spec().width as int,
            ) * 12 <= isize::MAX,
        ensures
            agg.wf(),
            agg.total().height_spec() == self.settings_spec().height,
            agg.total().width_spec() == self.settings_spec().width,
            agg.total().layers_spec() == 0,
            agg.next_pass() == 1,
            agg.total_passes() == self.settings_spec().samples,
            agg.publishing() == self.settings_spec().publishes_passes,
    {
        Aggregator::new(
            self.settings.height,
            self.settings.width,
            self.settings.samples,
            self.settings.publishes_passes,
        )
    }
}

/// A snapshot of a render in progress: the average of the passes merged so
/// far, gamma-corrected, with the number of the pass that completed it.
#[derive(Debug, Clone)]
pub struct RenderPass {
    pub canvas: Canvas,
    pub current_pass: usize,
    pub total_passes: usize,
}

/// A finished image.
#[derive(Debug, Clone)]
pub struct Render {
    canvas: Canvas,
}

impl Render {
    /// The image.
    pub closed spec fn image(&self) -> Canvas {
        self.canvas
    }

    pub fn new(canvas: Canvas) -> (r: Render)
        ensures
            r.image() == canvas,
    {
        Render { canvas }
    }

    pub fn canvas(&self) -> (c: &Canvas)
        ensures
            *c == self.image(),
    {
        &self.canvas
    }

    /// The text of the plain PPM file of the image.
    pub fn ppm(&self) -> (text: String)
        requires
            self.image().wf(),
        ensures
            text@ == crate::export::ppm_spec(
                self.image().width_spec(),
                self.image().height_spec(),
                self.image().pixels_spec(),
            ),
    {
        let dim = self.canvas.get_dim();
        let pixels = self.canvas.get_pixels();
        crate::export::ppm_text(dim.0, dim.1, &pixels)
    }

    /// Replaces what the buffer holds by the pixels of the image in RGBA
    /// order.
    pub fn write_rgba_to_buffer(&self, buf: &mut bytes::BytesMut)
        requires
            self.image().wf(),
        ensures
            crate::export::buffer_bytes(*final(buf)) == crate::export::rgba_spec(
                self.image().pixels_spec(),
                self.image().pixels_spec().len() as int,
            ),
    {
        self.canvas.write_rgba_to_buffer(buf);
    }
}

/// `image` is what is shown of `total`: the sum of layers is normalized and
/// then gamma-corrected.
pub open spec fn developed<D: Fn(Scalar, usize) -> Scalar, R: Fn(Scalar) -> Scalar>(
    total: &Canvas,
    image: &Canvas,
    divide: &D,
    root: &R,
) -> bool {
    exists|mid: Canvas|
        #![trigger Canvas::normalized_from(total, &mid, divide)]
        Canvas::normalized_from(total, &mid, divide) && Canvas::mapped_from(&mid, image, root)
            && image.layers_spec() == mid.layers_spec()
}

/// The single place where passes are merged: the running sum of the passes
/// received, and the number of the next pass to publish.
pub struct Aggregator {
    canvas: Canvas,
    render_pass: usize,
    total_passes: usize,
    publishing: bool,
}

impl Aggregator {
    /// The running sum.
    pub closed spec fn total(&self) -> Canvas {
        self.canvas
    }

    /// The number that the next published pass gets.
    pub closed spec fn next_pass(&self) -> nat {
        self.render_pass as nat
    }

    /// The number of passes of the whole render.
    pub closed spec fn total_passes(&self) -> nat {
        self.total_passes as nat
    }

    /// Whether a consumer of passes is registered.
    pub closed spec fn publishing(&self) -> bool {
        self.publishing
    }

    /// What every aggregator satisfies.
    pub open spec fn wf(&self) -> bool {
        self.total().wf()
    }

    /// An aggregator that has received nothing: an empty canvas, and 1 as
    /// the number of the first pass.
    pub fn new(height: usize, width: usize, total_passes: usize, publishing: bool) -> (agg: Self)
        requires
            at_least_one(height as int) * at_least_one(width as int) * 12 <= isize::MAX,
        ensures
            agg.wf(),
            agg.total().height_spec() == height,
            agg.total().width_spec() == width,
            agg.total().layers_spec() == 0,
            agg.total().cells() == Seq::new(
                (height * width * 3) as nat,
                |k: int| Scalar { bits: 0 },
            ),
            agg.next_pass() == 1,
            agg.total_passes() == total_passes,
            agg.publishing() == publishing,
    {
        Aggregator {
            canvas: Canvas::new_initialized(height, width),
            render_pass: 1,
            total_passes,
            publishing,
        }
    }

    /// The running sum of the passes received so far.
    pub fn canvas(&self) -> (c: &Canvas)
        ensures
            *c == self.total(),
    {
        &self.canvas
    }

    /// The number that the next published pass gets.
    pub fn current_pass(&self) -> (n: usize)
        ensures
            n == self.next_pass(),
    {
        self.render_pass
    }

    /// Whether a pass can be merged: it has the size of the running sum,
    /// and neither the count of layers nor the number of the pass runs out
    /// of its range.
    pub open spec fn accepts_spec(&self, pass: &Canvas) -> bool {
        &&& self.total().same_size(pass)
        &&& self.total().layers_spec() + pass.layers_spec() <= usize::MAX
        &&& self.publishing() ==> self.next_pass() < usize::MAX
    }

    pub fn accepts(&self, pass: &Canvas) -> (ok: bool)
        ensures
            ok == self.accepts_spec(pass),
    {
        self.canvas.height() == pass.height() && self.canvas.width() == pass.width()
            && self.canvas.layers() <= usize::MAX - pass.layers() && (!self.publishing
            || self.render_pass < usize::MAX)
    }

    /// Merges one finished pass into the running sum. With a consumer
    /// registered, the answer is the snapshot to publish: a copy of the sum,
    /// normalized and gamma-corrected, tagged with the number of this pass;
    /// the next pass gets the next number. Without one there is no answer.
    pub fn absorb<A: Fn(Scalar, Scalar) -> Scalar, D: Fn(Scalar, usize) -> Scalar, R: Fn(
        Scalar,
    ) -> Scalar>(&mut self, pass: Canvas, sum: &A, divide: &D, root: &R) -> (out: Option<
        RenderPass,
    >)
        requires
            old(self).wf(),
            pass.wf(),
            old(self).accepts_spec(&pass),
            forall|x: Scalar, y: Scalar| call_requires(sum, (x, y)),
            forall|x: Scalar, n: usize| call_requires(divide, (x, n)),
            forall|x: Scalar| call_requires(root, (x,)),
        ensures
            final(self).wf(),
            Canvas::merged_from(&old(self).total(), &pass, &final(self).total(), sum),
            final(self).total_passes() == old(self).total_passes(),
            final(self).publishing() == old(self).publishing(),
            out is Some <==> old(self).publishing(),
            final(self).next_pass() == if old(self).publishing() {
                old(self).next_pass() + 1
            } else {
                old(self).next_pass()
            },
            out matches Some(published) ==> {
                &&& published.current_pass == old(self).next_pass()
                &&& published.total_passes == old(self).total_passes()
                &&& published.canvas.wf()
                &&& published.canvas.layers_spec() <= 1
                &&& developed(&final(self).total(), &published.canvas, divide, root)
            },
    {
        self.canvas.add_assign(pass, sum);
        if self.publishing {
            let mut output = self.canvas.clone();
            output.normalize(divide);
            let ghost mid = output;
            output.gamma_correction(root);
            proof {
                assert(Canvas::normalized_from(&self.canvas, &mid, divide));
            }
            let published = RenderPass {
                canvas: output,
                current_pass: self.render_pass,
                total_passes: self.total_passes,
            };
            self.render_pass = self.render_pass + 1;
            Some(published)
        } else {
            None
        }
    }

    /// The end of the stream of passes: the finished image is the running
    /// sum, normalized and gamma-corrected.
    pub fn finish<D: Fn(Scalar, usize) -> Scalar, R: Fn(Scalar) -> Scalar>(
        self,
        divide: &D,
        root: &R,
    ) -> (image: Render)
        requires
            self.wf(),
            forall|x: Scalar, n: usize| call_requires(divide, (x, n)),
            forall|x: Scalar| call_requires(root, (x,)),
        ensures
            image.image().wf(),
            image.image().layers_spec() <= 1,
            developed(&self.total(), &image.image(), divide, root),
    {
        let ghost total = self.canvas;
        let mut cv = self.canvas;
        cv.normalize(divide);
        let ghost mid = cv;
        cv.gamma_correction(root);
        proof {
            assert(Canvas::normalized_from(&total, &mid, divide));
        }
        Render::new(cv)
    }
}

/// What the progress display learns when it looks at its channel.
#[derive(Clone, Copy, Debug, PartialEq, Eq, Structural)]
pub enum ProgressEvent {
    /// A worker has finished a pass.
    Message,
    /// Nothing has arrived.
    Empty,
    /// Every worker is gone.
    Disconnected,
}

/// The state of the progress display: how many passes are done, and whether
/// the render has ended.
#[derive(Clone, Copy, Debug, PartialEq, Eq, Structural)]
pub struct ProgressTracker {
    pub length: u64,
    pub done: usize,
    pub finished: bool,
}

impl ProgressTracker {
    /// The state after an event: a message counts one more pass, a
    /// disconnected channel ends the render, and nothing changes otherwise.
    pub open spec fn after(self, event: ProgressEvent) -> ProgressTracker {
        match event {
            ProgressEvent::Message => ProgressTracker { done: (self.done + 1) as usize, ..self },
            ProgressEvent::Empty => self,
            ProgressEvent::Disconnected => ProgressTracker { finished: true, ..self },
        }
    }

    /// The tracker of a render of `length` passes, none of them done.
    pub fn new(length: u64) -> (t: Self)
        ensures
            t == (ProgressTracker { length, done: 0, finished: false }),
    {
        ProgressTracker { length, done: 0, finished: false }
    }

    /// Takes note of an event, and answers with the position to display:
    /// the number of passes done.
    pub fn observe(&mut self, event: ProgressEvent) -> (position: u64)
        requires
            event == ProgressEvent::Message ==> old(self).done < usize::MAX,
        ensures
            *final(self) == old(self).after(event),
            position == final(self).done,
    {
        match event {
            ProgressEvent::Message => {
                self.done = self.done + 1;
            },
            ProgressEvent::Empty => {},
            ProgressEvent::Disconnected => {
                self.finished = true;
            },
        }
        self.done as u64
    }

    pub fn is_finished(&self) -> (b: bool)
        ensures
            b == self.finished,
    {
        self.finished
    }
}

} // verus!
