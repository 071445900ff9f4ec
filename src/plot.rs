//! The result buffer, the per-worker computation and the render pass.
use vstd::prelude::*;
use vstd::arithmetic::div_mod::lemma_fundamental_div_mod_converse;
use crate::config::{lemma_pixel_count, pixel_count, valid_config, validate_config, RenderConfig, RenderError};
use crate::coords::{get_coordinates_from_pixel_number, pixel_point};
use crate::escape::{escape_time, evaluate_point, Point};
use crate::partition::{lemma_stripe_len, lemma_stripes_partition, stripe, stripe_len, stripe_length};

verus! {

/// The point sampled for pixel `i`.
pub open spec fn pixel_sample(cfg: RenderConfig, i: nat) -> Point {
    let p = pixel_point(i, cfg.resolution, cfg.bounds);
    Point { x: p.0 as i32, y: p.1 as i32 }
}

/// The iteration count of pixel `i`.
pub open spec fn pixel_value(cfg: RenderConfig, i: nat) -> u16 {
    escape_time(pixel_sample(cfg, i), cfg.max_iterations as nat) as u16
}

/// What worker `w` of `workers` computes: the value of each index of its stripe.
pub open spec fn worker_output(cfg: RenderConfig, workers: nat, w: nat) -> Seq<u16> {
    let s = stripe(pixel_count(cfg), workers, w);
    Seq::new(s.len(), |k: int| pixel_value(cfg, s[k]))
}

/// The buffer that the outputs of `workers` workers make once merged:
/// index `i` comes from worker `i % workers` at position `i / workers`.
pub open spec fn striped_plot(cfg: RenderConfig, workers: nat) -> Seq<u16> {
    Seq::new(
        pixel_count(cfg),
        |i: int| worker_output(cfg, workers, (i % (workers as int)) as nat)[i / (workers as int)],
    )
}

/// Index `i` has been merged once the outer position `w` and inner position
/// `k` of the merge have passed it.
pub open spec fn merged_before(workers: nat, w: nat, k: nat, i: nat) -> bool {
    i % workers < w || (i % workers == w && i / workers < k)
}

/// The result buffer: one cell per pixel, unset until a worker's value is
/// stored into it, each cell written at most once.
pub struct ResultBuffer {
    cells: Vec<Option<u16>>,
    writes: Ghost<Seq<nat>>,
}

impl View for ResultBuffer {
    type V = Seq<Option<u16>>;

    closed spec fn view(&self) -> Seq<Option<u16>> {
        self.cells@
    }
}

impl ResultBuffer {
    /// How many times each cell has been written.
    pub closed spec fn write_counts(&self) -> Seq<nat> {
        self.writes@
    }

    /// A cell is set exactly when it has been written, and none twice.
    pub closed spec fn wf(&self) -> bool {
        &&& self.writes@.len() == self.cells@.len()
        &&& forall|i: int|
            0 <= i < self.cells@.len() ==> {
                &&& (self.cells@[i] is None <==> self.writes@[i] == 0)
                &&& #[trigger] self.writes@[i] <= 1
            }
    }

    /// The number of cells.
    pub fn len(&self) -> (r: usize)
        ensures
            r == self@.len(),
    {
        self.cells.len()
    }

    /// The content of cell `pixel_num`.
    pub fn get(&self, pixel_num: usize) -> (r: Option<u16>)
        requires
            pixel_num < self@.len(),
        ensures
            r == self@[pixel_num as int],
    {
        self.cells[pixel_num]
    }

    /// Writes a value into a cell that has not been written yet.
    pub fn store(&mut self, pixel_num: u32, value: u16)
        requires
            old(self).wf(),
            pixel_num < old(self)@.len(),
            old(self).write_counts()[pixel_num as int] == 0,
        ensures
            final(self).wf(),
            final(self)@ == old(self)@.update(pixel_num as int, Some(value)),
            final(self).write_counts() == old(self).write_counts().update(pixel_num as int, 1),
    {
        self.cells.set(pixel_num as usize, Some(value));
        self.writes = Ghost(self.writes@.update(pixel_num as int, 1));
    }

    /// Whether no cell is left unset.
    pub fn is_complete(&self) -> (r: bool)
        ensures
            r == (forall|i: int| 0 <= i < self@.len() ==> (#[trigger] self@[i]) is Some),
    {
        let mut i: usize = 0;
        while i < self.cells.len()
            invariant
                i <= self.cells@.len(),
                forall|j: int| 0 <= j < i ==> (#[trigger] self.cells@[j]) is Some,
            decreases self.cells@.len() - i,
        {
            if self.cells[i].is_none() {
                return false;
            }
            i += 1;
        }
        true
    }
}

/// A fresh result buffer of `width * height` unset cells.
pub fn create_atomic_plot_buffer(resolution: (u32, u32)) -> (r: ResultBuffer)
    requires
        resolution.0 * resolution.1 <= u32::MAX,
    ensures
        r.wf(),
        r@ == Seq::new((resolution.0 * resolution.1) as nat, |i: int| None::<u16>),
        r.write_counts() == Seq::new((resolution.0 * resolution.1) as nat, |i: int| 0nat),
{
    let n = resolution.0 * resolution.1;
    let mut cells: Vec<Option<u16>> = Vec::new();
    let mut i: u32 = 0;
    while i < n
        invariant
            i <= n,
            cells@ == Seq::new(i as nat, |j: int| None::<u16>),
        decreases n - i,
    {
        cells.push(None);
        i += 1;
    }
    ResultBuffer { cells, writes: Ghost(Seq::new(n as nat, |j: int| 0nat)) }
}

/// Computes the values of the pixels that worker `worker_id` owns, in the
/// order of its stripe.
pub fn mandelbrot_worker(cfg: &RenderConfig, worker_id: u32) -> (r: Vec<u16>)
    requires
        valid_config(*cfg),
        worker_id < cfg.num_workers,
    ensures
        r@ == worker_output(*cfg, cfg.num_workers as nat, worker_id as nat),
{
    let ghost n = pixel_count(*cfg);
    let ghost workers = cfg.num_workers as nat;
    let ghost s = stripe(n, workers, worker_id as nat);
    let count: u32 = cfg.resolution.0 * cfg.resolution.1;
    let mut r: Vec<u16> = Vec::new();
    let mut i: u64 = worker_id as u64;
    proof {
        lemma_pixel_count(*cfg);
        lemma_stripe_len(n, workers, worker_id as nat, 0);
    }
    while i < count as u64
        invariant
            valid_config(*cfg),
            count == n,
            n == cfg.resolution.0 * cfg.resolution.1,
            worker_id < workers,
            workers == cfg.num_workers,
            i == worker_id + r@.len() * workers,
            r@.len() <= s.len(),
            i < n ==> r@.len() < s.len(),
            i >= n ==> r@.len() == s.len(),
            s == stripe(n, workers, worker_id as nat),
            forall|k: int| 0 <= k < r@.len() ==> r@[k] == #[trigger] pixel_value(*cfg, s[k]),
        decreases s.len() - r@.len(),
    {
        let ghost k = r@.len();
        assert((i as u32) as int == i);
        assert(i < cfg.resolution.0 * cfg.resolution.1);
        let c = get_coordinates_from_pixel_number(i as u32, cfg.resolution, cfg.bounds);
        let v = evaluate_point(c, cfg.max_iterations);
        proof {
            assert(c == pixel_sample(*cfg, s[k as int]));
        }
        r.push(v);
        i = i + cfg.num_workers as u64;
        proof {
            assert(i == worker_id + (k + 1) * workers) by (nonlinear_arith)
                requires
                    i == worker_id + k * workers + workers,
            ;
            lemma_stripe_len(n, workers, worker_id as nat, k + 1);
        }
    }
    assert(r@ =~= worker_output(*cfg, workers, worker_id as nat));
    r
}

/// Whether `stripes` holds, for each worker, as many values as its stripe has indices.
pub open spec fn stripes_complete(cfg: RenderConfig, stripes: Seq<Vec<u16>>) -> bool {
    &&& stripes.len() == cfg.num_workers
    &&& forall|w: int|
        0 <= w < stripes.len() ==> (#[trigger] stripes[w])@.len() == stripe_len(
            pixel_count(cfg),
            cfg.num_workers as nat,
            w as nat,
        )
}

/// Merges the workers' outputs, gathered after all of them have finished,
/// into a fresh result buffer. Fails when a worker's output is missing or
/// short, so that no partial result is ever assembled.
pub fn merge_stripes(cfg: &RenderConfig, stripes: &Vec<Vec<u16>>) -> (r: Result<
    ResultBuffer,
    RenderError,
>)
    requires
        valid_config(*cfg),
    ensures
        r is Ok <==> stripes_complete(*cfg, stripes@),
        r matches Err(e) ==> e == RenderError::WorkerFailed,
        r matches Ok(b) ==> {
            &&& b.wf()
            &&& b@ == Seq::new(
                pixel_count(*cfg),
                |i: int|
                    Some(
                        stripes@[i % (cfg.num_workers as int)]@[i / (cfg.num_workers as int)],
                    ),
            )
            &&& b.write_counts() == Seq::new(pixel_count(*cfg), |i: int| 1nat)
        },
{
    let ghost n = pixel_count(*cfg);
    let ghost workers = cfg.num_workers as nat;
    let num_workers = cfg.num_workers;
    let count: u32 = cfg.resolution.0 * cfg.resolution.1;
    proof {
        lemma_pixel_count(*cfg);
        lemma_stripes_partition(n, workers);
    }
    if stripes.len() != num_workers as usize {
        return Err(RenderError::WorkerFailed);
    }
    let mut w: u32 = 0;
    while w < num_workers
        invariant
            stripes@.len() == workers,
            workers == num_workers,
            workers == cfg.num_workers,
            n == pixel_count(*cfg),
            w <= num_workers,
            count == n,
            forall|v: int|
                0 <= v < w ==> (#[trigger] stripes@[v])@.len() == stripe_len(n, workers, v as nat),
        decreases num_workers - w,
    {
        let expected = stripe_length(count, num_workers, w);
        if stripes[w as usize].len() != expected {
            assert(stripes@[w as int]@.len() != stripe_len(n, workers, w as nat));
            return Err(RenderError::WorkerFailed);
        }
        w += 1;
    }
    let mut buffer = create_atomic_plot_buffer(cfg.resolution);
    let ghost target = Seq::new(
        n,
        |i: int| Some(stripes@[i % (workers as int)]@[i / (workers as int)]),
    );
    let mut w: u32 = 0;
    while w < num_workers
        invariant
            valid_config(*cfg),
            stripes_complete(*cfg, stripes@),
            workers == num_workers,
            workers == cfg.num_workers,
            w <= num_workers,
            n == cfg.resolution.0 * cfg.resolution.1,
            n == pixel_count(*cfg),
            buffer.wf(),
            buffer@.len() == n,
            buffer.write_counts().len() == n,
            target.len() == n,
            target == Seq::new(
                n,
                |i: int| Some(stripes@[i % (workers as int)]@[i / (workers as int)]),
            ),
            forall|i: nat|
                i < n ==> (merged_before(workers, w as nat, 0, i) ==> #[trigger] buffer@[i as int]
                    == target[i as int] && buffer.write_counts()[i as int] == 1) && (
                !merged_before(workers, w as nat, 0, i) ==> buffer.write_counts()[i as int]
                    == 0),
            forall|i: nat|
                i < n ==> {
                    &&& #[trigger] (i % workers) < workers
                    &&& i / workers < stripe(n, workers, i % workers).len()
                    &&& stripe(n, workers, i % workers)[(i / workers) as int] == i
                },
        decreases num_workers - w,
    {
        let row = &stripes[w as usize];
        let mut k: usize = 0;
        while k < row.len()
            invariant
                valid_config(*cfg),
                stripes_complete(*cfg, stripes@),
                workers == num_workers,
                w < num_workers,
                row@ == stripes@[w as int]@,
                k <= row@.len(),
                row@.len() == stripe_len(n, workers, w as nat),
                n == pixel_count(*cfg),
                buffer.wf(),
                buffer@.len() == n,
                buffer.write_counts().len() == n,
                target == Seq::new(
                    n,
                    |i: int| Some(stripes@[i % (workers as int)]@[i / (workers as int)]),
                ),
                forall|i: nat|
                    i < n ==> (merged_before(workers, w as nat, k as nat, i)
                        ==> #[trigger] buffer@[i as int] == target[i as int]
                        && buffer.write_counts()[i as int] == 1) && (!merged_before(
                        workers,
                        w as nat,
                        k as nat,
                        i,
                    ) ==> buffer.write_counts()[i as int] == 0),
            decreases row@.len() - k,
        {
            proof {
                lemma_stripe_len(n, workers, w as nat, k as nat);
                assert(k * workers >= 0) by (nonlinear_arith);
                lemma_fundamental_div_mod_converse(
                    w + k * workers,
                    workers as int,
                    k as int,
                    w as int,
                );
            }
            let pixel_num: u32 = (w as u64 + k as u64 * num_workers as u64) as u32;
            let ghost before = buffer;
            buffer.store(pixel_num, row[k]);
            proof {
                assert forall|i: nat| i < n implies (merged_before(
                    workers,
                    w as nat,
                    (k + 1) as nat,
                    i,
                ) ==> #[trigger] buffer@[i as int] == target[i as int]
                    && buffer.write_counts()[i as int] == 1) && (!merged_before(
                    workers,
                    w as nat,
                    (k + 1) as nat,
                    i,
                ) ==> buffer.write_counts()[i as int] == 0) by {
                    if i != pixel_num {
                        assert(buffer@[i as int] == before@[i as int]);
                        if i % workers == w && i / workers == k {
                            vstd::arithmetic::div_mod::lemma_fundamental_div_mod(
                                i as int,
                                workers as int,
                            );
                            assert(i == w + k * workers) by (nonlinear_arith)
                                requires
                                    i == workers * (i / workers) + i % workers,
                                    i % workers == w,
                                    i / workers == k,
                            ;
                        }
                    }
                }
            }
            k += 1;
        }
        proof {
            assert forall|i: nat| i < n implies (merged_before(workers, (w + 1) as nat, 0, i)
                ==> #[trigger] buffer@[i as int] == target[i as int]
                && buffer.write_counts()[i as int] == 1) && (!merged_before(
                workers,
                (w + 1) as nat,
                0,
                i,
            ) ==> buffer.write_counts()[i as int] == 0) by {
                assert(i / workers < stripe(n, workers, i % workers).len());
            }
        }
        w += 1;
    }
    proof {
        assert forall|i: int| 0 <= i < n implies buffer@[i] == target[i] by {
            assert(buffer@[(i as nat) as int] == target[(i as nat) as int]);
        }
        assert(buffer@ =~= target);
        assert(buffer.write_counts() =~= Seq::new(n, |i: int| 1nat)) by {
            assert forall|i: int| 0 <= i < n implies buffer.write_counts()[i] == 1nat by {
                assert(buffer@[(i as nat) as int] == target[(i as nat) as int]);
            }
        }
    }
    Ok(buffer)
}

/// Merging the outputs of any number of workers gives every pixel its own value.
pub proof fn lemma_striped_plot_values(cfg: RenderConfig, workers: nat)
    requires
        workers > 0,
    ensures
        striped_plot(cfg, workers) == Seq::new(pixel_count(cfg), |i: int| pixel_value(cfg, i as nat)),
{
    let n = pixel_count(cfg);
    lemma_stripes_partition(n, workers);
    assert forall|i: int| 0 <= i < n implies #[trigger] striped_plot(cfg, workers)[i]
        == pixel_value(cfg, i as nat) by {
        let j = i as nat;
        assert(j % workers < workers);
    }
    assert(striped_plot(cfg, workers) =~= Seq::new(n, |i: int| pixel_value(cfg, i as nat)));
}

/// A render gives the same result buffer whatever the number of workers:
/// each pixel's value depends on its index alone, not on who computed it.
pub proof fn lemma_render_independent_of_workers(cfg: RenderConfig, w1: nat, w2: nat)
    requires
        w1 > 0,
        w2 > 0,
    ensures
        striped_plot(cfg, w1) == striped_plot(cfg, w2),
{
    lemma_striped_plot_values(cfg, w1);
    lemma_striped_plot_values(cfg, w2);
}

/// One render pass: checks the configuration, lets each of the
/// `num_workers` workers compute its stripe, and merges their outputs.
/// Every cell of the result is written exactly once.
pub fn generate_mandelbrot_image(cfg: &RenderConfig) -> (r: Result<ResultBuffer, RenderError>)
    ensures
        r is Ok <==> valid_config(*cfg),
        r matches Err(e) ==> e == RenderError::InvalidConfig,
        r matches Ok(b) ==> {
            &&& b.wf()
            &&& b@ == Seq::new(pixel_count(*cfg), |i: int| Some(pixel_value(*cfg, i as nat)))
            &&& b.write_counts() == Seq::new(pixel_count(*cfg), |i: int| 1nat)
        },
{
    if validate_config(cfg).is_err() {
        return Err(RenderError::InvalidConfig);
    }
    let ghost n = pixel_count(*cfg);
    let ghost workers = cfg.num_workers as nat;
    let mut stripes: Vec<Vec<u16>> = Vec::new();
    let mut w: u32 = 0;
    while w < cfg.num_workers
        invariant
            valid_config(*cfg),
            workers == cfg.num_workers,
            w <= cfg.num_workers,
            stripes@.len() == w,
            forall|v: int|
                0 <= v < w ==> (#[trigger] stripes@[v])@ == worker_output(*cfg, workers, v as nat),
        decreases cfg.num_workers - w,
    {
        let out = mandelbrot_worker(cfg, w);
        stripes.push(out);
        w += 1;
    }
    proof {
        assert forall|v: int| 0 <= v < stripes@.len() implies (#[trigger] stripes@[v])@.len()
            == stripe_len(n, workers, v as nat) by {
            assert(stripes@[v]@ == worker_output(*cfg, workers, v as nat));
        }
    }
    match merge_stripes(cfg, &stripes) {
        Ok(b) => {
            proof {
                lemma_striped_plot_values(*cfg, workers);
                assert forall|i: int| 0 <= i < n implies b@[i] == Some(
                    pixel_value(*cfg, i as nat),
                ) by {
                    assert(striped_plot(*cfg, workers)[i] == pixel_value(*cfg, i as nat));
                    let v = i % (workers as int);
                    assert(0 <= v < workers) by {
                        vstd::arithmetic::div_mod::lemma_mod_pos_bound(i, workers as int);
                    }
                    assert(stripes@[v]@ == worker_output(*cfg, workers, v as nat));
                }
                assert(b@ =~= Seq::new(n, |i: int| Some(pixel_value(*cfg, i as nat))));
            }
            Ok(b)
        },
        Err(e) => Err(e),
    }
}

} // verus!
