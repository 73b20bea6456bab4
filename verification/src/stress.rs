//! The stress workloads' rules: which adapter is stressed, how large the GPU's
//! batches are, and where the CPU's workers write.
use vstd::prelude::*;

use crate::fixed::rounded;
use crate::gpus::{names_match, GpuDevice};

verus! {

/// How the GPU's stress stands.
#[derive(Debug, Clone, PartialEq)]
pub enum GpuStress {
    Off,
    Starting,
    Running { adapter: String, backend: String },
    Failed(String),
}

/// How the stress stands.
#[derive(Debug, Clone)]
pub struct StressStatus {
    pub cpu_threads: usize,
    pub gpu: GpuStress,
}

/// The contents of the GPU's state.
pub ghost enum GpuStressView {
    Off,
    Starting,
    Running { adapter: Seq<char>, backend: Seq<char> },
    Failed(Seq<char>),
}

impl View for GpuStress {
    type V = GpuStressView;

    open spec fn view(&self) -> GpuStressView {
        match *self {
            GpuStress::Off => GpuStressView::Off,
            GpuStress::Starting => GpuStressView::Starting,
            GpuStress::Running { adapter, backend } => GpuStressView::Running {
                adapter: adapter@,
                backend: backend@,
            },
            GpuStress::Failed(s) => GpuStressView::Failed(s@),
        }
    }
}

/// The contents of the stress's state.
pub ghost struct StressView {
    pub cpu_threads: nat,
    pub gpu: GpuStressView,
}

impl View for StressStatus {
    type V = StressView;

    open spec fn view(&self) -> StressView {
        StressView { cpu_threads: self.cpu_threads as nat, gpu: self.gpu@ }
    }
}

impl GpuStress {
    /// Whether the GPU is under stress.
    pub fn is_running(&self) -> (r: bool)
        ensures
            r == self@ is Running,
    {
        match self {
            GpuStress::Running { .. } => true,
            _ => false,
        }
    }

    /// A state with the same contents.
    pub fn duplicate(&self) -> (r: GpuStress)
        ensures
            r@ == self@,
    {
        match self {
            GpuStress::Off => GpuStress::Off,
            GpuStress::Starting => GpuStress::Starting,
            GpuStress::Running { adapter, backend } => GpuStress::Running {
                adapter: adapter.clone(),
                backend: backend.clone(),
            },
            GpuStress::Failed(s) => GpuStress::Failed(s.clone()),
        }
    }
}

impl StressStatus {
    /// The state when the workers start.
    pub fn starting(gpu_requested: bool) -> (r: StressStatus)
        ensures
            r@.cpu_threads == 0,
            r@.gpu == if gpu_requested {
                GpuStressView::Starting
            } else {
                GpuStressView::Off
            },
    {
        StressStatus {
            cpu_threads: 0,
            gpu: if gpu_requested {
                GpuStress::Starting
            } else {
                GpuStress::Off
            },
        }
    }

    /// A state with the same contents.
    pub fn duplicate(&self) -> (r: StressStatus)
        ensures
            r@ == self@,
    {
        StressStatus { cpu_threads: self.cpu_threads, gpu: self.gpu.duplicate() }
    }
}

// ---------------------------------------------------------------------------
// The adapter

/// An adapter that could be stressed.
pub struct StressAdapter {
    pub name: String,
    pub vendor: u32,
    pub device: u32,
    /// It is used through Vulkan.
    pub vulkan: bool,
}

/// How well an adapter fits the card: by its numbers best, else by its name;
/// Vulkan before others.  Zero if it does not fit.
pub open spec fn adapter_score(g: GpuDevice, a: StressAdapter) -> int {
    let extra: int = if a.vulkan {
        5
    } else {
        0
    };
    if g.vendor_id == Some(a.vendor) && g.device_id == Some(a.device) {
        100 + extra
    } else if names_match(g.name@, a.name@) {
        50 + extra
    } else {
        0
    }
}

/// Scores how well an adapter fits the card.
pub fn score(g: &GpuDevice, a: &StressAdapter) -> (r: u32)
    ensures
        r == adapter_score(*g, *a),
{
    let extra: u32 = if a.vulkan {
        5
    } else {
        0
    };
    let vendor = match g.vendor_id {
        Some(v) => v == a.vendor,
        None => false,
    };
    let device = match g.device_id {
        Some(d) => d == a.device,
        None => false,
    };
    if vendor && device {
        100 + extra
    } else if g.matches_name(a.name.as_str()) {
        50 + extra
    } else {
        0
    }
}

/// The adapter at `i` is the one to take: it fits, none fits better, and those
/// behind it fit less.
pub open spec fn best_fit(g: GpuDevice, adapters: Seq<StressAdapter>, i: int) -> bool {
    &&& 0 <= i < adapters.len()
    &&& adapter_score(g, adapters[i]) > 0
    &&& forall|k: int|
        0 <= k < adapters.len() ==> adapter_score(g, #[trigger] adapters[k]) <= adapter_score(
            g,
            adapters[i],
        )
    &&& forall|k: int|
        i < k < adapters.len() ==> adapter_score(g, #[trigger] adapters[k]) < adapter_score(
            g,
            adapters[i],
        )
}

/// Both numbers of an adapter are the card's.
pub open spec fn same_numbers(g: GpuDevice, a: StressAdapter) -> bool {
    g.vendor_id == Some(a.vendor) && g.device_id == Some(a.device)
}

/// The adapter at `i` is the card's.  Where one has both of the card's numbers,
/// it has both; where none has, but one has its name, it has the name; else it
/// is the only one.  Of several that are the card's alike, one with Vulkan is
/// before one without, and the last before the others.
pub open spec fn is_the_cards(g: GpuDevice, adapters: Seq<StressAdapter>, i: int) -> bool {
    let a = adapters[i];
    &&& 0 <= i < adapters.len()
    &&& (exists|k: int| 0 <= k < adapters.len() && same_numbers(g, #[trigger] adapters[k]))
        ==> same_numbers(g, a)
    &&& (exists|k: int|
        0 <= k < adapters.len() && names_match(g.name@, (#[trigger] adapters[k]).name@))
        ==> same_numbers(g, a) || names_match(g.name@, a.name@)
    &&& !same_numbers(g, a) && !names_match(g.name@, a.name@) ==> adapters.len() == 1
    &&& forall|k: int|
        0 <= k < adapters.len() && same_numbers(g, #[trigger] adapters[k]) == same_numbers(g, a)
            && (same_numbers(g, a) || names_match(g.name@, adapters[k].name@)) ==> {
            &&& adapters[k].vulkan ==> a.vulkan
            &&& adapters[k].vulkan == a.vulkan ==> k <= i
        }
}

/// The adapter that is taken is the card's.
pub proof fn lemma_adapter_is_the_cards(g: GpuDevice, adapters: Seq<StressAdapter>, i: int)
    requires
        best_fit(g, adapters, i) || (i == 0 && adapters.len() == 1),
    ensures
        is_the_cards(g, adapters, i),
{
    let a = adapters[i];
    assert forall|k: int|
        0 <= k < adapters.len() && same_numbers(g, #[trigger] adapters[k]) == same_numbers(g, a)
            && (same_numbers(g, a) || names_match(g.name@, adapters[k].name@)) implies (
    adapters[k].vulkan ==> a.vulkan) && (adapters[k].vulkan == a.vulkan ==> k <= i) by {
        assert(adapter_score(g, adapters[k]) >= 0);
    }
}

/// The message where no adapter fits.
pub open spec fn no_driver(g: GpuDevice) -> Seq<char> {
    "No Vulkan/DirectX driver found for "@ + g.name@
}

/// The adapter for `gpu`: same PCI IDs, else same name, else the only one.
/// Vulkan is preferred.
pub fn pick_adapter(gpu: &GpuDevice, adapters: &Vec<StressAdapter>) -> (r: Result<usize, String>)
    ensures
        match r {
            Ok(i) => best_fit(*gpu, adapters@, i as int) || (i == 0 && adapters@.len() == 1),
            Err(e) => e@ == no_driver(*gpu) && adapters@.len() != 1 && forall|k: int|
                0 <= k < adapters@.len() ==> adapter_score(*gpu, #[trigger] adapters@[k]) == 0,
        },
        r is Err <==> adapters@.len() != 1 && forall|k: int|
            0 <= k < adapters@.len() ==> adapter_score(*gpu, #[trigger] adapters@[k]) == 0,
        r is Ok ==> is_the_cards(*gpu, adapters@, r->Ok_0 as int),
        r is Err ==> forall|k: int|
            0 <= k < adapters@.len() ==> !same_numbers(*gpu, #[trigger] adapters@[k])
                && !names_match(gpu.name@, adapters@[k].name@),
{
    let mut best: usize = 0;
    let mut top: u32 = 0;
    let mut i: usize = 0;
    while i < adapters.len()
        invariant
            i <= adapters.len(),
            top > 0 ==> best < i && adapter_score(*gpu, adapters@[best as int]) == top,
            forall|k: int| 0 <= k < i ==> adapter_score(*gpu, #[trigger] adapters@[k]) <= top,
            forall|k: int|
                best < k < i ==> adapter_score(*gpu, #[trigger] adapters@[k]) < top || top == 0,
        decreases adapters.len() - i,
    {
        let s: u32 = score(gpu, &adapters[i]);
        if s > 0 && s >= top {
            top = s;
            best = i;
        }
        i = i + 1;
    }
    if top > 0 {
        proof {
            lemma_adapter_is_the_cards(*gpu, adapters@, best as int);
        }
        return Ok(best);
    }
    if adapters.len() == 1 {
        proof {
            lemma_adapter_is_the_cards(*gpu, adapters@, 0);
        }
        return Ok(0);
    }
    let mut e = String::new();
    e.append("No Vulkan/DirectX driver found for ");
    e.append(gpu.name.as_str());
    assert(e@ =~= no_driver(*gpu));
    Err(e)
}

// ---------------------------------------------------------------------------
// The GPU's batches

/// How long a batch should take, in nanoseconds.
pub const TARGET_BATCH: u64 = 20_000_000;

/// The most dispatches in a batch.
pub const MAX_DISPATCHES: u32 = 256;

/// The next batch's size: halfway from the last one to the size that takes
/// `TARGET_BATCH`, which lies between 1 and `MAX_DISPATCHES`.  A batch of
/// `count` took `time` nanoseconds.
pub open spec fn steered(dispatches: int, count: int, time: int) -> int {
    if time == 0 {
        dispatches
    } else if TARGET_BATCH * count <= time {
        rounded(dispatches + 1, 2)
    } else if TARGET_BATCH * count >= MAX_DISPATCHES * time {
        rounded(dispatches + MAX_DISPATCHES, 2)
    } else {
        rounded(dispatches * time + TARGET_BATCH * count, 2 * time)
    }
}

/// Batches stay between 1 and `MAX_DISPATCHES`.
pub proof fn lemma_batches_stay_small(dispatches: int, count: int, time: int)
    requires
        1 <= dispatches <= MAX_DISPATCHES,
        count >= 1,
        time >= 0,
    ensures
        1 <= steered(dispatches, count, time) <= MAX_DISPATCHES,
{
    if time > 0 && TARGET_BATCH * count > time && TARGET_BATCH * count < MAX_DISPATCHES * time {
        let n = dispatches * time + TARGET_BATCH * count;
        assert(n >= 2 * time && n <= 2 * 256 * time) by (nonlinear_arith)
            requires
                1 <= dispatches <= 256,
                n == dispatches * time + TARGET_BATCH * count,
                time < TARGET_BATCH * count < 256 * time,
                time > 0,
        ;
        let q = (2 * n + 2 * time) / (2 * (2 * time));
        assert(1 <= q <= 256) by (nonlinear_arith)
            requires
                q == (2 * n + 2 * time) / (2 * (2 * time)),
                2 * time <= n <= 2 * 256 * time,
                time > 0,
        ;
        assert(rounded(n, 2 * time) == q);
    } else {
        assert(rounded(dispatches + 1, 2) == (2 * (dispatches + 1) + 2) / 4);
        assert(rounded(dispatches + 256, 2) == (2 * (dispatches + 256) + 2) / 4);
    }
}

/// A batch that took longer than it should is followed by one that is no larger,
/// and one that was quicker by one that is no smaller: the size goes half of the
/// way to the one that would take as long as it should.
pub proof fn lemma_batches_follow_the_time(dispatches: int, count: int, time: int)
    requires
        1 <= dispatches <= 256,
        count == dispatches,
        time >= 1,
    ensures
        time >= 20_000_000 ==> steered(dispatches, count, time) <= dispatches,
        time <= 20_000_000 ==> steered(dispatches, count, time) >= dispatches,
        2 * steered(dispatches, count, time) >= dispatches,
        20_000_000 * count <= time ==> 2 * steered(dispatches, count, time) <= dispatches + 2,
        20_000_000 * count >= 256 * time ==> 2 * steered(dispatches, count, time) >= dispatches
            + 256,
{
    assert(TARGET_BATCH == 20_000_000 && MAX_DISPATCHES == 256);
    let goal = 20_000_000 * count;
    if goal > time && goal < 256 * time {
        let n = dispatches * time + goal;
        let q = (2 * n + 2 * time) / (2 * (2 * time));
        assert(n >= 0) by (nonlinear_arith)
            requires
                n == dispatches * time + goal,
                dispatches >= 1,
                time >= 1,
                goal >= 1,
        ;
        assert(rounded(n, 2 * time) == q);
        assert(time >= 20_000_000 ==> q <= dispatches) by (nonlinear_arith)
            requires
                q == (2 * n + 2 * time) / (2 * (2 * time)),
                n == dispatches * time + 20_000_000 * dispatches,
                time >= 1,
                dispatches >= 1,
        ;
        assert(time <= 20_000_000 ==> q >= dispatches) by (nonlinear_arith)
            requires
                q == (2 * n + 2 * time) / (2 * (2 * time)),
                n == dispatches * time + 20_000_000 * dispatches,
                time >= 1,
                dispatches >= 1,
        ;
        assert(2 * q >= dispatches) by (nonlinear_arith)
            requires
                q == (2 * n + 2 * time) / (2 * (2 * time)),
                n >= dispatches * time,
                time >= 1,
        ;
    } else {
        assert(rounded(dispatches + 1, 2) == (2 * (dispatches + 1) + 2) / 4);
        assert(rounded(dispatches + 256, 2) == (2 * (dispatches + 256) + 2) / 4);
    }
}

/// Sizes the next batch.
pub fn next_dispatches(dispatches: u32, count: u32, time: u64) -> (r: u32)
    requires
        1 <= dispatches <= MAX_DISPATCHES,
        1 <= count <= MAX_DISPATCHES,
    ensures
        r == steered(dispatches as int, count as int, time as int),
        1 <= r <= MAX_DISPATCHES,
{
    proof {
        lemma_batches_stay_small(dispatches as int, count as int, time as int);
    }
    if time == 0 {
        return dispatches;
    }
    let goal: u128 = TARGET_BATCH as u128 * count as u128;
    let t: u128 = time as u128;
    if goal <= t {
        return (2 * (dispatches + 1) + 2) / 4;
    }
    if goal >= 256 * t {
        return (2 * (dispatches + 256) + 2) / 4;
    }
    assert(0 <= dispatches * t <= 256 * 0x1_0000_0000_0000_0000) by (nonlinear_arith)
        requires
            0 <= dispatches <= 256,
            0 <= t <= 0x1_0000_0000_0000_0000,
    ;
    let n: u128 = dispatches as u128 * t + goal;
    let q: u128 = (2 * n + 2 * t) / (4 * t);
    assert(q == rounded(n as int, 2 * t as int)) by {
        assert(2 * (2 * t as int) == 4 * t);
    }
    q as u32
}

// ---------------------------------------------------------------------------
// The CPU's workers

/// How many numbers a worker's buffer holds.
pub const BUF_SIZE: usize = 1_048_576;

/// One round of the hash: the high half folded into the low, times a constant.
pub open spec fn hash_round(h: u64) -> u64 {
    mul_wrap((h >> 16) ^ h, 0x45d9f3b)
}

/// A product modulo `2^64`.
pub open spec fn mul_wrap(a: u64, b: u64) -> u64 {
    ((a * b) % 0x1_0000_0000_0000_0000) as u64
}

/// The hash of an index.
pub open spec fn hashed(idx: u64) -> u64 {
    let a = hash_round(hash_round(mul_wrap(idx, 2654435761)));
    let b = mul_wrap((a >> 16) ^ a, 0x5bd1e995);
    b ^ (b >> 15)
}

fn wrapping_product(a: u64, b: u64) -> (r: u64)
    ensures
        r == mul_wrap(a, b),
{
    assert(0 <= a * b <= 0xffff_ffff_ffff_ffff * 0xffff_ffff_ffff_ffff) by (nonlinear_arith)
        requires
            0 <= a <= 0xffff_ffff_ffff_ffff,
            0 <= b <= 0xffff_ffff_ffff_ffff,
    ;
    let p: u128 = a as u128 * b as u128;
    (p % 0x1_0000_0000_0000_0000) as u64
}

/// The hash that scatters a worker's writes over its buffer.
pub fn hash(idx: u64) -> (r: u64)
    ensures
        r == hashed(idx),
{
    let a: u64 = wrapping_product(idx, 2654435761);
    let b: u64 = wrapping_product((a >> 16) ^ a, 0x45d9f3b);
    let c: u64 = wrapping_product((b >> 16) ^ b, 0x45d9f3b);
    let d: u64 = wrapping_product((c >> 16) ^ c, 0x5bd1e995);
    d ^ (d >> 15)
}

/// The places in the buffer that a hash gives: three, and the sums of the first
/// two and the last two.
pub fn slots(h: u64) -> (r: (usize, usize, usize, usize, usize))
    ensures
        r.0 == h as int % BUF_SIZE as int,
        r.1 == (h >> 10) as int % BUF_SIZE as int,
        r.2 == (h >> 20) as int % BUF_SIZE as int,
        r.3 == (r.0 + r.1) % (BUF_SIZE as int),
        r.4 == (r.1 + r.2) % (BUF_SIZE as int),
        r.0 < BUF_SIZE && r.1 < BUF_SIZE && r.2 < BUF_SIZE && r.3 < BUF_SIZE && r.4 < BUF_SIZE,
{
    let a: usize = (h % 1_048_576) as usize;
    let b: usize = ((h >> 10) % 1_048_576) as usize;
    let c: usize = ((h >> 20) % 1_048_576) as usize;
    (a, b, c, (a + b) % BUF_SIZE, (b + c) % BUF_SIZE)
}

/// The places of a matrix block: where it begins is a multiple of 4096.
pub fn block(h: u64) -> (r: usize)
    ensures
        r == (h as int % BUF_SIZE as int) / 4096 * 4096,
        r + 256 <= BUF_SIZE,
{
    let a: usize = (h % 1_048_576) as usize;
    a / 4096 * 4096
}

} // verus!
