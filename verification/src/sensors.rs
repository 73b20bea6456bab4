//! Live sensor readings and their history.
//!
//! Times are nanoseconds on a clock that never goes back.  Every sample is
//! stamped, which lets the test controller attribute it to the idle, load or
//! cool-down window regardless of when it arrived.
use std::collections::VecDeque;

use vstd::prelude::*;

use crate::decimal::LIMIT;
use crate::fixed::UNIT;
use crate::temps::TempReading;
use crate::text::text_of;

verus! {

/// A second in nanoseconds.
pub const SECOND: u64 = 1_000_000_000;

/// A millisecond in nanoseconds.
pub const MILLI: u64 = 1_000_000;

/// Between two samples.
pub const INTERVAL: u64 = 1_000_000_000;

/// One hour at 1 Hz: longer than the longest allowed test.
pub const HISTORY_LEN: usize = 3600;

/// A measured value and when it was measured.
#[derive(Debug, Clone, Copy, PartialEq, Eq, Structural)]
pub struct Sample {
    pub at: u64,
    pub value: i64,
}

impl Sample {
    /// The value is one that a sensor may report.
    pub open spec fn wf(self) -> bool {
        -LIMIT <= self.value <= LIMIT
    }
}

/// All samples are sound.
pub open spec fn all_wf(s: Seq<Sample>) -> bool {
    forall|i: int| 0 <= i < s.len() ==> (#[trigger] s[i]).wf()
}

/// How the search for a sensor stands.
#[derive(Debug, Clone, Copy, PartialEq, Eq, Structural)]
pub enum Probe {
    /// No reading yet, still within the start-up grace period.
    Searching,
    Found,
    /// No source produced a reading.
    Missing,
}

/// The history of one sensor.
#[derive(Debug, Clone)]
pub struct Channel {
    pub samples: VecDeque<Sample>,
    pub source: Option<String>,
    pub probe: Probe,
    pub searching_since: u64,
}

/// A channel's contents.
pub ghost struct ChannelView {
    pub samples: Seq<Sample>,
    pub source: Option<Seq<char>>,
    pub probe: Probe,
    pub searching_since: u64,
}

impl View for Channel {
    type V = ChannelView;

    open spec fn view(&self) -> ChannelView {
        ChannelView {
            samples: self.samples@,
            source: text_of(self.source),
            probe: self.probe,
            searching_since: self.searching_since,
        }
    }
}

impl ChannelView {
    /// The history is not too long, its samples are sound, and a sensor with
    /// samples has been found.
    pub open spec fn wf(self) -> bool {
        &&& self.samples.len() <= HISTORY_LEN
        &&& all_wf(self.samples)
        &&& self.samples.len() > 0 ==> self.probe == Probe::Found
    }

    /// A channel whose search begins.
    pub open spec fn fresh(now: u64) -> ChannelView {
        ChannelView {
            samples: Seq::empty(),
            source: None,
            probe: Probe::Searching,
            searching_since: now,
        }
    }

    /// The channel with one more sample; the oldest leaves where the history
    /// is full.
    pub open spec fn pushed(self, s: Sample, source: Option<Seq<char>>) -> ChannelView {
        ChannelView {
            samples: if self.samples.len() >= HISTORY_LEN {
                self.samples.skip(1).push(s)
            } else {
                self.samples.push(s)
            },
            source: if source is Some {
                source
            } else {
                self.source
            },
            probe: Probe::Found,
            searching_since: self.searching_since,
        }
    }

    /// The channel after a search that found nothing: the sensor is missing
    /// once the grace period is over.
    pub open spec fn missed(self, now: u64, grace: u64) -> ChannelView {
        if self.probe == Probe::Searching && now - self.searching_since >= grace {
            ChannelView { probe: Probe::Missing, ..self }
        } else {
            self
        }
    }

    /// The latest sample.
    pub open spec fn last(self) -> Option<Sample> {
        if self.samples.len() > 0 {
            Some(self.samples.last())
        } else {
            None
        }
    }
}

/// The samples taken at or after `t`.
pub open spec fn since(s: Seq<Sample>, t: u64) -> Seq<Sample>
    decreases s.len(),
{
    if s.len() == 0 {
        s
    } else if s.last().at >= t {
        since(s.drop_last(), t).push(s.last())
    } else {
        since(s.drop_last(), t)
    }
}

impl Channel {
    /// A channel whose search begins now.
    pub fn new(now: u64) -> (r: Channel)
        ensures
            r@ == ChannelView::fresh(now),
            r@.wf(),
    {
        let r = Channel {
            samples: VecDeque::new(),
            source: None,
            probe: Probe::Searching,
            searching_since: now,
        };
        assert(r.samples@ =~= Seq::empty());
        r
    }

    /// The latest sample.
    pub fn latest(&self) -> (r: Option<Sample>)
        ensures
            r == self@.last(),
    {
        if self.samples.len() > 0 {
            Some(self.samples[self.samples.len() - 1])
        } else {
            None
        }
    }

    /// A copy holding only the latest sample (cheap enough for every frame).
    pub fn clone_light(&self) -> (r: Channel)
        ensures
            r@.samples == (if self@.samples.len() > 0 {
                seq![self@.samples.last()]
            } else {
                Seq::empty()
            }),
            r@.source == self@.source,
            r@.probe == self@.probe,
            r@.searching_since == self@.searching_since,
            self@.wf() ==> r@.wf(),
    {
        let mut samples: VecDeque<Sample> = VecDeque::new();
        if self.samples.len() > 0 {
            samples.push_back(self.samples[self.samples.len() - 1]);
            assert(samples@ =~= seq![self@.samples.last()]);
        } else {
            assert(samples@ =~= Seq::empty());
        }
        let source = match &self.source {
            Some(s) => Some(s.clone()),
            None => None,
        };
        Channel { samples, source, probe: self.probe, searching_since: self.searching_since }
    }

    /// Samples taken at or after `t`.
    pub fn since(&self, t: u64) -> (r: Vec<Sample>)
        ensures
            r@ == since(self@.samples, t),
    {
        let mut r: Vec<Sample> = Vec::new();
        let mut i: usize = 0;
        while i < self.samples.len()
            invariant
                i <= self.samples.len(),
                r@ == since(self.samples@.take(i as int), t),
            decreases self.samples.len() - i,
        {
            let s: Sample = self.samples[i];
            if s.at >= t {
                r.push(s);
            }
            i = i + 1;
            assert(self.samples@.take(i as int).drop_last() =~= self.samples@.take(i - 1));
        }
        assert(self.samples@.take(self.samples@.len() as int) =~= self.samples@);
        r
    }

    /// Takes a sample.
    pub fn push(&mut self, now: u64, value: i64, source: Option<String>)
        ensures
            final(self)@ == old(self)@.pushed(Sample { at: now, value }, text_of(source)),
            old(self)@.wf() && (Sample { at: now, value }).wf() ==> final(self)@.wf(),
    {
        if self.samples.len() >= HISTORY_LEN {
            self.samples.pop_front();
        }
        self.samples.push_back(Sample { at: now, value });
        if source.is_some() {
            self.source = source;
        }
        self.probe = Probe::Found;
        assert(self@.samples =~= old(self)@.pushed(
            Sample { at: now, value },
            text_of(source),
        ).samples);
    }

    /// Notes that no source has a value.
    pub fn miss(&mut self, now: u64, grace: u64)
        ensures
            final(self)@ == old(self)@.missed(now, grace),
            old(self)@.wf() ==> final(self)@.wf(),
    {
        if self.probe == Probe::Searching && now >= self.searching_since && now
            - self.searching_since >= grace {
            self.probe = Probe::Missing;
        }
    }

    /// Begins anew.
    pub fn reset(&mut self, now: u64)
        ensures
            final(self)@ == ChannelView::fresh(now),
            final(self)@.wf(),
    {
        *self = Channel::new(now);
    }
}

/// Until the history is full, samples only add to it; the order of time is
/// kept.
pub proof fn lemma_push_keeps_order(c: ChannelView, s: Sample, source: Option<Seq<char>>)
    requires
        forall|i: int, j: int|
            0 <= i <= j < c.samples.len() ==> #[trigger] c.samples[i].at <= #[trigger] c.samples[j].at,
        c.samples.len() > 0 ==> c.samples.last().at <= s.at,
    ensures
        forall|i: int, j: int|
            #![trigger c.pushed(s, source).samples[i], c.pushed(s, source).samples[j]]
            0 <= i <= j < c.pushed(s, source).samples.len() ==> c.pushed(s, source).samples[i].at
                <= c.pushed(s, source).samples[j].at,
        c.pushed(s, source).samples.last() == s,
{
    if c.samples.len() > 0 {
        assert(forall|i: int| 0 <= i < c.samples.len() ==> #[trigger] c.samples[i].at
            <= c.samples[c.samples.len() - 1].at);
    }
}

/// A new reading is the last; of the others at most the oldest goes, and only
/// where there are as many as are kept.  A sensor that told something is found,
/// and keeps the name it had where it is not told a new one.
pub proof fn lemma_push_forgets_the_oldest(c: ChannelView, s: Sample, source: Option<Seq<char>>)
    requires
        c.wf(),
        s.wf(),
    ensures
        ({
            let p = c.pushed(s, source);
            &&& p.wf() && p.last() == Some(s) && p.probe == Probe::Found
            &&& c.samples.len() < 3600 ==> p.samples.drop_last() == c.samples
            &&& c.samples.len() == 3600 ==> p.samples.len() == 3600
                && p.samples.drop_last() == c.samples.drop_first()
            &&& source is Some ==> p.source == source
            &&& source is None ==> p.source == c.source
        }),
{
    let p = c.pushed(s, source);
    if c.samples.len() < 3600 {
        assert(p.samples.drop_last() =~= c.samples);
    } else {
        assert(p.samples.drop_last() =~= c.samples.drop_first());
    }
    assert forall|i: int| 0 <= i < p.samples.len() implies (#[trigger] p.samples[i]).wf() by {
        if i < p.samples.len() - 1 {
            if c.samples.len() < 3600 {
                assert(p.samples[i] == c.samples[i]);
            } else {
                assert(p.samples[i] == c.samples[i + 1]);
            }
        }
    }
}

/// A sensor counts as missing only where it has been searched for long enough and
/// was never found; one that was found never does.
pub proof fn lemma_missing(c: ChannelView, now: u64, grace: u64)
    ensures
        ({
            let m = c.missed(now, grace);
            &&& m.samples == c.samples && m.source == c.source && m.searching_since
                == c.searching_since
            &&& c.probe == Probe::Found ==> m.probe == Probe::Found
            &&& c.probe == Probe::Searching ==> (m.probe == Probe::Missing <==> now
                >= c.searching_since + grace)
            &&& c.probe == Probe::Missing ==> m.probe == Probe::Missing
        }),
{
}

/// What is read since a time are the readings from then on, in their order.
pub proof fn lemma_since(s: Seq<Sample>, t: u64)
    ensures
        since(s, t) == s.filter(|x: Sample| x.at >= t),
    decreases s.len(),
{
    reveal(Seq::filter);
    if s.len() > 0 {
        lemma_since(s.drop_last(), t);
    }
}


/// The readings of a machine.
#[derive(Debug, Clone)]
pub struct Readings {
    pub cpu_temp: Channel,
    pub gpu_temp: Channel,
    pub cpu_usage: Channel,
    pub gpu_usage: Channel,
}

/// A share of a hundred, brought into its range.
pub open spec fn clamped_percent(v: int) -> int {
    if v < 0 {
        0
    } else if v > 100 * UNIT {
        100 * UNIT
    } else {
        v
    }
}

/// A load stays as it is between 0 and 100 %, and is the nearer of both outside.
pub proof fn lemma_clamped(v: int)
    ensures
        0 <= clamped_percent(v) <= 100_000_000,
        0 <= v <= 100_000_000 ==> clamped_percent(v) == v,
        v < 0 ==> clamped_percent(v) == 0,
        v > 100_000_000 ==> clamped_percent(v) == 100_000_000,
{
}

fn clamp_percent(v: i64) -> (r: i64)
    ensures
        r == clamped_percent(v as int),
{
    if v < 0 {
        0
    } else if v > 100 * UNIT {
        100 * UNIT
    } else {
        v
    }
}

/// A sensor after what its sources said of the temperature of its part, which is
/// dropped where the part is not the same any more.
pub open spec fn after_temp(
    c: ChannelView,
    now: u64,
    grace: u64,
    reading: Option<TempReading>,
    same_part: bool,
) -> ChannelView {
    if !same_part {
        c
    } else {
        match reading {
            Some(t) => c.pushed(Sample { at: now, value: t.celsius }, Some(t.source@)),
            None => c.missed(now, grace),
        }
    }
}

/// A sensor after what its source said of the load of its part.
pub open spec fn after_load(
    c: ChannelView,
    now: u64,
    grace: u64,
    load: Option<i64>,
    same_part: bool,
) -> ChannelView {
    if !same_part {
        c
    } else {
        match load {
            Some(u) => c.pushed(
                Sample { at: now, value: clamped_percent(u as int) as i64 },
                None,
            ),
            None => c.missed(now, grace),
        }
    }
}

/// What was read of a card is kept only while it is the same card: it is then the
/// last of the readings, with its time and its source.  A card that was given up
/// leaves nothing behind, and where nothing was read no reading changes.
pub proof fn lemma_only_of_the_same_card(
    c: ChannelView,
    now: u64,
    grace: u64,
    t: TempReading,
    load: i64,
)
    ensures
        after_temp(c, now, grace, Some(t), false) == c,
        after_temp(c, now, grace, None, false) == c,
        after_load(c, now, grace, Some(load), false) == c,
        after_temp(c, now, grace, None, true).samples == c.samples,
        after_load(c, now, grace, None, true).samples == c.samples,
        ({
            let r = after_temp(c, now, grace, Some(t), true);
            &&& r.last() == Some(Sample { at: now, value: t.celsius })
            &&& r.source == Some(t.source@) && r.probe == Probe::Found
        }),
        ({
            let r = after_load(c, now, grace, Some(load), true);
            &&& r.last() is Some && r.last()->0.at == now
            &&& 0 <= r.last()->0.value <= 100_000_000
            &&& 0 <= load <= 100_000_000 ==> r.last()->0.value == load
        }),
{
}

impl Readings {
    /// All channels are sound.
    pub open spec fn wf(self) -> bool {
        self.cpu_temp@.wf() && self.gpu_temp@.wf() && self.cpu_usage@.wf() && self.gpu_usage@.wf()
    }

    /// The readings of a machine whose sensors are still looked for.
    pub fn new(now: u64) -> (r: Readings)
        ensures
            r.wf(),
            r.cpu_temp@ == ChannelView::fresh(now),
            r.gpu_temp@ == ChannelView::fresh(now),
            r.cpu_usage@ == ChannelView::fresh(now),
            r.gpu_usage@ == ChannelView::fresh(now),
    {
        Readings {
            cpu_temp: Channel::new(now),
            gpu_temp: Channel::new(now),
            cpu_usage: Channel::new(now),
            gpu_usage: Channel::new(now),
        }
    }

    /// Switch the monitored GPU; its readings start over.
    pub fn select_gpu(&mut self, now: u64)
        ensures
            final(self).cpu_temp == old(self).cpu_temp,
            final(self).cpu_usage == old(self).cpu_usage,
            final(self).gpu_temp@ == ChannelView::fresh(now),
            final(self).gpu_usage@ == ChannelView::fresh(now),
            old(self).wf() ==> final(self).wf(),
    {
        self.gpu_temp.reset(now);
        self.gpu_usage.reset(now);
    }

    /// Takes what the sources said of the CPU's temperature.
    pub fn take_cpu_temp(&mut self, now: u64, grace: u64, reading: Option<TempReading>)
        ensures
            final(self).cpu_temp@ == after_temp(old(self).cpu_temp@, now, grace, reading, true),
            final(self).gpu_temp == old(self).gpu_temp,
            final(self).cpu_usage == old(self).cpu_usage,
            final(self).gpu_usage == old(self).gpu_usage,
            old(self).wf() && (reading is Some ==> (Sample {
                at: now,
                value: reading->0.celsius,
            }).wf()) ==> final(self).wf(),
    {
        match reading {
            Some(t) => self.cpu_temp.push(now, t.celsius, Some(t.source)),
            None => self.cpu_temp.miss(now, grace),
        }
    }

    /// Takes what the sources said of the GPU's temperature.  It is dropped if
    /// the user switched GPUs while it was taken.
    pub fn take_gpu_temp(
        &mut self,
        now: u64,
        grace: u64,
        reading: Option<TempReading>,
        same_gpu: bool,
    )
        ensures
            final(self).gpu_temp@ == after_temp(
                old(self).gpu_temp@,
                now,
                grace,
                reading,
                same_gpu,
            ),
            final(self).cpu_temp == old(self).cpu_temp,
            final(self).cpu_usage == old(self).cpu_usage,
            final(self).gpu_usage == old(self).gpu_usage,
            old(self).wf() && (reading is Some ==> (Sample {
                at: now,
                value: reading->0.celsius,
            }).wf()) ==> final(self).wf(),
    {
        if same_gpu {
            match reading {
                Some(t) => self.gpu_temp.push(now, t.celsius, Some(t.source)),
                None => self.gpu_temp.miss(now, grace),
            }
        }
    }

    /// Takes the loads.  The GPU's is dropped if the user switched GPUs while
    /// it was taken.
    pub fn take_usage(&mut self, now: u64, grace: u64, cpu: i64, gpu: Option<i64>, same_gpu: bool)
        ensures
            final(self).cpu_usage@ == after_load(
                old(self).cpu_usage@,
                now,
                grace,
                Some(cpu),
                true,
            ),
            final(self).gpu_usage@ == after_load(
                old(self).gpu_usage@,
                now,
                grace,
                gpu,
                same_gpu,
            ),
            final(self).cpu_temp == old(self).cpu_temp,
            final(self).gpu_temp == old(self).gpu_temp,
            old(self).wf() ==> final(self).wf(),
    {
        self.cpu_usage.push(now, clamp_percent(cpu), None);
        if same_gpu {
            match gpu {
                Some(u) => self.gpu_usage.push(now, clamp_percent(u), None),
                None => self.gpu_usage.miss(now, grace),
            }
        }
    }
}

/// How long a sensor may be looked for.
pub open spec fn grace_of(helper: bool) -> int {
    if helper {
        15 * SECOND
    } else {
        5 * SECOND
    }
}

/// A sensor is looked for five seconds, and with the helper fifteen.
pub proof fn lemma_grace()
    ensures
        grace_of(false) == 5_000_000_000,
        grace_of(true) == 15_000_000_000,
{
}

/// How long a sensor may be looked for: the helper needs a few seconds to
/// load its driver on the first run.
pub fn grace_period(helper: bool) -> (r: u64)
    ensures
        r == grace_of(helper),
{
    if helper {
        15 * SECOND
    } else {
        5 * SECOND
    }
}

/// When the tick behind one that was due at `due` and has ended now is due.
pub open spec fn tick_after(due: int, now: int) -> int {
    if due + INTERVAL < now {
        now
    } else {
        due + INTERVAL
    }
}

/// Ticks are a second apart, and where one takes longer the next is due at its
/// end, and no earlier.
pub proof fn lemma_ticks_do_not_pile_up(due: int, now: int)
    ensures
        tick_after(due, now) >= now,
        tick_after(due, now) >= due + 1_000_000_000,
        tick_after(due, now) == now || tick_after(due, now) == due + 1_000_000_000,
{
}

/// When the next tick is due, if the last one was due at `due` and has ended
/// now.  Ticks never pile up: if one takes longer than the interval, the next
/// starts right after it.
pub fn next_tick(due: u64, now: u64) -> (r: u64)
    requires
        due <= u64::MAX - INTERVAL,
    ensures
        r == tick_after(due as int, now as int),
{
    if due + INTERVAL < now {
        now
    } else {
        due + INTERVAL
    }
}

/// How long to sleep before looking again whether a tick is due.
pub open spec fn nap(due: u64, now: u64) -> Option<u64> {
    if now >= due {
        None
    } else if due - now < 50 * MILLI {
        Some((due - now) as u64)
    } else {
        Some((50 * MILLI) as u64)
    }
}

/// A tick is waited for until it is due, in sleeps of up to a twentieth of a
/// second of which none passes it.
pub proof fn lemma_naps_end_in_time(due: u64, now: u64)
    ensures
        nap(due, now) is None <==> now >= due,
        nap(due, now) is Some ==> 0 < nap(due, now)->0 <= 50_000_000 && now + nap(due, now)->0
            <= due,
        nap(due, now) is Some && nap(due, now)->0 < 50_000_000 ==> now + nap(due, now)->0 == due,
{
}

/// How long to sleep before looking again whether the tick is due; nothing
/// once it is.
pub fn tick_wait(due: u64, now: u64) -> (r: Option<u64>)
    ensures
        r == nap(due, now),
{
    if now >= due {
        None
    } else if due - now < 50 * MILLI {
        Some(due - now)
    } else {
        Some(50 * MILLI)
    }
}

} // verus!
