//! The short summary of the system that goes with feedback when the user
//! allows it.
use vstd::prelude::*;

use crate::api::FeedbackPayload;
use crate::app::{App, AppView, FbPayloadView, ResultsState, ResultsView};
use crate::debug;
use crate::gpus::{vram_text, GpuDevice, GpuView};
use crate::hardware::HardwareInfo;
use crate::sensors::{ChannelView, Readings, SECOND};
use crate::setup::{SensorSetup, SetupView};
use crate::text::{cat3, dec, join_lines, joined, line_views, owned, push_dec, push_line, text_or};

verus! {

/// The line on a card.
pub open spec fn card_line(g: GpuView, i: nat, selected: bool) -> Seq<char> {
    "GPU "@ + dec(i) + (if selected {
        " [selected]"@
    } else {
        ""@
    }) + ": "@ + g.name + (match g.vram_bytes {
        Some(b) => " ("@ + vram_text(b as int) + ")"@,
        None => ""@,
    })
}

fn make_card_line(g: &GpuDevice, i: usize, selected: bool) -> (r: String)
    ensures
        r@ == card_line(g@, i as nat, selected),
{
    let mut r = String::new();
    r.append("GPU ");
    push_dec(&mut r, i as u64);
    r.append(
        if selected {
            " [selected]"
        } else {
            ""
        },
    );
    r.append(": ");
    r.append(g.name.as_str());
    let vram = match g.vram() {
        Some(v) => cat3(" (", v.as_str(), ")"),
        None => owned(""),
    };
    r.append(vram.as_str());
    assert(r@ =~= card_line(g@, i as nat, selected));
    r
}

/// The lines on the first `n` cards.
pub open spec fn card_lines(gpus: Seq<GpuDevice>, selected: int, n: int) -> Seq<Seq<char>>
    decreases n,
{
    if n <= 0 {
        Seq::empty()
    } else {
        card_lines(gpus, selected, n - 1).push(
            card_line(gpus[n - 1]@, (n - 1) as nat, selected == n - 1),
        )
    }
}

/// The line on how temperatures are read.
pub open spec fn setup_line(s: SetupView) -> Seq<char> {
    "Admin: "@ + (if s.elevated {
        "true"@
    } else {
        "false"@
    }) + " | Monitoring app: "@ + (match s.monitoring_app {
        Some(m) => m.label(),
        None => "none"@,
    }) + " | Driver: "@ + debug::driver_text(s.driver)
}

fn make_setup_line(s: &SensorSetup) -> (r: String)
    ensures
        r@ == setup_line(s@),
{
    let mut r = String::new();
    r.append("Admin: ");
    r.append(
        if s.elevated {
            "true"
        } else {
            "false"
        },
    );
    r.append(" | Monitoring app: ");
    r.append(
        match s.monitoring_app {
            Some(m) => m.name(),
            None => "none",
        },
    );
    r.append(" | Driver: ");
    r.append(debug::driver(&s.driver).as_str());
    assert(r@ =~= setup_line(s@));
    r
}

/// A source, blank where there is none.
pub open spec fn source_name(c: ChannelView) -> Seq<char> {
    match c.source {
        Some(s) => s,
        None => ""@,
    }
}

/// The line on the sensors.
pub open spec fn sensors_line(cpu: ChannelView, gpu: ChannelView) -> Seq<char> {
    "CPU sensor: "@ + debug::probe_text(cpu.probe) + " "@ + source_name(cpu) + " | GPU sensor: "@
        + debug::probe_text(gpu.probe) + " "@ + source_name(gpu)
}

fn make_sensors_line(r: &Readings) -> (s: String)
    ensures
        s@ == sensors_line(r.cpu_temp@, r.gpu_temp@),
{
    let mut s = String::new();
    s.append("CPU sensor: ");
    s.append(debug::probe(r.cpu_temp.probe));
    s.append(" ");
    s.append(text_or(&r.cpu_temp.source, "").as_str());
    s.append(" | GPU sensor: ");
    s.append(debug::probe(r.gpu_temp.probe));
    s.append(" ");
    s.append(text_or(&r.gpu_temp.source, "").as_str());
    assert(s@ =~= sensors_line(r.cpu_temp@, r.gpu_temp@));
    s
}

/// The line on the last test.
pub open spec fn test_line(r: ResultsView) -> Seq<char> {
    let p = r.progress@;
    "Last test: "@ + r.plan.kind.code() + " "@ + dec((r.plan.duration / SECOND) as nat)
        + "s | CPU idle "@ + debug::optional_number(p.cpu.idle) + " peak "@
        + debug::optional_number(p.cpu.peak) + " | GPU idle "@ + debug::optional_number(p.gpu.idle)
        + " peak "@ + debug::optional_number(p.gpu.peak) + " | GPU stress "@ + debug::stress_text(
        p.stress.gpu,
    ) + " | warnings "@ + debug::listed_text(p.warnings)
}

fn make_test_line(r: &ResultsState) -> (s: String)
    ensures
        s@ == test_line(r@),
{
    let p = &r.progress;
    let mut s = String::new();
    s.append("Last test: ");
    s.append(r.plan.kind.as_str());
    s.append(" ");
    push_dec(&mut s, r.plan.duration / SECOND);
    s.append("s | CPU idle ");
    s.append(debug::optional(p.cpu.idle).as_str());
    s.append(" peak ");
    s.append(debug::optional(p.cpu.peak).as_str());
    s.append(" | GPU idle ");
    s.append(debug::optional(p.gpu.idle).as_str());
    s.append(" peak ");
    s.append(debug::optional(p.gpu.peak).as_str());
    s.append(" | GPU stress ");
    s.append(debug::stress(&p.stress.gpu).as_str());
    s.append(" | warnings ");
    s.append(debug::warnings(&p.warnings).as_str());
    assert(s@ =~= test_line(r@));
    s
}

/// The lines on the machine.
pub open spec fn machine_lines(hw: Option<HardwareInfo>, selected: int) -> Seq<Seq<char>> {
    match hw {
        None => Seq::empty(),
        Some(h) => seq![
            if h.is_laptop {
                "Device: laptop"@
            } else {
                "Device: desktop"@
            },
        ] + card_lines(h.gpus@, selected, h.gpus@.len() as int),
    }
}

/// The lines of the summary: the machine, how its temperatures are read, the
/// sensors and the last test, as far as each is known.
pub open spec fn summary_lines(
    a: AppView,
    sensors: Option<(ChannelView, ChannelView)>,
) -> Seq<Seq<char>> {
    let l0 = machine_lines(a.hw, a.gpu_index);
    let l1 = match a.setup {
        Some(s) => l0.push(setup_line(s@)),
        None => l0,
    };
    let l2 = match sensors {
        Some((c, g)) => l1.push(sensors_line(c, g)),
        None => l1,
    };
    match a.results {
        Some(r) => l2.push(test_line(r)),
        None => l2,
    }
}

fn push_machine(out: &mut Vec<String>, h: &HardwareInfo, selected: usize)
    requires
        line_views(old(out)@).len() == 0,
    ensures
        line_views(final(out)@) == machine_lines(Some(*h), selected as int),
{
    push_line(
        out,
        owned(
            if h.is_laptop {
                "Device: laptop"
            } else {
                "Device: desktop"
            },
        ),
    );
    let ghost head = line_views(out@);
    assert(head =~= seq![
        if h.is_laptop {
            "Device: laptop"@
        } else {
            "Device: desktop"@
        },
    ]);
    let mut i: usize = 0;
    assert(head =~= head + card_lines(h.gpus@, selected as int, 0));
    while i < h.gpus.len()
        invariant
            i <= h.gpus.len(),
            line_views(out@) == head + card_lines(h.gpus@, selected as int, i as int),
        decreases h.gpus.len() - i,
    {
        push_line(out, make_card_line(&h.gpus[i], i, i == selected));
        i = i + 1;
        assert(line_views(out@) =~= head + card_lines(h.gpus@, selected as int, i as int));
    }
}

impl App {
    /// Short system summary attached to feedback when the user allows it.
    pub fn feedback_diagnostics(&self, sensors: Option<&Readings>) -> (r: String)
        ensures
            r@ == joined(
                summary_lines(
                    self@,
                    match sensors {
                        Some(s) => Some((s.cpu_temp@, s.gpu_temp@)),
                        None => None,
                    },
                ),
                "\n"@,
            ),
    {
        let mut out: Vec<String> = Vec::new();
        assert(line_views(out@) =~= Seq::empty());
        if let Some(h) = &self.hw {
            push_machine(&mut out, h, self.gpu_index);
        }
        if let Some(s) = &self.setup {
            push_line(&mut out, make_setup_line(s));
        }
        if let Some(s) = sensors {
            push_line(&mut out, make_sensors_line(s));
        }
        if let Some(r) = &self.results {
            push_line(&mut out, make_test_line(r));
        }
        join_lines(&out, "\n")
    }
}

/// Feedback with a summary where the user allows it.
pub open spec fn feedback_with(
    payload: FbPayloadView,
    include_info: bool,
    summary: Seq<Seq<char>>,
) -> FbPayloadView {
    FbPayloadView {
        diagnostics: if include_info {
            Some(joined(summary, "\n"@))
        } else {
            None
        },
        ..payload
    }
}

/// Nothing of the machine's summary is sent unless the user allows it, whatever
/// it holds; and nothing else of the feedback changes by it.
pub proof fn lemma_summary_only_if_allowed(
    payload: FbPayloadView,
    a: Seq<Seq<char>>,
    b: Seq<Seq<char>>,
)
    ensures
        feedback_with(payload, false, a) == feedback_with(payload, false, b),
        feedback_with(payload, false, a).diagnostics is None,
        feedback_with(payload, true, a).diagnostics == Some(joined(a, "\n"@)),
        ({
            let r = feedback_with(payload, true, a);
            r == (FbPayloadView { diagnostics: r.diagnostics, ..payload })
        }),
{
}

/// Feedback as it is sent: with the summary where the user allows it.
pub fn feedback_to_send(
    app: &App,
    payload: FeedbackPayload,
    include_info: bool,
    sensors: Option<&Readings>,
) -> (r: FeedbackPayload)
    ensures
        r@ == feedback_with(
            payload@,
            include_info,
            summary_lines(
                app@,
                match sensors {
                    Some(s) => Some((s.cpu_temp@, s.gpu_temp@)),
                    None => None,
                },
            ),
        ),
{
    let mut r = payload;
    r.diagnostics = if include_info {
        Some(app.feedback_diagnostics(sensors))
    } else {
        None
    };
    r
}

} // verus!
