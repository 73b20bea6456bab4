//! The helper that reads the sensors through LibreHardwareMonitor, and the
//! PawnIO driver that it needs.
use vstd::prelude::*;

use crate::decimal::{push_signed_dec, signed_dec};
use crate::fixed::int_of;
use crate::json::{
    as_list, as_number, as_text, json_at, json_node, list_in, node_of, number_in, text_in, Node,
    NodeView,
};
use crate::sensors::{MILLI, SECOND};
use crate::text::{
    begins, contains, dec, ends, ends_with, lower, occurs, push_dec, same, starts_with, text_of,
    to_lower, trim_str, trimmed,
};

verus! {

/// Bumped whenever the bundle contents change, so existing installs re-extract.
pub const BUNDLE_VERSION: &'static str = "0.9.6.2-stream1";

/// Result of the driver's setup.
#[derive(Debug, Clone)]
pub enum PawnIOStatus {
    /// PawnIO was already installed and running
    AlreadyInstalled,
    /// PawnIO was just installed by the official installer
    Installed,
    /// PawnIO installation failed
    Failed(String),
    /// PawnIO installer was not found in the bundle
    InstallerMissing,
}

/// A setup result's contents.
pub ghost enum PawnIOView {
    AlreadyInstalled,
    Installed,
    Failed(Seq<char>),
    InstallerMissing,
}

impl View for PawnIOStatus {
    type V = PawnIOView;

    open spec fn view(&self) -> PawnIOView {
        match *self {
            PawnIOStatus::AlreadyInstalled => PawnIOView::AlreadyInstalled,
            PawnIOStatus::Installed => PawnIOView::Installed,
            PawnIOStatus::Failed(s) => PawnIOView::Failed(s@),
            PawnIOStatus::InstallerMissing => PawnIOView::InstallerMissing,
        }
    }
}

/// The bundle must be unpacked: the version on disk is missing or another.
pub fn needs_extract(version: Option<&str>) -> (r: bool)
    ensures
        r == (match version {
            Some(v) => trimmed(v@) != BUNDLE_VERSION@,
            None => true,
        }),
{
    match version {
        Some(v) => !same(trim_str(v).as_str(), BUNDLE_VERSION),
        None => true,
    }
}

/// A file of the bundle may be unpacked: it stays within the directory and, by
/// its name in lower case, is a program, a library or a configuration.
pub open spec fn entry_allowed(name: Seq<char>, low: Seq<char>) -> bool {
    &&& !occurs(name, ".."@)
    &&& !begins(name, "/"@)
    &&& !begins(name, "\\"@)
    &&& ends(low, ".exe"@) || ends(low, ".dll"@) || ends(low, ".config"@)
}

/// Nothing is unpacked outside of the directory: the name of what is does not
/// begin at a root, and no part of it leads up.  What stays within and is a
/// program, a library or a configuration is unpacked.
pub proof fn lemma_unpacked_stays_inside(name: Seq<char>, low: Seq<char>)
    ensures
        entry_allowed(name, low) ==> {
            &&& name.len() > 0 ==> name[0] != '/' && name[0] != '\\'
            &&& forall|i: int| 0 <= i < name.len() - 1 ==> !((#[trigger] name[i]) == '.' && name[i + 1]
                == '.')
            &&& ends(low, ".exe"@) || ends(low, ".dll"@) || ends(low, ".config"@)
        },
        (ends(low, ".exe"@) || ends(low, ".dll"@) || ends(low, ".config"@)) && (name.len() > 0
            ==> name[0] != '/' && name[0] != '\\') && (forall|i: int|
            0 <= i < name.len() - 1 ==> !((#[trigger] name[i]) == '.' && name[i + 1] == '.'))
            ==> entry_allowed(name, low),
{
    reveal_strlit("..");
    reveal_strlit("/");
    reveal_strlit("\\");
    assert forall|i: int|
        0 <= i < name.len() - 1 && (#[trigger] name[i]) == '.' && name[i + 1] == '.' implies occurs(
        name,
        ".."@,
    ) by {
        assert(name.subrange(i, i + 2) =~= ".."@);
        assert(crate::text::at(name, ".."@, i));
    }
    if occurs(name, ".."@) {
        let i = choose|i: int| crate::text::at(name, ".."@, i);
        assert(name.subrange(i, i + 2)[0] == name[i] && name.subrange(i, i + 2)[1] == name[i + 1]);
    }
    if name.len() > 0 {
        assert(name[0] == '/' ==> name.subrange(0, 1) =~= "/"@);
        assert(name[0] == '\\' ==> name.subrange(0, 1) =~= "\\"@);
        assert(name.subrange(0, 1)[0] == name[0]);
    }
}

/// Whether a file of the bundle may be unpacked, its name given as it is and
/// in lower case.
pub fn is_entry_allowed(name: &str, low: &str) -> (r: bool)
    ensures
        r == entry_allowed(name@, low@),
{
    if contains(name, "..") || starts_with(name, "/") || starts_with(name, "\\") {
        return false;
    }
    ends_with(low, ".exe") || ends_with(low, ".dll") || ends_with(low, ".config")
}

/// Whether a file of the bundle may be unpacked.
pub fn unpacks(name: &str) -> (r: bool)
    ensures
        r == entry_allowed(name@, lower(name@)),
{
    is_entry_allowed(name, to_lower(name).as_str())
}

/// The exit code of a program, -1 where a signal ended it.
pub open spec fn code_of(code: Option<i32>) -> int {
    match code {
        Some(c) => c as int,
        None => -1,
    }
}

/// An installer's exit code means success: 0, or 3010, which asks for a
/// restart.
pub open spec fn succeeded(code: int) -> bool {
    code == 0 || code == 3010
}

/// How an installer's run ended.
pub enum InstallerRun {
    /// It could not be started.
    NotStarted(String),
    /// It ended with this code, if it has one.
    Exited(Option<i32>),
}

/// The driver's state: installed before, its installer missing, or as its
/// installer's run ended.
pub open spec fn pawnio_state(
    installed: bool,
    installer_exists: bool,
    run: InstallerRun,
) -> PawnIOView {
    if installed {
        PawnIOView::AlreadyInstalled
    } else if !installer_exists {
        PawnIOView::InstallerMissing
    } else {
        match run {
            InstallerRun::NotStarted(e) => PawnIOView::Failed(
                "Failed to run PawnIO installer: "@ + e@,
            ),
            InstallerRun::Exited(c) => if succeeded(code_of(c)) {
                PawnIOView::Installed
            } else {
                PawnIOView::Failed(
                    "PawnIO installer exited with code "@ + signed_dec(code_of(c)),
                )
            },
        }
    }
}

/// Tells the driver's state from what was found and how its installer's run
/// ended.
pub fn ensure_pawnio(installed: bool, installer_exists: bool, run: InstallerRun) -> (r:
    PawnIOStatus)
    ensures
        r@ == pawnio_state(installed, installer_exists, run),
{
    if installed {
        return PawnIOStatus::AlreadyInstalled;
    }
    if !installer_exists {
        return PawnIOStatus::InstallerMissing;
    }
    let mut s = String::new();
    match &run {
        InstallerRun::NotStarted(e) => {
            s.append("Failed to run PawnIO installer: ");
            s.append(e.as_str());
            assert(s@ =~= "Failed to run PawnIO installer: "@ + e@);
            PawnIOStatus::Failed(s)
        },
        InstallerRun::Exited(c) => {
            let code: i32 = match c {
                Some(x) => *x,
                None => -1,
            };
            if code == 0 || code == 3010 {
                PawnIOStatus::Installed
            } else {
                s.append("PawnIO installer exited with code ");
                push_signed_dec(&mut s, code);
                assert(s@ =~= "PawnIO installer exited with code "@ + signed_dec(code as int));
                PawnIOStatus::Failed(s)
            }
        },
    }
}

/// Why the driver could not be removed; nothing if it was.
pub open spec fn uninstall_failure(
    dir_known: bool,
    installer_exists: bool,
    run: InstallerRun,
) -> Option<Seq<char>> {
    if !dir_known {
        Some("Could not determine app data directory"@)
    } else if !installer_exists {
        Some("PawnIO installer not found"@)
    } else {
        match run {
            InstallerRun::NotStarted(e) => Some("Failed to run installer: "@ + e@),
            InstallerRun::Exited(c) => if succeeded(code_of(c)) {
                None
            } else {
                Some("Installer exited with code "@ + signed_dec(code_of(c)))
            },
        }
    }
}

/// The driver counts as there exactly where it was there before or its installer
/// was there and ended with 0 or 3010.  How an installer ended does not matter
/// where the driver was there before.
pub proof fn lemma_driver_is_there(installed: bool, installer_exists: bool, run: InstallerRun)
    ensures
        ({
            let s = pawnio_state(installed, installer_exists, run);
            let went_well = run is Exited && (run->Exited_0 == Some(0i32) || run->Exited_0 == Some(
                3010i32,
            ));
            &&& s == PawnIOView::AlreadyInstalled <==> installed
            &&& s == PawnIOView::Installed <==> !installed && installer_exists && went_well
            &&& s == PawnIOView::InstallerMissing <==> !installed && !installer_exists
            &&& s is Failed <==> !installed && installer_exists && !went_well
        }),
{
}

/// The driver counts as removed exactly where its installer was there and ended
/// with 0 or 3010.
pub proof fn lemma_driver_is_removed(dir_known: bool, installer_exists: bool, run: InstallerRun)
    ensures
        uninstall_failure(dir_known, installer_exists, run) is None <==> dir_known
            && installer_exists && run is Exited && (run->Exited_0 == Some(0i32) || run->Exited_0
            == Some(3010i32)),
{
}

/// Tells whether the driver was removed.
pub fn uninstall_pawnio(dir_known: bool, installer_exists: bool, run: InstallerRun) -> (r: Result<
    (),
    String,
>)
    ensures
        match r {
            Ok(_) => uninstall_failure(dir_known, installer_exists, run) is None,
            Err(e) => uninstall_failure(dir_known, installer_exists, run) == Some(e@),
        },
{
    let mut s = String::new();
    if !dir_known {
        s.append("Could not determine app data directory");
        assert(s@ =~= "Could not determine app data directory"@);
        return Err(s);
    }
    if !installer_exists {
        s.append("PawnIO installer not found");
        assert(s@ =~= "PawnIO installer not found"@);
        return Err(s);
    }
    match &run {
        InstallerRun::NotStarted(e) => {
            s.append("Failed to run installer: ");
            s.append(e.as_str());
            assert(s@ =~= "Failed to run installer: "@ + e@);
            Err(s)
        },
        InstallerRun::Exited(c) => {
            let code: i32 = match c {
                Some(x) => *x,
                None => -1,
            };
            if code == 0 || code == 3010 {
                Ok(())
            } else {
                s.append("Installer exited with code ");
                push_signed_dec(&mut s, code);
                assert(s@ =~= "Installer exited with code "@ + signed_dec(code as int));
                Err(s)
            }
        },
    }
}

/// What to do about a driver that an old version set up by hand.
pub fn removes_old_service(installed: bool, service_exists: bool) -> (r: bool)
    ensures
        r == (!installed && service_exists),
{
    !installed && service_exists
}

// ---------------------------------------------------------------------------
// Readings

/// A GPU in a reading.
#[derive(Debug, Clone)]
pub struct LhmGpu {
    pub name: String,
    pub temp: Option<i64>,
    pub sensor: Option<String>,
    pub load: Option<i64>,
}

/// A GPU's contents.
pub ghost struct LhmGpuView {
    pub name: Seq<char>,
    pub temp: Option<int>,
    pub sensor: Option<Seq<char>>,
    pub load: Option<int>,
}

impl View for LhmGpu {
    type V = LhmGpuView;

    open spec fn view(&self) -> LhmGpuView {
        LhmGpuView {
            name: self.name@,
            temp: int_of(self.temp),
            sensor: text_of(self.sensor),
            load: int_of(self.load),
        }
    }
}

/// The contents of a list of GPUs.
pub open spec fn lhm_views(v: Seq<LhmGpu>) -> Seq<LhmGpuView> {
    v.map_values(|g: LhmGpu| g@)
}

/// One reading from ThermalReader.exe
#[derive(Debug, Clone)]
pub struct LhmSample {
    pub cpu_temp: Option<i64>,
    pub cpu_sensor: Option<String>,
    pub gpus: Vec<LhmGpu>,
}

/// A reading's contents.
pub ghost struct LhmView {
    pub cpu_temp: Option<int>,
    pub cpu_sensor: Option<Seq<char>>,
    pub gpus: Seq<LhmGpuView>,
}

impl View for LhmSample {
    type V = LhmView;

    open spec fn view(&self) -> LhmView {
        LhmView {
            cpu_temp: int_of(self.cpu_temp),
            cpu_sensor: text_of(self.cpu_sensor),
            gpus: lhm_views(self.gpus@),
        }
    }
}

/// A text, empty where the value is none.
pub open spec fn text_or_empty(n: Option<NodeView>) -> Seq<char> {
    match as_text(n) {
        Some(s) => s,
        None => Seq::empty(),
    }
}

/// The GPU that an entry of the list stands for.
pub open spec fn listed_gpu(
    name: Option<NodeView>,
    temp: Option<NodeView>,
    sensor: Option<NodeView>,
    load: Option<NodeView>,
) -> LhmGpuView {
    LhmGpuView {
        name: text_or_empty(name),
        temp: as_number(temp),
        sensor: as_text(sensor),
        load: as_number(load),
    }
}

/// The GPUs of a reading: the listed ones, or the single one of the first
/// format where none is listed.
pub open spec fn all_gpus(
    listed: Seq<LhmGpuView>,
    gpu: Option<NodeView>,
    gpu_name: Option<NodeView>,
) -> Seq<LhmGpuView> {
    if listed.len() == 0 && as_number(gpu) is Some {
        seq![
            LhmGpuView {
                name: text_or_empty(gpu_name),
                temp: as_number(gpu),
                sensor: None,
                load: None,
            },
        ]
    } else {
        listed
    }
}

/// The single GPU of the first format counts only where none is listed; listed
/// ones are kept as they are and in their order.
pub proof fn lemma_listed_gpus_come_first(
    listed: Seq<LhmGpuView>,
    gpu: Option<NodeView>,
    gpu_name: Option<NodeView>,
)
    ensures
        listed.len() > 0 ==> all_gpus(listed, gpu, gpu_name) == listed,
        listed.len() == 0 && as_number(gpu) is None ==> all_gpus(listed, gpu, gpu_name).len() == 0,
        listed.len() == 0 && as_number(gpu) is Some ==> all_gpus(listed, gpu, gpu_name).len() == 1
            && all_gpus(listed, gpu, gpu_name)[0].temp == as_number(gpu) && all_gpus(
            listed,
            gpu,
            gpu_name,
        )[0].load is None,
{
}

/// The reading that these values stand for.
pub open spec fn sample_of(
    listed: Seq<LhmGpuView>,
    gpu: Option<NodeView>,
    gpu_name: Option<NodeView>,
    cpu: Option<NodeView>,
    cpu_sensor: Option<NodeView>,
) -> LhmView {
    LhmView {
        cpu_temp: as_number(cpu),
        cpu_sensor: as_text(cpu_sensor),
        gpus: all_gpus(listed, gpu, gpu_name),
    }
}

/// The place of a field of the `i`th listed GPU.
pub open spec fn gpu_path(i: nat, field: Seq<char>) -> Seq<char> {
    "/gpus/"@ + dec(i) + field
}

/// The `i`th listed GPU.
pub open spec fn nth_gpu(doc: Seq<char>, i: nat) -> LhmGpuView {
    listed_gpu(
        json_node(doc, gpu_path(i, "/name"@)),
        json_node(doc, gpu_path(i, "/temp"@)),
        json_node(doc, gpu_path(i, "/sensor"@)),
        json_node(doc, gpu_path(i, "/load"@)),
    )
}

/// The listed GPUs.
pub open spec fn listed_gpus(doc: Seq<char>) -> Seq<LhmGpuView> {
    match as_list(json_node(doc, "/gpus"@)) {
        Some(n) => Seq::new(n, |i: int| nth_gpu(doc, i as nat)),
        None => Seq::empty(),
    }
}

/// The reading in a line, if it is JSON.
pub open spec fn line_sample(line: Seq<char>) -> Option<LhmView> {
    let doc = trimmed(line);
    match json_node(doc, ""@) {
        Some(_) => Some(
            sample_of(
                listed_gpus(doc),
                json_node(doc, "/gpu"@),
                json_node(doc, "/gpuName"@),
                json_node(doc, "/cpu"@),
                json_node(doc, "/cpuSensor"@),
            ),
        ),
        None => None,
    }
}

/// A line of the helper is a reading exactly where it is JSON.  The CPU's
/// temperature is the number under "cpu"; each listed GPU has its own name,
/// temperature, sensor and load, and none of them takes another's.
pub proof fn lemma_line(line: Seq<char>, i: nat)
    ensures
        ({
            let doc = trimmed(line);
            let r = line_sample(line);
            let count = as_list(json_node(doc, "/gpus"@));
            let at = "/gpus/"@ + dec(i);
            &&& r is Some <==> json_node(doc, ""@) is Some
            &&& r is Some ==> {
                &&& r->0.cpu_temp == as_number(json_node(doc, "/cpu"@))
                &&& r->0.cpu_sensor == as_text(json_node(doc, "/cpuSensor"@))
                &&& count is Some && i < count->0 ==> {
                    &&& r->0.gpus.len() == count->0
                    &&& r->0.gpus[i as int].temp == as_number(json_node(doc, at + "/temp"@))
                    &&& r->0.gpus[i as int].load == as_number(json_node(doc, at + "/load"@))
                    &&& r->0.gpus[i as int].sensor == as_text(json_node(doc, at + "/sensor"@))
                    &&& as_text(json_node(doc, at + "/name"@)) is Some ==> Some(
                        r->0.gpus[i as int].name,
                    ) == as_text(json_node(doc, at + "/name"@))
                }
                &&& (count is None || count->0 == 0) && as_number(json_node(doc, "/gpu"@)) is Some
                    ==> r->0.gpus.len() == 1 && r->0.gpus[0].temp == as_number(
                    json_node(doc, "/gpu"@),
                )
            }
        }),
{
}

fn text_in_or_empty(n: Option<Node>) -> (r: String)
    ensures
        r@ == text_or_empty(node_of(n)),
{
    match text_in(n) {
        Some(s) => s,
        None => String::new(),
    }
}

impl LhmGpu {
    /// The GPU that an entry of the list stands for.
    pub fn listed(
        name: Option<Node>,
        temp: Option<Node>,
        sensor: Option<Node>,
        load: Option<Node>,
    ) -> (r: LhmGpu)
        ensures
            r@ == listed_gpu(node_of(name), node_of(temp), node_of(sensor), node_of(load)),
    {
        LhmGpu {
            name: text_in_or_empty(name),
            temp: number_in(temp),
            sensor: text_in(sensor),
            load: number_in(load),
        }
    }
}

fn path_of(i: usize, field: &str) -> (r: String)
    ensures
        r@ == gpu_path(i as nat, field@),
{
    let mut r = String::new();
    r.append("/gpus/");
    push_dec(&mut r, i as u64);
    r.append(field);
    assert(r@ =~= gpu_path(i as nat, field@));
    r
}

impl LhmSample {
    /// The reading that these values stand for.
    pub fn of_values(
        listed: Vec<LhmGpu>,
        gpu: Option<Node>,
        gpu_name: Option<Node>,
        cpu: Option<Node>,
        cpu_sensor: Option<Node>,
    ) -> (r: LhmSample)
        ensures
            r@ == sample_of(
                lhm_views(listed@),
                node_of(gpu),
                node_of(gpu_name),
                node_of(cpu),
                node_of(cpu_sensor),
            ),
    {
        let mut gpus: Vec<LhmGpu> = listed;
        if gpus.len() == 0 {
            match number_in(gpu) {
                Some(temp) => {
                    let g = LhmGpu {
                        name: text_in_or_empty(gpu_name),
                        temp: Some(temp),
                        sensor: None,
                        load: None,
                    };
                    let ghost gv = g@;
                    gpus.push(g);
                    assert(lhm_views(gpus@) =~= seq![gv]);
                },
                None => {},
            }
        }
        LhmSample { cpu_temp: number_in(cpu), cpu_sensor: text_in(cpu_sensor), gpus }
    }

    /// Parse one JSON object. Understands both the streaming format (with a
    /// "gpus" array) and the original one-shot format ("gpu" + "gpuName").
    pub fn parse(line: &str) -> (r: Option<LhmSample>)
        ensures
            match r {
                Some(s) => line_sample(line@) == Some(s@),
                None => line_sample(line@) is None,
            },
    {
        let text = trim_str(line);
        let doc = text.as_str();
        if json_at(doc, "").is_none() {
            return None;
        }
        let mut gpus: Vec<LhmGpu> = Vec::new();
        let n: usize = match list_in(json_at(doc, "/gpus")) {
            Some(n) => n,
            None => 0,
        };
        let mut i: usize = 0;
        while i < n
            invariant
                i <= n,
                doc@ == trimmed(line@),
                lhm_views(gpus@) == Seq::new(i as nat, |k: int| nth_gpu(doc@, k as nat)),
            decreases n - i,
        {
            let g = LhmGpu::listed(
                json_at(doc, path_of(i, "/name").as_str()),
                json_at(doc, path_of(i, "/temp").as_str()),
                json_at(doc, path_of(i, "/sensor").as_str()),
                json_at(doc, path_of(i, "/load").as_str()),
            );
            let ghost before = lhm_views(gpus@);
            let ghost gv = g@;
            gpus.push(g);
            assert(lhm_views(gpus@) =~= before.push(gv));
            i = i + 1;
            assert(lhm_views(gpus@) =~= Seq::new(i as nat, |k: int| nth_gpu(doc@, k as nat)));
        }
        assert(lhm_views(gpus@) =~= listed_gpus(doc@));
        Some(
            LhmSample::of_values(
                gpus,
                json_at(doc, "/gpu"),
                json_at(doc, "/gpuName"),
                json_at(doc, "/cpu"),
                json_at(doc, "/cpuSensor"),
            ),
        )
    }
}

// ---------------------------------------------------------------------------
// Keeping the helper running

/// Whether a reading of this age is recent enough to trust.
pub fn is_fresh(age: u64) -> (r: bool)
    ensures
        r == (age < 6 * SECOND),
{
    age < 6 * SECOND
}

/// How the helper is to be run from here on.
#[derive(Debug, Clone, Copy, PartialEq, Eq, Structural)]
pub enum StreamNext {
    /// Start it again in streaming mode.
    Stream,
    /// Run it once a second.
    Poll,
    /// Not at all.
    Quit,
}

/// How the helper is to be run, by how often it has failed.
pub open spec fn first_stream(stopped: bool, failures: int) -> StreamNext {
    if stopped {
        StreamNext::Quit
    } else if failures < 3 {
        StreamNext::Stream
    } else {
        StreamNext::Poll
    }
}

/// How the helper is to be run, by how often it has failed.
pub fn stream_start(stopped: bool, failures: u32) -> (r: StreamNext)
    ensures
        r == first_stream(stopped, failures as int),
{
    if stopped {
        StreamNext::Quit
    } else if failures < 3 {
        StreamNext::Stream
    } else {
        StreamNext::Poll
    }
}

/// How the helper is to be run after a stream has ended, and how often it has
/// failed then.
pub open spec fn next_stream(stopped: bool, readings: int, lasted: int, failures: int) -> (
    StreamNext,
    int,
) {
    if stopped {
        (StreamNext::Quit, failures)
    } else if readings <= 1 && lasted < 10 * SECOND {
        (StreamNext::Poll, failures)
    } else if failures + 1 < 3 {
        (StreamNext::Stream, failures + 1)
    } else {
        (StreamNext::Poll, failures + 1)
    }
}

/// A helper is no longer run once it is to stop, and a stream is tried three
/// times at most: it is tried again only after one that gave more than one
/// reading or went on for ten seconds, and each time counts.
pub proof fn lemma_stream_is_tried_three_times(
    stopped: bool,
    readings: int,
    lasted: int,
    failures: int,
)
    requires
        0 <= failures < 3,
    ensures
        ({
            let (next, count) = next_stream(stopped, readings, lasted, failures);
            &&& next == StreamNext::Quit <==> stopped
            &&& next == StreamNext::Stream <==> !stopped && failures <= 1 && (readings >= 2
                || lasted >= 10_000_000_000)
            &&& next == StreamNext::Stream ==> count == failures + 1
            &&& failures <= count <= 3
        }),
        first_stream(stopped, failures) == StreamNext::Quit <==> stopped,
        !stopped ==> first_stream(stopped, failures) == StreamNext::Stream,
        !stopped ==> first_stream(stopped, 3) == StreamNext::Poll,
{
}

/// How the helper is to be run after a stream has ended, and how often it has
/// failed then.  One reading and then the end within ten seconds means a
/// helper that cannot stream.
pub fn stream_ended(stopped: bool, readings: u32, lasted: u64, failures: u32) -> (r: (
    StreamNext,
    u32,
))
    requires
        failures < 3,
    ensures
        r.0 == next_stream(stopped, readings as int, lasted as int, failures as int).0,
        r.1 == next_stream(stopped, readings as int, lasted as int, failures as int).1,
{
    if stopped {
        (StreamNext::Quit, failures)
    } else if readings <= 1 && lasted < 10 * SECOND {
        (StreamNext::Poll, failures)
    } else {
        (stream_start(false, failures + 1), failures + 1)
    }
}

/// How long to wait once a run has taken this long.
pub open spec fn rest_of_second(took: int) -> int {
    if took >= 800 * MILLI {
        200 * MILLI
    } else {
        SECOND - took
    }
}

/// A helper is run once a second where that leaves a fifth of a second between
/// two runs, and never without one.
pub proof fn lemma_polls_once_a_second(took: int)
    requires
        took >= 0,
    ensures
        rest_of_second(took) >= 200_000_000,
        took <= 800_000_000 ==> took + rest_of_second(took) == 1_000_000_000,
        took > 800_000_000 ==> rest_of_second(took) == 200_000_000,
{
}

/// How long to wait once a run has taken this long: until a second is over, and
/// at least a fifth of one.
pub fn poll_wait(took: u64) -> (r: u64)
    ensures
        r == rest_of_second(took as int),
{
    if took >= 800 * MILLI {
        200 * MILLI
    } else {
        SECOND - took
    }
}

} // verus!
